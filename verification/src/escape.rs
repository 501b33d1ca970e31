//! Lexical quoting for Nushell tokens.
//!
//! A string is emitted bare when every character belongs to a small
//! allow-list common in paths and identifiers; anything else is wrapped in
//! Nushell's raw-string syntax `r#'...'#`, which disables all interpolation
//! and escape processing between its delimiters.  Raw strings take any
//! number of hashes (`r##'...'##`, and so on), so the escaper counts up to
//! the first delimiter that does not occur in the payload: every string,
//! including one holding `'#`, round-trips through the emitted token.

use vstd::prelude::*;
use vstd::string::StrSliceExecFns;
use vstd::string::StringExecFns;

verus! {

/// Characters that may appear in a bare (unquoted) Nushell token.
pub open spec fn is_allowed_char(c: char) -> bool {
    ('a' <= c && c <= 'z') || ('A' <= c && c <= 'Z') || ('0' <= c && c <= '9') || c == '-' || c
        == '_' || c == '=' || c == '/' || c == ',' || c == '.' || c == '+'
}

/// A string may be emitted bare when every character is allow-listed.
/// The empty string is bare-safe by definition.
pub open spec fn bare_safe(s: Seq<char>) -> bool {
    forall|i: int| 0 <= i < s.len() ==> is_allowed_char(s[i])
}

/// Opening delimiter of a Nushell raw string with `n` hashes: `r`, the
/// hashes, then a single quote.
pub open spec fn raw_open(n: nat) -> Seq<char> {
    seq!['r'] + Seq::new(n, |i: int| '#') + seq!['\'']
}

/// Closing delimiter of a Nushell raw string with `n` hashes: a single
/// quote, then the hashes.
pub open spec fn raw_close(n: nat) -> Seq<char> {
    seq!['\''] + Seq::new(n, |i: int| '#')
}

/// The pattern `p` occurs in `s` at position `i`.
pub open spec fn contains_at(s: Seq<char>, p: Seq<char>, i: int) -> bool {
    0 <= i && i + p.len() <= s.len() && s.subrange(i, i + p.len()) == p
}

/// The pattern `p` occurs somewhere in `s`.
pub open spec fn contains_seq(s: Seq<char>, p: Seq<char>) -> bool {
    exists|i: int| contains_at(s, p, i)
}

/// The smallest hash count, at least `n`, whose closing delimiter does
/// not occur in `s`.  A delimiter longer than `s` cannot occur in it, so
/// the search always stops.
pub open spec fn min_hashes_from(s: Seq<char>, n: nat) -> nat
    decreases s.len() + 2 - n,
{
    if contains_seq(s, raw_close(n)) {
        min_hashes_from(s, n + 1)
    } else {
        n
    }
}

/// The hash count the escaper uses for `s`: the smallest count from one
/// up whose closing delimiter is collision-free in `s`.
pub open spec fn hash_count(s: Seq<char>) -> nat {
    min_hashes_from(s, 1)
}

proof fn lemma_min_hashes(s: Seq<char>, n: nat)
    ensures
        min_hashes_from(s, n) >= n,
        !contains_seq(s, raw_close(min_hashes_from(s, n))),
    decreases s.len() + 2 - n,
{
    if contains_seq(s, raw_close(n)) {
        lemma_min_hashes(s, n + 1);
    }
}

/// The escaped form of a string: itself when bare-safe, otherwise the
/// string wrapped in raw-string delimiters whose hash count is chosen so
/// that the closing delimiter never occurs in the payload.
pub open spec fn escape_seq(s: Seq<char>) -> Seq<char> {
    if bare_safe(s) {
        s
    } else {
        raw_open(hash_count(s)) + s + raw_close(hash_count(s))
    }
}

/// `t` is a well-formed raw-string token with `n` hashes: the opening
/// delimiter, a body free of the closing delimiter, and the closing
/// delimiter.
pub open spec fn raw_token(t: Seq<char>, n: nat) -> bool {
    &&& t.len() >= 2 * n + 3
    &&& t.subrange(0, n as int + 2) == raw_open(n)
    &&& t.subrange(t.len() - (n + 1), t.len() as int) == raw_close(n)
    &&& !contains_seq(t.subrange(n as int + 2, t.len() - (n + 1)), raw_close(n))
}

/// The string a Nushell lexer reads back from a token this escaper can
/// emit: a bare word of allow-listed characters denotes itself, and a
/// well-formed raw string denotes its body.  Any other shape is not a
/// single token of the forms used here.
pub open spec fn token_value(t: Seq<char>) -> Option<Seq<char>> {
    if bare_safe(t) {
        Some(t)
    } else if exists|n: nat| raw_token(t, n) {
        let n = choose|n: nat| raw_token(t, n);
        Some(t.subrange(n as int + 2, t.len() - (n + 1)))
    } else {
        None
    }
}

/// The hash count of a well-formed raw token is determined by its opening
/// delimiter: the quote sits right after the hashes, so no other count
/// fits the same token.
proof fn lemma_raw_token_unique(t: Seq<char>, a: nat, b: nat)
    requires
        raw_token(t, a),
        raw_token(t, b),
    ensures
        a == b,
{
    if a < b {
        assert(t.subrange(0, a as int + 2)[a as int + 1] == raw_open(a)[a as int + 1]);
        assert(raw_open(a)[a as int + 1] == '\'');
        assert(t.subrange(0, b as int + 2)[a as int + 1] == raw_open(b)[a as int + 1]);
        assert(raw_open(b)[a as int + 1] == '#');
        assert(t[a as int + 1] == '\'');
        assert(t[a as int + 1] == '#');
    } else if b < a {
        assert(t.subrange(0, b as int + 2)[b as int + 1] == raw_open(b)[b as int + 1]);
        assert(raw_open(b)[b as int + 1] == '\'');
        assert(t.subrange(0, a as int + 2)[b as int + 1] == raw_open(a)[b as int + 1]);
        assert(raw_open(a)[b as int + 1] == '#');
        assert(t[b as int + 1] == '\'');
        assert(t[b as int + 1] == '#');
    }
}

/// A string with every backslash and double quote preceded by a
/// backslash, as required when interpolating a path into a double-quoted
/// Nushell string: the shell decodes the quoted text back to the original.
pub open spec fn dquote_escaped(s: Seq<char>) -> Seq<char>
    decreases s.len(),
{
    if s.len() == 0 {
        Seq::empty()
    } else {
        (if s[0] == '\\' {
            seq!['\\', '\\']
        } else if s[0] == '"' {
            seq!['\\', '"']
        } else {
            seq![s[0]]
        }) + dquote_escaped(s.drop_first())
    }
}

proof fn lemma_dquote_escaped_push(s: Seq<char>, c: char)
    ensures
        dquote_escaped(s.push(c)) == dquote_escaped(s) + (if c == '\\' {
            seq!['\\', '\\']
        } else if c == '"' {
            seq!['\\', '"']
        } else {
            seq![c]
        }),
    decreases s.len(),
{
    let tail: Seq<char> = if c == '\\' {
        seq!['\\', '\\']
    } else if c == '"' {
        seq!['\\', '"']
    } else {
        seq![c]
    };
    if s.len() == 0 {
        assert(s.push(c)[0] == c);
        assert(s.push(c).drop_first() =~= Seq::<char>::empty());
        assert(dquote_escaped(s.push(c)) == tail + dquote_escaped(Seq::<char>::empty()));
        assert(dquote_escaped(s) == Seq::<char>::empty());
        assert(tail + Seq::<char>::empty() =~= Seq::<char>::empty() + tail);
    } else {
        let head: Seq<char> = if s[0] == '\\' {
            seq!['\\', '\\']
        } else if s[0] == '"' {
            seq!['\\', '"']
        } else {
            seq![s[0]]
        };
        assert(s.push(c)[0] == s[0]);
        assert(s.push(c).drop_first() =~= s.drop_first().push(c));
        lemma_dquote_escaped_push(s.drop_first(), c);
        assert(dquote_escaped(s.push(c)) == head + (dquote_escaped(s.drop_first()) + tail));
        assert(head + (dquote_escaped(s.drop_first()) + tail) =~= (head + dquote_escaped(
            s.drop_first(),
        )) + tail);
    }
}

/// Escape `s` for interpolation into a double-quoted Nushell string:
/// every backslash and double quote gains a preceding backslash, and all
/// other characters stay as they are.
pub fn escape_dquotes(s: &str) -> (r: String)
    ensures
        r@ == dquote_escaped(s@),
{
    let n = s.unicode_len();
    let mut out = String::new();
    let mut i: usize = 0;
    proof {
        assert(s@.take(0) =~= Seq::<char>::empty());
    }
    while i < n
        invariant
            n == s@.len(),
            i <= n,
            out@ == dquote_escaped(s@.take(i as int)),
        decreases n - i,
    {
        let c = s.get_char(i);
        if c == '\\' {
            proof {
                reveal_strlit("\\\\");
            }
            out.append("\\\\");
            proof {
                assert("\\\\"@ =~= seq!['\\', '\\']);
            }
        } else if c == '"' {
            proof {
                reveal_strlit("\\\"");
            }
            out.append("\\\"");
            proof {
                assert("\\\""@ =~= seq!['\\', '"']);
            }
        } else {
            let piece = s.substring_char(i, i + 1);
            out.append(piece);
            proof {
                assert(piece@ =~= seq![s@[i as int]]);
            }
        }
        proof {
            assert(s@.take(i + 1 as int) =~= s@.take(i as int).push(s@[i as int]));
            lemma_dquote_escaped_push(s@.take(i as int), s@[i as int]);
        }
        i = i + 1;
    }
    proof {
        assert(s@.take(n as int) =~= s@);
    }
    out
}

/// Whether the closing delimiter with `n` hashes occurs in `s`.
fn contains_raw_close(s: &str, n: usize) -> (r: bool)
    ensures
        r == contains_seq(s@, raw_close(n as nat)),
{
    let len = s.unicode_len();
    if n >= len {
        proof {
            assert(raw_close(n as nat).len() == n + 1);
            assert(!contains_seq(s@, raw_close(n as nat))) by {
                if contains_seq(s@, raw_close(n as nat)) {
                    let i = choose|i: int| contains_at(s@, raw_close(n as nat), i);
                    assert(i + n + 1 <= len);
                }
            }
        }
        return false;
    }
    let mut i: usize = 0;
    while i < len - n
        invariant
            n < len,
            len == s@.len(),
            i <= len - n,
            forall|j: int| 0 <= j < i ==> !contains_at(s@, raw_close(n as nat), j),
        decreases len - n - i,
    {
        if s.get_char(i) == '\'' {
            let mut k: usize = 0;
            let mut all_hashes = true;
            while all_hashes && k < n
                invariant
                    n < len,
                    len == s@.len(),
                    i < len - n,
                    k <= n,
                    all_hashes ==> forall|j: int| 1 <= j <= k ==> #[trigger] s@[i + j] == '#',
                    !all_hashes ==> exists|j: int| 1 <= j <= n && #[trigger] s@[i + j] != '#',
                decreases n - k + (if all_hashes {
                    1int
                } else {
                    0int
                }),
            {
                if s.get_char(i + 1 + k) != '#' {
                    proof {
                        assert(s@[i + (k + 1)] != '#');
                    }
                    all_hashes = false;
                } else {
                    proof {
                        assert(s@[i + (k + 1)] == '#');
                    }
                    k = k + 1;
                }
            }
            if all_hashes {
                proof {
                    assert(s@.subrange(i as int, i + n + 1 as int) =~= raw_close(n as nat)) by {
                        assert(s@[i as int] == '\'');
                        assert(raw_close(n as nat)[0] == '\'');
                        assert(forall|j: int|
                            1 <= j <= n ==> #[trigger] raw_close(n as nat)[j] == '#');
                        assert(forall|j: int|
                            0 <= j < n + 1 ==> #[trigger] s@.subrange(i as int, i + n + 1 as int)[j]
                                == s@[i + j]);
                    }
                    assert(contains_at(s@, raw_close(n as nat), i as int));
                }
                return true;
            }
            proof {
                assert(!contains_at(s@, raw_close(n as nat), i as int)) by {
                    if contains_at(s@, raw_close(n as nat), i as int) {
                        let j = choose|j: int| 1 <= j <= n && #[trigger] s@[i + j] != '#';
                        assert(s@.subrange(i as int, i + n + 1 as int)[j] == s@[i + j]);
                        assert(raw_close(n as nat)[j] == '#');
                    }
                }
            }
        } else {
            proof {
                assert(!contains_at(s@, raw_close(n as nat), i as int)) by {
                    if contains_at(s@, raw_close(n as nat), i as int) {
                        assert(s@.subrange(i as int, i + n + 1 as int)[0] == s@[i as int]);
                        assert(raw_close(n as nat)[0] == '\'');
                    }
                }
            }
        }
        i = i + 1;
    }
    proof {
        assert(!contains_seq(s@, raw_close(n as nat))) by {
            if contains_seq(s@, raw_close(n as nat)) {
                let j = choose|j: int| contains_at(s@, raw_close(n as nat), j);
                assert(j + n + 1 <= len);
                assert(j < len - n);
                assert(!contains_at(s@, raw_close(n as nat), j));
            }
        }
    }
    false
}

/// The smallest hash count, from one up, whose closing delimiter does not
/// occur in `s`.
pub fn min_hash_count(s: &str) -> (n: usize)
    ensures
        n >= 1,
        n as nat == hash_count(s@),
{
    let len = s.unicode_len();
    let mut n: usize = 1;
    while contains_raw_close(s, n)
        invariant
            len == s@.len(),
            1 <= n,
            min_hashes_from(s@, 1) == min_hashes_from(s@, n as nat),
        decreases s@.len() + 2 - n,
    {
        proof {
            let i = choose|i: int| contains_at(s@, raw_close(n as nat), i);
            assert(i + n + 1 <= len);
            assert(min_hashes_from(s@, n as nat) == min_hashes_from(s@, n as nat + 1));
        }
        n = n + 1;
    }
    proof {
        assert(min_hashes_from(s@, n as nat) == n as nat);
    }
    n
}

/// Append `n` hash characters to `out`.
pub fn append_hashes(out: &mut String, n: usize)
    ensures
        final(out)@ == old(out)@ + Seq::new(n as nat, |i: int| '#'),
{
    let mut k: usize = 0;
    proof {
        assert(old(out)@ + Seq::new(0, |i: int| '#') =~= old(out)@);
    }
    while k < n
        invariant
            k <= n,
            out@ == old(out)@ + Seq::new(k as nat, |i: int| '#'),
        decreases n - k,
    {
        proof {
            reveal_strlit("#");
        }
        out.append("#");
        proof {
            assert("#"@ =~= seq!['#']);
            assert(Seq::new((k + 1) as nat, |i: int| '#') =~= Seq::new(k as nat, |i: int| '#').push(
                '#',
            ));
            assert(old(out)@ + Seq::new(k as nat, |i: int| '#') + seq!['#'] =~= old(out)@
                + Seq::new((k + 1) as nat, |i: int| '#'));
        }
        k = k + 1;
    }
}

/// Law: escaping a bare-safe string is the identity; no wrapping occurs.
pub proof fn lemma_escape_bare_identity(s: Seq<char>)
    requires
        bare_safe(s),
    ensures
        escape_seq(s) == s,
{
}

/// Law: a string with a disallowed character is never emitted bare; the
/// escaped form strictly grows by the two raw-string delimiters.
pub proof fn lemma_escape_wraps(s: Seq<char>)
    requires
        !bare_safe(s),
    ensures
        escape_seq(s).len() == s.len() + 2 * hash_count(s) + 3,
        escape_seq(s) != s,
{
    lemma_min_hashes(s, 1);
    assert(escape_seq(s).len() == s.len() + 2 * hash_count(s) + 3);
}

/// Law: escaping round-trips for every string.  Lexing the emitted token
/// yields exactly the original string back, including when it holds
/// quotes, backslashes, newlines, or a raw-string closing delimiter such
/// as `'#` (the escaper then picks a longer delimiter).
pub proof fn lemma_escape_round_trip(s: Seq<char>)
    ensures
        token_value(escape_seq(s)) == Some(s),
{
    if !bare_safe(s) {
        lemma_min_hashes(s, 1);
        let m = hash_count(s);
        let t = raw_open(m) + s + raw_close(m);
        assert(raw_open(m).len() == m + 2);
        assert(raw_close(m).len() == m + 1);
        assert(t.len() == s.len() + 2 * m + 3);
        assert(t[m as int + 1] == raw_open(m)[m as int + 1]);
        assert(raw_open(m)[m as int + 1] == '\'');
        assert(!is_allowed_char('\''));
        assert(!bare_safe(t));
        assert(t.subrange(0, m as int + 2) =~= raw_open(m));
        assert(t.subrange(t.len() - (m + 1), t.len() as int) =~= raw_close(m));
        assert(t.subrange(m as int + 2, t.len() - (m + 1)) =~= s);
        assert(raw_token(t, m));
        let n = choose|n: nat| raw_token(t, n);
        lemma_raw_token_unique(t, n, m);
    }
}

} // verus!
