//! The environment-diff protocol, and a model of how the generated hook
//! script applies a batch of diff records to a shell session.
//!
//! The hook-env subprocess reports variable changes as ordered records of
//! operation, name and value.  The generated script applies them in order:
//! setting the search-path variable replaces the shell's path list with the
//! value split on the path-list separator; setting any other name binds it;
//! hiding a name removes it, tolerating absence.

use vstd::prelude::*;
use vstd::string::StrSliceExecFns;
use vstd::string::StringExecFns;

verus! {

/// The operation of one diff record: `Assign` carries the wire tag "set",
/// `Hide` the wire tag "hide".
#[derive(Clone, Copy, PartialEq, Eq, Structural, Debug)]
pub enum DiffOp {
    Assign,
    Hide,
}

/// One instruction of the wire protocol: operation, variable name, value.
/// For `Hide` the value is ignored (the encoder sends it empty).
pub struct EnvDiffRecord {
    pub op: DiffOp,
    pub name: String,
    pub value: String,
}

/// The name of the platform's search-path variable, which the hook script
/// treats specially: its value is a list, not a single string.
pub open spec fn path_var_name() -> Seq<char> {
    seq!['P', 'A', 'T', 'H']
}

/// The platform's path-list separator (distinct from the wire format's
/// column delimiter).
pub open spec fn path_sep() -> char {
    ':'
}

/// First index of `c` in `s`, or -1 when `c` does not occur.
pub open spec fn find_char(s: Seq<char>, c: char) -> int
    decreases s.len(),
{
    if s.len() == 0 {
        -1
    } else if s[0] == c {
        0
    } else if find_char(s.drop_first(), c) < 0 {
        -1
    } else {
        find_char(s.drop_first(), c) + 1
    }
}

proof fn lemma_find_char_props(s: Seq<char>, c: char)
    ensures
        find_char(s, c) < 0 ==> find_char(s, c) == -1 && (forall|i: int|
            0 <= i < s.len() ==> s[i] != c),
        find_char(s, c) >= 0 ==> find_char(s, c) < s.len() && s[find_char(s, c)] == c && (forall|
            i: int,
        |
            0 <= i < find_char(s, c) ==> s[i] != c),
    decreases s.len(),
{
    if s.len() == 0 {
    } else if s[0] == c {
    } else {
        lemma_find_char_props(s.drop_first(), c);
        let f = find_char(s.drop_first(), c);
        if f >= 0 {
            assert forall|i: int| 0 <= i < find_char(s, c) implies s[i] != c by {
                if i > 0 {
                    assert(s.drop_first()[i - 1] != c);
                }
            }
        } else {
            assert forall|i: int| 0 <= i < s.len() implies s[i] != c by {
                if i > 0 {
                    assert(s.drop_first()[i - 1] != c);
                }
            }
        }
    }
}

/// `s` split on `sep`; the split of a string without a separator is the
/// one-element list holding the string itself, so the split of the empty
/// string here is `[""]` (see `split_paths_seq` for the empty case).
pub open spec fn split_from(s: Seq<char>, sep: char) -> Seq<Seq<char>>
    decreases s.len(),
{
    let f = find_char(s, sep);
    if 0 <= f && f < s.len() {
        seq![s.subrange(0, f)] + split_from(s.subrange(f + 1, s.len() as int), sep)
    } else {
        seq![s]
    }
}

/// A path-list value split on the separator.  An empty value denotes the
/// empty list: splitting an undefined or empty variable must yield an
/// empty sequence, not a list holding one empty entry.
pub open spec fn split_paths_seq(s: Seq<char>) -> Seq<Seq<char>> {
    if s.len() == 0 {
        Seq::empty()
    } else {
        split_from(s, path_sep())
    }
}

/// Character-for-character string equality.
pub fn str_eq(a: &str, b: &str) -> (r: bool)
    ensures
        r == (a@ == b@),
{
    let na = a.unicode_len();
    let nb = b.unicode_len();
    if na != nb {
        return false;
    }
    let mut i: usize = 0;
    while i < na
        invariant
            na == a@.len(),
            nb == b@.len(),
            na == nb,
            i <= na,
            forall|j: int| 0 <= j < i ==> a@[j] == b@[j],
        decreases na - i,
    {
        if a.get_char(i) != b.get_char(i) {
            return false;
        }
        i = i + 1;
    }
    proof {
        assert(a@ =~= b@);
    }
    true
}

/// First index of the path-list separator in `s`, if any.
fn find_sep(s: &str) -> (r: Option<usize>)
    ensures
        match r {
            Some(i) => i < s@.len() && find_char(s@, path_sep()) == i as int,
            None => find_char(s@, path_sep()) == -1,
        },
{
    let n = s.unicode_len();
    let mut i: usize = 0;
    while i < n
        invariant
            n == s@.len(),
            i <= n,
            forall|j: int| 0 <= j < i ==> s@[j] != ':',
        decreases n - i,
    {
        if s.get_char(i) == ':' {
            proof {
                lemma_find_char_props(s@, ':');
                let f = find_char(s@, ':');
                if f < 0 {
                    assert(s@[i as int] != ':');
                } else if f < i {
                    assert(s@[f] != ':');
                } else if f > i {
                    assert(s@[i as int] != ':');
                }
            }
            return Some(i);
        }
        i = i + 1;
    }
    proof {
        lemma_find_char_props(s@, ':');
        let f = find_char(s@, ':');
        if f >= 0 {
            assert(s@[f] != ':');
        }
    }
    None
}

/// Split a string on the separator exactly as the `split_from` model
/// does; a string without a separator yields itself as the only entry.
fn split_all(s: &str) -> (r: Vec<String>)
    ensures
        r.deep_view() == split_from(s@, path_sep()),
{
    let mut out: Vec<String> = Vec::new();
    let mut rest: &str = s;
    let mut finished: bool = false;
    proof {
        assert(out.deep_view() =~= Seq::<Seq<char>>::empty());
        assert(Seq::<Seq<char>>::empty() + split_from(rest@, path_sep()) =~= split_from(
            s@,
            path_sep(),
        ));
    }
    while !finished
        invariant
            !finished ==> split_from(s@, path_sep()) == out.deep_view() + split_from(
                rest@,
                path_sep(),
            ),
            finished ==> out.deep_view() == split_from(s@, path_sep()),
        decreases rest@.len() + (if finished {
            0int
        } else {
            1int
        }),
    {
        let ghost out0 = out.deep_view();
        match find_sep(rest) {
            Some(i) => {
                let head = rest.substring_char(0, i);
                let m = rest.unicode_len();
                out.push(String::from_str(head));
                let next = rest.substring_char(i + 1, m);
                proof {
                    lemma_find_char_props(rest@, ':');
                    assert(split_from(rest@, path_sep()) == seq![rest@.subrange(0, i as int)]
                        + split_from(rest@.subrange(i + 1 as int, rest@.len() as int), path_sep()));
                    assert(out.deep_view() =~= out0.push(head@));
                    assert(out0.push(head@) =~= out0 + seq![head@]);
                    assert((out0 + seq![head@]) + split_from(next@, path_sep()) =~= out0 + (
                    seq![head@] + split_from(next@, path_sep())));
                }
                rest = next;
            },
            None => {
                out.push(String::from_str(rest));
                proof {
                    assert(split_from(rest@, path_sep()) == seq![rest@]);
                    assert(out.deep_view() =~= out0.push(rest@));
                    assert(out0.push(rest@) =~= out0 + seq![rest@]);
                }
                finished = true;
            },
        }
    }
    out
}

/// Split a path-list value on the separator; an empty value yields an
/// empty list.
pub fn split_paths(value: &str) -> (r: Vec<String>)
    ensures
        r.deep_view() == split_paths_seq(value@),
{
    if value.unicode_len() == 0 {
        let out: Vec<String> = Vec::new();
        proof {
            assert(out.deep_view() =~= split_paths_seq(value@));
        }
        out
    } else {
        split_all(value)
    }
}

/// Rebuild a path list from the current (possibly empty) value of the
/// path variable with `value` inserted at the front, as the generated
/// prepend statement does inside the shell.
pub fn prepend_paths(current: &str, value: &str) -> (r: Vec<String>)
    ensures
        r.deep_view() == seq![value@] + split_paths_seq(current@),
{
    let mut out: Vec<String> = Vec::new();
    out.push(String::from_str(value));
    let mut tail = split_paths(current);
    proof {
        assert(out.deep_view() =~= seq![value@]);
    }
    let ghost tail0 = tail.deep_view();
    out.append(&mut tail);
    proof {
        assert(out.deep_view() =~= seq![value@] + tail0);
    }
    out
}

/// The mathematical view of a shell session's environment: the search-path
/// list (absent when the variable is unset) and every other variable as a
/// map from name to value.
#[verifier::ext_equal]
pub ghost struct EnvModel {
    pub path: Option<Seq<Seq<char>>>,
    pub vars: Map<Seq<char>, Seq<char>>,
}

/// A session environment with no variables at all.
pub open spec fn empty_env() -> EnvModel {
    EnvModel { path: None, vars: Map::empty() }
}

/// An executable environment: the search-path list, if present, and the
/// remaining variables as an association list with pairwise-distinct names.
pub struct EnvState {
    pub path: Option<Vec<String>>,
    pub vars: Vec<(String, String)>,
}

/// No two entries of the association list share a name.
pub open spec fn distinct_names(l: Seq<(Seq<char>, Seq<char>)>) -> bool {
    forall|i: int, j: int| 0 <= i < j < l.len() ==> l[i].0 != l[j].0
}

/// The map an association list denotes; a later entry for the same name
/// would win, though well-formed states never hold one.
pub open spec fn assoc_map(l: Seq<(Seq<char>, Seq<char>)>) -> Map<Seq<char>, Seq<char>>
    decreases l.len(),
{
    if l.len() == 0 {
        Map::empty()
    } else {
        assoc_map(l.drop_last()).insert(l.last().0, l.last().1)
    }
}

proof fn lemma_assoc_map_contains(l: Seq<(Seq<char>, Seq<char>)>)
    ensures
        forall|k: Seq<char>|
            #[trigger] assoc_map(l).contains_key(k) <==> exists|i: int|
                0 <= i < l.len() && l[i].0 == k,
    decreases l.len(),
{
    if l.len() > 0 {
        lemma_assoc_map_contains(l.drop_last());
        assert forall|k: Seq<char>| #[trigger]
            assoc_map(l).contains_key(k) implies exists|i: int| 0 <= i < l.len() && l[i].0 == k by {
            if k == l.last().0 {
                assert(l[l.len() - 1].0 == k);
            } else {
                assert(assoc_map(l.drop_last()).contains_key(k));
                let i = choose|i: int| 0 <= i < l.drop_last().len() && l.drop_last()[i].0 == k;
                assert(l.drop_last()[i] == l[i]);
                assert(0 <= i < l.len() && l[i].0 == k);
            }
        }
        assert forall|k: Seq<char>|
            (exists|i: int| 0 <= i < l.len() && l[i].0 == k) implies #[trigger] assoc_map(
            l,
        ).contains_key(k) by {
            let i = choose|i: int| 0 <= i < l.len() && l[i].0 == k;
            if i < l.len() - 1 {
                assert(l.drop_last()[i].0 == k);
                assert(assoc_map(l.drop_last()).contains_key(k));
            }
        }
    }
}

proof fn lemma_assoc_map_get(l: Seq<(Seq<char>, Seq<char>)>, i: int)
    requires
        0 <= i < l.len(),
        distinct_names(l),
    ensures
        assoc_map(l).contains_key(l[i].0),
        assoc_map(l)[l[i].0] == l[i].1,
    decreases l.len(),
{
    if i < l.len() - 1 {
        assert(l.drop_last()[i] == l[i]);
        assert(distinct_names(l.drop_last())) by {
            assert(forall|a: int, b: int|
                0 <= a < b < l.drop_last().len() ==> l.drop_last()[a].0 != l.drop_last()[b].0);
        }
        lemma_assoc_map_get(l.drop_last(), i);
        assert(l[i].0 != l.last().0);
    }
}

proof fn lemma_assoc_map_remove(l: Seq<(Seq<char>, Seq<char>)>, i: int)
    requires
        0 <= i < l.len(),
        distinct_names(l),
    ensures
        assoc_map(l.remove(i)) == assoc_map(l).remove(l[i].0),
    decreases l.len(),
{
    let k = l[i].0;
    let dl = l.drop_last();
    assert(distinct_names(dl)) by {
        assert(forall|a: int, b: int| 0 <= a < b < dl.len() ==> dl[a].0 != dl[b].0);
    }
    if i == l.len() - 1 {
        assert(l.remove(i) =~= dl);
        lemma_assoc_map_contains(dl);
        assert(!assoc_map(dl).contains_key(k)) by {
            if assoc_map(dl).contains_key(k) {
                let j = choose|j: int| 0 <= j < dl.len() && dl[j].0 == k;
                assert(l[j].0 == l[i].0);
            }
        }
        assert(assoc_map(l).remove(k) =~= assoc_map(dl));
    } else {
        assert(l.remove(i).drop_last() =~= dl.remove(i));
        assert(l.remove(i).last() == l.last());
        assert(l.remove(i).len() > 0);
        lemma_assoc_map_remove(dl, i);
        assert(dl[i] == l[i]);
        assert(k != l.last().0);
        assert(assoc_map(l.remove(i)) == assoc_map(dl.remove(i)).insert(l.last().0, l.last().1));
        assert(assoc_map(dl).remove(k).insert(l.last().0, l.last().1) =~= assoc_map(dl).insert(
            l.last().0,
            l.last().1,
        ).remove(k));
    }
}

impl EnvState {
    /// Well-formed: no variable name occurs twice.
    pub open spec fn wf(&self) -> bool {
        distinct_names(self.vars.deep_view())
    }

    /// A fresh, never-activated environment.
    pub fn new() -> (r: EnvState)
        ensures
            r.wf(),
            r@ == empty_env(),
    {
        let r = EnvState { path: None, vars: Vec::new() };
        proof {
            assert(r.vars.deep_view() =~= Seq::<(Seq<char>, Seq<char>)>::empty());
            assert(r@ =~= empty_env());
        }
        r
    }

    /// Look a variable up by name.
    pub fn get_var(&self, name: &str) -> (r: Option<&String>)
        requires
            self.wf(),
        ensures
            match r {
                Some(v) => self@.vars.contains_key(name@) && v@ == self@.vars[name@],
                None => !self@.vars.contains_key(name@),
            },
    {
        let n = self.vars.len();
        let mut i: usize = 0;
        while i < n
            invariant
                n == self.vars.len(),
                i <= n,
                self.wf(),
                forall|j: int| 0 <= j < i ==> self.vars.deep_view()[j].0 != name@,
            decreases n - i,
        {
            if str_eq(self.vars[i].0.as_str(), name) {
                proof {
                    lemma_assoc_map_get(self.vars.deep_view(), i as int);
                }
                return Some(&self.vars[i].1);
            }
            i = i + 1;
        }
        proof {
            lemma_assoc_map_contains(self.vars.deep_view());
        }
        None
    }
}

impl View for EnvState {
    type V = EnvModel;

    open spec fn view(&self) -> EnvModel {
        EnvModel {
            path: match self.path {
                Some(p) => Some(p.deep_view()),
                None => None,
            },
            vars: assoc_map(self.vars.deep_view()),
        }
    }
}

/// What one diff record does to an environment, as the generated
/// `update-env` helper applies it: setting the path variable replaces the
/// path list with the value split on the separator, setting any other
/// name binds it, and hiding removes the name, tolerating absence.
pub open spec fn apply_record_model(
    env: EnvModel,
    op: DiffOp,
    name: Seq<char>,
    value: Seq<char>,
) -> EnvModel {
    match op {
        DiffOp::Assign => if name == path_var_name() {
            EnvModel { path: Some(split_paths_seq(value)), vars: env.vars }
        } else {
            EnvModel { path: env.path, vars: env.vars.insert(name, value) }
        },
        DiffOp::Hide => if name == path_var_name() {
            EnvModel { path: None, vars: env.vars }
        } else {
            EnvModel { path: env.path, vars: env.vars.remove(name) }
        },
    }
}

/// The triple a record denotes on the wire.
pub open spec fn record_model(r: EnvDiffRecord) -> (DiffOp, Seq<char>, Seq<char>) {
    (r.op, r.name@, r.value@)
}

/// A batch as a sequence of triples.
pub open spec fn batch_model(rs: Seq<EnvDiffRecord>) -> Seq<(DiffOp, Seq<char>, Seq<char>)> {
    rs.map_values(|r: EnvDiffRecord| record_model(r))
}

/// A batch applied strictly in record order; a later record for the same
/// name wins.
pub open spec fn apply_batch_model(
    env: EnvModel,
    rs: Seq<(DiffOp, Seq<char>, Seq<char>)>,
) -> EnvModel
    decreases rs.len(),
{
    if rs.len() == 0 {
        env
    } else {
        apply_batch_model(apply_record_model(env, rs[0].0, rs[0].1, rs[0].2), rs.drop_first())
    }
}

proof fn lemma_apply_batch_snoc(
    env: EnvModel,
    rs: Seq<(DiffOp, Seq<char>, Seq<char>)>,
    r: (DiffOp, Seq<char>, Seq<char>),
)
    ensures
        apply_batch_model(env, rs.push(r)) == apply_record_model(
            apply_batch_model(env, rs),
            r.0,
            r.1,
            r.2,
        ),
    decreases rs.len(),
{
    let s = rs.push(r);
    if rs.len() == 0 {
        assert(s[0] == r);
        assert(s.drop_first() =~= Seq::<(DiffOp, Seq<char>, Seq<char>)>::empty());
        assert(apply_batch_model(apply_record_model(env, r.0, r.1, r.2), s.drop_first())
            == apply_record_model(env, r.0, r.1, r.2));
        assert(apply_batch_model(env, s) == apply_batch_model(
            apply_record_model(env, s[0].0, s[0].1, s[0].2),
            s.drop_first(),
        ));
        assert(apply_batch_model(env, rs) == env);
    } else {
        assert(s[0] == rs[0]);
        assert(s.drop_first() =~= rs.drop_first().push(r));
        let e1 = apply_record_model(env, rs[0].0, rs[0].1, rs[0].2);
        lemma_apply_batch_snoc(e1, rs.drop_first(), r);
        assert(apply_batch_model(env, s) == apply_batch_model(e1, s.drop_first()));
        assert(apply_batch_model(env, rs) == apply_batch_model(e1, rs.drop_first()));
    }
}

fn remove_var(vars: &mut Vec<(String, String)>, name: &str)
    requires
        distinct_names(old(vars).deep_view()),
    ensures
        distinct_names(final(vars).deep_view()),
        assoc_map(final(vars).deep_view()) == assoc_map(old(vars).deep_view()).remove(name@),
        forall|j: int|
            0 <= j < final(vars).deep_view().len() ==> final(vars).deep_view()[j].0 != name@,
{
    let ghost l0 = old(vars).deep_view();
    let n = vars.len();
    let mut i: usize = 0;
    while i < n
        invariant
            *vars == *old(vars),
            n == vars.len(),
            i <= n,
            distinct_names(l0),
            l0 == vars.deep_view(),
            forall|j: int| 0 <= j < i ==> l0[j].0 != name@,
        decreases n - i,
    {
        if str_eq(vars[i].0.as_str(), name) {
            vars.remove(i);
            proof {
                assert(vars.deep_view() =~= l0.remove(i as int));
                lemma_assoc_map_remove(l0, i as int);
                assert(l0[i as int].0 == name@);
                assert(distinct_names(vars.deep_view())) by {
                    assert(forall|a: int, b: int|
                        0 <= a < b < l0.remove(i as int).len() ==> l0.remove(i as int)[a].0
                            != l0.remove(i as int)[b].0);
                }
                assert forall|j: int|
                    0 <= j < vars.deep_view().len() implies vars.deep_view()[j].0 != name@ by {
                    if j >= i {
                        assert(l0.remove(i as int)[j] == l0[j + 1]);
                        assert(l0[i as int].0 == name@);
                    }
                }
            }
            return;
        }
        i = i + 1;
    }
    proof {
        lemma_assoc_map_contains(l0);
        assert(!assoc_map(l0).contains_key(name@)) by {
            if assoc_map(l0).contains_key(name@) {
                let j = choose|j: int| 0 <= j < l0.len() && l0[j].0 == name@;
                assert(l0[j].0 != name@);
            }
        }
        assert(assoc_map(l0).remove(name@) =~= assoc_map(l0));
    }
}

fn set_var(vars: &mut Vec<(String, String)>, name: &str, value: &str)
    requires
        distinct_names(old(vars).deep_view()),
    ensures
        distinct_names(final(vars).deep_view()),
        assoc_map(final(vars).deep_view()) == assoc_map(old(vars).deep_view()).insert(
            name@,
            value@,
        ),
{
    remove_var(vars, name);
    let ghost l1 = vars.deep_view();
    vars.push((String::from_str(name), String::from_str(value)));
    proof {
        assert(vars.deep_view() =~= l1.push((name@, value@)));
        assert(l1.push((name@, value@)).drop_last() =~= l1);
        assert(assoc_map(vars.deep_view()) == assoc_map(l1).insert(name@, value@));
        assert(assoc_map(l1).insert(name@, value@) =~= assoc_map(old(vars).deep_view()).insert(
            name@,
            value@,
        ));
        assert(distinct_names(vars.deep_view())) by {
            assert(forall|j: int| 0 <= j < l1.len() ==> l1[j].0 != name@);
            assert(forall|a: int, b: int|
                0 <= a < b < l1.len() ==> vars.deep_view()[a].0 != vars.deep_view()[b].0);
        }
    }
}

/// Apply one diff record to the environment, exactly as the generated
/// hook script's `update-env` helper would.
pub fn apply_record(env: &mut EnvState, r: &EnvDiffRecord)
    requires
        old(env).wf(),
    ensures
        final(env).wf(),
        final(env)@ == apply_record_model(old(env)@, r.op, r.name@, r.value@),
{
    let is_path = str_eq(r.name.as_str(), "PATH");
    proof {
        reveal_strlit("PATH");
        assert("PATH"@ =~= path_var_name());
    }
    match r.op {
        DiffOp::Assign => {
            if is_path {
                env.path = Some(split_paths(r.value.as_str()));
            } else {
                set_var(&mut env.vars, r.name.as_str(), r.value.as_str());
            }
        },
        DiffOp::Hide => {
            if is_path {
                env.path = None;
            } else {
                remove_var(&mut env.vars, r.name.as_str());
            }
        },
    }
    proof {
        assert(env@ =~= apply_record_model(old(env)@, r.op, r.name@, r.value@));
    }
}

/// Apply a whole diff batch strictly in record order.
pub fn apply_batch(env: &mut EnvState, rs: &Vec<EnvDiffRecord>)
    requires
        old(env).wf(),
    ensures
        final(env).wf(),
        final(env)@ == apply_batch_model(old(env)@, batch_model(rs@)),
{
    let n = rs.len();
    let mut i: usize = 0;
    proof {
        assert(batch_model(rs@).take(0) =~= Seq::<(DiffOp, Seq<char>, Seq<char>)>::empty());
    }
    while i < n
        invariant
            n == rs@.len(),
            i <= n,
            env.wf(),
            env@ == apply_batch_model(old(env)@, batch_model(rs@).take(i as int)),
        decreases n - i,
    {
        apply_record(env, &rs[i]);
        proof {
            assert(batch_model(rs@).take(i + 1 as int) =~= batch_model(rs@).take(i as int).push(
                record_model(rs@[i as int]),
            ));
            lemma_apply_batch_snoc(
                old(env)@,
                batch_model(rs@).take(i as int),
                record_model(rs@[i as int]),
            );
        }
        i = i + 1;
    }
    proof {
        assert(batch_model(rs@).take(n as int) =~= batch_model(rs@));
    }
}

/// Law: hiding a variable twice nets to hiding it once; the repeated
/// statement changes nothing further in the session.
pub proof fn lemma_hide_idempotent(env: EnvModel, name: Seq<char>, value: Seq<char>)
    ensures
        apply_record_model(
            apply_record_model(env, DiffOp::Hide, name, value),
            DiffOp::Hide,
            name,
            value,
        ) == apply_record_model(env, DiffOp::Hide, name, value),
{
    if name != path_var_name() {
        assert(env.vars.remove(name).remove(name) =~= env.vars.remove(name));
    }
    assert(apply_record_model(
        apply_record_model(env, DiffOp::Hide, name, value),
        DiffOp::Hide,
        name,
        value,
    ) =~= apply_record_model(env, DiffOp::Hide, name, value));
}

/// Law: within one batch, a later record for the same name wins; setting
/// a variable twice leaves exactly the later value.
pub proof fn lemma_set_overwrites(env: EnvModel, name: Seq<char>, v1: Seq<char>, v2: Seq<char>)
    ensures
        apply_record_model(
            apply_record_model(env, DiffOp::Assign, name, v1),
            DiffOp::Assign,
            name,
            v2,
        ) == apply_record_model(env, DiffOp::Assign, name, v2),
{
    if name != path_var_name() {
        assert(env.vars.insert(name, v1).insert(name, v2) =~= env.vars.insert(name, v2));
    }
    assert(apply_record_model(
        apply_record_model(env, DiffOp::Assign, name, v1),
        DiffOp::Assign,
        name,
        v2,
    ) =~= apply_record_model(env, DiffOp::Assign, name, v2));
}

/// Law: a set followed by a hide of the same name in one batch nets to
/// the hide alone; the variable ends up unset.
pub proof fn lemma_set_then_hide_nets_unset(
    env: EnvModel,
    name: Seq<char>,
    v1: Seq<char>,
    v2: Seq<char>,
)
    ensures
        apply_record_model(
            apply_record_model(env, DiffOp::Assign, name, v1),
            DiffOp::Hide,
            name,
            v2,
        ) == apply_record_model(env, DiffOp::Hide, name, v2),
{
    if name != path_var_name() {
        assert(env.vars.insert(name, v1).remove(name) =~= env.vars.remove(name));
    }
    assert(apply_record_model(
        apply_record_model(env, DiffOp::Assign, name, v1),
        DiffOp::Hide,
        name,
        v2,
    ) =~= apply_record_model(env, DiffOp::Hide, name, v2));
}

/// Law: hiding a variable that is not set leaves the environment exactly
/// as it was.
pub proof fn lemma_hide_absent_noop(env: EnvModel, name: Seq<char>, value: Seq<char>)
    requires
        name != path_var_name(),
        !env.vars.contains_key(name),
    ensures
        apply_record_model(env, DiffOp::Hide, name, value) == env,
{
    assert(env.vars.remove(name) =~= env.vars);
    assert(apply_record_model(env, DiffOp::Hide, name, value) =~= env);
}

} // verus!
