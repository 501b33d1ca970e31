//! The Nushell shell adapter: activation-script and statement generation.

use crate::env_diff::DiffOp;
use crate::env_diff::EnvModel;
use crate::env_diff::apply_batch_model;
use crate::env_diff::apply_record_model;
use crate::env_diff::lemma_hide_absent_noop;
use crate::env_diff::path_var_name;
use crate::escape::append_hashes;
use crate::escape::bare_safe;
use crate::escape::dquote_escaped;
use crate::escape::escape_dquotes;
use crate::escape::escape_seq;
use crate::escape::hash_count;
use crate::escape::is_allowed_char;
use crate::escape::min_hash_count;
use crate::escape::raw_close;
use crate::escape::raw_open;
use vstd::prelude::*;
use vstd::string::StrSliceExecFns;
use vstd::string::StringExecFns;

verus! {

/// Options for activation-script generation: the absolute path of the
/// tool's own executable, extra flags appended verbatim to the hook-env
/// invocation, and whether the eager hook-env call on shell load should be
/// suppressed.  The Nushell script runs its hook only once the session is
/// marked as managed, so `no_hook_env` needs no further special-casing.
pub struct ActivateOptions {
    pub exe: String,
    pub flags: String,
    pub no_hook_env: bool,
}

/// The statement binding a variable to a value in the current scope:
/// `load-env` merges the one-entry record into the session's environment.
pub open spec fn set_stmt(k: Seq<char>, v: Seq<char>) -> Seq<char> {
    "load-env {"@ + escape_seq(k) + ": "@ + escape_seq(v) + "}\n"@
}

/// The statement rebuilding a path-list variable with a value in front.
/// The current value is read through the optional accessor `?` with an
/// empty default, so an undefined or empty variable splits to the empty
/// list rather than erroring.
pub open spec fn prepend_stmt(k: Seq<char>, v: Seq<char>) -> Seq<char> {
    "$env."@ + escape_seq(k) + " = ((if ($env."@ + escape_seq(k)
        + "? | default '') == '' { [] } else { $env."@ + escape_seq(k)
        + " | split row (char esep) }) | prepend "@ + escape_seq(v) + ")\n"@
}

/// The statement removing a variable, tolerating its absence.
pub open spec fn unset_stmt(k: Seq<char>) -> Seq<char> {
    "hide-env "@ + escape_seq(k) + " --ignore-errors\n"@
}

/// The deactivation script: unset statements for every state variable the
/// activation script introduces, safe to run in a session that was never
/// activated.
pub open spec fn deactivate_script() -> Seq<char> {
    unset_stmt("MISE_SHELL"@) + unset_stmt("__MISE_DIFF"@) + unset_stmt("__MISE_DIFF"@)
}

/// The activation script for an executable path `exe` (backslashes and
/// double quotes escaped for interpolation inside a double-quoted Nushell
/// string) and verbatim hook-env flags.  Sourcing it marks the session as
/// managed, registers the same hook on both the pre-prompt and
/// directory-change events by appending to any existing hook chain —
/// guarded by the managed-state marker, so re-sourcing does not register
/// twice — and defines the dispatch entry point and the diff-decoding
/// helpers.
pub open spec fn activation_script(exe: Seq<char>, flags: Seq<char>) -> Seq<char> {
    let e = dquote_escaped(exe);
    "export-env {
  if \"MISE_SHELL\" not-in $env {
    $env.MISE_SHELL = \"nu\"
    let mise_hook = {
      condition: { \"MISE_SHELL\" in $env }
      code: { mise_hook }
    }
    add-hook hooks.pre_prompt $mise_hook
    add-hook hooks.env_change.PWD $mise_hook
  }
}

def --env add-hook [field: cell-path new_hook: any] {
  let old_config = $env.config? | default {}
  let old_hooks = $old_config | get $field --ignore-errors | default []
  $env.config = ($old_config | upsert $field ($old_hooks ++ [$new_hook]))
}

def \"parse vars\" [] {
  $in | from csv --noheaders --no-infer | rename 'op' 'name' 'value'
}

export def --env --wrapped main [command?: string, --help, ...rest: string] {
  let commands = [\"deactivate\", \"shell\", \"sh\"]

  if ($command == null) {
    ^\""@ + e + "\"
  } else if ($command == \"activate\") {
    $env.MISE_SHELL = \"nu\"
  } else if ($command in $commands) {
    ^\""@ + e + "\" $command ...$rest
    | parse vars
    | update-env
  } else {
    ^\""@ + e + "\" $command ...$rest
  }
}

def --env \"update-env\" [] {
  for $var in $in {
    if $var.op == \"set\" {
      if $var.name == 'PATH' {
        $env.PATH = ($var.value | split row (char esep))
      } else {
        load-env {($var.name): $var.value}
      }
    } else if $var.op == \"hide\" {
      hide-env $var.name --ignore-errors
    }
  }
}

def --env mise_hook [] {
  ^\""@ + e + "\" hook-env"@ + flags + " -s nu
    | parse vars
    | update-env
}

"@
}

/// The adapter for the Nushell dialect.  It is stateless: every operation
/// is a pure function from its inputs to generated script text.
#[derive(Default)]
pub struct Nushell {}

impl Nushell {
    /// A character outside the bare-token allow-list forces quoting.
    pub fn need_escape(ch: char) -> (r: bool)
        ensures
            r == !is_allowed_char(ch),
    {
        if ('a' <= ch && ch <= 'z') || ('A' <= ch && ch <= 'Z') || ('0' <= ch && ch <= '9') || ch
            == '-' || ch == '_' || ch == '=' || ch == '/' || ch == ',' || ch == '.' || ch == '+' {
            false
        } else {
            true
        }
    }

    /// Escape a string for interpolation into Nushell source: bare when
    /// every character is allow-listed, otherwise wrapped in a raw string
    /// (`r#'...'#`, with as many hashes as needed for a closing delimiter
    /// that does not occur in the string itself).
    pub fn escape_string_raw(s: &str) -> (r: String)
        ensures
            r@ == escape_seq(s@),
    {
        let n = s.unicode_len();
        let mut i: usize = 0;
        let mut needs: bool = false;
        while i < n
            invariant
                n == s@.len(),
                i <= n,
                needs == exists|j: int| 0 <= j < i && !is_allowed_char(s@[j]),
            decreases n - i,
        {
            if Self::need_escape(s.get_char(i)) {
                needs = true;
            }
            i = i + 1;
        }
        if needs {
            proof {
                reveal_strlit("r");
                reveal_strlit("'");
            }
            let hashes = min_hash_count(s);
            let mut out = String::from_str("r");
            append_hashes(&mut out, hashes);
            out.append("'");
            out.append(s);
            out.append("'");
            append_hashes(&mut out, hashes);
            proof {
                assert(!bare_safe(s@));
                let m = hash_count(s@);
                assert("r"@ =~= seq!['r']);
                assert("'"@ =~= seq!['\'']);
                assert(out@ =~= raw_open(m) + s@ + raw_close(m));
                assert(out@ =~= escape_seq(s@));
            }
            out
        } else {
            proof {
                assert forall|k: int| 0 <= k < s@.len() implies is_allowed_char(s@[k]) by {
                    if !is_allowed_char(s@[k]) {
                        assert(exists|j: int| 0 <= j < n && !is_allowed_char(s@[j]));
                    }
                }
            }
            String::from_str(s)
        }
    }

    /// Generate the activation script for `opts`.  The emitted text is a
    /// pure function of the options: identical options give byte-for-byte
    /// identical scripts.
    pub fn activate(&self, opts: ActivateOptions) -> (r: String)
        ensures
            r@ == activation_script(opts.exe@, opts.flags@),
    {
        let exe = escape_dquotes(opts.exe.as_str());
        let mut out = String::from_str(
            "export-env {
  if \"MISE_SHELL\" not-in $env {
    $env.MISE_SHELL = \"nu\"
    let mise_hook = {
      condition: { \"MISE_SHELL\" in $env }
      code: { mise_hook }
    }
    add-hook hooks.pre_prompt $mise_hook
    add-hook hooks.env_change.PWD $mise_hook
  }
}

def --env add-hook [field: cell-path new_hook: any] {
  let old_config = $env.config? | default {}
  let old_hooks = $old_config | get $field --ignore-errors | default []
  $env.config = ($old_config | upsert $field ($old_hooks ++ [$new_hook]))
}

def \"parse vars\" [] {
  $in | from csv --noheaders --no-infer | rename 'op' 'name' 'value'
}

export def --env --wrapped main [command?: string, --help, ...rest: string] {
  let commands = [\"deactivate\", \"shell\", \"sh\"]

  if ($command == null) {
    ^\"",
        );
        out.append(exe.as_str());
        out.append(
            "\"
  } else if ($command == \"activate\") {
    $env.MISE_SHELL = \"nu\"
  } else if ($command in $commands) {
    ^\"",
        );
        out.append(exe.as_str());
        out.append(
            "\" $command ...$rest
    | parse vars
    | update-env
  } else {
    ^\"",
        );
        out.append(exe.as_str());
        out.append(
            "\" $command ...$rest
  }
}

def --env \"update-env\" [] {
  for $var in $in {
    if $var.op == \"set\" {
      if $var.name == 'PATH' {
        $env.PATH = ($var.value | split row (char esep))
      } else {
        load-env {($var.name): $var.value}
      }
    } else if $var.op == \"hide\" {
      hide-env $var.name --ignore-errors
    }
  }
}

def --env mise_hook [] {
  ^\"",
        );
        out.append(exe.as_str());
        out.append("\" hook-env");
        out.append(opts.flags.as_str());
        out.append(
            " -s nu
    | parse vars
    | update-env
}

",
        );
        out
    }

    /// The dialect's identifier, as used to tag generated scripts.
    pub fn name(&self) -> (r: String)
        ensures
            r@ == "nu"@,
    {
        String::from_str("nu")
    }

    /// Emit a statement binding `k` to `v` in the current scope, both
    /// escaped for Nushell's lexer.
    pub fn set_env(&self, k: &str, v: &str) -> (r: String)
        ensures
            r@ == set_stmt(k@, v@),
    {
        let ek = Nushell::escape_string_raw(k);
        let ev = Nushell::escape_string_raw(v);
        let mut out = String::from_str("load-env {");
        out.append(ek.as_str());
        out.append(": ");
        out.append(ev.as_str());
        out.append("}\n");
        out
    }

    /// Emit a statement that splits the current value of `k` on the
    /// path-list separator and rebuilds it with `v` inserted at the front.
    /// An undefined or empty variable splits to the empty list, so the
    /// statement is safe when `k` is not yet defined and then yields the
    /// one-entry list holding `v`.
    pub fn prepend_env(&self, k: &str, v: &str) -> (r: String)
        ensures
            r@ == prepend_stmt(k@, v@),
    {
        let ek = Nushell::escape_string_raw(k);
        let ev = Nushell::escape_string_raw(v);
        let mut out = String::from_str("$env.");
        out.append(ek.as_str());
        out.append(" = ((if ($env.");
        out.append(ek.as_str());
        out.append("? | default '') == '' { [] } else { $env.");
        out.append(ek.as_str());
        out.append(" | split row (char esep) }) | prepend ");
        out.append(ev.as_str());
        out.append(")\n");
        out
    }

    /// Emit a statement removing `k` from the environment; a missing
    /// variable is not an error.
    pub fn unset_env(&self, k: &str) -> (r: String)
        ensures
            r@ == unset_stmt(k@),
    {
        let ek = Nushell::escape_string_raw(k);
        let mut out = String::from_str("hide-env ");
        out.append(ek.as_str());
        out.append(" --ignore-errors\n");
        out
    }

    /// Emit unset statements for every state variable activation
    /// introduces, restoring the session as far as possible.  Each
    /// statement tolerates an absent variable, so the script is a valid
    /// no-op in a session that was never activated.
    pub fn deactivate(&self) -> (r: String)
        ensures
            r@ == deactivate_script(),
    {
        let mut out = self.unset_env("MISE_SHELL");
        let second = self.unset_env("__MISE_DIFF");
        out.append(second.as_str());
        let third = self.unset_env("__MISE_DIFF");
        out.append(third.as_str());
        out
    }
}

/// The diff records the deactivation script's statements stand for: one
/// hide per state variable the activation script introduces.
pub open spec fn deactivate_records() -> Seq<(DiffOp, Seq<char>, Seq<char>)> {
    seq![
        (DiffOp::Hide, "MISE_SHELL"@, ""@),
        (DiffOp::Hide, "__MISE_DIFF"@, ""@),
        (DiffOp::Hide, "__MISE_DIFF"@, ""@),
    ]
}

/// The deactivation script is statement for record the rendering of
/// `deactivate_records`: one unset statement per hide record, in order.
pub proof fn lemma_deactivate_script_matches_records()
    ensures
        deactivate_records().len() == 3,
        forall|i: int| 0 <= i < 3 ==> #[trigger] deactivate_records()[i].0 == DiffOp::Hide,
        deactivate_script() == unset_stmt(deactivate_records()[0].1) + unset_stmt(
            deactivate_records()[1].1,
        ) + unset_stmt(deactivate_records()[2].1),
{
}

/// Law: deactivation generated for a fresh, never-activated session is a
/// valid no-op.  In any environment where the adapter's state variables
/// are not set, applying all its hide statements changes nothing.
pub proof fn lemma_deactivate_fresh_noop(env: EnvModel)
    requires
        !env.vars.contains_key("MISE_SHELL"@),
        !env.vars.contains_key("__MISE_DIFF"@),
    ensures
        apply_batch_model(env, deactivate_records()) == env,
{
    reveal_strlit("MISE_SHELL");
    reveal_strlit("__MISE_DIFF");
    assert("MISE_SHELL"@.len() == 10);
    assert("__MISE_DIFF"@.len() == 11);
    assert(path_var_name().len() == 4);
    lemma_hide_absent_noop(env, "MISE_SHELL"@, ""@);
    lemma_hide_absent_noop(env, "__MISE_DIFF"@, ""@);
    let rs = deactivate_records();
    assert(rs[0] == (DiffOp::Hide, "MISE_SHELL"@, ""@));
    assert(apply_record_model(env, DiffOp::Hide, "MISE_SHELL"@, ""@) == env);
    let rs1 = rs.drop_first();
    assert(rs1 =~= seq![(DiffOp::Hide, "__MISE_DIFF"@, ""@), (DiffOp::Hide, "__MISE_DIFF"@, ""@)]);
    assert(apply_record_model(env, DiffOp::Hide, "__MISE_DIFF"@, ""@) == env);
    let rs2 = rs1.drop_first();
    assert(rs2 =~= seq![(DiffOp::Hide, "__MISE_DIFF"@, ""@)]);
    let rs3 = rs2.drop_first();
    assert(rs3 =~= Seq::<(DiffOp, Seq<char>, Seq<char>)>::empty());
    assert(apply_batch_model(env, rs3) == env);
    assert(apply_batch_model(env, rs2) == env);
    assert(apply_batch_model(env, rs1) == env);
    assert(apply_batch_model(env, rs) == env);
}

/// Law: activation-script generation is deterministic.  The script is a
/// pure function of the options; equal options give textually identical
/// scripts, with no injected randomness or timestamps.
pub proof fn lemma_activation_deterministic(
    exe1: Seq<char>,
    flags1: Seq<char>,
    exe2: Seq<char>,
    flags2: Seq<char>,
)
    requires
        exe1 == exe2,
        flags1 == flags2,
    ensures
        activation_script(exe1, flags1) == activation_script(exe2, flags2),
{
}

} // verus!
