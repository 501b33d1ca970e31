use mise_shell::escape::escape_dquotes;
use mise_shell::nushell::ActivateOptions;
use mise_shell::nushell::Nushell;

fn opts(exe: &str, flags: &str) -> ActivateOptions {
    ActivateOptions { exe: exe.to_string(), flags: flags.to_string(), no_hook_env: false }
}

#[test]
fn test_hook_init() {
    let nushell = Nushell::default();
    let script = nushell.activate(opts("/some/dir/mise", " --status"));
    let expected = "export-env {
  if \"MISE_SHELL\" not-in $env {
    $env.MISE_SHELL = \"nu\"
    let mise_hook = {
      condition: { \"MISE_SHELL\" in $env }
      code: { mise_hook }
    }
    add-hook hooks.pre_prompt $mise_hook
    add-hook hooks.env_change.PWD $mise_hook
  }
}

def --env add-hook [field: cell-path new_hook: any] {
  let old_config = $env.config? | default {}
  let old_hooks = $old_config | get $field --ignore-errors | default []
  $env.config = ($old_config | upsert $field ($old_hooks ++ [$new_hook]))
}

def \"parse vars\" [] {
  $in | from csv --noheaders --no-infer | rename 'op' 'name' 'value'
}

export def --env --wrapped main [command?: string, --help, ...rest: string] {
  let commands = [\"deactivate\", \"shell\", \"sh\"]

  if ($command == null) {
    ^\"/some/dir/mise\"
  } else if ($command == \"activate\") {
    $env.MISE_SHELL = \"nu\"
  } else if ($command in $commands) {
    ^\"/some/dir/mise\" $command ...$rest
    | parse vars
    | update-env
  } else {
    ^\"/some/dir/mise\" $command ...$rest
  }
}

def --env \"update-env\" [] {
  for $var in $in {
    if $var.op == \"set\" {
      if $var.name == 'PATH' {
        $env.PATH = ($var.value | split row (char esep))
      } else {
        load-env {($var.name): $var.value}
      }
    } else if $var.op == \"hide\" {
      hide-env $var.name --ignore-errors
    }
  }
}

def --env mise_hook [] {
  ^\"/some/dir/mise\" hook-env --status -s nu
    | parse vars
    | update-env
}

";
    assert_eq!(script, expected);
}

#[test]
fn test_set_env() {
    let out = Nushell::default().set_env("FOO", "1 2");
    assert_eq!(out, "load-env {FOO: r#'1 2'#}\n");
}

#[test]
fn test_prepend_env() {
    let sh = Nushell::default();
    let out = sh.prepend_env("PATH", "/some/dir");
    assert_eq!(
        out,
        "$env.PATH = ((if ($env.PATH? | default '') == '' { [] } else { $env.PATH \
         | split row (char esep) }) | prepend /some/dir)\n"
    );
}

#[test]
fn test_unset_env() {
    let out = Nushell::default().unset_env("FOO BAR");
    assert_eq!(out, "hide-env r#'FOO BAR'# --ignore-errors\n");
}

#[test]
fn test_deactivate() {
    let deactivate = Nushell::default().deactivate();
    assert_eq!(
        deactivate,
        "hide-env MISE_SHELL --ignore-errors\n\
         hide-env __MISE_DIFF --ignore-errors\n\
         hide-env __MISE_DIFF --ignore-errors\n"
    );
}

#[test]
fn test_escape_identity_on_allowed() {
    assert_eq!(Nushell::escape_string_raw("abcXYZ019-_=/,.+"), "abcXYZ019-_=/,.+");
    assert_eq!(Nushell::escape_string_raw(""), "");
    assert_eq!(Nushell::escape_string_raw("/usr/local/bin"), "/usr/local/bin");
}

#[test]
fn test_escape_wraps_disallowed() {
    assert_eq!(Nushell::escape_string_raw("1 2"), "r#'1 2'#");
    assert_eq!(Nushell::escape_string_raw("a'b"), "r#'a'b'#");
    assert_eq!(Nushell::escape_string_raw("a\\b\nc"), "r#'a\\b\nc'#");
    assert_eq!(Nushell::escape_string_raw("$env"), "r#'$env'#");
}

#[test]
fn test_escape_grows_hashes_on_collision() {
    assert_eq!(Nushell::escape_string_raw("'"), "r#'''#");
    assert_eq!(Nushell::escape_string_raw("a'#b"), "r##'a'#b'##");
    assert_eq!(Nushell::escape_string_raw("x'##y"), "r###'x'##y'###");
}

#[test]
fn test_escape_name_with_space_not_bare() {
    let escaped = Nushell::escape_string_raw("FOO BAR");
    assert_ne!(escaped, "FOO BAR");
    assert_eq!(escaped, "r#'FOO BAR'#");
}

#[test]
fn test_need_escape() {
    assert!(!Nushell::need_escape('a'));
    assert!(!Nushell::need_escape('Z'));
    assert!(!Nushell::need_escape('7'));
    assert!(!Nushell::need_escape('+'));
    assert!(Nushell::need_escape(' '));
    assert!(Nushell::need_escape('\''));
    assert!(Nushell::need_escape('#'));
    assert!(Nushell::need_escape('\\'));
}

#[test]
fn test_unset_idempotent_text() {
    let sh = Nushell::default();
    let first = sh.unset_env("FOO");
    let second = sh.unset_env("FOO");
    assert_eq!(first, second);
    assert_eq!(first, "hide-env FOO --ignore-errors\n");
}

#[test]
fn test_activate_deterministic() {
    let sh = Nushell::default();
    let a = sh.activate(opts("/some/dir/mise", " --status"));
    let b = sh.activate(opts("/some/dir/mise", " --status"));
    assert_eq!(a, b);
}

#[test]
fn test_activate_quotes_exe() {
    let sh = Nushell::default();
    let script = sh.activate(opts("C:\\tools\\mise.exe", ""));
    assert!(script.contains("^\"C:\\\\tools\\\\mise.exe\""));
    let tricky = sh.activate(opts("/dir/a\"b/mise", ""));
    assert!(tricky.contains("^\"/dir/a\\\"b/mise\""));
}

#[test]
fn test_escape_dquotes() {
    assert_eq!(escape_dquotes("C:\\dir\\x"), "C:\\\\dir\\\\x");
    assert_eq!(escape_dquotes("say \"hi\""), "say \\\"hi\\\"");
    assert_eq!(escape_dquotes("/plain/path"), "/plain/path");
    assert_eq!(escape_dquotes(""), "");
}

#[test]
fn test_name() {
    assert_eq!(Nushell::default().name(), "nu");
}
