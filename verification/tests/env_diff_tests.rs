use mise_shell::env_diff::DiffOp;
use mise_shell::env_diff::EnvDiffRecord;
use mise_shell::env_diff::EnvState;
use mise_shell::env_diff::apply_batch;
use mise_shell::env_diff::apply_record;
use mise_shell::env_diff::prepend_paths;
use mise_shell::env_diff::split_paths;
use mise_shell::env_diff::str_eq;

fn record(op: DiffOp, name: &str, value: &str) -> EnvDiffRecord {
    EnvDiffRecord { op, name: name.to_string(), value: value.to_string() }
}

#[test]
fn test_split_paths() {
    assert_eq!(split_paths(""), Vec::<String>::new());
    assert_eq!(split_paths("/a:/b"), vec!["/a".to_string(), "/b".to_string()]);
    assert_eq!(split_paths("/only"), vec!["/only".to_string()]);
    assert_eq!(
        split_paths("a::b"),
        vec!["a".to_string(), "".to_string(), "b".to_string()]
    );
    assert_eq!(split_paths("a:"), vec!["a".to_string(), "".to_string()]);
}

#[test]
fn test_prepend_paths_existing() {
    let got = prepend_paths("/a:/b", "/new");
    assert_eq!(got, vec!["/new".to_string(), "/a".to_string(), "/b".to_string()]);
}

#[test]
fn test_prepend_paths_empty() {
    let got = prepend_paths("", "/new");
    assert_eq!(got, vec!["/new".to_string()]);
}

#[test]
fn test_diff_batch_set_then_hide() {
    let mut env = EnvState::new();
    let batch = vec![
        record(DiffOp::Assign, "PATH", "/a:/b"),
        record(DiffOp::Assign, "X", "1"),
        record(DiffOp::Hide, "X", ""),
    ];
    apply_batch(&mut env, &batch);
    assert_eq!(env.path, Some(vec!["/a".to_string(), "/b".to_string()]));
    assert!(env.get_var("X").is_none());
}

#[test]
fn test_last_write_wins() {
    let mut env = EnvState::new();
    let batch = vec![
        record(DiffOp::Assign, "X", "1"),
        record(DiffOp::Assign, "X", "2"),
    ];
    apply_batch(&mut env, &batch);
    assert_eq!(env.get_var("X"), Some(&"2".to_string()));
}

#[test]
fn test_hide_absent_is_noop() {
    let mut env = EnvState::new();
    apply_record(&mut env, &record(DiffOp::Hide, "NEVER_SET", ""));
    assert!(env.path.is_none());
    assert!(env.vars.is_empty());
}

#[test]
fn test_deactivate_statements_noop_on_fresh_session() {
    let mut env = EnvState::new();
    let batch = vec![
        record(DiffOp::Hide, "MISE_SHELL", ""),
        record(DiffOp::Hide, "__MISE_DIFF", ""),
        record(DiffOp::Hide, "__MISE_DIFF", ""),
    ];
    apply_batch(&mut env, &batch);
    assert!(env.path.is_none());
    assert!(env.vars.is_empty());
}

#[test]
fn test_hide_twice_equals_once() {
    let mut once = EnvState::new();
    apply_record(&mut once, &record(DiffOp::Assign, "X", "1"));
    apply_record(&mut once, &record(DiffOp::Hide, "X", ""));
    let mut twice = EnvState::new();
    apply_record(&mut twice, &record(DiffOp::Assign, "X", "1"));
    apply_record(&mut twice, &record(DiffOp::Hide, "X", ""));
    apply_record(&mut twice, &record(DiffOp::Hide, "X", ""));
    assert!(once.get_var("X").is_none());
    assert!(twice.get_var("X").is_none());
    assert_eq!(once.vars, twice.vars);
}

#[test]
fn test_str_eq() {
    assert!(str_eq("PATH", "PATH"));
    assert!(!str_eq("PATH", "PATt"));
    assert!(!str_eq("PATH", "PAT"));
    assert!(str_eq("", ""));
}
