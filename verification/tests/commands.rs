use tinyrush::dispatch::{
    apply_chdir, apply_spawn, dispatch, lookup_builtin, run_line, Action, BuiltinKind, ShellState,
    SpawnOutcome,
};
use tinyrush::env_store::EnvStore;
use tinyrush::tokenize::tokenize;

fn state() -> ShellState {
    ShellState { env: EnvStore::new(), exit_status: 0 }
}

fn cwd() -> String {
    "/somewhere".to_string()
}

#[test]
fn tokenize_collapses_whitespace_runs() {
    let cmd = tokenize("echo   a  b").unwrap();
    assert_eq!(cmd.exe, "echo");
    assert_eq!(cmd.args, vec!["a".to_string(), "b".to_string()]);
}

#[test]
fn tokenize_trims_and_rejects_blank_lines() {
    assert!(tokenize("").is_none());
    assert!(tokenize("   \t  ").is_none());
    let cmd = tokenize("  ls  -l  ").unwrap();
    assert_eq!(cmd.exe, "ls");
    assert_eq!(cmd.args, vec!["-l".to_string()]);
}

#[test]
fn lookup_matches_builtins_exactly() {
    assert_eq!(lookup_builtin("export"), BuiltinKind::Export);
    assert_eq!(lookup_builtin("exit"), BuiltinKind::Exit);
    assert_eq!(lookup_builtin("cd"), BuiltinKind::ChangeDirectory);
    assert_eq!(lookup_builtin("unset"), BuiltinKind::Unset);
    assert_eq!(lookup_builtin("pwd"), BuiltinKind::PrintWorkingDirectory);
    assert_eq!(lookup_builtin("echo"), BuiltinKind::Echo);
    assert_eq!(lookup_builtin("Echo"), BuiltinKind::External);
    assert_eq!(lookup_builtin("exp"), BuiltinKind::External);
}

#[test]
fn export_then_listing_contains_binding() {
    let mut st = state();
    let cmd = tokenize("export FOO=bar").unwrap();
    let out = dispatch(&cmd, &mut st, &cwd());
    assert!(matches!(out.action, Action::Done));
    assert!(out.output.is_empty());
    assert_eq!(st.exit_status, 0);
    let listing = dispatch(&tokenize("export").unwrap(), &mut st, &cwd());
    assert!(listing.output.iter().any(|l| l == "FOO='bar'"));
}

#[test]
fn export_overwrites_and_splits_on_first_equals() {
    let mut st = state();
    dispatch(&tokenize("export A=1 A=2 B=x=y C=").unwrap(), &mut st, &cwd());
    assert_eq!(st.env.get("A").unwrap(), "2");
    assert_eq!(st.env.get("B").unwrap(), "x=y");
    assert_eq!(st.env.get("C").unwrap(), "");
    let listing = dispatch(&tokenize("export").unwrap(), &mut st, &cwd());
    assert!(listing.output.iter().any(|l| l == "B='x=y'"));
    assert!(listing.output.iter().any(|l| l == "C=''"));
}

#[test]
fn export_ignores_argument_without_equals() {
    let mut st = state();
    dispatch(&tokenize("export FOO").unwrap(), &mut st, &cwd());
    assert!(st.env.get("FOO").is_none());
    let listing = dispatch(&tokenize("export").unwrap(), &mut st, &cwd());
    assert!(listing.output.is_empty());
}

#[test]
fn unset_removes_from_listing() {
    let mut st = state();
    dispatch(&tokenize("export FOO=bar BAZ=1").unwrap(), &mut st, &cwd());
    dispatch(&tokenize("unset FOO").unwrap(), &mut st, &cwd());
    assert!(st.env.get("FOO").is_none());
    let listing = dispatch(&tokenize("export").unwrap(), &mut st, &cwd());
    assert!(!listing.output.iter().any(|l| l.starts_with("FOO=")));
    assert!(listing.output.iter().any(|l| l == "BAZ='1'"));
}

#[test]
fn unset_of_absent_name_is_a_no_op() {
    let mut st = state();
    dispatch(&tokenize("export A=1").unwrap(), &mut st, &cwd());
    let out = dispatch(&tokenize("unset NOPE").unwrap(), &mut st, &cwd());
    assert!(matches!(out.action, Action::Done));
    assert_eq!(st.env.get("A").unwrap(), "1");
    assert_eq!(st.exit_status, 0);
}

#[test]
fn exit_terminates_without_fallthrough() {
    let mut st = state();
    let out = dispatch(&tokenize("exit").unwrap(), &mut st, &cwd());
    assert!(matches!(out.action, Action::Terminate));
    assert_eq!(out.output, vec!["Goodbye!".to_string()]);
    let with_args = dispatch(&tokenize("exit now really").unwrap(), &mut st, &cwd());
    assert!(matches!(with_args.action, Action::Terminate));
}

#[test]
fn cd_requests_first_argument_as_target() {
    let mut st = state();
    let out = dispatch(&tokenize("cd /some/path").unwrap(), &mut st, &cwd());
    match out.action {
        Action::Chdir { target } => assert_eq!(target, "/some/path"),
        _ => panic!("expected a directory-change request"),
    }
}

#[test]
fn cd_falls_back_to_home_then_root() {
    let mut st = state();
    st.env.set("HOME".to_string(), "/home/u".to_string());
    let out = dispatch(&tokenize("cd").unwrap(), &mut st, &cwd());
    match out.action {
        Action::Chdir { target } => assert_eq!(target, "/home/u"),
        _ => panic!("expected a directory-change request"),
    }
    let mut bare = state();
    let out = dispatch(&tokenize("cd").unwrap(), &mut bare, &cwd());
    match out.action {
        Action::Chdir { target } => assert_eq!(target, "/"),
        _ => panic!("expected a directory-change request"),
    }
}

#[test]
fn failed_chdir_leaves_store_untouched() {
    let mut st = state();
    let target = "/does/not/exist".to_string();
    let prev = "/prev".to_string();
    apply_chdir(&mut st, &target, &prev, false);
    assert!(st.env.get("PWD").is_none());
    assert!(st.env.get("OLD_PWD").is_none());
    assert_eq!(st.exit_status, 1);
}

#[test]
fn successful_chdir_records_both_directories() {
    let mut st = state();
    let target = "/new".to_string();
    let prev = "/prev".to_string();
    apply_chdir(&mut st, &target, &prev, true);
    assert_eq!(st.env.get("PWD").unwrap(), "/new");
    assert_eq!(st.env.get("OLD_PWD").unwrap(), "/prev");
    assert_eq!(st.exit_status, 0);
}

#[test]
fn pwd_prints_current_directory() {
    let mut st = state();
    let out = dispatch(&tokenize("pwd").unwrap(), &mut st, &cwd());
    assert!(matches!(out.action, Action::Done));
    assert_eq!(out.output, vec!["/somewhere".to_string()]);
    assert_eq!(st.exit_status, 0);
}

#[test]
fn echo_joins_arguments_with_single_spaces() {
    let mut st = state();
    let out = dispatch(&tokenize("echo  a   b  c").unwrap(), &mut st, &cwd());
    assert_eq!(out.output, vec!["a b c".to_string()]);
    let empty = dispatch(&tokenize("echo").unwrap(), &mut st, &cwd());
    assert_eq!(empty.output, vec!["".to_string()]);
}

#[test]
fn unknown_name_requests_spawn_and_failure_reports_not_found() {
    let mut st = state();
    let cmd = tokenize("nosuchprog -x").unwrap();
    let out = dispatch(&cmd, &mut st, &cwd());
    assert!(matches!(out.action, Action::Spawn));
    assert!(out.output.is_empty());
    assert_eq!(st.exit_status, 0);
    let lines = apply_spawn(&mut st, &cmd, &SpawnOutcome::SpawnFailed(2));
    assert_eq!(st.exit_status, 2);
    assert_ne!(st.exit_status, 0);
    assert_eq!(lines, vec!["nosuchprog: command not found".to_string()]);
}

#[test]
fn spawn_outcomes_update_exit_status() {
    let mut st = state();
    let cmd = tokenize("true").unwrap();
    st.exit_status = 9;
    let lines = apply_spawn(&mut st, &cmd, &SpawnOutcome::Exited);
    assert_eq!(st.exit_status, 0);
    assert!(lines.is_empty());
    let lines = apply_spawn(&mut st, &cmd, &SpawnOutcome::WaitFailed);
    assert_eq!(st.exit_status, 1);
    assert!(lines.is_empty());
}

#[test]
fn run_line_composes_the_pipeline() {
    let mut st = state();
    st.exit_status = 5;
    let r = run_line("export A=$?", &mut st, &cwd()).unwrap();
    assert_eq!(r.0.exe, "export");
    assert_eq!(st.env.get("A").unwrap(), "5");
    assert_eq!(st.exit_status, 0);
    assert!(run_line("   ", &mut st, &cwd()).is_none());
    let r = run_line("echo '$A' is $A", &mut st, &cwd()).unwrap();
    assert_eq!(r.1.output, vec!["'$A' is 5".to_string()]);
}

#[test]
fn snapshot_returns_every_pair() {
    let mut env = EnvStore::new();
    env.set("A".to_string(), "1".to_string());
    env.set("B".to_string(), "2".to_string());
    env.remove("A");
    let pairs = env.snapshot();
    assert_eq!(pairs, vec![("B".to_string(), "2".to_string())]);
}
