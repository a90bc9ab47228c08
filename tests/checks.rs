use different::runner::{
    argv_from_words, command_argv, evaluate_command, evaluate_directory, evaluate_file,
    evaluate_http, evaluate_var_set, lookup_variable, stream_matches, stream_text_matches,
    string_diff, CheckStatus, DiffInput, DirState, FatalError, FileState,
};
use different::text::{contains_fragment, first_missing};

fn reason(s: &CheckStatus) -> String {
    match s {
        CheckStatus::Success => panic!("expected a failure"),
        CheckStatus::Fail { reason } => reason.clone(),
    }
}

fn strings(v: &[&str]) -> Vec<String> {
    v.iter().map(|s| s.to_string()).collect()
}

#[test]
fn file_contents_match() {
    let path = "out.txt".to_string();
    let contents = "a\nb\n".to_string();
    let e = evaluate_file(&path, &vec![], Some(&contents), None, FileState::Text("a\nb\n".to_string()), true);
    assert!(matches!(e.status, Ok(CheckStatus::Success)));
    assert!(e.reports.is_empty());
}

#[test]
fn file_contents_mismatch() {
    let path = "out.txt".to_string();
    let contents = "a\nb\n".to_string();
    let e = evaluate_file(&path, &vec![], Some(&contents), None, FileState::Text("a\nc\n".to_string()), true);
    let s = e.status.unwrap();
    assert_eq!(reason(&s), "File contents do not match expected contents");
    assert_eq!(e.reports.len(), 1);
    let body: Vec<&str> = e.reports[0].lines().skip(2).collect();
    assert_eq!(body[1], "  2    - b");
    assert_eq!(body[2], "     2 + c");
    assert_eq!(e.reports[0].lines().next(), Some("---- left:  Expected"));
}

#[test]
fn file_mismatch_without_printing() {
    let path = "out.txt".to_string();
    let contents = "a\n".to_string();
    let e = evaluate_file(&path, &vec![], Some(&contents), None, FileState::Text("b\n".to_string()), false);
    assert!(matches!(e.status, Ok(CheckStatus::Fail { .. })));
    assert!(e.reports.is_empty());
}

#[test]
fn file_missing_and_unreadable() {
    let path = "out.txt".to_string();
    let e = evaluate_file(&path, &vec![], None, None, FileState::Missing, true);
    assert_eq!(reason(&e.status.unwrap()), "Missing file out.txt");
    let e = evaluate_file(&path, &vec![], None, None, FileState::Unreadable, true);
    assert_eq!(reason(&e.status.unwrap()), "Unable to read file out.txt");
}

#[test]
fn file_template_outcomes() {
    let path = "f".to_string();
    let actual = || FileState::Text("hello\n".to_string());
    let e = evaluate_file(&path, &vec![], None, Some(Ok("hello\n".to_string())), actual(), true);
    assert!(matches!(e.status, Ok(CheckStatus::Success)));
    let e = evaluate_file(&path, &vec![], None, Some(Ok("bye\n".to_string())), actual(), true);
    assert_eq!(reason(&e.status.unwrap()), "File contents do not match rendered template");
    assert_eq!(e.reports[0].lines().next(), Some("---- left:  Template"));
    let err = FatalError::Template { message: "no such template".to_string() };
    let e = evaluate_file(&path, &vec![], None, Some(Err(err)), actual(), true);
    assert!(matches!(e.status, Err(FatalError::Template { .. })));
    let contents = "other\n".to_string();
    let err = FatalError::Template { message: "x".to_string() };
    let e = evaluate_file(&path, &vec![], Some(&contents), Some(Err(err)), actual(), true);
    assert_eq!(reason(&e.status.unwrap()), "File contents do not match expected contents");
}

#[test]
fn file_contains_only() {
    let path = "p".to_string();
    let text = || FileState::Text("alpha beta gamma".to_string());
    let e = evaluate_file(&path, &strings(&["beta", "alpha"]), None, None, text(), true);
    assert!(matches!(e.status, Ok(CheckStatus::Success)));
    let e = evaluate_file(&path, &strings(&["beta", "delta", "zeta"]), None, None, text(), true);
    assert_eq!(reason(&e.status.unwrap()), "p did not contain expected fragment 'delta'");
    let e = evaluate_file(&path, &strings(&[""]), None, None, text(), true);
    assert!(matches!(e.status, Ok(CheckStatus::Success)));
}

#[test]
fn directory_subset() {
    let path = "d".to_string();
    let entries = DirState::Entries(strings(&["a", "b", "extra"]));
    assert!(matches!(evaluate_directory(&path, &vec![], &entries), CheckStatus::Success));
    assert!(matches!(evaluate_directory(&path, &strings(&["b", "a"]), &entries), CheckStatus::Success));
    let s = evaluate_directory(&path, &strings(&["a", "c"]), &entries);
    assert_eq!(reason(&s), "Expected child c of d does not exist");
    assert_eq!(reason(&evaluate_directory(&path, &vec![], &DirState::Missing)), "Missing directory: d");
    assert_eq!(reason(&evaluate_directory(&path, &vec![], &DirState::Unreadable)), "Unable to read directory d");
}

#[test]
fn var_set_presence() {
    let key = "env".to_string();
    let vars = vec![("env".to_string(), "prod".to_string())];
    assert!(matches!(evaluate_var_set(&key, None, &vars), CheckStatus::Success));
    let s = evaluate_var_set(&key, None, &vec![]);
    assert!(reason(&s).contains("'env' not set"));
    assert_eq!(reason(&s), "Variable 'env' not set");
}

#[test]
fn var_set_value() {
    let key = "env".to_string();
    let vars = vec![("other".to_string(), "x".to_string()), ("env".to_string(), "prod".to_string())];
    let prod = "prod".to_string();
    let dev = "dev".to_string();
    assert!(matches!(evaluate_var_set(&key, Some(&prod), &vars), CheckStatus::Success));
    assert_eq!(
        reason(&evaluate_var_set(&key, Some(&dev), &vars)),
        "Variable 'env' did not match expected value 'dev' (was 'prod')"
    );
    assert_eq!(reason(&evaluate_var_set(&key, Some(&dev), &vec![])), "Variable 'env' not set");
    assert_eq!(lookup_variable(&vars, &key), Some(&prod));
}

#[test]
fn command_output_success_and_code() {
    let cmd = "echo hi".to_string();
    let hi = "hi\n".to_string();
    let out = b"hi\n".to_vec();
    let s = evaluate_command(&cmd, 0, Some(&hi), None, &vec![], &vec![], Some(0), &out, &vec![], false).status.unwrap();
    assert!(matches!(s, CheckStatus::Success));
    let s = evaluate_command(&cmd, 1, Some(&hi), None, &vec![], &vec![], Some(0), &out, &vec![], false).status.unwrap();
    assert_eq!(reason(&s), "Command echo hi exited with unexpected code");
    let s = evaluate_command(&cmd, 0, None, None, &vec![], &vec![], None, &out, &vec![], false).status.unwrap();
    assert!(matches!(s, CheckStatus::Fail { .. }));
}

#[test]
fn command_streams() {
    let cmd = "c".to_string();
    let out = b"hello\n".to_vec();
    let err = b"oops\n".to_vec();
    let other = "bye\n".to_string();
    let s = evaluate_command(&cmd, 0, Some(&other), None, &vec![], &vec![], Some(0), &out, &err, false).status.unwrap();
    assert_eq!(reason(&s), "stdout did not match expected output");
    let e = evaluate_command(&cmd, 0, Some(&other), None, &vec![], &vec![], Some(0), &out, &err, true);
    assert_eq!(e.reports.len(), 1);
    assert!(e.reports[0].contains("- bye\n"));
    assert!(e.reports[0].contains("+ hello\n"));
    let s = evaluate_command(&cmd, 0, None, Some(&other), &vec![], &vec![], Some(0), &out, &err, false).status.unwrap();
    assert_eq!(reason(&s), "stderr did not match expected output");
    let hello = "hello\n".to_string();
    let s = evaluate_command(&cmd, 0, Some(&hello), None, &strings(&["ell", "xyz"]), &vec![], Some(0), &out, &err, false).status.unwrap();
    assert_eq!(reason(&s), "stdout did not contain expected fragment 'xyz'");
}

#[test]
fn stdout_contains_needs_expected_text() {
    let out = b"hello".to_vec();
    let s = stream_matches(&out, None, &strings(&["absent"]), "stdout");
    assert!(matches!(s, CheckStatus::Success));
    let cmd = "c".to_string();
    let s = evaluate_command(&cmd, 0, None, None, &strings(&["absent"]), &strings(&["gone"]), Some(0), &out, &vec![], false).status.unwrap();
    assert!(matches!(s, CheckStatus::Success));
}

#[test]
fn stream_decodes_leniently() {
    let bytes = vec![b'a', 0xff, b'b'];
    let expected = "a\u{fffd}b".to_string();
    assert!(matches!(stream_matches(&bytes, Some(&expected), &vec![], "stdout"), CheckStatus::Success));
    let plain = "ab".to_string();
    assert!(matches!(stream_matches(&bytes, Some(&plain), &vec![], "stdout"), CheckStatus::Fail { .. }));
    let t = "x".to_string();
    assert!(matches!(stream_text_matches("x", Some(&t), &vec![], "stderr"), CheckStatus::Success));
}

#[test]
fn argv_by_shell_rules() {
    let a = command_argv(&"echo 'hello world' x\\ y".to_string()).ok().unwrap();
    assert_eq!(a, strings(&["echo", "hello world", "x y"]));
    assert!(matches!(command_argv(&"".to_string()), Err(FatalError::BadCommand { .. })));
    assert!(matches!(command_argv(&"echo 'open".to_string()), Err(FatalError::BadCommand { .. })));
    let cmd = "c".to_string();
    assert!(matches!(argv_from_words(&cmd, Some(vec![])), Err(FatalError::BadCommand { .. })));
    assert_eq!(argv_from_words(&cmd, Some(strings(&["c"]))).ok().unwrap(), strings(&["c"]));
}

#[test]
fn http_is_fatal() {
    assert!(matches!(evaluate_http(), Err(FatalError::Unimplemented)));
}

#[test]
fn fragments_and_string_diff() {
    assert!(contains_fragment("abcabd", "abd"));
    assert!(!contains_fragment("abcab", "abd"));
    assert!(contains_fragment("", ""));
    assert!(!contains_fragment("a", "ab"));
    assert_eq!(first_missing("abc", &strings(&["a", "x", "y"])), Some(1));
    assert_eq!(first_missing("abc", &strings(&["a", "bc"])), None);
    let mut reports = Vec::new();
    assert!(string_diff(DiffInput::new("E", "a\r\n"), DiffInput::new("A", "a\n"), true, &mut reports));
    assert!(reports.is_empty());
    assert!(!string_diff(DiffInput::new("E", "a\n"), DiffInput::new("A", "b\n"), true, &mut reports));
    assert_eq!(reports.len(), 1);
    assert!(reports[0].starts_with("---- left:  E\n++++ right: A\n"));
}
