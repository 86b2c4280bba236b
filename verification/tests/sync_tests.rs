use ledgera::sync::{
    build_git_status, check_commit, check_pull, command_error, ensure_repo_ready, error_status, output_text,
    parse_ahead_behind, parse_status_line, remote_of, staged_changes, status_files_from, validate_commit_message,
    GitOutput, GitSyncFileStatus,
};

fn out(status: i32, stdout: &str, stderr: &str) -> GitOutput {
    GitOutput { status, stdout: stdout.to_string(), stderr: stderr.to_string() }
}

#[test]
fn parses_porcelain_status_lines() {
    let f = parse_status_line(" M main.journal").unwrap();
    assert_eq!(f.status, "M");
    assert_eq!(f.path, "main.journal");
    let f = parse_status_line("?? 2024/01.journal").unwrap();
    assert_eq!(f.status, "??");
    assert_eq!(f.path, "2024/01.journal");
    assert!(parse_status_line("M a").is_none());
    assert!(parse_status_line("aé x.journal").is_none());
    assert_eq!(parse_status_line("é x.journal").unwrap().path, "x.journal");
}

#[test]
fn lists_changed_files_of_successful_status() {
    let files = status_files_from(&out(0, " M a.journal\nA  b.journal", ""));
    assert_eq!(files.len(), 2);
    assert_eq!(files[1].path, "b.journal");
    assert!(status_files_from(&out(128, " M a.journal", "fatal")).is_empty());
}

#[test]
fn reads_counts_and_remote() {
    assert_eq!(parse_ahead_behind(&out(0, "2\t3", "")), Some((2, 3)));
    assert_eq!(parse_ahead_behind(&out(0, "2", "")), None);
    assert_eq!(parse_ahead_behind(&out(1, "2 3", "")), None);
    assert_eq!(remote_of("origin/main"), "origin");
    assert_eq!(output_text(&out(0, "  main \n", "")), Some("main".to_string()));
    assert_eq!(output_text(&out(0, "   ", "")), None);
}

#[test]
fn builds_status_from_command_results() {
    let files = vec![GitSyncFileStatus { path: "a.journal".to_string(), status: "M".to_string() }];
    let status = build_git_status(
        "/repo".to_string(),
        Some("main".to_string()),
        Some("origin/main".to_string()),
        None,
        Some((1, 2)),
        files,
    );
    assert!(status.dirty);
    assert_eq!(status.remote, Some("origin".to_string()));
    assert_eq!((status.ahead, status.behind), (1, 2));
    let status = build_git_status("/repo".to_string(), None, None, None, Some((1, 2)), Vec::new());
    assert_eq!((status.ahead, status.behind), (0, 0));
    assert!(!status.dirty);
    assert!(check_pull(&status).is_ok());
    assert_eq!(check_commit(&status), Ok(false));
    let failed = error_status("boom".to_string());
    assert!(!failed.available);
    assert_eq!(failed.error, Some("boom".to_string()));
}

#[test]
fn checks_before_sync() {
    assert!(ensure_repo_ready(&Vec::new()).unwrap_err().contains("git_no_journal_files"));
    assert!(ensure_repo_ready(&vec!["a.journal".to_string()]).is_ok());
    assert_eq!(staged_changes(&out(0, "", "")), Ok(false));
    assert_eq!(staged_changes(&out(1, "", "")), Ok(true));
    assert!(staged_changes(&out(2, "", "bad")).unwrap_err().contains("git diff --cached"));
}

#[test]
fn command_errors_prefer_stderr() {
    let e = command_error("git push", &out(1, "out", "err"));
    assert!(e.contains("\"details\":\"err\""));
    let e = command_error("git push", &out(1, "out", "  "));
    assert!(e.contains("\"details\":\"out\""));
}

#[test]
fn validates_commit_messages() {
    assert_eq!(validate_commit_message("  Update journal  "), Ok("Update journal".to_string()));
    assert!(validate_commit_message("   ").unwrap_err().contains("git_commit_message_required"));
    assert!(validate_commit_message("a\nb").unwrap_err().contains("git_commit_message_single_line"));
    let long = "x".repeat(201);
    assert!(validate_commit_message(&long).unwrap_err().contains("git_commit_message_too_long"));
    assert!(validate_commit_message(&"x".repeat(200)).is_ok());
}
