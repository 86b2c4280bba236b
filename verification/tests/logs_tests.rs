use ledgera::logs::{keep_supported_entries, log_message_with_error, retained_log_text, should_log, LogEntry};

#[test]
fn should_log_returns_true_for_supported_levels() {
    assert!(should_log("error"));
    assert!(should_log("warn"));
    assert!(should_log("info"));
    assert!(!should_log("notice"));
    assert!(!should_log("debug"));
    assert!(!should_log(""));
}

#[test]
fn log_message_with_error_appends_error_block() {
    assert_eq!(
        log_message_with_error("Failed to do thing.", "stack line"),
        "Failed to do thing.\n\nError:\nstack line",
    );
}

#[test]
fn log_message_with_error_expands_structured_app_errors() {
    assert_eq!(
        log_message_with_error(
            "Failed to do thing.",
            r#"{"code":"boom","message":"Top level","details":"stack line"}"#,
        ),
        "Failed to do thing.\n\nError:\nCode: boom\nTop level\nDetails:\nstack line",
    );
}

#[test]
fn blank_error_leaves_the_context_alone() {
    assert_eq!(log_message_with_error("Context.", "   "), "Context.");
}

#[test]
fn field_errors_are_listed() {
    let message = log_message_with_error(
        "Save failed.",
        r#"{"code":"bad","message":"Invalid","fieldErrors":[{"path":["date"],"message":"Date is required."}]}"#,
    );
    assert!(message.contains("Code: bad\nInvalid\nField errors:\n"));
    assert!(message.contains("Date is required."));
}

#[test]
fn keeps_supported_levels_in_order() {
    let entry = |level: &str| LogEntry { ts: "0".to_string(), level: level.to_string(), code: "C".to_string(), message: level.to_string() };
    let kept = keep_supported_entries(vec![entry("info"), entry("debug"), entry("error"), entry("notice"), entry("warn")]);
    let levels: Vec<&str> = kept.iter().map(|e| e.level.as_str()).collect();
    assert_eq!(levels, vec!["info", "error", "warn"]);
}

#[test]
fn retention_cut_drops_old_lines() {
    let content = "2024-01-01T00:00 a\n2025-06-01T00:00 b\n";
    assert_eq!(retained_log_text(content, "2025-01-01T"), Some("2025-06-01T00:00 b\n".to_string()));
    assert_eq!(retained_log_text(content, "2023-01-01T"), None);
}
