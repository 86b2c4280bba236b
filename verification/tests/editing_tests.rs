use ledgera::amount_style::StyleContext;
use ledgera::app_error::{to_error_string, to_error_string_with_details};
use ledgera::journal::edit::{replace_line_range, split_lines};
use ledgera::journal::files::{parse_include_directive, require_journal_path, wildcard_matches};
use ledgera::journal::periodic::{
    extract_rule_id_from_comment, is_date_literal, posting_comment_rule_id, recurring_include_update,
    recurring_text_with_rule, replace_rule_text, rule_to_transaction_input, parse_periodic_rules,
};
use ledgera::settings::AppSettings;

#[test]
fn replaces_and_deletes_line_ranges() {
    let lines = split_lines("a\nb\nc\nd");
    assert_eq!(replace_line_range(&lines, 2, 3, "x\ny"), "a\nx\ny\nd\n");
    assert_eq!(replace_line_range(&lines, 2, 3, "  "), "a\nd\n");
    assert_eq!(replace_line_range(&lines, 4, 9, ""), "a\nb\nc\n");
}

#[test]
fn splits_lines_like_str_lines() {
    assert_eq!(split_lines("a\r\nb\n\nc\n"), vec!["a", "b", "", "c"]);
    assert!(split_lines("").is_empty());
}

#[test]
fn reads_include_directives() {
    assert_eq!(parse_include_directive("include 2026/*.journal ; years"), Some("2026/*.journal".to_string()));
    assert_eq!(parse_include_directive("  include \"recurring.journal\""), Some("recurring.journal".to_string()));
    assert_eq!(parse_include_directive("; include x"), None);
    assert_eq!(parse_include_directive("include   "), None);
    assert_eq!(parse_include_directive("account assets"), None);
}

#[test]
fn matches_wildcards() {
    assert!(wildcard_matches("*", "anything"));
    assert!(wildcard_matches("*.journal", "2026-01.journal"));
    assert!(wildcard_matches("2026-*.journal", "2026-05.journal"));
    assert!(!wildcard_matches("2026-*.journal", "2025-05.journal"));
    assert!(wildcard_matches("a*b*c", "axxbyyc"));
    assert!(!wildcard_matches("a*b*c", "axxcyyb"));
    assert!(wildcard_matches("plain", "plain"));
    assert!(!wildcard_matches("plain", "plains"));
}

#[test]
fn requires_a_configured_existing_journal() {
    let mut settings = AppSettings::default();
    assert_eq!(
        require_journal_path(&settings, false),
        Err(to_error_string("journal_not_configured", "Configure a journal path in Settings before loading transactions."))
    );
    settings.journal_path = " /tmp/main.journal ".to_string();
    assert_eq!(
        require_journal_path(&settings, false),
        Err(to_error_string_with_details("journal_not_found", "Journal file does not exist.", "Expected at: /tmp/main.journal"))
    );
    assert_eq!(require_journal_path(&settings, true), Ok("/tmp/main.journal".to_string()));
}

#[test]
fn error_strings_are_json() {
    assert_eq!(to_error_string("c", "m"), r#"{"code":"c","message":"m"}"#);
    assert_eq!(to_error_string_with_details("c", "say \"hi\"", "a\nb"), r#"{"code":"c","message":"say \"hi\"","details":"a\nb"}"#);
}

#[test]
fn reads_rule_ids_and_dates() {
    assert_eq!(extract_rule_id_from_comment(" rule-id:rent Monthly rent "), ("rent".to_string(), "Monthly rent".to_string()));
    assert_eq!(extract_rule_id_from_comment("just a note"), (String::new(), "just a note".to_string()));
    assert_eq!(posting_comment_rule_id("rule-id:  rent extra"), Some("rent".to_string()));
    assert_eq!(posting_comment_rule_id("other"), None);
    assert!(is_date_literal("2026-01-31"));
    assert!(!is_date_literal("2026/01/31"));
}

#[test]
fn generates_tagged_transaction_from_rule() {
    let content = "~ monthly from 2026-01-05 to 2026-12-05  ; rule-id:rent Rent\n    expenses:rent  500 EUR  ; flat\n    assets:bank\n";
    let rules = parse_periodic_rules(content, "recurring.journal", &StyleContext::new());
    assert_eq!(rules.len(), 1);
    assert_eq!(rules[0].period_expr, "monthly");
    assert_eq!(rules[0].start_date.as_deref(), Some("2026-01-05"));
    assert_eq!(rules[0].end_date.as_deref(), Some("2026-12-05"));
    assert_eq!(rules[0].id, "recurring.journal:1");
    let tx = rule_to_transaction_input(&rules[0], "2026-02-05");
    assert_eq!(tx.date, "2026-02-05");
    assert_eq!(tx.description, "Rent");
    assert_eq!(tx.postings[0].comment, "rule-id:rent; flat");
    assert_eq!(tx.postings[1].comment, "rule-id:rent");
}

#[test]
fn replaces_and_deletes_rules_by_id() {
    let content = "~ monthly  ; rule-id:a A\n    x  1 EUR\n    y\n\n~ weekly  ; rule-id:b B\n    z  2 EUR\n    y\n";
    let ctx = StyleContext::new();
    let deleted = replace_rule_text(content, "r.journal", "a", "", &ctx).expect("rule a exists");
    assert_eq!(deleted, "~ weekly  ; rule-id:b B\n    z  2 EUR\n    y\n");
    let missing = replace_rule_text(content, "r.journal", "c", "", &ctx).expect_err("rule c is missing");
    assert!(missing.contains("periodic_rule_not_found"));
    assert!(missing.contains("Rule id: c"));
}

#[test]
fn adds_recurring_include_once() {
    assert_eq!(recurring_include_update("2026-01-01 x\n"), Some("include recurring.journal\n2026-01-01 x\n".to_string()));
    assert_eq!(recurring_include_update("include recurring.journal\n"), None);
    assert_eq!(recurring_text_with_rule("a\n\n", "~ monthly"), "a~ monthly\n");
}
