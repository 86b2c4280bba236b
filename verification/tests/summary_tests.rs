use ledgera::accounts::is_in_account_activity_range;
use ledgera::amount_style::StyleContext;
use ledgera::calendar::CalDate;
use ledgera::journal::files::JournalFile;
use ledgera::journal::loading::{find_block, load_transactions_from_journal_via_files};
use ledgera::journal::summary::{
    build_dashboard_summary, is_in_current_month_to_date, is_scheduled_this_month, parse_journal_date,
};
use ledgera::journal::types::{JournalPosting, JournalTransaction, TransactionDisplay, TransactionFlow};

fn posting(account: &str) -> JournalPosting {
    JournalPosting {
        account: account.to_string(),
        amount: String::new(),
        commodity: String::new(),
        unit_price: String::new(),
        comment: String::new(),
        raw: String::new(),
    }
}

fn tx(id: &str, date: &str, accounts: &[&str]) -> JournalTransaction {
    JournalTransaction {
        id: id.to_string(),
        source_file: "test".to_string(),
        date: date.to_string(),
        status: String::new(),
        code: String::new(),
        description: String::new(),
        postings: accounts.iter().map(|a| posting(a)).collect(),
        display: TransactionDisplay {
            account: String::new(),
            amount: String::new(),
            formatted: String::new(),
            kind: String::new(),
            tint: String::new(),
            flow: TransactionFlow { from: Vec::new(), to: Vec::new() },
        },
        raw: String::new(),
        start_line: 1,
        end_line: 2,
    }
}

fn today() -> CalDate {
    CalDate { year: 2026, month: 5, day: 16 }
}

#[test]
fn parses_journal_dates() {
    assert_eq!(parse_journal_date("2026-05-16"), Some(today()));
    assert_eq!(parse_journal_date("2026-02-30"), None);
    assert_eq!(parse_journal_date("16/05/2026"), None);
}

#[test]
fn splits_the_current_month_at_today() {
    assert!(is_in_current_month_to_date(&tx("a", "2026-05-16", &[]), &today()));
    assert!(!is_in_current_month_to_date(&tx("a", "2026-05-17", &[]), &today()));
    assert!(is_scheduled_this_month(&tx("a", "2026-05-17", &[]), &today()));
    assert!(!is_scheduled_this_month(&tx("a", "2026-06-01", &[]), &today()));
    assert!(!is_in_current_month_to_date(&tx("a", "2025-05-10", &[]), &today()));
}

#[test]
fn builds_dashboard_groups_and_counts_accounts_once() {
    let ts = vec![
        tx("a", "2026-05-02", &["Expenses:Food", "assets:bank"]),
        tx("b", "2026-04-30", &["expenses:rent", "assets:bank"]),
        tx("c", "2026-05-28", &["expenses:food", "Assets:Savings"]),
        tx("d", "bad date", &["x"]),
    ];
    let summary = build_dashboard_summary(ts, &today());
    assert_eq!(summary.monthly_transactions.len(), 1);
    assert_eq!(summary.monthly_transactions[0].id, "a");
    assert_eq!(summary.scheduled_transactions.len(), 1);
    assert_eq!(summary.scheduled_transactions[0].id, "c");
    assert_eq!(summary.active_accounts_count, 3);
}

#[test]
fn activity_range_counts_days_back_from_today() {
    let t = tx("a", "2026-05-10", &[]);
    assert!(is_in_account_activity_range(&t, "7", &today()));
    assert!(!is_in_account_activity_range(&t, "6", &today()));
    assert!(is_in_account_activity_range(&t, "current-month", &today()));
    assert!(is_in_account_activity_range(&t, "nonsense", &today()));
    assert!(!is_in_account_activity_range(&tx("a", "2026-05-17", &[]), "30", &today()));
    assert!(!is_in_account_activity_range(&tx("a", "2026-05-16", &[]), "-5", &CalDate { year: 2026, month: 5, day: 15 }));
    assert!(is_in_account_activity_range(&tx("a", "2026-05-16", &[]), "0", &today()));
}

#[test]
fn loads_transactions_newest_first() {
    let files = vec![
        JournalFile {
            path: "main.journal".to_string(),
            content: "2024-01-02 B\n    a  1\n    b\n\n2024-01-01 A\n    a  1\n    b\n".to_string(),
        },
        JournalFile { path: "other.journal".to_string(), content: "2024-01-02 C\n    a  1\n    b\n".to_string() },
    ];
    let ts = load_transactions_from_journal_via_files(&files, &StyleContext::new());
    let names: Vec<&str> = ts.iter().map(|t| t.description.as_str()).collect();
    assert_eq!(names, vec!["C", "B", "A"]);
    let found = find_block(ts, "main.journal:5").unwrap();
    assert_eq!(found.description, "A");
    let missing = find_block(Vec::new(), "x:1").unwrap_err();
    assert!(missing.contains("transaction_not_found"));
    assert!(missing.contains("Transaction id: x:1"));
}
