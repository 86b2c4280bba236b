use ledgera::budget::{budget_period_label, hledger_budget_args, hledger_report_args, report_period_label, ReportDateRange};

#[test]
fn period_label_formats_dates() {
    assert_eq!(budget_period_label("2026-01-01"), "2026-01");
}

#[test]
fn budget_labels_keep_other_start_days() {
    assert_eq!(budget_period_label("2026-01-15"), "2026-01-15");
    assert_eq!(budget_period_label("2026"), "2026");
}

#[test]
fn report_labels_show_ranges() {
    assert_eq!(report_period_label("2026-02-01", "2026-03-01"), "2026-02");
    assert_eq!(report_period_label("2026-02-05", "2026-03-05"), "2026-02-05 \u{2192} 2026-03-05");
    assert_eq!(report_period_label("2026-02-05", ""), "2026-02-05");
}

#[test]
fn builds_budget_arguments() {
    let range = ReportDateRange { begin: Some("2026-01-01".to_string()), end: None };
    assert_eq!(
        hledger_budget_args("main.journal", "-M", &range),
        vec!["-f", "main.journal", "balance", "--budget", "-b", "2026-01-01", "-M", "-O", "json"]
    );
    let none = ReportDateRange { begin: None, end: Some("2026-06-01".to_string()) };
    assert_eq!(
        hledger_budget_args("main.journal", "", &none),
        vec!["-f", "main.journal", "balance", "--budget", "-e", "2026-06-01", "-O", "json"]
    );
}

#[test]
fn report_args_add_valuechange_for_balance_sheet_and_cash_flow() {
    assert_eq!(
        hledger_report_args("main.journal", "bs", "-M"),
        vec!["-f", "main.journal", "bs", "-M", "--valuechange", "-V", "--infer-market-prices", "-O", "json"]
    );
    assert_eq!(
        hledger_report_args("main.journal", "cf", ""),
        vec!["-f", "main.journal", "cf", "--valuechange", "-V", "--infer-market-prices", "-O", "json"]
    );
    assert_eq!(
        hledger_report_args("main.journal", "is", "-Q"),
        vec!["-f", "main.journal", "is", "-Q", "-V", "--infer-market-prices", "-O", "json"]
    );
}
