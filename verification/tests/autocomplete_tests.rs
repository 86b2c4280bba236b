use ledgera::journal::autocomplete::{build_journal_profile, collect_declared_commodities, is_account_root, parse_commodity_directive, unique_sorted};
use ledgera::journal::files::JournalFile;
use ledgera::journal::types::{JournalPosting, JournalTransaction, TransactionDisplay, TransactionFlow};

#[test]
fn collects_only_declared_commodities() {
    let files = vec![JournalFile {
        path: "main.journal".into(),
        content: "commodity €\n  format €1.000,00\ncommodity XEON\n\n2026-05-16 Opening balances\n    assets:investments:xeon  209 XEON @ €148,70087\n    equity:opening-balances\n"
            .to_string(),
    }];

    assert_eq!(collect_declared_commodities(&files), vec!["XEON", "€"]);
}

fn posting(account: &str, amount: &str, commodity: &str) -> JournalPosting {
    JournalPosting {
        account: account.to_string(),
        amount: amount.to_string(),
        commodity: commodity.to_string(),
        unit_price: String::new(),
        comment: String::new(),
        raw: String::new(),
    }
}

#[test]
fn builds_frequency_based_journal_profile() {
    let transactions = vec![
        JournalTransaction {
            id: "test:1".to_string(),
            source_file: "test".to_string(),
            date: "2026-05-16".to_string(),
            status: String::new(),
            code: String::new(),
            description: "Groceries".to_string(),
            postings: vec![posting("expenses:food", "25", "€"), posting("assets:bank:fineco", "", "")],
            display: TransactionDisplay {
                account: "expenses:food".to_string(),
                amount: "-€25".to_string(),
                formatted: "-25,00".to_string(),
                kind: "expense".to_string(),
                tint: "negative".to_string(),
                flow: TransactionFlow {
                    from: vec!["assets:bank:fineco".to_string()],
                    to: vec!["expenses:food".to_string()],
                },
            },
            raw: String::new(),
            start_line: 1,
            end_line: 3,
        },
        JournalTransaction {
            id: "test:2".to_string(),
            source_file: "test".to_string(),
            date: "2026-05-17".to_string(),
            status: String::new(),
            code: String::new(),
            description: "Buy fund".to_string(),
            postings: vec![posting("assets:investments:xeon", "10", "XEON"), posting("assets:bank:fineco", "1487", "€")],
            display: TransactionDisplay {
                account: "assets:investments:xeon".to_string(),
                amount: "10 XEON".to_string(),
                formatted: "10 XEON".to_string(),
                kind: "transfer".to_string(),
                tint: "positive".to_string(),
                flow: TransactionFlow {
                    from: Vec::new(),
                    to: vec!["assets:investments:xeon".to_string(), "assets:bank:fineco".to_string()],
                },
            },
            raw: String::new(),
            start_line: 5,
            end_line: 7,
        },
    ];

    let profile = build_journal_profile(&transactions, "€");

    assert_eq!(profile.default_cash_account, "assets:bank:fineco");
    assert_eq!(profile.default_expense_account, "expenses:food");
    assert_eq!(profile.default_investment_account, "assets:investments:xeon");
    assert_eq!(profile.default_investment_commodity, "XEON");
}

#[test]
fn sorts_case_insensitively_and_drops_ascii_case_duplicates() {
    let values = vec!["beta".to_string(), "Alpha".to_string(), "alpha".to_string(), "Beta".to_string(), "gamma".to_string()];
    assert_eq!(unique_sorted(values), vec!["Alpha", "beta", "gamma"]);
}

#[test]
fn reads_commodity_directives() {
    assert_eq!(parse_commodity_directive("commodity \"XEON\" ; fund"), Some("XEON".to_string()));
    assert_eq!(parse_commodity_directive("  ; commodity EUR"), None);
    assert_eq!(parse_commodity_directive("commodity"), None);
    assert_eq!(parse_commodity_directive("account assets"), None);
}

#[test]
fn account_roots_match_whole_segments() {
    assert!(is_account_root("Expenses:Food", &vec!["expenses", "expense"]));
    assert!(is_account_root("income", &vec!["income"]));
    assert!(!is_account_root("expensesx:food", &vec!["expenses"]));
}

#[test]
fn ties_pick_the_first_account_name() {
    let tx = JournalTransaction {
        id: "t:1".to_string(),
        source_file: "t".to_string(),
        date: "2026-01-01".to_string(),
        status: String::new(),
        code: String::new(),
        description: String::new(),
        postings: vec![posting("assets:bank:zeta", "1", "€"), posting("assets:bank:alpha", "-1", "€")],
        display: TransactionDisplay {
            account: String::new(),
            amount: String::new(),
            formatted: String::new(),
            kind: String::new(),
            tint: String::new(),
            flow: TransactionFlow { from: Vec::new(), to: Vec::new() },
        },
        raw: String::new(),
        start_line: 1,
        end_line: 3,
    };
    let profile = build_journal_profile(&vec![tx], "€");
    assert_eq!(profile.default_cash_account, "assets:bank:alpha");
    assert_eq!(profile.default_transfer_account, "assets:bank:alpha");
    assert_eq!(profile.default_expense_account, "");
}
