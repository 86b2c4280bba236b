use ledgera::accounts::build_accounts_overview;
use ledgera::calendar::CalDate;
use ledgera::journal::types::{JournalPosting, JournalTransaction, TransactionDisplay, TransactionFlow};

fn posting(account: &str) -> JournalPosting {
    JournalPosting {
        account: account.to_string(),
        amount: String::new(),
        commodity: String::new(),
        unit_price: String::new(),
        comment: String::new(),
        raw: String::new(),
    }
}

fn transaction(date: &str, accounts: &[&str]) -> JournalTransaction {
    JournalTransaction {
        id: format!("main.journal:{}", date),
        source_file: "main.journal".to_string(),
        date: date.to_string(),
        status: String::new(),
        code: String::new(),
        description: String::new(),
        postings: accounts.iter().map(|a| posting(a)).collect(),
        display: TransactionDisplay {
            account: String::new(),
            amount: String::new(),
            formatted: String::new(),
            kind: String::new(),
            tint: String::new(),
            flow: TransactionFlow { from: Vec::new(), to: Vec::new() },
        },
        raw: String::new(),
        start_line: 1,
        end_line: 3,
    }
}

#[test]
fn overview_groups_accounts_in_order_with_balances_and_activity() {
    let transactions = vec![
        transaction("2026-03-10", &["Expenses:Food", " assets:bank "]),
        transaction("2026-01-05", &["expenses:food", "income:salary"]),
    ];
    let balances = vec!["assets:bank".to_string(), "assets:Bank".to_string(), "liabilities:card".to_string()];
    let today = CalDate { year: 2026, month: 3, day: 15 };
    let overview = build_accounts_overview(&transactions, &balances, "30", &today);
    let groups: Vec<&str> = overview.groups.iter().map(|g| g.group.as_str()).collect();
    assert_eq!(groups, vec!["assets", "liabilities", "income", "expenses"]);

    let assets = &overview.groups[0].accounts;
    assert_eq!(assets.len(), 1);
    assert_eq!(assets[0].account, "assets:bank");
    assert_eq!(assets[0].balance, Some(1));
    assert_eq!(assets[0].activity_count, 1);
    assert_eq!(assets[0].transactions[0].date, "2026-03-10");

    let liabilities = &overview.groups[1].accounts;
    assert_eq!(liabilities[0].account, "liabilities:card");
    assert_eq!(liabilities[0].balance, Some(2));
    assert_eq!(liabilities[0].activity_count, 0);

    let income = &overview.groups[2].accounts;
    assert_eq!(income[0].account, "income:salary");
    assert_eq!(income[0].balance, None);
    assert_eq!(income[0].activity_count, 0);

    let expenses = &overview.groups[3].accounts;
    assert_eq!(expenses.len(), 1);
    assert_eq!(expenses[0].account, "Expenses:Food");
    assert_eq!(expenses[0].activity_count, 1);
}

#[test]
fn overview_sorts_accounts_by_lowercase_name() {
    let transactions = vec![transaction("2026-03-01", &["assets:Zeta", "assets:alpha", "assets:beta"])];
    let today = CalDate { year: 2026, month: 3, day: 15 };
    let overview = build_accounts_overview(&transactions, &Vec::new(), "current-month", &today);
    let names: Vec<&str> = overview.groups[0].accounts.iter().map(|r| r.account.as_str()).collect();
    assert_eq!(names, vec!["assets:alpha", "assets:beta", "assets:Zeta"]);
    assert!(overview.groups[0].accounts.iter().all(|r| r.activity_count == 1));
}
