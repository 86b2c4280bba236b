use ledgera::journal::display::{summary_pick, transaction_flow, SummaryPick};
use ledgera::journal::types::JournalPosting;

fn posting(account: &str, amount: &str) -> JournalPosting {
    JournalPosting {
        account: account.to_string(),
        amount: amount.to_string(),
        commodity: String::new(),
        unit_price: String::new(),
        comment: String::new(),
        raw: String::new(),
    }
}

fn names(ps: &[JournalPosting]) -> Vec<String> {
    ps.iter().map(|p| p.account.clone()).collect()
}

#[test]
fn income_with_implicit_posting_flows_from_income_to_asset() {
    let ps = vec![posting("assets:bank:postepay", "5.20"), posting("income:other", "")];
    let signs = vec![1, -1];
    assert_eq!(summary_pick(&ps, &signs), SummaryPick::Income(1));
    let flow = transaction_flow(&names(&ps), &signs);
    assert_eq!(flow.from, vec!["income:other"]);
    assert_eq!(flow.to, vec!["assets:bank:postepay"]);
}

#[test]
fn expense_with_implicit_posting_flows_from_asset_to_expense() {
    let ps = vec![posting("expenses:food", "20"), posting("assets:bank", "")];
    let signs = vec![1, -1];
    assert_eq!(summary_pick(&ps, &signs), SummaryPick::Expense(0));
    let flow = transaction_flow(&names(&ps), &signs);
    assert_eq!(flow.from, vec!["assets:bank"]);
    assert_eq!(flow.to, vec!["expenses:food"]);
}

#[test]
fn asset_transfer_with_fee_is_shown_by_its_source() {
    let ps = vec![
        posting("assets:bank:fineco", "-71"),
        posting("expenses:fees", "1"),
        posting("assets:cash", "70"),
    ];
    let signs = vec![-1, 1, 1];
    assert_eq!(summary_pick(&ps, &signs), SummaryPick::AssetTransfer(0));
    let flow = transaction_flow(&names(&ps), &signs);
    assert_eq!(flow.from, vec!["assets:bank:fineco"]);
    assert_eq!(flow.to, vec!["expenses:fees", "assets:cash"]);
}

#[test]
fn split_expense_lists_each_expense_account_once() {
    let ps = vec![
        posting("expenses:shopping", "26.58"),
        posting(" expenses:shopping ", "1"),
        posting("expenses:shopping:gifts", "19.99"),
        posting("assets:bank:fineco", ""),
    ];
    let signs = vec![1, 1, 1, -1];
    assert_eq!(summary_pick(&ps, &signs), SummaryPick::Expense(0));
    let flow = transaction_flow(&names(&ps), &signs);
    assert_eq!(flow.from, vec!["assets:bank:fineco"]);
    assert_eq!(flow.to, vec!["expenses:shopping", "expenses:shopping:gifts"]);
}

#[test]
fn transfer_between_assets_is_shown_by_first_posting_with_amount() {
    let ps = vec![posting("assets:wallet", ""), posting("assets:bank", "50"), posting("equity:x", "-50")];
    let signs = vec![0, 1, -1];
    assert_eq!(summary_pick(&ps, &signs), SummaryPick::Transfer(1));
}

#[test]
fn postings_without_amounts_are_of_unknown_kind() {
    let ps = vec![posting("assets:a", ""), posting("  ", ""), posting("assets:c", "")];
    let signs = vec![0, 0, 0];
    assert_eq!(summary_pick(&ps, &signs), SummaryPick::Unknown(0));
    let flow = transaction_flow(&names(&ps), &signs);
    assert_eq!(flow.from, vec!["assets:c"]);
    assert_eq!(flow.to, vec!["assets:a"]);
    let one = vec![posting("assets:a", "")];
    let flow = transaction_flow(&names(&one), &vec![0]);
    assert!(flow.from.is_empty());
    assert_eq!(flow.to, vec!["assets:a"]);
    assert_eq!(summary_pick(&Vec::new(), &Vec::new()), SummaryPick::Empty);
}

#[test]
fn expense_without_an_asset_gain_is_an_expense() {
    let ps = vec![posting("Assets:Bank", "-10"), posting("Expenses:Food", "10")];
    let signs = vec![-1, 1];
    assert_eq!(summary_pick(&ps, &signs), SummaryPick::Expense(1));
}

#[test]
fn transfer_flows_from_negative_to_positive_posting() {
    let ps = vec![posting("assets:wallet", "-50"), posting("assets:bank", "50")];
    let signs = vec![-1, 1];
    assert_eq!(summary_pick(&ps, &signs), SummaryPick::Transfer(0));
    let flow = transaction_flow(&names(&ps), &signs);
    assert_eq!(flow.from, vec!["assets:wallet"]);
    assert_eq!(flow.to, vec!["assets:bank"]);
}

#[test]
fn opening_balance_flows_from_equity_to_each_asset() {
    let ps = vec![
        posting("assets:bank:fineco", "5.706,51"),
        posting("assets:bank:postepay", "890,05"),
        posting("assets:investments:xeon", "209"),
        posting("equity:opening-balances", ""),
    ];
    let signs = vec![1, 1, 1, -1];
    assert_eq!(summary_pick(&ps, &signs), SummaryPick::Transfer(0));
    let flow = transaction_flow(&names(&ps), &signs);
    assert_eq!(flow.from, vec!["equity:opening-balances"]);
    assert_eq!(flow.to, vec!["assets:bank:fineco", "assets:bank:postepay", "assets:investments:xeon"]);
}
