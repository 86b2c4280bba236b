use ledgera::journal::transactions::validate_transaction_input;
use ledgera::journal::types::{PostingInput, TransactionInput};
use serde_json::Value;

fn posting(account: &str, amount: &str, commodity: &str) -> PostingInput {
    PostingInput {
        account: account.to_string(),
        amount: amount.to_string(),
        commodity: commodity.to_string(),
        unit_price: String::new(),
        comment: String::new(),
    }
}

fn valid_input() -> TransactionInput {
    TransactionInput {
        mode: "movement".to_string(),
        date: "2026-05-22".to_string(),
        status: "*".to_string(),
        code: "(INV-001)".to_string(),
        description: "Grocery store".to_string(),
        postings: vec![posting("expenses:food", "25.00", "EUR"), posting("assets:bank", "", "")],
    }
}

fn validation_error(input: TransactionInput) -> Value {
    let error = validate_transaction_input(&input).expect_err("input should be invalid");
    serde_json::from_str(&error).expect("validation error should be structured JSON")
}

fn field_error_paths(error: &Value) -> Vec<String> {
    let Some(field_errors) = error["fieldErrors"].as_array() else {
        return Vec::new();
    };
    field_errors
        .iter()
        .map(|field_error| {
            field_error["path"]
                .as_array()
                .map(|path| path.iter().filter_map(|part| part.as_str()).collect::<Vec<_>>().join("."))
                .unwrap_or_default()
        })
        .collect()
}

#[test]
fn accepts_valid_transaction_input() {
    assert!(validate_transaction_input(&valid_input()).is_ok());
}

#[test]
fn rejects_invalid_date_without_requiring_description() {
    let mut input = valid_input();
    input.date = "2026-02-30".to_string();
    input.description = "".to_string();

    let error = validation_error(input);
    let paths = field_error_paths(&error);

    assert_eq!(error["code"], "transaction_validation_failed");
    assert!(paths.contains(&"date".to_string()));
    assert!(!paths.contains(&"description".to_string()));
}

#[test]
fn accepts_missing_description_in_all_modes() {
    for mode in ["movement", "investment", "advanced"] {
        let mut input = valid_input();
        input.mode = mode.to_string();
        input.description = "".to_string();
        assert!(validate_transaction_input(&input).is_ok());
    }
}

#[test]
fn rejects_hledger_code_without_parentheses() {
    let mut input = valid_input();
    input.code = "INV-001".to_string();
    let paths = field_error_paths(&validation_error(input));
    assert!(paths.contains(&"code".to_string()));
}

#[test]
fn rejects_transactions_without_two_posting_accounts() {
    let mut input = valid_input();
    input.postings = vec![posting("expenses:food", "25.00", "EUR")];
    let paths = field_error_paths(&validation_error(input));
    assert!(paths.contains(&"postings".to_string()));
}

#[test]
fn rejects_unit_price_without_quantity() {
    let mut input = valid_input();
    input.postings[0].amount = "".to_string();
    input.postings[0].unit_price = "100 EUR".to_string();
    let paths = field_error_paths(&validation_error(input));
    assert!(paths.contains(&"postings.0.unitPrice".to_string()));
}

#[test]
fn reports_each_kind_of_field_error() {
    let mut input = valid_input();
    input.mode = "other".to_string();
    input.status = "?".to_string();
    input.description = "two\nlines".to_string();
    input.postings = vec![posting("", "5", ""), posting("assets:bank", "abc", ""), posting("x", "", "")];
    let error = validation_error(input);
    let paths = field_error_paths(&error);
    assert_eq!(
        paths,
        vec!["mode", "status", "description", "postings.0.account", "postings.1.amount"]
    );
    assert_eq!(error["fieldErrors"][0]["message"], "Mode must be movement, investment, or advanced.");
}

#[test]
fn missing_date_and_amounts_are_reported() {
    let mut input = valid_input();
    input.date = "  ".to_string();
    input.postings = vec![posting("a", "", ""), posting("b", "", "")];
    let error = validation_error(input);
    assert_eq!(field_error_paths(&error), vec!["date", "postings"]);
    assert_eq!(error["fieldErrors"][1]["message"], "Enter an amount on at least one posting.");
    assert_eq!(error["message"], "Transaction validation failed. Check the highlighted fields.");
}
