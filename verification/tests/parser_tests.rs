use ledgera::amount_style::{CommodityStyles, StyleContext};
use ledgera::journal::parser::{extract_price, parse_posting, parse_posting_amount, parse_transaction_block, rate_token_pos};
use ledgera::journal::format::format_transaction_preserving_quantities;
use ledgera::journal::periodic::{format_periodic_rule_text, parse_periodic_rules};
use ledgera::journal::types::{PeriodicRuleInput, PostingInput, TransactionInput};

fn ctx() -> StyleContext {
    StyleContext::new()
}

#[test]
fn parses_simple_amount_with_suffix_commodity() {
    let parsed = parse_posting_amount("25 EUR", &ctx());
    assert_eq!(parsed.quantity, "25");
    assert_eq!(parsed.commodity, "EUR");
    assert_eq!(parsed.unit_price, "");
}

#[test]
fn parses_simple_amount_with_prefix_commodity() {
    let parsed = parse_posting_amount("$25", &ctx());
    assert_eq!(parsed.quantity, "25");
    assert_eq!(parsed.commodity, "$");
    assert_eq!(parsed.unit_price, "");
}

#[test]
fn parses_negative_amount() {
    let parsed = parse_posting_amount("€-25,50", &ctx());
    assert_eq!(parsed.quantity, "-25,50");
    assert_eq!(parsed.commodity, "€");
    assert_eq!(parsed.unit_price, "");
}

#[test]
fn parses_unit_price_at_syntax() {
    let parsed = parse_posting_amount("2 @ ₺190", &ctx());
    assert_eq!(parsed.quantity, "2");
    assert_eq!(parsed.commodity, "₺");
    assert_eq!(parsed.unit_price, "₺190");
}

#[test]
fn parses_total_price_at_at_syntax() {
    let parsed = parse_posting_amount("2 @@ ₺380,00", &ctx());
    assert_eq!(parsed.quantity, "2");
    assert_eq!(parsed.commodity, "₺");
    assert!(parsed.unit_price.contains("190"));
    assert!(parsed.unit_price.contains("₺"));
}

#[test]
fn parses_total_price_with_different_commodity() {
    let parsed = parse_posting_amount("2 EUR @@ 2,20 USD", &ctx());
    assert_eq!(parsed.quantity, "2");
    assert_eq!(parsed.commodity, "EUR");
    assert!(parsed.unit_price.contains("1.1"));
    assert!(parsed.unit_price.contains("USD"));
}

#[test]
fn parses_unit_price_with_explicit_commodity_before_at() {
    let parsed = parse_posting_amount("10 VWCE @ 150 EUR", &ctx());
    assert_eq!(parsed.quantity, "10");
    assert_eq!(parsed.commodity, "VWCE");
    assert_eq!(parsed.unit_price, "150 EUR");
}

#[test]
fn parses_total_price_with_commodity_before_at_at() {
    let parsed = parse_posting_amount("5 XEON @@ 750 EUR", &ctx());
    assert_eq!(parsed.quantity, "5");
    assert_eq!(parsed.commodity, "XEON");
    assert!(parsed.unit_price.contains("150"));
    assert!(parsed.unit_price.contains("EUR"));
}

#[test]
fn parses_amount_without_commodity_or_price() {
    let parsed = parse_posting_amount("100", &ctx());
    assert_eq!(parsed.quantity, "100");
    assert_eq!(parsed.commodity, "");
    assert_eq!(parsed.unit_price, "");
}

#[test]
fn parses_empty_amount() {
    let parsed = parse_posting_amount("", &ctx());
    assert_eq!(parsed.quantity, "");
    assert_eq!(parsed.commodity, "");
    assert_eq!(parsed.unit_price, "");
}

#[test]
fn parses_non_numeric_as_quantity() {
    let parsed = parse_posting_amount("ABC", &ctx());
    assert_eq!(parsed.quantity, "ABC");
    assert_eq!(parsed.commodity, "");
    assert_eq!(parsed.unit_price, "");
}

#[test]
fn parse_posting_handles_at_at_syntax() {
    let line = "    Expenses:Food                 2 @@ ₺380,00";
    let posting = parse_posting(line, &ctx()).expect("should parse posting");
    assert_eq!(posting.account, "Expenses:Food");
    assert_eq!(posting.amount, "2");
    assert_eq!(posting.commodity, "₺");
    assert!(posting.unit_price.contains("190"));
    assert!(posting.unit_price.contains("₺"));
}

#[test]
fn parse_posting_handles_simple_amount() {
    let line = "    Assets:Cash                    ₺-380,00";
    let posting = parse_posting(line, &ctx()).expect("should parse posting");
    assert_eq!(posting.account, "Assets:Cash");
    assert_eq!(posting.amount, "-380,00");
    assert_eq!(posting.commodity, "₺");
    assert_eq!(posting.unit_price, "");
}

#[test]
fn parse_posting_returns_none_for_empty_lines() {
    assert!(parse_posting("", &ctx()).is_none());
    assert!(parse_posting("   ", &ctx()).is_none());
}

#[test]
fn parse_posting_returns_none_for_comment_lines() {
    assert!(parse_posting("    ; this is a comment", &ctx()).is_none());
}

#[test]
fn parse_posting_returns_none_for_non_indented_lines() {
    assert!(parse_posting("2026-05-22 Transaction", &ctx()).is_none());
}

#[test]
fn rate_token_pos_detects_token_at_start() {
    assert_eq!(rate_token_pos("@@ ₺380,00", "@@"), Some(0));
    assert_eq!(rate_token_pos("@ ₺190", "@"), Some(0));
}

#[test]
fn rate_token_pos_detects_token_after_space() {
    assert_eq!(rate_token_pos("EUR @@ USD", "@@"), Some(4));
    assert_eq!(rate_token_pos("VWCE @ 150", "@"), Some(5));
}

#[test]
fn rate_token_pos_rejects_token_without_preceding_space() {
    assert_eq!(rate_token_pos("EUR@@USD", "@@"), None);
    assert_eq!(rate_token_pos("VWCE@150", "@"), None);
}

#[test]
fn rate_token_pos_does_not_confuse_at_with_at_at() {
    let pos = rate_token_pos(" EUR @@ USD ", "@");
    assert!(pos.is_some());
}

#[test]
fn parses_price_with_comma_decimal() {
    let parsed = parse_posting_amount("2 @@ ₺380,00", &ctx());
    assert_eq!(parsed.quantity, "2");
    assert!(parsed.unit_price.contains("190"));
}

#[test]
fn extract_price_returns_empty_for_no_rate() {
    let (commodity, price) = extract_price("EUR", "10", &ctx());
    assert_eq!(commodity, "EUR");
    assert_eq!(price, "");
}

#[test]
fn extract_price_handles_empty_suffix() {
    let (commodity, price) = extract_price("", "10", &ctx());
    assert_eq!(commodity, "");
    assert_eq!(price, "");
}

#[test]
fn parses_transaction_from_issue_27() {
    let raw = "2026-05-22 Aygaz\n    Expenses:Food:Groceries:Water                 2 @@ ₺380,00\n    Assets:Cash:Caleb                                 ₺-380,00";
    let tx = parse_transaction_block("test.journal", 1, 3, raw, &ctx()).expect("should parse transaction");

    assert_eq!(tx.date, "2026-05-22");
    assert_eq!(tx.description, "Aygaz");
    assert_eq!(tx.postings.len(), 2);

    let first = &tx.postings[0];
    assert_eq!(first.account, "Expenses:Food:Groceries:Water");
    assert_eq!(first.amount, "2");
    assert_eq!(first.commodity, "₺");
    assert!(!first.unit_price.is_empty(), "unit_price should be populated from @@");
    assert!(first.unit_price.contains("190"), "380 / 2 = 190");

    let second = &tx.postings[1];
    assert_eq!(second.account, "Assets:Cash:Caleb");
    assert_eq!(second.amount, "-380,00");
    assert_eq!(second.commodity, "₺");
    assert!(second.unit_price.is_empty());
}

#[test]
fn parses_transaction_with_unit_price_at() {
    let raw = "2026-05-23 Market buy\n    Assets:Investments:VWCE                    10 VWCE @ 150 EUR\n    Assets:Bank:Fineco                             -1.500 EUR";
    let tx = parse_transaction_block("test.journal", 1, 3, raw, &ctx()).expect("should parse transaction");

    let first = &tx.postings[0];
    assert_eq!(first.account, "Assets:Investments:VWCE");
    assert_eq!(first.amount, "10");
    assert_eq!(first.commodity, "VWCE");
    assert_eq!(first.unit_price, "150 EUR");
}

#[test]
fn parses_transaction_with_cross_commodity_at_at() {
    let raw = "2026-05-24 Currency exchange\n    Assets:Cash:USD                            100 USD @@ 92 EUR\n    Assets:Cash:EUR                                -92 EUR";
    let tx = parse_transaction_block("test.journal", 1, 3, raw, &ctx()).expect("should parse transaction");

    let first = &tx.postings[0];
    assert_eq!(first.account, "Assets:Cash:USD");
    assert_eq!(first.amount, "100");
    assert_eq!(first.commodity, "USD");
    assert!(first.unit_price.contains("0.92"));
    assert!(first.unit_price.contains("EUR"));
}

fn posting_input(account: &str, amount: &str, commodity: &str, comment: &str) -> PostingInput {
    PostingInput {
        account: account.to_string(),
        amount: amount.to_string(),
        commodity: commodity.to_string(),
        unit_price: String::new(),
        comment: comment.to_string(),
    }
}

#[test]
fn formats_periodic_rule_preserving_amount_quantity() {
    let input = PeriodicRuleInput {
        rule_id: "insurance".to_string(),
        period_expr: "monthly".to_string(),
        description: "Insurance".to_string(),
        postings: vec![
            posting_input("assets:bank:fineco", "50,00", "EUR", ""),
            posting_input("expenses:insurance:life", "", "", ""),
        ],
        status: String::new(),
        code: String::new(),
        start_date: Some("2026-06-05".to_string()),
        end_date: None,
        comment: String::new(),
    };

    let result = format_periodic_rule_text(&input, &CommodityStyles::new());

    assert!(result.contains("50,00 EUR"));
    assert!(!result.contains("50.00 EUR"));
}

#[test]
fn parse_periodic_rules_stops_at_foreign_rule_id_posting_comment() {
    let content = "~ monthly from 2026-06-05  ; rule-id:allianz Assicurazione Vita\n    assets:bank:fineco  50,00 EUR\n    expenses:insurance:life~ monthly from 2026-06-26  ; rule-id:apple Apple Music\n    assets:bank:fineco  2,99 EUR\n";

    let rules = parse_periodic_rules(content, "recurring.journal", &ctx());

    assert_eq!(rules.len(), 1);
    assert_eq!(rules[0].rule_id, "allianz");
    assert_eq!(rules[0].postings.len(), 1);
    assert_eq!(rules[0].postings[0].account, "assets:bank:fineco");
}

#[test]
fn formats_generated_recurring_transaction_preserving_amount_quantity() {
    let input = TransactionInput {
        mode: String::new(),
        date: "2026-06-05".to_string(),
        status: String::new(),
        code: String::new(),
        description: "Insurance".to_string(),
        postings: vec![
            posting_input("assets:bank:fineco", "50,00", "EUR", "rule-id:insurance"),
            posting_input("expenses:insurance:life", "", "", ""),
        ],
    };

    let result = format_transaction_preserving_quantities(&input, &CommodityStyles::new());

    assert!(result.contains("50,00 EUR"));
    assert!(!result.contains("50.00 EUR"));
}

#[test]
fn written_transaction_reads_back() {
    let input = TransactionInput {
        mode: "simple".to_string(),
        date: " 2026-03-02 ".to_string(),
        status: "*".to_string(),
        code: "(42)".to_string(),
        description: "Team lunch".to_string(),
        postings: vec![
            posting_input("expenses:eating out", "12.50", "EUR", "; with the team"),
            posting_input("", "", "", ""),
            posting_input(" assets:bank ", "", "", ""),
            PostingInput {
                account: "assets:investments:xeon".to_string(),
                amount: "10".to_string(),
                commodity: "XEON".to_string(),
                unit_price: "€148,70".to_string(),
                comment: String::new(),
            },
        ],
    };
    let text = format_transaction_preserving_quantities(&input, &CommodityStyles::new());
    let tx = parse_transaction_block("main.journal", 1, 3, &text, &ctx()).expect("written transaction should parse");
    assert_eq!(tx.date, "2026-03-02");
    assert_eq!(tx.status, "*");
    assert_eq!(tx.code, "(42)");
    assert_eq!(tx.description, "Team lunch");
    assert_eq!(tx.postings.len(), 3);
    assert_eq!(tx.postings[0].account, "expenses:eating out");
    assert_eq!(tx.postings[0].comment, "with the team");
    assert_eq!(tx.postings[0].amount, "12.50");
    assert_eq!(tx.postings[0].commodity, "EUR");
    assert_eq!(tx.postings[1].account, "assets:bank");
    assert_eq!(tx.postings[1].comment, "");
    assert_eq!(tx.postings[1].amount, "");
    assert_eq!(tx.postings[2].amount, "10");
    assert_eq!(tx.postings[2].commodity, "XEON");
    assert_eq!(tx.postings[2].unit_price, "€148,70");
}

#[test]
fn written_periodic_rule_reads_back() {
    let input = PeriodicRuleInput {
        rule_id: "rent".to_string(),
        period_expr: "every month".to_string(),
        description: "Rent".to_string(),
        postings: vec![
            posting_input("expenses:housing", "900", "EUR", ""),
            posting_input("assets:bank", "", "", ""),
        ],
        status: String::new(),
        code: String::new(),
        start_date: Some("2026-01-01".to_string()),
        end_date: Some("2026-12-31".to_string()),
        comment: "flat".to_string(),
    };
    let text = format_periodic_rule_text(&input, &CommodityStyles::new());
    let rules = parse_periodic_rules(&text, "recurring.journal", &ctx());
    assert_eq!(rules.len(), 1);
    let rule = &rules[0];
    assert_eq!(rule.period_expr, "every month");
    assert_eq!(rule.start_date, Some("2026-01-01".to_string()));
    assert_eq!(rule.end_date, Some("2026-12-31".to_string()));
    assert_eq!(rule.rule_id, "rent");
    assert_eq!(rule.description, "Rent flat");
    assert_eq!(rule.postings.len(), 2);
    assert_eq!(rule.postings[0].account, "expenses:housing");
    assert_eq!(rule.postings[0].amount, "900");
    assert_eq!(rule.postings[0].commodity, "EUR");
    assert_eq!(rule.postings[1].account, "assets:bank");
}

#[test]
fn total_price_of_any_size_gives_a_unit_price() {
    let parsed = parse_posting_amount("3 @@ 1000000000000000000000000000000000000000000 EUR", &ctx());
    assert_eq!(parsed.unit_price, "333333333333333333333333333333333333333333.33333333 EUR");
    let parsed = parse_posting_amount("0.000000000000000000000000000000000000003 @@ 6 EUR", &ctx());
    assert_eq!(parsed.unit_price, "2000000000000000000000000000000000000000 EUR");
    let parsed = parse_posting_amount("3 @@ 2 EUR", &ctx());
    assert_eq!(parsed.unit_price, "0.66666667 EUR");
    let parsed = parse_posting_amount("8 @@ 1 EUR", &ctx());
    assert_eq!(parsed.unit_price, "0.125 EUR");
}
