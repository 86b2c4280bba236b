use ledgera::amount_style::{parse_format_directive, CommodityStyles};
use ledgera::journal::format::format_posting;
use ledgera::journal::types::PostingInput;

#[test]
fn formats_posting_with_unit_price() {
    let posting = PostingInput {
        account: "assets:investments:etf".to_string(),
        amount: "10".to_string(),
        commodity: "VWCE".to_string(),
        unit_price: "150 EUR".to_string(),
        comment: String::new(),
    };
    let result = format_posting(&posting, "10.00", &CommodityStyles::new());
    assert!(result.contains("@ 150 EUR"));
    assert!(result.contains("10.00 VWCE"));
    assert!(result.contains("assets:investments:etf"));
}

#[test]
fn formats_posting_without_unit_price_when_empty() {
    let posting = PostingInput {
        account: "expenses:food".to_string(),
        amount: "25".to_string(),
        commodity: "EUR".to_string(),
        unit_price: String::new(),
        comment: String::new(),
    };
    let result = format_posting(&posting, "25.00", &CommodityStyles::new());
    assert!(!result.contains('@'));
    assert!(result.contains("25.00 EUR"));
}

#[test]
fn formats_posting_with_unit_price_and_comment() {
    let posting = PostingInput {
        account: "assets:investments:etf".to_string(),
        amount: "5".to_string(),
        commodity: "BTC".to_string(),
        unit_price: "45000 USD".to_string(),
        comment: "limit order".to_string(),
    };
    let result = format_posting(&posting, "5.00", &CommodityStyles::new());
    assert!(result.contains("@ 45000 USD"));
    assert!(result.contains("; limit order"));
}

#[test]
fn parses_right_side_commodity_from_format_directive() {
    let style = parse_format_directive("1.000,00 €").expect("format directive should parse");

    assert_eq!(style.commodity_position, "right");
    assert!(style.commodity_spaced);
    let config = style.to_format_config();
    let quantity = config.format_fixed_quantity(false, "5317.55");
    assert_eq!(config.format_amount_text(&quantity, "€"), "5.317,55 €");
}

#[test]
fn parses_left_side_commodity_from_format_directive() {
    let style = parse_format_directive("$1,000.00").expect("format directive should parse");

    assert_eq!(style.commodity_position, "left");
    assert!(!style.commodity_spaced);
    let config = style.to_format_config();
    let quantity = config.format_fixed_quantity(false, "5317.55");
    assert_eq!(config.format_amount_text(&quantity, "$"), "$5,317.55");
}
