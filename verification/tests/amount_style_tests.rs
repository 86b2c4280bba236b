use ledgera::amount_style::{
    parse_commodity_styles, parse_format_directive, parse_hledger_commodity_position, resolve_currency_display, AmountStyle,
    CommodityStyles, HledgerStyleFields,
};
use ledgera::amount_format::{AmountFormatConfig, CommodityPosition};
use ledgera::journal::files::JournalFile;

#[test]
fn resolves_euro_symbol_when_journal_does_not_define_eur() {
    let display = resolve_currency_display(&CommodityStyles::new(), "EUR");
    assert_eq!(display, "\u{20AC}");
}

#[test]
fn resolves_dollar_symbol() {
    let display = resolve_currency_display(&CommodityStyles::new(), "USD");
    assert_eq!(display, "$");
}

#[test]
fn resolves_pound_symbol() {
    let display = resolve_currency_display(&CommodityStyles::new(), "GBP");
    assert_eq!(display, "\u{00A3}");
}

#[test]
fn resolves_yen_symbol() {
    let display = resolve_currency_display(&CommodityStyles::new(), "JPY");
    assert_eq!(display, "\u{00A5}");
}

#[test]
fn resolves_swiss_franc_as_code() {
    let display = resolve_currency_display(&CommodityStyles::new(), "CHF");
    assert_eq!(display, "CHF");
}

#[test]
fn falls_back_to_code_for_unknown_currency() {
    let display = resolve_currency_display(&CommodityStyles::new(), "XYZ");
    assert_eq!(display, "XYZ");
}

#[test]
fn case_insensitive_lookup() {
    let display = resolve_currency_display(&CommodityStyles::new(), "eur");
    assert_eq!(display, "\u{20AC}");
}

#[test]
fn parses_commodity_styles_from_multi_currency_journal() {
    let files = vec![JournalFile {
        path: "test.journal".into(),
        content: "commodity \u{20AC}1.000,00\n  format 1.000,00 \u{20AC}\n\ncommodity 1,000.00 USD\n  format 1,000.00 USD\n".to_string(),
    }];
    let styles = parse_commodity_styles(&files);

    assert!(styles.contains_key("\u{20AC}"), "EUR symbol should be present");
    assert!(styles.contains_key("USD"), "USD should be present");

    let eur_style = styles.get("\u{20AC}").unwrap();
    assert_eq!(eur_style.decimal_mark, ",");
    assert_eq!(eur_style.precision, 2);

    let usd_style = styles.get("USD").unwrap();
    assert_eq!(usd_style.decimal_mark, ".");
    assert_eq!(usd_style.precision, 2);
}

#[test]
fn journal_commodity_keeps_its_code() {
    let files = vec![JournalFile {
        path: "main.journal".into(),
        content: "commodity 1.000,00 EUR\n  format 1.000,00 EUR\n".to_string(),
    }];
    let styles = parse_commodity_styles(&files);
    assert_eq!(resolve_currency_display(&styles, "EUR"), "EUR");
}

#[test]
fn parses_right_side_commodity_style() {
    let style = parse_format_directive("1.000,00 €").expect("format directive should parse");
    assert_eq!(style.commodity_position, "right");
    assert!(style.commodity_spaced);
    assert_eq!(style.decimal_mark, ",");
    assert_eq!(style.digit_separator, ".");
    assert_eq!(style.digit_groups, vec![3]);
    assert_eq!(style.precision, 2);
}

#[test]
fn parses_left_side_commodity_style() {
    let style = parse_format_directive("$1,000.00").expect("format directive should parse");
    assert_eq!(style.commodity_position, "left");
    assert!(!style.commodity_spaced);
    assert_eq!(style.decimal_mark, ".");
    assert_eq!(style.digit_separator, ",");
}

#[test]
fn format_directive_without_fraction_has_no_precision() {
    let style = parse_format_directive("1.000 EUR").expect("format directive should parse");
    assert_eq!(style.decimal_mark, ".");
    assert_eq!(style.precision, 3);
    let plain = parse_format_directive("1000 EUR").expect("format directive should parse");
    assert_eq!(plain.decimal_mark, ".");
    assert_eq!(plain.digit_separator, "");
    assert!(plain.digit_groups.is_empty());
    assert_eq!(plain.precision, 0);
}

#[test]
fn format_directive_without_digits_is_rejected() {
    assert!(parse_format_directive("EUR").is_none());
}

#[test]
fn groups_digits_of_fixed_quantity() {
    let config = AmountFormatConfig {
        decimal_mark: ",".to_string(),
        digit_separator: ".".to_string(),
        digit_groups: vec![3],
        precision: 2,
        commodity_position: CommodityPosition::Right,
        commodity_spaced: true,
    };
    assert_eq!(config.format_fixed_quantity(false, "5317.55"), "5.317,55");
    assert_eq!(config.format_fixed_quantity(true, "37744.98"), "-37.744,98");
    assert_eq!(config.format_amount_text("-37.744,98", "€"), "-37.744,98 €");
}

#[test]
fn places_left_side_commodity() {
    let config = AmountFormatConfig::default();
    assert_eq!(config.format_fixed_quantity(true, "1234.56"), "-1,234.56");
    assert_eq!(config.format_amount_text("-1,234.56", "$"), "-$1,234.56");
    assert_eq!(config.format_amount_text("1,234.56", "  "), "1,234.56");
}

#[test]
fn reads_hledger_json_style_fields() {
    let fields = HledgerStyleFields {
        decimal_mark: Some(",".to_string()),
        digit_separator: Some(".".to_string()),
        digit_groups: Some(vec![Some(3), None, Some(2)]),
        precision: Some(0),
        commodity_side: Some("R".to_string()),
        commodity_spaced: Some(true),
    };
    let style = AmountStyle::from_hledger_json(&fields);
    assert_eq!(style.decimal_mark, ",");
    assert_eq!(style.digit_separator, ".");
    assert_eq!(style.digit_groups, vec![3, 2]);
    assert_eq!(style.precision, 0);
    assert_eq!(style.commodity_position, "right");
    assert!(style.commodity_spaced);
}

#[test]
fn hledger_json_style_defaults() {
    let fields = HledgerStyleFields {
        decimal_mark: None,
        digit_separator: None,
        digit_groups: None,
        precision: None,
        commodity_side: Some("middle".to_string()),
        commodity_spaced: None,
    };
    let style = AmountStyle::from_hledger_json(&fields);
    assert_eq!(style.decimal_mark, ".");
    assert_eq!(style.digit_separator, "");
    assert!(style.digit_groups.is_empty());
    assert_eq!(style.precision, 2);
    assert_eq!(style.commodity_position, "left");
    assert!(!style.commodity_spaced);
}

#[test]
fn hledger_commodity_side_names() {
    assert_eq!(parse_hledger_commodity_position("Right"), Some(CommodityPosition::Right));
    assert_eq!(parse_hledger_commodity_position("L"), Some(CommodityPosition::Left));
    assert_eq!(parse_hledger_commodity_position(""), None);
    assert_eq!(parse_hledger_commodity_position("x"), None);
}
