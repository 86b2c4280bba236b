use ledgera::calendar::{advance_months, date_not_after, days_in_month, last_day_of_month, recurrence_dates, CalDate, Recurrence};
use ledgera::journal::recurrence::{
    format_dates, generate_occurrences, occurrences_of_normalized, pending_dates, pending_window, printed_dates,
    recurrence_for, sorted_dates, Occurrences,
};
use ledgera::journal::types::PeriodicRule;

fn d(year: i32, month: u32, day: u32) -> CalDate {
    CalDate { year, month, day }
}

fn texts(dates: &[CalDate]) -> Vec<String> {
    format_dates(&dates.to_vec())
}

fn rule(start: Option<&str>, end: Option<&str>) -> PeriodicRule {
    PeriodicRule {
        id: "recurring.journal:1".to_string(),
        rule_id: "rent".to_string(),
        source_file: "recurring.journal".to_string(),
        period_expr: "monthly".to_string(),
        description: "Rent".to_string(),
        postings: Vec::new(),
        status: String::new(),
        code: String::new(),
        start_date: start.map(|s| s.to_string()),
        end_date: end.map(|s| s.to_string()),
        comment: String::new(),
        raw: String::new(),
        start_line: 1,
        end_line: 3,
    }
}

#[test]
fn month_lengths_follow_the_gregorian_calendar() {
    assert_eq!(days_in_month(2024, 2), 29);
    assert_eq!(days_in_month(2023, 2), 28);
    assert_eq!(days_in_month(1900, 2), 28);
    assert_eq!(days_in_month(2000, 2), 29);
    assert_eq!(days_in_month(2024, 4), 30);
    assert_eq!(days_in_month(2024, 12), 31);
}

#[test]
fn last_day_of_month_moves_to_month_end() {
    assert_eq!(last_day_of_month(&d(2024, 2, 10)), d(2024, 2, 29));
    assert_eq!(last_day_of_month(&d(2023, 12, 1)), d(2023, 12, 31));
}

#[test]
fn advance_months_clamps_to_shorter_months() {
    assert_eq!(advance_months(&d(2024, 1, 31), 1, 31), d(2024, 2, 29));
    assert_eq!(advance_months(&d(2024, 2, 29), 1, 31), d(2024, 3, 31));
    assert_eq!(advance_months(&d(2024, 11, 30), 3, 30), d(2025, 2, 28));
}

#[test]
fn date_order_is_calendar_order() {
    assert!(date_not_after(&d(2024, 1, 31), &d(2024, 2, 1)));
    assert!(date_not_after(&d(2024, 2, 1), &d(2024, 2, 1)));
    assert!(!date_not_after(&d(2025, 1, 1), &d(2024, 12, 31)));
}

#[test]
fn monthly_occurrences_keep_the_start_day() {
    let dates = recurrence_dates(&Recurrence::Months(1), &d(2024, 1, 31), &d(2024, 5, 31));
    assert_eq!(
        texts(&dates),
        vec!["2024-01-31", "2024-02-29", "2024-03-31", "2024-04-30", "2024-05-31"]
    );
}

#[test]
fn weekly_occurrences_step_seven_days_across_months() {
    let dates = recurrence_dates(&Recurrence::Days(7), &d(2024, 2, 20), &d(2024, 3, 12));
    assert_eq!(texts(&dates), vec!["2024-02-20", "2024-02-27", "2024-03-05", "2024-03-12"]);
}

#[test]
fn yearly_occurrences_fall_back_to_february_28() {
    let dates = recurrence_dates(&Recurrence::Yearly, &d(2024, 2, 29), &d(2026, 12, 31));
    assert_eq!(texts(&dates), vec!["2024-02-29", "2025-02-28", "2026-02-28"]);
}

#[test]
fn no_occurrences_when_the_start_is_after_the_end() {
    let dates = recurrence_dates(&Recurrence::Days(1), &d(2024, 3, 2), &d(2024, 3, 1));
    assert!(dates.is_empty());
}

#[test]
fn generate_occurrences_recognizes_builtin_periods() {
    match generate_occurrences(&d(2024, 1, 1), " Quarterly ", &d(2024, 12, 31)) {
        Occurrences::Dates(dates) => {
            assert_eq!(texts(&dates), vec!["2024-01-01", "2024-04-01", "2024-07-01", "2024-10-01"])
        }
        Occurrences::Custom(_) => panic!("quarterly is built in"),
    }
    match generate_occurrences(&d(2024, 1, 1), "Every 2nd Monday", &d(2024, 12, 31)) {
        Occurrences::Custom(p) => assert_eq!(p, "every 2nd monday"),
        Occurrences::Dates(_) => panic!("custom periods go to hledger"),
    }
}

#[test]
fn pending_dates_skip_generated_ones() {
    let all = vec!["2024-01-01".to_string(), "2024-02-01".to_string(), "2024-03-01".to_string()];
    let done = vec!["2024-02-01".to_string()];
    assert_eq!(pending_dates(&all, &done), vec!["2024-01-01", "2024-03-01"]);
}

#[test]
fn printed_dates_are_sorted_and_unique() {
    let json = r#"[{"tdate":"2024-03-01"},{"tdate":"2024-01-01"},{"other":1},{"tdate":"2024-03-01"}]"#;
    assert_eq!(printed_dates(json), vec!["2024-01-01", "2024-03-01"]);
    assert!(printed_dates("not json").is_empty());
}

#[test]
fn pending_window_ends_at_the_month_end_or_rule_end() {
    let today = d(2024, 5, 10);
    assert_eq!(pending_window(&rule(Some("2024-01-15"), None), &today), Ok(Some((d(2024, 1, 15), d(2024, 5, 31)))));
    assert_eq!(
        pending_window(&rule(Some(" 2024-01-15 "), Some("2024-03-01")), &today),
        Ok(Some((d(2024, 1, 15), d(2024, 3, 1))))
    );
    assert_eq!(pending_window(&rule(None, None), &today), Ok(None));
    assert_eq!(pending_window(&rule(Some("   "), None), &today), Ok(None));
    assert_eq!(pending_window(&rule(Some("2024-06-01"), None), &today), Ok(None));
}

#[test]
fn pending_window_rejects_a_bad_start_date() {
    let err = pending_window(&rule(Some("2024-13-01"), None), &d(2024, 5, 10)).unwrap_err();
    assert!(err.starts_with("Invalid start date '2024-13-01': "));
}

#[test]
fn formats_years_outside_four_digits_with_a_sign() {
    let dates = vec![
        CalDate { year: 2026, month: 3, day: 9 },
        CalDate { year: 12345, month: 1, day: 2 },
        CalDate { year: -5, month: 11, day: 30 },
    ];
    assert_eq!(format_dates(&dates), vec!["2026-03-09", "+12345-01-02", "-0005-11-30"]);
}

#[test]
fn advance_months_past_a_year_and_past_the_calendar() {
    assert_eq!(advance_months(&d(2024, 1, 31), 13, 31), d(2025, 2, 28));
    assert_eq!(advance_months(&d(2024, 12, 15), 1, 15), d(2025, 1, 15));
    assert_eq!(advance_months(&d(2024, 1, 31), 5_000_000, 31), d(2024, 1, 31));
    assert_eq!(advance_months(&d(2024, 1, 31), u32::MAX, 31), d(2024, 1, 31));
}

#[test]
fn normalized_periods_step_by_their_names() {
    assert_eq!(recurrence_for("biweekly"), Some(Recurrence::Days(14)));
    assert_eq!(recurrence_for("bimonthly"), Some(Recurrence::Months(2)));
    assert_eq!(recurrence_for("Monthly"), None);
    match occurrences_of_normalized(&d(2024, 1, 31), "monthly".to_string(), &d(2024, 4, 30)) {
        Occurrences::Dates(ds) => assert_eq!(ds, vec![d(2024, 1, 31), d(2024, 2, 29), d(2024, 3, 31), d(2024, 4, 30)]),
        Occurrences::Custom(_) => panic!("monthly is built in"),
    }
    assert_eq!(
        occurrences_of_normalized(&d(2024, 1, 1), "every 2nd monday".to_string(), &d(2024, 2, 1)),
        Occurrences::Custom("every 2nd monday".to_string())
    );
}

#[test]
fn sorted_dates_keep_each_present_date_once() {
    let fields = vec![Some("2024-03-01".to_string()), None, Some("2024-01-05".to_string()), Some("2024-03-01".to_string())];
    assert_eq!(sorted_dates(&fields), vec!["2024-01-05".to_string(), "2024-03-01".to_string()]);
    assert!(sorted_dates(&Vec::new()).is_empty());
}
