use ledgera::journal::routing::{
    append_transaction_text, detect_routing_strategy, flat_target_include, glob_include_matches_year,
    glob_include_year, glob_month_include, glob_target_include, insert_glob_include_sorted,
    insert_include_sorted, is_month_file_name_of, parse_flat_include_filename, parse_glob_include,
    pick_flat_target, target_subjournal_name, FlatTarget,
};
use ledgera::journal::types::{RoutingStrategy, TransactionInput};

fn input(date: &str) -> TransactionInput {
    TransactionInput {
        mode: "simple".to_string(),
        date: date.to_string(),
        status: String::new(),
        code: String::new(),
        description: "Test".to_string(),
        postings: Vec::new(),
    }
}

#[test]
fn reads_the_year_of_glob_includes() {
    assert_eq!(glob_include_year("2024/*.journal"), Some("2024".to_string()));
    assert_eq!(glob_include_year("journals/2023/*.journal"), Some("2023".to_string()));
    assert_eq!(glob_include_year("journals/*.journal"), None);
    assert_eq!(glob_include_year("2024/01.journal"), None);
}

#[test]
fn parses_glob_and_flat_include_lines() {
    assert_eq!(parse_glob_include("include 2024/*.journal"), Some("2024/*.journal".to_string()));
    assert_eq!(parse_glob_include("include 2024-01.journal"), None);
    assert_eq!(parse_flat_include_filename("include 2024-01.journal"), Some("2024-01.journal".to_string()));
    assert_eq!(parse_flat_include_filename("include sub/2024-01.journal"), Some("sub/2024-01.journal".to_string()));
    assert_eq!(parse_flat_include_filename("include prices.journal"), None);
    assert!(is_month_file_name_of("2024-05.journal"));
    assert!(!is_month_file_name_of("2024_05.journal"));
}

#[test]
fn detects_routing_strategies() {
    match detect_routing_strategy("include 2023/*.journal\ninclude 2024/*.journal\n") {
        RoutingStrategy::Glob(g) => assert_eq!(g, vec!["2023/*.journal", "2024/*.journal"]),
        _ => panic!("expected glob"),
    }
    match detect_routing_strategy("include 2024-01.journal\ninclude prices.journal\n") {
        RoutingStrategy::Flat(f) => assert_eq!(f, vec!["2024-01.journal"]),
        _ => panic!("expected flat"),
    }
    assert_eq!(detect_routing_strategy("2024-01-01 Test\n"), RoutingStrategy::Fallback);
}

#[test]
fn names_the_month_file_of_a_transaction() {
    assert_eq!(target_subjournal_name(&input("2024-05-17")), "2024-05.journal");
}

#[test]
fn picks_flat_targets() {
    let names = vec![Some("2024-01.journal".to_string()), Some("2024-05.journal".to_string())];
    assert_eq!(pick_flat_target(&names, "2024-05.journal", "2024"), FlatTarget::Existing(1));
    assert_eq!(pick_flat_target(&names, "2024-07.journal", "2024"), FlatTarget::SameYear(0));
    assert_eq!(pick_flat_target(&names, "2025-01.journal", "2025"), FlatTarget::New);
    assert_eq!(flat_target_include(&Vec::new(), &input("2025-01-03")), "2025-01.journal");
    let nested = vec!["2024/2024-01.journal".to_string()];
    assert_eq!(flat_target_include(&nested, &input("2024-03-01")), "2024/2024-03.journal");
}

#[test]
fn finds_glob_targets_by_year() {
    let includes = vec!["journals/2023/*.journal".to_string(), "journals/2024/*.journal".to_string()];
    assert_eq!(glob_target_include(&includes, "2024"), "journals/2024/*.journal");
    assert_eq!(glob_target_include(&includes, "2025"), "journals/2025/*.journal");
    assert_eq!(glob_target_include(&Vec::new(), "2025"), "2025/*.journal");
    assert!(glob_include_matches_year("journals/2024/*.journal", &includes));
    assert!(!glob_include_matches_year("journals/2025/*.journal", &includes));
    assert_eq!(glob_month_include("journals/2025/*.journal", &input("2025-03-09")), "journals/2025/03.journal");
}

#[test]
fn inserts_includes_in_sorted_place() {
    let main = "; main\ninclude 2024-01.journal\ninclude 2024-03.journal\n";
    assert_eq!(
        insert_include_sorted(main, "2024-02.journal"),
        "; main\ninclude 2024-01.journal\ninclude 2024-02.journal\ninclude 2024-03.journal\n"
    );
    assert_eq!(
        insert_include_sorted(main, "2024-04.journal"),
        "; main\ninclude 2024-01.journal\ninclude 2024-03.journal\ninclude 2024-04.journal\n"
    );
    assert_eq!(insert_glob_include_sorted("; main", "2024/*.journal"), "; main\ninclude 2024/*.journal\n");
    assert_eq!(
        insert_glob_include_sorted("include 2023/*.journal\ninclude 2025/*.journal", "2024/*.journal"),
        "include 2023/*.journal\ninclude 2024/*.journal\ninclude 2025/*.journal\n"
    );
}

#[test]
fn appends_transaction_text_after_a_blank_line() {
    assert_eq!(append_transaction_text("a\n\n\n", "2024-01-01 T"), "a\n\n2024-01-01 T\n");
    assert_eq!(append_transaction_text("\r\n", "2024-01-01 T"), "2024-01-01 T\n");
}

#[test]
fn flat_target_follows_existing_month_files() {
    let v = |xs: &[&str]| xs.iter().map(|x| x.to_string()).collect::<Vec<_>>();
    let i = input("2026-05-03");
    assert_eq!(
        flat_target_include(&v(&["yearly/2026/2026-04.journal", "yearly/2026/2026-06.journal"]), &i),
        "yearly/2026/2026-05.journal"
    );
    assert_eq!(flat_target_include(&v(&["2026-04.journal", "2026-06.journal"]), &i), "2026-05.journal");
    assert_eq!(flat_target_include(&v(&["x/2026-05.journal"]), &i), "x/2026-05.journal");
    assert_eq!(flat_target_include(&v(&["2025-12.journal"]), &i), "2026-05.journal");
}

#[test]
fn detects_glob_flat_nested_and_fallback_journals() {
    let strs = |xs: &[&str]| xs.iter().map(|x| x.to_string()).collect::<Vec<_>>();
    assert_eq!(detect_routing_strategy("include 2025/*.journal\n"), RoutingStrategy::Glob(strs(&["2025/*.journal"])));
    assert_eq!(
        detect_routing_strategy("include yearly/2025/*.journal\n"),
        RoutingStrategy::Glob(strs(&["yearly/2025/*.journal"]))
    );
    assert_eq!(
        detect_routing_strategy("include 2026-04.journal\ninclude 2026-06.journal\n"),
        RoutingStrategy::Flat(strs(&["2026-04.journal", "2026-06.journal"]))
    );
    assert_eq!(
        detect_routing_strategy("include yearly/2026/2026-05.journal\n"),
        RoutingStrategy::Flat(strs(&["yearly/2026/2026-05.journal"]))
    );
    assert_eq!(detect_routing_strategy("include accounts.journal\n"), RoutingStrategy::Fallback);
}
