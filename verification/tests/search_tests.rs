use ledgera::journal::ranking::rank_search_results;
use ledgera::journal::search::{
    byte_to_char_index, match_ranges_in, normalize_search_query, ranges_defined_for, score_normalized, score_search_match,
    search_match_ranges, search_match_ranges_checked, spaced_words,
};

#[test]
fn normalizes_search_queries() {
    assert_eq!(normalize_search_query("  Hello   World "), "hello world");
}

#[test]
fn scores_like_matches_without_fuzzy_fallback() {
    assert_eq!(score_search_match("Tigros grocery", "tigros"), 80);
    assert_eq!(score_search_match("expenses:groceries", "gro"), 60);
    assert_eq!(score_search_match("weekly Lidl receipt", "lidl"), 60);
    assert_eq!(score_search_match("assets:bank", "lidl"), 0);
}

#[test]
fn returns_highlight_ranges() {
    let ranges = search_match_ranges("Spesa Tigros Tigros", "tigros");
    assert_eq!(ranges.len(), 2);
    assert_eq!((ranges[0].start, ranges[0].end), (6, 12));
    assert_eq!((ranges[1].start, ranges[1].end), (13, 19));
}

#[test]
fn scores_exact_contained_and_all_terms_matches() {
    assert_eq!(score_search_match("Tigros", " TIGROS "), 100);
    assert_eq!(score_search_match("supertigros", "tigros"), 40);
    assert_eq!(score_search_match("lidl weekly receipt", "receipt lidl"), 30);
    assert_eq!(score_search_match("", "lidl"), 0);
    assert_eq!(score_search_match("lidl", "   "), 0);
}

#[test]
fn ranges_of_several_terms_are_sorted_and_counted_in_characters() {
    let ranges = search_match_ranges("Caffè Lidl caffè", "lidl caffè");
    let pairs: Vec<(usize, usize)> = ranges.iter().map(|r| (r.start, r.end)).collect();
    assert_eq!(pairs, vec![(0, 5), (6, 10), (11, 16)]);
    assert!(search_match_ranges_checked("Caffè Lidl caffè", "lidl caffè").is_some());
    assert_eq!(byte_to_char_index("caffè!", 7), 6);
}

#[test]
fn ranks_results_by_score_then_date_then_line() {
    let scores = vec![50, 100, 100, 100, 50];
    let dates = vec!["2024-01-01".to_string(), "2024-01-01".to_string(), "2024-02-01".to_string(), "2024-01-01".to_string(), "2024-01-01".to_string()];
    let lines = vec![1, 5, 3, 9, 1];
    assert_eq!(rank_search_results(&scores, &dates, &lines, 12), vec![2, 3, 1, 0, 4]);
    assert_eq!(rank_search_results(&scores, &dates, &lines, 2), vec![2, 3]);
    assert!(rank_search_results(&Vec::new(), &Vec::new(), &Vec::new(), 5).is_empty());
}

#[test]
fn spaced_words_joins_words_by_single_spaces() {
    assert_eq!(spaced_words("  Hello \t  World "), "Hello World");
    assert_eq!(spaced_words("   "), "");
}

#[test]
fn scores_normalized_fields_and_queries() {
    assert_eq!(score_normalized("tigros", "tigros"), 100);
    assert_eq!(score_normalized("tigros grocery", "tigros"), 80);
    assert_eq!(score_normalized("expenses:groceries", "gro"), 60);
    assert_eq!(score_normalized("spesa tigros", "igro"), 40);
    assert_eq!(score_normalized("lidl spesa caffe", "caffe lidl"), 30);
    assert_eq!(score_normalized("lidl", "esselunga"), 0);
    assert_eq!(score_normalized("", "x"), 0);
    assert_eq!(score_normalized("x", ""), 0);
}

#[test]
fn ranges_from_a_lowercased_text_and_a_normalized_query() {
    assert!(ranges_defined_for("Spesa Tigros Tigros", "spesa tigros tigros", "tigros"));
    let ranges = match_ranges_in("Spesa Tigros Tigros", "spesa tigros tigros", "tigros");
    let pairs: Vec<(usize, usize)> = ranges.iter().map(|r| (r.start, r.end)).collect();
    assert_eq!(pairs, vec![(6, 12), (13, 19)]);
    let ranges = match_ranges_in("Caffè Lidl", "caffè lidl", "lidl caffè");
    let pairs: Vec<(usize, usize)> = ranges.iter().map(|r| (r.start, r.end)).collect();
    assert_eq!(pairs, vec![(0, 5), (6, 10)]);
    assert!(!ranges_defined_for("ab", "\u{e9}b", "b"));
}
