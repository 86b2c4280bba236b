use ledgera::journal::search_results::search_journal_transaction_checked;
use ledgera::journal::types::{JournalPosting, JournalTransaction, TransactionDisplay, TransactionFlow};

fn posting(account: &str, comment: &str) -> JournalPosting {
    JournalPosting {
        account: account.to_string(),
        amount: String::new(),
        commodity: String::new(),
        unit_price: String::new(),
        comment: comment.to_string(),
        raw: String::new(),
    }
}

fn transaction(description: &str, postings: Vec<JournalPosting>) -> JournalTransaction {
    JournalTransaction {
        id: "main.journal:1".to_string(),
        source_file: "main.journal".to_string(),
        date: "2026-03-02".to_string(),
        status: String::new(),
        code: String::new(),
        description: description.to_string(),
        postings,
        display: TransactionDisplay {
            account: String::new(),
            amount: String::new(),
            formatted: String::new(),
            kind: String::new(),
            tint: String::new(),
            flow: TransactionFlow { from: Vec::new(), to: Vec::new() },
        },
        raw: String::new(),
        start_line: 1,
        end_line: 3,
    }
}

#[test]
fn search_result_lists_matching_fields_with_best_score() {
    let t = transaction(
        "Tigros grocery",
        vec![posting("expenses:groceries", ""), posting("assets:bank", "weekly Tigros receipt")],
    );
    let (score, result) = search_journal_transaction_checked(t.clone(), "tigros").unwrap().unwrap();
    assert_eq!(score, 80);
    assert_eq!(result.transaction, t);
    assert_eq!(result.matches.len(), 2);
    assert_eq!(result.matches[0].field, "description");
    assert_eq!(result.matches[0].posting_index, None);
    assert_eq!(result.matches[0].ranges.len(), 1);
    assert_eq!((result.matches[0].ranges[0].start, result.matches[0].ranges[0].end), (0, 6));
    assert_eq!(result.matches[1].field, "comment");
    assert_eq!(result.matches[1].value, "weekly Tigros receipt");
    assert_eq!(result.matches[1].posting_index, Some(1));
    assert_eq!((result.matches[1].ranges[0].start, result.matches[1].ranges[0].end), (7, 13));
}

#[test]
fn search_result_is_none_without_a_match() {
    let t = transaction("Rent", vec![posting("expenses:rent", ""), posting("assets:bank", "")]);
    assert_eq!(search_journal_transaction_checked(t, "lidl"), Some(None));
}
