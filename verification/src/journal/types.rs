//! Data carried between the journal parser, the formatter and the callers.

use vstd::prelude::*;

verus! {

/// One posting line of a transaction, as read from the journal.
#[derive(Debug, Clone, PartialEq, Eq)]
pub struct JournalPosting {
    pub account: String,
    pub amount: String,
    pub commodity: String,
    pub unit_price: String,
    pub comment: String,
    pub raw: String,
}

/// Where money moved from and to in a transaction.
#[derive(Debug, Clone, PartialEq, Eq)]
pub struct TransactionFlow {
    pub from: Vec<String>,
    pub to: Vec<String>,
}

/// Display fields of a transaction.
#[derive(Debug, Clone, PartialEq, Eq)]
pub struct TransactionDisplay {
    pub account: String,
    pub amount: String,
    pub formatted: String,
    pub kind: String,
    pub tint: String,
    pub flow: TransactionFlow,
}

/// A transaction block of a journal file together with its display fields.
#[derive(Debug, Clone, PartialEq, Eq)]
pub struct JournalTransaction {
    pub id: String,
    pub source_file: String,
    pub date: String,
    pub status: String,
    pub code: String,
    pub description: String,
    pub postings: Vec<JournalPosting>,
    pub display: TransactionDisplay,
    pub raw: String,
    pub start_line: usize,
    pub end_line: usize,
}

/// A transaction block as the parser reads it; the display fields are added
/// by the caller.
#[derive(Debug, Clone, PartialEq, Eq)]
pub struct ParsedTransaction {
    pub id: String,
    pub source_file: String,
    pub date: String,
    pub status: String,
    pub code: String,
    pub description: String,
    pub postings: Vec<JournalPosting>,
    pub raw: String,
    pub start_line: usize,
    pub end_line: usize,
}

/// A posting as entered in the transaction form.
#[derive(Debug, Clone, PartialEq, Eq)]
pub struct PostingInput {
    pub account: String,
    pub amount: String,
    pub commodity: String,
    pub unit_price: String,
    pub comment: String,
}

/// A transaction as entered in the transaction form.
#[derive(Debug, Clone, PartialEq, Eq)]
pub struct TransactionInput {
    pub mode: String,
    pub date: String,
    pub status: String,
    pub code: String,
    pub description: String,
    pub postings: Vec<PostingInput>,
}

/// A periodic transaction rule (`~ monthly ...`).
#[derive(Debug, Clone, PartialEq, Eq)]
pub struct PeriodicRule {
    pub id: String,
    pub rule_id: String,
    pub source_file: String,
    pub period_expr: String,
    pub description: String,
    pub postings: Vec<JournalPosting>,
    pub status: String,
    pub code: String,
    pub start_date: Option<String>,
    pub end_date: Option<String>,
    pub comment: String,
    pub raw: String,
    pub start_line: usize,
    pub end_line: usize,
}

/// A periodic rule as entered in the rule form.
#[derive(Debug, Clone, PartialEq, Eq)]
pub struct PeriodicRuleInput {
    pub rule_id: String,
    pub period_expr: String,
    pub description: String,
    pub postings: Vec<PostingInput>,
    pub status: String,
    pub code: String,
    pub start_date: Option<String>,
    pub end_date: Option<String>,
    pub comment: String,
}

/// How new transactions are routed into the files of a split journal.
#[derive(Debug, Clone, PartialEq, Eq)]
pub enum RoutingStrategy {
    Glob(Vec<String>),
    Flat(Vec<String>),
    Fallback,
}

} // verus!

verus! {

/// The text of the fields of a posting.
pub struct PostingSpec {
    pub account: Seq<char>,
    pub amount: Seq<char>,
    pub commodity: Seq<char>,
    pub unit_price: Seq<char>,
    pub comment: Seq<char>,
    pub raw: Seq<char>,
}

impl View for JournalPosting {
    type V = PostingSpec;

    open spec fn view(&self) -> PostingSpec {
        PostingSpec {
            account: self.account@,
            amount: self.amount@,
            commodity: self.commodity@,
            unit_price: self.unit_price@,
            comment: self.comment@,
            raw: self.raw@,
        }
    }
}

pub open spec fn posting_views(v: Seq<JournalPosting>) -> Seq<PostingSpec> {
    v.map_values(|p: JournalPosting| p@)
}

/// The text and line numbers of a parsed transaction block.
pub struct TransactionSpec {
    pub id: Seq<char>,
    pub source_file: Seq<char>,
    pub date: Seq<char>,
    pub status: Seq<char>,
    pub code: Seq<char>,
    pub description: Seq<char>,
    pub postings: Seq<PostingSpec>,
    pub raw: Seq<char>,
    pub start_line: nat,
    pub end_line: nat,
}

impl View for ParsedTransaction {
    type V = TransactionSpec;

    open spec fn view(&self) -> TransactionSpec {
        TransactionSpec {
            id: self.id@,
            source_file: self.source_file@,
            date: self.date@,
            status: self.status@,
            code: self.code@,
            description: self.description@,
            postings: posting_views(self.postings@),
            raw: self.raw@,
            start_line: self.start_line as nat,
            end_line: self.end_line as nat,
        }
    }
}

} // verus!

verus! {

/// The text of the fields of a posting input.
pub struct PostingInputSpec {
    pub account: Seq<char>,
    pub amount: Seq<char>,
    pub commodity: Seq<char>,
    pub unit_price: Seq<char>,
    pub comment: Seq<char>,
}

impl View for PostingInput {
    type V = PostingInputSpec;

    open spec fn view(&self) -> PostingInputSpec {
        PostingInputSpec {
            account: self.account@,
            amount: self.amount@,
            commodity: self.commodity@,
            unit_price: self.unit_price@,
            comment: self.comment@,
        }
    }
}

pub open spec fn input_views(v: Seq<PostingInput>) -> Seq<PostingInputSpec> {
    v.map_values(|p: PostingInput| p@)
}

} // verus!

verus! {

/// The text of the fields of a transaction input.
pub struct TransactionInputSpec {
    pub mode: Seq<char>,
    pub date: Seq<char>,
    pub status: Seq<char>,
    pub code: Seq<char>,
    pub description: Seq<char>,
    pub postings: Seq<PostingInputSpec>,
}

impl View for TransactionInput {
    type V = TransactionInputSpec;

    open spec fn view(&self) -> TransactionInputSpec {
        TransactionInputSpec {
            mode: self.mode@,
            date: self.date@,
            status: self.status@,
            code: self.code@,
            description: self.description@,
            postings: input_views(self.postings@),
        }
    }
}

pub open spec fn opt_text(v: Option<String>) -> Option<Seq<char>> {
    match v {
        Some(s) => Some(s@),
        None => None,
    }
}

} // verus!

verus! {

pub struct PeriodicRuleSpec {
    pub id: Seq<char>,
    pub rule_id: Seq<char>,
    pub source_file: Seq<char>,
    pub period_expr: Seq<char>,
    pub description: Seq<char>,
    pub postings: Seq<PostingSpec>,
    pub status: Seq<char>,
    pub code: Seq<char>,
    pub start_date: Option<Seq<char>>,
    pub end_date: Option<Seq<char>>,
    pub comment: Seq<char>,
    pub raw: Seq<char>,
    pub start_line: nat,
    pub end_line: nat,
}

impl View for PeriodicRule {
    type V = PeriodicRuleSpec;

    open spec fn view(&self) -> PeriodicRuleSpec {
        PeriodicRuleSpec {
            id: self.id@,
            rule_id: self.rule_id@,
            source_file: self.source_file@,
            period_expr: self.period_expr@,
            description: self.description@,
            postings: posting_views(self.postings@),
            status: self.status@,
            code: self.code@,
            start_date: opt_text(self.start_date),
            end_date: opt_text(self.end_date),
            comment: self.comment@,
            raw: self.raw@,
            start_line: self.start_line as nat,
            end_line: self.end_line as nat,
        }
    }
}

pub struct PeriodicRuleInputSpec {
    pub rule_id: Seq<char>,
    pub period_expr: Seq<char>,
    pub description: Seq<char>,
    pub postings: Seq<PostingInputSpec>,
    pub status: Seq<char>,
    pub code: Seq<char>,
    pub start_date: Option<Seq<char>>,
    pub end_date: Option<Seq<char>>,
    pub comment: Seq<char>,
}

impl View for PeriodicRuleInput {
    type V = PeriodicRuleInputSpec;

    open spec fn view(&self) -> PeriodicRuleInputSpec {
        PeriodicRuleInputSpec {
            rule_id: self.rule_id@,
            period_expr: self.period_expr@,
            description: self.description@,
            postings: input_views(self.postings@),
            status: self.status@,
            code: self.code@,
            start_date: opt_text(self.start_date),
            end_date: opt_text(self.end_date),
            comment: self.comment@,
        }
    }
}

fn copy_strings(v: &Vec<String>) -> (r: Vec<String>)
    ensures
        r@ == v@,
{
    let mut r: Vec<String> = Vec::new();
    let mut i: usize = 0;
    while i < v.len()
        invariant
            i <= v.len(),
            r@ == v@.take(i as int),
        decreases v.len() - i,
    {
        r.push(v[i].clone());
        assert(r@ =~= v@.take(i as int + 1));
        i += 1;
    }
    assert(v@.take(v.len() as int) =~= v@);
    r
}

impl JournalPosting {
    /// A field-by-field copy.
    pub fn duplicate(&self) -> (r: JournalPosting)
        ensures
            r == *self,
    {
        JournalPosting {
            account: self.account.clone(),
            amount: self.amount.clone(),
            commodity: self.commodity.clone(),
            unit_price: self.unit_price.clone(),
            comment: self.comment.clone(),
            raw: self.raw.clone(),
        }
    }
}

/// Two transactions whose fields hold the same values.
pub open spec fn same_transaction(a: JournalTransaction, b: JournalTransaction) -> bool {
    &&& a.id == b.id
    &&& a.source_file == b.source_file
    &&& a.date == b.date
    &&& a.status == b.status
    &&& a.code == b.code
    &&& a.description == b.description
    &&& a.postings@ == b.postings@
    &&& a.display.account == b.display.account
    &&& a.display.amount == b.display.amount
    &&& a.display.formatted == b.display.formatted
    &&& a.display.kind == b.display.kind
    &&& a.display.tint == b.display.tint
    &&& a.display.flow.from@ == b.display.flow.from@
    &&& a.display.flow.to@ == b.display.flow.to@
    &&& a.raw == b.raw
    &&& a.start_line == b.start_line
    &&& a.end_line == b.end_line
}

impl JournalTransaction {
    /// A field-by-field copy.
    pub fn duplicate(&self) -> (r: JournalTransaction)
        ensures
            same_transaction(r, *self),
    {
        let mut postings: Vec<JournalPosting> = Vec::new();
        let mut i: usize = 0;
        while i < self.postings.len()
            invariant
                i <= self.postings.len(),
                postings@ == self.postings@.take(i as int),
            decreases self.postings.len() - i,
        {
            postings.push(self.postings[i].duplicate());
            assert(postings@ =~= self.postings@.take(i as int + 1));
            i += 1;
        }
        assert(self.postings@.take(self.postings.len() as int) =~= self.postings@);
        let from = copy_strings(&self.display.flow.from);
        let to = copy_strings(&self.display.flow.to);
        let r = JournalTransaction {
            id: self.id.clone(),
            source_file: self.source_file.clone(),
            date: self.date.clone(),
            status: self.status.clone(),
            code: self.code.clone(),
            description: self.description.clone(),
            postings,
            display: TransactionDisplay {
                account: self.display.account.clone(),
                amount: self.display.amount.clone(),
                formatted: self.display.formatted.clone(),
                kind: self.display.kind.clone(),
                tint: self.display.tint.clone(),
                flow: TransactionFlow { from, to },
            },
            raw: self.raw.clone(),
            start_line: self.start_line,
            end_line: self.end_line,
        };
        r
    }
}

} // verus!
