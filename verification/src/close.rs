//! Fiscal-year close: trial balances, exact statement tables, SRU
//! comparisons, and the close/reopen state and journal kept in year-file
//! metadata.
use vstd::prelude::*;

use crate::model::VoucherBalanceViolation;
use crate::report::{BalanceKey, BalanceRow};
use crate::store::TrialBalanceData;
use crate::text::{
    chars_eq, chars_of, first_index, has_char, is_space, lex_less, lex_lt, lemma_first_index,
    lemma_lex_order, lemma_lex_trans, push_int, signed_decimal, string_from_chars, trim,
    trimmed_range,
};

verus! {

broadcast use vstd::string::group_string_axioms;

/// Failure while closing or projecting a ledger year.
#[derive(Clone, Debug, PartialEq, Eq)]
pub enum CloseError {
    /// Supplied ledger storage failed.
    Store(String),
    /// Trial balance postings do not net to zero.
    UnbalancedTrialBalance {
        /// Signed minor-unit sum across all trial-balance rows.
        minor_sum: i64,
    },
    /// One voucher has no postings or does not sum to zero.
    UnbalancedVoucher {
        /// Canonical voucher id.
        voucher: i64,
        /// Number of posting lines attached to the voucher.
        posting_count: usize,
        /// Signed minor-unit sum for the voucher.
        minor_sum: i64,
    },
    /// A close/reopen state entry was malformed.
    InvalidState(String),
    /// An exact minor-unit calculation overflowed.
    ArithmeticOverflow(&'static str),
}

/// A sum as minor units, or the overflow of the calculation named `role`.
pub fn checked_i64(sum: i128, role: &'static str) -> (r: Result<i64, CloseError>)
    ensures
        i64::MIN <= sum <= i64::MAX ==> r == Ok::<i64, CloseError>(sum as i64),
        !(i64::MIN <= sum <= i64::MAX) ==> r == Err::<i64, CloseError>(CloseError::ArithmeticOverflow(role)),
{
    if sum < i64::MIN as i128 || sum > i64::MAX as i128 {
        Err(CloseError::ArithmeticOverflow(role))
    } else {
        Ok(sum as i64)
    }
}

// ---------------------------------------------------------------------------
// Close state

/// Close state for one fiscal year.
#[derive(Clone, Copy, Debug, PartialEq, Eq, Structural)]
pub enum ClosingState {
    /// The year accepts ordinary ledger mutations.
    Open,
    /// The year is under close review.
    Review,
    /// The year is closed and ordinary mutations are rejected.
    Closed,
}

/// The metadata spelling of a close state.
pub open spec fn state_text(s: ClosingState) -> Seq<char> {
    match s {
        ClosingState::Open => seq!['o', 'p', 'e', 'n'],
        ClosingState::Review => seq!['r', 'e', 'v', 'i', 'e', 'w'],
        ClosingState::Closed => seq!['c', 'l', 'o', 's', 'e', 'd'],
    }
}

/// The close state a metadata spelling names, if any.
pub open spec fn state_of_text(t: Seq<char>) -> Option<ClosingState> {
    if t == state_text(ClosingState::Open) {
        Some(ClosingState::Open)
    } else if t == state_text(ClosingState::Review) {
        Some(ClosingState::Review)
    } else if t == state_text(ClosingState::Closed) {
        Some(ClosingState::Closed)
    } else {
        None
    }
}

/// The message for a spelling that names no close state.
pub open spec fn unknown_state_message(t: Seq<char>) -> Seq<char> {
    seq![
        'u', 'n', 'k', 'n', 'o', 'w', 'n', ' ', 'c', 'l', 'o', 's', 'i', 'n', 'g', ' ', 's', 't',
        'a', 't', 'e', ' ',
    ] + t
}

/// Every close state reads back from its spelling: parsing what `as_str`
/// writes gives the state again.
pub proof fn lemma_state_text_round_trip(s: ClosingState)
    ensures
        state_of_text(state_text(s)) == Some(s),
{
    assert(state_text(ClosingState::Open) != state_text(ClosingState::Review));
    assert(state_text(ClosingState::Open) != state_text(ClosingState::Closed));
    assert(state_text(ClosingState::Review).len() == state_text(ClosingState::Closed).len());
    assert(state_text(ClosingState::Review)[0] != state_text(ClosingState::Closed)[0]);
}

impl ClosingState {
    /// Returns the metadata spelling.
    pub fn as_str(self) -> (r: &'static str)
        ensures
            r@ == state_text(self),
    {
        proof {
            reveal_strlit("open");
            reveal_strlit("review");
            reveal_strlit("closed");
        }
        match self {
            ClosingState::Open => "open",
            ClosingState::Review => "review",
            ClosingState::Closed => "closed",
        }
    }

    /// Parses a metadata spelling.
    pub fn parse(value: &str) -> (r: Result<ClosingState, CloseError>)
        ensures
            match state_of_text(value@) {
                Some(s) => r == Ok::<ClosingState, CloseError>(s),
                None => r matches Err(CloseError::InvalidState(m)) && m@ == unknown_state_message(value@),
            },
    {
        let v = chars_of(value);
        let open = vec!['o', 'p', 'e', 'n'];
        let review = vec!['r', 'e', 'v', 'i', 'e', 'w'];
        let closed = vec!['c', 'l', 'o', 's', 'e', 'd'];
        assert(open@ =~= state_text(ClosingState::Open));
        assert(review@ =~= state_text(ClosingState::Review));
        assert(closed@ =~= state_text(ClosingState::Closed));
        if chars_eq(v.as_slice(), open.as_slice()) {
            Ok(ClosingState::Open)
        } else if chars_eq(v.as_slice(), review.as_slice()) {
            Ok(ClosingState::Review)
        } else if chars_eq(v.as_slice(), closed.as_slice()) {
            Ok(ClosingState::Closed)
        } else {
            let mut m: Vec<char> = vec![
                'u', 'n', 'k', 'n', 'o', 'w', 'n', ' ', 'c', 'l', 'o', 's', 'i', 'n', 'g', ' ', 's', 't',
                'a', 't', 'e', ' ',
            ];
            let ghost prefix = m@;
            crate::text::push_chars(&mut m, &v);
            assert(m@ =~= unknown_state_message(value@));
            Err(CloseError::InvalidState(string_from_chars(m.as_slice())))
        }
    }
}

// ---------------------------------------------------------------------------
// Trial balance

/// One account's row of a year's trial balance.
#[derive(Clone, Debug, PartialEq, Eq)]
pub struct TrialBalanceRow {
    /// Ledger year.
    pub year: i32,
    /// Year-local account number.
    pub account: i64,
    /// SRU code for positive balances.
    pub sru_plus: Option<i32>,
    /// SRU code for negative balances.
    pub sru_minus: Option<i32>,
    /// Opening balance.
    pub opening_minor: i64,
    /// Sum of the positive postings.
    pub debit_minor: i64,
    /// Sum of the negative postings, as a positive number.
    pub credit_minor: i64,
    /// Closing balance.
    pub closing_minor: i64,
}

/// The SRU code that reports a row's closing balance: the code for its
/// sign, else the other one.
pub open spec fn closing_sru_of(r: TrialBalanceRow) -> Option<i32> {
    if r.closing_minor >= 0 {
        if r.sru_plus is Some { r.sru_plus } else { r.sru_minus }
    } else {
        if r.sru_minus is Some { r.sru_minus } else { r.sru_plus }
    }
}

impl TrialBalanceRow {
    /// The SRU code that reports this row's closing balance.
    pub fn closing_sru(&self) -> (r: Option<i32>)
        ensures
            r == closing_sru_of(*self),
    {
        if self.closing_minor >= 0 {
            match self.sru_plus {
                Some(c) => Some(c),
                None => self.sru_minus,
            }
        } else {
            match self.sru_minus {
                Some(c) => Some(c),
                None => self.sru_plus,
            }
        }
    }
}

/// The trial-balance row of a year-store account total.
pub open spec fn trial_row_of(year: i32, d: TrialBalanceData) -> TrialBalanceRow {
    TrialBalanceRow {
        year,
        account: d.account,
        sru_plus: d.sru_plus,
        sru_minus: d.sru_minus,
        opening_minor: 0,
        debit_minor: d.debit_minor,
        credit_minor: d.credit_minor,
        closing_minor: d.closing_minor,
    }
}

/// The trial balance of one year from the store's account totals, in the
/// store's order; every year opens at zero.
pub fn trial_balance_rows(year: i32, data: &[TrialBalanceData]) -> (r: Vec<TrialBalanceRow>)
    ensures
        r@ == data@.map_values(|d: TrialBalanceData| trial_row_of(year, d)),
{
    let mut out: Vec<TrialBalanceRow> = Vec::new();
    let mut i: usize = 0;
    while i < data.len()
        invariant
            i <= data.len(),
            out@ == data@.take(i as int).map_values(|d: TrialBalanceData| trial_row_of(year, d)),
        decreases data.len() - i,
    {
        let d = &data[i];
        out.push(TrialBalanceRow {
            year,
            account: d.account,
            sru_plus: d.sru_plus,
            sru_minus: d.sru_minus,
            opening_minor: 0,
            debit_minor: d.debit_minor,
            credit_minor: d.credit_minor,
            closing_minor: d.closing_minor,
        });
        assert(out@ =~= data@.take(i + 1).map_values(|d: TrialBalanceData| trial_row_of(year, d)));
        i += 1;
    }
    assert(data@.take(data.len() as int) =~= data@);
    out
}

// ---------------------------------------------------------------------------
// Statements

/// One explicit statement adjustment kept outside source postings.
#[derive(Clone, Debug, PartialEq, Eq)]
pub struct StatementAdjustment {
    /// Operator-facing adjustment label.
    pub label: String,
    /// Signed exact minor-unit amount.
    pub amount_minor: i64,
}

/// One statement table row.
#[derive(Clone, Debug, PartialEq, Eq)]
pub struct StatementRow {
    /// Row label.
    pub label: String,
    /// Signed exact minor-unit amount.
    pub amount_minor: i64,
}

/// One statement table.
#[derive(Clone, Debug, PartialEq, Eq)]
pub struct StatementTable {
    /// Table title.
    pub title: String,
    /// Ordered rows.
    pub rows: Vec<StatementRow>,
}

/// One plain-language statement note.
#[derive(Clone, Debug, PartialEq, Eq)]
pub struct StatementNote {
    /// Stable note id.
    pub id: String,
    /// Note text.
    pub text: String,
}

/// Complete statements for one fiscal year.
#[derive(Clone, Debug, PartialEq, Eq)]
pub struct FinancialStatements {
    /// Ledger year.
    pub year: i32,
    /// Trial-balance rows.
    pub trial_balance: Vec<TrialBalanceRow>,
    /// Income statement table.
    pub income_statement: StatementTable,
    /// Balance sheet table.
    pub balance_sheet: StatementTable,
    /// Statement notes.
    pub notes: Vec<StatementNote>,
}

/// One year amount in an SRU comparison row.
#[derive(Clone, Debug, PartialEq, Eq)]
pub struct SruYearAmount {
    /// Ledger year.
    pub year: i32,
    /// Signed exact minor-unit amount.
    pub amount_minor: i64,
}

/// One SRU comparison row across selected years.
#[derive(Clone, Debug, PartialEq, Eq)]
pub struct SruComparativeRow {
    /// SRU code.
    pub sru: i32,
    /// Amounts ordered like the requested years.
    pub years: Vec<SruYearAmount>,
}

/// Sum of the statement row amounts.
pub open spec fn rows_total(rows: Seq<StatementRow>) -> int
    decreases rows.len(),
{
    if rows.len() == 0 { 0 } else { rows_total(rows.drop_last()) + rows.last().amount_minor }
}

/// Sum of the closing balances of trial-balance rows.
pub open spec fn closing_total(rows: Seq<TrialBalanceRow>) -> int
    decreases rows.len(),
{
    if rows.len() == 0 { 0 } else { closing_total(rows.drop_last()) + rows.last().closing_minor }
}

impl StatementTable {
    /// Sums all row amounts.
    pub fn total_minor(&self) -> (r: Result<i64, CloseError>)
        ensures
            i64::MIN <= rows_total(self.rows@) <= i64::MAX ==> r == Ok::<i64, CloseError>(rows_total(self.rows@) as i64),
            !(i64::MIN <= rows_total(self.rows@) <= i64::MAX) ==> r == Err::<i64, CloseError>(
                CloseError::ArithmeticOverflow("statement total"),
            ),
    {
        let mut sum: i128 = 0;
        let mut i: usize = 0;
        while i < self.rows.len()
            invariant
                i <= self.rows.len(),
                sum == rows_total(self.rows@.take(i as int)),
                -(i as int) * 0x8000_0000_0000_0000 <= sum <= (i as int) * 0x8000_0000_0000_0000,
            decreases self.rows.len() - i,
        {
            assert(self.rows@.take(i + 1).drop_last() =~= self.rows@.take(i as int));
            sum = sum + self.rows[i].amount_minor as i128;
            i += 1;
        }
        assert(self.rows@.take(self.rows.len() as int) =~= self.rows@);
        checked_i64(sum, "statement total")
    }
}

/// The closing total of trial-balance rows, or its overflow.
fn closing_sum(rows: &[TrialBalanceRow], role: &'static str) -> (r: Result<i64, CloseError>)
    ensures
        i64::MIN <= closing_total(rows@) <= i64::MAX ==> r == Ok::<i64, CloseError>(closing_total(rows@) as i64),
        !(i64::MIN <= closing_total(rows@) <= i64::MAX) ==> r == Err::<i64, CloseError>(CloseError::ArithmeticOverflow(role)),
{
    let mut sum: i128 = 0;
    let mut i: usize = 0;
    while i < rows.len()
        invariant
            i <= rows.len(),
            sum == closing_total(rows@.take(i as int)),
            -(i as int) * 0x8000_0000_0000_0000 <= sum <= (i as int) * 0x8000_0000_0000_0000,
        decreases rows.len() - i,
    {
        assert(rows@.take(i + 1).drop_last() =~= rows@.take(i as int));
        sum = sum + rows[i].closing_minor as i128;
        i += 1;
    }
    assert(rows@.take(rows.len() as int) =~= rows@);
    checked_i64(sum, role)
}

impl FinancialStatements {
    /// Sums the trial-balance closing column.
    pub fn trial_balance_total_minor(&self) -> (r: Result<i64, CloseError>)
        ensures
            i64::MIN <= closing_total(self.trial_balance@) <= i64::MAX ==> r == Ok::<i64, CloseError>(
                closing_total(self.trial_balance@) as i64,
            ),
            !(i64::MIN <= closing_total(self.trial_balance@) <= i64::MAX) ==> r == Err::<i64, CloseError>(
                CloseError::ArithmeticOverflow("trial-balance total"),
            ),
    {
        closing_sum(self.trial_balance.as_slice(), "trial-balance total")
    }
}

/// Whether an SRU code reports income (codes 3000 through 8999).
pub open spec fn is_income(sru: Option<i32>) -> bool {
    match sru {
        Some(code) => 3000 <= code <= 8999,
        None => false,
    }
}

/// Whether an SRU code reports income.
pub fn is_income_sru(sru: Option<i32>) -> (r: bool)
    ensures
        r == is_income(sru),
{
    match sru {
        Some(code) => 3000 <= code && code <= 8999,
        None => false,
    }
}

/// The statement label of a trial-balance row: `SRU <code>` for its closing
/// SRU code, else `Account <number>`.
pub open spec fn row_label(r: TrialBalanceRow) -> Seq<char> {
    match closing_sru_of(r) {
        Some(code) => seq!['S', 'R', 'U', ' '] + signed_decimal(code as int),
        None => seq!['A', 'c', 'c', 'o', 'u', 'n', 't', ' '] + signed_decimal(r.account as int),
    }
}

/// Whether a row counts in the income statement (`income`) or the balance
/// sheet: it has a closing balance and its SRU code is on that side.
pub open spec fn in_table(r: TrialBalanceRow, income: bool) -> bool {
    r.closing_minor != 0 && is_income(closing_sru_of(r)) == income
}

/// The sum of the closing balances of the rows of one table under `label`.
pub open spec fn label_total(rows: Seq<TrialBalanceRow>, income: bool, label: Seq<char>) -> int
    decreases rows.len(),
{
    if rows.len() == 0 {
        0
    } else {
        label_total(rows.drop_last(), income, label) + if in_table(rows.last(), income) && row_label(rows.last()) == label {
            rows.last().closing_minor as int
        } else {
            0
        }
    }
}

/// Whether some row of one table has `label`.
pub open spec fn has_label(rows: Seq<TrialBalanceRow>, income: bool, label: Seq<char>) -> bool {
    exists|i: int| 0 <= i < rows.len() && in_table(rows[i], income) && #[trigger] row_label(rows[i]) == label
}

/// `out` lists the labels of one table in ascending order, each once, with
/// the sum of its rows, and leaves out no label.
pub open spec fn is_table_listing(out: Seq<(Seq<char>, int)>, rows: Seq<TrialBalanceRow>, income: bool) -> bool {
    &&& forall|i: int, j: int| 0 <= i < j < out.len() ==> lex_lt(out[i].0, out[j].0)
    &&& forall|i: int| 0 <= i < out.len() ==> has_label(rows, income, (#[trigger] out[i]).0) && out[i].1 == label_total(rows, income, out[i].0)
    &&& forall|label: Seq<char>| has_label(rows, income, label) ==> exists|i: int| 0 <= i < out.len() && (#[trigger] out[i]).0 == label
}

/// The statement label of a row.
fn label_of(r: &TrialBalanceRow) -> (l: Vec<char>)
    ensures
        l@ == row_label(*r),
{
    match r.closing_sru() {
        Some(code) => {
            let mut out = vec!['S', 'R', 'U', ' '];
            push_int(&mut out, code as i128);
            out
        },
        None => {
            let mut out = vec!['A', 'c', 'c', 'o', 'u', 'n', 't', ' '];
            push_int(&mut out, r.account as i128);
            out
        },
    }
}

proof fn lemma_label_total_bound(rows: Seq<TrialBalanceRow>, income: bool, label: Seq<char>)
    ensures
        -(rows.len() as int) * 0x8000_0000_0000_0000 <= label_total(rows, income, label) <= (rows.len() as int) * 0x8000_0000_0000_0000,
    decreases rows.len(),
{
    if rows.len() > 0 {
        lemma_label_total_bound(rows.drop_last(), income, label);
    }
}

/// The labels of one table's rows in ascending order, each with the sum of
/// its rows.
#[verifier::spinoff_prover]
#[verifier::rlimit(80)]
fn group_by_label(rows: &[TrialBalanceRow], income: bool) -> (r: Vec<(Vec<char>, i128)>)
    ensures
        is_table_listing(r@.map_values(|e: (Vec<char>, i128)| (e.0@, e.1 as int)), rows@, income),
{
    let mut out: Vec<(Vec<char>, i128)> = Vec::new();
    let mut i: usize = 0;
    while i < rows.len()
        invariant
            i <= rows.len(),
            is_table_listing(out@.map_values(|e: (Vec<char>, i128)| (e.0@, e.1 as int)), rows@.take(i as int), income),
        decreases rows.len() - i,
    {
        let ghost before = out@.map_values(|e: (Vec<char>, i128)| (e.0@, e.1 as int));
        let ghost prev = rows@.take(i as int);
        let ghost next = rows@.take(i + 1);
        assert(next.drop_last() =~= prev);
        assert(next.last() == rows@[i as int]);
        proof {
            lemma_label_total_bound(next, income, row_label(rows@[i as int]));
            assert forall|label: Seq<char>| has_label(prev, income, label) implies has_label(next, income, label) by {
                let k = choose|k: int| 0 <= k < prev.len() && in_table(prev[k], income) && #[trigger] row_label(prev[k]) == label;
                assert(next[k] == prev[k]);
            }
        }
        let row = &rows[i];
        if row.closing_minor != 0 && is_income_sru(row.closing_sru()) == income {
            let label = label_of(row);
            let ghost lv = label@;
            // the first listed label that does not sort before this one
            let mut p: usize = 0;
            while p < out.len() && lex_less(out[p].0.as_slice(), label.as_slice())
                invariant
                    p <= out.len(),
                    label@ == lv,
                    forall|k: int| 0 <= k < p ==> lex_lt(out@[k].0@, lv),
                decreases out.len() - p,
            {
                p += 1;
            }
            if p < out.len() && chars_eq(out[p].0.as_slice(), label.as_slice()) {
                let (l, amount) = out.remove(p);
                proof {
                    lemma_label_total_bound(prev, income, lv);
                }
                out.insert(p, (l, amount + row.closing_minor as i128));
                proof {
                    let after = out@.map_values(|e: (Vec<char>, i128)| (e.0@, e.1 as int));
                    assert(after =~= before.update(p as int, (lv, before[p as int].1 + row.closing_minor)));
                    assert forall|label2: Seq<char>| label2 != lv implies label_total(next, income, label2) == label_total(prev, income, label2) by {}
                    assert(label_total(next, income, lv) == label_total(prev, income, lv) + row.closing_minor);
                    assert forall|label2: Seq<char>| has_label(next, income, label2) implies exists|k: int| 0 <= k < after.len() && (#[trigger] after[k]).0 == label2 by {
                        if label2 != lv {
                            let k = choose|k: int| 0 <= k < next.len() && in_table(next[k], income) && #[trigger] row_label(next[k]) == label2;
                            assert(k != i);
                            assert(prev[k] == next[k]);
                            assert(has_label(prev, income, label2));
                            let j = choose|j: int| 0 <= j < before.len() && (#[trigger] before[j]).0 == label2;
                            assert(after[j].0 == label2);
                        } else {
                            assert(after[p as int].0 == lv);
                        }
                    }
                    assert(has_label(next, income, lv)) by {
                        assert(in_table(next[i as int], income) && row_label(next[i as int]) == lv);
                    }
                    assert forall|k: int| 0 <= k < after.len() implies has_label(next, income, (#[trigger] after[k]).0)
                        && after[k].1 == label_total(next, income, after[k].0) by {
                        if k != p {
                            assert(after[k] == before[k]);
                            assert(before[k].0 != lv) by {
                                lemma_lex_order(before[k].0, before[p as int].0);
                            }
                        }
                    }
                }
            } else {
                proof {
                    lemma_label_total_bound(prev, income, lv);
                    assert(label_total(prev, income, lv) == 0) by {
                        if has_label(prev, income, lv) {
                            let j = choose|j: int| 0 <= j < before.len() && (#[trigger] before[j]).0 == lv;
                            if j < p {
                                lemma_lex_order(before[j].0, lv);
                            } else if j > p {
                                lemma_lex_order(before[p as int].0, lv);
                                lemma_lex_trans(lv, before[p as int].0, before[j].0);
                                lemma_lex_order(lv, lv);
                            }
                        }
                        lemma_no_label_zero(prev, income, lv);
                    }
                }
                out.insert(p, (label, row.closing_minor as i128));
                proof {
                    let after = out@.map_values(|e: (Vec<char>, i128)| (e.0@, e.1 as int));
                    assert(after =~= before.insert(p as int, (lv, row.closing_minor as int)));
                    assert(label_total(next, income, lv) == row.closing_minor);
                    assert forall|label2: Seq<char>| label2 != lv implies label_total(next, income, label2) == label_total(prev, income, label2) by {}
                    assert(has_label(next, income, lv)) by {
                        assert(in_table(next[i as int], income) && row_label(next[i as int]) == lv);
                    }
                    assert forall|a: int, b: int| 0 <= a < b < after.len() implies lex_lt(after[a].0, after[b].0) by {
                        if b == p {
                            assert(after[a] == before[a]);
                        } else if a == p {
                            assert(after[b] == before[b - 1]);
                            if b - 1 > p {
                                lemma_lex_order(before[p as int].0, lv);
                                lemma_lex_trans(lv, before[p as int].0, before[b - 1].0);
                            } else {
                                lemma_lex_order(before[p as int].0, lv);
                            }
                        } else if a < p && b > p {
                            assert(after[a] == before[a]);
                            assert(after[b] == before[b - 1]);
                        } else if a > p {
                            assert(after[a] == before[a - 1]);
                            assert(after[b] == before[b - 1]);
                        } else {
                            assert(after[a] == before[a]);
                            assert(after[b] == before[b]);
                        }
                    }
                    assert forall|k: int| 0 <= k < after.len() implies has_label(next, income, (#[trigger] after[k]).0)
                        && after[k].1 == label_total(next, income, after[k].0) by {
                        if k < p {
                            assert(after[k] == before[k]);
                            lemma_lex_order(before[k].0, lv);
                        } else if k > p {
                            assert(after[k] == before[k - 1]);
                            lemma_lex_order(before[p as int].0, lv);
                            if k - 1 > p {
                                lemma_lex_trans(lv, before[p as int].0, before[k - 1].0);
                                lemma_lex_order(lv, before[k - 1].0);
                            } else {
                                lemma_lex_order(lv, before[k - 1].0);
                            }
                        }
                    }
                    assert forall|label2: Seq<char>| has_label(next, income, label2) implies exists|k: int| 0 <= k < after.len() && (#[trigger] after[k]).0 == label2 by {
                        if label2 != lv {
                            let k = choose|k: int| 0 <= k < next.len() && in_table(next[k], income) && #[trigger] row_label(next[k]) == label2;
                            assert(k != i);
                            assert(prev[k] == next[k]);
                            assert(has_label(prev, income, label2));
                            let j = choose|j: int| 0 <= j < before.len() && (#[trigger] before[j]).0 == label2;
                            if j < p {
                                assert(after[j].0 == label2);
                            } else {
                                assert(after[j + 1].0 == label2);
                            }
                        } else {
                            assert(after[p as int].0 == lv);
                        }
                    }
                }
            }
        } else {
            proof {
                assert forall|label2: Seq<char>| true implies label_total(next, income, label2) == label_total(prev, income, label2) by {}
                assert forall|label2: Seq<char>| has_label(next, income, label2) implies has_label(prev, income, label2) by {
                    let k = choose|k: int| 0 <= k < next.len() && in_table(next[k], income) && #[trigger] row_label(next[k]) == label2;
                    assert(k != i);
                    assert(prev[k] == next[k]);
                }
            }
        }
        i += 1;
    }
    assert(rows@.take(rows.len() as int) =~= rows@);
    out
}

proof fn lemma_no_label_zero(rows: Seq<TrialBalanceRow>, income: bool, label: Seq<char>)
    requires
        !has_label(rows, income, label),
    ensures
        label_total(rows, income, label) == 0,
    decreases rows.len(),
{
    if rows.len() > 0 {
        let t = rows.drop_last();
        assert(!has_label(t, income, label)) by {
            if has_label(t, income, label) {
                let k = choose|k: int| 0 <= k < t.len() && in_table(t[k], income) && #[trigger] row_label(t[k]) == label;
                assert(rows[k] == t[k]);
            }
        }
        lemma_no_label_zero(t, income, label);
        if in_table(rows.last(), income) && row_label(rows.last()) == label {
            assert(row_label(rows[rows.len() - 1]) == label);
        }
    }
}

/// Whether every label of one table sums to an exact minor-unit amount.
pub open spec fn table_fits(rows: Seq<TrialBalanceRow>, income: bool) -> bool {
    forall|label: Seq<char>| has_label(rows, income, label) ==> i64::MIN <= #[trigger] label_total(rows, income, label) <= i64::MAX
}

/// Group the rows of one table by label: the income statement holds the rows
/// with income SRU codes, the balance sheet the others, rows without a
/// closing balance left out. Labels come in ascending order, each once, with
/// the exact sum of its rows.
pub fn table_from_rows(title: &str, rows: &[TrialBalanceRow], income: bool) -> (r: Result<StatementTable, CloseError>)
    ensures
        table_fits(rows@, income) ==> (r matches Ok(t) && t.title@ == title@ && is_table_listing(
            t.rows@.map_values(|row: StatementRow| (row.label@, row.amount_minor as int)),
            rows@,
            income,
        )),
        !table_fits(rows@, income) ==> r == Err::<StatementTable, CloseError>(CloseError::ArithmeticOverflow("statement row")),
{
    let grouped = group_by_label(rows, income);
    let ghost g = grouped@.map_values(|e: (Vec<char>, i128)| (e.0@, e.1 as int));
    let mut out: Vec<StatementRow> = Vec::new();
    let mut i: usize = 0;
    while i < grouped.len()
        invariant
            i <= grouped.len(),
            g == grouped@.map_values(|e: (Vec<char>, i128)| (e.0@, e.1 as int)),
            is_table_listing(g, rows@, income),
            out@.map_values(|row: StatementRow| (row.label@, row.amount_minor as int)) == g.take(i as int),
        decreases grouped.len() - i,
    {
        let amount = grouped[i].1;
        assert(g[i as int].1 == amount);
        if amount < i64::MIN as i128 || amount > i64::MAX as i128 {
            assert(has_label(rows@, income, g[i as int].0));
            return Err(CloseError::ArithmeticOverflow("statement row"));
        }
        let ghost before = out@.map_values(|row: StatementRow| (row.label@, row.amount_minor as int));
        let label = string_from_chars(grouped[i].0.as_slice());
        assert(label@ == g[i as int].0);
        let row = StatementRow { label, amount_minor: amount as i64 };
        assert((row.label@, row.amount_minor as int) == g[i as int]);
        out.push(row);
        assert(out@.map_values(|row: StatementRow| (row.label@, row.amount_minor as int)) =~= before.push(g[i as int]));
        assert(g.take(i + 1) =~= g.take(i as int).push(g[i as int]));
        i += 1;
    }
    assert(g.take(grouped.len() as int) =~= g);
    proof {
        assert forall|label: Seq<char>| has_label(rows@, income, label) implies i64::MIN <= #[trigger] label_total(rows@, income, label) <= i64::MAX by {
            let k = choose|k: int| 0 <= k < g.len() && (#[trigger] g[k]).0 == label;
            assert(out@[k].amount_minor as int == g[k].1);
        }
    }
    Ok(StatementTable { title: title.to_owned(), rows: out })
}

/// The income statement and balance sheet of a year whose vouchers balance,
/// from its trial balance: the closing balances must net to zero.
pub fn statements_from_trial_balance(year: i32, trial_balance: Vec<TrialBalanceRow>) -> (r: Result<FinancialStatements, CloseError>)
    ensures
        !(i64::MIN <= closing_total(trial_balance@) <= i64::MAX) ==> r == Err::<FinancialStatements, CloseError>(
            CloseError::ArithmeticOverflow("trial-balance total"),
        ),
        i64::MIN <= closing_total(trial_balance@) <= i64::MAX && closing_total(trial_balance@) != 0 ==> r
            == Err::<FinancialStatements, CloseError>(CloseError::UnbalancedTrialBalance { minor_sum: closing_total(trial_balance@) as i64 }),
        closing_total(trial_balance@) == 0 && !table_fits(trial_balance@, true) ==> r == Err::<FinancialStatements, CloseError>(
            CloseError::ArithmeticOverflow("statement row"),
        ),
        closing_total(trial_balance@) == 0 && table_fits(trial_balance@, true) && !table_fits(trial_balance@, false) ==> r
            == Err::<FinancialStatements, CloseError>(CloseError::ArithmeticOverflow("statement row")),
        closing_total(trial_balance@) == 0 && table_fits(trial_balance@, true) && table_fits(trial_balance@, false) ==> (r matches Ok(s) && {
            &&& s.year == year
            &&& s.trial_balance == trial_balance
            &&& is_table_listing(
                s.income_statement.rows@.map_values(|row: StatementRow| (row.label@, row.amount_minor as int)),
                trial_balance@,
                true,
            )
            &&& is_table_listing(
                s.balance_sheet.rows@.map_values(|row: StatementRow| (row.label@, row.amount_minor as int)),
                trial_balance@,
                false,
            )
            &&& s.notes@.len() == 1
        }),
{
    let total = closing_sum(trial_balance.as_slice(), "trial-balance total")?;
    if total != 0 {
        return Err(CloseError::UnbalancedTrialBalance { minor_sum: total });
    }
    let income_statement = table_from_rows("Income statement", trial_balance.as_slice(), true)?;
    let balance_sheet = table_from_rows("Balance sheet", trial_balance.as_slice(), false)?;
    let note = StatementNote {
        id: "basis".to_owned(),
        text: "Amounts are signed exact minor units from the ledger year.".to_owned(),
    };
    Ok(FinancialStatements { year, trial_balance, income_statement, balance_sheet, notes: vec![note] })
}

/// Refuse a year with a voucher that breaks double entry: the first listed
/// violation is reported.
pub fn ensure_no_violations(violations: &[VoucherBalanceViolation]) -> (r: Result<(), CloseError>)
    ensures
        violations@.len() == 0 ==> r == Ok::<(), CloseError>(()),
        violations@.len() > 0 ==> r == Err::<(), CloseError>(CloseError::UnbalancedVoucher {
            voucher: violations@[0].voucher_id,
            posting_count: violations@[0].posting_count,
            minor_sum: violations@[0].minor_sum,
        }),
{
    if violations.len() > 0 {
        let v = &violations[0];
        return Err(CloseError::UnbalancedVoucher { voucher: v.voucher_id, posting_count: v.posting_count, minor_sum: v.minor_sum });
    }
    Ok(())
}

// ---------------------------------------------------------------------------
// SRU comparison

/// The amount a year's balances hold for SRU code `code`: the last row with
/// that code, else zero.
pub open spec fn sru_amount(rows: Seq<BalanceRow>, code: i32) -> i64
    decreases rows.len(),
{
    if rows.len() == 0 {
        0
    } else if rows.last().key == (BalanceKey::Sru { code }) {
        rows.last().amount.0
    } else {
        sru_amount(rows.drop_last(), code)
    }
}

/// Whether some year's balances hold SRU code `code`.
pub open spec fn has_sru(by_year: Seq<(i32, Vec<BalanceRow>)>, code: i32) -> bool {
    exists|y: int, k: int| 0 <= y < by_year.len() && 0 <= k < by_year[y].1@.len() && #[trigger] by_year[y].1@[k].key == (BalanceKey::Sru { code })
}

/// Whether `row` compares SRU code `code` across the years of `by_year`.
pub open spec fn is_comparison_row(row: SruComparativeRow, by_year: Seq<(i32, Vec<BalanceRow>)>) -> bool {
    &&& row.years@.len() == by_year.len()
    &&& forall|y: int| 0 <= y < by_year.len() ==> (#[trigger] row.years@[y]).year == by_year[y].0
        && row.years@[y].amount_minor == sru_amount(by_year[y].1@, row.sru)
}

/// The amount of SRU code `code` in one year's balances.
fn sru_amount_in(rows: &[BalanceRow], code: i32) -> (r: i64)
    ensures
        r == sru_amount(rows@, code),
{
    let mut i: usize = rows.len();
    assert(rows@.take(rows.len() as int) =~= rows@);
    while i > 0
        invariant
            i <= rows.len(),
            sru_amount(rows@, code) == sru_amount(rows@.take(i as int), code),
        decreases i,
    {
        assert(rows@.take(i as int).drop_last() =~= rows@.take(i - 1));
        match rows[i - 1].key {
            BalanceKey::Sru { code: c } => {
                if c == code {
                    return rows[i - 1].amount.0;
                }
            },
            _ => {},
        }
        i -= 1;
    }
    assert(rows@.take(0) =~= Seq::<BalanceRow>::empty());
    0
}

/// The smallest SRU code above `bound` that some year's balances hold.
fn next_sru_above(by_year: &[(i32, Vec<BalanceRow>)], bound: Option<i32>) -> (r: Option<i32>)
    ensures
        match r {
            Some(m) => has_sru(by_year@, m) && crate::close::above_code(bound, m) && forall|c: i32| has_sru(by_year@, c) && above_code(bound, c) ==> m <= c,
            None => forall|c: i32| has_sru(by_year@, c) ==> !above_code(bound, c),
        },
{
    let mut best: Option<i32> = None;
    let mut y: usize = 0;
    while y < by_year.len()
        invariant
            y <= by_year.len(),
            match best {
                Some(m) => has_sru(by_year@, m) && above_code(bound, m) && forall|yy: int, k: int| 0 <= yy < y && 0 <= k < by_year@[yy].1@.len()
                    && (#[trigger] by_year@[yy].1@[k].key) is Sru && above_code(bound, by_year@[yy].1@[k].key->code) ==> m <= by_year@[yy].1@[k].key->code,
                None => forall|yy: int, k: int| 0 <= yy < y && 0 <= k < by_year@[yy].1@.len() && (#[trigger] by_year@[yy].1@[k].key) is Sru
                    ==> !above_code(bound, by_year@[yy].1@[k].key->code),
            },
        decreases by_year.len() - y,
    {
        let rows = &by_year[y].1;
        let mut k: usize = 0;
        while k < rows.len()
            invariant
                y < by_year.len(),
                *rows == by_year@[y as int].1,
                k <= rows.len(),
                match best {
                    Some(m) => has_sru(by_year@, m) && above_code(bound, m) && (forall|yy: int, kk: int| 0 <= yy < y && 0 <= kk < by_year@[yy].1@.len()
                        && (#[trigger] by_year@[yy].1@[kk].key) is Sru && above_code(bound, by_year@[yy].1@[kk].key->code) ==> m <= by_year@[yy].1@[kk].key->code)
                        && (forall|kk: int| 0 <= kk < k && (#[trigger] rows@[kk].key) is Sru && above_code(bound, rows@[kk].key->code) ==> m <= rows@[kk].key->code),
                    None => (forall|yy: int, kk: int| 0 <= yy < y && 0 <= kk < by_year@[yy].1@.len() && (#[trigger] by_year@[yy].1@[kk].key) is Sru
                        ==> !above_code(bound, by_year@[yy].1@[kk].key->code))
                        && (forall|kk: int| 0 <= kk < k && (#[trigger] rows@[kk].key) is Sru ==> !above_code(bound, rows@[kk].key->code)),
                },
            decreases rows.len() - k,
        {
            match rows[k].key {
                BalanceKey::Sru { code } => {
                    let is_above = match bound {
                        Some(b) => b < code,
                        None => true,
                    };
                    if is_above {
                        assert(by_year@[y as int].1@[k as int].key == (BalanceKey::Sru { code }));
                        match best {
                            Some(m) => {
                                if code < m {
                                    best = Some(code);
                                }
                            },
                            None => {
                                best = Some(code);
                            },
                        }
                    }
                },
                _ => {},
            }
            k += 1;
        }
        y += 1;
    }
    proof {
        assert forall|c: i32| has_sru(by_year@, c) && above_code(bound, c) implies best is Some && best->Some_0 <= c by {
            let (yy, kk) = choose|yy: int, kk: int| 0 <= yy < by_year@.len() && 0 <= kk < by_year@[yy].1@.len() && #[trigger] by_year@[yy].1@[kk].key == (BalanceKey::Sru { code: c });
            assert(by_year@[yy].1@[kk].key is Sru);
        }
    }
    best
}

/// Whether `code` lies above `bound` (every code lies above `None`).
pub open spec fn above_code(bound: Option<i32>, code: i32) -> bool {
    match bound {
        Some(b) => b < code,
        None => true,
    }
}

/// Compare balances across years by SRU code: one row per code that some
/// year reports, in ascending code order, with each year's amount (zero
/// where that year does not report the code), years in the given order.
pub fn sru_comparison(by_year: &[(i32, Vec<BalanceRow>)]) -> (r: Vec<SruComparativeRow>)
    ensures
        forall|i: int, j: int| 0 <= i < j < r@.len() ==> r@[i].sru < r@[j].sru,
        forall|i: int| 0 <= i < r@.len() ==> has_sru(by_year@, (#[trigger] r@[i]).sru) && is_comparison_row(r@[i], by_year@),
        forall|c: i32| has_sru(by_year@, c) ==> exists|i: int| 0 <= i < r@.len() && (#[trigger] r@[i]).sru == c,
{
    let mut out: Vec<SruComparativeRow> = Vec::new();
    let mut last: Option<i32> = None;
    loop
        invariant
            forall|i: int| 0 <= i < out@.len() ==> !above_code(last, (#[trigger] out@[i]).sru),
            forall|i: int, j: int| 0 <= i < j < out@.len() ==> out@[i].sru < out@[j].sru,
            forall|i: int| 0 <= i < out@.len() ==> has_sru(by_year@, (#[trigger] out@[i]).sru) && is_comparison_row(out@[i], by_year@),
            forall|c: i32| has_sru(by_year@, c) && !above_code(last, c) ==> exists|i: int| 0 <= i < out@.len() && (#[trigger] out@[i]).sru == c,
            last matches Some(l) ==> out@.len() > 0 && out@[out@.len() - 1].sru == l,
            last is None ==> out@.len() == 0,
        decreases (if last is Some { 0x8000_0000 - (last->Some_0 as int) } else { 0x1_0000_0001 }),
    {
        let code = match next_sru_above(by_year, last) {
            Some(c) => c,
            None => {
                proof {
                    assert forall|c: i32| has_sru(by_year@, c) implies exists|i: int| 0 <= i < out@.len() && (#[trigger] out@[i]).sru == c by {
                        assert(!above_code(last, c));
                    }
                }
                return out;
            },
        };
        let mut years: Vec<SruYearAmount> = Vec::new();
        let mut y: usize = 0;
        while y < by_year.len()
            invariant
                y <= by_year.len(),
                years@.len() == y,
                forall|yy: int| 0 <= yy < y ==> (#[trigger] years@[yy]).year == by_year@[yy].0 && years@[yy].amount_minor
                    == sru_amount(by_year@[yy].1@, code),
            decreases by_year.len() - y,
        {
            let amount = sru_amount_in(by_year[y].1.as_slice(), code);
            years.push(SruYearAmount { year: by_year[y].0, amount_minor: amount });
            y += 1;
        }
        let ghost before = out@;
        out.push(SruComparativeRow { sru: code, years });
        proof {
            assert forall|c: i32| has_sru(by_year@, c) && !above_code(Some(code), c) implies exists|i: int| 0 <= i < out@.len() && (#[trigger] out@[i]).sru == c by {
                if above_code(last, c) {
                    assert(c == code);
                    assert(out@[out@.len() - 1].sru == c);
                } else {
                    let i = choose|i: int| 0 <= i < before.len() && (#[trigger] before[i]).sru == c;
                    assert(out@[i] == before[i]);
                }
            }
        }
        last = Some(code);
    }
}

// ---------------------------------------------------------------------------
// Close journal

/// One close/reopen journal entry.
#[derive(Clone, Debug, PartialEq, Eq)]
pub struct CloseJournalEntry {
    /// State after the journaled action.
    pub state: ClosingState,
    /// Operator-facing reason.
    pub reason: String,
}

/// A line without the carriage return of a `\r\n` ending.
pub open spec fn strip_cr(line: Seq<char>) -> Seq<char> {
    if line.len() > 0 && line.last() == '\r' { line.drop_last() } else { line }
}

/// The lines of `s`, as `str::lines` yields them: split at `\n`, a `\r`
/// before it dropped, no empty line after a final newline.
pub open spec fn lines_of(s: Seq<char>) -> Seq<Seq<char>>
    decreases s.len(),
{
    if s.len() == 0 {
        Seq::empty()
    } else if !has_char(s, '\n') {
        seq![s]
    } else {
        let k = first_index(s, '\n');
        proof {
            lemma_first_index(s, '\n');
        }
        seq![strip_cr(s.take(k))] + lines_of(s.skip(k + 1))
    }
}

/// The message for a journal line without a tab.
pub open spec fn missing_separator_message() -> Seq<char> {
    seq![
        'c', 'l', 'o', 's', 'e', ' ', 'j', 'o', 'u', 'r', 'n', 'a', 'l', ' ', 'e', 'n', 't', 'r', 'y',
        ' ', 'm', 'i', 's', 's', 'i', 'n', 'g', ' ', 's', 'e', 'p', 'a', 'r', 'a', 't', 'o', 'r',
    ]
}

/// The entry one journal line states: the state before the first tab and
/// the reason after it, or the message of what is wrong.
pub open spec fn journal_entry_of(line: Seq<char>) -> Result<(ClosingState, Seq<char>), Seq<char>> {
    if !has_char(line, '\t') {
        Err(missing_separator_message())
    } else {
        let k = first_index(line, '\t');
        match state_of_text(line.take(k)) {
            None => Err(unknown_state_message(line.take(k))),
            Some(s) => Ok((s, line.skip(k + 1))),
        }
    }
}

/// The entries of journal lines in order, blank lines skipped, or the
/// message of the first bad line.
pub open spec fn journal_entries(lines: Seq<Seq<char>>) -> Result<Seq<(ClosingState, Seq<char>)>, Seq<char>>
    decreases lines.len(),
{
    if lines.len() == 0 {
        Ok(Seq::empty())
    } else {
        match journal_entries(lines.drop_last()) {
            Err(m) => Err(m),
            Ok(done) => if trim(lines.last()).len() == 0 {
                Ok(done)
            } else {
                match journal_entry_of(lines.last()) {
                    Err(m) => Err(m),
                    Ok(e) => Ok(done.push(e)),
                }
            },
        }
    }
}

/// What a journal entry states.
pub open spec fn entry_view(e: CloseJournalEntry) -> (ClosingState, Seq<char>) {
    (e.state, e.reason@)
}

/// The position of the first `c` in `s[from..to]`, or `to`.
fn find_char(s: &[char], from: usize, to: usize, c: char) -> (r: usize)
    requires
        from <= to <= s.len(),
    ensures
        from <= r <= to,
        forall|k: int| from <= k < r ==> s@[k] != c,
        r < to ==> s@[r as int] == c,
{
    let mut i = from;
    while i < to && s[i] != c
        invariant
            from <= i <= to <= s.len(),
            forall|k: int| from <= k < i ==> s@[k] != c,
        decreases to - i,
    {
        i += 1;
    }
    i
}

proof fn lemma_first_index_at(s: Seq<char>, c: char, k: int)
    requires
        0 <= k < s.len(),
        s[k] == c,
        forall|j: int| 0 <= j < k ==> s[j] != c,
    ensures
        has_char(s, c),
        first_index(s, c) == k,
    decreases k,
{
    if k > 0 {
        lemma_first_index_at(s.skip(1), c, k - 1);
    }
}

proof fn lemma_no_char(s: Seq<char>, c: char)
    requires
        forall|j: int| 0 <= j < s.len() ==> s[j] != c,
    ensures
        !has_char(s, c),
{
}

/// The entry of one non-blank journal line `s[from..to]`.
fn parse_journal_line(s: &[char], from: usize, to: usize) -> (r: Result<CloseJournalEntry, CloseError>)
    requires
        from <= to <= s.len(),
    ensures
        match journal_entry_of(s@.subrange(from as int, to as int)) {
            Ok(e) => r matches Ok(x) && entry_view(x) == e,
            Err(m) => r matches Err(CloseError::InvalidState(x)) && x@ == m,
        },
{
    let ghost line = s@.subrange(from as int, to as int);
    let tab = find_char(s, from, to, '\t');
    if tab == to {
        proof {
            assert forall|j: int| 0 <= j < line.len() implies line[j] != '\t' by {
                assert(line[j] == s@[from + j]);
            }
            lemma_no_char(line, '\t');
        }
        let m = vec![
            'c', 'l', 'o', 's', 'e', ' ', 'j', 'o', 'u', 'r', 'n', 'a', 'l', ' ', 'e', 'n', 't', 'r', 'y',
            ' ', 'm', 'i', 's', 's', 'i', 'n', 'g', ' ', 's', 'e', 'p', 'a', 'r', 'a', 't', 'o', 'r',
        ];
        assert(m@ =~= missing_separator_message());
        return Err(CloseError::InvalidState(string_from_chars(m.as_slice())));
    }
    proof {
        assert forall|j: int| 0 <= j < tab - from implies line[j] != '\t' by {
            assert(line[j] == s@[from + j]);
        }
        lemma_first_index_at(line, '\t', tab - from);
        assert(line.take(tab - from) =~= s@.subrange(from as int, tab as int));
        assert(line.skip(tab - from + 1) =~= s@.subrange(tab + 1, to as int));
    }
    let state_text = string_from_chars(crate::model::slice_of(s, from, tab).as_slice());
    let state = ClosingState::parse(state_text.as_str())?;
    let reason = string_from_chars(crate::model::slice_of(s, tab + 1, to).as_slice());
    Ok(CloseJournalEntry { state, reason })
}

proof fn lemma_journal_prefix_err(lines: Seq<Seq<char>>, k: int, n: int)
    requires
        0 <= k <= n <= lines.len(),
        journal_entries(lines.take(k)) is Err,
    ensures
        journal_entries(lines.take(n)) == journal_entries(lines.take(k)),
    decreases n - k,
{
    if n > k {
        lemma_journal_prefix_err(lines, k, n - 1);
        assert(lines.take(n).drop_last() =~= lines.take(n - 1));
    }
}

/// Parse the close/reopen journal kept in year-file metadata: one
/// `state<TAB>reason` entry per line, blank lines skipped.
#[verifier::spinoff_prover]
#[verifier::rlimit(80)]
pub fn parse_journal(value: &str) -> (r: Result<Vec<CloseJournalEntry>, CloseError>)
    ensures
        match journal_entries(lines_of(value@)) {
            Ok(es) => r matches Ok(v) && v@.map_values(|e: CloseJournalEntry| entry_view(e)) == es,
            Err(m) => r matches Err(CloseError::InvalidState(x)) && x@ == m,
        },
{
    let s = chars_of(value);
    let ghost sv = s@;
    let ghost all = lines_of(sv);
    let mut out: Vec<CloseJournalEntry> = Vec::new();
    let mut p: usize = 0;
    let ghost mut done: Seq<Seq<char>> = Seq::empty();
    assert(sv.skip(0) =~= sv);
    assert(out@.map_values(|e: CloseJournalEntry| entry_view(e)) =~= Seq::empty());
    while p < s.len()
        invariant
            p <= s.len(),
            sv == s@,
            sv == value@,
            all == lines_of(sv),
            all == done + lines_of(sv.skip(p as int)),
            journal_entries(done) == Ok::<Seq<(ClosingState, Seq<char>)>, Seq<char>>(out@.map_values(|e: CloseJournalEntry| entry_view(e))),
        decreases s.len() - p,
    {
        let q = find_char(s.as_slice(), p, s.len(), '\n');
        let ghost rest = sv.skip(p as int);
        let mut end = q;
        if q < s.len() && q > p && s[q - 1] == '\r' {
            end = q - 1;
        }
        let ghost line = sv.subrange(p as int, end as int);
        proof {
            if q < s.len() {
                assert forall|j: int| 0 <= j < q - p implies rest[j] != '\n' by {
                    assert(rest[j] == sv[p + j]);
                }
                assert(rest[q - p] == '\n');
                lemma_first_index_at(rest, '\n', q - p);
                assert(rest.take(q - p) =~= sv.subrange(p as int, q as int));
                assert(rest.skip(q - p + 1) =~= sv.skip(q + 1));
                if q > p && sv[q - 1] == '\r' {
                    assert(strip_cr(rest.take(q - p)) =~= line);
                } else {
                    assert(strip_cr(rest.take(q - p)) =~= line);
                }
                assert(lines_of(rest) == seq![line] + lines_of(sv.skip(q + 1)));
            } else {
                assert forall|j: int| 0 <= j < rest.len() implies rest[j] != '\n' by {
                    assert(rest[j] == sv[p + j]);
                }
                lemma_no_char(rest, '\n');
                assert(rest =~= line);
                assert(lines_of(rest) == seq![line]);
                assert(sv.skip(s.len() as int).len() == 0);
                assert(lines_of(sv.skip(s.len() as int)) =~= Seq::<Seq<char>>::empty());
            }
        }
        let ghost next_done = done.push(line);
        assert(next_done.drop_last() =~= done);
        let (a, b) = trimmed_range(s.as_slice(), p, end);
        if a < b {
            match parse_journal_line(s.as_slice(), p, end) {
                Ok(entry) => {
                    let ghost before = out@.map_values(|e: CloseJournalEntry| entry_view(e));
                    out.push(entry);
                    assert(out@.map_values(|e: CloseJournalEntry| entry_view(e)) =~= before.push(entry_view(entry)));
                },
                Err(e) => {
                    assert(trim(line).len() > 0);
                    assert(journal_entry_of(line) is Err);
                    let ghost m = journal_entry_of(line)->Err_0;
                    assert(journal_entries(next_done) == Err::<Seq<(ClosingState, Seq<char>)>, Seq<char>>(m));
                    proof {
                        let ls = next_done + lines_of(if q < s.len() { sv.skip(q + 1) } else { sv.skip(s.len() as int) });
                        assert(all =~= ls);
                        assert(ls.take(next_done.len() as int) =~= next_done);
                        lemma_journal_prefix_err(ls, next_done.len() as int, ls.len() as int);
                        assert(ls.take(ls.len() as int) =~= ls);
                        assert(journal_entries(all) == Err::<Seq<(ClosingState, Seq<char>)>, Seq<char>>(m));
                    }
                    assert(e matches CloseError::InvalidState(x) && x@ == m);
                    assert(all == lines_of(value@));
                    return Err(e);
                },
            }
        }
        proof {
            done = next_done;
        }
        if q == s.len() {
            p = s.len();
        } else {
            p = q + 1;
        }
        assert(all =~= done + lines_of(sv.skip(p as int)));
    }
    assert(sv.skip(s.len() as int).len() == 0);
    assert(all =~= done);
    Ok(out)
}

/// A journal reason on one line: newlines and tabs become spaces.
pub open spec fn one_line(r: Seq<char>) -> Seq<char> {
    r.map_values(|c: char| if c == '\n' || c == '\t' { ' ' } else { c })
}

/// The journal after one more entry: a newline first unless the journal is
/// empty or already ends with one, then `state<TAB>reason`.
pub open spec fn journal_after(journal: Seq<char>, state: ClosingState, reason: Seq<char>) -> Seq<char> {
    let base = if journal.len() > 0 && journal.last() != '\n' { journal.push('\n') } else { journal };
    base + state_text(state) + seq!['\t'] + one_line(reason)
}

/// Append one entry to the close journal text.
pub fn append_journal_entry(journal: &str, state: ClosingState, reason: &str) -> (r: String)
    ensures
        r@ == journal_after(journal@, state, reason@),
{
    let mut out = chars_of(journal);
    if out.len() > 0 && out[out.len() - 1] != '\n' {
        out.push('\n');
    }
    let st = chars_of(state.as_str());
    crate::text::push_chars(&mut out, &st);
    out.push('\t');
    let rs = chars_of(reason);
    let ghost base = out@;
    let mut i: usize = 0;
    while i < rs.len()
        invariant
            i <= rs.len(),
            out@ == base + one_line(rs@.take(i as int)),
        decreases rs.len() - i,
    {
        let c = rs[i];
        if c == '\n' || c == '\t' {
            out.push(' ');
        } else {
            out.push(c);
        }
        assert(one_line(rs@.take(i + 1)) =~= one_line(rs@.take(i as int)).push(if c == '\n' || c == '\t' { ' ' } else { c }));
        i += 1;
    }
    assert(rs@.take(rs.len() as int) =~= rs@);
    assert(out@ =~= journal_after(journal@, state, reason@));
    string_from_chars(out.as_slice())
}

proof fn lemma_lines_append(x: Seq<char>, l: Seq<char>)
    requires
        x.len() == 0 || x.last() == '\n',
        !has_char(l, '\n'),
        l.len() > 0,
    ensures
        lines_of(x + l) == lines_of(x).push(l),
    decreases x.len(),
{
    if x.len() == 0 {
        assert(x + l =~= l);
        assert(lines_of(x) =~= Seq::<Seq<char>>::empty());
        assert(lines_of(l) =~= seq![l]);
    } else {
        assert(x[x.len() - 1] == '\n');
        assert(has_char(x, '\n'));
        lemma_first_index(x, '\n');
        let k = first_index(x, '\n');
        let xl = x + l;
        assert(xl[k] == '\n');
        assert forall|j: int| 0 <= j < k implies xl[j] != '\n' by {
            assert(xl[j] == x[j]);
        }
        lemma_first_index_at(xl, '\n', k);
        assert(xl.take(k) =~= x.take(k));
        let rest = x.skip(k + 1);
        assert(xl.skip(k + 1) =~= rest + l);
        if rest.len() > 0 {
            assert(rest.last() == x.last());
        }
        lemma_lines_append(rest, l);
        assert(lines_of(xl) =~= seq![strip_cr(x.take(k))] + lines_of(rest + l));
        assert(lines_of(x) =~= seq![strip_cr(x.take(k))] + lines_of(rest));
        assert(lines_of(xl) =~= lines_of(x).push(l));
    }
}

proof fn lemma_lines_newline(j: Seq<char>)
    requires
        j.len() > 0,
        j.last() != '\n',
        j.last() != '\r',
    ensures
        lines_of(j.push('\n')) == lines_of(j),
    decreases j.len(),
{
    let jn = j.push('\n');
    if !has_char(j, '\n') {
        assert forall|i: int| 0 <= i < j.len() implies jn[i] != '\n' by {
            assert(jn[i] == j[i]);
            if j[i] == '\n' {
                assert(has_char(j, '\n'));
            }
        }
        lemma_first_index_at(jn, '\n', j.len() as int);
        assert(jn.take(j.len() as int) =~= j);
        assert(jn.skip(j.len() as int + 1).len() == 0);
        assert(lines_of(jn.skip(j.len() as int + 1)) =~= Seq::<Seq<char>>::empty());
        assert(lines_of(jn) =~= seq![strip_cr(j)]);
    } else {
        lemma_first_index(j, '\n');
        let k = first_index(j, '\n');
        assert(jn[k] == '\n');
        assert forall|i: int| 0 <= i < k implies jn[i] != '\n' by {
            assert(jn[i] == j[i]);
        }
        lemma_first_index_at(jn, '\n', k);
        assert(jn.take(k) =~= j.take(k));
        let rest = j.skip(k + 1);
        assert(rest.len() > 0) by {
            if rest.len() == 0 {
                assert(k == j.len() - 1);
            }
        }
        assert(rest.last() == j.last());
        assert(jn.skip(k + 1) =~= rest.push('\n'));
        lemma_lines_newline(rest);
    }
}

proof fn lemma_state_line(state: ClosingState, reason: Seq<char>)
    ensures
        ({
            let l = state_text(state) + seq!['\t'] + one_line(reason);
            &&& !has_char(l, '\n')
            &&& l.len() > 0
            &&& trim(l).len() > 0
            &&& journal_entry_of(l) == Ok::<(ClosingState, Seq<char>), Seq<char>>((state, one_line(reason)))
        }),
{
    let l = state_text(state) + seq!['\t'] + one_line(reason);
    let n = state_text(state).len() as int;
    assert forall|i: int| 0 <= i < l.len() implies l[i] != '\n' by {
        if i >= n + 1 {
            assert(l[i] == one_line(reason)[i - n - 1]);
        }
    }
    assert(l[n] == '\t');
    assert forall|i: int| 0 <= i < n implies l[i] != '\t' by {}
    lemma_first_index_at(l, '\t', n);
    assert(l.take(n) =~= state_text(state));
    assert(l.skip(n + 1) =~= one_line(reason));
    lemma_state_text_round_trip(state);
    assert(!is_space(l[0]));
    lemma_trim_keeps_first(l);
}

proof fn lemma_trim_keeps_first(s: Seq<char>)
    requires
        s.len() > 0,
        !is_space(s[0]),
    ensures
        trim(s).len() > 0,
{
    assert(crate::text::trim_start(s) == s);
    lemma_trim_end_keeps_first(s);
}

proof fn lemma_trim_end_keeps_first(s: Seq<char>)
    requires
        s.len() > 0,
        !is_space(s[0]),
    ensures
        crate::text::trim_end(s).len() > 0,
    decreases s.len(),
{
    if s.len() > 1 && is_space(s.last()) {
        assert(s.drop_last()[0] == s[0]);
        lemma_trim_end_keeps_first(s.drop_last());
    }
}

/// `reopen reason must not be empty`
pub open spec fn empty_reason_message() -> Seq<char> {
    seq![
        'r', 'e', 'o', 'p', 'e', 'n', ' ', 'r', 'e', 'a', 's', 'o', 'n', ' ', 'm', 'u', 's', 't', ' ',
        'n', 'o', 't', ' ', 'b', 'e', ' ', 'e', 'm', 'p', 't', 'y',
    ]
}

/// The reason journaled for reopening a year: the given reason without
/// surrounding white space, which must leave something.
pub fn reopen_reason(reason: &str) -> (r: Result<String, CloseError>)
    ensures
        trim(reason@).len() > 0 ==> (r matches Ok(t) && t@ == trim(reason@)),
        trim(reason@).len() == 0 ==> (r matches Err(CloseError::InvalidState(m)) && m@ == empty_reason_message()),
{
    let s = chars_of(reason);
    let (a, b) = trimmed_range(s.as_slice(), 0, s.len());
    assert(s@.subrange(0, s@.len() as int) =~= s@);
    if a == b {
        let message = "reopen reason must not be empty";
        proof {
            reveal_strlit("reopen reason must not be empty");
        }
        assert(message@ =~= empty_reason_message());
        return Err(CloseError::InvalidState(message.to_owned()));
    }
    let t = string_from_chars(crate::model::slice_of(s.as_slice(), a, b).as_slice());
    Ok(t)
}

/// What appending an entry leaves in the journal: the entries it held, then
/// the new one, its reason on one line. This holds of any journal that
/// parses and does not end in a carriage return.
pub proof fn lemma_journal_append(journal: Seq<char>, state: ClosingState, reason: Seq<char>)
    requires
        journal_entries(lines_of(journal)) is Ok,
        journal.len() == 0 || journal.last() != '\r',
    ensures
        journal_entries(lines_of(journal_after(journal, state, reason))) == Ok::<Seq<(ClosingState, Seq<char>)>, Seq<char>>(
            journal_entries(lines_of(journal))->Ok_0.push((state, one_line(reason))),
        ),
{
    let l = state_text(state) + seq!['\t'] + one_line(reason);
    lemma_state_line(state, reason);
    let base = if journal.len() > 0 && journal.last() != '\n' { journal.push('\n') } else { journal };
    assert(journal_after(journal, state, reason) =~= base + l);
    if journal.len() > 0 && journal.last() != '\n' {
        lemma_lines_newline(journal);
    }
    assert(base.len() == 0 || base.last() == '\n');
    lemma_lines_append(base, l);
    assert(lines_of(base).push(l).drop_last() =~= lines_of(base));
}

/// What a close failure says, for people.
pub open spec fn close_error_text(e: CloseError) -> Seq<char> {
    match e {
        CloseError::Store(m) => "ledger close storage failed: "@ + m@,
        CloseError::UnbalancedTrialBalance { minor_sum } => "trial balance is unbalanced by "@ + signed_decimal(
            minor_sum as int,
        ) + " minor units"@,
        CloseError::UnbalancedVoucher { voucher, posting_count, minor_sum } => "voucher "@ + signed_decimal(voucher as int)
            + " has "@ + signed_decimal(posting_count as int) + " postings and is unbalanced by "@ + signed_decimal(
            minor_sum as int,
        ) + " minor units"@,
        CloseError::InvalidState(m) => "invalid close state: "@ + m@,
        CloseError::ArithmeticOverflow(role) => role@ + " overflows minor units"@,
    }
}

impl CloseError {
    /// What went wrong, for people.
    pub fn message(&self) -> (r: String)
        ensures
            r@ == close_error_text(*self),
    {
        let mut out: Vec<char> = Vec::new();
        match self {
            CloseError::Store(m) => {
                crate::text::push_str(&mut out, "ledger close storage failed: ");
                crate::text::push_str(&mut out, m.as_str());
            },
            CloseError::UnbalancedTrialBalance { minor_sum } => {
                crate::text::push_str(&mut out, "trial balance is unbalanced by ");
                push_int(&mut out, *minor_sum as i128);
                crate::text::push_str(&mut out, " minor units");
            },
            CloseError::UnbalancedVoucher { voucher, posting_count, minor_sum } => {
                crate::text::push_str(&mut out, "voucher ");
                push_int(&mut out, *voucher as i128);
                crate::text::push_str(&mut out, " has ");
                push_int(&mut out, *posting_count as i128);
                crate::text::push_str(&mut out, " postings and is unbalanced by ");
                push_int(&mut out, *minor_sum as i128);
                crate::text::push_str(&mut out, " minor units");
            },
            CloseError::InvalidState(m) => {
                crate::text::push_str(&mut out, "invalid close state: ");
                crate::text::push_str(&mut out, m.as_str());
            },
            CloseError::ArithmeticOverflow(role) => {
                crate::text::push_str(&mut out, role);
                crate::text::push_str(&mut out, " overflows minor units");
            },
        }
        string_from_chars(out.as_slice())
    }
}

/// The close state of a year from its `closing_state` metadata: open when
/// there is none.
pub fn close_state_of(meta: Option<&str>) -> (r: Result<ClosingState, CloseError>)
    ensures
        meta is None ==> r == Ok::<ClosingState, CloseError>(ClosingState::Open),
        meta matches Some(v) ==> match state_of_text(v@) {
            Some(s) => r == Ok::<ClosingState, CloseError>(s),
            None => r matches Err(CloseError::InvalidState(m)) && m@ == unknown_state_message(v@),
        },
{
    match meta {
        Some(v) => ClosingState::parse(v),
        None => Ok(ClosingState::Open),
    }
}

/// The close journal of a year from its `closing_journal` metadata: empty
/// when there is none.
pub fn journal_of(meta: Option<&str>) -> (r: Result<Vec<CloseJournalEntry>, CloseError>)
    ensures
        meta is None ==> (r matches Ok(v) && v@.len() == 0),
        meta matches Some(text) ==> match journal_entries(lines_of(text@)) {
            Ok(es) => r matches Ok(v) && v@.map_values(|e: CloseJournalEntry| entry_view(e)) == es,
            Err(m) => r matches Err(CloseError::InvalidState(x)) && x@ == m,
        },
{
    match meta {
        Some(text) => parse_journal(text),
        None => Ok(Vec::new()),
    }
}

/// Closing is what makes a year refuse ordinary mutations: of the close
/// states, exactly `Closed` is written as the `closed` spelling that the year
/// store checks before every insertion.
pub proof fn lemma_only_closed_refuses_mutation(s: ClosingState)
    ensures
        (state_text(s) == "closed"@) <==> (s == ClosingState::Closed),
{
    reveal_strlit("closed");
    assert(state_text(ClosingState::Closed) =~= "closed"@);
    assert(state_text(ClosingState::Open).len() != "closed"@.len());
    assert(state_text(ClosingState::Review)[0] != "closed"@[0]);
}

} // verus!
