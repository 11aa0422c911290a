//! Plain values exchanged with the ledger year store.
use vstd::prelude::*;

use crate::model::{Account, Posting};
use crate::text::{chars_of, parse_int_chars, parse_int_in, push_int, push_str, signed_decimal, str_is, string_from_chars};

verus! {

broadcast use vstd::string::group_string_axioms;

/// Stable ledger persistence failure categories.
#[derive(Clone, Debug, PartialEq, Eq)]
pub enum StoreError {
    /// Supplied mount failed.
    Mount(String),
    /// Caller, schema, or adapter value was invalid.
    Invalid(String),
    /// Persisted ledger content was malformed.
    Malformed(String),
    /// Relational provider failed.
    Storage(String),
    /// Exclusive creation found an existing year or set file.
    AlreadyExists,
    /// Accounting policy refused mutation of a closed year.
    Closed,
}

/// One account's trial-balance totals as the year store reports them.
#[derive(Clone, Debug, PartialEq, Eq)]
pub struct TrialBalanceData {
    /// Year-local account number.
    pub account: i64,
    /// SRU code for positive balances.
    pub sru_plus: Option<i32>,
    /// SRU code for negative balances.
    pub sru_minus: Option<i32>,
    /// Sum of the positive postings.
    pub debit_minor: i64,
    /// Sum of the negative postings, as a positive number.
    pub credit_minor: i64,
    /// Sum of all postings.
    pub closing_minor: i64,
}

/// The file name of a year's store: `year-2024.sqlite` for 2024.
pub open spec fn year_leaf_text(year: i32) -> Seq<char> {
    seq!['y', 'e', 'a', 'r', '-'] + signed_decimal(year as int) + seq!['.', 's', 'q', 'l', 'i', 't', 'e']
}

/// The file name of a year's store.
pub fn year_leaf(year: i32) -> (r: String)
    ensures
        r@ == year_leaf_text(year),
{
    let mut out: Vec<char> = vec!['y', 'e', 'a', 'r', '-'];
    push_int(&mut out, year as i128);
    out.push('.');
    out.push('s');
    out.push('q');
    out.push('l');
    out.push('i');
    out.push('t');
    out.push('e');
    assert(out@ =~= year_leaf_text(year));
    string_from_chars(out.as_slice())
}

/// What a storage failure says, for people.
pub open spec fn store_error_text(e: StoreError) -> Seq<char> {
    match e {
        StoreError::Mount(m) => "ledger mount failure: "@ + m@,
        StoreError::Invalid(m) => "invalid ledger operation: "@ + m@,
        StoreError::Malformed(m) => "malformed ledger content: "@ + m@,
        StoreError::Storage(m) => "ledger relation failure: "@ + m@,
        StoreError::AlreadyExists => "ledger content already exists"@,
        StoreError::Closed => "ledger year is closed"@,
    }
}

impl StoreError {
    /// What went wrong, for people.
    pub fn message(&self) -> (r: String)
        ensures
            r@ == store_error_text(*self),
    {
        let mut out: Vec<char> = Vec::new();
        match self {
            StoreError::Mount(m) => {
                crate::text::push_str(&mut out, "ledger mount failure: ");
                crate::text::push_str(&mut out, m.as_str());
            },
            StoreError::Invalid(m) => {
                crate::text::push_str(&mut out, "invalid ledger operation: ");
                crate::text::push_str(&mut out, m.as_str());
            },
            StoreError::Malformed(m) => {
                crate::text::push_str(&mut out, "malformed ledger content: ");
                crate::text::push_str(&mut out, m.as_str());
            },
            StoreError::Storage(m) => {
                crate::text::push_str(&mut out, "ledger relation failure: ");
                crate::text::push_str(&mut out, m.as_str());
            },
            StoreError::AlreadyExists => {
                crate::text::push_str(&mut out, "ledger content already exists");
            },
            StoreError::Closed => {
                crate::text::push_str(&mut out, "ledger year is closed");
            },
        }
        string_from_chars(out.as_slice())
    }
}

/// What opening a year store requires of its `year` metadata: it is there
/// and reads as the requested year. The error is the `Invalid` message.
pub open spec fn year_identity_check(meta: Option<Seq<char>>, year: i32) -> Result<(), Seq<char>> {
    match meta {
        None => Err("year metadata is absent"@),
        Some(v) => if parse_int_in(v, i32::MIN as int, i32::MAX as int) == Some(year as int) {
            Ok(())
        } else {
            Err("year identity mismatch"@)
        },
    }
}

/// Check a year store's `year` metadata against the requested year.
pub fn check_year_identity(meta: Option<&str>, year: i32) -> (r: Result<(), StoreError>)
    ensures
        match year_identity_check(
            match meta {
                Some(v) => Some(v@),
                None => None,
            },
            year,
        ) {
            Ok(()) => r is Ok,
            Err(m) => r matches Err(StoreError::Invalid(x)) && x@ == m,
        },
{
    match meta {
        None => Err(StoreError::Invalid("year metadata is absent".to_owned())),
        Some(v) => {
            let cs = chars_of(v);
            match parse_int_chars(cs.as_slice(), i32::MIN as i64, i32::MAX as i64) {
                Some(y) if y == year as i64 => Ok(()),
                _ => Err(StoreError::Invalid("year identity mismatch".to_owned())),
            }
        },
    }
}

/// Whether a year's `closing_state` metadata marks it closed.
pub fn is_closed_state(state: Option<&str>) -> (r: bool)
    ensures
        r == (match state {
            Some(v) => v@ == "closed"@,
            None => false,
        }),
{
    match state {
        Some(v) => str_is(v, "closed"),
        None => false,
    }
}

/// Whether a year with `closing_state` metadata `state` takes ordinary
/// insertions: a closed year refuses them with `Closed`, any other state
/// (or none) accepts them.
pub fn ensure_mutable_state(state: Option<&str>) -> (r: Result<(), StoreError>)
    ensures
        (match state {
            Some(v) => v@ == "closed"@,
            None => false,
        }) ==> r == Err::<(), StoreError>(StoreError::Closed),
        !(match state {
            Some(v) => v@ == "closed"@,
            None => false,
        }) ==> r is Ok,
{
    if is_closed_state(state) {
        Err(StoreError::Closed)
    } else {
        Ok(())
    }
}

/// The name a year's source takes in a multi-year report session: the
/// first year is `main`, the others `year_<year>`.
pub open spec fn report_source_name(index: int, year: i32) -> Seq<char> {
    if index == 0 {
        "main"@
    } else {
        "year_"@ + signed_decimal(year as int)
    }
}

/// The sources of a multi-year report session: each year's source name and
/// store file, in the given order.
pub fn report_sources(years: &[i32]) -> (r: Vec<(String, String)>)
    ensures
        r@.len() == years@.len(),
        forall|i: int| 0 <= i < years@.len() ==> {
            &&& (#[trigger] r@[i]).0@ == report_source_name(i, years@[i])
            &&& r@[i].1@ == year_leaf_text(years@[i])
        },
{
    let mut out: Vec<(String, String)> = Vec::new();
    let mut i: usize = 0;
    while i < years.len()
        invariant
            i <= years.len(),
            out@.len() == i,
            forall|k: int| 0 <= k < i ==> {
                &&& (#[trigger] out@[k]).0@ == report_source_name(k, years@[k])
                &&& out@[k].1@ == year_leaf_text(years@[k])
            },
        decreases years.len() - i,
    {
        let name = if i == 0 {
            "main".to_owned()
        } else {
            let mut n: Vec<char> = Vec::new();
            push_str(&mut n, "year_");
            push_int(&mut n, years[i] as i128);
            string_from_chars(n.as_slice())
        };
        out.push((name, year_leaf(years[i])));
        i += 1;
    }
    out
}

/// Whether a year's accounts come in strictly ascending number order, as the
/// year store lists them (account numbers are the table's primary key).
pub open spec fn accounts_ascending(accounts: Seq<Account>) -> bool {
    forall|i: int, j: int| 0 <= i < j < accounts.len() ==> accounts[i].number < accounts[j].number
}

/// `malformed ledger content` message for accounts out of order or repeated.
pub open spec fn account_order_message() -> Seq<char> {
    "accounts are not in ascending number order"@
}

/// Whether the accounts come in strictly ascending number order.
pub(crate) fn accounts_in_order(accounts: &[Account]) -> (r: bool)
    ensures
        r == accounts_ascending(accounts@),
{
    let mut i: usize = 1;
    if accounts.len() == 0 {
        return true;
    }
    while i < accounts.len()
        invariant
            1 <= i <= accounts.len(),
            forall|a: int, b: int| 0 <= a < b < i ==> accounts@[a].number < accounts@[b].number,
        decreases accounts.len() - i,
    {
        if accounts[i - 1].number >= accounts[i].number {
            return false;
        }
        i += 1;
    }
    true
}

/// The error for accounts out of order.
pub(crate) fn account_order_error() -> (e: StoreError)
    ensures
        e matches StoreError::Malformed(m) && m@ == account_order_message(),
{
    proof {
        reveal_strlit("accounts are not in ascending number order");
    }
    StoreError::Malformed("accounts are not in ascending number order".to_owned())
}

/// What a year store's relational provider reports when a sum leaves the
/// `i64` range: SQLite's integer overflow, which the relation site redacts to
/// its `Provider` failure.
pub open spec fn provider_failure_message() -> Seq<char> {
    "Provider"@
}

/// The storage error for a sum beyond the `i64` range.
pub(crate) fn sum_overflow_error() -> (e: StoreError)
    ensures
        e matches StoreError::Storage(m) && m@ == provider_failure_message(),
{
    proof {
        reveal_strlit("Provider");
    }
    StoreError::Storage("Provider".to_owned())
}

/// The sum of the positive postings to account `number`.
pub open spec fn debit_total(postings: Seq<Posting>, number: i64) -> int
    decreases postings.len(),
{
    if postings.len() == 0 {
        0
    } else {
        let p = postings.last();
        debit_total(postings.drop_last(), number) + if p.account == number && p.amount.0 > 0 {
            p.amount.0 as int
        } else {
            0
        }
    }
}

/// The sum of the negative postings to account `number`, as a positive number.
pub open spec fn credit_total(postings: Seq<Posting>, number: i64) -> int
    decreases postings.len(),
{
    if postings.len() == 0 {
        0
    } else {
        let p = postings.last();
        credit_total(postings.drop_last(), number) + if p.account == number && p.amount.0 < 0 {
            -(p.amount.0 as int)
        } else {
            0
        }
    }
}

/// One account's trial-balance row: debit and credit totals of its postings
/// and the closing balance, their difference.
pub open spec fn trial_balance_row(a: Account, postings: Seq<Posting>) -> TrialBalanceData {
    TrialBalanceData {
        account: a.number,
        sru_plus: a.sru_plus,
        sru_minus: a.sru_minus,
        debit_minor: debit_total(postings, a.number) as i64,
        credit_minor: credit_total(postings, a.number) as i64,
        closing_minor: (debit_total(postings, a.number) - credit_total(postings, a.number)) as i64,
    }
}

/// Whether some account's debit or credit total does not fit in `i64`.
pub open spec fn trial_balance_overflows(accounts: Seq<Account>, postings: Seq<Posting>) -> bool {
    exists|i: int| 0 <= i < accounts.len() && (debit_total(postings, #[trigger] accounts[i].number) > i64::MAX
        || credit_total(postings, accounts[i].number) > i64::MAX)
}

proof fn lemma_totals_bound(postings: Seq<Posting>, number: i64)
    ensures
        0 <= debit_total(postings, number) <= (postings.len() as int) * 0x8000_0000_0000_0000,
        0 <= credit_total(postings, number) <= (postings.len() as int) * 0x8000_0000_0000_0000,
    decreases postings.len(),
{
    if postings.len() > 0 {
        lemma_totals_bound(postings.drop_last(), number);
    }
}

/// The debit and credit totals of account `number`.
fn account_totals(postings: &[Posting], number: i64) -> (r: (i128, i128))
    ensures
        r.0 == debit_total(postings@, number),
        r.1 == credit_total(postings@, number),
{
    let mut debit: i128 = 0;
    let mut credit: i128 = 0;
    let mut i: usize = 0;
    while i < postings.len()
        invariant
            i <= postings.len(),
            debit == debit_total(postings@.take(i as int), number),
            credit == credit_total(postings@.take(i as int), number),
        decreases postings.len() - i,
    {
        proof {
            lemma_totals_bound(postings@.take(i as int), number);
            assert(postings@.take(i + 1).drop_last() =~= postings@.take(i as int));
        }
        let p = &postings[i];
        if p.account == number {
            if p.amount.0 > 0 {
                debit = debit + p.amount.0 as i128;
            } else if p.amount.0 < 0 {
                credit = credit - p.amount.0 as i128;
            }
        }
        i += 1;
    }
    assert(postings@.take(postings.len() as int) =~= postings@);
    (debit, credit)
}

/// The trial balance of one year: per account, in ascending number order, the
/// sum of its positive postings (debit), of its negative postings as a
/// positive number (credit), and of all of them (closing). Accounts without
/// postings have zeros; postings to no listed account are left out. A debit
/// or credit total beyond `i64` fails as the store's provider does.
pub fn trial_balance_data_of(accounts: &[Account], postings: &[Posting]) -> (r: Result<Vec<TrialBalanceData>, StoreError>)
    ensures
        !accounts_ascending(accounts@) ==> (r matches Err(StoreError::Malformed(m)) && m@ == account_order_message()),
        accounts_ascending(accounts@) && trial_balance_overflows(accounts@, postings@) ==> (r matches Err(
            StoreError::Storage(m),
        ) && m@ == provider_failure_message()),
        accounts_ascending(accounts@) && !trial_balance_overflows(accounts@, postings@) ==> (r matches Ok(rows)
            && rows@ == accounts@.map_values(|a: Account| trial_balance_row(a, postings@))),
{
    if !accounts_in_order(accounts) {
        return Err(account_order_error());
    }
    let mut rows: Vec<TrialBalanceData> = Vec::new();
    let mut i: usize = 0;
    while i < accounts.len()
        invariant
            i <= accounts.len(),
            accounts_ascending(accounts@),
            rows@ == accounts@.take(i as int).map_values(|a: Account| trial_balance_row(a, postings@)),
            forall|k: int| 0 <= k < i ==> debit_total(postings@, #[trigger] accounts@[k].number) <= i64::MAX
                && credit_total(postings@, accounts@[k].number) <= i64::MAX,
        decreases accounts.len() - i,
    {
        let a = &accounts[i];
        let (debit, credit) = account_totals(postings, a.number);
        if debit > i64::MAX as i128 || credit > i64::MAX as i128 {
            proof {
                assert(debit_total(postings@, accounts@[i as int].number) > i64::MAX || credit_total(
                    postings@,
                    accounts@[i as int].number,
                ) > i64::MAX);
            }
            return Err(sum_overflow_error());
        }
        proof {
            lemma_totals_bound(postings@, a.number);
        }
        let row = TrialBalanceData {
            account: a.number,
            sru_plus: a.sru_plus,
            sru_minus: a.sru_minus,
            debit_minor: debit as i64,
            credit_minor: credit as i64,
            closing_minor: (debit - credit) as i64,
        };
        rows.push(row);
        assert(rows@ =~= accounts@.take(i + 1).map_values(|a: Account| trial_balance_row(a, postings@)));
        i += 1;
    }
    assert(accounts@.take(accounts.len() as int) =~= accounts@);
    proof {
        assert forall|k: int| 0 <= k < accounts@.len() implies !(debit_total(postings@, #[trigger] accounts@[k].number)
            > i64::MAX || credit_total(postings@, accounts@[k].number) > i64::MAX) by {}
    }
    Ok(rows)
}

} // verus!
