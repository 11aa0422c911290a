//! Deterministic cross-year balance reports over ledger content.
use vstd::prelude::*;

use crate::model::{Account, Amount, Posting};
use crate::store::{account_order_error, account_order_message, accounts_ascending, accounts_in_order, provider_failure_message, sum_overflow_error, StoreError};
use crate::text::string_from_chars;

verus! {

broadcast use vstd::string::group_string_axioms;

/// What a balance row is keyed by.
#[derive(Clone, Copy, Debug, PartialEq, Eq, Structural)]
pub enum BalanceKey {
    /// One account of one year.
    Account {
        /// Ledger year.
        year: i32,
        /// Year-local account number.
        account: i64,
    },
    /// One SRU reporting code across years.
    Sru {
        /// SRU code.
        code: i32,
    },
}

/// One balance of a report.
#[derive(Clone, Copy, Debug, PartialEq, Eq, Structural)]
pub struct BalanceRow {
    /// What the balance belongs to.
    pub key: BalanceKey,
    /// Signed exact balance.
    pub amount: Amount,
}

/// One nonzero balance as a year store reports it: the year, the report key
/// (an account number or an SRU code) and the sum of its postings.
#[derive(Clone, Copy, Debug, PartialEq, Eq, Structural)]
pub struct ReportBalance {
    /// Ledger year.
    pub year: i32,
    /// Account number or SRU code.
    pub key: i64,
    /// Signed sum in minor units.
    pub amount: i64,
}

/// Whether row `a` sorts after row `b` by year, then key.
pub open spec fn sorts_after(a: ReportBalance, b: ReportBalance) -> bool {
    a.year > b.year || (a.year == b.year && a.key > b.key)
}

/// Insert `x` after every row that does not sort after it.
pub open spec fn insert_in_order(sorted: Seq<ReportBalance>, x: ReportBalance) -> Seq<ReportBalance>
    decreases sorted.len(),
{
    if sorted.len() == 0 {
        seq![x]
    } else if sorts_after(sorted.last(), x) {
        insert_in_order(sorted.drop_last(), x).push(sorted.last())
    } else {
        sorted.push(x)
    }
}

/// The rows ordered by year, then key, rows with equal keys keeping their
/// order (a stable sort).
pub open spec fn in_year_key_order(rows: Seq<ReportBalance>) -> Seq<ReportBalance>
    decreases rows.len(),
{
    if rows.len() == 0 {
        Seq::empty()
    } else {
        insert_in_order(in_year_key_order(rows.drop_last()), rows.last())
    }
}

/// Whether rows are ordered by year, then key.
pub open spec fn year_key_sorted(rows: Seq<ReportBalance>) -> bool {
    forall|i: int, j: int| 0 <= i < j < rows.len() ==> !sorts_after(rows[i], rows[j])
}

proof fn lemma_insert_in_order(sorted: Seq<ReportBalance>, x: ReportBalance, p: int)
    requires
        0 <= p <= sorted.len(),
        forall|k: int| 0 <= k < p ==> !sorts_after(#[trigger] sorted[k], x),
        forall|k: int| p <= k < sorted.len() ==> sorts_after(#[trigger] sorted[k], x),
    ensures
        insert_in_order(sorted, x) == sorted.insert(p, x),
    decreases sorted.len(),
{
    if sorted.len() > 0 {
        if p < sorted.len() {
            assert(sorts_after(sorted[sorted.len() - 1], x));
            lemma_insert_in_order(sorted.drop_last(), x, p);
            assert(sorted.drop_last().insert(p, x).push(sorted.last()) =~= sorted.insert(p, x));
        } else {
            assert(!sorts_after(sorted[sorted.len() - 1], x));
            assert(sorted.push(x) =~= sorted.insert(p, x));
        }
    } else {
        assert(seq![x] =~= sorted.insert(p, x));
    }
}

/// Inserting in order keeps rows sorted.
proof fn lemma_insert_keeps_sorted(sorted: Seq<ReportBalance>, x: ReportBalance, p: int)
    requires
        year_key_sorted(sorted),
        0 <= p <= sorted.len(),
        forall|k: int| 0 <= k < p ==> !sorts_after(#[trigger] sorted[k], x),
        forall|k: int| p <= k < sorted.len() ==> sorts_after(#[trigger] sorted[k], x),
    ensures
        year_key_sorted(sorted.insert(p, x)),
{
    let s = sorted.insert(p, x);
    assert forall|i: int, j: int| 0 <= i < j < s.len() implies !sorts_after(s[i], s[j]) by {
        if i < p && j == p {
        } else if i == p && j > p {
            assert(s[j] == sorted[j - 1]);
        } else if j < p {
        } else if i > p {
            assert(s[i] == sorted[i - 1] && s[j] == sorted[j - 1]);
        } else {
            assert(s[j] == sorted[j - 1]);
        }
    }
}

proof fn lemma_insert_in_order_multiset(sorted: Seq<ReportBalance>, x: ReportBalance)
    ensures
        insert_in_order(sorted, x).to_multiset() == sorted.to_multiset().insert(x),
    decreases sorted.len(),
{
    broadcast use vstd::seq_lib::to_multiset_build;

    if sorted.len() == 0 {
        assert(sorted.push(x) =~= seq![x]);
    } else if sorts_after(sorted.last(), x) {
        lemma_insert_in_order_multiset(sorted.drop_last(), x);
        assert(sorted.drop_last().push(sorted.last()) =~= sorted);
        assert(insert_in_order(sorted.drop_last(), x).push(sorted.last()).to_multiset() =~= sorted.to_multiset().insert(x));
    }
}

/// Ordering the rows only reorders them: the ordered rows are the given rows,
/// each as often as it was given.
pub proof fn lemma_year_key_order_permutes(rows: Seq<ReportBalance>)
    ensures
        in_year_key_order(rows).to_multiset() == rows.to_multiset(),
    decreases rows.len(),
{
    broadcast use vstd::seq_lib::to_multiset_build;

    if rows.len() == 0 {
        assert(rows =~= Seq::<ReportBalance>::empty());
    } else {
        lemma_year_key_order_permutes(rows.drop_last());
        lemma_insert_in_order_multiset(in_year_key_order(rows.drop_last()), rows.last());
        assert(rows.drop_last().push(rows.last()) =~= rows);
        assert(rows.drop_last().push(rows.last()).to_multiset() == rows.drop_last().to_multiset().insert(rows.last()));
    }
}

/// Order rows by year, then key, keeping the order of equal rows.
pub fn sort_by_year_key(rows: &[ReportBalance]) -> (r: Vec<ReportBalance>)
    ensures
        r@ == in_year_key_order(rows@),
        year_key_sorted(r@),
{
    let mut out: Vec<ReportBalance> = Vec::new();
    let mut i: usize = 0;
    while i < rows.len()
        invariant
            i <= rows.len(),
            out@ == in_year_key_order(rows@.take(i as int)),
            year_key_sorted(out@),
        decreases rows.len() - i,
    {
        let x = rows[i];
        let mut p: usize = 0;
        while p < out.len() && !(out[p].year > x.year || (out[p].year == x.year && out[p].key > x.key))
            invariant
                p <= out.len(),
                forall|k: int| 0 <= k < p ==> !sorts_after(#[trigger] out@[k], x),
            decreases out.len() - p,
        {
            p += 1;
        }
        proof {
            assert forall|k: int| p <= k < out@.len() implies sorts_after(#[trigger] out@[k], x) by {
                if k > p {
                    assert(!sorts_after(out@[p as int], out@[k]));
                }
            }
            lemma_insert_in_order(out@, x, p as int);
            lemma_insert_keeps_sorted(out@, x, p as int);
            assert(rows@.take(i + 1).drop_last() =~= rows@.take(i as int));
        }
        out.insert(p, x);
        i += 1;
    }
    assert(rows@.take(rows.len() as int) =~= rows@);
    out
}

/// The sum of the amounts of the rows with report key `key`.
pub open spec fn key_total(rows: Seq<ReportBalance>, key: i64) -> int
    decreases rows.len(),
{
    if rows.len() == 0 {
        0
    } else {
        key_total(rows.drop_last(), key) + if rows.last().key == key { rows.last().amount as int } else { 0 }
    }
}

/// Whether some row has report key `key` and the keys sum to a nonzero total.
pub open spec fn reported_key(rows: Seq<ReportBalance>, key: i64) -> bool {
    (exists|i: int| 0 <= i < rows.len() && #[trigger] rows[i].key == key) && key_total(rows, key) != 0
}

/// `malformed ledger content` message for an SRU code beyond `i32`.
pub open spec fn sru_range_message() -> Seq<char> {
    seq!['S', 'R', 'U', ' ', 'c', 'o', 'd', 'e', ' ', 'e', 'x', 'c', 'e', 'e', 'd', 's', ' ', 'i', '3', '2']
}

/// `malformed ledger content` message for a sum beyond the minor-unit range.
pub open spec fn overflow_message() -> Seq<char> {
    seq![
        'b', 'a', 'l', 'a', 'n', 'c', 'e', ' ', 'o', 'v', 'e', 'r', 'f', 'l', 'o', 'w', 's', ' ', 'm',
        'i', 'n', 'o', 'r', ' ', 'u', 'n', 'i', 't', 's',
    ]
}

/// Whether `key` is reported and cannot be written as an SRU balance.
pub open spec fn bad_sru_key(rows: Seq<ReportBalance>, key: i64) -> bool {
    reported_key(rows, key) && !(i32::MIN <= key <= i32::MAX && i64::MIN <= key_total(rows, key) <= i64::MAX)
}

/// What the SRU report of `rows` is: the error of the lowest reported key
/// that cannot be written, if any; otherwise one balance per reported key in
/// ascending order.
pub open spec fn sru_report_ok(out: Seq<BalanceRow>, rows: Seq<ReportBalance>) -> bool {
    &&& forall|i: int, j: int| 0 <= i < j < out.len() ==> out[i].key->code < out[j].key->code
    &&& forall|i: int| 0 <= i < out.len() ==> (#[trigger] out[i]).key is Sru && reported_key(rows, out[i].key->code as i64)
        && out[i].amount.0 == key_total(rows, out[i].key->code as i64)
    &&& forall|k: i64| reported_key(rows, k) ==> exists|i: int| 0 <= i < out.len() && (#[trigger] out[i]).key->code == k
}

/// The smallest reported key above `bound`.
fn next_key_above(rows: &[ReportBalance], bound: Option<i64>) -> (r: Option<i64>)
    ensures
        match r {
            Some(m) => reported_key(rows@, m) && crate::model::above(bound, m) && forall|k: i64| reported_key(rows@, k) && crate::model::above(bound, k) ==> m <= k,
            None => forall|k: i64| reported_key(rows@, k) ==> !crate::model::above(bound, k),
        },
{
    let mut best: Option<i64> = None;
    let mut i: usize = 0;
    while i < rows.len()
        invariant
            i <= rows.len(),
            match best {
                Some(m) => reported_key(rows@, m) && crate::model::above(bound, m) && forall|j: int| 0 <= j < i && reported_key(rows@, (#[trigger] rows@[j]).key)
                    && crate::model::above(bound, rows@[j].key) ==> m <= rows@[j].key,
                None => forall|j: int| 0 <= j < i && reported_key(rows@, (#[trigger] rows@[j]).key) ==> !crate::model::above(bound, rows@[j].key),
            },
        decreases rows.len() - i,
    {
        let k = rows[i].key;
        let is_above = match bound {
            Some(b) => b < k,
            None => true,
        };
        if is_above {
            let better = match best {
                Some(m) => k < m,
                None => true,
            };
            if better && key_sum(rows, k) != 0 {
                assert(rows@[i as int].key == k);
                best = Some(k);
            }
        }
        i += 1;
    }
    proof {
        assert forall|k: i64| reported_key(rows@, k) && crate::model::above(bound, k) implies best is Some && best->Some_0 <= k by {
            let j = choose|j: int| 0 <= j < rows@.len() && #[trigger] rows@[j].key == k;
        }
    }
    best
}

proof fn lemma_key_total_bound(rows: Seq<ReportBalance>, key: i64)
    ensures
        -(rows.len() as int) * 0x8000_0000_0000_0000 <= key_total(rows, key) <= (rows.len() as int) * 0x8000_0000_0000_0000,
    decreases rows.len(),
{
    if rows.len() > 0 {
        lemma_key_total_bound(rows.drop_last(), key);
    }
}

/// The sum of the rows with report key `key`.
fn key_sum(rows: &[ReportBalance], key: i64) -> (r: i128)
    ensures
        r == key_total(rows@, key),
{
    let mut sum: i128 = 0;
    let mut i: usize = 0;
    while i < rows.len()
        invariant
            i <= rows.len(),
            sum == key_total(rows@.take(i as int), key),
        decreases rows.len() - i,
    {
        proof {
            lemma_key_total_bound(rows@.take(i as int), key);
            assert(rows@.take(i + 1).drop_last() =~= rows@.take(i as int));
        }
        if rows[i].key == key {
            sum = sum + rows[i].amount as i128;
        }
        i += 1;
    }
    assert(rows@.take(rows.len() as int) =~= rows@);
    sum
}

/// Sum the year stores' SRU balances across years: one balance per SRU code
/// whose rows sum to something other than zero, in ascending code order.
pub fn sru_balances(rows: &[ReportBalance]) -> (r: Result<Vec<BalanceRow>, StoreError>)
    ensures
        (forall|k: i64| !bad_sru_key(rows@, k)) ==> (r matches Ok(out) && sru_report_ok(out@, rows@)),
        (exists|k: i64| bad_sru_key(rows@, k)) ==> (r matches Err(StoreError::Malformed(m)) && exists|k: i64| {
            &&& bad_sru_key(rows@, k)
            &&& forall|k2: i64| k2 < k ==> !bad_sru_key(rows@, k2)
            &&& m@ == if i32::MIN <= k <= i32::MAX { overflow_message() } else { sru_range_message() }
        }),
{
    let mut out: Vec<BalanceRow> = Vec::new();
    let mut last: Option<i64> = None;
    loop
        invariant
            forall|i: int| 0 <= i < out@.len() ==> (#[trigger] out@[i]).key is Sru && !crate::model::above(last, out@[i].key->code as i64),
            forall|i: int, j: int| 0 <= i < j < out@.len() ==> out@[i].key->code < out@[j].key->code,
            forall|i: int| 0 <= i < out@.len() ==> (#[trigger] out@[i]).key is Sru && reported_key(rows@, out@[i].key->code as i64)
                && out@[i].amount.0 == key_total(rows@, out@[i].key->code as i64),
            forall|k: i64| reported_key(rows@, k) && !crate::model::above(last, k) ==> !bad_sru_key(rows@, k) && exists|i: int| 0 <= i < out@.len()
                && (#[trigger] out@[i]).key->code == k,
            last matches Some(l) ==> i32::MIN <= l <= i32::MAX,
        decreases (if last is Some { 0x8000_0000_0000_0000 - (last->Some_0 as int) } else { 0x1_0000_0000_0000_0001 }),
    {
        let key = match next_key_above(rows, last) {
            Some(k) => k,
            None => {
                proof {
                    assert forall|k: i64| !bad_sru_key(rows@, k) by {
                        if reported_key(rows@, k) {
                            assert(!crate::model::above(last, k));
                        }
                    }
                    assert forall|k: i64| reported_key(rows@, k) implies exists|i: int| 0 <= i < out@.len() && (#[trigger] out@[i]).key->code == k by {
                        assert(!crate::model::above(last, k));
                    }
                }
                return Ok(out);
            },
        };
        let total = key_sum(rows, key);
        if key < i32::MIN as i64 || key > i32::MAX as i64 {
            let m = vec!['S', 'R', 'U', ' ', 'c', 'o', 'd', 'e', ' ', 'e', 'x', 'c', 'e', 'e', 'd', 's', ' ', 'i', '3', '2'];
            assert(m@ =~= sru_range_message());
            assert(bad_sru_key(rows@, key));
            proof {
                assert forall|k2: i64| k2 < key implies !bad_sru_key(rows@, k2) by {
                    if reported_key(rows@, k2) && crate::model::above(last, k2) {
                        assert(key <= k2);
                    }
                }
            }
            return Err(StoreError::Malformed(string_from_chars(m.as_slice())));
        }
        if total < i64::MIN as i128 || total > i64::MAX as i128 {
            let m = vec![
                'b', 'a', 'l', 'a', 'n', 'c', 'e', ' ', 'o', 'v', 'e', 'r', 'f', 'l', 'o', 'w', 's', ' ', 'm',
                'i', 'n', 'o', 'r', ' ', 'u', 'n', 'i', 't', 's',
            ];
            assert(m@ =~= overflow_message());
            assert(bad_sru_key(rows@, key));
            proof {
                assert forall|k2: i64| k2 < key implies !bad_sru_key(rows@, k2) by {
                    if reported_key(rows@, k2) && crate::model::above(last, k2) {
                        assert(key <= k2);
                    }
                }
            }
            return Err(StoreError::Malformed(string_from_chars(m.as_slice())));
        }
        let ghost before = out@;
        out.push(BalanceRow { key: BalanceKey::Sru { code: key as i32 }, amount: Amount(total as i64) });
        proof {
            assert forall|k: i64| reported_key(rows@, k) && !crate::model::above(Some(key), k) implies !bad_sru_key(rows@, k) && exists|i: int| 0 <= i < out@.len()
                && (#[trigger] out@[i]).key->code == k by {
                if crate::model::above(last, k) {
                    assert(k == key);
                    assert(out@[out@.len() - 1].key->code == k);
                } else {
                    let i = choose|i: int| 0 <= i < before.len() && (#[trigger] before[i]).key->code == k;
                    assert(out@[i] == before[i]);
                }
            }
        }
        last = Some(key);
    }
}

/// The account balance row of a year store's row.
pub open spec fn account_row_of(r: ReportBalance) -> BalanceRow {
    BalanceRow { key: BalanceKey::Account { year: r.year, account: r.key }, amount: Amount(r.amount) }
}

/// Order the year stores' account balances by year, then account.
pub fn account_balances(rows: &[ReportBalance]) -> (r: Vec<BalanceRow>)
    ensures
        r@ == in_year_key_order(rows@).map_values(|x: ReportBalance| account_row_of(x)),
{
    let sorted = sort_by_year_key(rows);
    let mut out: Vec<BalanceRow> = Vec::new();
    let mut i: usize = 0;
    while i < sorted.len()
        invariant
            i <= sorted.len(),
            out@ == sorted@.take(i as int).map_values(|x: ReportBalance| account_row_of(x)),
        decreases sorted.len() - i,
    {
        let x = sorted[i];
        out.push(BalanceRow { key: BalanceKey::Account { year: x.year, account: x.key }, amount: Amount(x.amount) });
        assert(out@ =~= sorted@.take(i + 1).map_values(|x: ReportBalance| account_row_of(x)));
        i += 1;
    }
    assert(sorted@.take(sorted.len() as int) =~= sorted@);
    out
}

/// The account with number `number`, the last such when there are several.
pub open spec fn account_numbered(accounts: Seq<Account>, number: i64) -> Option<Account>
    decreases accounts.len(),
{
    if accounts.len() == 0 {
        None
    } else if accounts.last().number == number {
        Some(accounts.last())
    } else {
        account_numbered(accounts.drop_last(), number)
    }
}

/// The report key of a posting of `minor` to account `a`: the account number,
/// or by SRU code the code for its sign (`sru_plus` for zero and up, else
/// `sru_minus`), falling back to the other code.
pub open spec fn posting_report_key(a: Account, minor: i64, by_sru: bool) -> Option<i64> {
    if !by_sru {
        Some(a.number)
    } else {
        let (first, second) = if minor >= 0 { (a.sru_plus, a.sru_minus) } else { (a.sru_minus, a.sru_plus) };
        match first {
            Some(c) => Some(c as i64),
            None => match second {
                Some(c) => Some(c as i64),
                None => None,
            },
        }
    }
}

/// What one posting adds to its year's report: its amount under its report
/// key, when it belongs to a listed account and has a key.
pub open spec fn posting_contribution(year: i32, accounts: Seq<Account>, p: Posting, by_sru: bool) -> Option<ReportBalance> {
    match account_numbered(accounts, p.account) {
        None => None,
        Some(a) => match posting_report_key(a, p.amount.0, by_sru) {
            None => None,
            Some(k) => Some(ReportBalance { year, key: k, amount: p.amount.0 }),
        },
    }
}

/// The contributions of a year's postings, in posting order.
pub open spec fn year_contributions(year: i32, accounts: Seq<Account>, postings: Seq<Posting>, by_sru: bool) -> Seq<ReportBalance>
    decreases postings.len(),
{
    if postings.len() == 0 {
        Seq::empty()
    } else {
        let rest = year_contributions(year, accounts, postings.drop_last(), by_sru);
        match posting_contribution(year, accounts, postings.last(), by_sru) {
            Some(r) => rest.push(r),
            None => rest,
        }
    }
}

/// Whether `out` is a year's report block over `rows`: one row per key whose
/// rows sum to something other than zero, in ascending key order, with that sum.
pub open spec fn year_block(out: Seq<ReportBalance>, rows: Seq<ReportBalance>, year: i32) -> bool {
    &&& forall|i: int, j: int| 0 <= i < j < out.len() ==> out[i].key < out[j].key
    &&& forall|i: int| 0 <= i < out.len() ==> (#[trigger] out[i]).year == year && reported_key(rows, out[i].key)
        && out[i].amount == key_total(rows, out[i].key)
    &&& forall|k: i64| reported_key(rows, k) ==> exists|i: int| 0 <= i < out.len() && (#[trigger] out[i]).key == k
}

/// Whether some key of `rows` sums beyond `i64`.
pub open spec fn block_overflows(rows: Seq<ReportBalance>) -> bool {
    exists|k: i64| reported_key(rows, k) && !(i64::MIN <= #[trigger] key_total(rows, k) <= i64::MAX)
}

/// The concatenation of blocks, in order.
pub open spec fn concat_blocks(blocks: Seq<Seq<ReportBalance>>) -> Seq<ReportBalance>
    decreases blocks.len(),
{
    if blocks.len() == 0 {
        Seq::empty()
    } else {
        concat_blocks(blocks.drop_last()) + blocks.last()
    }
}

/// The account with number `number`.
fn find_account(accounts: &[Account], number: i64) -> (r: Option<usize>)
    ensures
        match account_numbered(accounts@, number) {
            Some(a) => r matches Some(i) && i < accounts@.len() && accounts@[i as int] == a,
            None => r is None,
        },
{
    let mut found: Option<usize> = None;
    let mut i: usize = 0;
    while i < accounts.len()
        invariant
            i <= accounts.len(),
            match account_numbered(accounts@.take(i as int), number) {
                Some(a) => found matches Some(j) && j < i && accounts@[j as int] == a,
                None => found is None,
            },
        decreases accounts.len() - i,
    {
        assert(accounts@.take(i + 1).drop_last() =~= accounts@.take(i as int));
        if accounts[i].number == number {
            found = Some(i);
        }
        i += 1;
    }
    assert(accounts@.take(accounts.len() as int) =~= accounts@);
    found
}

/// The contributions of a year's postings.
fn contributions_of(year: i32, accounts: &[Account], postings: &[Posting], by_sru: bool) -> (r: Vec<ReportBalance>)
    ensures
        r@ == year_contributions(year, accounts@, postings@, by_sru),
{
    let mut out: Vec<ReportBalance> = Vec::new();
    let mut i: usize = 0;
    while i < postings.len()
        invariant
            i <= postings.len(),
            out@ == year_contributions(year, accounts@, postings@.take(i as int), by_sru),
        decreases postings.len() - i,
    {
        let p = &postings[i];
        assert(postings@.take(i + 1).drop_last() =~= postings@.take(i as int));
        assert(postings@.take(i + 1).last() == postings@[i as int]);
        match find_account(accounts, p.account) {
            None => {},
            Some(j) => {
                let a = &accounts[j];
                let key: Option<i64> = if !by_sru {
                    Some(a.number)
                } else {
                    let (first, second) = if p.amount.0 >= 0 { (a.sru_plus, a.sru_minus) } else { (a.sru_minus, a.sru_plus) };
                    match first {
                        Some(c) => Some(c as i64),
                        None => match second {
                            Some(c) => Some(c as i64),
                            None => None,
                        },
                    }
                };
                match key {
                    Some(k) => out.push(ReportBalance { year, key: k, amount: p.amount.0 }),
                    None => {},
                }
            },
        }
        i += 1;
    }
    assert(postings@.take(postings.len() as int) =~= postings@);
    out
}

/// Group one year's contributions: one row per key with a nonzero sum, in
/// ascending key order.
fn year_block_of(year: i32, rows: &[ReportBalance]) -> (r: Result<Vec<ReportBalance>, StoreError>)
    ensures
        !block_overflows(rows@) ==> (r matches Ok(out) && year_block(out@, rows@, year)),
        block_overflows(rows@) ==> (r matches Err(StoreError::Storage(m)) && m@ == provider_failure_message()),
{
    let mut out: Vec<ReportBalance> = Vec::new();
    let mut last: Option<i64> = None;
    loop
        invariant
            forall|i: int| 0 <= i < out@.len() ==> !crate::model::above(last, (#[trigger] out@[i]).key),
            forall|i: int, j: int| 0 <= i < j < out@.len() ==> out@[i].key < out@[j].key,
            forall|i: int| 0 <= i < out@.len() ==> (#[trigger] out@[i]).year == year && reported_key(rows@, out@[i].key)
                && out@[i].amount == key_total(rows@, out@[i].key),
            forall|k: i64| reported_key(rows@, k) && !crate::model::above(last, k) ==> i64::MIN <= key_total(rows@, k)
                <= i64::MAX && exists|i: int| 0 <= i < out@.len() && (#[trigger] out@[i]).key == k,
        decreases (if last is Some { 0x8000_0000_0000_0000 - (last->Some_0 as int) } else { 0x1_0000_0000_0000_0001 }),
    {
        let key = match next_key_above(rows, last) {
            Some(k) => k,
            None => {
                proof {
                    assert forall|k: i64| reported_key(rows@, k) implies i64::MIN <= key_total(rows@, k) <= i64::MAX
                        && exists|i: int| 0 <= i < out@.len() && (#[trigger] out@[i]).key == k by {
                        assert(!crate::model::above(last, k));
                    }
                }
                return Ok(out);
            },
        };
        let total = key_sum(rows, key);
        if total < i64::MIN as i128 || total > i64::MAX as i128 {
            proof {
                assert(reported_key(rows@, key) && !(i64::MIN <= key_total(rows@, key) <= i64::MAX));
            }
            return Err(sum_overflow_error());
        }
        let ghost before = out@;
        out.push(ReportBalance { year, key, amount: total as i64 });
        proof {
            assert forall|k: i64| reported_key(rows@, k) && !crate::model::above(Some(key), k) implies i64::MIN
                <= key_total(rows@, k) <= i64::MAX && exists|i: int| 0 <= i < out@.len() && (#[trigger] out@[i]).key
                == k by {
                if crate::model::above(last, k) {
                    assert(k == key);
                    assert(out@[out@.len() - 1].key == k);
                } else {
                    let i = choose|i: int| 0 <= i < before.len() && (#[trigger] before[i]).key == k;
                    assert(out@[i] == before[i]);
                }
            }
        }
        last = Some(key);
    }
}

/// A year store's balance rows, computed from each year's accounts and
/// postings: every posting of a listed account is taken under its report key
/// (the account number, or by SRU code the code for its sign, falling back to
/// the other code; postings without a code are left out), the amounts are
/// summed per year and key, and each year gives its nonzero sums in ascending
/// key order, the years in the given order. Each year's accounts must come in
/// ascending number order, as the store lists them. A sum beyond `i64` fails
/// as the store's provider does.
pub fn report_balances_of(years: &[(i32, Vec<Account>, Vec<Posting>)], by_sru: bool) -> (r: Result<Vec<ReportBalance>, StoreError>)
    ensures
        (exists|y: int| 0 <= y < years@.len() && !accounts_ascending((#[trigger] years@[y]).1@)) ==> (r matches Err(
            StoreError::Malformed(m),
        ) && m@ == account_order_message()),
        (forall|y: int| 0 <= y < years@.len() ==> accounts_ascending((#[trigger] years@[y]).1@)) && (exists|y: int|
            0 <= y < years@.len() && block_overflows(
                year_contributions((#[trigger] years@[y]).0, years@[y].1@, years@[y].2@, by_sru),
            )) ==> (r matches Err(StoreError::Storage(m)) && m@ == provider_failure_message()),
        (forall|y: int| 0 <= y < years@.len() ==> accounts_ascending((#[trigger] years@[y]).1@)) && (forall|y: int|
            0 <= y < years@.len() ==> !block_overflows(
                year_contributions((#[trigger] years@[y]).0, years@[y].1@, years@[y].2@, by_sru),
            )) ==> (r matches Ok(out) && exists|blocks: Seq<Seq<ReportBalance>>| {
                &&& blocks.len() == years@.len()
                &&& out@ == concat_blocks(blocks)
                &&& forall|y: int| 0 <= y < years@.len() ==> year_block(
                    #[trigger] blocks[y],
                    year_contributions(years@[y].0, years@[y].1@, years@[y].2@, by_sru),
                    years@[y].0,
                )
            }),
{
    let mut y: usize = 0;
    while y < years.len()
        invariant
            y <= years.len(),
            forall|k: int| 0 <= k < y ==> accounts_ascending((#[trigger] years@[k]).1@),
        decreases years.len() - y,
    {
        if !accounts_in_order(years[y].1.as_slice()) {
            return Err(account_order_error());
        }
        y += 1;
    }
    let mut out: Vec<ReportBalance> = Vec::new();
    let ghost mut blocks: Seq<Seq<ReportBalance>> = Seq::empty();
    let mut y: usize = 0;
    while y < years.len()
        invariant
            y <= years.len(),
            forall|k: int| 0 <= k < years@.len() ==> accounts_ascending((#[trigger] years@[k]).1@),
            blocks.len() == y,
            out@ == concat_blocks(blocks),
            forall|k: int| 0 <= k < y ==> year_block(
                #[trigger] blocks[k],
                year_contributions(years@[k].0, years@[k].1@, years@[k].2@, by_sru),
                years@[k].0,
            ),
            forall|k: int| 0 <= k < y ==> !block_overflows(
                year_contributions((#[trigger] years@[k]).0, years@[k].1@, years@[k].2@, by_sru),
            ),
        decreases years.len() - y,
    {
        let (year, accounts, postings) = &years[y];
        let rows = contributions_of(*year, accounts.as_slice(), postings.as_slice(), by_sru);
        let block = match year_block_of(*year, rows.as_slice()) {
            Ok(b) => b,
            Err(e) => {
                return Err(e);
            },
        };
        let ghost before = blocks;
        proof {
            blocks = blocks.push(block@);
            assert(blocks.drop_last() =~= before);
        }
        let mut i: usize = 0;
        let ghost start = out@;
        while i < block.len()
            invariant
                i <= block.len(),
                out@ == start + block@.take(i as int),
            decreases block.len() - i,
        {
            out.push(block[i]);
            assert(out@ =~= start + block@.take(i + 1));
            i += 1;
        }
        assert(block@.take(block.len() as int) =~= block@);
        y += 1;
    }
    Ok(out)
}

/// The balances of the given years, computed from each year's accounts and
/// postings: by year-local account, ordered by year and then account, or
/// summed by SRU code across the years, in ascending code order. Each year
/// contributes its nonzero sums per report key, as `report_balances_of`
/// states; no years give no balances.
pub fn balances_of(years: &[(i32, Vec<Account>, Vec<Posting>)], by_sru: bool) -> (r: Result<Vec<BalanceRow>, StoreError>)
    ensures
        by_sru ==> (r matches Ok(out) ==> forall|i: int| 0 <= i < out@.len() ==> exists|y: int, j: int|
            #![trigger years@[y].1@[j]]
            {
                &&& 0 <= y < years@.len()
                &&& 0 <= j < years@[y].1@.len()
                &&& has_sru_code(years@[y].1@[j], (#[trigger] out@[i]).key->code as i64)
            }),
        years@.len() == 0 ==> (r matches Ok(out) && out@.len() == 0),
        years@.len() > 0 && (exists|y: int| 0 <= y < years@.len() && !accounts_ascending((#[trigger] years@[y]).1@))
            ==> (r matches Err(StoreError::Malformed(m)) && m@ == account_order_message()),
        years@.len() > 0 && (forall|y: int| 0 <= y < years@.len() ==> accounts_ascending((#[trigger] years@[y]).1@))
            && (exists|y: int| 0 <= y < years@.len() && block_overflows(
            year_contributions((#[trigger] years@[y]).0, years@[y].1@, years@[y].2@, by_sru),
        )) ==> (r matches Err(StoreError::Storage(m)) && m@ == provider_failure_message()),
        years@.len() > 0 && (forall|y: int| 0 <= y < years@.len() ==> accounts_ascending((#[trigger] years@[y]).1@))
            && (forall|y: int| 0 <= y < years@.len() ==> !block_overflows(
            year_contributions((#[trigger] years@[y]).0, years@[y].1@, years@[y].2@, by_sru),
        )) ==> exists|blocks: Seq<Seq<ReportBalance>>| #![trigger concat_blocks(blocks)] {
            &&& blocks.len() == years@.len()
            &&& forall|y: int| 0 <= y < years@.len() ==> year_block(
                #[trigger] blocks[y],
                year_contributions(years@[y].0, years@[y].1@, years@[y].2@, by_sru),
                years@[y].0,
            )
            &&& !by_sru ==> (r matches Ok(out) && out@ == in_year_key_order(concat_blocks(blocks)).map_values(
                |x: ReportBalance| account_row_of(x),
            ))
            &&& by_sru && (forall|k: i64| !bad_sru_key(concat_blocks(blocks), k)) ==> (r matches Ok(out)
                && sru_report_ok(out@, concat_blocks(blocks)))
            &&& by_sru && (exists|k: i64| bad_sru_key(concat_blocks(blocks), k)) ==> (r matches Err(
                StoreError::Malformed(m),
            ) && exists|k: i64| {
                &&& bad_sru_key(concat_blocks(blocks), k)
                &&& forall|k2: i64| k2 < k ==> !bad_sru_key(concat_blocks(blocks), k2)
                &&& m@ == if i32::MIN <= k <= i32::MAX { overflow_message() } else { sru_range_message() }
            })
        },
{
    if years.len() == 0 {
        return Ok(Vec::new());
    }
    let rows = match report_balances_of(years, by_sru) {
        Ok(rows) => rows,
        Err(e) => {
            return Err(e);
        },
    };
    let ghost blocks = choose|blocks: Seq<Seq<ReportBalance>>| {
        &&& blocks.len() == years@.len()
        &&& rows@ == concat_blocks(blocks)
        &&& forall|y: int| 0 <= y < years@.len() ==> year_block(
            #[trigger] blocks[y],
            year_contributions(years@[y].0, years@[y].1@, years@[y].2@, by_sru),
            years@[y].0,
        )
    };
    if by_sru {
        let r = sru_balances(rows.as_slice());
        assert(rows@ == concat_blocks(blocks));
        proof {
            if r is Ok {
                lemma_sru_report_codes_are_account_codes(years@, blocks, r->Ok_0@);
            }
        }
        r
    } else {
        let out = account_balances(rows.as_slice());
        assert(rows@ == concat_blocks(blocks));
        Ok(out)
    }
}

/// An account's SRU code, when it is `code`: its `sru_plus` or its `sru_minus`.
pub open spec fn has_sru_code(a: Account, code: i64) -> bool {
    (a.sru_plus matches Some(c) && c as i64 == code) || (a.sru_minus matches Some(c) && c as i64 == code)
}

/// In an SRU report every key is an SRU code of an account that has
/// postings: a posting to an account without any SRU code, or to no listed
/// account, contributes to no SRU row, and a row never carries an account
/// number in place of a code; the code is the account's `sru_plus` for an
/// amount of zero and up and its `sru_minus` below zero, whenever that one is
/// set. By account, every key is the number of a listed account with
/// postings, and each contribution is one posting's amount.
pub proof fn lemma_report_keys_come_from_accounts(year: i32, accounts: Seq<Account>, postings: Seq<Posting>, by_sru: bool)
    ensures
        forall|i: int| 0 <= i < year_contributions(year, accounts, postings, by_sru).len() ==> {
            let c = #[trigger] year_contributions(year, accounts, postings, by_sru)[i];
            &&& c.year == year
            &&& exists|j: int, k: int| #![trigger accounts[j], postings[k]] {
                &&& 0 <= j < accounts.len()
                &&& 0 <= k < postings.len()
                &&& postings[k].account == accounts[j].number
                &&& c.amount == postings[k].amount.0
                &&& if by_sru {
                    &&& has_sru_code(accounts[j], c.key)
                    &&& c.amount >= 0 ==> (accounts[j].sru_plus matches Some(v) ==> c.key == v as i64)
                    &&& c.amount < 0 ==> (accounts[j].sru_minus matches Some(v) ==> c.key == v as i64)
                } else {
                    c.key == accounts[j].number
                }
            }
        },
    decreases postings.len(),
{
    if postings.len() > 0 {
        let rest = postings.drop_last();
        lemma_report_keys_come_from_accounts(year, accounts, rest, by_sru);
        let p = postings.last();
        lemma_account_numbered_is_listed(accounts, p.account);
        let all = year_contributions(year, accounts, postings, by_sru);
        let before = year_contributions(year, accounts, rest, by_sru);
        match posting_contribution(year, accounts, p, by_sru) {
            Some(rc) => {
                assert(all == before.push(rc));
            },
            None => {
                assert(all == before);
            },
        }
        assert forall|i: int| 0 <= i < all.len() implies {
            let c = #[trigger] all[i];
            &&& c.year == year
            &&& exists|j: int, k: int| #![trigger accounts[j], postings[k]] {
                &&& 0 <= j < accounts.len()
                &&& 0 <= k < postings.len()
                &&& postings[k].account == accounts[j].number
                &&& c.amount == postings[k].amount.0
                &&& if by_sru {
                    &&& has_sru_code(accounts[j], c.key)
                    &&& c.amount >= 0 ==> (accounts[j].sru_plus matches Some(v) ==> c.key == v as i64)
                    &&& c.amount < 0 ==> (accounts[j].sru_minus matches Some(v) ==> c.key == v as i64)
                } else {
                    c.key == accounts[j].number
                }
            }
        } by {
            if i < before.len() {
                assert(all[i] == before[i]);
                let c = before[i];
                let (j, k) = choose|j: int, k: int| #![trigger accounts[j], rest[k]] {
                    &&& 0 <= j < accounts.len()
                    &&& 0 <= k < rest.len()
                    &&& rest[k].account == accounts[j].number
                    &&& c.amount == rest[k].amount.0
                    &&& if by_sru {
                        &&& has_sru_code(accounts[j], c.key)
                        &&& c.amount >= 0 ==> (accounts[j].sru_plus matches Some(v) ==> c.key == v as i64)
                        &&& c.amount < 0 ==> (accounts[j].sru_minus matches Some(v) ==> c.key == v as i64)
                    } else {
                        c.key == accounts[j].number
                    }
                };
                assert(postings[k] == rest[k]);
            } else {
                let a = account_numbered(accounts, p.account)->Some_0;
                let j = choose|j: int| 0 <= j < accounts.len() && accounts[j] == a;
                let k = postings.len() - 1;
                assert(postings[k] == p);
                assert(accounts[j] == a);
            }
        }
    }
}

/// The account `account_numbered` finds is one of the listed accounts, with
/// that number.
proof fn lemma_account_numbered_is_listed(accounts: Seq<Account>, number: i64)
    ensures
        account_numbered(accounts, number) matches Some(a) ==> a.number == number && exists|j: int|
            0 <= j < accounts.len() && accounts[j] == a,
    decreases accounts.len(),
{
    if accounts.len() > 0 && accounts.last().number != number {
        lemma_account_numbered_is_listed(accounts.drop_last(), number);
        if let Some(a) = account_numbered(accounts.drop_last(), number) {
            let j = choose|j: int| 0 <= j < accounts.drop_last().len() && accounts.drop_last()[j] == a;
            assert(accounts[j] == a);
        }
    } else if accounts.len() > 0 {
        assert(accounts[accounts.len() - 1] == accounts.last());
    }
}

/// Every row of concatenated blocks is a row of one of the blocks.
proof fn lemma_concat_blocks_member(blocks: Seq<Seq<ReportBalance>>, m: int)
    requires
        0 <= m < concat_blocks(blocks).len(),
    ensures
        exists|y: int, t: int| 0 <= y < blocks.len() && 0 <= t < blocks[y].len() && #[trigger] blocks[y][t]
            == concat_blocks(blocks)[m],
    decreases blocks.len(),
{
    let init = blocks.drop_last();
    let n = concat_blocks(init).len() as int;
    if m < n {
        lemma_concat_blocks_member(init, m);
        let (y, t) = choose|y: int, t: int| 0 <= y < init.len() && 0 <= t < init[y].len() && #[trigger] init[y][t]
            == concat_blocks(init)[m];
        assert(blocks[y] == init[y]);
    } else {
        let y = blocks.len() - 1;
        assert(blocks[y][m - n] == concat_blocks(blocks)[m]);
    }
}

/// Every code of an SRU report built from the years' blocks is an SRU code
/// (`sru_plus` or `sru_minus`) of an account of one of the years that has
/// postings.
pub proof fn lemma_sru_report_codes_are_account_codes(
    years: Seq<(i32, Vec<Account>, Vec<Posting>)>,
    blocks: Seq<Seq<ReportBalance>>,
    out: Seq<BalanceRow>,
)
    requires
        blocks.len() == years.len(),
        forall|y: int| 0 <= y < years.len() ==> year_block(
            #[trigger] blocks[y],
            year_contributions(years[y].0, years[y].1@, years[y].2@, true),
            years[y].0,
        ),
        sru_report_ok(out, concat_blocks(blocks)),
    ensures
        forall|i: int| 0 <= i < out.len() ==> exists|y: int, j: int| #![trigger years[y].1@[j]] {
            &&& 0 <= y < years.len()
            &&& 0 <= j < years[y].1@.len()
            &&& has_sru_code(years[y].1@[j], (#[trigger] out[i]).key->code as i64)
        },
{
    let rows = concat_blocks(blocks);
    assert forall|i: int| 0 <= i < out.len() implies exists|y: int, j: int| #![trigger years[y].1@[j]] {
        &&& 0 <= y < years.len()
        &&& 0 <= j < years[y].1@.len()
        &&& has_sru_code(years[y].1@[j], (#[trigger] out[i]).key->code as i64)
    } by {
        let code = out[i].key->code as i64;
        assert(reported_key(rows, code));
        let m = choose|m: int| 0 <= m < rows.len() && #[trigger] rows[m].key == code;
        lemma_concat_blocks_member(blocks, m);
        let (y, t) = choose|y: int, t: int| 0 <= y < blocks.len() && 0 <= t < blocks[y].len() && #[trigger] blocks[y][t]
            == rows[m];
        let year_rows = year_contributions(years[y].0, years[y].1@, years[y].2@, true);
        assert(year_block(blocks[y], year_rows, years[y].0));
        assert(reported_key(year_rows, blocks[y][t].key));
        let q = choose|q: int| 0 <= q < year_rows.len() && #[trigger] year_rows[q].key == code;
        lemma_report_keys_come_from_accounts(years[y].0, years[y].1@, years[y].2@, true);
        assert(year_rows[q] == year_contributions(years[y].0, years[y].1@, years[y].2@, true)[q]);
        let (j, k) = choose|j: int, k: int| #![trigger years[y].1@[j], years[y].2@[k]] {
            &&& 0 <= j < years[y].1@.len()
            &&& 0 <= k < years[y].2@.len()
            &&& years[y].2@[k].account == years[y].1@[j].number
            &&& year_rows[q].amount == years[y].2@[k].amount.0
            &&& has_sru_code(years[y].1@[j], year_rows[q].key)
        };
    }
}

} // verus!
