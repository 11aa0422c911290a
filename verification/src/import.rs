//! Front-end-neutral import of one source year: canonical ids are assigned
//! and the double-entry checks run before anything is written.
use vstd::prelude::*;

use crate::model::{
    fits_i64, has_voucher, is_violation, opt_text, voucher_balance_violations, voucher_count, voucher_sum,
    Account, Amount, BalanceError, Posting, Voucher,
};
use crate::set::{reservation, IdAllocationError, SetManifest};
use crate::set::id_allocation_text;
use crate::text::{push_int, push_str, signed_decimal, string_from_chars};

verus! {

/// Rows as read from a source year before canonical ids are assigned.
#[derive(Clone, Debug, PartialEq)]
pub struct SourceYear {
    /// Ledger year for these source rows.
    pub year: i32,
    /// Year-local source accounts.
    pub accounts: Vec<Account>,
    /// Source vouchers keyed by source id.
    pub vouchers: Vec<SourceVoucher>,
    /// Source postings keyed by source id.
    pub postings: Vec<SourcePosting>,
    /// Source high-water mark for voucher ids.
    pub next_source_voucher_id: i64,
    /// Source high-water mark for posting ids.
    pub next_source_posting_id: i64,
}

/// A voucher row from an external source.
#[derive(Clone, Debug, PartialEq, Eq)]
pub struct SourceVoucher {
    /// Source voucher id.
    pub source_id: i64,
    /// ISO-8601 voucher date.
    pub date: String,
    /// Optional source voucher text.
    pub text: Option<String>,
}

/// A posting row from an external source.
#[derive(Clone, Debug, PartialEq, Eq)]
pub struct SourcePosting {
    /// Source posting id.
    pub source_id: i64,
    /// Source voucher id this posting belongs to.
    pub source_voucher_id: i64,
    /// Year-local account number.
    pub account: i64,
    /// Signed posting amount.
    pub amount: Amount,
    /// Optional source posting text.
    pub text: Option<String>,
}

/// What a source voucher states.
pub struct SourceVoucherView {
    /// Source voucher id.
    pub source_id: i64,
    /// Voucher date text.
    pub date: Seq<char>,
    /// Optional voucher text.
    pub text: Option<Seq<char>>,
}

impl View for SourceVoucher {
    type V = SourceVoucherView;

    open spec fn view(&self) -> SourceVoucherView {
        SourceVoucherView { source_id: self.source_id, date: self.date@, text: opt_text(self.text) }
    }
}

/// What a source posting states.
pub struct SourcePostingView {
    /// Source posting id.
    pub source_id: i64,
    /// Source voucher id.
    pub source_voucher_id: i64,
    /// Account number.
    pub account: i64,
    /// Amount in minor units.
    pub amount: i64,
    /// Optional posting text.
    pub text: Option<Seq<char>>,
}

impl View for SourcePosting {
    type V = SourcePostingView;

    open spec fn view(&self) -> SourcePostingView {
        SourcePostingView {
            source_id: self.source_id,
            source_voucher_id: self.source_voucher_id,
            account: self.account,
            amount: self.amount.0,
            text: opt_text(self.text),
        }
    }
}

/// Failure while importing one source year.
#[derive(Clone, Debug, PartialEq, Eq)]
pub enum ImportError {
    /// Supplied storage failure.
    Store {
        /// Sanitized storage error text.
        message: String,
    },
    /// The set already contains the requested year.
    YearAlreadyImported {
        /// Duplicate ledger year.
        year: i32,
    },
    /// A source voucher id appears more than once.
    DuplicateSourceVoucher {
        /// Duplicate source voucher id.
        source_id: i64,
    },
    /// A source posting id appears more than once.
    DuplicateSourcePosting {
        /// Duplicate source posting id.
        source_id: i64,
    },
    /// A source posting references a voucher that is not present.
    MissingVoucher {
        /// Missing source voucher id.
        source_voucher_id: i64,
    },
    /// A voucher's postings do not sum to zero.
    Unbalanced {
        /// Canonical voucher id.
        voucher: i64,
        /// Number of posting lines attached to the voucher.
        posting_count: usize,
        /// Signed minor-unit sum for the voucher.
        minor_sum: i64,
    },
    /// Posting sums overflowed the exact minor-unit range.
    BalanceOverflow {
        /// Canonical voucher id.
        voucher: i64,
    },
    /// A source row count cannot fit in the id allocator.
    IdCountOverflow {
        /// Name of the row collection.
        row_kind: &'static str,
        /// Row count that cannot fit in `i64`.
        count: usize,
    },
    /// Canonical id allocation failed.
    IdAllocation {
        /// The allocation error.
        source: IdAllocationError,
    },
}

/// A checked import, ready to be written: the canonical rows of the year and
/// the manifest the set has once they are written.
#[derive(Clone, Debug, PartialEq)]
pub struct ImportPlan {
    /// Ledger year.
    pub year: i32,
    /// Year-local accounts, as supplied.
    pub accounts: Vec<Account>,
    /// Vouchers with canonical ids.
    pub vouchers: Vec<Voucher>,
    /// Postings with canonical ids and canonical voucher references.
    pub postings: Vec<Posting>,
    /// First canonical voucher id of the year; its vouchers take the ids up
    /// to the manifest's next voucher id.
    pub voucher_start: i64,
    /// First canonical posting id of the year; its postings take the ids up
    /// to the manifest's next posting id.
    pub posting_start: i64,
    /// The set manifest after the import: cursors past the new ids and the
    /// year recorded.
    pub manifest: SetManifest,
}

// ---------------------------------------------------------------------------
// What an import does

/// The source ids of the vouchers.
pub open spec fn voucher_source_ids(vs: Seq<SourceVoucher>) -> Seq<i64> {
    vs.map_values(|v: SourceVoucher| v.source_id)
}

/// The source ids of the postings.
pub open spec fn posting_source_ids(ps: Seq<SourcePosting>) -> Seq<i64> {
    ps.map_values(|p: SourcePosting| p.source_id)
}

/// The first id, scanning left to right, that repeats an earlier one.
pub open spec fn first_repeat(ids: Seq<i64>) -> Option<i64>
    decreases ids.len(),
{
    if ids.len() == 0 {
        None
    } else {
        match first_repeat(ids.drop_last()) {
            Some(x) => Some(x),
            None => if ids.drop_last().contains(ids.last()) { Some(ids.last()) } else { None },
        }
    }
}

/// The first posting problem, scanning left to right: a repeated source id,
/// or a reference to a voucher the source does not have.
pub open spec fn posting_problem(ps: Seq<SourcePosting>, vs: Seq<SourceVoucher>) -> Option<ImportError>
    decreases ps.len(),
{
    if ps.len() == 0 {
        None
    } else {
        match posting_problem(ps.drop_last(), vs) {
            Some(e) => Some(e),
            None => {
                let p = ps.last();
                if posting_source_ids(ps.drop_last()).contains(p.source_id) {
                    Some(ImportError::DuplicateSourcePosting { source_id: p.source_id })
                } else if !voucher_source_ids(vs).contains(p.source_voucher_id) {
                    Some(ImportError::MissingVoucher { source_voucher_id: p.source_voucher_id })
                } else {
                    None
                }
            },
        }
    }
}

/// The larger of two ids.
pub open spec fn max_id(a: i64, b: i64) -> i64 {
    if a < b { b } else { a }
}

/// The first canonical voucher id of an import: the set cursor, raised to the
/// source high-water mark.
pub open spec fn voucher_start(m: SetManifest, s: SourceYear) -> i64 {
    max_id(m.next_voucher_id, s.next_source_voucher_id)
}

/// The first canonical posting id of an import.
pub open spec fn posting_start(m: SetManifest, s: SourceYear) -> i64 {
    max_id(m.next_posting_id, s.next_source_posting_id)
}

/// The first canonical ids of an import are never below the set's cursors
/// nor below the source's high-water marks, on every import, whatever the set
/// already holds, and each is one of the two.
pub proof fn lemma_import_starts_at_the_higher_mark(m: SetManifest, s: SourceYear)
    ensures
        voucher_start(m, s) >= m.next_voucher_id,
        voucher_start(m, s) >= s.next_source_voucher_id,
        voucher_start(m, s) == m.next_voucher_id || voucher_start(m, s) == s.next_source_voucher_id,
        posting_start(m, s) >= m.next_posting_id,
        posting_start(m, s) >= s.next_source_posting_id,
        posting_start(m, s) == m.next_posting_id || posting_start(m, s) == s.next_source_posting_id,
{
}

/// The failure an import meets before its balances are checked, in the order
/// the checks run, if any.
pub open spec fn import_precheck(m: SetManifest, s: SourceYear) -> Option<ImportError> {
    let nv = s.vouchers@.len();
    let np = s.postings@.len();
    if m.years@.contains(s.year) {
        Some(ImportError::YearAlreadyImported { year: s.year })
    } else if nv > i64::MAX {
        Some(ImportError::IdCountOverflow { row_kind: "voucher", count: nv as usize })
    } else if np > i64::MAX {
        Some(ImportError::IdCountOverflow { row_kind: "posting", count: np as usize })
    } else if reservation("voucher", voucher_start(m, s), nv as i64) is Err {
        Some(ImportError::IdAllocation { source: reservation("voucher", voucher_start(m, s), nv as i64)->Err_0 })
    } else if reservation("posting", posting_start(m, s), np as i64) is Err {
        Some(ImportError::IdAllocation { source: reservation("posting", posting_start(m, s), np as i64)->Err_0 })
    } else if first_repeat(voucher_source_ids(s.vouchers@)) is Some {
        Some(ImportError::DuplicateSourceVoucher { source_id: first_repeat(voucher_source_ids(s.vouchers@))->Some_0 })
    } else {
        posting_problem(s.postings@, s.vouchers@)
    }
}

/// The position of the voucher with source id `sid`.
pub open spec fn voucher_index(vs: Seq<SourceVoucher>, sid: i64) -> int {
    choose|j: int| 0 <= j < vs.len() && vs[j].source_id == sid
}

/// The vouchers with canonical ids from `start`, in source order.
pub open spec fn canonical_vouchers(vs: Seq<SourceVoucher>, start: int) -> Seq<Voucher> {
    Seq::new(
        vs.len(),
        |i: int| Voucher { id: (start + i) as i64, source_id: Some(vs[i].source_id), date: vs[i].date, text: vs[i].text },
    )
}

/// The postings with canonical ids from `pstart`, each referring to the
/// canonical id of its voucher.
pub open spec fn canonical_postings(ps: Seq<SourcePosting>, vs: Seq<SourceVoucher>, pstart: int, vstart: int) -> Seq<Posting> {
    Seq::new(
        ps.len(),
        |i: int| Posting {
            id: (pstart + i) as i64,
            source_id: Some(ps[i].source_id),
            voucher_id: (vstart + voucher_index(vs, ps[i].source_voucher_id)) as i64,
            account: ps[i].account,
            amount: ps[i].amount,
            text: ps[i].text,
        },
    )
}

/// Each canonical posting refers to the canonical voucher that came from its
/// source voucher, keeps its account, amount and text, and is numbered in
/// source order from the posting start.
pub proof fn lemma_postings_refer_to_their_vouchers(ps: Seq<SourcePosting>, vs: Seq<SourceVoucher>, pstart: int, vstart: int)
    requires
        forall|i: int| 0 <= i < ps.len() ==> exists|t: int| 0 <= t < vs.len() && (#[trigger] vs[t]).source_id
            == (#[trigger] ps[i]).source_voucher_id,
    ensures
        forall|i: int| 0 <= i < ps.len() ==> {
            let p = #[trigger] canonical_postings(ps, vs, pstart, vstart)[i];
            &&& p.id == (pstart + i) as i64
            &&& p.source_id == Some(ps[i].source_id)
            &&& p.account == ps[i].account
            &&& p.amount == ps[i].amount
            &&& p.text == ps[i].text
            &&& exists|t: int| 0 <= t < vs.len() && {
                let v = #[trigger] canonical_vouchers(vs, vstart)[t];
                &&& v.id == p.voucher_id
                &&& v.source_id == Some(ps[i].source_voucher_id)
            }
        },
{
    assert forall|i: int| 0 <= i < ps.len() implies {
        let p = #[trigger] canonical_postings(ps, vs, pstart, vstart)[i];
        &&& p.id == (pstart + i) as i64
        &&& p.source_id == Some(ps[i].source_id)
        &&& p.account == ps[i].account
        &&& p.amount == ps[i].amount
        &&& p.text == ps[i].text
        &&& exists|t: int| 0 <= t < vs.len() && {
            let v = #[trigger] canonical_vouchers(vs, vstart)[t];
            &&& v.id == p.voucher_id
            &&& v.source_id == Some(ps[i].source_voucher_id)
        }
    } by {
        let w = choose|t: int| 0 <= t < vs.len() && (#[trigger] vs[t]).source_id == ps[i].source_voucher_id;
        assert(vs[w].source_id == ps[i].source_voucher_id);
        let t = voucher_index(vs, ps[i].source_voucher_id);
        assert(0 <= t < vs.len() && vs[t].source_id == ps[i].source_voucher_id);
        assert(canonical_vouchers(vs, vstart)[t].id == canonical_postings(ps, vs, pstart, vstart)[i].voucher_id);
    }
}

/// Whether `e` is the balance failure of the canonical rows: the lowest
/// voucher whose sum overflows, or else the lowest voucher that breaks
/// double entry.
pub open spec fn is_balance_failure(e: ImportError, vs: Seq<Voucher>, ps: Seq<Posting>) -> bool {
    match e {
        ImportError::BalanceOverflow { voucher } => has_voucher(vs, voucher) && !fits_i64(voucher_sum(ps, voucher))
            && forall|id: i64| has_voucher(vs, id) && id < voucher ==> fits_i64(#[trigger] voucher_sum(ps, id)),
        ImportError::Unbalanced { voucher, posting_count, minor_sum } => {
            &&& forall|id: i64| has_voucher(vs, id) ==> fits_i64(#[trigger] voucher_sum(ps, id))
            &&& has_voucher(vs, voucher) && is_violation(ps, voucher)
            &&& posting_count == voucher_count(ps, voucher) && minor_sum == voucher_sum(ps, voucher)
            &&& forall|id: i64| has_voucher(vs, id) && id < voucher ==> !is_violation(ps, id)
        },
        _ => false,
    }
}

/// Whether every voucher of the canonical rows balances exactly.
pub open spec fn all_balanced(vs: Seq<Voucher>, ps: Seq<Posting>) -> bool {
    forall|id: i64| has_voucher(vs, id) ==> fits_i64(#[trigger] voucher_sum(ps, id)) && !is_violation(ps, id)
}

/// Whether `v` is ascending.
pub open spec fn ascending(v: Seq<i32>) -> bool {
    forall|i: int, j: int| 0 <= i < j < v.len() ==> v[i] <= v[j]
}

// ---------------------------------------------------------------------------
// Checks

/// Sort a list of years ascending, by insertion.
fn sort_years(years: &mut Vec<i32>)
    ensures
        ascending(final(years)@),
        final(years)@.to_multiset() == old(years)@.to_multiset(),
{
    let mut out: Vec<i32> = Vec::new();
    let mut i: usize = 0;
    assert(out@ =~= years@.take(0));
    while i < years.len()
        invariant
            i <= years.len(),
            ascending(out@),
            out@.to_multiset() == years@.take(i as int).to_multiset(),
        decreases years.len() - i,
    {
        let x = years[i];
        let mut p: usize = 0;
        while p < out.len() && out[p] <= x
            invariant
                p <= out.len(),
                ascending(out@),
                forall|k: int| 0 <= k < p ==> out@[k] <= x,
            decreases out.len() - p,
        {
            p += 1;
        }
        let ghost before = out@;
        proof {
            assert forall|k: int| p <= k < before.len() implies x < before[k] by {
                assert(before[p as int] > x);
            }
        }
        out.insert(p, x);
        proof {
            assert(out@ == before.insert(p as int, x));
            assert forall|a: int, b: int| 0 <= a < b < out@.len() implies out@[a] <= out@[b] by {
                if a < p && b > p {
                    assert(out@[a] == before[a] && out@[b] == before[b - 1]);
                } else if b < p {
                    assert(out@[a] == before[a] && out@[b] == before[b]);
                } else if a > p {
                    assert(out@[a] == before[a - 1] && out@[b] == before[b - 1]);
                }
            }
            assert(years@.take(i + 1) =~= years@.take(i as int).push(x));
            vstd::seq_lib::to_multiset_insert(before, p as int, x);
            vstd::seq_lib::to_multiset_build(years@.take(i as int), x);
        }
        i += 1;
    }
    assert(years@.take(years.len() as int) =~= years@);
    *years = out;
}

fn contains_year(years: &[i32], year: i32) -> (r: bool)
    ensures
        r == years@.contains(year),
{
    let mut i: usize = 0;
    while i < years.len()
        invariant
            i <= years.len(),
            forall|j: int| 0 <= j < i ==> years@[j] != year,
        decreases years.len() - i,
    {
        if years[i] == year {
            assert(years@[i as int] == year);
            return true;
        }
        i += 1;
    }
    false
}

/// A row count as an id count.
pub fn count_as_i64(row_kind: &'static str, count: usize) -> (r: Result<i64, ImportError>)
    ensures
        count <= i64::MAX ==> r == Ok::<i64, ImportError>(count as i64),
        count > i64::MAX ==> r == Err::<i64, ImportError>(ImportError::IdCountOverflow { row_kind, count }),
{
    if count as u128 > i64::MAX as u128 {
        Err(ImportError::IdCountOverflow { row_kind, count })
    } else {
        Ok(count as i64)
    }
}

/// The import failure for a balance-check failure.
pub fn import_balance_error(error: BalanceError) -> (r: ImportError)
    ensures
        match error {
            BalanceError::SumOverflow { voucher_id } => r == ImportError::BalanceOverflow { voucher: voucher_id },
        },
{
    match error {
        BalanceError::SumOverflow { voucher_id } => ImportError::BalanceOverflow { voucher: voucher_id },
    }
}

proof fn lemma_first_repeat_none(ids: Seq<i64>)
    requires
        first_repeat(ids) is None,
    ensures
        forall|i: int, j: int| 0 <= i < j < ids.len() ==> ids[i] != ids[j],
    decreases ids.len(),
{
    if ids.len() > 0 {
        let t = ids.drop_last();
        lemma_first_repeat_none(t);
        assert forall|i: int, j: int| 0 <= i < j < ids.len() implies ids[i] != ids[j] by {
            if j == ids.len() - 1 {
                if ids[i] == ids[j] {
                    assert(t[i] == ids.last());
                    assert(t.contains(ids.last()));
                }
            } else {
                assert(t[i] == ids[i] && t[j] == ids[j]);
            }
        }
    }
}

proof fn lemma_first_repeat_prefix(ids: Seq<i64>, k: int, n: int)
    requires
        0 <= k <= n <= ids.len(),
        first_repeat(ids.take(k)) is Some,
    ensures
        first_repeat(ids.take(n)) == first_repeat(ids.take(k)),
    decreases n - k,
{
    if n > k {
        lemma_first_repeat_prefix(ids, k, n - 1);
        assert(ids.take(n).drop_last() =~= ids.take(n - 1));
    }
}

proof fn lemma_posting_problem_prefix(ps: Seq<SourcePosting>, vs: Seq<SourceVoucher>, k: int, n: int)
    requires
        0 <= k <= n <= ps.len(),
        posting_problem(ps.take(k), vs) is Some,
    ensures
        posting_problem(ps.take(n), vs) == posting_problem(ps.take(k), vs),
    decreases n - k,
{
    if n > k {
        lemma_posting_problem_prefix(ps, vs, k, n - 1);
        assert(ps.take(n).drop_last() =~= ps.take(n - 1));
    }
}

/// Whether some voucher before `upto` has source id `id`.
fn voucher_seen(vs: &[SourceVoucher], upto: usize, id: i64) -> (r: Option<usize>)
    requires
        upto <= vs.len(),
    ensures
        match r {
            Some(j) => j < upto && vs@[j as int].source_id == id,
            None => forall|j: int| 0 <= j < upto ==> (#[trigger] vs@[j]).source_id != id,
        },
{
    let mut j: usize = 0;
    while j < upto
        invariant
            j <= upto <= vs.len(),
            forall|k: int| 0 <= k < j ==> (#[trigger] vs@[k]).source_id != id,
        decreases upto - j,
    {
        if vs[j].source_id == id {
            return Some(j);
        }
        j += 1;
    }
    None
}

/// Whether some posting before `upto` has source id `id`.
fn posting_seen(ps: &[SourcePosting], upto: usize, id: i64) -> (r: bool)
    requires
        upto <= ps.len(),
    ensures
        r == posting_source_ids(ps@.take(upto as int)).contains(id),
{
    let mut j: usize = 0;
    let ghost ids = posting_source_ids(ps@.take(upto as int));
    while j < upto
        invariant
            j <= upto <= ps.len(),
            ids == posting_source_ids(ps@.take(upto as int)),
            forall|k: int| 0 <= k < j ==> (#[trigger] ps@[k]).source_id != id,
        decreases upto - j,
    {
        if ps[j].source_id == id {
            assert(ids[j as int] == id);
            return true;
        }
        j += 1;
    }
    proof {
        if ids.contains(id) {
            let k = choose|k: int| 0 <= k < ids.len() && ids[k] == id;
            assert(ps@[k].source_id == id);
        }
    }
    false
}

fn clone_text(t: &Option<String>) -> (r: Option<String>)
    ensures
        r == *t,
{
    match t {
        Some(s) => Some(s.clone()),
        None => None,
    }
}

/// Vouchers with canonical ids from `start`, or the first repeated source id.
fn assign_voucher_ids(vs: &[SourceVoucher], start: i64) -> (r: Result<Vec<Voucher>, ImportError>)
    requires
        start + vs.len() <= i64::MAX,
        start >= 0,
    ensures
        match first_repeat(voucher_source_ids(vs@)) {
            Some(id) => r == Err::<Vec<Voucher>, ImportError>(ImportError::DuplicateSourceVoucher { source_id: id }),
            None => r matches Ok(out) && out@ == canonical_vouchers(vs@, start as int),
        },
{
    let ghost ids = voucher_source_ids(vs@);
    let mut out: Vec<Voucher> = Vec::new();
    let mut i: usize = 0;
    while i < vs.len()
        invariant
            i <= vs.len(),
            start + vs.len() <= i64::MAX,
            start >= 0,
            ids == voucher_source_ids(vs@),
            first_repeat(ids.take(i as int)) is None,
            out@ == canonical_vouchers(vs@.take(i as int), start as int),
        decreases vs.len() - i,
    {
        let v = &vs[i];
        assert(ids.take(i + 1).drop_last() =~= ids.take(i as int));
        assert(ids.take(i + 1).last() == v.source_id);
        match voucher_seen(vs, i, v.source_id) {
            Some(j) => {
                assert(ids.take(i as int)[j as int] == v.source_id);
                assert(ids.take(i as int).contains(v.source_id));
                proof {
                    lemma_first_repeat_prefix(ids, i + 1, vs.len() as int);
                    assert(ids.take(vs.len() as int) =~= ids);
                }
                return Err(ImportError::DuplicateSourceVoucher { source_id: v.source_id });
            },
            None => {
                assert(!ids.take(i as int).contains(v.source_id)) by {
                    if ids.take(i as int).contains(v.source_id) {
                        let k = choose|k: int| 0 <= k < i && ids.take(i as int)[k] == v.source_id;
                        assert(vs@[k].source_id == v.source_id);
                    }
                }
            },
        }
        let id = start + i as i64;
        out.push(Voucher { id, source_id: Some(v.source_id), date: v.date.clone(), text: clone_text(&v.text) });
        assert(out@ =~= canonical_vouchers(vs@.take(i + 1), start as int));
        i += 1;
    }
    assert(vs@.take(vs.len() as int) =~= vs@);
    assert(ids.take(vs.len() as int) =~= ids);
    Ok(out)
}

/// Postings with canonical ids from `pstart`, each referring to the canonical
/// id of its voucher, or the first posting problem.
fn assign_posting_ids(ps: &[SourcePosting], vs: &[SourceVoucher], pstart: i64, vstart: i64) -> (r: Result<Vec<Posting>, ImportError>)
    requires
        pstart + ps.len() <= i64::MAX,
        pstart >= 0,
        vstart + vs.len() <= i64::MAX,
        vstart >= 0,
        first_repeat(voucher_source_ids(vs@)) is None,
    ensures
        match posting_problem(ps@, vs@) {
            Some(e) => r == Err::<Vec<Posting>, ImportError>(e),
            None => r matches Ok(out) && out@ == canonical_postings(ps@, vs@, pstart as int, vstart as int),
        },
{
    proof {
        lemma_first_repeat_none(voucher_source_ids(vs@));
    }
    let mut out: Vec<Posting> = Vec::new();
    let mut i: usize = 0;
    while i < ps.len()
        invariant
            i <= ps.len(),
            pstart + ps.len() <= i64::MAX,
            pstart >= 0,
            vstart + vs.len() <= i64::MAX,
            vstart >= 0,
            forall|a: int, b: int| 0 <= a < b < vs@.len() ==> voucher_source_ids(vs@)[a] != voucher_source_ids(vs@)[b],
            posting_problem(ps@.take(i as int), vs@) is None,
            out@ == canonical_postings(ps@.take(i as int), vs@, pstart as int, vstart as int),
        decreases ps.len() - i,
    {
        let p = &ps[i];
        assert(ps@.take(i + 1).drop_last() =~= ps@.take(i as int));
        assert(ps@.take(i + 1).last() == *p);
        if posting_seen(ps, i, p.source_id) {
            proof {
                lemma_posting_problem_prefix(ps@, vs@, i + 1, ps.len() as int);
                assert(ps@.take(ps.len() as int) =~= ps@);
            }
            return Err(ImportError::DuplicateSourcePosting { source_id: p.source_id });
        }
        let j = match voucher_seen(vs, vs.len(), p.source_voucher_id) {
            Some(j) => j,
            None => {
                assert(!voucher_source_ids(vs@).contains(p.source_voucher_id)) by {
                    if voucher_source_ids(vs@).contains(p.source_voucher_id) {
                        let k = choose|k: int| 0 <= k < vs@.len() && voucher_source_ids(vs@)[k] == p.source_voucher_id;
                        assert(vs@[k].source_id == p.source_voucher_id);
                    }
                }
                proof {
                    lemma_posting_problem_prefix(ps@, vs@, i + 1, ps.len() as int);
                    assert(ps@.take(ps.len() as int) =~= ps@);
                }
                return Err(ImportError::MissingVoucher { source_voucher_id: p.source_voucher_id });
            },
        };
        assert(voucher_source_ids(vs@)[j as int] == p.source_voucher_id);
        assert(voucher_source_ids(vs@).contains(p.source_voucher_id));
        proof {
            let k = voucher_index(vs@, p.source_voucher_id);
            assert(0 <= k < vs@.len() && vs@[k].source_id == p.source_voucher_id);
            if k != j {
                if k < j {
                    assert(voucher_source_ids(vs@)[k] != voucher_source_ids(vs@)[j as int]);
                } else {
                    assert(voucher_source_ids(vs@)[j as int] != voucher_source_ids(vs@)[k]);
                }
            }
        }
        let id = pstart + i as i64;
        let voucher_id = vstart + j as i64;
        out.push(Posting {
            id,
            source_id: Some(p.source_id),
            voucher_id,
            account: p.account,
            amount: p.amount,
            text: clone_text(&p.text),
        });
        assert(out@ =~= canonical_postings(ps@.take(i + 1), vs@, pstart as int, vstart as int));
        i += 1;
    }
    assert(ps@.take(ps.len() as int) =~= ps@);
    Ok(out)
}

/// Check one source year against a set and assign its canonical ids.
///
/// The year must be new to the set. The canonical id cursors are first raised
/// to the source high-water marks (so that on the first import into an empty
/// set the source numbering seeds them), then one block of ids is reserved
/// for the vouchers and one for the postings. Source ids must not repeat,
/// every posting must name a voucher of the year, and every voucher must
/// balance exactly. The returned manifest is the one the set has once the
/// year is written; nothing is changed when a check fails.
pub fn plan_import(manifest: &SetManifest, src: SourceYear) -> (r: Result<ImportPlan, ImportError>)
    ensures
        match import_precheck(*manifest, src) {
            Some(e) => r == Err::<ImportPlan, ImportError>(e),
            None => {
                let vstart = voucher_start(*manifest, src) as int;
                let pstart = posting_start(*manifest, src) as int;
                let cv = canonical_vouchers(src.vouchers@, vstart);
                let cp = canonical_postings(src.postings@, src.vouchers@, pstart, vstart);
                match r {
                    Ok(plan) => {
                        &&& all_balanced(cv, cp)
                        &&& plan.year == src.year
                        &&& plan.accounts == src.accounts
                        &&& plan.vouchers@ == cv
                        &&& plan.postings@ == cp
                        &&& plan.voucher_start == vstart
                        &&& plan.posting_start == pstart
                        &&& plan.voucher_start >= manifest.next_voucher_id && plan.voucher_start >= src.next_source_voucher_id
                        &&& plan.posting_start >= manifest.next_posting_id && plan.posting_start >= src.next_source_posting_id
                        &&& plan.manifest.label == manifest.label
                        &&& plan.manifest.next_voucher_id == vstart + src.vouchers@.len()
                        &&& plan.manifest.next_posting_id == pstart + src.postings@.len()
                        &&& ascending(plan.manifest.years@)
                        &&& plan.manifest.years@.to_multiset() == manifest.years@.push(src.year).to_multiset()
                    },
                    Err(e) => is_balance_failure(e, cv, cp),
                }
            },
        },
{
    if contains_year(manifest.years.as_slice(), src.year) {
        return Err(ImportError::YearAlreadyImported { year: src.year });
    }
    let vstart = if manifest.next_voucher_id < src.next_source_voucher_id {
        src.next_source_voucher_id
    } else {
        manifest.next_voucher_id
    };
    let pstart = if manifest.next_posting_id < src.next_source_posting_id {
        src.next_source_posting_id
    } else {
        manifest.next_posting_id
    };
    let mut draft = SetManifest {
        label: manifest.label.clone(),
        next_voucher_id: vstart,
        next_posting_id: pstart,
        years: manifest.years.clone(),
    };
    assert(draft.years@ =~= manifest.years@);
    let voucher_count = count_as_i64("voucher", src.vouchers.len())?;
    let posting_count = count_as_i64("posting", src.postings.len())?;
    let voucher_ids = match draft.alloc_voucher_ids(voucher_count) {
        Ok(ids) => ids,
        Err(e) => {
            return Err(ImportError::IdAllocation { source: e });
        },
    };
    let posting_ids = match draft.alloc_posting_ids(posting_count) {
        Ok(ids) => ids,
        Err(e) => {
            return Err(ImportError::IdAllocation { source: e });
        },
    };
    let vouchers = assign_voucher_ids(src.vouchers.as_slice(), voucher_ids.start)?;
    let postings = assign_posting_ids(src.postings.as_slice(), src.vouchers.as_slice(), posting_ids.start, voucher_ids.start)?;
    let violations = match voucher_balance_violations(vouchers.as_slice(), postings.as_slice()) {
        Ok(v) => v,
        Err(e) => {
            return Err(import_balance_error(e));
        },
    };
    if violations.len() > 0 {
        let v = &violations[0];
        proof {
            let cv = vouchers@;
            let cp = postings@;
            assert forall|id: i64| has_voucher(cv, id) && id < v.voucher_id implies !is_violation(cp, id) by {
                if is_violation(cp, id) {
                    let k = choose|k: int| 0 <= k < violations@.len() && #[trigger] violations@[k].voucher_id == id;
                    if k > 0 {
                        assert(violations@[0].voucher_id < violations@[k].voucher_id);
                    }
                }
            }
        }
        return Err(ImportError::Unbalanced { voucher: v.voucher_id, posting_count: v.posting_count, minor_sum: v.minor_sum });
    }
    proof {
        assert forall|id: i64| has_voucher(vouchers@, id) implies fits_i64(#[trigger] voucher_sum(postings@, id))
            && !is_violation(postings@, id) by {
            if is_violation(postings@, id) {
                let k = choose|k: int| 0 <= k < violations@.len() && #[trigger] violations@[k].voucher_id == id;
            }
        }
    }
    let mut years = draft.years;
    years.push(src.year);
    sort_years(&mut years);
    let manifest_after = SetManifest {
        label: draft.label,
        next_voucher_id: draft.next_voucher_id,
        next_posting_id: draft.next_posting_id,
        years,
    };
    Ok(ImportPlan {
        year: src.year,
        accounts: src.accounts,
        vouchers,
        postings,
        voucher_start: voucher_ids.start,
        posting_start: posting_ids.start,
        manifest: manifest_after,
    })
}

/// An import that fails leaves the set as it was: the plan is the only thing
/// an import produces, and it is produced only when every check passes.
/// Importing a year that the set already holds always fails.
pub proof fn lemma_reimport_is_refused(m: SetManifest, s: SourceYear)
    requires
        m.years@.contains(s.year),
    ensures
        import_precheck(m, s) == Some(ImportError::YearAlreadyImported { year: s.year }),
{
}

/// What an import failure says, for people.
pub open spec fn import_error_text(e: ImportError) -> Seq<char> {
    match e {
        ImportError::Store { message } => "ledger storage failure: "@ + message@,
        ImportError::YearAlreadyImported { year } => "ledger year "@ + signed_decimal(year as int) + " is already imported"@,
        ImportError::DuplicateSourceVoucher { source_id } => "duplicate source voucher id "@ + signed_decimal(source_id as int),
        ImportError::DuplicateSourcePosting { source_id } => "duplicate source posting id "@ + signed_decimal(source_id as int),
        ImportError::MissingVoucher { source_voucher_id } => "missing source voucher id "@ + signed_decimal(
            source_voucher_id as int,
        ),
        ImportError::Unbalanced { voucher, posting_count, minor_sum } => "voucher "@ + signed_decimal(voucher as int)
            + " has "@ + signed_decimal(posting_count as int) + " postings and is unbalanced by "@ + signed_decimal(
            minor_sum as int,
        ) + " minor units"@,
        ImportError::BalanceOverflow { voucher } => "voucher "@ + signed_decimal(voucher as int) + " balance overflows minor units"@,
        ImportError::IdCountOverflow { row_kind, count } => row_kind@ + " row count "@ + signed_decimal(count as int)
            + " cannot fit in i64"@,
        ImportError::IdAllocation { source } => "id allocation failed: "@ + id_allocation_text(source),
    }
}

impl ImportError {
    /// What went wrong, for people.
    pub fn message(&self) -> (r: String)
        ensures
            r@ == import_error_text(*self),
    {
        let mut out: Vec<char> = Vec::new();
        match self {
            ImportError::Store { message } => {
                push_str(&mut out, "ledger storage failure: ");
                push_str(&mut out, message.as_str());
            },
            ImportError::YearAlreadyImported { year } => {
                push_str(&mut out, "ledger year ");
                push_int(&mut out, *year as i128);
                push_str(&mut out, " is already imported");
            },
            ImportError::DuplicateSourceVoucher { source_id } => {
                push_str(&mut out, "duplicate source voucher id ");
                push_int(&mut out, *source_id as i128);
            },
            ImportError::DuplicateSourcePosting { source_id } => {
                push_str(&mut out, "duplicate source posting id ");
                push_int(&mut out, *source_id as i128);
            },
            ImportError::MissingVoucher { source_voucher_id } => {
                push_str(&mut out, "missing source voucher id ");
                push_int(&mut out, *source_voucher_id as i128);
            },
            ImportError::Unbalanced { voucher, posting_count, minor_sum } => {
                push_str(&mut out, "voucher ");
                push_int(&mut out, *voucher as i128);
                push_str(&mut out, " has ");
                push_int(&mut out, *posting_count as i128);
                push_str(&mut out, " postings and is unbalanced by ");
                push_int(&mut out, *minor_sum as i128);
                push_str(&mut out, " minor units");
            },
            ImportError::BalanceOverflow { voucher } => {
                push_str(&mut out, "voucher ");
                push_int(&mut out, *voucher as i128);
                push_str(&mut out, " balance overflows minor units");
            },
            ImportError::IdCountOverflow { row_kind, count } => {
                push_str(&mut out, row_kind);
                push_str(&mut out, " row count ");
                push_int(&mut out, *count as i128);
                push_str(&mut out, " cannot fit in i64");
            },
            ImportError::IdAllocation { source } => {
                push_str(&mut out, "id allocation failed: ");
                let m = source.message();
                push_str(&mut out, m.as_str());
            },
        }
        string_from_chars(out.as_slice())
    }
}

} // verus!
