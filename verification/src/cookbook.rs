//! Deterministic cookbook builders for ledger recipes.
use vstd::prelude::*;

use crate::model::{
    amount_text, amounts_sum, fits_i64, is_balanced, Account, Amount, Posting, Voucher, YearData,
};

verus! {

broadcast use vstd::string::group_string_axioms;

/// Account balance row produced by the balanced-year cookbook recipe.
#[derive(Clone, Debug, PartialEq, Eq)]
pub struct CookbookAccountBalance {
    /// Year-local account number.
    pub account: i64,
    /// Account name.
    pub name: String,
    /// Signed balance rendered with two decimal places.
    pub balance: String,
}

/// Report produced by the balanced-year cookbook recipe.
#[derive(Clone, Debug, PartialEq, Eq)]
pub struct BalancedYearDemo {
    /// Ledger year.
    pub year: i32,
    /// Number of modeled accounts.
    pub account_count: usize,
    /// Number of modeled vouchers.
    pub voucher_count: usize,
    /// Number of modeled posting lines.
    pub posting_count: usize,
    /// Whether the voucher posting lines sum to zero.
    pub balanced: bool,
    /// Per-account balances for the modeled year.
    pub balances: Vec<CookbookAccountBalance>,
}

/// Sum of the amounts of the postings on account `account`.
pub open spec fn account_sum(ps: Seq<Posting>, account: i64) -> int
    decreases ps.len(),
{
    if ps.len() == 0 {
        0
    } else {
        account_sum(ps.drop_last(), account) + if ps.last().account == account {
            ps.last().amount.0 as int
        } else {
            0
        }
    }
}

/// Whether `b` reports account `a` with its balance over `ps`.
pub open spec fn is_balance_of(b: CookbookAccountBalance, a: Account, ps: Seq<Posting>) -> bool {
    &&& b.account == a.number
    &&& b.name@ == a.name@
    &&& b.balance@ == amount_text(account_sum(ps, a.number) as i64)
}

fn text(s: &str) -> (r: String)
    ensures
        r@ == s@,
{
    s.to_owned()
}

/// The modeled year of the recipe: a bank account and a sales account, one
/// sale voucher and its two posting lines.
fn modeled_year() -> (y: YearData)
    ensures
        y.year == 2024,
        y.accounts@.len() == 2,
        y.vouchers@.len() == 1,
        y.postings@.len() == 2,
        y.accounts@[0].number == 1910 && y.accounts@[1].number == 3010,
        y.accounts@[0].name@ == seq!['B', 'a', 'n', 'k'],
        y.accounts@[1].name@ == seq!['S', 'a', 'l', 'e', 's'],
        y.postings@[0].account == 1910 && y.postings@[0].amount.0 == 12_500,
        y.postings@[1].account == 3010 && y.postings@[1].amount.0 == -12_500,
{
    proof {
        reveal_strlit("Bank");
        reveal_strlit("Sales");
    }
    let accounts = vec![
        Account { number: 1910, name: text("Bank"), note: None, sru_plus: Some(1000), sru_minus: None },
        Account { number: 3010, name: text("Sales"), note: None, sru_plus: None, sru_minus: Some(3000) },
    ];
    let vouchers = vec![
        Voucher { id: 1, source_id: Some(1), date: text("2024-01-31"), text: Some(text("Modeled sale")) },
    ];
    let postings = vec![
        Posting {
            id: 1,
            source_id: Some(1),
            voucher_id: 1,
            account: 1910,
            amount: Amount(12_500),
            text: Some(text("Debit bank")),
        },
        Posting {
            id: 2,
            source_id: Some(2),
            voucher_id: 1,
            account: 3010,
            amount: Amount(-12_500),
            text: Some(text("Credit sales")),
        },
    ];
    YearData { year: 2024, accounts, vouchers, postings }
}

proof fn lemma_account_sum_bound(ps: Seq<Posting>, account: i64)
    ensures
        -(ps.len() as int) * 0x8000_0000_0000_0000 <= account_sum(ps, account) <= (ps.len() as int) * 0x8000_0000_0000_0000,
    decreases ps.len(),
{
    if ps.len() > 0 {
        lemma_account_sum_bound(ps.drop_last(), account);
    }
}

/// The balance of every account of the year, in account order.
fn account_balances(year: &YearData) -> (r: Vec<CookbookAccountBalance>)
    requires
        forall|i: int| 0 <= i < year.accounts@.len() ==> fits_i64(account_sum(year.postings@, #[trigger] year.accounts@[i].number)),
    ensures
        r@.len() == year.accounts@.len(),
        forall|i: int| 0 <= i < r@.len() ==> is_balance_of(#[trigger] r@[i], year.accounts@[i], year.postings@),
{
    let mut out: Vec<CookbookAccountBalance> = Vec::new();
    let mut i: usize = 0;
    while i < year.accounts.len()
        invariant
            i <= year.accounts.len(),
            out@.len() == i,
            forall|k: int| 0 <= k < year.accounts@.len() ==> fits_i64(account_sum(year.postings@, #[trigger] year.accounts@[k].number)),
            forall|k: int| 0 <= k < i ==> is_balance_of(#[trigger] out@[k], year.accounts@[k], year.postings@),
        decreases year.accounts.len() - i,
    {
        let account = &year.accounts[i];
        let mut total: i128 = 0;
        let mut j: usize = 0;
        while j < year.postings.len()
            invariant
                j <= year.postings.len(),
                total == account_sum(year.postings@.take(j as int), account.number),
            decreases year.postings.len() - j,
        {
            proof {
                lemma_account_sum_bound(year.postings@.take(j as int), account.number);
                assert(year.postings@.take(j + 1).drop_last() =~= year.postings@.take(j as int));
            }
            if year.postings[j].account == account.number {
                total = total + year.postings[j].amount.0 as i128;
            }
            j += 1;
        }
        assert(year.postings@.take(year.postings.len() as int) =~= year.postings@);
        assert(fits_i64(account_sum(year.postings@, year.accounts@[i as int].number)));
        let balance = Amount(total as i64).to_decimal_string();
        out.push(CookbookAccountBalance { account: account.number, name: account.name.clone(), balance });
        i += 1;
    }
    out
}

/// Build the modeled balanced-year report used by the cookbook recipe:
/// two accounts, one voucher, two posting lines that sum to zero, and the
/// balance of each account.
pub fn balanced_year_demo() -> (d: BalancedYearDemo)
    ensures
        d.year == 2024,
        d.account_count == 2,
        d.voucher_count == 1,
        d.posting_count == 2,
        d.balanced,
        d.balances@.len() == 2,
        d.balances@[0].account == 1910 && d.balances@[0].balance@ == amount_text(12_500i64),
        d.balances@[0].name@ == seq!['B', 'a', 'n', 'k'],
        d.balances@[1].account == 3010 && d.balances@[1].balance@ == amount_text(-12_500i64),
        d.balances@[1].name@ == seq!['S', 'a', 'l', 'e', 's'],
{
    let year = modeled_year();
    proof {
        let ps = year.postings@;
        assert(ps.drop_last().drop_last() =~= Seq::<Posting>::empty());
        assert(ps.drop_last().last() == ps[0]);
        assert(account_sum(ps.drop_last().drop_last(), 1910) == 0);
        assert(account_sum(ps.drop_last().drop_last(), 3010) == 0);
        assert(amounts_sum(ps.drop_last().drop_last()) == 0);
        assert(account_sum(ps.drop_last(), 1910) == 12_500);
        assert(account_sum(ps.drop_last(), 3010) == 0);
        assert(account_sum(ps, 1910) == 12_500);
        assert(account_sum(ps, 3010) == -12_500);
        assert(amounts_sum(ps.drop_last()) == 12_500);
        assert(amounts_sum(ps) == 0);
    }
    let balances = account_balances(&year);
    let balanced = is_balanced(year.postings.as_slice());
    assert(is_balance_of(balances@[0], year.accounts@[0], year.postings@));
    assert(is_balance_of(balances@[1], year.accounts@[1], year.postings@));
    BalancedYearDemo {
        year: year.year,
        account_count: year.accounts.len(),
        voucher_count: year.vouchers.len(),
        posting_count: year.postings.len(),
        balanced,
        balances,
    }
}

} // verus!
