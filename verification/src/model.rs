//! Ledger records and exact fixed-decimal amount handling.
use vstd::prelude::*;

use crate::text::{
    all_digits, char_of_digit, chars_of, decimal, decimal_chars, digit_char, digit_value, digits_up_to,
    digits_value, first_index, has_char, is_all_digits, is_digit, lemma_decimal_digits, lemma_first_index,
    lemma_split_on_len, lemma_utf8_len_at_least_chars, split_on, string_from_chars, utf8_len, utf8_len_exceeds, value_of_digit, zero_padded,
};

verus! {

broadcast use vstd::string::group_string_axioms;

/// Exact money as a signed count of minor units (hundredths). "1234.56" -> 123456.
#[derive(Clone, Copy, Debug, PartialEq, Eq, Structural, PartialOrd, Ord, Default)]
pub struct Amount(pub i64);

/// A year-local account (the "konto" row). Numbers are not stable across years;
/// SRU codes bridge years for reporting.
#[derive(Clone, Debug, PartialEq)]
pub struct Account {
    /// Account number from the source year.
    pub number: i64,
    /// Account name.
    pub name: String,
    /// Optional account note.
    pub note: Option<String>,
    /// SRU code used for positive balances.
    pub sru_plus: Option<i32>,
    /// SRU code used for negative balances.
    pub sru_minus: Option<i32>,
}

/// The text of an optional string.
pub open spec fn opt_text(t: Option<String>) -> Option<Seq<char>> {
    match t {
        Some(s) => Some(s@),
        None => None,
    }
}

/// What an account states.
pub struct AccountView {
    /// Account number.
    pub number: i64,
    /// Account name.
    pub name: Seq<char>,
    /// Optional note.
    pub note: Option<Seq<char>>,
    /// SRU code for positive balances.
    pub sru_plus: Option<i32>,
    /// SRU code for negative balances.
    pub sru_minus: Option<i32>,
}

impl View for Account {
    type V = AccountView;

    open spec fn view(&self) -> AccountView {
        AccountView {
            number: self.number,
            name: self.name@,
            note: opt_text(self.note),
            sru_plus: self.sru_plus,
            sru_minus: self.sru_minus,
        }
    }
}

/// A voucher / verifikation (the "ver" row).
#[derive(Clone, Debug, PartialEq)]
pub struct Voucher {
    /// Canonical id, monotonic across years.
    pub id: i64,
    /// Source voucher id, kept for audit.
    pub source_id: Option<i64>,
    /// ISO-8601 date string.
    pub date: String,
    /// Optional voucher text.
    pub text: Option<String>,
}

/// A posting / transaction line (the "trans" row).
#[derive(Clone, Debug, PartialEq)]
pub struct Posting {
    /// Canonical id, monotonic across years.
    pub id: i64,
    /// Source posting id, kept for audit.
    pub source_id: Option<i64>,
    /// Voucher id this posting belongs to.
    pub voucher_id: i64,
    /// Year-local account number.
    pub account: i64,
    /// Signed posting amount.
    pub amount: Amount,
    /// Optional posting text.
    pub text: Option<String>,
}

/// A whole year, ready to persist or imported for further processing.
#[derive(Clone, Debug, Default, PartialEq)]
pub struct YearData {
    /// Ledger year.
    pub year: i32,
    /// Year-local accounts.
    pub accounts: Vec<Account>,
    /// Vouchers for the year.
    pub vouchers: Vec<Voucher>,
    /// Posting lines for the year.
    pub postings: Vec<Posting>,
}

/// A voucher whose posting lines do not satisfy double-entry balance.
#[derive(Clone, Debug, PartialEq, Eq, Structural)]
pub struct VoucherBalanceViolation {
    /// Canonical voucher id.
    pub voucher_id: i64,
    /// Number of posting lines attached to the voucher.
    pub posting_count: usize,
    /// Signed minor-unit sum for the voucher.
    pub minor_sum: i64,
}

/// Failure while checking exact voucher balances.
#[derive(Clone, Debug, PartialEq, Eq, Structural)]
pub enum BalanceError {
    /// A voucher's posting sum overflowed the supported minor-unit range.
    SumOverflow {
        /// Canonical voucher id.
        voucher_id: i64,
    },
}

// ---------------------------------------------------------------------------
// Amount text

/// What parsing a fixed two-decimal amount text yields: the minor-unit value,
/// or the message that names the first rule the text breaks.
pub open spec fn amount_text_result(s: Seq<char>) -> Result<int, Seq<char>> {
    if s.len() == 0 {
        Err("amount is empty"@)
    } else if s[0] == '-' && s.len() == 1 {
        Err("amount has no digits"@)
    } else {
        let negative = s[0] == '-';
        let unsigned = if negative { s.skip(1) } else { s };
        if unsigned[0] == '+' {
            Err("amount must not include an explicit plus sign"@)
        } else {
            let parts = split_on(unsigned, '.');
            if parts.len() > 2 {
                Err("amount has more than one decimal point"@)
            } else {
                let whole = parts[0];
                let w = digits_value(whole) as int;
                if whole.len() == 0 || !all_digits(whole) {
                    Err("amount whole part must contain digits only"@)
                } else if w > i64::MAX {
                    Err("amount whole part overflows i64"@)
                } else if w * 100 > i64::MAX {
                    Err("amount overflows i64 minor units"@)
                } else if parts.len() == 1 {
                    Ok(if negative { -(w * 100) } else { w * 100 })
                } else {
                    let fraction = parts[1];
                    if fraction.len() == 0 {
                        Err("amount fractional part is empty"@)
                    } else if utf8_len(fraction) > 2 {
                        Err("amount has more than two fractional digits"@)
                    } else if !all_digits(fraction) {
                        Err("amount fractional part must contain digits only"@)
                    } else {
                        let cents = if fraction.len() == 1 {
                            (digits_value(fraction) * 10) as int
                        } else {
                            digits_value(fraction) as int
                        };
                        if w * 100 + cents > i64::MAX {
                            Err("amount overflows i64 minor units"@)
                        } else {
                            Ok(if negative { -(w * 100 + cents) } else { w * 100 + cents })
                        }
                    }
                }
            }
        }
    }
}

/// The two-decimal text of a minor-unit amount: an optional `-`, the whole
/// units, a point, and exactly two fractional digits.
pub open spec fn amount_text(a: i64) -> Seq<char> {
    let m: int = if a < 0 { -a } else { a as int };
    (if a < 0 { seq!['-'] } else { Seq::<char>::empty() }) + decimal((m / 100) as nat) + seq!['.']
        + zero_padded((m % 100) as nat, 2)
}

/// Two-digit spelling of a number below one hundred.
pub proof fn lemma_two_digits(n: nat)
    requires
        n < 100,
    ensures
        zero_padded(n, 2) == seq![digit_char(n / 10), digit_char(n % 10)],
{
    if n < 10 {
        assert(decimal(n) == seq![digit_char(n)]);
        assert(digit_char(0) == '0');
        assert(zero_padded(n, 2) =~= seq![digit_char(n / 10), digit_char(n % 10)]);
    } else {
        assert(decimal(n / 10) == seq![digit_char(n / 10)]);
        assert(decimal(n) =~= seq![digit_char(n / 10), digit_char(n % 10)]);
    }
}

proof fn lemma_first_index_at(s: Seq<char>, c: char, k: int)
    requires
        0 <= k < s.len(),
        s[k] == c,
        forall|j: int| 0 <= j < k ==> s[j] != c,
    ensures
        has_char(s, c),
        first_index(s, c) == k,
{
    lemma_first_index(s, c);
    let f = first_index(s, c);
    assert(!(f < k));
    assert(!(k < f));
}

/// Splitting `x.y` on the point when neither side holds a point.
proof fn lemma_split_single(x: Seq<char>, y: Seq<char>)
    requires
        !has_char(x, '.'),
        !has_char(y, '.'),
    ensures
        split_on(x + seq!['.'] + y, '.') == seq![x, y],
{
    let s = x + seq!['.'] + y;
    assert forall|j: int| 0 <= j < x.len() implies s[j] != '.' by {
        assert(s[j] == x[j]);
        if x[j] == '.' {
            assert(has_char(x, '.'));
        }
    }
    lemma_first_index_at(s, '.', x.len() as int);
    assert(s.take(x.len() as int) =~= x);
    assert(s.skip(x.len() as int + 1) =~= y);
    assert(split_on(y, '.') == seq![y]);
    assert(split_on(s, '.') =~= seq![x, y]);
}

/// The fixed two-decimal amount pattern `-?[0-9]+(\.[0-9]{1,2})?`: for text
/// of that shape, its unsigned value in minor units (one fractional digit
/// counts tens of hundredths); `None` for any other text.
pub open spec fn amount_pattern_value(s: Seq<char>) -> Option<int> {
    let u = if s.len() > 0 && s[0] == '-' { s.skip(1) } else { s };
    if has_char(u, '.') {
        let k = first_index(u, '.');
        let w = u.take(k);
        let f = u.skip(k + 1);
        if w.len() > 0 && all_digits(w) && 1 <= f.len() <= 2 && all_digits(f) {
            Some(100 * (digits_value(w) as int) + if f.len() == 1 { 10 * (digits_value(f) as int) } else { digits_value(f) as int })
        } else {
            None
        }
    } else if u.len() > 0 && all_digits(u) {
        Some(100 * (digits_value(u) as int))
    } else {
        None
    }
}

/// An amount parses exactly when its text has the fixed two-decimal shape
/// and its value fits in `i64` minor units; it then parses to that value,
/// negated after a leading `-`.
pub proof fn lemma_amount_parse_pattern(s: Seq<char>)
    ensures
        amount_text_result(s) is Ok <==> (amount_pattern_value(s) matches Some(v) && v <= i64::MAX),
        amount_text_result(s) matches Ok(x) ==> x == if s[0] == '-' {
            -amount_pattern_value(s)->Some_0
        } else {
            amount_pattern_value(s)->Some_0
        },
{
    if s.len() == 0 {
        assert(!has_char(s, '.'));
        return;
    }
    let negative = s[0] == '-';
    let u = if negative { s.skip(1) } else { s };
    if negative && s.len() == 1 {
        assert(u.len() == 0);
        assert(!has_char(u, '.'));
        return;
    }
    assert(u.len() > 0);
    if has_char(u, '.') {
        lemma_first_index(u, '.');
        let k = first_index(u, '.');
        let w = u.take(k);
        let f = u.skip(k + 1);
        assert(split_on(u, '.') == seq![w] + split_on(f, '.'));
        lemma_split_on_len(f, '.');
        if u[0] == '+' && k > 0 {
            assert(w[0] == '+');
            assert(!is_digit(w[0]));
        }
        if has_char(f, '.') {
            let j = choose|j: int| 0 <= j < f.len() && f[j] == '.';
            assert(!is_digit(f[j]));
            lemma_first_index(f, '.');
            lemma_split_on_len(f.skip(first_index(f, '.') + 1), '.');
            assert(split_on(f, '.').len() >= 2);
        } else {
            assert(split_on(f, '.') == seq![f]);
            assert(split_on(u, '.') =~= seq![w, f]);
            if all_digits(f) {
                crate::text::lemma_digits_utf8_len(f);
            }
            lemma_utf8_len_at_least_chars(f);
        }
    } else {
        assert(split_on(u, '.') == seq![u]);
        if u[0] == '+' {
            assert(!is_digit(u[0]));
        }
    }
}

/// Formatting then parsing an amount gives the amount back, for every amount
/// except the most negative one, whose magnitude has no i64 minor-unit form.
pub proof fn lemma_amount_text_round_trip(a: i64)
    requires
        a != i64::MIN,
    ensures
        amount_text_result(amount_text(a)) == Ok::<int, Seq<char>>(a as int),
{
    let m: int = if a < 0 { -a } else { a as int };
    let q = (m / 100) as nat;
    let r = (m % 100) as nat;
    lemma_decimal_digits(q);
    lemma_two_digits(r);
    let whole = decimal(q);
    let two = seq![digit_char(r / 10), digit_char(r % 10)];
    assert(is_digit(digit_char(r / 10))) by {
        assert(digit_value(digit_char(r / 10)) == r / 10);
    }
    assert(is_digit(digit_char(r % 10)));
    assert(all_digits(two));
    crate::text::lemma_digits_utf8_len(two);
    assert(!has_char(two, '.')) by {
        if has_char(two, '.') {
            let w = choose|i: int| 0 <= i < two.len() && two[i] == '.';
            assert(is_digit(two[w]));
        }
    }
    let unsigned = whole + seq!['.'] + two;
    lemma_split_single(whole, two);
    assert(two.drop_last() =~= seq![digit_char(r / 10)]);
    assert(seq![digit_char(r / 10)].drop_last() =~= Seq::<char>::empty());
    assert(digits_value(two) == r) by {
        assert(digits_value(Seq::<char>::empty()) == 0);
        assert(digits_value(seq![digit_char(r / 10)]) == r / 10);
        assert(digit_value(digit_char(r % 10)) == r % 10);
        assert(digit_value(digit_char(r / 10)) == r / 10);
    }
    assert(unsigned[0] == whole[0]);
    let s = amount_text(a);
    if a < 0 {
        assert(s =~= seq!['-'] + unsigned);
        assert(s.skip(1) =~= unsigned);
    } else {
        assert(s =~= unsigned);
    }
}

fn fail<T>(message: &str) -> (r: Result<T, String>)
    ensures
        r matches Err(e) && e@ == message@,
{
    Err(message.to_owned())
}

/// First index at or after `from` where `c` occurs.
fn find_char(v: &[char], from: usize, c: char) -> (r: Option<usize>)
    requires
        from <= v.len(),
    ensures
        r matches Some(i) ==> from <= i < v.len() && v@[i as int] == c && forall|j: int|
            from <= j < i ==> v@[j] != c,
        r is None ==> forall|j: int| from <= j < v.len() ==> v@[j] != c,
{
    let mut i = from;
    while i < v.len()
        invariant
            from <= i <= v.len(),
            forall|j: int| from <= j < i ==> v@[j] != c,
        decreases v.len() - i,
    {
        if v[i] == c {
            return Some(i);
        }
        i += 1;
    }
    None
}

impl Amount {
    /// Parse a fixed two-decimal string such as "1234.56", "-7.00", or "42".
    pub fn parse(s: &str) -> (r: Result<Amount, String>)
        ensures
            match amount_text_result(s@) {
                Ok(v) => r matches Ok(a) && a.0 == v,
                Err(m) => r matches Err(e) && e@ == m,
            },
    {
        let cs = chars_of(s);
        let ghost sv = s@;
        if cs.len() == 0 {
            return fail("amount is empty");
        }
        let negative = cs[0] == '-';
        if negative && cs.len() == 1 {
            return fail("amount has no digits");
        }
        let start: usize = if negative { 1 } else { 0 };
        let ghost unsigned = if negative { sv.skip(1) } else { sv };
        assert(unsigned =~= cs@.skip(start as int));
        if cs[start] == '+' {
            return fail("amount must not include an explicit plus sign");
        }
        let first_dot = find_char(cs.as_slice(), start, '.');
        let whole_end: usize = match first_dot {
            Some(k) => k,
            None => cs.len(),
        };
        let mut second_dot: Option<usize> = None;
        if let Some(k) = first_dot {
            second_dot = find_char(cs.as_slice(), k + 1, '.');
        }
        proof {
            match first_dot {
                None => {
                    assert forall|j: int| 0 <= j < unsigned.len() implies unsigned[j] != '.' by {
                        assert(unsigned[j] == cs@[start + j]);
                    }
                    assert(split_on(unsigned, '.') == seq![unsigned]);
                },
                Some(k) => {
                    assert forall|j: int| 0 <= j < k - start implies unsigned[j] != '.' by {
                        assert(unsigned[j] == cs@[start + j]);
                    }
                    lemma_first_index_at(unsigned, '.', k - start);
                    let rest = unsigned.skip(k - start + 1);
                    assert(rest =~= cs@.skip(k + 1));
                    assert(unsigned.take(k - start) =~= cs@.subrange(start as int, k as int));
                    match second_dot {
                        None => {
                            assert forall|j: int| 0 <= j < rest.len() implies rest[j] != '.' by {
                                assert(rest[j] == cs@[k + 1 + j]);
                            }
                            assert(split_on(rest, '.') == seq![rest]);
                            assert(split_on(unsigned, '.') =~= seq![
                                cs@.subrange(start as int, k as int),
                                rest,
                            ]);
                        },
                        Some(k2) => {
                            assert(rest[k2 - k - 1] == '.');
                            assert(has_char(rest, '.'));
                            lemma_split_on_len(rest.skip(first_index(rest, '.') + 1), '.');
                            lemma_first_index(rest, '.');
                            assert(split_on(rest, '.').len() >= 2);
                            assert(split_on(unsigned, '.').len() > 2);
                        },
                    }
                },
            }
        }
        if second_dot.is_some() {
            return fail("amount has more than one decimal point");
        }
        let whole = slice_of(cs.as_slice(), start, whole_end);
        assert(whole@ == split_on(unsigned, '.')[0]);
        if whole.len() == 0 || !is_all_digits(whole.as_slice()) {
            return fail("amount whole part must contain digits only");
        }
        let w = match digits_up_to(whole.as_slice(), 0x7fff_ffff_ffff_ffff) {
            Some(w) => w,
            None => {
                return fail("amount whole part overflows i64");
            },
        };
        if w > 92_233_720_368_547_758 {
            return fail("amount overflows i64 minor units");
        }
        let mut minor: i64 = (w as i64) * 100;
        if let Some(k) = first_dot {
            let fraction = slice_of(cs.as_slice(), k + 1, cs.len());
            assert(fraction@ == split_on(unsigned, '.')[1]);
            if fraction.len() == 0 {
                return fail("amount fractional part is empty");
            }
            if utf8_len_exceeds(fraction.as_slice(), 2) {
                return fail("amount has more than two fractional digits");
            }
            proof {
                lemma_utf8_len_at_least_chars(fraction@);
            }
            if !is_all_digits(fraction.as_slice()) {
                return fail("amount fractional part must contain digits only");
            }
            let cents: i64 = if fraction.len() == 1 {
                assert(fraction@.drop_last() =~= Seq::<char>::empty());
                assert(digits_value(Seq::<char>::empty()) == 0);
                assert(is_digit(fraction@[0]));
                assert(fraction@.last() == fraction@[0]);
                assert(digits_value(fraction@) == digit_value(fraction@[0]));
                (value_of_digit(fraction[0]) as i64) * 10
            } else {
                assert(fraction@.drop_last() =~= seq![fraction@[0]]);
                assert(seq![fraction@[0]].drop_last() =~= Seq::<char>::empty());
                assert(digits_value(Seq::<char>::empty()) == 0);
                assert(is_digit(fraction@[0]));
                assert(is_digit(fraction@[1]));
                assert(fraction@.last() == fraction@[1]);
                assert(seq![fraction@[0]].last() == fraction@[0]);
                assert(digits_value(seq![fraction@[0]]) == digit_value(fraction@[0]));
                assert(digits_value(fraction@) == digit_value(fraction@[0]) * 10 + digit_value(fraction@[1]));
                (value_of_digit(fraction[0]) as i64) * 10 + (value_of_digit(fraction[1]) as i64)
            };
            if minor > 0x7fff_ffff_ffff_ffff - cents {
                return fail("amount overflows i64 minor units");
            }
            minor = minor + cents;
        }
        if negative {
            minor = -minor;
        }
        Ok(Amount(minor))
    }

    /// Format this amount with exactly two fractional digits.
    pub fn to_decimal_string(self) -> (r: String)
        ensures
            r@ == amount_text(self.0),
    {
        let value = self.0 as i128;
        let magnitude: u128 = if value < 0 { (-value) as u128 } else { value as u128 };
        let mut out: Vec<char> = Vec::new();
        if value < 0 {
            out.push('-');
        }
        let whole = decimal_chars(magnitude / 100);
        let mut i: usize = 0;
        let ghost prefix = out@;
        while i < whole.len()
            invariant
                i <= whole.len(),
                out@ == prefix + whole@.take(i as int),
            decreases whole.len() - i,
        {
            out.push(whole[i]);
            assert(whole@.take(i + 1) =~= whole@.take(i as int).push(whole@[i as int]));
            i += 1;
        }
        assert(whole@.take(whole.len() as int) =~= whole@);
        out.push('.');
        let cents = (magnitude % 100) as u8;
        out.push(char_of_digit(cents / 10));
        out.push(char_of_digit(cents % 10));
        proof {
            lemma_two_digits(cents as nat);
            let m: int = if self.0 < 0 { -self.0 } else { self.0 as int };
            assert(magnitude == m);
            assert(out@ =~= amount_text(self.0));
        }
        string_from_chars(out.as_slice())
    }
}

// ---------------------------------------------------------------------------
// Balance checks

/// Sum of all posting amounts, in minor units.
pub open spec fn amounts_sum(ps: Seq<Posting>) -> int
    decreases ps.len(),
{
    if ps.len() == 0 {
        0
    } else {
        amounts_sum(ps.drop_last()) + ps.last().amount.0
    }
}

/// Sum of the amounts of the postings that belong to voucher `id`.
pub open spec fn voucher_sum(ps: Seq<Posting>, id: i64) -> int
    decreases ps.len(),
{
    if ps.len() == 0 {
        0
    } else {
        voucher_sum(ps.drop_last(), id) + if ps.last().voucher_id == id {
            ps.last().amount.0 as int
        } else {
            0
        }
    }
}

/// Number of postings that belong to voucher `id`.
pub open spec fn voucher_count(ps: Seq<Posting>, id: i64) -> nat
    decreases ps.len(),
{
    if ps.len() == 0 {
        0
    } else {
        voucher_count(ps.drop_last(), id) + if ps.last().voucher_id == id {
            1nat
        } else {
            0nat
        }
    }
}

/// Whether `x` fits in an `i64`.
pub open spec fn fits_i64(x: int) -> bool {
    i64::MIN <= x <= i64::MAX
}

/// Whether voucher `id` breaks double entry: no postings, or a nonzero sum.
pub open spec fn is_violation(ps: Seq<Posting>, id: i64) -> bool {
    voucher_count(ps, id) == 0 || voucher_sum(ps, id) != 0
}

/// Whether some voucher in `vs` has id `id`.
pub open spec fn has_voucher(vs: Seq<Voucher>, id: i64) -> bool {
    exists|i: int| 0 <= i < vs.len() && vs[i].id == id
}

/// `out` lists, in strictly ascending voucher id, exactly the vouchers of `vs`
/// that break double entry, each with its posting count and sum.
pub open spec fn is_violation_listing(
    out: Seq<VoucherBalanceViolation>,
    vs: Seq<Voucher>,
    ps: Seq<Posting>,
) -> bool {
    &&& forall|i: int, j: int| 0 <= i < j < out.len() ==> out[i].voucher_id < out[j].voucher_id
    &&& forall|i: int|
        0 <= i < out.len() ==> {
            let v = #[trigger] out[i];
            &&& has_voucher(vs, v.voucher_id)
            &&& is_violation(ps, v.voucher_id)
            &&& v.posting_count == voucher_count(ps, v.voucher_id)
            &&& v.minor_sum == voucher_sum(ps, v.voucher_id)
        }
    &&& forall|id: i64|
        has_voucher(vs, id) && is_violation(ps, id) ==> exists|i: int|
            0 <= i < out.len() && #[trigger] out[i].voucher_id == id
}

proof fn lemma_voucher_sum_bound(ps: Seq<Posting>, id: i64)
    ensures
        -(voucher_count(ps, id) as int) * 0x8000_0000_0000_0000 <= voucher_sum(ps, id)
            <= (voucher_count(ps, id) as int) * 0x8000_0000_0000_0000,
        voucher_count(ps, id) <= ps.len(),
    decreases ps.len(),
{
    if ps.len() > 0 {
        lemma_voucher_sum_bound(ps.drop_last(), id);
    }
}

/// Sum and count of the postings of one voucher.
fn voucher_totals(voucher_id: i64, postings: &[Posting]) -> (r: (usize, i128))
    ensures
        r.0 == voucher_count(postings@, voucher_id),
        r.1 == voucher_sum(postings@, voucher_id),
{
    let mut count: usize = 0;
    let mut sum: i128 = 0;
    let mut i: usize = 0;
    while i < postings.len()
        invariant
            i <= postings.len(),
            count == voucher_count(postings@.take(i as int), voucher_id),
            sum == voucher_sum(postings@.take(i as int), voucher_id),
        decreases postings.len() - i,
    {
        proof {
            lemma_voucher_sum_bound(postings@.take(i as int), voucher_id);
            assert(postings@.take(i + 1).drop_last() =~= postings@.take(i as int));
        }
        if postings[i].voucher_id == voucher_id {
            count += 1;
            sum += postings[i].amount.0 as i128;
        }
        i += 1;
    }
    assert(postings@.take(postings.len() as int) =~= postings@);
    (count, sum)
}

/// Aggregate posting sum check. This is not a voucher-level invariant check.
pub fn is_balanced(postings: &[Posting]) -> (r: bool)
    ensures
        r == (amounts_sum(postings@) == 0),
{
    let mut sum: i128 = 0;
    let mut i: usize = 0;
    while i < postings.len()
        invariant
            i <= postings.len(),
            sum == amounts_sum(postings@.take(i as int)),
            -(i as int) * 0x8000_0000_0000_0000 <= sum <= (i as int) * 0x8000_0000_0000_0000,
        decreases postings.len() - i,
    {
        assert(postings@.take(i + 1).drop_last() =~= postings@.take(i as int));
        sum += postings[i].amount.0 as i128;
        i += 1;
    }
    assert(postings@.take(postings.len() as int) =~= postings@);
    sum == 0
}

/// Return whether one voucher has at least one posting and sums to zero.
pub fn is_voucher_balanced(voucher_id: i64, postings: &[Posting]) -> (r: Result<bool, BalanceError>)
    ensures
        fits_i64(voucher_sum(postings@, voucher_id)) ==> r == Ok::<bool, BalanceError>(
            voucher_count(postings@, voucher_id) > 0 && voucher_sum(postings@, voucher_id) == 0,
        ),
        !fits_i64(voucher_sum(postings@, voucher_id)) ==> r == Err::<bool, BalanceError>(
            BalanceError::SumOverflow { voucher_id },
        ),
{
    let (count, sum) = voucher_totals(voucher_id, postings);
    let minor_sum = checked_minor_sum(voucher_id, sum)?;
    Ok(count > 0 && minor_sum == 0)
}

fn checked_minor_sum(voucher_id: i64, minor_sum: i128) -> (r: Result<i64, BalanceError>)
    ensures
        fits_i64(minor_sum as int) ==> r == Ok::<i64, BalanceError>(minor_sum as i64),
        !fits_i64(minor_sum as int) ==> r == Err::<i64, BalanceError>(
            BalanceError::SumOverflow { voucher_id },
        ),
{
    if minor_sum < i64::MIN as i128 || minor_sum > i64::MAX as i128 {
        Err(BalanceError::SumOverflow { voucher_id })
    } else {
        Ok(minor_sum as i64)
    }
}

/// Whether `id` lies above `bound` (every id lies above `None`).
pub open spec fn above(bound: Option<i64>, id: i64) -> bool {
    match bound {
        Some(b) => b < id,
        None => true,
    }
}

/// The smallest voucher id greater than `bound` (all ids when `bound` is `None`).
fn min_voucher_id_above(vouchers: &[Voucher], bound: Option<i64>) -> (r: Option<i64>)
    ensures
        r matches Some(m) ==> has_voucher(vouchers@, m) && above(bound, m) && forall|i: int|
            0 <= i < vouchers.len() && above(bound, #[trigger] vouchers@[i].id) ==> m
                <= vouchers@[i].id,
        r is None ==> forall|i: int|
            0 <= i < vouchers.len() ==> !above(bound, #[trigger] vouchers@[i].id),
{
    let mut best: Option<i64> = None;
    let mut i: usize = 0;
    while i < vouchers.len()
        invariant
            i <= vouchers.len(),
            best matches Some(m) ==> has_voucher(vouchers@, m) && above(bound, m) && forall|j: int|
                0 <= j < i && above(bound, #[trigger] vouchers@[j].id) ==> m <= vouchers@[j].id,
            best is None ==> forall|j: int| 0 <= j < i ==> !above(bound, #[trigger] vouchers@[j].id),
        decreases vouchers.len() - i,
    {
        let id = vouchers[i].id;
        let is_above = match bound {
            Some(b) => b < id,
            None => true,
        };
        assert(vouchers@[i as int].id == id);
        if is_above {
            match best {
                Some(m) => {
                    if id < m {
                        best = Some(id);
                    }
                },
                None => {
                    best = Some(id);
                },
            }
        }
        i += 1;
    }
    best
}

/// Report every voucher with no postings or a nonzero posting sum.
pub fn voucher_balance_violations(vouchers: &[Voucher], postings: &[Posting]) -> (r: Result<
    Vec<VoucherBalanceViolation>,
    BalanceError,
>)
    ensures
        match r {
            Ok(out) => is_violation_listing(out@, vouchers@, postings@) && forall|id: i64|
                has_voucher(vouchers@, id) ==> fits_i64(#[trigger] voucher_sum(postings@, id)),
            Err(BalanceError::SumOverflow { voucher_id }) => has_voucher(vouchers@, voucher_id)
                && !fits_i64(voucher_sum(postings@, voucher_id)) && forall|id: i64|
                has_voucher(vouchers@, id) && id < voucher_id ==> fits_i64(
                    #[trigger] voucher_sum(postings@, id),
                ),
        },
{
    let mut out: Vec<VoucherBalanceViolation> = Vec::new();
    let mut last: Option<i64> = None;
    loop
        invariant
            forall|i: int| 0 <= i < out.len() ==> !above(last, #[trigger] out@[i].voucher_id),
            forall|i: int, j: int| 0 <= i < j < out.len() ==> out@[i].voucher_id < out@[j].voucher_id,
            forall|i: int|
                0 <= i < out.len() ==> {
                    let v = #[trigger] out@[i];
                    &&& has_voucher(vouchers@, v.voucher_id)
                    &&& is_violation(postings@, v.voucher_id)
                    &&& v.posting_count == voucher_count(postings@, v.voucher_id)
                    &&& v.minor_sum == voucher_sum(postings@, v.voucher_id)
                },
            forall|id: i64|
                has_voucher(vouchers@, id) && !above(last, id) ==> fits_i64(
                    #[trigger] voucher_sum(postings@, id),
                ),
            forall|id: i64|
                #![trigger has_voucher(vouchers@, id)]
                has_voucher(vouchers@, id) && !above(last, id) && is_violation(postings@, id)
                    ==> exists|i: int| 0 <= i < out.len() && #[trigger] out@[i].voucher_id == id,
        decreases (match last {
            Some(l) => i64::MAX - l,
            None => i64::MAX - i64::MIN + 1,
        }),
    {
        let next = min_voucher_id_above(vouchers, last);
        match next {
            None => {
                proof {
                    assert forall|id: i64| has_voucher(vouchers@, id) implies !above(last, id) by {
                        let w = choose|i: int| 0 <= i < vouchers.len() && vouchers@[i].id == id;
                        assert(!above(last, vouchers@[w].id));
                    }
                    assert forall|id: i64|
                        has_voucher(vouchers@, id) && is_violation(postings@, id) implies exists|
                        i: int,
                    | 0 <= i < out.len() && #[trigger] out@[i].voucher_id == id by {
                        let w = choose|i: int| 0 <= i < vouchers.len() && vouchers@[i].id == id;
                        assert(!above(last, vouchers@[w].id));
                        assert(voucher_sum(postings@, id) == voucher_sum(postings@, id));
                    }
                    assert forall|id: i64| has_voucher(vouchers@, id) implies fits_i64(
                        #[trigger] voucher_sum(postings@, id),
                    ) by {
                        assert(!above(last, id));
                    }
                }
                return Ok(out);
            },
            Some(id) => {
                let (count, sum) = voucher_totals(id, postings);
                let minor_sum = match checked_minor_sum(id, sum) {
                    Ok(v) => v,
                    Err(e) => {
                        proof {
                            assert forall|other: i64|
                                has_voucher(vouchers@, other) && other < id implies fits_i64(
                                #[trigger] voucher_sum(postings@, other),
                            ) by {
                                let w = choose|i: int|
                                    0 <= i < vouchers.len() && vouchers@[i].id == other;
                                assert(vouchers@[w].id == other);
                                assert(!above(last, other));
                            }
                        }
                        return Err(e);
                    },
                };
                let ghost prev = out@;
                if count == 0 || minor_sum != 0 {
                    out.push(
                        VoucherBalanceViolation { voucher_id: id, posting_count: count, minor_sum },
                    );
                }
                proof {
                    let nl = Some(id);
                    assert forall|i: int| 0 <= i < out.len() implies !above(
                        nl,
                        #[trigger] out@[i].voucher_id,
                    ) by {
                        if i < prev.len() {
                            assert(out@[i] == prev[i]);
                            assert(!above(last, prev[i].voucher_id));
                        }
                    }
                    assert forall|other: i64|
                        has_voucher(vouchers@, other) && !above(nl, other) implies fits_i64(
                        #[trigger] voucher_sum(postings@, other),
                    ) by {
                        if other != id {
                            let w = choose|i: int|
                                0 <= i < vouchers.len() && vouchers@[i].id == other;
                            assert(vouchers@[w].id == other);
                            assert(!above(last, other));
                        }
                    }
                    assert forall|other: i64|
                        #![trigger has_voucher(vouchers@, other)]
                        has_voucher(vouchers@, other) && !above(nl, other) && is_violation(
                            postings@,
                            other,
                        ) implies exists|i: int|
                        0 <= i < out.len() && #[trigger] out@[i].voucher_id == other by {
                        if other == id {
                            assert(out@[out.len() - 1].voucher_id == id);
                        } else {
                            let w = choose|i: int|
                                0 <= i < vouchers.len() && vouchers@[i].id == other;
                            assert(vouchers@[w].id == other);
                            assert(!above(last, other));
                            assert(voucher_sum(postings@, other) == voucher_sum(postings@, other));
                            assert(has_voucher(vouchers@, other));
                            assert(is_violation(postings@, other));
                            assert(exists|i: int|
                                0 <= i < prev.len() && #[trigger] prev[i].voucher_id == other);
                            let k = choose|i: int|
                                0 <= i < prev.len() && #[trigger] prev[i].voucher_id == other;
                            assert(out@[k] == prev[k]);
                        }
                    }
                }
                last = Some(id);
            },
        }
    }
}

/// The characters `v[from..to]` as a new vector.
pub(crate) fn slice_of(v: &[char], from: usize, to: usize) -> (r: Vec<char>)
    requires
        from <= to <= v.len(),
    ensures
        r@ == v@.subrange(from as int, to as int),
{
    let mut r: Vec<char> = Vec::new();
    let mut i = from;
    while i < to
        invariant
            from <= i <= to <= v.len(),
            r@ == v@.subrange(from as int, i as int),
        decreases to - i,
    {
        r.push(v[i]);
        assert(r@ =~= v@.subrange(from as int, i + 1));
        i += 1;
    }
    r
}

/// What a balance failure says, for people.
pub open spec fn balance_error_text(e: BalanceError) -> Seq<char> {
    match e {
        BalanceError::SumOverflow { voucher_id } => "voucher "@ + crate::text::signed_decimal(voucher_id as int)
            + " balance overflows minor units"@,
    }
}

impl BalanceError {
    /// What went wrong, for people.
    pub fn message(&self) -> (r: String)
        ensures
            r@ == balance_error_text(*self),
    {
        let mut out: Vec<char> = Vec::new();
        match self {
            BalanceError::SumOverflow { voucher_id } => {
                crate::text::push_str(&mut out, "voucher ");
                crate::text::push_int(&mut out, *voucher_id as i128);
                crate::text::push_str(&mut out, " balance overflows minor units");
            },
        }
        string_from_chars(out.as_slice())
    }
}

} // verus!
