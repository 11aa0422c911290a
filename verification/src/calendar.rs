//! ISO calendar dates: their text form, and their conversion to and from
//! Unix time through the `time` crate.
use vstd::prelude::*;

use crate::text::{
    char_of_digit, chars_of, decimal, decimal_chars, digit_char, first_index, has_char,
    lemma_decimal_digits, lemma_first_index, parse_int_chars, parse_int_in, split_on,
    string_from_chars, zero_padded,
};

verus! {

/// Whether `y` is a leap year of the proleptic Gregorian calendar.
pub open spec fn is_leap_year(y: int) -> bool {
    y % 4 == 0 && (y % 100 != 0 || y % 400 == 0)
}

/// Number of days in month `m` (1-based) of year `y`.
pub open spec fn days_in_month(y: int, m: int) -> int {
    if m == 2 {
        if is_leap_year(y) {
            29
        } else {
            28
        }
    } else if m == 4 || m == 6 || m == 9 || m == 11 {
        30
    } else {
        31
    }
}

/// Whether year, month and day name a date that the `time` crate accepts:
/// years -9999 through 9999 of the proleptic Gregorian calendar.
pub open spec fn valid_calendar_date(y: int, m: int, d: int) -> bool {
    &&& -9999 <= y <= 9999
    &&& 1 <= m <= 12
    &&& 1 <= d <= days_in_month(y, m)
}

/// Days from 1 January of year 1 to 1 January of year `y` (negative before),
/// proleptic Gregorian calendar.
pub open spec fn days_before_year(y: int) -> int {
    365 * (y - 1) + (y - 1) / 4 - (y - 1) / 100 + (y - 1) / 400
}

/// Days from 1 January to the first of month `m` of year `y`.
pub open spec fn days_before_month(y: int, m: int) -> int
    decreases m,
{
    if m <= 1 {
        0
    } else {
        days_before_month(y, m - 1) + days_in_month(y, m - 1)
    }
}

/// Days from 1970-01-01 to the date `y-m-d` (negative before).
pub open spec fn days_from_epoch(y: int, m: int, d: int) -> int {
    days_before_year(y) - days_before_year(1970) + days_before_month(y, m) + d - 1
}

/// The calendar date (in UTC) of the instant `seconds` after the Unix epoch:
/// the valid date whose day, counted from 1970-01-01, holds the instant;
/// `None` where no valid date does (outside years -9999 through 9999).
pub closed spec fn calendar_date_of_unix_seconds(seconds: int) -> Option<(int, int, int)> {
    if exists|t: (int, int, int)| valid_calendar_date(t.0, t.1, t.2) && #[trigger] days_from_epoch(t.0, t.1, t.2)
        == seconds / 86400 {
        Some(
            choose|t: (int, int, int)| valid_calendar_date(t.0, t.1, t.2) && #[trigger] days_from_epoch(t.0, t.1, t.2)
                == seconds / 86400,
        )
    } else {
        None
    }
}

/// The Unix time, in seconds, of midnight UTC at the start of a calendar date.
pub closed spec fn unix_seconds_of_civil_date(y: int, m: int, d: int) -> int {
    days_from_epoch(y, m, d) * 86400
}

/// `time::OffsetDateTime::from_unix_timestamp` followed by `date()`: the UTC
/// calendar date of a Unix time. Claims that the result is the date that
/// `calendar_date_of_unix_seconds` gives, a valid one, and that `None` comes
/// exactly when that gives none.
#[verifier::external_body]
pub(crate) fn civil_date_from_unix_seconds(seconds: i64) -> (r: Option<(i32, u8, u8)>)
    ensures
        r matches Some(t) ==> calendar_date_of_unix_seconds(seconds as int) == Some(
            (t.0 as int, t.1 as int, t.2 as int),
        ) && valid_calendar_date(t.0 as int, t.1 as int, t.2 as int),
        r is None ==> calendar_date_of_unix_seconds(seconds as int) is None,
{
    match time::OffsetDateTime::from_unix_timestamp(seconds) {
        Ok(instant) => {
            let date = instant.date();
            Some((date.year(), u8::from(date.month()), date.day()))
        },
        Err(_) => None,
    }
}

/// `time::Month::try_from`, `time::Date::from_calendar_date`, `midnight`,
/// `assume_utc` and `unix_timestamp`: the Unix time of midnight UTC on a date.
/// Claims that a value comes exactly for valid dates, that it is
/// `unix_seconds_of_civil_date` of the date, that the date of that instant is
/// the same date again, and that it lies within the range the crate's years
/// -9999..=9999 span.
#[verifier::external_body]
pub(crate) fn unix_seconds_of_calendar_date(year: i32, month: u8, day: u8) -> (r: Option<i64>)
    ensures
        r is Some <==> valid_calendar_date(year as int, month as int, day as int),
        r matches Some(s) ==> s == unix_seconds_of_civil_date(year as int, month as int, day as int)
            && calendar_date_of_unix_seconds(s as int) == Some(
            (year as int, month as int, day as int),
        ) && -400_000_000_000 <= s <= 400_000_000_000,
{
    let month = match time::Month::try_from(month) {
        Ok(month) => month,
        Err(_) => return None,
    };
    match time::Date::from_calendar_date(year, month, day) {
        Ok(date) => Some(date.midnight().assume_utc().unix_timestamp()),
        Err(_) => None,
    }
}

/// The `YYYY-MM-DD` text of a date: the year zero-padded to four places
/// (three after a minus sign), month and day to two.
pub open spec fn date_text(y: int, m: int, d: int) -> Seq<char> {
    let year = if y < 0 {
        seq!['-'] + zero_padded((-y) as nat, 3)
    } else {
        zero_padded(y as nat, 4)
    };
    year + seq!['-'] + zero_padded(m as nat, 2) + seq!['-'] + zero_padded(d as nat, 2)
}

/// The date that `YYYY-MM-DD` style text names: three `-` separated parts, an
/// `i32` year and `u8` month and day, each in Rust's integer syntax.
pub open spec fn date_of_text(s: Seq<char>) -> Option<(int, int, int)> {
    let parts = split_on(s, '-');
    if parts.len() != 3 {
        None
    } else {
        match (
            parse_int_in(parts[0], i32::MIN as int, i32::MAX as int),
            parse_int_in(parts[1], 0, 255),
            parse_int_in(parts[2], 0, 255),
        ) {
            (Some(y), Some(m), Some(d)) => Some((y, m, d)),
            _ => None,
        }
    }
}

/// Zero-padded decimal digits of `n`.
pub(crate) fn padded_chars(n: u64, width: usize) -> (r: Vec<char>)
    requires
        width <= 20,
    ensures
        r@ == zero_padded(n as nat, width as nat),
{
    let digits = decimal_chars(n as u128);
    let mut out: Vec<char> = Vec::new();
    if digits.len() < width {
        let pad = width - digits.len();
        let mut i: usize = 0;
        while i < pad
            invariant
                i <= pad,
                out@ == Seq::new(i as nat, |k: int| '0'),
            decreases pad - i,
        {
            out.push('0');
            assert(out@ =~= Seq::new((i + 1) as nat, |k: int| '0'));
            i += 1;
        }
    }
    let ghost prefix = out@;
    let mut j: usize = 0;
    while j < digits.len()
        invariant
            j <= digits.len(),
            out@ == prefix + digits@.take(j as int),
        decreases digits.len() - j,
    {
        out.push(digits[j]);
        assert(digits@.take(j + 1) =~= digits@.take(j as int).push(digits@[j as int]));
        j += 1;
    }
    assert(digits@.take(digits.len() as int) =~= digits@);
    proof {
        if digits.len() >= width {
            assert(out@ =~= zero_padded(n as nat, width as nat));
        } else {
            assert(out@ =~= zero_padded(n as nat, width as nat));
        }
    }
    out
}

fn push_all(out: &mut Vec<char>, more: &Vec<char>)
    ensures
        final(out)@ == old(out)@ + more@,
{
    let mut i: usize = 0;
    let ghost start = out@;
    while i < more.len()
        invariant
            i <= more.len(),
            out@ == start + more@.take(i as int),
        decreases more.len() - i,
    {
        out.push(more[i]);
        assert(more@.take(i + 1) =~= more@.take(i as int).push(more@[i as int]));
        i += 1;
    }
    assert(more@.take(more.len() as int) =~= more@);
}

/// The `YYYY-MM-DD` text of a date.
pub fn format_date(year: i32, month: u8, day: u8) -> (r: String)
    ensures
        r@ == date_text(year as int, month as int, day as int),
{
    let mut out: Vec<char> = Vec::new();
    if year < 0 {
        out.push('-');
        let magnitude = (0i64 - year as i64) as u64;
        let digits = padded_chars(magnitude, 3);
        push_all(&mut out, &digits);
    } else {
        let digits = padded_chars(year as u64, 4);
        push_all(&mut out, &digits);
    }
    out.push('-');
    let m = padded_chars(month as u64, 2);
    push_all(&mut out, &m);
    out.push('-');
    let d = padded_chars(day as u64, 2);
    push_all(&mut out, &d);
    proof {
        assert(out@ =~= date_text(year as int, month as int, day as int));
    }
    string_from_chars(out.as_slice())
}

/// Index of the next `-` at or after `from`, or the end.
fn next_dash(v: &[char], from: usize) -> (r: usize)
    requires
        from <= v.len(),
    ensures
        from <= r <= v.len(),
        r < v.len() ==> v@[r as int] == '-',
        forall|j: int| from <= j < r ==> v@[j] != '-',
{
    let mut i = from;
    while i < v.len()
        invariant
            from <= i <= v.len(),
            forall|j: int| from <= j < i ==> v@[j] != '-',
        decreases v.len() - i,
    {
        if v[i] == '-' {
            return i;
        }
        i += 1;
    }
    i
}

fn sub_chars(v: &[char], from: usize, to: usize) -> (r: Vec<char>)
    requires
        from <= to <= v.len(),
    ensures
        r@ == v@.subrange(from as int, to as int),
{
    let mut r: Vec<char> = Vec::new();
    let mut i = from;
    while i < to
        invariant
            from <= i <= to <= v.len(),
            r@ == v@.subrange(from as int, i as int),
        decreases to - i,
    {
        r.push(v[i]);
        assert(r@ =~= v@.subrange(from as int, i + 1));
        i += 1;
    }
    r
}

/// `split_on` of a text with no separator in `[from, k)` and one at `k`.
proof fn lemma_split_step(s: Seq<char>, from: int, k: int)
    requires
        0 <= from <= k < s.len(),
        s[k] == '-',
        forall|j: int| from <= j < k ==> s[j] != '-',
    ensures
        split_on(s.skip(from), '-') == seq![s.subrange(from, k)] + split_on(s.skip(k + 1), '-'),
{
    let t = s.skip(from);
    assert(t[k - from] == '-');
    assert(has_char(t, '-'));
    lemma_first_index(t, '-');
    let f = first_index(t, '-');
    assert(t[f] == s[from + f]);
    assert(!(f < k - from)) by {
        if f < k - from {
            assert(s[from + f] != '-');
        }
    }
    assert(!(f > k - from));
    assert(t.take(k - from) =~= s.subrange(from, k));
    assert(t.skip(k - from + 1) =~= s.skip(k + 1));
}

proof fn lemma_split_last(s: Seq<char>, from: int)
    requires
        0 <= from <= s.len(),
        forall|j: int| from <= j < s.len() ==> s[j] != '-',
    ensures
        split_on(s.skip(from), '-') == seq![s.skip(from)],
{
    let t = s.skip(from);
    if has_char(t, '-') {
        let w = choose|i: int| 0 <= i < t.len() && t[i] == '-';
        assert(t[w] == s[from + w]);
    }
}

/// The date named by `YYYY-MM-DD` style text, when the text has that shape.
pub fn parse_date(value: &str) -> (r: Option<(i32, u8, u8)>)
    ensures
        r matches Some(t) ==> date_of_text(value@) == Some((t.0 as int, t.1 as int, t.2 as int)),
        r is None ==> date_of_text(value@) is None,
{
    let cs = chars_of(value);
    let ghost s = cs@;
    let a = next_dash(cs.as_slice(), 0);
    if a == cs.len() {
        proof {
            lemma_split_last(s, 0);
            assert(s.skip(0) =~= s);
        }
        return None;
    }
    let b = next_dash(cs.as_slice(), a + 1);
    if b == cs.len() {
        proof {
            lemma_split_step(s, 0, a as int);
            lemma_split_last(s, a + 1);
            assert(s.skip(0) =~= s);
        }
        return None;
    }
    let c = next_dash(cs.as_slice(), b + 1);
    proof {
        lemma_split_step(s, 0, a as int);
        lemma_split_step(s, a + 1, b as int);
        assert(s.skip(0) =~= s);
    }
    if c < cs.len() {
        proof {
            lemma_split_step(s, b + 1, c as int);
            crate::text::lemma_split_on_len(s.skip(c + 1), '-');
            assert(split_on(s, '-').len() > 3);
        }
        return None;
    }
    proof {
        lemma_split_last(s, b + 1);
        assert(split_on(s, '-') =~= seq![
            s.subrange(0, a as int),
            s.subrange(a + 1, b as int),
            s.skip(b + 1),
        ]);
        assert(s.skip(b + 1) =~= s.subrange(b + 1, s.len() as int));
    }
    let year_text = sub_chars(cs.as_slice(), 0, a);
    let month_text = sub_chars(cs.as_slice(), a + 1, b);
    let day_text = sub_chars(cs.as_slice(), b + 1, cs.len());
    let year = parse_int_chars(year_text.as_slice(), i32::MIN as i64, i32::MAX as i64);
    let month = parse_int_chars(month_text.as_slice(), 0, 255);
    let day = parse_int_chars(day_text.as_slice(), 0, 255);
    match (year, month, day) {
        (Some(y), Some(m), Some(d)) => Some((y as i32, m as u8, d as u8)),
        _ => None,
    }
}

/// The digits of a zero-padded number read back as that number.
pub proof fn lemma_zero_padded_value(n: nat, width: nat)
    ensures
        crate::text::all_digits(zero_padded(n, width)),
        crate::text::digits_value(zero_padded(n, width)) == n,
        zero_padded(n, width).len() >= 1,
        !has_char(zero_padded(n, width), '-'),
        zero_padded(n, width)[0] != '+' && zero_padded(n, width)[0] != '-',
{
    lemma_decimal_digits(n);
    let d = decimal(n);
    if d.len() < width {
        let pad = Seq::new((width - d.len()) as nat, |i: int| '0');
        lemma_leading_zeros(pad, d);
    }
    let z = zero_padded(n, width);
    assert forall|i: int| 0 <= i < z.len() implies z[i] != '-' by {
        assert(crate::text::is_digit(z[i]));
    }
}

proof fn lemma_zeros_value(pad: Seq<char>)
    requires
        forall|i: int| 0 <= i < pad.len() ==> pad[i] == '0',
    ensures
        crate::text::digits_value(pad) == 0,
        crate::text::all_digits(pad),
    decreases pad.len(),
{
    if pad.len() > 0 {
        lemma_zeros_value(pad.drop_last());
    }
    assert forall|i: int| 0 <= i < pad.len() implies #[trigger] crate::text::is_digit(pad[i]) by {
        assert(pad[i] == '0');
    }
}

proof fn lemma_leading_zeros(pad: Seq<char>, d: Seq<char>)
    requires
        forall|i: int| 0 <= i < pad.len() ==> pad[i] == '0',
        crate::text::all_digits(d),
    ensures
        crate::text::all_digits(pad + d),
        crate::text::digits_value(pad + d) == crate::text::digits_value(d),
    decreases d.len(),
{
    lemma_zeros_value(pad);
    if d.len() == 0 {
        assert(pad + d =~= pad);
    } else {
        assert(crate::text::is_digit(d[d.len() - 1]));
        assert(crate::text::all_digits(d.drop_last())) by {
            assert forall|i: int| 0 <= i < d.drop_last().len() implies #[trigger] crate::text::is_digit(
                d.drop_last()[i],
            ) by {
                assert(d.drop_last()[i] == d[i]);
            }
        }
        lemma_leading_zeros(pad, d.drop_last());
        assert((pad + d).drop_last() =~= pad + d.drop_last());
        assert((pad + d).last() == d.last());
    }
    assert forall|i: int| 0 <= i < (pad + d).len() implies #[trigger] crate::text::is_digit(
        (pad + d)[i],
    ) by {
        if i < pad.len() {
            assert((pad + d)[i] == pad[i]);
        } else {
            assert((pad + d)[i] == d[i - pad.len()]);
        }
    }
}

/// Splitting at `-` text that begins with a `-`-free piece and a `-` gives
/// that piece, then the pieces of the rest.
proof fn lemma_split_piece(a: Seq<char>, rest: Seq<char>)
    requires
        !has_char(a, '-'),
    ensures
        split_on(a + seq!['-'] + rest, '-') == seq![a] + split_on(rest, '-'),
{
    let s = a + seq!['-'] + rest;
    assert(s[a.len() as int] == '-');
    assert(has_char(s, '-'));
    crate::text::lemma_first_index(s, '-');
    let k = crate::text::first_index(s, '-');
    assert(k == a.len()) by {
        if k < a.len() {
            assert(s[k] == a[k]);
        }
        if k > a.len() {
            assert(s[a.len() as int] != '-');
        }
    }
    assert(s.take(k) =~= a);
    assert(s.skip(k + 1) =~= rest);
}

/// A zero-padded number reads back as that number.
proof fn lemma_zero_padded_parses(n: nat, width: nat, lo: int, hi: int)
    requires
        lo <= n <= hi,
    ensures
        parse_int_in(zero_padded(n, width), lo, hi) == Some(n as int),
{
    lemma_zero_padded_value(n, width);
}

/// Formatting a date and reading the text back gives the date again, for
/// every year from zero up (a negative year's text has a leading `-` that the
/// reading takes for a separator).
pub proof fn lemma_date_text_round_trip(y: int, m: int, d: int)
    requires
        0 <= y <= i32::MAX,
        0 <= m <= 255,
        0 <= d <= 255,
    ensures
        date_of_text(date_text(y, m, d)) == Some((y, m, d)),
{
    let a = zero_padded(y as nat, 4);
    let b = zero_padded(m as nat, 2);
    let c = zero_padded(d as nat, 2);
    lemma_zero_padded_value(y as nat, 4);
    lemma_zero_padded_value(m as nat, 2);
    lemma_zero_padded_value(d as nat, 2);
    assert(date_text(y, m, d) =~= a + seq!['-'] + (b + seq!['-'] + c));
    lemma_split_piece(a, b + seq!['-'] + c);
    lemma_split_piece(b, c);
    assert(split_on(c, '-') == seq![c]);
    assert(split_on(date_text(y, m, d), '-') =~= seq![a, b, c]);
    lemma_zero_padded_parses(y as nat, 4, i32::MIN as int, i32::MAX as int);
    lemma_zero_padded_parses(m as nat, 2, 0, 255);
    lemma_zero_padded_parses(d as nat, 2, 0, 255);
}

} // verus!
