//! Character-level helpers shared by the parsers and formatters.
use vstd::prelude::*;
use vstd::string::StrSliceExecFns;
use vstd::utf8::{decode_utf8, valid_utf8};

verus! {

broadcast use vstd::string::group_string_axioms;

/// Numeric value of an ASCII decimal digit.
pub open spec fn digit_value(c: char) -> int {
    (c as int) - ('0' as int)
}

/// Whether `c` is an ASCII decimal digit.
pub open spec fn is_digit(c: char) -> bool {
    '0' <= c && c <= '9'
}

/// Whether every character of `s` is an ASCII decimal digit.
pub open spec fn all_digits(s: Seq<char>) -> bool {
    forall|i: int| 0 <= i < s.len() ==> #[trigger] is_digit(s[i])
}

/// How many bytes UTF-8 takes for `c`.
pub open spec fn utf8_width(c: char) -> nat {
    if (c as u32) < 0x80 {
        1
    } else if (c as u32) < 0x800 {
        2
    } else if (c as u32) < 0x1_0000 {
        3
    } else {
        4
    }
}

/// How many bytes UTF-8 takes for `s`: the byte length of a `str`.
pub open spec fn utf8_len(s: Seq<char>) -> nat
    decreases s.len(),
{
    if s.len() == 0 {
        0
    } else {
        utf8_len(s.drop_last()) + utf8_width(s.last())
    }
}

/// A text takes at least one byte per character.
pub proof fn lemma_utf8_len_at_least_chars(s: Seq<char>)
    ensures
        utf8_len(s) >= s.len(),
    decreases s.len(),
{
    if s.len() > 0 {
        lemma_utf8_len_at_least_chars(s.drop_last());
    }
}

/// Decimal digits take one byte each.
pub proof fn lemma_digits_utf8_len(s: Seq<char>)
    requires
        all_digits(s),
    ensures
        utf8_len(s) == s.len(),
    decreases s.len(),
{
    if s.len() > 0 {
        assert(all_digits(s.drop_last())) by {
            assert forall|i: int| 0 <= i < s.drop_last().len() implies #[trigger] is_digit(s.drop_last()[i]) by {
                assert(is_digit(s[i]));
            }
        }
        assert(is_digit(s[s.len() - 1]));
        lemma_digits_utf8_len(s.drop_last());
    }
}

/// Whether `s` takes more than `n` bytes in UTF-8.
pub(crate) fn utf8_len_exceeds(s: &[char], n: usize) -> (r: bool)
    ensures
        r == (utf8_len(s@) > n),
{
    let mut total: usize = 0;
    let mut i: usize = 0;
    while i < s.len()
        invariant
            i <= s.len(),
            total == utf8_len(s@.take(i as int)),
            total <= n,
        decreases s.len() - i,
    {
        assert(s@.take(i + 1).drop_last() =~= s@.take(i as int));
        let c = s[i];
        let width: usize = if (c as u32) < 0x80 {
            1
        } else if (c as u32) < 0x800 {
            2
        } else if (c as u32) < 0x1_0000 {
            3
        } else {
            4
        };
        if width > n - total {
            proof {
                lemma_utf8_len_prefix_grows(s@, i + 1);
            }
            return true;
        }
        total = total + width;
        i += 1;
    }
    assert(s@.take(s.len() as int) =~= s@);
    false
}

proof fn lemma_utf8_len_prefix_grows(s: Seq<char>, k: int)
    requires
        0 <= k <= s.len(),
    ensures
        utf8_len(s.take(k)) <= utf8_len(s),
    decreases s.len() - k,
{
    if k < s.len() {
        lemma_utf8_len_prefix_grows(s, k + 1);
        assert(s.take(k + 1).drop_last() =~= s.take(k));
    } else {
        assert(s.take(k) =~= s);
    }
}

/// The value of a string of decimal digits, read most significant first.
pub open spec fn digits_value(s: Seq<char>) -> nat
    decreases s.len(),
{
    if s.len() == 0 {
        0
    } else {
        (digits_value(s.drop_last()) * 10 + digit_value(s.last())) as nat
    }
}

/// The character for a decimal digit value.
pub open spec fn digit_char(d: nat) -> char {
    ((d + ('0' as int)) as u32) as char
}

/// The canonical decimal spelling of a natural number (no sign, no leading zeros).
pub open spec fn decimal(n: nat) -> Seq<char>
    decreases n,
{
    if n < 10 {
        seq![digit_char(n)]
    } else {
        decimal(n / 10).push(digit_char(n % 10))
    }
}

/// The canonical decimal spelling of an integer, with a leading `-` when negative.
pub open spec fn signed_decimal(n: int) -> Seq<char> {
    if n < 0 {
        seq!['-'] + decimal((-n) as nat)
    } else {
        decimal(n as nat)
    }
}

/// Decimal spelling of `n` left-padded with zeros to at least `width` characters.
pub open spec fn zero_padded(n: nat, width: nat) -> Seq<char> {
    let d = decimal(n);
    if d.len() >= width {
        d
    } else {
        Seq::new((width - d.len()) as nat, |i: int| '0') + d
    }
}

/// The integer denoted by `s` under the rules of Rust's `FromStr` for integers:
/// an optional `+` or `-` followed by at least one decimal digit.
pub open spec fn int_text_value(s: Seq<char>) -> Option<int> {
    if s.len() > 0 && (s[0] == '+' || s[0] == '-') {
        let rest = s.skip(1);
        if rest.len() > 0 && all_digits(rest) {
            Some(if s[0] == '-' { -(digits_value(rest) as int) } else { digits_value(rest) as int })
        } else {
            None
        }
    } else if s.len() > 0 && all_digits(s) {
        Some(digits_value(s) as int)
    } else {
        None
    }
}

/// The result of Rust's `FromStr` for an integer type whose values span
/// `[lo, hi]`; a type with no negative values refuses a leading `-` outright.
pub open spec fn parse_int_in(s: Seq<char>, lo: int, hi: int) -> Option<int> {
    if lo >= 0 && s.len() > 0 && s[0] == '-' {
        None
    } else {
        match int_text_value(s) {
            Some(v) => if lo <= v <= hi { Some(v) } else { None },
            None => None,
        }
    }
}

/// Whether `s` contains the character `c`.
pub open spec fn has_char(s: Seq<char>, c: char) -> bool {
    exists|i: int| 0 <= i < s.len() && s[i] == c
}

/// Index of the first occurrence of `c` in `s` (only meaningful when present).
pub open spec fn first_index(s: Seq<char>, c: char) -> int
    decreases s.len(),
{
    if s.len() == 0 {
        0
    } else if s[0] == c {
        0
    } else {
        1 + first_index(s.skip(1), c)
    }
}

/// Splitting `s` at every `c`, as Rust's `str::split` does.
pub open spec fn split_on(s: Seq<char>, c: char) -> Seq<Seq<char>>
    decreases s.len(),
{
    if !has_char(s, c) {
        seq![s]
    } else {
        let k = first_index(s, c);
        proof {
            lemma_first_index(s, c);
        }
        seq![s.take(k)] + split_on(s.skip(k + 1), c)
    }
}

pub proof fn lemma_first_index(s: Seq<char>, c: char)
    requires
        has_char(s, c),
    ensures
        0 <= first_index(s, c) < s.len(),
        s[first_index(s, c)] == c,
        forall|j: int| 0 <= j < first_index(s, c) ==> s[j] != c,
    decreases s.len(),
{
    if s[0] != c {
        let w = choose|i: int| 0 <= i < s.len() && s[i] == c;
        assert(s.skip(1)[w - 1] == c);
        lemma_first_index(s.skip(1), c);
        assert forall|j: int| 0 <= j < first_index(s, c) implies s[j] != c by {
            if j > 0 {
                assert(s[j] == s.skip(1)[j - 1]);
            }
        }
    }
}

pub proof fn lemma_split_on_len(s: Seq<char>, c: char)
    ensures
        split_on(s, c).len() >= 1,
    decreases s.len(),
{
    if has_char(s, c) {
        lemma_first_index(s, c);
        lemma_split_on_len(s.skip(first_index(s, c) + 1), c);
    }
}

/// A digit string's value never falls when more digits follow.
pub proof fn lemma_digits_value_prefix(s: Seq<char>, k: int)
    requires
        0 <= k <= s.len(),
        all_digits(s),
    ensures
        digits_value(s.take(k)) <= digits_value(s),
    decreases s.len() - k,
{
    if k < s.len() {
        lemma_digits_value_prefix(s, k + 1);
        assert(s.take(k + 1).drop_last() =~= s.take(k));
        assert(is_digit(s[k]));
    } else {
        assert(s.take(k) =~= s);
    }
}

pub proof fn lemma_decimal_digits(n: nat)
    ensures
        all_digits(decimal(n)),
        decimal(n).len() >= 1,
        digits_value(decimal(n)) == n,
        decimal(n)[0] != '-' && decimal(n)[0] != '+' && decimal(n)[0] != '.',
        !has_char(decimal(n), '.'),
        n < 10 ==> decimal(n).len() == 1,
        n >= 10 ==> decimal(n).len() >= 2,
    decreases n,
{
    if n >= 10 {
        lemma_decimal_digits(n / 10);
        let d = decimal(n / 10);
        assert(decimal(n) == d.push(digit_char(n % 10)));
        assert(decimal(n).drop_last() =~= d);
        assert(digit_value(digit_char(n % 10)) == n % 10);
        assert(digits_value(decimal(n)) == digits_value(d) * 10 + digit_value(decimal(n).last()));
        assert((n / 10) * 10 + n % 10 == n);
        assert(digits_value(decimal(n)) == n);
        assert forall|i: int| 0 <= i < decimal(n).len() implies #[trigger] is_digit(decimal(n)[i]) by {
            if i < d.len() {
                assert(decimal(n)[i] == d[i]);
            }
        }
        if has_char(decimal(n), '.') {
            let w = choose|i: int| 0 <= i < decimal(n).len() && decimal(n)[i] == '.';
            assert(is_digit(decimal(n)[w]));
        }
    } else {
        assert(digit_value(digit_char(n)) == n);
        assert(decimal(n).drop_last() =~= Seq::<char>::empty());
        assert(digits_value(decimal(n).drop_last()) == 0);
        assert(digits_value(decimal(n)) == n);
        if has_char(decimal(n), '.') {
            let w = choose|i: int| 0 <= i < decimal(n).len() && decimal(n)[i] == '.';
            assert(w == 0);
        }
    }
}

/// Whether `c` is white space in Unicode's sense (as `char::is_whitespace`
/// decides it).
pub open spec fn is_space(c: char) -> bool {
    let u = c as u32;
    (0x09 <= u <= 0x0d) || u == 0x20 || u == 0x85 || u == 0xa0 || u == 0x1680 || (0x2000 <= u
        <= 0x200a) || u == 0x2028 || u == 0x2029 || u == 0x202f || u == 0x205f || u == 0x3000
}

/// `s` without its leading white space.
pub open spec fn trim_start(s: Seq<char>) -> Seq<char>
    decreases s.len(),
{
    if s.len() > 0 && is_space(s[0]) {
        trim_start(s.skip(1))
    } else {
        s
    }
}

/// `s` without its trailing white space.
pub open spec fn trim_end(s: Seq<char>) -> Seq<char>
    decreases s.len(),
{
    if s.len() > 0 && is_space(s.last()) {
        trim_end(s.drop_last())
    } else {
        s
    }
}

/// `s` without leading and trailing white space (as `str::trim`).
pub open spec fn trim(s: Seq<char>) -> Seq<char> {
    trim_end(trim_start(s))
}

/// Whether `c` is white space.
pub(crate) fn is_space_char(c: char) -> (r: bool)
    ensures
        r == is_space(c),
{
    let u = c as u32;
    (0x09 <= u && u <= 0x0d) || u == 0x20 || u == 0x85 || u == 0xa0 || u == 0x1680 || (0x2000 <= u
        && u <= 0x200a) || u == 0x2028 || u == 0x2029 || u == 0x202f || u == 0x205f || u == 0x3000
}

/// The bounds of the trimmed part of `s[from..to]`.
pub(crate) fn trimmed_range(s: &[char], from: usize, to: usize) -> (r: (usize, usize))
    requires
        from <= to <= s.len(),
    ensures
        from <= r.0 <= r.1 <= to,
        s@.subrange(r.0 as int, r.1 as int) == trim(s@.subrange(from as int, to as int)),
{
    let mut a = from;
    while a < to && is_space_char(s[a])
        invariant
            from <= a <= to <= s.len(),
            trim_start(s@.subrange(from as int, to as int)) == trim_start(s@.subrange(a as int, to as int)),
        decreases to - a,
    {
        assert(s@.subrange(a as int, to as int).skip(1) =~= s@.subrange(a + 1, to as int));
        a += 1;
    }
    let mut b = to;
    while b > a && is_space_char(s[b - 1])
        invariant
            from <= a <= b <= to <= s.len(),
            trim_end(s@.subrange(a as int, to as int)) == trim_end(s@.subrange(a as int, b as int)),
        decreases b - a,
    {
        assert(s@.subrange(a as int, b as int).drop_last() =~= s@.subrange(a as int, b - 1));
        b -= 1;
    }
    (a, b)
}

/// Whether `s[i..j]` is one of the lines of `s`: it runs from the start or a
/// newline to the end or the next newline, and holds no newline.
pub open spec fn is_line(s: Seq<char>, i: int, j: int) -> bool {
    &&& 0 <= i <= j <= s.len()
    &&& (i == 0 || s[i - 1] == '\n')
    &&& (j == s.len() || s[j] == '\n')
    &&& forall|k: int| i <= k < j ==> s[k] != '\n'
}

/// Whether some line of `s`, trimmed, is `target` (as `s.lines().map(str::trim)`
/// yielding `target`).
pub open spec fn has_trimmed_line(s: Seq<char>, target: Seq<char>) -> bool {
    exists|i: int, j: int| is_line(s, i, j) && #[trigger] trim(s.subrange(i, j)) == target
}

/// Whether some line of `s`, trimmed, spells exactly `target`.
pub(crate) fn has_trimmed_line_exec(s: &[char], target: &[char]) -> (r: bool)
    ensures
        r == has_trimmed_line(s@, target@),
{
    let mut p: usize = 0;
    loop
        invariant
            p <= s.len(),
            p == 0 || s@[p - 1] == '\n',
            forall|i: int, j: int| is_line(s@, i, j) && i < p ==> #[trigger] trim(s@.subrange(i, j)) != target@,
        decreases s.len() - p,
    {
        let mut q = p;
        while q < s.len() && s[q] != '\n'
            invariant
                p <= q <= s.len(),
                forall|k: int| p <= k < q ==> s@[k] != '\n',
            decreases s.len() - q,
        {
            q += 1;
        }
        assert(is_line(s@, p as int, q as int));
        assert forall|i: int, j: int| is_line(s@, i, j) && p <= i <= q implies i == p && j == q by {
            if i > p {
                assert(s@[i - 1] != '\n');
            }
            if j < q {
                assert(s@[j] != '\n');
            }
            if j > q {
                assert(s@[q as int] == '\n');
            }
        }
        let (a, b) = trimmed_range(s, p, q);
        let seg = crate::model::slice_of(s, a, b);
        if chars_eq(seg.as_slice(), target) {
            assert(trim(s@.subrange(p as int, q as int)) == target@);
            return true;
        }
        if q == s.len() {
            assert forall|i: int, j: int| is_line(s@, i, j) implies #[trigger] trim(s@.subrange(i, j)) != target@ by {
                if i >= p {
                    assert(i <= q);
                }
            }
            return false;
        }
        p = q + 1;
    }
}

/// Whether `a` sorts before `b`, character by character, a proper prefix
/// first (the order of `str` and `String`).
pub open spec fn lex_lt(a: Seq<char>, b: Seq<char>) -> bool
    decreases a.len(),
{
    if a.len() == 0 {
        b.len() > 0
    } else if b.len() == 0 {
        false
    } else if a[0] != b[0] {
        a[0] < b[0]
    } else {
        lex_lt(a.skip(1), b.skip(1))
    }
}

/// The order of text is strict and total.
pub proof fn lemma_lex_order(a: Seq<char>, b: Seq<char>)
    ensures
        !(lex_lt(a, b) && lex_lt(b, a)),
        !lex_lt(a, a),
        a != b ==> lex_lt(a, b) || lex_lt(b, a),
    decreases a.len(),
{
    if a.len() > 0 && b.len() > 0 {
        lemma_lex_order(a.skip(1), b.skip(1));
        lemma_lex_order(a.skip(1), a.skip(1));
        if a[0] == b[0] && a != b {
            assert(a.skip(1) != b.skip(1)) by {
                if a.skip(1) == b.skip(1) {
                    assert(a =~= seq![a[0]] + a.skip(1));
                    assert(b =~= seq![b[0]] + b.skip(1));
                }
            }
        }
        if a[0] != b[0] {
        }
    } else if a.len() > 0 {
        lemma_lex_order(a.skip(1), a.skip(1));
    } else if b.len() == 0 {
        assert(a =~= b);
    }
}

/// The order of text is transitive.
pub proof fn lemma_lex_trans(a: Seq<char>, b: Seq<char>, c: Seq<char>)
    requires
        lex_lt(a, b),
        lex_lt(b, c),
    ensures
        lex_lt(a, c),
    decreases a.len(),
{
    if a.len() > 0 && b.len() > 0 && c.len() > 0 && a[0] == b[0] && b[0] == c[0] {
        lemma_lex_trans(a.skip(1), b.skip(1), c.skip(1));
    }
}

/// Whether `a` sorts before `b`.
pub(crate) fn lex_less(a: &[char], b: &[char]) -> (r: bool)
    ensures
        r == lex_lt(a@, b@),
{
    let mut i: usize = 0;
    assert(a@.skip(0) =~= a@);
    assert(b@.skip(0) =~= b@);
    while i < a.len() && i < b.len() && a[i] == b[i]
        invariant
            i <= a.len(),
            i <= b.len(),
            lex_lt(a@, b@) == lex_lt(a@.skip(i as int), b@.skip(i as int)),
        decreases a.len() - i,
    {
        assert(a@.skip(i as int).skip(1) =~= a@.skip(i + 1));
        assert(b@.skip(i as int).skip(1) =~= b@.skip(i + 1));
        i += 1;
    }
    let ghost sa = a@.skip(i as int);
    let ghost sb = b@.skip(i as int);
    assert(lex_lt(a@, b@) == lex_lt(sa, sb));
    if i == a.len() {
        assert(sa.len() == 0);
        let res = i < b.len();
        assert(res == lex_lt(sa, sb));
        res
    } else if i == b.len() {
        assert(sb.len() == 0);
        assert(!lex_lt(sa, sb));
        false
    } else {
        assert(sa[0] == a@[i as int]);
        assert(sb[0] == b@[i as int]);
        let res = a[i] < b[i];
        assert(res == lex_lt(sa, sb));
        res
    }
}

/// The decimal spelling of an integer reads back as that integer.
pub proof fn lemma_signed_decimal_parses(v: int)
    ensures
        int_text_value(signed_decimal(v)) == Some(v),
{
    if v < 0 {
        let n = (-v) as nat;
        lemma_decimal_digits(n);
        assert(signed_decimal(v).skip(1) =~= decimal(n));
    } else {
        lemma_decimal_digits(v as nat);
    }
}

/// Appends one character to a string (std `String::push`).
#[verifier::external_body]
pub(crate) fn push_char(s: &mut String, c: char)
    ensures
        final(s)@ == old(s)@.push(c),
{
    s.push(c)
}

/// `std::str::from_utf8`: the text of UTF-8 bytes. Claims, as std documents,
/// that text comes exactly for valid UTF-8 and is the decoding of the bytes.
#[verifier::external_body]
pub(crate) fn str_from_utf8(bytes: &[u8]) -> (r: Option<&str>)
    ensures
        r is Some <==> valid_utf8(bytes@),
        r matches Some(s) ==> s@ == decode_utf8(bytes@),
{
    std::str::from_utf8(bytes).ok()
}

/// Builds a string holding exactly the given characters.
pub(crate) fn string_from_chars(cs: &[char]) -> (r: String)
    ensures
        r@ == cs@,
{
    let mut r = String::new();
    let mut i: usize = 0;
    while i < cs.len()
        invariant
            i <= cs.len(),
            r@ == cs@.take(i as int),
        decreases cs.len() - i,
    {
        push_char(&mut r, cs[i]);
        assert(cs@.take(i as int).push(cs@[i as int]) =~= cs@.take(i + 1));
        i += 1;
    }
    assert(cs@.take(cs.len() as int) =~= cs@);
    r
}

/// The characters of a string slice, in order.
pub(crate) fn chars_of(s: &str) -> (r: Vec<char>)
    ensures
        r@ == s@,
{
    let n = s.unicode_len();
    let mut r: Vec<char> = Vec::new();
    let mut i: usize = 0;
    while i < n
        invariant
            n == s@.len(),
            i <= n,
            r@ == s@.take(i as int),
        decreases n - i,
    {
        r.push(s.get_char(i));
        assert(r@ =~= s@.take(i + 1));
        i += 1;
    }
    assert(s@.take(n as int) =~= s@);
    r
}

/// Whether `a` and `b` hold the same characters.
pub(crate) fn chars_eq(a: &[char], b: &[char]) -> (r: bool)
    ensures
        r == (a@ == b@),
{
    if a.len() != b.len() {
        return false;
    }
    let mut i: usize = 0;
    while i < a.len()
        invariant
            i <= a.len(),
            a.len() == b.len(),
            a@.take(i as int) == b@.take(i as int),
        decreases a.len() - i,
    {
        if a[i] != b[i] {
            assert(a@[i as int] != b@[i as int]);
            return false;
        }
        assert(a@.take(i + 1) =~= a@.take(i as int).push(a@[i as int]));
        assert(b@.take(i + 1) =~= b@.take(i as int).push(b@[i as int]));
        i += 1;
    }
    assert(a@ =~= a@.take(a.len() as int));
    assert(b@ =~= b@.take(b.len() as int));
    true
}

/// Whether the string `s` spells exactly `lit`.
pub(crate) fn str_is(s: &str, lit: &str) -> (r: bool)
    ensures
        r == (s@ == lit@),
{
    let a = chars_of(s);
    let b = chars_of(lit);
    chars_eq(a.as_slice(), b.as_slice())
}

/// The decimal digits of `n`, most significant first.
pub(crate) fn decimal_chars(n: u128) -> (r: Vec<char>)
    ensures
        r@ == decimal(n as nat),
    decreases n,
{
    if n < 10 {
        let c = char_of_digit(n as u8);
        let mut v = Vec::new();
        v.push(c);
        assert(v@ =~= seq![digit_char(n as nat)]);
        v
    } else {
        let mut v = decimal_chars(n / 10);
        v.push(char_of_digit((n % 10) as u8));
        v
    }
}

/// The character spelling one decimal digit.
pub(crate) fn char_of_digit(d: u8) -> (c: char)
    requires
        d < 10,
    ensures
        c == digit_char(d as nat),
        is_digit(c),
        digit_value(c) == d,
{
    let c = match d {
        0 => '0',
        1 => '1',
        2 => '2',
        3 => '3',
        4 => '4',
        5 => '5',
        6 => '6',
        7 => '7',
        8 => '8',
        _ => '9',
    };
    c
}

/// The digit value of an ASCII digit character.
pub(crate) fn value_of_digit(c: char) -> (d: u8)
    requires
        is_digit(c),
    ensures
        d as int == digit_value(c),
        d < 10,
{
    let d = (c as u32) - ('0' as u32);
    d as u8
}

/// Parses a string of decimal digits into an integer no larger than `max`;
/// `None` when the value exceeds `max`.
pub(crate) fn digits_up_to(s: &[char], max: u64) -> (r: Option<u64>)
    requires
        all_digits(s@),
    ensures
        r matches Some(v) ==> v == digits_value(s@) && v <= max,
        r is None ==> digits_value(s@) > max,
{
    let mut acc: u64 = 0;
    let mut i: usize = 0;
    while i < s.len()
        invariant
            i <= s.len(),
            all_digits(s@),
            acc == digits_value(s@.take(i as int)),
            acc <= max,
        decreases s.len() - i,
    {
        assert(is_digit(s@[i as int]));
        let d = value_of_digit(s[i]) as u64;
        assert(s@.take(i + 1).drop_last() =~= s@.take(i as int));
        assert(s@.take(i + 1).last() == s@[i as int]);
        if d > max || acc > (max - d) / 10 {
            proof {
                if d <= max {
                    assert(acc * 10 + d > max) by (nonlinear_arith)
                        requires
                            acc > (max - d) / 10,
                            d <= max,
                    ;
                }
                lemma_digits_value_prefix(s@, i + 1);
            }
            return None;
        }
        proof {
            assert(acc * 10 + d <= max) by (nonlinear_arith)
                requires
                    acc <= (max - d) / 10,
                    d <= max,
            ;
        }
        acc = acc * 10 + d;
        i += 1;
    }
    assert(s@.take(s.len() as int) =~= s@);
    Some(acc)
}

/// Parses `s` under Rust's `FromStr` rules for an integer type spanning `[lo, hi]`.
pub(crate) fn parse_int_chars(s: &[char], lo: i64, hi: i64) -> (r: Option<i64>)
    requires
        lo <= 0 <= hi,
    ensures
        r matches Some(v) ==> parse_int_in(s@, lo as int, hi as int) == Some(v as int),
        r is None ==> parse_int_in(s@, lo as int, hi as int) is None,
{
    if s.len() == 0 {
        return None;
    }
    let negative = s[0] == '-';
    let signed = negative || s[0] == '+';
    if negative && lo >= 0 {
        return None;
    }
    let start: usize = if signed { 1 } else { 0 };
    let rest = crate::model::slice_of(s, start, s.len());
    assert(rest@ =~= s@.skip(start as int));
    if rest.len() == 0 || !is_all_digits(rest.as_slice()) {
        proof {
            if !signed {
                assert(rest@ =~= s@);
            }
        }
        return None;
    }
    proof {
        if signed {
            assert(int_text_value(s@) == Some(
                if negative { -(digits_value(rest@) as int) } else { digits_value(rest@) as int },
            ));
        } else {
            assert(rest@ =~= s@);
            assert(int_text_value(s@) == Some(digits_value(rest@) as int));
        }
    }
    if negative {
        let bound: u64 = (0i128 - lo as i128) as u64;
        match digits_up_to(rest.as_slice(), bound) {
            Some(v) => Some((0i128 - v as i128) as i64),
            None => None,
        }
    } else {
        match digits_up_to(rest.as_slice(), hi as u64) {
            Some(v) => Some(v as i64),
            None => None,
        }
    }
}

/// Appends the characters of `s`.
pub(crate) fn push_str(out: &mut Vec<char>, s: &str)
    ensures
        final(out)@ == old(out)@ + s@,
{
    let cs = chars_of(s);
    push_chars(out, &cs);
}

/// Appends the characters of `more`.
pub(crate) fn push_chars(out: &mut Vec<char>, more: &Vec<char>)
    ensures
        final(out)@ == old(out)@ + more@,
{
    let mut i: usize = 0;
    let ghost start = out@;
    while i < more.len()
        invariant
            i <= more.len(),
            out@ == start + more@.take(i as int),
        decreases more.len() - i,
    {
        out.push(more[i]);
        assert(more@.take(i + 1) =~= more@.take(i as int).push(more@[i as int]));
        i += 1;
    }
    assert(more@.take(more.len() as int) =~= more@);
}

/// Appends the decimal spelling of `n`, with a `-` when negative.
pub(crate) fn push_int(out: &mut Vec<char>, n: i128)
    requires
        n > i128::MIN,
    ensures
        final(out)@ == old(out)@ + signed_decimal(n as int),
{
    if n < 0 {
        out.push('-');
        let d = decimal_chars((0 - n) as u128);
        push_chars(out, &d);
        assert(final(out)@ =~= old(out)@ + signed_decimal(n as int)) by {
            assert(seq!['-'] + decimal((-n) as nat) == signed_decimal(n as int));
        }
    } else {
        let d = decimal_chars(n as u128);
        push_chars(out, &d);
    }
}

/// Whether every character in `s` is an ASCII digit.
pub(crate) fn is_all_digits(s: &[char]) -> (r: bool)
    ensures
        r == all_digits(s@),
{
    let mut i: usize = 0;
    while i < s.len()
        invariant
            i <= s.len(),
            forall|j: int| 0 <= j < i ==> #[trigger] is_digit(s@[j]),
        decreases s.len() - i,
    {
        if !(s[i] >= '0' && s[i] <= '9') {
            assert(!is_digit(s@[i as int]));
            return false;
        }
        i += 1;
    }
    true
}

// ---------------------------------------------------------------------------
// Debug spelling

/// The `Debug` spelling of a string: quoted, with escapes.
pub uninterp spec fn debug_text(s: Seq<char>) -> Seq<char>;

/// `format!("{s:?}")`: the `Debug` spelling of a string (std's `<str as
/// Debug>::fmt`). Claims that the spelling is a function of the text alone.
#[verifier::external_body]
pub(crate) fn debug_quoted(s: &str) -> (r: String)
    ensures
        r@ == debug_text(s@),
{
    format!("{s:?}")
}

// ---------------------------------------------------------------------------
// Why an integer does not parse

/// Why text does not parse as an integer, as Rust's `IntErrorKind` tells it.
#[derive(Clone, Copy, Debug, PartialEq, Eq, Structural)]
pub enum IntParseFailure {
    /// The text is empty.
    Empty,
    /// A character is not a digit (a lone sign counts as one).
    InvalidDigit,
    /// The value is above the type's largest value.
    PosOverflow,
    /// The value is below the type's smallest value.
    NegOverflow,
}

/// Whether `k` is the length of the leading run of digits of `d`.
pub open spec fn is_digit_run(d: Seq<char>, k: int) -> bool {
    &&& 0 <= k <= d.len()
    &&& all_digits(d.take(k))
    &&& (k == d.len() || !is_digit(d[k]))
}

/// The length of the leading run of digits of `d`.
pub open spec fn digit_run(d: Seq<char>) -> int {
    choose|k: int| is_digit_run(d, k)
}

proof fn lemma_digit_run(d: Seq<char>, k: int)
    requires
        is_digit_run(d, k),
    ensures
        digit_run(d) == k,
{
    let c = digit_run(d);
    assert(is_digit_run(d, c));
    if c < k {
        assert(is_digit(d.take(k)[c]));
    }
    if k < c {
        assert(is_digit(d.take(c)[k]));
    }
}

/// Why `s` does not parse as an integer of a type spanning `[lo, hi]`, read
/// as Rust's `FromStr` reads it: an optional sign (`-` only when `lo` is
/// negative), then digits accumulated left to right, stopping at the first
/// character that is not a digit or the first prefix whose value leaves the
/// range. `None` when it parses.
pub open spec fn int_failure(s: Seq<char>, lo: int, hi: int) -> Option<IntParseFailure> {
    if s.len() == 0 {
        Some(IntParseFailure::Empty)
    } else if s.len() == 1 && (s[0] == '+' || s[0] == '-') {
        Some(IntParseFailure::InvalidDigit)
    } else {
        let negative = s[0] == '-' && lo < 0;
        let d = if s[0] == '+' || negative { s.skip(1) } else { s };
        let k = digit_run(d);
        let bound = if negative { -lo } else { hi };
        if digits_value(d.take(k)) > bound {
            Some(if negative { IntParseFailure::NegOverflow } else { IntParseFailure::PosOverflow })
        } else if k < d.len() {
            Some(IntParseFailure::InvalidDigit)
        } else {
            None
        }
    }
}

/// The failure and the parse agree: text fails exactly when it does not parse.
pub proof fn lemma_int_failure_iff(s: Seq<char>, lo: int, hi: int)
    requires
        lo <= 0 <= hi,
    ensures
        int_failure(s, lo, hi) is None <==> parse_int_in(s, lo, hi) is Some,
{
    if s.len() >= 2 || (s.len() == 1 && s[0] != '+' && s[0] != '-') {
        let negative = s[0] == '-' && lo < 0;
        let d = if s[0] == '+' || negative { s.skip(1) } else { s };
        let k = digit_run(d);
        assert(is_digit_run(d, k)) by {
            lemma_digit_run_exists(d);
        }
        if k == d.len() {
            assert(d.take(k) =~= d);
        } else {
            assert(!all_digits(d)) by {
                assert(!is_digit(d[k]));
            }
        }
        if s[0] == '-' && lo >= 0 {
            assert(k == 0) by {
                assert(!is_digit(d[0]));
                lemma_digit_run(d, 0);
            }
        }
    }
}

proof fn lemma_digit_run_exists(d: Seq<char>)
    ensures
        exists|k: int| is_digit_run(d, k),
    decreases d.len(),
{
    if d.len() == 0 {
        assert(is_digit_run(d, 0));
    } else if !is_digit(d[0]) {
        assert(is_digit_run(d, 0));
    } else {
        lemma_digit_run_exists(d.skip(1));
        let j = choose|j: int| is_digit_run(d.skip(1), j);
        assert(d.take(j + 1) =~= seq![d[0]] + d.skip(1).take(j));
        assert(is_digit_run(d, j + 1));
    }
}

/// The message Rust gives for a failure (`ParseIntError`'s `Display`).
pub open spec fn int_failure_text(f: IntParseFailure) -> Seq<char> {
    match f {
        IntParseFailure::Empty => "cannot parse integer from empty string"@,
        IntParseFailure::InvalidDigit => "invalid digit found in string"@,
        IntParseFailure::PosOverflow => "number too large to fit in target type"@,
        IntParseFailure::NegOverflow => "number too small to fit in target type"@,
    }
}

impl IntParseFailure {
    /// The message Rust gives for this failure.
    pub fn text(self) -> (r: &'static str)
        ensures
            r@ == int_failure_text(self),
    {
        match self {
            IntParseFailure::Empty => "cannot parse integer from empty string",
            IntParseFailure::InvalidDigit => "invalid digit found in string",
            IntParseFailure::PosOverflow => "number too large to fit in target type",
            IntParseFailure::NegOverflow => "number too small to fit in target type",
        }
    }
}

/// Why `s` does not parse as an integer of a type spanning `[lo, hi]`.
pub(crate) fn int_parse_failure(s: &[char], lo: i64, hi: i64) -> (r: Option<IntParseFailure>)
    requires
        lo <= 0 <= hi,
    ensures
        r == int_failure(s@, lo as int, hi as int),
{
    if s.len() == 0 {
        return Some(IntParseFailure::Empty);
    }
    if s.len() == 1 && (s[0] == '+' || s[0] == '-') {
        return Some(IntParseFailure::InvalidDigit);
    }
    let negative = s[0] == '-' && lo < 0;
    let start: usize = if s[0] == '+' || negative { 1 } else { 0 };
    let d = slice_of_chars(s, start, s.len());
    assert(d@ =~= (if s@[0] == '+' || negative { s@.skip(1) } else { s@ }));
    let mut k: usize = 0;
    while k < d.len() && d[k] >= '0' && d[k] <= '9'
        invariant
            k <= d.len(),
            all_digits(d@.take(k as int)),
        decreases d.len() - k,
    {
        assert(d@.take(k + 1) =~= d@.take(k as int).push(d@[k as int]));
        k += 1;
    }
    proof {
        lemma_digit_run(d@, k as int);
    }
    let prefix = slice_of_chars(d.as_slice(), 0, k);
    assert(prefix@ =~= d@.take(k as int));
    let bound: u64 = if negative { (0i128 - lo as i128) as u64 } else { hi as u64 };
    match digits_up_to(prefix.as_slice(), bound) {
        None => Some(if negative { IntParseFailure::NegOverflow } else { IntParseFailure::PosOverflow }),
        Some(_) => if k < d.len() {
            Some(IntParseFailure::InvalidDigit)
        } else {
            None
        },
    }
}

/// The characters `v[from..to]`.
fn slice_of_chars(v: &[char], from: usize, to: usize) -> (r: Vec<char>)
    requires
        from <= to <= v.len(),
    ensures
        r@ == v@.subrange(from as int, to as int),
{
    let mut r: Vec<char> = Vec::new();
    let mut i = from;
    while i < to
        invariant
            from <= i <= to <= v.len(),
            r@ == v@.subrange(from as int, i as int),
        decreases to - i,
    {
        r.push(v[i]);
        assert(r@ =~= v@.subrange(from as int, i + 1));
        i += 1;
    }
    r
}


} // verus!
