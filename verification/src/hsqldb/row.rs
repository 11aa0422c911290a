//! HSQLDB 1.8 column encoding.
use vstd::prelude::*;

use crate::calendar::{
    calendar_date_of_unix_seconds, civil_date_from_unix_seconds, date_of_text, date_text,
    format_date, parse_date, unix_seconds_of_calendar_date, unix_seconds_of_civil_date,
    valid_calendar_date,
};
use crate::hsqldb::bytes::{
    be_bytes, be_signed, be_unsigned, fits_i64, is_minimal_twos, lemma_be_bytes_signed,
    lemma_be_unsigned_bound, lemma_pow256_values, lemma_sign_byte, lemma_strip_lead,
    lemma_wide_lead_overflows, pow256, redundant_lead,
};
use crate::script::ColType;
use crate::text::{push_int, push_str, signed_decimal, str_from_utf8, str_is, string_from_chars};
use vstd::utf8::{decode_utf8, encode_utf8, valid_utf8};

verus! {

broadcast use vstd::string::group_string_axioms, vstd::utf8::group_utf8_lib;

/// A decoded HSQLDB column value.
#[derive(Clone, Debug, PartialEq, Eq)]
pub enum Cell {
    /// SQL null.
    Null,
    /// Integer value.
    Int(i64),
    /// Text value.
    Str(String),
    /// ISO `YYYY-MM-DD` date value.
    Date(String),
    /// Fixed-decimal numeric value in minor units.
    Num(i64),
}

/// The mathematical content of a cell.
pub enum CellValue {
    /// SQL null.
    Null,
    /// Integer value.
    Int(int),
    /// Text value.
    Str(Seq<char>),
    /// Date text.
    Date(Seq<char>),
    /// Minor units.
    Num(int),
}

impl View for Cell {
    type V = CellValue;

    open spec fn view(&self) -> CellValue {
        match self {
            Cell::Null => CellValue::Null,
            Cell::Int(v) => CellValue::Int(*v as int),
            Cell::Str(s) => CellValue::Str(s@),
            Cell::Date(s) => CellValue::Date(s@),
            Cell::Num(v) => CellValue::Num(*v as int),
        }
    }
}

/// What went wrong while reading an HSQLDB column value.
#[derive(Clone, Debug, PartialEq, Eq, Structural)]
pub enum HsqlErrorKind {
    /// The buffer ends before the bytes a value needs.
    UnexpectedEof {
        /// Position of the read.
        pos: usize,
        /// Bytes the read needs.
        needed: usize,
        /// Bytes the buffer holds.
        len: usize,
    },
    /// A string column is not UTF-8.
    InvalidUtf8,
    /// A date column holds an instant outside the supported calendar.
    InvalidDateMillis(i64),
    /// A length prefix is negative.
    NegativeLength(i32),
    /// A numeric scale above two decimals.
    UnsupportedNumericScale(i32),
    /// An empty big-integer payload.
    InvalidBigInteger,
    /// A numeric value outside the minor-unit range.
    NumericOverflow,
    /// A row offset that cannot address the data file.
    InvalidRowOffset(i64),
    /// A row block size that cannot hold a row.
    InvalidRowSize(i32),
    /// The row index revisits a row.
    RowCycle(i64),
}

/// Failure while reading an HSQLDB column value.
#[derive(Clone, Debug, PartialEq, Eq, Structural)]
pub struct HsqlError {
    /// What went wrong.
    pub kind: HsqlErrorKind,
}

/// Failure while encoding an HSQLDB column value.
#[derive(Clone, Debug, PartialEq, Eq)]
pub enum WriteCellError {
    /// A non-null cell was encoded with a column type from another domain.
    TypeMismatch {
        /// The cell variant being encoded.
        cell: &'static str,
        /// The requested HSQLDB column type.
        ty: ColType,
    },
    /// HSQLDB length prefixes are signed 32-bit values.
    LengthOutOfRange {
        /// The byte length that does not fit in an HSQLDB length prefix.
        len: usize,
    },
    /// Date cells must use ISO `YYYY-MM-DD` text.
    InvalidDate {
        /// The rejected date text.
        value: String,
    },
    /// HSQLDB integer columns store signed 32-bit integers.
    IntegerOutOfRange {
        /// The rejected integer value.
        value: i64,
    },
}

/// Why a cell cannot be encoded.
pub enum WriteFailure {
    /// Cell and column type disagree.
    TypeMismatch,
    /// The byte length does not fit an `i32` prefix.
    LengthOutOfRange(int),
    /// The date text names no valid date.
    InvalidDate,
    /// The integer does not fit an `i32`.
    IntegerOutOfRange(int),
}

// ---------------------------------------------------------------------------
// Specification of the encoding

/// `n` bytes at `pos`, or the end-of-input failure.
pub open spec fn take_at(buf: Seq<u8>, pos: int, n: int) -> Result<Seq<u8>, HsqlErrorKind> {
    if pos + n > buf.len() {
        Err(HsqlErrorKind::UnexpectedEof { pos: pos as usize, needed: n as usize, len: buf.len() as usize })
    } else {
        Ok(buf.subrange(pos, pos + n))
    }
}

/// A 32-bit length prefix at `pos` and the bytes it announces.
pub open spec fn len_bytes_at(buf: Seq<u8>, pos: int) -> Result<(Seq<u8>, int), HsqlErrorKind> {
    match take_at(buf, pos, 4) {
        Err(e) => Err(e),
        Ok(b) => {
            let len = be_signed(b);
            if len < 0 {
                Err(HsqlErrorKind::NegativeLength(len as i32))
            } else {
                match take_at(buf, pos + 4, len) {
                    Err(e) => Err(e),
                    Ok(bytes) => Ok((bytes, pos + 4 + len)),
                }
            }
        },
    }
}

/// The value of a big-endian two's-complement payload, if it fits an `i64`.
pub open spec fn big_integer_value(b: Seq<u8>) -> Result<int, HsqlErrorKind> {
    if b.len() == 0 {
        Err(HsqlErrorKind::InvalidBigInteger)
    } else if fits_i64(be_signed(b)) {
        Ok(be_signed(b))
    } else {
        Err(HsqlErrorKind::NumericOverflow)
    }
}

/// Ten raised to `n`.
pub open spec fn pow10(n: nat) -> nat
    decreases n,
{
    if n == 0 {
        1
    } else {
        10 * pow10((n - 1) as nat)
    }
}

/// An unscaled decimal with `scale` fractional digits, in hundredths.
pub open spec fn minor_units(unscaled: int, scale: int) -> Result<int, HsqlErrorKind> {
    if scale > 2 {
        Err(HsqlErrorKind::UnsupportedNumericScale(scale as i32))
    } else {
        let f = pow10((2 - scale) as nat);
        if f > i64::MAX || !fits_i64(unscaled * f) {
            Err(HsqlErrorKind::NumericOverflow)
        } else {
            Ok(unscaled * f)
        }
    }
}

/// The date text of an HSQLDB date stored as epoch milliseconds.
pub open spec fn date_text_of_millis(millis: int) -> Option<Seq<char>> {
    match calendar_date_of_unix_seconds(millis / 1000) {
        Some(d) => Some(date_text(d.0, d.1, d.2)),
        None => None,
    }
}

/// The value at `pos` of a column of type `ty`, and the position after it.
pub open spec fn cell_at(buf: Seq<u8>, pos: int, ty: ColType) -> Result<(CellValue, int), HsqlErrorKind> {
    match take_at(buf, pos, 1) {
        Err(e) => Err(e),
        Ok(marker) => if marker[0] == 0 {
            Ok((CellValue::Null, pos + 1))
        } else {
            let p = pos + 1;
            match ty {
                ColType::Integer => match take_at(buf, p, 4) {
                    Err(e) => Err(e),
                    Ok(b) => Ok((CellValue::Int(be_signed(b)), p + 4)),
                },
                ColType::Varchar => match len_bytes_at(buf, p) {
                    Err(e) => Err(e),
                    Ok((bytes, q)) => if valid_utf8(bytes) {
                        Ok((CellValue::Str(decode_utf8(bytes)), q))
                    } else {
                        Err(HsqlErrorKind::InvalidUtf8)
                    },
                },
                ColType::Date => match take_at(buf, p, 8) {
                    Err(e) => Err(e),
                    Ok(b) => match date_text_of_millis(be_signed(b)) {
                        Some(t) => Ok((CellValue::Date(t), p + 8)),
                        None => Err(HsqlErrorKind::InvalidDateMillis(be_signed(b) as i64)),
                    },
                },
                ColType::Numeric => match len_bytes_at(buf, p) {
                    Err(e) => Err(e),
                    Ok((bytes, q)) => match take_at(buf, q, 4) {
                        Err(e) => Err(e),
                        Ok(sb) => match big_integer_value(bytes) {
                            Err(e) => Err(e),
                            Ok(u) => match minor_units(u, be_signed(sb)) {
                                Err(e) => Err(e),
                                Ok(v) => Ok((CellValue::Num(v), q + 4)),
                            },
                        },
                    },
                },
            }
        },
    }
}

/// Reading a cell past the end of the buffer fails; a cell that reads
/// takes at least its marker byte and no more than the buffer holds, is
/// `Null` exactly when its marker is zero, and is otherwise of the column's
/// type.
pub proof fn lemma_cell_at_bounds(buf: Seq<u8>, pos: int, ty: ColType)
    requires
        0 <= pos,
    ensures
        pos >= buf.len() ==> cell_at(buf, pos, ty) is Err,
        cell_at(buf, pos, ty) matches Ok((c, next)) ==> {
            &&& pos < next <= buf.len()
            &&& (c == CellValue::Null <==> buf[pos] == 0)
            &&& c != CellValue::Null ==> match ty {
                ColType::Integer => c is Int,
                ColType::Varchar => c is Str,
                ColType::Date => c is Date,
                ColType::Numeric => c is Num,
            }
        },
{
    if pos < buf.len() {
        assert(buf.subrange(pos, pos + 1)[0] == buf[pos]);
    }
}

/// Drops redundant sign-extension bytes from the front.
pub open spec fn strip_twos(b: Seq<u8>) -> Seq<u8>
    decreases b.len(),
{
    if redundant_lead(b) {
        strip_twos(b.skip(1))
    } else {
        b
    }
}

/// The shortest big-endian two's-complement bytes of `v`.
pub open spec fn min_twos(v: int) -> Seq<u8> {
    strip_twos(be_bytes(v, 8))
}

/// Name of a cell's variant.
pub open spec fn kind_name(c: CellValue) -> Seq<char> {
    match c {
        CellValue::Null => "null"@,
        CellValue::Int(_) => "int"@,
        CellValue::Str(_) => "str"@,
        CellValue::Date(_) => "date"@,
        CellValue::Num(_) => "num"@,
    }
}

/// The bytes that encode `c` as a column of type `ty`, or why it cannot be.
pub open spec fn cell_encoding(c: CellValue, ty: ColType) -> Result<Seq<u8>, WriteFailure> {
    match (c, ty) {
        (CellValue::Null, _) => Ok(seq![0u8]),
        (CellValue::Int(v), ColType::Integer) => if i32::MIN <= v <= i32::MAX {
            Ok(seq![1u8] + be_bytes(v, 4))
        } else {
            Err(WriteFailure::IntegerOutOfRange(v))
        },
        (CellValue::Str(s), ColType::Varchar) => {
            let b = encode_utf8(s);
            if b.len() > i32::MAX {
                Err(WriteFailure::LengthOutOfRange(b.len() as int))
            } else {
                Ok(seq![1u8] + be_bytes(b.len() as int, 4) + b)
            }
        },
        (CellValue::Date(t), ColType::Date) => match iso_date_of_text(t) {
            Some(d) => Ok(seq![1u8] + be_bytes(unix_seconds_of_civil_date(d.0, d.1, d.2) * 1000, 8)),
            None => Err(WriteFailure::InvalidDate),
        },
        (CellValue::Num(v), ColType::Numeric) => {
            let b = min_twos(v);
            Ok(seq![1u8] + be_bytes(b.len() as int, 4) + b + be_bytes(2, 4))
        },
        _ => Err(WriteFailure::TypeMismatch),
    }
}

/// The date that ISO `YYYY-MM-DD` text names: a valid calendar date whose
/// zero-padded spelling is exactly the text.
pub open spec fn iso_date_of_text(t: Seq<char>) -> Option<(int, int, int)> {
    match date_of_text(t) {
        Some(d) => if valid_calendar_date(d.0, d.1, d.2) && t == date_text(d.0, d.1, d.2) {
            Some(d)
        } else {
            None
        },
        None => None,
    }
}

/// Whether `e` is the error value that `f` describes for cell `c` and type `ty`.
pub open spec fn write_error_is(e: WriteCellError, f: WriteFailure, c: CellValue, ty: ColType) -> bool {
    match f {
        WriteFailure::TypeMismatch => e matches WriteCellError::TypeMismatch { cell, ty: t } && cell@
            == kind_name(c) && t == ty,
        WriteFailure::LengthOutOfRange(n) => e matches WriteCellError::LengthOutOfRange { len }
            && len == n,
        WriteFailure::InvalidDate => e matches WriteCellError::InvalidDate { value } && c
            == CellValue::Date(value@),
        WriteFailure::IntegerOutOfRange(v) => e matches WriteCellError::IntegerOutOfRange { value }
            && value == v,
    }
}

// ---------------------------------------------------------------------------
// Reading

fn eof(pos: usize, needed: usize, len: usize) -> (e: HsqlError)
    ensures
        e.kind == (HsqlErrorKind::UnexpectedEof { pos, needed, len }),
{
    HsqlError { kind: HsqlErrorKind::UnexpectedEof { pos, needed, len } }
}

/// `len` bytes at `pos`.
fn read_exact(buf: &[u8], pos: usize, len: usize) -> (r: Result<&[u8], HsqlError>)
    ensures
        r is Ok ==> pos + len <= buf.len(),
        match take_at(buf@, pos as int, len as int) {
            Ok(b) => r matches Ok(s) && s@ == b,
            Err(k) => r matches Err(e) && e.kind == k,
        },
{
    if pos > buf.len() || len > buf.len() - pos {
        return Err(eof(pos, len, buf.len()));
    }
    let end = pos + len;
    Ok(&buf[pos..end])
}

/// The two's-complement value of `b` (at most eight bytes).
fn signed_of(b: &[u8]) -> (v: i64)
    requires
        1 <= b.len() <= 8,
    ensures
        v == be_signed(b@),
{
    let mut acc: i128 = 0;
    let mut i: usize = 0;
    proof {
        lemma_pow256_values();
    }
    while i < b.len()
        invariant
            i <= b.len() <= 8,
            acc == be_unsigned(b@.take(i as int)),
            acc < pow256(i as nat),
            pow256(8) == 0x1_0000_0000_0000_0000,
        decreases b.len() - i,
    {
        proof {
            assert(b@.take(i + 1).drop_last() =~= b@.take(i as int));
            lemma_be_unsigned_bound(b@.take(i + 1));
            crate::hsqldb::bytes::lemma_pow256_mono((i + 1) as nat, 8);
        }
        acc = acc * 256 + b[i] as i128;
        i += 1;
    }
    assert(b@.take(b.len() as int) =~= b@);
    proof {
        lemma_sign_byte(b@);
    }
    let full = pow_256_exec(b.len());
    if b[0] >= 128 {
        (acc - full) as i64
    } else {
        acc as i64
    }
}

/// `256^n` for `n <= 8`.
fn pow_256_exec(n: usize) -> (r: i128)
    requires
        n <= 8,
    ensures
        r == pow256(n as nat),
{
    let mut r: i128 = 1;
    let mut i: usize = 0;
    proof {
        lemma_pow256_values();
    }
    while i < n
        invariant
            i <= n <= 8,
            r == pow256(i as nat),
            pow256(8) == 0x1_0000_0000_0000_0000,
        decreases n - i,
    {
        proof {
            crate::hsqldb::bytes::lemma_pow256_mono((i + 1) as nat, 8);
        }
        r = r * 256;
        i += 1;
    }
    r
}

fn read_u8(buf: &[u8], pos: usize) -> (r: Result<(u8, usize), HsqlError>)
    ensures
        match take_at(buf@, pos as int, 1) {
            Ok(b) => r matches Ok((v, p)) && v == b[0] && p == pos + 1,
            Err(k) => r matches Err(e) && e.kind == k,
        },
{
    let bytes = read_exact(buf, pos, 1)?;
    Ok((bytes[0], pos + 1))
}

pub(crate) fn read_i32(buf: &[u8], pos: usize) -> (r: Result<(i32, usize), HsqlError>)
    ensures
        match take_at(buf@, pos as int, 4) {
            Ok(b) => r matches Ok((v, p)) && v == be_signed(b) && p == pos + 4,
            Err(k) => r matches Err(e) && e.kind == k,
        },
{
    let bytes = read_exact(buf, pos, 4)?;
    proof {
        lemma_sign_byte(bytes@);
        lemma_pow256_values();
    }
    let v = signed_of(bytes);
    Ok((v as i32, pos + 4))
}

fn read_i64(buf: &[u8], pos: usize) -> (r: Result<(i64, usize), HsqlError>)
    ensures
        match take_at(buf@, pos as int, 8) {
            Ok(b) => r matches Ok((v, p)) && v == be_signed(b) && p == pos + 8,
            Err(k) => r matches Err(e) && e.kind == k,
        },
{
    let bytes = read_exact(buf, pos, 8)?;
    let v = signed_of(bytes);
    Ok((v, pos + 8))
}

fn read_len_bytes(buf: &[u8], pos: usize) -> (r: Result<(&[u8], usize), HsqlError>)
    ensures
        match len_bytes_at(buf@, pos as int) {
            Ok((b, q)) => r matches Ok((s, p)) && s@ == b && p == q,
            Err(k) => r matches Err(e) && e.kind == k,
        },
{
    let (len, pos) = read_i32(buf, pos)?;
    if len < 0 {
        return Err(HsqlError { kind: HsqlErrorKind::NegativeLength(len) });
    }
    let len = len as usize;
    let bytes = read_exact(buf, pos, len)?;
    Ok((bytes, pos + len))
}

/// Euclidean quotient of `millis` by one thousand.
fn seconds_of_millis(millis: i64) -> (s: i64)
    ensures
        s == millis as int / 1000,
{
    if millis >= 0 {
        millis / 1000
    } else {
        let a: i128 = 0i128 - millis as i128;
        let q: i128 = 0i128 - (a + 999) / 1000;
        proof {
            let r = millis - q * 1000;
            assert(0 <= r < 1000) by (nonlinear_arith)
                requires
                    a == -millis,
                    a > 0,
                    q == -((a + 999) / 1000),
                    r == millis - q * 1000,
            ;
            vstd::arithmetic::div_mod::lemma_fundamental_div_mod_converse(
                millis as int,
                1000,
                q as int,
                r,
            );
        }
        q as i64
    }
}

fn date_from_millis(millis: i64) -> (r: Result<String, HsqlError>)
    ensures
        match date_text_of_millis(millis as int) {
            Some(t) => r matches Ok(s) && s@ == t,
            None => r matches Err(e) && e.kind == HsqlErrorKind::InvalidDateMillis(millis),
        },
{
    let seconds = seconds_of_millis(millis);
    match civil_date_from_unix_seconds(seconds) {
        Some((year, month, day)) => Ok(format_date(year, month, day)),
        None => Err(HsqlError { kind: HsqlErrorKind::InvalidDateMillis(millis) }),
    }
}

/// Decode one column value at `pos`, returning the cell and the next position.
pub fn read_cell(buf: &[u8], pos: usize, ty: ColType) -> (r: Result<(Cell, usize), HsqlError>)
    ensures
        match cell_at(buf@, pos as int, ty) {
            Ok((c, next)) => r matches Ok((cell, p)) && cell@ == c && p == next,
            Err(k) => r matches Err(e) && e.kind == k,
        },
{
    let (marker, pos) = read_u8(buf, pos)?;
    if marker == 0 {
        return Ok((Cell::Null, pos));
    }
    match ty {
        ColType::Integer => {
            let (value, pos) = read_i32(buf, pos)?;
            Ok((Cell::Int(value as i64), pos))
        },
        ColType::Varchar => {
            let (bytes, pos) = read_len_bytes(buf, pos)?;
            match str_from_utf8(bytes) {
                Some(text) => Ok((Cell::Str(text.to_owned()), pos)),
                None => Err(HsqlError { kind: HsqlErrorKind::InvalidUtf8 }),
            }
        },
        ColType::Date => {
            let (millis, pos) = read_i64(buf, pos)?;
            let text = date_from_millis(millis)?;
            Ok((Cell::Date(text), pos))
        },
        ColType::Numeric => {
            let (bytes, pos) = read_len_bytes(buf, pos)?;
            let (scale, pos) = read_i32(buf, pos)?;
            let unscaled = decode_big_integer(bytes)?;
            let minor = to_minor_units(unscaled, scale)?;
            Ok((Cell::Num(minor), pos))
        },
    }
}

/// The value of a big-endian two's-complement payload.
fn decode_big_integer(bytes: &[u8]) -> (r: Result<i64, HsqlError>)
    ensures
        match big_integer_value(bytes@) {
            Ok(v) => r == Ok::<i64, HsqlError>(v as i64),
            Err(k) => r matches Err(e) && e.kind == k,
        },
{
    if bytes.len() == 0 {
        return Err(HsqlError { kind: HsqlErrorKind::InvalidBigInteger });
    }
    let negative = bytes[0] >= 128;
    let fill: u8 = if negative { 0xff } else { 0x00 };
    let mut start: usize = 0;
    assert(bytes@.skip(0) =~= bytes@);
    while bytes.len() - start > 8
        invariant
            start < bytes.len(),
            be_signed(bytes@.skip(start as int)) == be_signed(bytes@),
            (bytes@[start as int] >= 128) == negative,
            fill == (if negative { 0xffu8 } else { 0u8 }),
        decreases bytes.len() - start,
    {
        let ghost rest = bytes@.skip(start as int);
        assert(rest[0] == bytes@[start as int]);
        assert(rest[1] == bytes@[start + 1]);
        let next_sign_matches = (bytes[start + 1] >= 128) == negative;
        if bytes[start] != fill || !next_sign_matches {
            proof {
                lemma_wide_lead_overflows(rest);
            }
            return Err(HsqlError { kind: HsqlErrorKind::NumericOverflow });
        }
        proof {
            lemma_strip_lead(rest);
            assert(rest.skip(1) =~= bytes@.skip(start + 1));
        }
        start += 1;
    }
    let payload = &bytes[start..bytes.len()];
    assert(payload@ =~= bytes@.skip(start as int));
    let value = signed_of(payload);
    proof {
        lemma_sign_byte(payload@);
        lemma_pow256_values();
        crate::hsqldb::bytes::lemma_pow256_mono(payload@.len(), 8);
    }
    Ok(value)
}

/// Ten raised to `exponent`, when it fits an `i64`.
fn pow10_exec(exponent: u64) -> (r: Option<i64>)
    ensures
        r matches Some(v) ==> v == pow10(exponent as nat),
        r is None ==> pow10(exponent as nat) > i64::MAX,
{
    let mut value: i64 = 1;
    let mut i: u64 = 0;
    while i < exponent
        invariant
            i <= exponent,
            value == pow10(i as nat),
        decreases exponent - i,
    {
        if value > i64::MAX / 10 {
            proof {
                lemma_pow10_mono((i + 1) as nat, exponent as nat);
            }
            return None;
        }
        value = value * 10;
        i += 1;
    }
    Some(value)
}

proof fn lemma_pow10_mono(a: nat, b: nat)
    requires
        a <= b,
    ensures
        pow10(a) <= pow10(b),
    decreases b,
{
    if a < b {
        lemma_pow10_mono(a, (b - 1) as nat);
    }
}

/// An unscaled decimal with `scale` fractional digits, in hundredths.
fn to_minor_units(unscaled: i64, scale: i32) -> (r: Result<i64, HsqlError>)
    ensures
        match minor_units(unscaled as int, scale as int) {
            Ok(v) => r == Ok::<i64, HsqlError>(v as i64),
            Err(k) => r matches Err(e) && e.kind == k,
        },
{
    if scale > 2 {
        return Err(HsqlError { kind: HsqlErrorKind::UnsupportedNumericScale(scale) });
    }
    let exponent = (2i64 - scale as i64) as u64;
    let factor = match pow10_exec(exponent) {
        Some(f) => f,
        None => {
            return Err(HsqlError { kind: HsqlErrorKind::NumericOverflow });
        },
    };
    match unscaled.checked_mul(factor) {
        Some(v) => Ok(v),
        None => Err(HsqlError { kind: HsqlErrorKind::NumericOverflow }),
    }
}


// ---------------------------------------------------------------------------
// Writing

/// Euclidean quotient and remainder by 256.
fn div_mod_256(v: i128) -> (r: (i128, i128))
    requires
        -0x1_0000_0000_0000_0000_0000 <= v <= 0x1_0000_0000_0000_0000_0000,
    ensures
        r.0 == v / 256,
        r.1 == v % 256,
        -0x1_0000_0000_0000_0000_0000 <= r.0 <= 0x1_0000_0000_0000_0000_0000,
{
    if v >= 0 {
        let u = v as u128;
        let q = (u / 256) as i128;
        let m = (u % 256) as i128;
        proof {
            vstd::arithmetic::div_mod::lemma_fundamental_div_mod_converse(v as int, 256, q as int, m as int);
        }
        (q, m)
    } else {
        let a: i128 = 0i128 - v;
        let q: i128 = 0i128 - (a + 255) / 256;
        let m: i128 = v - q * 256;
        proof {
            assert(0 <= m < 256) by (nonlinear_arith)
                requires
                    a == -v,
                    a > 0,
                    q == -((a + 255) / 256),
                    m == v - q * 256,
            ;
            vstd::arithmetic::div_mod::lemma_fundamental_div_mod_converse(v as int, 256, q as int, m as int);
        }
        (q, m)
    }
}

/// The `n`-byte big-endian two's-complement bytes of `v`.
fn be_bytes_exec(v: i128, n: usize) -> (r: Vec<u8>)
    requires
        -0x1_0000_0000_0000_0000_0000 <= v <= 0x1_0000_0000_0000_0000_0000,
    ensures
        r@ == be_bytes(v as int, n as nat),
    decreases n,
{
    if n == 0 {
        Vec::new()
    } else {
        let (q, m) = div_mod_256(v);
        let mut r = be_bytes_exec(q, n - 1);
        r.push(m as u8);
        r
    }
}

proof fn lemma_strip_twos(b: Seq<u8>)
    requires
        b.len() >= 1,
    ensures
        be_signed(strip_twos(b)) == be_signed(b),
        1 <= strip_twos(b).len() <= b.len(),
        is_minimal_twos(strip_twos(b)),
    decreases b.len(),
{
    if redundant_lead(b) {
        lemma_strip_lead(b);
        lemma_strip_twos(b.skip(1));
        assert(strip_twos(b) == strip_twos(b.skip(1)));
    } else {
        assert(strip_twos(b) == b);
    }
}

/// The shortest big-endian two's-complement bytes of `value`.
fn encode_big_integer(value: i64) -> (r: Vec<u8>)
    ensures
        r@ == min_twos(value as int),
{
    let mut bytes = be_bytes_exec(value as i128, 8);
    proof {
        crate::hsqldb::bytes::lemma_be_bytes_unsigned(value as int, 8);
    }
    while bytes.len() > 1 && ((bytes[0] == 0 && bytes[1] < 128) || (bytes[0] == 0xff && bytes[1]
        >= 128))
        invariant
            strip_twos(bytes@) == min_twos(value as int),
            bytes.len() >= 1,
        decreases bytes.len(),
    {
        assert(redundant_lead(bytes@));
        let ghost before = bytes@;
        bytes.remove(0);
        assert(bytes@ =~= before.skip(1));
    }
    assert(!redundant_lead(bytes@));
    bytes
}

fn append_bytes(out: &mut Vec<u8>, bytes: &[u8])
    ensures
        final(out)@ == old(out)@ + bytes@,
{
    let mut i: usize = 0;
    let ghost start = out@;
    while i < bytes.len()
        invariant
            i <= bytes.len(),
            out@ == start + bytes@.take(i as int),
        decreases bytes.len() - i,
    {
        out.push(bytes[i]);
        assert(bytes@.take(i + 1) =~= bytes@.take(i as int).push(bytes@[i as int]));
        i += 1;
    }
    assert(bytes@.take(bytes.len() as int) =~= bytes@);
}

/// Whether writing date text `t` reads back, as the `time` crate promises for
/// valid dates: the instant of a date's midnight lies on that date, within range.
pub open spec fn date_round_trips(t: Seq<char>) -> bool {
    match date_of_text(t) {
        Some(d) => valid_calendar_date(d.0, d.1, d.2) ==> {
            let s = unix_seconds_of_civil_date(d.0, d.1, d.2);
            &&& calendar_date_of_unix_seconds(s) == Some(d)
            &&& -400_000_000_000 <= s <= 400_000_000_000
        },
        None => true,
    }
}

/// A written cell reads back as the cell itself.
#[verifier::spinoff_prover]
#[verifier::rlimit(40)]
pub proof fn lemma_cell_round_trip(prefix: Seq<u8>, c: CellValue, ty: ColType)
    requires
        cell_encoding(c, ty) is Ok,
        c matches CellValue::Date(t) ==> date_round_trips(t),
        c matches CellValue::Num(v) ==> fits_i64(v),
    ensures
        cell_at(prefix + cell_encoding(c, ty)->Ok_0, prefix.len() as int, ty) == Ok::<
            (CellValue, int),
            HsqlErrorKind,
        >((c, prefix.len() + cell_encoding(c, ty)->Ok_0.len() as int)),
{
    let b = cell_encoding(c, ty)->Ok_0;
    let buf = prefix + b;
    let p0 = prefix.len() as int;
    lemma_pow256_values();
    assert(buf.subrange(p0, p0 + 1) =~= seq![b[0]]);
    assert(forall|i: int, j: int| 0 <= i <= j <= b.len() ==> #[trigger] buf.subrange(p0 + i, p0 + j) =~= b.subrange(i, j));
    match c {
        CellValue::Null => {},
        CellValue::Int(v) => {
            lemma_be_bytes_signed(v, 4);
            assert(b.subrange(1, 5) =~= be_bytes(v, 4));
            assert(buf.subrange(p0 + 1, p0 + 5) == b.subrange(1, 5));
        },
        CellValue::Str(s) => {
            let e = encode_utf8(s);
            let n = e.len() as int;
            lemma_be_bytes_signed(n, 4);
            assert(b.subrange(1, 5) =~= be_bytes(n, 4));
            assert(b.subrange(5, 5 + n) =~= e);
            assert(buf.subrange(p0 + 1, p0 + 5) == b.subrange(1, 5));
            assert(buf.subrange(p0 + 5, p0 + 5 + n) == b.subrange(5, 5 + n));
        },
        CellValue::Date(t) => {
            let d = date_of_text(t)->Some_0;
            let sec = unix_seconds_of_civil_date(d.0, d.1, d.2);
            let m = sec * 1000;
            assert(date_of_text(t) == Some(d));
            assert(valid_calendar_date(d.0, d.1, d.2));
            assert(date_round_trips(t));
            assert(-400_000_000_000 <= sec <= 400_000_000_000);
            assert(calendar_date_of_unix_seconds(sec) == Some(d));
            lemma_be_bytes_signed(m, 8);
            assert(b.subrange(1, 9) =~= be_bytes(m, 8));
            assert(buf.subrange(p0 + 1, p0 + 9) == b.subrange(1, 9));
            assert(m / 1000 == sec);
        },
        CellValue::Num(v) => {
            let e = min_twos(v);
            lemma_be_bytes_signed(v, 8);
            lemma_strip_twos(be_bytes(v, 8));
            let n = e.len() as int;
            lemma_be_bytes_signed(n, 4);
            lemma_be_bytes_signed(2, 4);
            assert(b.subrange(1, 5) =~= be_bytes(n, 4));
            assert(b.subrange(5, 5 + n) =~= e);
            assert(b.subrange(5 + n, 9 + n) =~= be_bytes(2, 4));
            assert(buf.subrange(p0 + 1, p0 + 5) == b.subrange(1, 5));
            assert(buf.subrange(p0 + 5, p0 + 5 + n) == b.subrange(5, 5 + n));
            assert(buf.subrange(p0 + 5 + n, p0 + 9 + n) == b.subrange(5 + n, 9 + n));
            assert(pow10(0) == 1);
        },
    }
}

/// Epoch milliseconds of midnight UTC on the date that `value` names.
fn millis_from_date(value: &String) -> (r: Option<i64>)
    ensures
        match iso_date_of_text(value@) {
            Some(d) => r == Some((unix_seconds_of_civil_date(d.0, d.1, d.2) * 1000) as i64),
            None => r is None,
        },
        date_round_trips(value@),
{
    match parse_date(value.as_str()) {
        None => None,
        Some((year, month, day)) => match unix_seconds_of_calendar_date(year, month, day) {
            None => None,
            Some(seconds) => {
                let spelled = format_date(year, month, day);
                if str_is(value.as_str(), spelled.as_str()) {
                    Some(seconds * 1000)
                } else {
                    None
                }
            },
        },
    }
}

fn checked_i32(value: i64) -> (r: Result<i32, WriteCellError>)
    ensures
        i32::MIN <= value <= i32::MAX ==> r == Ok::<i32, WriteCellError>(value as i32),
        !(i32::MIN <= value <= i32::MAX) ==> (r matches Err(WriteCellError::IntegerOutOfRange { value: v }) && v == value),
{
    if value < i32::MIN as i64 || value > i32::MAX as i64 {
        Err(WriteCellError::IntegerOutOfRange { value })
    } else {
        Ok(value as i32)
    }
}

/// Checks that a byte length fits an HSQLDB (signed 32-bit) length prefix.
pub fn checked_hsqldb_len(len: usize) -> (r: Result<i32, WriteCellError>)
    ensures
        len <= i32::MAX ==> r == Ok::<i32, WriteCellError>(len as i32),
        len > i32::MAX ==> (r matches Err(WriteCellError::LengthOutOfRange { len: l }) && l == len),
{
    if len > i32::MAX as usize {
        Err(WriteCellError::LengthOutOfRange { len })
    } else {
        Ok(len as i32)
    }
}

impl Cell {
    /// Name of this cell's variant.
    pub fn kind(&self) -> (r: &'static str)
        ensures
            r@ == kind_name(self@),
    {
        match self {
            Cell::Null => "null",
            Cell::Int(_) => "int",
            Cell::Str(_) => "str",
            Cell::Date(_) => "date",
            Cell::Num(_) => "num",
        }
    }
}

/// Encode one column value using the HSQLDB type encoding. Whatever is
/// written reads back, through [`read_cell`], as the same cell. Date cells
/// must spell a valid date as ISO `YYYY-MM-DD`.
pub fn try_write_cell(out: &mut Vec<u8>, cell: &Cell, ty: ColType) -> (r: Result<(), WriteCellError>)
    ensures
        match cell_encoding(cell@, ty) {
            Ok(b) => r is Ok && final(out)@ == old(out)@ + b,
            Err(f) => final(out)@ == old(out)@ && (r matches Err(e) && write_error_is(e, f, cell@, ty)),
        },
        r is Ok ==> cell_at(final(out)@, old(out)@.len() as int, ty) == Ok::<
            (CellValue, int),
            HsqlErrorKind,
        >((cell@, final(out)@.len() as int)),
{
    let ghost start = out@;
    match (cell, ty) {
        (Cell::Null, _) => {
            out.push(0);
            assert(out@ =~= start + seq![0u8]);
        },
        (Cell::Int(value), ColType::Integer) => {
            let value = checked_i32(*value)?;
            out.push(1);
            let b = be_bytes_exec(value as i128, 4);
            append_bytes(out, b.as_slice());
            assert(out@ =~= start + (seq![1u8] + be_bytes(value as int, 4)));
        },
        (Cell::Str(value), ColType::Varchar) => {
            let bytes = value.as_str().as_bytes();
            let len = checked_hsqldb_len(bytes.len())?;
            out.push(1);
            let b = be_bytes_exec(len as i128, 4);
            append_bytes(out, b.as_slice());
            append_bytes(out, bytes);
            assert(out@ =~= start + (seq![1u8] + be_bytes(len as int, 4) + encode_utf8(value@)));
        },
        (Cell::Date(value), ColType::Date) => {
            let millis = match millis_from_date(value) {
                Some(m) => m,
                None => {
                    return Err(WriteCellError::InvalidDate { value: value.clone() });
                },
            };
            out.push(1);
            let b = be_bytes_exec(millis as i128, 8);
            append_bytes(out, b.as_slice());
            assert(out@ =~= start + (seq![1u8] + be_bytes(millis as int, 8)));
        },
        (Cell::Num(value), ColType::Numeric) => {
            let bytes = encode_big_integer(*value);
            proof {
                crate::hsqldb::bytes::lemma_be_bytes_unsigned(*value as int, 8);
                lemma_strip_twos(be_bytes(*value as int, 8));
            }
            let len = bytes.len() as i32;
            out.push(1);
            let b = be_bytes_exec(len as i128, 4);
            append_bytes(out, b.as_slice());
            append_bytes(out, bytes.as_slice());
            let s = be_bytes_exec(2, 4);
            append_bytes(out, s.as_slice());
            assert(out@ =~= start + (seq![1u8] + be_bytes(len as int, 4) + bytes@ + be_bytes(2, 4)));
        },
        _ => {
            return Err(WriteCellError::TypeMismatch { cell: cell.kind(), ty });
        },
    }
    proof {
        lemma_cell_round_trip(start, cell@, ty);
    }
    Ok(())
}

// ---------------------------------------------------------------------------
// Error text

/// The text that describes a read failure.
pub open spec fn hsql_message(k: HsqlErrorKind) -> Seq<char> {
    match k {
        HsqlErrorKind::UnexpectedEof { pos, needed, len } => "unexpected end of HSQLDB row at byte "@
            + signed_decimal(pos as int) + "; need "@ + signed_decimal(needed as int)
            + " byte(s), buffer has "@ + signed_decimal(len as int),
        HsqlErrorKind::InvalidUtf8 => "invalid UTF-8 in HSQLDB string column"@,
        HsqlErrorKind::InvalidDateMillis(m) => "invalid HSQLDB DATE epoch millis value "@
            + signed_decimal(m as int),
        HsqlErrorKind::NegativeLength(n) => "negative HSQLDB byte length "@ + signed_decimal(n as int),
        HsqlErrorKind::UnsupportedNumericScale(sc) => "unsupported HSQLDB NUMERIC scale "@
            + signed_decimal(sc as int),
        HsqlErrorKind::InvalidBigInteger => "invalid HSQLDB BigInteger payload"@,
        HsqlErrorKind::NumericOverflow => "HSQLDB NUMERIC value does not fit in minor units"@,
        HsqlErrorKind::InvalidRowOffset(o) => "invalid HSQLDB row offset "@ + signed_decimal(o as int),
        HsqlErrorKind::InvalidRowSize(z) => "invalid HSQLDB row block size "@ + signed_decimal(z as int),
        HsqlErrorKind::RowCycle(o) => "cycle while following HSQLDB row index at offset "@
            + signed_decimal(o as int),
    }
}

impl HsqlError {
    /// The failure for a read of `needed` bytes at `pos` past the end of `len` bytes.
    pub fn unexpected_eof(pos: usize, needed: usize, len: usize) -> (e: HsqlError)
        ensures
            e.kind == (HsqlErrorKind::UnexpectedEof { pos, needed, len }),
    {
        HsqlError { kind: HsqlErrorKind::UnexpectedEof { pos, needed, len } }
    }

    /// The failure for a numeric value outside the minor-unit range.
    pub fn numeric_overflow() -> (e: HsqlError)
        ensures
            e.kind == HsqlErrorKind::NumericOverflow,
    {
        HsqlError { kind: HsqlErrorKind::NumericOverflow }
    }

    /// The failure for a row offset that cannot address the data.
    pub fn invalid_row_offset(offset: i64) -> (e: HsqlError)
        ensures
            e.kind == HsqlErrorKind::InvalidRowOffset(offset),
    {
        HsqlError { kind: HsqlErrorKind::InvalidRowOffset(offset) }
    }

    /// The failure for a row block size that cannot hold a row.
    pub fn invalid_row_size(size: i32) -> (e: HsqlError)
        ensures
            e.kind == HsqlErrorKind::InvalidRowSize(size),
    {
        HsqlError { kind: HsqlErrorKind::InvalidRowSize(size) }
    }

    /// The failure for a row index that revisits a row.
    pub fn row_cycle(offset: i64) -> (e: HsqlError)
        ensures
            e.kind == HsqlErrorKind::RowCycle(offset),
    {
        HsqlError { kind: HsqlErrorKind::RowCycle(offset) }
    }

    /// Human-readable description of the failure.
    pub fn message(&self) -> (r: String)
        ensures
            r@ == hsql_message(self.kind),
    {
        let mut out: Vec<char> = Vec::new();
        match &self.kind {
            HsqlErrorKind::UnexpectedEof { pos, needed, len } => {
                push_str(&mut out, "unexpected end of HSQLDB row at byte ");
                push_int(&mut out, *pos as i128);
                push_str(&mut out, "; need ");
                push_int(&mut out, *needed as i128);
                push_str(&mut out, " byte(s), buffer has ");
                push_int(&mut out, *len as i128);
            },
            HsqlErrorKind::InvalidUtf8 => {
                push_str(&mut out, "invalid UTF-8 in HSQLDB string column");
            },
            HsqlErrorKind::InvalidDateMillis(m) => {
                push_str(&mut out, "invalid HSQLDB DATE epoch millis value ");
                push_int(&mut out, *m as i128);
            },
            HsqlErrorKind::NegativeLength(n) => {
                push_str(&mut out, "negative HSQLDB byte length ");
                push_int(&mut out, *n as i128);
            },
            HsqlErrorKind::UnsupportedNumericScale(sc) => {
                push_str(&mut out, "unsupported HSQLDB NUMERIC scale ");
                push_int(&mut out, *sc as i128);
            },
            HsqlErrorKind::InvalidBigInteger => {
                push_str(&mut out, "invalid HSQLDB BigInteger payload");
            },
            HsqlErrorKind::NumericOverflow => {
                push_str(&mut out, "HSQLDB NUMERIC value does not fit in minor units");
            },
            HsqlErrorKind::InvalidRowOffset(o) => {
                push_str(&mut out, "invalid HSQLDB row offset ");
                push_int(&mut out, *o as i128);
            },
            HsqlErrorKind::InvalidRowSize(z) => {
                push_str(&mut out, "invalid HSQLDB row block size ");
                push_int(&mut out, *z as i128);
            },
            HsqlErrorKind::RowCycle(o) => {
                push_str(&mut out, "cycle while following HSQLDB row index at offset ");
                push_int(&mut out, *o as i128);
            },
        }
        assert(out@ =~= hsql_message(self.kind));
        string_from_chars(out.as_slice())
    }
}

} // verus!
