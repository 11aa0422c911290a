//! Expression projection of ledger reports and queries: balance reports
//! become data-position expressions, and `balances` query expressions decode
//! into report calls.
use vstd::prelude::*;

use crate::model::Amount;
use crate::report::{BalanceKey, BalanceRow};
use crate::text::{
    chars_eq, chars_of, int_failure, int_parse_failure, int_text_value, lemma_int_failure_iff,
    int_failure_text, lemma_signed_decimal_parses, parse_int_chars, parse_int_in, push_str, IntParseFailure,
    push_int, signed_decimal, str_is, string_from_chars,
};

verus! {

broadcast use vstd::string::group_string_axioms;

/// A symbol, with an optional namespace.
#[derive(Clone, Debug, PartialEq, Eq)]
pub struct Symbol {
    /// Namespace, such as `ledger`.
    pub namespace: Option<String>,
    /// Name within the namespace.
    pub name: String,
}

/// A number literal: its domain and canonical text.
#[derive(Clone, Debug, PartialEq, Eq)]
pub struct NumberLiteral {
    /// Number domain, such as `ledger/integer`.
    pub domain: Symbol,
    /// Canonical decimal text.
    pub canonical: String,
}

/// The expression forms the ledger codec reads and writes.
#[derive(Debug, PartialEq, Eq)]
pub enum Expr {
    /// A symbol.
    Symbol(Symbol),
    /// A number literal.
    Number(NumberLiteral),
    /// A list of expressions.
    List(Vec<Expr>),
    /// A map as key and value pairs, in order.
    Entries(Vec<(Expr, Expr)>),
    /// Any other form.
    Other,
}

/// A decoded `balances` report call.
#[derive(Clone, Debug, PartialEq, Eq)]
pub struct BalancesCall {
    /// Ledger years to include.
    pub years: Vec<i32>,
    /// When true, group balances by SRU code instead of year-local account.
    pub by_sru: bool,
}

/// Failure while decoding a ledger query expression.
#[derive(Clone, Debug, PartialEq, Eq)]
pub enum LedgerCodecError {
    /// The root form was not a map.
    ExpectedMap,
    /// A required field is missing.
    MissingField {
        /// Field name.
        field: &'static str,
    },
    /// A field had the wrong expression shape.
    WrongField {
        /// Field name.
        field: &'static str,
        /// Expected shape.
        expected: &'static str,
    },
    /// A symbol carried an unsupported value.
    UnsupportedSymbol {
        /// Field name.
        field: &'static str,
        /// Unsupported symbol text.
        symbol: String,
    },
    /// An integer literal used the wrong number domain.
    UnsupportedNumberDomain {
        /// Field name.
        field: &'static str,
        /// Number domain text.
        domain: String,
    },
    /// An integer literal did not parse.
    InvalidInteger {
        /// Field name.
        field: &'static str,
        /// Why the literal does not parse.
        source: IntParseFailure,
    },
    /// A year literal did not fit in `i32`.
    YearOutOfRange {
        /// The year literal's value.
        value: i64,
    },
}

/// What a decoding failure states.
pub enum CodecFailure {
    /// The root form was not a map.
    ExpectedMap,
    /// A required field is missing.
    MissingField { field: &'static str },
    /// A field had the wrong shape.
    WrongField { field: &'static str, expected: &'static str },
    /// An unsupported symbol, as qualified text.
    UnsupportedSymbol { field: &'static str, symbol: Seq<char> },
    /// An unsupported number domain, as qualified text.
    UnsupportedNumberDomain { field: &'static str, domain: Seq<char> },
    /// An integer literal that does not parse.
    InvalidInteger { field: &'static str, source: IntParseFailure },
    /// A year beyond `i32`.
    YearOutOfRange { value: i64 },
}

impl View for LedgerCodecError {
    type V = CodecFailure;

    open spec fn view(&self) -> CodecFailure {
        match self {
            LedgerCodecError::ExpectedMap => CodecFailure::ExpectedMap,
            LedgerCodecError::MissingField { field } => CodecFailure::MissingField { field: *field },
            LedgerCodecError::WrongField { field, expected } => CodecFailure::WrongField { field: *field, expected: *expected },
            LedgerCodecError::UnsupportedSymbol { field, symbol } => CodecFailure::UnsupportedSymbol { field: *field, symbol: symbol@ },
            LedgerCodecError::UnsupportedNumberDomain { field, domain } => CodecFailure::UnsupportedNumberDomain {
                field: *field,
                domain: domain@,
            },
            LedgerCodecError::InvalidInteger { field, source } => CodecFailure::InvalidInteger { field: *field, source: *source },
            LedgerCodecError::YearOutOfRange { value } => CodecFailure::YearOutOfRange { value: *value },
        }
    }
}

// ---------------------------------------------------------------------------
// Symbols

/// `ledger`
pub open spec fn ledger_ns() -> Seq<char> {
    seq!['l', 'e', 'd', 'g', 'e', 'r']
}

/// The qualified text of a symbol: `namespace/name`, or the bare name.
pub open spec fn qualified_text(s: Symbol) -> Seq<char> {
    match s.namespace {
        Some(ns) => ns@ + seq!['/'] + s.name@,
        None => s.name@,
    }
}

/// Whether `s` is the symbol `ledger/<name>`.
pub open spec fn is_ledger_symbol(s: Symbol, name: Seq<char>) -> bool {
    s.namespace matches Some(ns) && ns@ == ledger_ns() && s.name@ == name
}

/// Whether `e` is the bare symbol `name`.
pub open spec fn is_field_key(e: Expr, name: Seq<char>) -> bool {
    e matches Expr::Symbol(s) && s.namespace is None && s.name@ == name
}

/// The symbol `ledger/<name>`.
fn ledger_symbol(name: &[char]) -> (s: Symbol)
    ensures
        is_ledger_symbol(s, name@),
{
    let ns = vec!['l', 'e', 'd', 'g', 'e', 'r'];
    assert(ns@ =~= ledger_ns());
    Symbol { namespace: Some(string_from_chars(ns.as_slice())), name: string_from_chars(name) }
}

impl Symbol {
    /// A symbol without a namespace.
    pub fn new(name: &str) -> (s: Symbol)
        ensures
            s.namespace is None,
            s.name@ == name@,
    {
        Symbol { namespace: None, name: name.to_owned() }
    }

    /// A symbol in a namespace.
    pub fn qualified(namespace: &str, name: &str) -> (s: Symbol)
        ensures
            s.namespace matches Some(ns) && ns@ == namespace@,
            s.name@ == name@,
    {
        Symbol { namespace: Some(namespace.to_owned()), name: name.to_owned() }
    }

    /// The qualified text: `namespace/name`, or the bare name.
    pub fn as_qualified_str(&self) -> (r: String)
        ensures
            r@ == qualified_text(*self),
    {
        match &self.namespace {
            Some(ns) => {
                let mut out = chars_of(ns.as_str());
                out.push('/');
                let name = chars_of(self.name.as_str());
                crate::text::push_chars(&mut out, &name);
                string_from_chars(out.as_slice())
            },
            None => self.name.clone(),
        }
    }
}

/// What a decoding failure says, for people.
pub open spec fn codec_failure_text(e: CodecFailure) -> Seq<char> {
    match e {
        CodecFailure::ExpectedMap => "ledger query must be a map"@,
        CodecFailure::MissingField { field } => "ledger query is missing field "@ + field@,
        CodecFailure::WrongField { field, expected } => "ledger query field "@ + field@ + " must be "@ + expected@,
        CodecFailure::UnsupportedSymbol { field, symbol } => "unsupported ledger symbol "@ + symbol + " in field "@ + field@,
        CodecFailure::UnsupportedNumberDomain { field, domain } => "unsupported ledger number domain "@ + domain
            + " in field "@ + field@,
        CodecFailure::InvalidInteger { field, source } => "invalid ledger integer in field "@ + field@ + ": "@
            + int_failure_text(source),
        CodecFailure::YearOutOfRange { .. } => "ledger year is out of range: out of range integral type conversion attempted"@,
    }
}

impl LedgerCodecError {
    /// What went wrong, for people.
    pub fn message(&self) -> (r: String)
        ensures
            r@ == codec_failure_text(self@),
    {
        let mut out: Vec<char> = Vec::new();
        match self {
            LedgerCodecError::ExpectedMap => {
                push_str(&mut out, "ledger query must be a map");
            },
            LedgerCodecError::MissingField { field } => {
                push_str(&mut out, "ledger query is missing field ");
                push_str(&mut out, field);
            },
            LedgerCodecError::WrongField { field, expected } => {
                push_str(&mut out, "ledger query field ");
                push_str(&mut out, field);
                push_str(&mut out, " must be ");
                push_str(&mut out, expected);
            },
            LedgerCodecError::UnsupportedSymbol { field, symbol } => {
                push_str(&mut out, "unsupported ledger symbol ");
                push_str(&mut out, symbol.as_str());
                push_str(&mut out, " in field ");
                push_str(&mut out, field);
            },
            LedgerCodecError::UnsupportedNumberDomain { field, domain } => {
                push_str(&mut out, "unsupported ledger number domain ");
                push_str(&mut out, domain.as_str());
                push_str(&mut out, " in field ");
                push_str(&mut out, field);
            },
            LedgerCodecError::InvalidInteger { field, source } => {
                push_str(&mut out, "invalid ledger integer in field ");
                push_str(&mut out, field);
                push_str(&mut out, ": ");
                push_str(&mut out, source.text());
            },
            LedgerCodecError::YearOutOfRange { .. } => {
                push_str(&mut out, "ledger year is out of range: out of range integral type conversion attempted");
            },
        }
        string_from_chars(out.as_slice())
    }
}

// ---------------------------------------------------------------------------
// Encoding

/// Whether `e` is the integer `v` as a `ledger/integer` number.
pub open spec fn is_integer_expr(e: Expr, v: int) -> bool {
    e matches Expr::Number(n) && is_ledger_symbol(n.domain, seq!['i', 'n', 't', 'e', 'g', 'e', 'r']) && n.canonical@ == signed_decimal(v)
}

/// Whether `e` is the symbol `ledger/<name>`.
pub open spec fn is_symbol_expr(e: Expr, name: Seq<char>) -> bool {
    e matches Expr::Symbol(s) && is_ledger_symbol(s, name)
}

/// Whether `e` is the amount `a` as a `ledger/minor` number.
pub open spec fn is_amount_expr(e: Expr, a: Amount) -> bool {
    e matches Expr::Number(n) && is_ledger_symbol(n.domain, seq!['m', 'i', 'n', 'o', 'r']) && n.canonical@ == signed_decimal(a.0 as int)
}

/// `kind`
pub open spec fn kind_word() -> Seq<char> { seq!['k', 'i', 'n', 'd'] }
/// `years`
pub open spec fn years_word() -> Seq<char> { seq!['y', 'e', 'a', 'r', 's'] }
/// `by`
pub open spec fn by_word() -> Seq<char> { seq!['b', 'y'] }

/// The integer `value` as a `ledger/integer` number.
fn integer_expr(value: i64) -> (e: Expr)
    ensures
        is_integer_expr(e, value as int),
{
    let mut digits: Vec<char> = Vec::new();
    push_int(&mut digits, value as i128);
    assert(digits@ =~= signed_decimal(value as int));
    Expr::Number(NumberLiteral { domain: ledger_symbol(&['i', 'n', 't', 'e', 'g', 'e', 'r']), canonical: string_from_chars(digits.as_slice()) })
}

/// An amount as a `ledger/minor` number.
fn amount_expr(amount: Amount) -> (e: Expr)
    ensures
        is_amount_expr(e, amount),
{
    let mut digits: Vec<char> = Vec::new();
    push_int(&mut digits, amount.0 as i128);
    assert(digits@ =~= signed_decimal(amount.0 as int));
    Expr::Number(NumberLiteral { domain: ledger_symbol(&['m', 'i', 'n', 'o', 'r']), canonical: string_from_chars(digits.as_slice()) })
}

/// The map entry `name: value`.
fn entry(name: &[char], value: Expr) -> (r: (Expr, Expr))
    ensures
        is_field_key(r.0, name@),
        r.1 == value,
{
    (Expr::Symbol(Symbol { namespace: None, name: string_from_chars(name) }), value)
}

/// A map of entries.
fn map(entries: Vec<(Expr, Expr)>) -> (e: Expr)
    ensures
        e == Expr::Entries(entries),
{
    Expr::Entries(entries)
}

/// Whether `e` is the expression of a balance key.
pub open spec fn is_key_expr(e: Expr, key: BalanceKey) -> bool {
    e matches Expr::Entries(entries) && match key {
        BalanceKey::Account { year, account } => {
            &&& entries@.len() == 3
            &&& is_field_key(entries@[0].0, kind_word()) && is_symbol_expr(entries@[0].1, seq!['a', 'c', 'c', 'o', 'u', 'n', 't'])
            &&& is_field_key(entries@[1].0, seq!['y', 'e', 'a', 'r']) && is_integer_expr(entries@[1].1, year as int)
            &&& is_field_key(entries@[2].0, seq!['a', 'c', 'c', 'o', 'u', 'n', 't']) && is_integer_expr(entries@[2].1, account as int)
        },
        BalanceKey::Sru { code } => {
            &&& entries@.len() == 2
            &&& is_field_key(entries@[0].0, kind_word()) && is_symbol_expr(entries@[0].1, seq!['s', 'r', 'u'])
            &&& is_field_key(entries@[1].0, seq!['c', 'o', 'd', 'e']) && is_integer_expr(entries@[1].1, code as int)
        },
    }
}

/// Whether `e` is the expression of a balance row.
pub open spec fn is_row_expr(e: Expr, row: BalanceRow) -> bool {
    e matches Expr::Entries(entries) && {
        &&& entries@.len() == 3
        &&& is_field_key(entries@[0].0, kind_word()) && is_symbol_expr(entries@[0].1, seq!['b', 'a', 'l', 'a', 'n', 'c', 'e', '-', 'r', 'o', 'w'],
        )
        &&& is_field_key(entries@[1].0, seq!['k', 'e', 'y']) && is_key_expr(entries@[1].1, row.key)
        &&& is_field_key(entries@[2].0, seq!['a', 'm', 'o', 'u', 'n', 't']) && is_amount_expr(entries@[2].1, row.amount)
    }
}

/// Whether `e` is the report expression of `rows`.
pub open spec fn is_report_expr(e: Expr, rows: Seq<BalanceRow>) -> bool {
    e matches Expr::Entries(entries) && {
        &&& entries@.len() == 2
        &&& is_field_key(entries@[0].0, kind_word()) && is_symbol_expr(entries@[0].1, seq!['r', 'e', 'p', 'o', 'r', 't'],
        )
        &&& is_field_key(entries@[1].0, seq!['r', 'o', 'w', 's']) && (entries@[1].1 matches Expr::List(items) && items@.len()
            == rows.len() && forall|i: int| 0 <= i < rows.len() ==> is_row_expr(#[trigger] items@[i], rows[i]))
    }
}

fn balance_key_to_expr(key: &BalanceKey) -> (e: Expr)
    ensures
        is_key_expr(e, *key),
{
    match key {
        BalanceKey::Account { year, account } => {
            let kind = entry(&['k', 'i', 'n', 'd'], Expr::Symbol(ledger_symbol(&['a', 'c', 'c', 'o', 'u', 'n', 't'])));
            let y = entry(&['y', 'e', 'a', 'r'], integer_expr(*year as i64));
            let a = entry(&['a', 'c', 'c', 'o', 'u', 'n', 't'], integer_expr(*account));
            map(vec![kind, y, a])
        },
        BalanceKey::Sru { code } => {
            let kind = entry(&['k', 'i', 'n', 'd'], Expr::Symbol(ledger_symbol(&['s', 'r', 'u'])));
            let c = entry(&['c', 'o', 'd', 'e'], integer_expr(*code as i64));
            map(vec![kind, c])
        },
    }
}

fn balance_row_to_expr(row: &BalanceRow) -> (e: Expr)
    ensures
        is_row_expr(e, *row),
{
    let kind = entry(&['k', 'i', 'n', 'd'], Expr::Symbol(ledger_symbol(&['b', 'a', 'l', 'a', 'n', 'c', 'e', '-', 'r', 'o', 'w'])));
    let key = entry(&['k', 'e', 'y'], balance_key_to_expr(&row.key));
    let amount = entry(&['a', 'm', 'o', 'u', 'n', 't'], amount_expr(row.amount));
    map(vec![kind, key, amount])
}

/// Encode balance report rows as a data-position expression:
/// `{kind: ledger/report, rows: [...]}` with one `ledger/balance-row` map per
/// row.
pub fn report_to_expr(rows: &[BalanceRow]) -> (e: Expr)
    ensures
        is_report_expr(e, rows@),
{
    let mut items: Vec<Expr> = Vec::new();
    let mut i: usize = 0;
    while i < rows.len()
        invariant
            i <= rows.len(),
            items@.len() == i,
            forall|k: int| 0 <= k < i ==> is_row_expr(#[trigger] items@[k], rows@[k]),
        decreases rows.len() - i,
    {
        items.push(balance_row_to_expr(&rows[i]));
        i += 1;
    }
    let kind = entry(&['k', 'i', 'n', 'd'], Expr::Symbol(ledger_symbol(&['r', 'e', 'p', 'o', 'r', 't'])));
    let list = entry(&['r', 'o', 'w', 's'], Expr::List(items));
    map(vec![kind, list])
}

/// Whether `e` is the `balances` query expression for `years` and `by_sru`.
pub open spec fn is_balances_query(e: Expr, years: Seq<i32>, by_sru: bool) -> bool {
    e matches Expr::Entries(entries) && {
        &&& entries@.len() == 3
        &&& is_field_key(entries@[0].0, kind_word()) && is_symbol_expr(entries@[0].1, seq!['b', 'a', 'l', 'a', 'n', 'c', 'e', 's'],
        )
        &&& is_field_key(entries@[1].0, years_word()) && (entries@[1].1 matches Expr::List(items) && items@.len() == years.len()
            && forall|i: int| 0 <= i < years.len() ==> is_integer_expr(#[trigger] items@[i], years[i] as int))
        &&& is_field_key(entries@[2].0, by_word()) && is_symbol_expr(entries@[2].1, if by_sru { seq!['s', 'r', 'u'] } else { seq!['a', 'c', 'c', 'o', 'u', 'n', 't'] },
        )
    }
}

/// Build the expression of a `balances` query:
/// `{kind: ledger/balances, years: [...], by: ledger/sru | ledger/account}`.
pub fn balances_query_expr(years: &[i32], by_sru: bool) -> (e: Expr)
    ensures
        is_balances_query(e, years@, by_sru),
{
    let mut items: Vec<Expr> = Vec::new();
    let mut i: usize = 0;
    while i < years.len()
        invariant
            i <= years.len(),
            items@.len() == i,
            forall|k: int| 0 <= k < i ==> is_integer_expr(#[trigger] items@[k], years@[k] as int),
        decreases years.len() - i,
    {
        items.push(integer_expr(years[i] as i64));
        i += 1;
    }
    let kind = entry(&['k', 'i', 'n', 'd'], Expr::Symbol(ledger_symbol(&['b', 'a', 'l', 'a', 'n', 'c', 'e', 's'])));
    let list = entry(&['y', 'e', 'a', 'r', 's'], Expr::List(items));
    let by = entry(&['b', 'y'], Expr::Symbol(ledger_symbol(if by_sru { &['s', 'r', 'u'] } else { &['a', 'c', 'c', 'o', 'u', 'n', 't'] })));
    map(vec![kind, list, by])
}

// ---------------------------------------------------------------------------
// Decoding

/// The value of the first entry keyed by the bare symbol `name`.
pub open spec fn field_value(entries: Seq<(Expr, Expr)>, name: Seq<char>) -> Option<Expr>
    decreases entries.len(),
{
    if entries.len() == 0 {
        None
    } else if is_field_key(entries[0].0, name) {
        Some(entries[0].1)
    } else {
        field_value(entries.skip(1), name)
    }
}

/// A required field.
pub open spec fn required_field(entries: Seq<(Expr, Expr)>, field: &'static str) -> Result<Expr, CodecFailure> {
    match field_value(entries, field@) {
        Some(e) => Ok(e),
        None => Err(CodecFailure::MissingField { field }),
    }
}

/// The integer of a `ledger/integer` number.
pub open spec fn integer_value(e: Expr, field: &'static str) -> Result<i64, CodecFailure> {
    match e {
        Expr::Number(n) => if !is_ledger_symbol(n.domain, seq!['i', 'n', 't', 'e', 'g', 'e', 'r']) {
            Err(CodecFailure::UnsupportedNumberDomain { field, domain: qualified_text(n.domain) })
        } else {
            match parse_int_in(n.canonical@, i64::MIN as int, i64::MAX as int) {
                Some(v) => Ok(v as i64),
                None => Err(CodecFailure::InvalidInteger {
                    field,
                    source: int_failure(n.canonical@, i64::MIN as int, i64::MAX as int).unwrap(),
                }),
            }
        },
        _ => Err(CodecFailure::WrongField { field, expected: "an integer number" }),
    }
}

/// The years of a list of year numbers, or the failure of the first bad one.
pub open spec fn years_value(items: Seq<Expr>) -> Result<Seq<i32>, CodecFailure>
    decreases items.len(),
{
    if items.len() == 0 {
        Ok(Seq::empty())
    } else {
        match years_value(items.drop_last()) {
            Err(e) => Err(e),
            Ok(done) => match integer_value(items.last(), "years") {
                Err(e) => Err(e),
                Ok(v) => if i32::MIN <= v <= i32::MAX {
                    Ok(done.push(v as i32))
                } else {
                    Err(CodecFailure::YearOutOfRange { value: v })
                },
            },
        }
    }
}

/// What a `balances` query expression decodes to: its years and whether it
/// groups by SRU code, or the first failure.
pub open spec fn decoded_balances(e: Expr) -> Result<(Seq<i32>, bool), CodecFailure> {
    match e {
        Expr::Entries(entries) => match required_field(entries@, "kind") {
            Err(f) => Err(f),
            Ok(Expr::Symbol(s)) => if !is_ledger_symbol(s, seq!['b', 'a', 'l', 'a', 'n', 'c', 'e', 's']) {
                Err(CodecFailure::UnsupportedSymbol { field: "kind", symbol: qualified_text(s) })
            } else {
                match required_field(entries@, "years") {
                    Err(f) => Err(f),
                    Ok(Expr::List(items)) => match years_value(items@) {
                        Err(f) => Err(f),
                        Ok(years) => match required_field(entries@, "by") {
                            Err(f) => Err(f),
                            Ok(Expr::Symbol(b)) => if qualified_text(b) == ledger_ns() + seq!['/'] + seq!['a', 'c', 'c', 'o', 'u', 'n', 't'] {
                                Ok((years, false))
                            } else if qualified_text(b) == ledger_ns() + seq!['/'] + seq!['s', 'r', 'u'] {
                                Ok((years, true))
                            } else {
                                Err(CodecFailure::UnsupportedSymbol { field: "by", symbol: qualified_text(b) })
                            },
                            Ok(_) => Err(CodecFailure::WrongField { field: "by", expected: "a symbol" }),
                        },
                    },
                    Ok(_) => Err(CodecFailure::WrongField { field: "years", expected: "a list" }),
                }
            },
            Ok(_) => Err(CodecFailure::WrongField { field: "kind", expected: "a symbol" }),
        },
        _ => Err(CodecFailure::ExpectedMap),
    }
}

fn expect_map(expr: &Expr) -> (r: Result<&Vec<(Expr, Expr)>, LedgerCodecError>)
    ensures
        match *expr {
            Expr::Entries(entries) => r matches Ok(v) && *v == entries,
            _ => r matches Err(e) && e@ == CodecFailure::ExpectedMap,
        },
{
    match expr {
        Expr::Entries(entries) => Ok(entries),
        _ => Err(LedgerCodecError::ExpectedMap),
    }
}

fn field<'a>(entries: &'a [(Expr, Expr)], name: &'static str) -> (r: Result<&'a Expr, LedgerCodecError>)
    ensures
        match required_field(entries@, name) {
            Ok(e) => r matches Ok(x) && *x == e,
            Err(f) => r matches Err(x) && x@ == f,
        },
{
    let mut i: usize = 0;
    assert(entries@.skip(0) =~= entries@);
    while i < entries.len()
        invariant
            i <= entries.len(),
            field_value(entries@, name@) == field_value(entries@.skip(i as int), name@),
        decreases entries.len() - i,
    {
        assert(entries@.skip(i as int)[0] == entries@[i as int]);
        assert(entries@.skip(i as int).skip(1) =~= entries@.skip(i + 1));
        let found = match &entries[i].0 {
            Expr::Symbol(s) => s.namespace.is_none() && str_is(s.name.as_str(), name),
            _ => false,
        };
        if found {
            return Ok(&entries[i].1);
        }
        i += 1;
    }
    assert(entries@.skip(i as int).len() == 0);
    Err(LedgerCodecError::MissingField { field: name })
}

fn expect_list<'a>(expr: &'a Expr, field: &'static str) -> (r: Result<&'a Vec<Expr>, LedgerCodecError>)
    ensures
        match *expr {
            Expr::List(items) => r matches Ok(v) && *v == items,
            _ => r matches Err(e) && e@ == (CodecFailure::WrongField { field, expected: "a list" }),
        },
{
    match expr {
        Expr::List(items) => Ok(items),
        _ => Err(LedgerCodecError::WrongField { field, expected: "a list" }),
    }
}

fn expect_symbol<'a>(expr: &'a Expr, field: &'static str) -> (r: Result<&'a Symbol, LedgerCodecError>)
    ensures
        match *expr {
            Expr::Symbol(s) => r matches Ok(v) && *v == s,
            _ => r matches Err(e) && e@ == (CodecFailure::WrongField { field, expected: "a symbol" }),
        },
{
    match expr {
        Expr::Symbol(s) => Ok(s),
        _ => Err(LedgerCodecError::WrongField { field, expected: "a symbol" }),
    }
}

/// Whether `s` is `ledger/<name>`.
fn is_ledger(s: &Symbol, name: &[char]) -> (r: bool)
    ensures
        r == is_ledger_symbol(*s, name@),
{
    let ledger = vec!['l', 'e', 'd', 'g', 'e', 'r'];
    assert(ledger@ =~= ledger_ns());
    match &s.namespace {
        Some(ns) => {
            let nsv = chars_of(ns.as_str());
            let nv = chars_of(s.name.as_str());
            chars_eq(nsv.as_slice(), ledger.as_slice()) && chars_eq(nv.as_slice(), name)
        },
        None => false,
    }
}

fn expect_kind(entries: &[(Expr, Expr)], expected: &[char]) -> (r: Result<(), LedgerCodecError>)
    ensures
        match required_field(entries@, "kind") {
            Err(f) => r matches Err(x) && x@ == f,
            Ok(Expr::Symbol(s)) => if is_ledger_symbol(s, expected@) {
                r is Ok
            } else {
                r matches Err(x) && x@ == (CodecFailure::UnsupportedSymbol { field: "kind", symbol: qualified_text(s) })
            },
            Ok(_) => r matches Err(x) && x@ == (CodecFailure::WrongField { field: "kind", expected: "a symbol" }),
        },
{
    let symbol = expect_symbol(field(entries, "kind")?, "kind")?;
    if is_ledger(symbol, expected) {
        Ok(())
    } else {
        Err(LedgerCodecError::UnsupportedSymbol { field: "kind", symbol: symbol.as_qualified_str() })
    }
}

fn read_integer(expr: &Expr, field: &'static str) -> (r: Result<i64, LedgerCodecError>)
    ensures
        match integer_value(*expr, field) {
            Ok(v) => r == Ok::<i64, LedgerCodecError>(v),
            Err(f) => r matches Err(x) && x@ == f,
        },
{
    match expr {
        Expr::Number(n) => {
            let integer = vec!['i', 'n', 't', 'e', 'g', 'e', 'r'];
            assert(integer@ =~= seq!['i', 'n', 't', 'e', 'g', 'e', 'r']);
            if !is_ledger(&n.domain, integer.as_slice()) {
                return Err(LedgerCodecError::UnsupportedNumberDomain { field, domain: n.domain.as_qualified_str() });
            }
            let cs = chars_of(n.canonical.as_str());
            match parse_int_chars(cs.as_slice(), i64::MIN, i64::MAX) {
                Some(v) => Ok(v),
                None => {
                    proof {
                        lemma_int_failure_iff(cs@, i64::MIN as int, i64::MAX as int);
                    }
                    let source = int_parse_failure(cs.as_slice(), i64::MIN, i64::MAX).unwrap();
                    Err(LedgerCodecError::InvalidInteger { field, source })
                },
            }
        },
        _ => Err(LedgerCodecError::WrongField { field, expected: "an integer number" }),
    }
}

proof fn lemma_years_prefix_err(items: Seq<Expr>, k: int, n: int)
    requires
        0 <= k <= n <= items.len(),
        years_value(items.take(k)) is Err,
    ensures
        years_value(items.take(n)) == years_value(items.take(k)),
    decreases n - k,
{
    if n > k {
        lemma_years_prefix_err(items, k, n - 1);
        assert(items.take(n).drop_last() =~= items.take(n - 1));
    }
}

/// The years of a list of year numbers.
fn read_years(items: &Vec<Expr>) -> (r: Result<Vec<i32>, LedgerCodecError>)
    ensures
        match years_value(items@) {
            Ok(ys) => r matches Ok(v) && v@ == ys,
            Err(f) => r matches Err(x) && x@ == f,
        },
{
    let mut out: Vec<i32> = Vec::new();
    let mut i: usize = 0;
    assert(items@.take(0) =~= Seq::<Expr>::empty());
    while i < items.len()
        invariant
            i <= items.len(),
            years_value(items@.take(i as int)) == Ok::<Seq<i32>, CodecFailure>(out@),
        decreases items.len() - i,
    {
        assert(items@.take(i + 1).drop_last() =~= items@.take(i as int));
        assert(items@.take(i + 1).last() == items@[i as int]);
        let year = match read_integer(&items[i], "years") {
            Ok(v) => v,
            Err(e) => {
                proof {
                    lemma_years_prefix_err(items@, i + 1, items.len() as int);
                    assert(items@.take(items.len() as int) =~= items@);
                }
                return Err(e);
            },
        };
        if year < i32::MIN as i64 || year > i32::MAX as i64 {
            proof {
                lemma_years_prefix_err(items@, i + 1, items.len() as int);
                assert(items@.take(items.len() as int) =~= items@);
            }
            return Err(LedgerCodecError::YearOutOfRange { value: year });
        }
        out.push(year as i32);
        i += 1;
    }
    assert(items@.take(items.len() as int) =~= items@);
    Ok(out)
}

/// Decode a ledger query expression into a `balances` report call.
pub fn balances_call_from_expr(expr: &Expr) -> (r: Result<BalancesCall, LedgerCodecError>)
    ensures
        match decoded_balances(*expr) {
            Ok((years, by_sru)) => r matches Ok(call) && call.years@ == years && call.by_sru == by_sru,
            Err(f) => r matches Err(x) && x@ == f,
        },
{
    let entries = expect_map(expr)?;
    let balances = vec!['b', 'a', 'l', 'a', 'n', 'c', 'e', 's'];
    assert(balances@ =~= seq!['b', 'a', 'l', 'a', 'n', 'c', 'e', 's']);
    expect_kind(entries.as_slice(), balances.as_slice())?;
    let items = expect_list(field(entries.as_slice(), "years")?, "years")?;
    let years = read_years(items)?;
    let by = expect_symbol(field(entries.as_slice(), "by")?, "by")?;
    let text = chars_of(by.as_qualified_str().as_str());
    let account = vec!['l', 'e', 'd', 'g', 'e', 'r', '/', 'a', 'c', 'c', 'o', 'u', 'n', 't'];
    let sru = vec!['l', 'e', 'd', 'g', 'e', 'r', '/', 's', 'r', 'u'];
    assert(account@ =~= ledger_ns() + seq!['/'] + seq!['a', 'c', 'c', 'o', 'u', 'n', 't']);
    assert(sru@ =~= ledger_ns() + seq!['/'] + seq!['s', 'r', 'u']);
    let by_sru = if chars_eq(text.as_slice(), account.as_slice()) {
        false
    } else if chars_eq(text.as_slice(), sru.as_slice()) {
        true
    } else {
        return Err(LedgerCodecError::UnsupportedSymbol { field: "by", symbol: by.as_qualified_str() });
    };
    Ok(BalancesCall { years, by_sru })
}

/// A `balances` query reads back as the call it was built from: decoding the
/// expression that `balances_query_expr` builds for some years and grouping
/// gives those years and that grouping.
pub proof fn lemma_balances_query_round_trip(e: Expr, years: Seq<i32>, by_sru: bool)
    requires
        is_balances_query(e, years, by_sru),
    ensures
        decoded_balances(e) == Ok::<(Seq<i32>, bool), CodecFailure>((years, by_sru)),
{
    reveal_strlit("kind");
    reveal_strlit("years");
    reveal_strlit("by");
    assert("kind"@ =~= kind_word());
    assert("years"@ =~= years_word());
    assert("by"@ =~= by_word());
    let entries = e->Entries_0@;
    assert(field_value(entries, kind_word()) == Some(entries[0].1));
    assert(field_value(entries, years_word()) == Some(entries[1].1)) by {
        assert(!is_field_key(entries[0].0, years_word()));
        assert(entries.skip(1)[0] == entries[1]);
        assert(field_value(entries.skip(1), years_word()) == Some(entries[1].1));
    }
    assert(field_value(entries, by_word()) == Some(entries[2].1)) by {
        assert(!is_field_key(entries[0].0, by_word()));
        assert(!is_field_key(entries[1].0, by_word()));
        assert(entries.skip(1)[0] == entries[1]);
        assert(entries.skip(1).skip(1)[0] == entries[2]);
        assert(field_value(entries.skip(1).skip(1), by_word()) == Some(entries[2].1));
        assert(field_value(entries.skip(1), by_word()) == Some(entries[2].1));
    }
    let items = entries[1].1->List_0@;
    lemma_years_round_trip(items, years);
    assert(items.take(items.len() as int) =~= items);
    let b = entries[2].1->Symbol_0;
    assert(qualified_text(b) == ledger_ns() + seq!['/'] + b.name@);
    if by_sru {
        assert(qualified_text(b) != ledger_ns() + seq!['/'] + seq!['a', 'c', 'c', 'o', 'u', 'n', 't']) by {
            assert(qualified_text(b).len() != (ledger_ns() + seq!['/'] + seq!['a', 'c', 'c', 'o', 'u', 'n', 't']).len());
        }
    }
}

proof fn lemma_years_round_trip(items: Seq<Expr>, years: Seq<i32>)
    requires
        items.len() == years.len(),
        forall|i: int| 0 <= i < years.len() ==> is_integer_expr(#[trigger] items[i], years[i] as int),
    ensures
        years_value(items) == Ok::<Seq<i32>, CodecFailure>(years),
    decreases items.len(),
{
    reveal_strlit("years");
    if items.len() > 0 {
        let t = items.drop_last();
        assert forall|i: int| 0 <= i < years.drop_last().len() implies is_integer_expr(#[trigger] t[i], years.drop_last()[i] as int) by {
            assert(t[i] == items[i]);
        }
        lemma_years_round_trip(t, years.drop_last());
        let last = items.last();
        let y = years.last();
        assert(is_integer_expr(items[items.len() - 1], y as int));
        lemma_signed_decimal_parses(y as int);
        let n = last->Number_0;
        assert(n.canonical@ == signed_decimal(y as int));
        assert(parse_int_in(n.canonical@, i64::MIN as int, i64::MAX as int) == Some(y as int));
        assert(integer_value(last, "years") == Ok::<i64, CodecFailure>(y as i64));
        assert(years.drop_last().push(y) =~= years);
    } else {
        assert(years =~= Seq::<i32>::empty());
    }
}

} // verus!
