//! CSV front-end for ledger source years: `konto.csv`, `ver.csv` and
//! `trans.csv` exports mapped into a source year.
use vstd::prelude::*;

use crate::import::{SourcePosting, SourcePostingView, SourceVoucher, SourceVoucherView, SourceYear};
use crate::model::{amount_text_result, opt_text, Account, AccountView, Amount};
use crate::odb::SourceYearView;
use crate::script::{entries_map, entry, names_view, OdbSchema, OdbSchemaView};
use crate::text::{
    chars_of, debug_quoted, debug_text, int_failure, int_failure_text, int_parse_failure, lemma_int_failure_iff,
    parse_int_chars, parse_int_in, push_str, str_is, string_from_chars, IntParseFailure,
};

verus! {

broadcast use vstd::string::group_string_axioms;

/// Failure while loading ledger CSV exports.
#[derive(Clone, Debug, PartialEq, Eq)]
pub enum CsvLoadError {
    /// CSV parser or reader failure.
    Csv {
        /// What the CSV reader reported.
        message: String,
    },
    /// A required high-water mark is missing from the schema.
    MissingRestart {
        /// Source table name.
        table: &'static str,
    },
    /// A required CSV file or field is missing.
    MissingField {
        /// CSV file name.
        file: &'static str,
        /// CSV field name (`file` when the file itself is absent).
        field: &'static str,
    },
    /// An integer field could not be parsed.
    InvalidInteger {
        /// CSV file name.
        file: &'static str,
        /// CSV field name.
        field: &'static str,
        /// The field's value.
        value: String,
        /// Why the value does not parse.
        source: IntParseFailure,
    },
    /// An amount field could not be parsed.
    InvalidAmount {
        /// CSV file name.
        file: &'static str,
        /// CSV field name.
        field: &'static str,
        /// The field's value.
        value: String,
        /// Parse failure message.
        message: String,
    },
}

/// What a CSV load failure states (the CSV reader's own message aside).
pub enum CsvFailure {
    /// CSV parser or reader failure.
    Csv,
    /// A missing high-water mark.
    MissingRestart { table: &'static str },
    /// A missing file or field.
    MissingField { file: &'static str, field: &'static str },
    /// An integer field that does not parse.
    InvalidInteger { file: &'static str, field: &'static str, value: Seq<char>, source: IntParseFailure },
    /// An amount field that does not parse, with the reason.
    InvalidAmount { file: &'static str, field: &'static str, value: Seq<char>, message: Seq<char> },
}

impl View for CsvLoadError {
    type V = CsvFailure;

    open spec fn view(&self) -> CsvFailure {
        match self {
            CsvLoadError::Csv { .. } => CsvFailure::Csv,
            CsvLoadError::MissingRestart { table } => CsvFailure::MissingRestart { table: *table },
            CsvLoadError::MissingField { file, field } => CsvFailure::MissingField { file: *file, field: *field },
            CsvLoadError::InvalidInteger { file, field, value, source } => CsvFailure::InvalidInteger {
                file: *file,
                field: *field,
                value: value@,
                source: *source,
            },
            CsvLoadError::InvalidAmount { file, field, value, message } => CsvFailure::InvalidAmount {
                file: *file,
                field: *field,
                value: value@,
                message: message@,
            },
        }
    }
}

/// What a CSV load failure says, for people, given the CSV reader's message.
pub open spec fn csv_failure_text(e: CsvFailure, reader_message: Seq<char>) -> Seq<char> {
    match e {
        CsvFailure::Csv => "CSV load failure: "@ + reader_message,
        CsvFailure::MissingRestart { table } => "missing restart high-water mark for table "@ + table@,
        CsvFailure::MissingField { file, field } => "missing field "@ + field@ + " in "@ + file@,
        CsvFailure::InvalidInteger { file, field, value, source } => "invalid integer in "@ + file@ + ":"@ + field@
            + " value "@ + debug_text(value) + ": "@ + int_failure_text(source),
        CsvFailure::InvalidAmount { file, field, value, message } => "invalid amount in "@ + file@ + ":"@ + field@
            + " value "@ + debug_text(value) + ": "@ + message,
    }
}

/// The CSV reader's message of a failure, where it holds one.
pub open spec fn reader_message(e: CsvLoadError) -> Seq<char> {
    match e {
        CsvLoadError::Csv { message } => message@,
        _ => Seq::empty(),
    }
}

impl CsvLoadError {
    /// What went wrong, for people.
    pub fn message(&self) -> (r: String)
        ensures
            r@ == csv_failure_text(self@, reader_message(*self)),
    {
        let mut out: Vec<char> = Vec::new();
        match self {
            CsvLoadError::Csv { message } => {
                push_str(&mut out, "CSV load failure: ");
                push_str(&mut out, message.as_str());
            },
            CsvLoadError::MissingRestart { table } => {
                push_str(&mut out, "missing restart high-water mark for table ");
                push_str(&mut out, table);
            },
            CsvLoadError::MissingField { file, field } => {
                push_str(&mut out, "missing field ");
                push_str(&mut out, field);
                push_str(&mut out, " in ");
                push_str(&mut out, file);
            },
            CsvLoadError::InvalidInteger { file, field, value, source } => {
                push_str(&mut out, "invalid integer in ");
                push_str(&mut out, file);
                push_str(&mut out, ":");
                push_str(&mut out, field);
                push_str(&mut out, " value ");
                let quoted = debug_quoted(value.as_str());
                push_str(&mut out, quoted.as_str());
                push_str(&mut out, ": ");
                push_str(&mut out, source.text());
            },
            CsvLoadError::InvalidAmount { file, field, value, message } => {
                push_str(&mut out, "invalid amount in ");
                push_str(&mut out, file);
                push_str(&mut out, ":");
                push_str(&mut out, field);
                push_str(&mut out, " value ");
                let quoted = debug_quoted(value.as_str());
                push_str(&mut out, quoted.as_str());
                push_str(&mut out, ": ");
                push_str(&mut out, message.as_str());
            },
        }
        string_from_chars(out.as_slice())
    }
}

// ---------------------------------------------------------------------------
// The CSV reader

/// The header fields of CSV `bytes`, when they read, and its records in
/// order, each `None` where reading failed. Every field is trimmed of
/// surrounding white space.
pub uninterp spec fn csv_table(bytes: Seq<u8>) -> (Option<Seq<Seq<char>>>, Seq<Option<Seq<Seq<char>>>>);

/// Read CSV with a header row, every field trimmed (`csv::ReaderBuilder`
/// with `Trim::All`, then `headers` and every item of `records`). The
/// contract claims that what is read is a function of the bytes alone, and
/// that no record is read when the header fails; the reader's error messages
/// are not stated.
#[verifier::external_body]
fn parse_csv(bytes: &[u8]) -> (r: (Result<Vec<String>, String>, Vec<Result<Vec<String>, String>>))
    ensures
        match r.0 {
            Ok(h) => csv_table(bytes@).0 == Some(names_view(h@)),
            Err(_) => csv_table(bytes@).0 is None && r.1@.len() == 0,
        },
        r.1@.len() == csv_table(bytes@).1.len(),
        forall|i: int|
            0 <= i < r.1@.len() ==> match #[trigger] r.1@[i] {
                Ok(f) => csv_table(bytes@).1[i] == Some(names_view(f@)),
                Err(_) => csv_table(bytes@).1[i] is None,
            },
{
    let fields = |r: &::csv::StringRecord| r.iter().map(str::to_owned).collect::<Vec<String>>();
    let mut reader = ::csv::ReaderBuilder::new().trim(::csv::Trim::All).from_reader(bytes);
    let headers = match reader.headers() {
        Ok(h) => fields(h),
        Err(e) => return (Err(e.to_string()), Vec::new()),
    };
    let records = reader.records().map(|record| record.map(|r| fields(&r)).map_err(|e| e.to_string())).collect();
    (Ok(headers), records)
}

// ---------------------------------------------------------------------------
// What loading states

/// The first position of `f` in `hs`.
pub open spec fn first_pos(hs: Seq<Seq<char>>, f: Seq<char>) -> Option<int>
    decreases hs.len(),
{
    if hs.len() == 0 {
        None
    } else {
        match first_pos(hs.drop_last(), f) {
            Some(i) => Some(i),
            None => if hs.last() == f { Some(hs.len() - 1) } else { None },
        }
    }
}

/// The value of field `field` of a record under `headers`.
pub open spec fn csv_field(headers: Seq<Seq<char>>, rec: Seq<Seq<char>>, file: &'static str, field: &'static str) -> Result<Seq<char>, CsvFailure> {
    match first_pos(headers, field@) {
        None => Err(CsvFailure::MissingField { file, field }),
        Some(i) => if i < rec.len() { Ok(rec[i]) } else { Err(CsvFailure::MissingField { file, field }) },
    }
}

/// An integer field.
pub open spec fn int_field(v: Result<Seq<char>, CsvFailure>, file: &'static str, field: &'static str) -> Result<i64, CsvFailure> {
    match v {
        Err(e) => Err(e),
        Ok(s) => match parse_int_in(s, i64::MIN as int, i64::MAX as int) {
            Some(n) => Ok(n as i64),
            None => Err(CsvFailure::InvalidInteger {
                file,
                field,
                value: s,
                source: int_failure(s, i64::MIN as int, i64::MAX as int).unwrap(),
            }),
        },
    }
}

/// A 32-bit integer field that may be empty.
pub open spec fn opt_i32_field(v: Result<Seq<char>, CsvFailure>, file: &'static str, field: &'static str) -> Result<Option<i32>, CsvFailure> {
    match v {
        Err(e) => Err(e),
        Ok(s) => if s.len() == 0 {
            Ok(None)
        } else {
            match parse_int_in(s, i32::MIN as int, i32::MAX as int) {
                Some(n) => Ok(Some(n as i32)),
                None => Err(CsvFailure::InvalidInteger {
                    file,
                    field,
                    value: s,
                    source: int_failure(s, i32::MIN as int, i32::MAX as int).unwrap(),
                }),
            }
        },
    }
}

/// A text field that may be empty.
pub open spec fn opt_text_field(s: Seq<char>) -> Option<Seq<char>> {
    if s.len() == 0 { None } else { Some(s) }
}

/// The account a `konto.csv` record states.
pub open spec fn account_of_record(h: Seq<Seq<char>>, rec: Seq<Seq<char>>) -> Result<AccountView, CsvFailure> {
    let f = "konto.csv";
    match int_field(csv_field(h, rec, f, "k_nr"), f, "k_nr") {
        Err(e) => Err(e),
        Ok(number) => match csv_field(h, rec, f, "k_namn") {
            Err(e) => Err(e),
            Ok(name) => match csv_field(h, rec, f, "k_text") {
                Err(e) => Err(e),
                Ok(note) => match opt_i32_field(csv_field(h, rec, f, "k_sru_p"), f, "k_sru_p") {
                    Err(e) => Err(e),
                    Ok(sru_plus) => match opt_i32_field(csv_field(h, rec, f, "k_sru_m"), f, "k_sru_m") {
                        Err(e) => Err(e),
                        Ok(sru_minus) => Ok(AccountView { number, name, note: opt_text_field(note), sru_plus, sru_minus }),
                    },
                },
            },
        },
    }
}

/// The voucher a `ver.csv` record states.
pub open spec fn voucher_of_record(h: Seq<Seq<char>>, rec: Seq<Seq<char>>) -> Result<SourceVoucherView, CsvFailure> {
    let f = "ver.csv";
    match int_field(csv_field(h, rec, f, "v_nr"), f, "v_nr") {
        Err(e) => Err(e),
        Ok(source_id) => match csv_field(h, rec, f, "v_datum") {
            Err(e) => Err(e),
            Ok(date) => match csv_field(h, rec, f, "v_text") {
                Err(e) => Err(e),
                Ok(text) => Ok(SourceVoucherView { source_id, date, text: opt_text_field(text) }),
            },
        },
    }
}

/// The posting a `trans.csv` record states.
pub open spec fn posting_of_record(h: Seq<Seq<char>>, rec: Seq<Seq<char>>) -> Result<SourcePostingView, CsvFailure> {
    let f = "trans.csv";
    match csv_field(h, rec, f, "t_belopp") {
        Err(e) => Err(e),
        Ok(amount_text) => match int_field(csv_field(h, rec, f, "t_nr"), f, "t_nr") {
            Err(e) => Err(e),
            Ok(source_id) => match int_field(csv_field(h, rec, f, "t_ver"), f, "t_ver") {
                Err(e) => Err(e),
                Ok(source_voucher_id) => match int_field(csv_field(h, rec, f, "t_konto"), f, "t_konto") {
                    Err(e) => Err(e),
                    Ok(account) => match amount_text_result(amount_text) {
                        Err(m) => Err(CsvFailure::InvalidAmount { file: f, field: "t_belopp", value: amount_text, message: m }),
                        Ok(amount) => match csv_field(h, rec, f, "t_text") {
                            Err(e) => Err(e),
                            Ok(text) => Ok(SourcePostingView {
                                source_id,
                                source_voucher_id,
                                account,
                                amount: amount as i64,
                                text: opt_text_field(text),
                            }),
                        },
                    },
                },
            },
        },
    }
}

/// The accounts of `konto.csv` records in order, or the first failure.
pub open spec fn accounts_of_records(h: Seq<Seq<char>>, recs: Seq<Option<Seq<Seq<char>>>>) -> Result<Seq<AccountView>, CsvFailure>
    decreases recs.len(),
{
    if recs.len() == 0 {
        Ok(Seq::empty())
    } else {
        match accounts_of_records(h, recs.drop_last()) {
            Err(e) => Err(e),
            Ok(done) => match recs.last() {
                None => Err(CsvFailure::Csv),
                Some(rec) => match account_of_record(h, rec) {
                    Err(e) => Err(e),
                    Ok(x) => Ok(done.push(x)),
                },
            },
        }
    }
}

/// The vouchers of `ver.csv` records in order, or the first failure.
pub open spec fn vouchers_of_records(h: Seq<Seq<char>>, recs: Seq<Option<Seq<Seq<char>>>>) -> Result<Seq<SourceVoucherView>, CsvFailure>
    decreases recs.len(),
{
    if recs.len() == 0 {
        Ok(Seq::empty())
    } else {
        match vouchers_of_records(h, recs.drop_last()) {
            Err(e) => Err(e),
            Ok(done) => match recs.last() {
                None => Err(CsvFailure::Csv),
                Some(rec) => match voucher_of_record(h, rec) {
                    Err(e) => Err(e),
                    Ok(x) => Ok(done.push(x)),
                },
            },
        }
    }
}

/// The postings of `trans.csv` records in order, or the first failure.
pub open spec fn postings_of_records(h: Seq<Seq<char>>, recs: Seq<Option<Seq<Seq<char>>>>) -> Result<Seq<SourcePostingView>, CsvFailure>
    decreases recs.len(),
{
    if recs.len() == 0 {
        Ok(Seq::empty())
    } else {
        match postings_of_records(h, recs.drop_last()) {
            Err(e) => Err(e),
            Ok(done) => match recs.last() {
                None => Err(CsvFailure::Csv),
                Some(rec) => match posting_of_record(h, rec) {
                    Err(e) => Err(e),
                    Ok(x) => Ok(done.push(x)),
                },
            },
        }
    }
}

/// The files of an export, by name.
pub open spec fn dir_view(dir: Seq<(String, Vec<u8>)>) -> Map<Seq<char>, Seq<u8>> {
    entries_map(dir).map_values(|v: Vec<u8>| v@)
}

/// The records of a file as read: each one's fields, or `None` where reading
/// failed.
pub open spec fn records_view(records: Seq<Result<Vec<String>, String>>) -> Seq<Option<Seq<Seq<char>>>> {
    records.map_values(|r: Result<Vec<String>, String>| match r {
        Ok(f) => Some(names_view(f@)),
        Err(_) => None,
    })
}

/// The header fields and records of one file of the export.
pub open spec fn csv_file(dir: Map<Seq<char>, Seq<u8>>, file: &'static str) -> Result<(Seq<Seq<char>>, Seq<Option<Seq<Seq<char>>>>), CsvFailure> {
    if !dir.dom().contains(file@) {
        Err(CsvFailure::MissingField { file, field: "file" })
    } else {
        match csv_table(dir[file@]) {
            (None, _) => Err(CsvFailure::Csv),
            (Some(h), recs) => Ok((h, recs)),
        }
    }
}

/// The accounts of the export.
pub open spec fn csv_accounts(dir: Map<Seq<char>, Seq<u8>>) -> Result<Seq<AccountView>, CsvFailure> {
    match csv_file(dir, "konto.csv") {
        Err(e) => Err(e),
        Ok((h, recs)) => accounts_of_records(h, recs),
    }
}

/// The vouchers of the export.
pub open spec fn csv_vouchers(dir: Map<Seq<char>, Seq<u8>>) -> Result<Seq<SourceVoucherView>, CsvFailure> {
    match csv_file(dir, "ver.csv") {
        Err(e) => Err(e),
        Ok((h, recs)) => vouchers_of_records(h, recs),
    }
}

/// The postings of the export.
pub open spec fn csv_postings(dir: Map<Seq<char>, Seq<u8>>) -> Result<Seq<SourcePostingView>, CsvFailure> {
    match csv_file(dir, "trans.csv") {
        Err(e) => Err(e),
        Ok((h, recs)) => postings_of_records(h, recs),
    }
}

/// The source year an export states: accounts, vouchers and postings in
/// file order, and the id high-water marks of the schema.
pub open spec fn csv_source_year(dir: Map<Seq<char>, Seq<u8>>, year: i32, schema: OdbSchemaView) -> Result<SourceYearView, CsvFailure> {
    match csv_accounts(dir) {
        Err(e) => Err(e),
        Ok(accounts) => match csv_vouchers(dir) {
            Err(e) => Err(e),
            Ok(vouchers) => match csv_postings(dir) {
                Err(e) => Err(e),
                Ok(postings) => if !schema.restart.dom().contains("ver"@) {
                    Err(CsvFailure::MissingRestart { table: "ver" })
                } else if !schema.restart.dom().contains("trans"@) {
                    Err(CsvFailure::MissingRestart { table: "trans" })
                } else {
                    Ok(SourceYearView {
                        year,
                        accounts,
                        vouchers,
                        postings,
                        next_source_voucher_id: schema.restart["ver"@],
                        next_source_posting_id: schema.restart["trans"@],
                    })
                },
            },
        },
    }
}

/// Loading an export gives the requested year with the schema's id
/// high-water marks; a missing `konto.csv` is reported as its missing file;
/// and readable tables without a `ver` high-water mark are refused for it.
pub proof fn lemma_csv_year_and_marks(dir: Map<Seq<char>, Seq<u8>>, year: i32, schema: OdbSchemaView)
    ensures
        csv_source_year(dir, year, schema) matches Ok(y) ==> y.year == year && y.next_source_voucher_id
            == schema.restart["ver"@] && y.next_source_posting_id == schema.restart["trans"@],
        !dir.dom().contains("konto.csv"@) ==> csv_source_year(dir, year, schema) == Err::<SourceYearView, CsvFailure>(
            CsvFailure::MissingField { file: "konto.csv", field: "file" },
        ),
        csv_accounts(dir) is Ok && csv_vouchers(dir) is Ok && csv_postings(dir) is Ok && !schema.restart.dom().contains(
            "ver"@,
        ) ==> csv_source_year(dir, year, schema) == Err::<SourceYearView, CsvFailure>(
            CsvFailure::MissingRestart { table: "ver" },
        ),
{
}

// ---------------------------------------------------------------------------
// Loading

/// The header fields and records of one file of the export.
fn reader(dir: &[(String, Vec<u8>)], file: &'static str) -> (r: Result<(Vec<String>, Vec<Result<Vec<String>, String>>), CsvLoadError>)
    ensures
        !dir_view(dir@).dom().contains(file@) ==> r == Err::<(Vec<String>, Vec<Result<Vec<String>, String>>), CsvLoadError>(
            CsvLoadError::MissingField { file, field: "file" },
        ),
        dir_view(dir@).dom().contains(file@) ==> match csv_table(dir_view(dir@)[file@]) {
            (None, _) => r matches Err(CsvLoadError::Csv { .. }),
            (Some(h), recs) => r matches Ok((hs, rs)) && names_view(hs@) == h && rs@.len() == recs.len()
                && forall|i: int|
                0 <= i < rs@.len() ==> match #[trigger] rs@[i] {
                    Ok(f) => recs[i] == Some(names_view(f@)),
                    Err(_) => recs[i] is None,
                },
        },
{
    let bytes = match entry(dir, file) {
        Some(b) => b,
        None => {
            return Err(CsvLoadError::MissingField { file, field: "file" });
        },
    };
    let (headers, records) = parse_csv(bytes.as_slice());
    match headers {
        Ok(h) => Ok((h, records)),
        Err(message) => Err(CsvLoadError::Csv { message }),
    }
}

/// The value of field `name` in `record`.
fn field<'a>(headers: &[String], record: &'a [String], file: &'static str, name: &'static str) -> (r: Result<&'a String, CsvLoadError>)
    ensures
        match csv_field(names_view(headers@), names_view(record@), file, name) {
            Ok(s) => r matches Ok(x) && x@ == s,
            Err(e) => r matches Err(x) && x@ == e,
        },
{
    let ghost hv = names_view(headers@);
    let mut i: usize = 0;
    assert(headers@.take(0) =~= Seq::<String>::empty());
    while i < headers.len()
        invariant
            i <= headers.len(),
            hv == names_view(headers@),
            first_pos(hv.take(i as int), name@) is None,
        decreases headers.len() - i,
    {
        assert(hv.take(i + 1).drop_last() =~= hv.take(i as int));
        if str_is(headers[i].as_str(), name) {
            proof {
                lemma_first_pos_prefix(hv, i + 1);
                assert(hv.take(i + 1).last() == name@);
            }
            if i < record.len() {
                return Ok(&record[i]);
            } else {
                return Err(CsvLoadError::MissingField { file, field: name });
            }
        }
        i += 1;
    }
    assert(hv.take(headers.len() as int) =~= hv);
    Err(CsvLoadError::MissingField { file, field: name })
}

proof fn lemma_first_pos_prefix(hs: Seq<Seq<char>>, k: int)
    requires
        0 <= k <= hs.len(),
    ensures
        first_pos(hs.take(k), hs[k - 1]) is Some || k == 0,
        first_pos(hs.take(k), hs[k - 1]) is Some ==> first_pos(hs, hs[k - 1]) == first_pos(hs.take(k), hs[k - 1]),
{
    if k > 0 {
        lemma_first_pos_extend(hs, k, hs.len() as int, hs[k - 1]);
        assert(hs.take(hs.len() as int) =~= hs);
    }
}

proof fn lemma_first_pos_extend(hs: Seq<Seq<char>>, k: int, n: int, f: Seq<char>)
    requires
        0 < k <= n <= hs.len(),
        hs[k - 1] == f,
    ensures
        first_pos(hs.take(k), f) is Some,
        first_pos(hs.take(n), f) == first_pos(hs.take(k), f),
    decreases n - k,
{
    assert(hs.take(k).drop_last() =~= hs.take(k - 1));
    if n > k {
        lemma_first_pos_extend(hs, k, n - 1, f);
        assert(hs.take(n).drop_last() =~= hs.take(n - 1));
    }
}

/// An integer field.
fn parse_i64(file: &'static str, field: &'static str, value: &String) -> (r: Result<i64, CsvLoadError>)
    ensures
        match int_field(Ok(value@), file, field) {
            Ok(n) => r == Ok::<i64, CsvLoadError>(n),
            Err(e) => r matches Err(x) && x@ == e,
        },
{
    let cs = chars_of(value.as_str());
    match parse_int_chars(cs.as_slice(), i64::MIN, i64::MAX) {
        Some(n) => Ok(n),
        None => {
            proof {
                lemma_int_failure_iff(cs@, i64::MIN as int, i64::MAX as int);
            }
            let source = int_parse_failure(cs.as_slice(), i64::MIN, i64::MAX).unwrap();
            Err(CsvLoadError::InvalidInteger { file, field, value: value.clone(), source })
        },
    }
}

/// A 32-bit integer field that may be empty.
fn optional_i32(file: &'static str, field: &'static str, value: &String) -> (r: Result<Option<i32>, CsvLoadError>)
    ensures
        match opt_i32_field(Ok(value@), file, field) {
            Ok(n) => r == Ok::<Option<i32>, CsvLoadError>(n),
            Err(e) => r matches Err(x) && x@ == e,
        },
{
    if value.as_str().is_empty() {
        return Ok(None);
    }
    let cs = chars_of(value.as_str());
    match parse_int_chars(cs.as_slice(), i32::MIN as i64, i32::MAX as i64) {
        Some(n) => Ok(Some(n as i32)),
        None => {
            proof {
                lemma_int_failure_iff(cs@, i32::MIN as int, i32::MAX as int);
            }
            let source = int_parse_failure(cs.as_slice(), i32::MIN as i64, i32::MAX as i64).unwrap();
            Err(CsvLoadError::InvalidInteger { file, field, value: value.clone(), source })
        },
    }
}

/// A text field that may be empty.
fn optional_text(value: &String) -> (r: Option<String>)
    ensures
        opt_text(r) == opt_text_field(value@),
{
    if value.as_str().is_empty() {
        None
    } else {
        Some(value.clone())
    }
}

fn account_from_record(h: &[String], rec: &[String]) -> (r: Result<Account, CsvLoadError>)
    ensures
        match account_of_record(names_view(h@), names_view(rec@)) {
            Ok(a) => r matches Ok(x) && x@ == a,
            Err(e) => r matches Err(x) && x@ == e,
        },
{
    let f = "konto.csv";
    let number = parse_i64(f, "k_nr", field(h, rec, f, "k_nr")?)?;
    let name = field(h, rec, f, "k_namn")?.clone();
    let note = optional_text(field(h, rec, f, "k_text")?);
    let sru_plus = optional_i32(f, "k_sru_p", field(h, rec, f, "k_sru_p")?)?;
    let sru_minus = optional_i32(f, "k_sru_m", field(h, rec, f, "k_sru_m")?)?;
    Ok(Account { number, name, note, sru_plus, sru_minus })
}

fn voucher_from_record(h: &[String], rec: &[String]) -> (r: Result<SourceVoucher, CsvLoadError>)
    ensures
        match voucher_of_record(names_view(h@), names_view(rec@)) {
            Ok(v) => r matches Ok(x) && x@ == v,
            Err(e) => r matches Err(x) && x@ == e,
        },
{
    let f = "ver.csv";
    let source_id = parse_i64(f, "v_nr", field(h, rec, f, "v_nr")?)?;
    let date = field(h, rec, f, "v_datum")?.clone();
    let text = optional_text(field(h, rec, f, "v_text")?);
    Ok(SourceVoucher { source_id, date, text })
}

fn posting_from_record(h: &[String], rec: &[String]) -> (r: Result<SourcePosting, CsvLoadError>)
    ensures
        match posting_of_record(names_view(h@), names_view(rec@)) {
            Ok(p) => r matches Ok(x) && x@ == p,
            Err(e) => r matches Err(x) && x@ == e,
        },
{
    let f = "trans.csv";
    let amount_text = field(h, rec, f, "t_belopp")?;
    let source_id = parse_i64(f, "t_nr", field(h, rec, f, "t_nr")?)?;
    let source_voucher_id = parse_i64(f, "t_ver", field(h, rec, f, "t_ver")?)?;
    let account = parse_i64(f, "t_konto", field(h, rec, f, "t_konto")?)?;
    let amount = match Amount::parse(amount_text.as_str()) {
        Ok(a) => a,
        Err(message) => {
            return Err(CsvLoadError::InvalidAmount { file: f, field: "t_belopp", value: amount_text.clone(), message });
        },
    };
    let text = optional_text(field(h, rec, f, "t_text")?);
    Ok(SourcePosting { source_id, source_voucher_id, account, amount, text })
}

proof fn lemma_records_prefix_err<T>(
    recs: Seq<Option<Seq<Seq<char>>>>,
    k: int,
    n: int,
    f: spec_fn(Seq<Option<Seq<Seq<char>>>>) -> Result<T, CsvFailure>,
)
    requires
        0 <= k <= n <= recs.len(),
        f(recs.take(k)) is Err,
        forall|s: Seq<Option<Seq<Seq<char>>>>| s.len() > 0 && (#[trigger] f(s.drop_last())) is Err ==> f(s) == f(s.drop_last()),
    ensures
        f(recs.take(n)) == f(recs.take(k)),
    decreases n - k,
{
    if n > k {
        lemma_records_prefix_err(recs, k, n - 1, f);
        assert(recs.take(n).drop_last() =~= recs.take(n - 1));
    }
}

/// The accounts of `konto.csv` from its header fields and records, each record
/// read in order; the first failing record decides the error.
pub fn accounts_from_records(headers: &[String], records: &[Result<Vec<String>, String>]) -> (r: Result<Vec<Account>, CsvLoadError>)
    ensures
        match accounts_of_records(names_view(headers@), records_view(records@)) {
            Ok(v) => r matches Ok(x) && x@.map_values(|a: Account| a@) == v,
            Err(e) => r matches Err(x) && x@ == e,
        },
{
    let ghost h = names_view(headers@);
    let ghost recs = records_view(records@);
    let mut out: Vec<Account> = Vec::new();
    let mut i: usize = 0;
    assert(recs.take(0) =~= Seq::<Option<Seq<Seq<char>>>>::empty());
    assert(out@.map_values(|a: Account| a@) =~= Seq::empty());
    while i < records.len()
        invariant
            i <= records.len() == recs.len(),
            h == names_view(headers@),
            recs == records_view(records@),
            accounts_of_records(h, recs.take(i as int)) == Ok::<Seq<AccountView>, CsvFailure>(out@.map_values(|a: Account| a@)),
        decreases records.len() - i,
    {
        assert(recs.take(i + 1).drop_last() =~= recs.take(i as int));
        assert(recs.take(i + 1).last() == recs[i as int]);
        let rec = match &records[i] {
            Ok(rec) => rec,
            Err(message) => {
                assert(records@[i as int] == Err::<Vec<String>, String>(*message));
                assert(recs[i as int] is None);
                proof {
                    let g = |s: Seq<Option<Seq<Seq<char>>>>| accounts_of_records(h, s);
                    lemma_records_prefix_err(recs, i + 1, recs.len() as int, g);
                    assert(recs.take(recs.len() as int) =~= recs);
                }
                return Err(CsvLoadError::Csv { message: message.clone() });
            },
        };
        assert(records@[i as int] == Ok::<Vec<String>, String>(*rec));
        assert(recs[i as int] == Some(names_view(rec@)));
        let a = match account_from_record(headers, rec.as_slice()) {
            Ok(a) => a,
            Err(e) => {
                proof {
                    let g = |s: Seq<Option<Seq<Seq<char>>>>| accounts_of_records(h, s);
                    lemma_records_prefix_err(recs, i + 1, recs.len() as int, g);
                    assert(recs.take(recs.len() as int) =~= recs);
                }
                return Err(e);
            },
        };
        let ghost before = out@.map_values(|a: Account| a@);
        out.push(a);
        assert(out@.map_values(|a: Account| a@) =~= before.push(a@));
        i += 1;
    }
    assert(recs.take(recs.len() as int) =~= recs);
    Ok(out)
}

fn read_accounts(dir: &[(String, Vec<u8>)]) -> (r: Result<Vec<Account>, CsvLoadError>)
    ensures
        match csv_accounts(dir_view(dir@)) {
            Ok(v) => r matches Ok(x) && x@.map_values(|a: Account| a@) == v,
            Err(e) => r matches Err(x) && x@ == e,
        },
{
    let (headers, records) = reader(dir, "konto.csv")?;
    proof {
        assert(records_view(records@) =~= csv_table(dir_view(dir@)["konto.csv"@]).1);
    }
    accounts_from_records(headers.as_slice(), records.as_slice())
}

/// The vouchers of `ver.csv` from its header fields and records, each record
/// read in order; the first failing record decides the error.
pub fn vouchers_from_records(headers: &[String], records: &[Result<Vec<String>, String>]) -> (r: Result<Vec<SourceVoucher>, CsvLoadError>)
    ensures
        match vouchers_of_records(names_view(headers@), records_view(records@)) {
            Ok(v) => r matches Ok(x) && x@.map_values(|v: SourceVoucher| v@) == v,
            Err(e) => r matches Err(x) && x@ == e,
        },
{
    let ghost h = names_view(headers@);
    let ghost recs = records_view(records@);
    let mut out: Vec<SourceVoucher> = Vec::new();
    let mut i: usize = 0;
    assert(recs.take(0) =~= Seq::<Option<Seq<Seq<char>>>>::empty());
    assert(out@.map_values(|v: SourceVoucher| v@) =~= Seq::empty());
    while i < records.len()
        invariant
            i <= records.len() == recs.len(),
            h == names_view(headers@),
            recs == records_view(records@),
            vouchers_of_records(h, recs.take(i as int)) == Ok::<Seq<SourceVoucherView>, CsvFailure>(out@.map_values(|v: SourceVoucher| v@)),
        decreases records.len() - i,
    {
        assert(recs.take(i + 1).drop_last() =~= recs.take(i as int));
        assert(recs.take(i + 1).last() == recs[i as int]);
        let rec = match &records[i] {
            Ok(rec) => rec,
            Err(message) => {
                assert(records@[i as int] == Err::<Vec<String>, String>(*message));
                assert(recs[i as int] is None);
                proof {
                    let g = |s: Seq<Option<Seq<Seq<char>>>>| vouchers_of_records(h, s);
                    lemma_records_prefix_err(recs, i + 1, recs.len() as int, g);
                    assert(recs.take(recs.len() as int) =~= recs);
                }
                return Err(CsvLoadError::Csv { message: message.clone() });
            },
        };
        assert(records@[i as int] == Ok::<Vec<String>, String>(*rec));
        assert(recs[i as int] == Some(names_view(rec@)));
        let v = match voucher_from_record(headers, rec.as_slice()) {
            Ok(v) => v,
            Err(e) => {
                proof {
                    let g = |s: Seq<Option<Seq<Seq<char>>>>| vouchers_of_records(h, s);
                    lemma_records_prefix_err(recs, i + 1, recs.len() as int, g);
                    assert(recs.take(recs.len() as int) =~= recs);
                }
                return Err(e);
            },
        };
        let ghost before = out@.map_values(|v: SourceVoucher| v@);
        out.push(v);
        assert(out@.map_values(|v: SourceVoucher| v@) =~= before.push(v@));
        i += 1;
    }
    assert(recs.take(recs.len() as int) =~= recs);
    Ok(out)
}

fn read_vouchers(dir: &[(String, Vec<u8>)]) -> (r: Result<Vec<SourceVoucher>, CsvLoadError>)
    ensures
        match csv_vouchers(dir_view(dir@)) {
            Ok(v) => r matches Ok(x) && x@.map_values(|v: SourceVoucher| v@) == v,
            Err(e) => r matches Err(x) && x@ == e,
        },
{
    let (headers, records) = reader(dir, "ver.csv")?;
    proof {
        assert(records_view(records@) =~= csv_table(dir_view(dir@)["ver.csv"@]).1);
    }
    vouchers_from_records(headers.as_slice(), records.as_slice())
}

/// The postings of `trans.csv` from its header fields and records, each record
/// read in order; the first failing record decides the error.
pub fn postings_from_records(headers: &[String], records: &[Result<Vec<String>, String>]) -> (r: Result<Vec<SourcePosting>, CsvLoadError>)
    ensures
        match postings_of_records(names_view(headers@), records_view(records@)) {
            Ok(v) => r matches Ok(x) && x@.map_values(|p: SourcePosting| p@) == v,
            Err(e) => r matches Err(x) && x@ == e,
        },
{
    let ghost h = names_view(headers@);
    let ghost recs = records_view(records@);
    let mut out: Vec<SourcePosting> = Vec::new();
    let mut i: usize = 0;
    assert(recs.take(0) =~= Seq::<Option<Seq<Seq<char>>>>::empty());
    assert(out@.map_values(|p: SourcePosting| p@) =~= Seq::empty());
    while i < records.len()
        invariant
            i <= records.len() == recs.len(),
            h == names_view(headers@),
            recs == records_view(records@),
            postings_of_records(h, recs.take(i as int)) == Ok::<Seq<SourcePostingView>, CsvFailure>(out@.map_values(|p: SourcePosting| p@)),
        decreases records.len() - i,
    {
        assert(recs.take(i + 1).drop_last() =~= recs.take(i as int));
        assert(recs.take(i + 1).last() == recs[i as int]);
        let rec = match &records[i] {
            Ok(rec) => rec,
            Err(message) => {
                assert(records@[i as int] == Err::<Vec<String>, String>(*message));
                assert(recs[i as int] is None);
                proof {
                    let g = |s: Seq<Option<Seq<Seq<char>>>>| postings_of_records(h, s);
                    lemma_records_prefix_err(recs, i + 1, recs.len() as int, g);
                    assert(recs.take(recs.len() as int) =~= recs);
                }
                return Err(CsvLoadError::Csv { message: message.clone() });
            },
        };
        assert(records@[i as int] == Ok::<Vec<String>, String>(*rec));
        assert(recs[i as int] == Some(names_view(rec@)));
        let p = match posting_from_record(headers, rec.as_slice()) {
            Ok(p) => p,
            Err(e) => {
                proof {
                    let g = |s: Seq<Option<Seq<Seq<char>>>>| postings_of_records(h, s);
                    lemma_records_prefix_err(recs, i + 1, recs.len() as int, g);
                    assert(recs.take(recs.len() as int) =~= recs);
                }
                return Err(e);
            },
        };
        let ghost before = out@.map_values(|p: SourcePosting| p@);
        out.push(p);
        assert(out@.map_values(|p: SourcePosting| p@) =~= before.push(p@));
        i += 1;
    }
    assert(recs.take(recs.len() as int) =~= recs);
    Ok(out)
}

fn read_postings(dir: &[(String, Vec<u8>)]) -> (r: Result<Vec<SourcePosting>, CsvLoadError>)
    ensures
        match csv_postings(dir_view(dir@)) {
            Ok(v) => r matches Ok(x) && x@.map_values(|p: SourcePosting| p@) == v,
            Err(e) => r matches Err(x) && x@ == e,
        },
{
    let (headers, records) = reader(dir, "trans.csv")?;
    proof {
        assert(records_view(records@) =~= csv_table(dir_view(dir@)["trans.csv"@]).1);
    }
    postings_from_records(headers.as_slice(), records.as_slice())
}

/// The next source id of `table`.
fn restart(schema: &OdbSchema, table: &'static str) -> (r: Result<i64, CsvLoadError>)
    ensures
        schema@.restart.dom().contains(table@) ==> r == Ok::<i64, CsvLoadError>(schema@.restart[table@]),
        !schema@.restart.dom().contains(table@) ==> r == Err::<i64, CsvLoadError>(CsvLoadError::MissingRestart { table }),
{
    match schema.restart_of(table) {
        Some(v) => Ok(v),
        None => Err(CsvLoadError::MissingRestart { table }),
    }
}

/// Load exported `konto.csv`, `ver.csv`, and `trans.csv` into a source year,
/// with the id high-water marks of the ODB schema. `dir` holds the files by
/// name.
pub fn load_csv(dir: &[(String, Vec<u8>)], year: i32, schema: &OdbSchema) -> (r: Result<SourceYear, CsvLoadError>)
    ensures
        match csv_source_year(dir_view(dir@), year, schema@) {
            Ok(y) => r matches Ok(x) && crate::odb::source_year_view(x) == y,
            Err(e) => r matches Err(x) && x@ == e,
        },
{
    let accounts = read_accounts(dir)?;
    let vouchers = read_vouchers(dir)?;
    let postings = read_postings(dir)?;
    let next_source_voucher_id = restart(schema, "ver")?;
    let next_source_posting_id = restart(schema, "trans")?;
    Ok(SourceYear { year, accounts, vouchers, postings, next_source_voucher_id, next_source_posting_id })
}

} // verus!
