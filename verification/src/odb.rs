//! Reading a LibreOffice Base `.odb` ledger export into a source year.
use vstd::prelude::*;

use crate::hsqldb::row::{Cell, CellValue, HsqlError, HsqlErrorKind};
use crate::hsqldb::table::{col_types, read_table, rows_view, table_rows as hsqldb_table_rows};
use crate::import::{SourcePosting, SourcePostingView, SourceVoucher, SourceVoucherView, SourceYear};
use crate::model::{opt_text, Account, AccountView, Amount};
use crate::script::{find_entry, is_last_entry, layout_view, ColType, OdbSchema, OdbSchemaView};
use crate::text::{
    all_digits, chars_of, digits_up_to, digits_value, has_trimmed_line, has_trimmed_line_exec, is_digit,
    str_from_utf8,
};
use std::io::Read;
use crate::hsqldb::row::hsql_message;
use crate::text::{push_int, push_str, signed_decimal, string_from_chars};
use vstd::utf8::{decode_utf8, valid_utf8};

verus! {

broadcast use vstd::string::group_string_axioms;

/// Failure while reading an ODB ledger export.
#[derive(Clone, Debug, PartialEq, Eq)]
pub enum OdbError {
    /// ZIP or filesystem failure.
    Io {
        /// What went wrong.
        message: String,
    },
    /// An ODB text member is not UTF-8.
    Utf8 {
        /// Member name.
        member: &'static str,
    },
    /// HSQLDB table decoding failed.
    Hsql {
        /// Table name being decoded.
        table: &'static str,
        /// The HSQLDB error.
        source: HsqlError,
    },
    /// The expected HSQLDB cache scale is absent.
    UnsupportedCacheScale,
    /// Required table metadata is missing from the script.
    MissingTable {
        /// Table name.
        table: &'static str,
    },
    /// Required table index metadata is missing from the script.
    MissingIndex {
        /// Table name.
        table: &'static str,
    },
    /// Required high-water mark metadata is missing from the script.
    MissingRestart {
        /// Table name.
        table: &'static str,
    },
    /// A decoded row is missing a required column.
    MissingColumn {
        /// Table name.
        table: &'static str,
        /// Column name.
        column: &'static str,
    },
    /// A decoded cell has the wrong type for its target field.
    WrongCellType {
        /// Table name.
        table: &'static str,
        /// Column name.
        column: &'static str,
    },
    /// A decoded row has null in a required field.
    RequiredNull {
        /// Table name.
        table: &'static str,
        /// Column name.
        column: &'static str,
        /// Source row id when that id was available before the null field.
        source_id: Option<i64>,
    },
    /// A source integer cannot fit in the target type.
    IntegerOutOfRange {
        /// Table name.
        table: &'static str,
        /// Column name.
        column: &'static str,
        /// Source value.
        value: i64,
    },
    /// The ODB file name does not contain a ledger year.
    MissingYear,
}

// ---------------------------------------------------------------------------
// The archive

/// The bytes of member `member` of the ZIP archive `odb`, when the archive
/// holds a readable member of that name.
pub uninterp spec fn zip_member(odb: Seq<u8>, member: Seq<char>) -> Option<Seq<u8>>;

/// Read one member from supplied ODB bytes (`zip::ZipArchive::new`, then
/// `by_name` and `read_to_end` on the entry). The contract claims that the
/// result is a function of the archive bytes and the member name; which
/// failure it was and its message are not stated.
#[verifier::external_body]
pub fn open_zip_member(odb: &[u8], member: &str) -> (r: Result<Vec<u8>, String>)
    ensures
        match r {
            Ok(bytes) => zip_member(odb@, member@) == Some(bytes@),
            Err(_) => zip_member(odb@, member@) is None,
        },
{
    let mut archive = zip::ZipArchive::new(std::io::Cursor::new(odb)).map_err(|e| e.to_string())?;
    let mut entry = archive.by_name(member).map_err(|e| e.to_string())?;
    let mut bytes = Vec::new();
    entry.read_to_end(&mut bytes).map_err(|e| e.to_string())?;
    Ok(bytes)
}

/// The three members of an ODB export that the ledger reader uses.
#[derive(Clone, Debug, PartialEq, Eq)]
pub struct OdbMembers {
    /// `database/script`: the HSQLDB schema script.
    pub script: String,
    /// `database/data`: the cached-table data file.
    pub data: Vec<u8>,
    /// `database/properties`: the database properties.
    pub properties: String,
}

/// `database/script`
pub open spec fn script_member() -> Seq<char> {
    seq!['d', 'a', 't', 'a', 'b', 'a', 's', 'e', '/', 's', 'c', 'r', 'i', 'p', 't']
}

/// `database/data`
pub open spec fn data_member() -> Seq<char> {
    seq!['d', 'a', 't', 'a', 'b', 'a', 's', 'e', '/', 'd', 'a', 't', 'a']
}

/// `database/properties`
pub open spec fn properties_member() -> Seq<char> {
    seq!['d', 'a', 't', 'a', 'b', 'a', 's', 'e', '/', 'p', 'r', 'o', 'p', 'e', 'r', 't', 'i', 'e', 's']
}

/// `hsqldb.cache_file_scale=1`
pub open spec fn cache_scale_one() -> Seq<char> {
    seq![
        'h', 's', 'q', 'l', 'd', 'b', '.', 'c', 'a', 'c', 'h', 'e', '_', 'f', 'i', 'l', 'e', '_',
        's', 'c', 'a', 'l', 'e', '=', '1',
    ]
}

/// Require the HSQLDB data file scale of one: some line of the properties,
/// trimmed, reads `hsqldb.cache_file_scale=1`.
pub fn ensure_cache_scale_one(properties: &str) -> (r: Result<(), OdbError>)
    ensures
        has_trimmed_line(properties@, cache_scale_one()) ==> r == Ok::<(), OdbError>(()),
        !has_trimmed_line(properties@, cache_scale_one()) ==> r == Err::<(), OdbError>(OdbError::UnsupportedCacheScale),
{
    let s = chars_of(properties);
    let target = vec![
        'h', 's', 'q', 'l', 'd', 'b', '.', 'c', 'a', 'c', 'h', 'e', '_', 'f', 'i', 'l', 'e', '_',
        's', 'c', 'a', 'l', 'e', '=', '1',
    ];
    assert(target@ =~= cache_scale_one());
    if has_trimmed_line_exec(s.as_slice(), target.as_slice()) {
        Ok(())
    } else {
        Err(OdbError::UnsupportedCacheScale)
    }
}

/// Open the members of an ODB export: its script and properties must be
/// UTF-8, and the properties must announce a cache scale of one.
pub fn open_odb(odb: &[u8]) -> (r: Result<OdbMembers, OdbError>)
    ensures
        match (zip_member(odb@, script_member()), zip_member(odb@, data_member()), zip_member(odb@, properties_member())) {
            (Some(script), Some(data), Some(props)) => if !valid_utf8(script) {
                r == Err::<OdbMembers, OdbError>(OdbError::Utf8 { member: "database/script" })
            } else if !valid_utf8(props) {
                r == Err::<OdbMembers, OdbError>(OdbError::Utf8 { member: "database/properties" })
            } else if !has_trimmed_line(decode_utf8(props), cache_scale_one()) {
                r == Err::<OdbMembers, OdbError>(OdbError::UnsupportedCacheScale)
            } else {
                r matches Ok(m) && m.script@ == decode_utf8(script) && m.data@ == data && m.properties@
                    == decode_utf8(props)
            },
            _ => r matches Err(OdbError::Io { .. }),
        },
{
    let script_name = "database/script";
    let data_name = "database/data";
    let properties_name = "database/properties";
    proof {
        reveal_strlit("database/script");
        reveal_strlit("database/data");
        reveal_strlit("database/properties");
    }
    assert(script_name@ =~= script_member());
    assert(data_name@ =~= data_member());
    assert(properties_name@ =~= properties_member());
    let script_bytes = match open_zip_member(odb, script_name) {
        Ok(b) => b,
        Err(message) => {
            return Err(OdbError::Io { message });
        },
    };
    let data = match open_zip_member(odb, data_name) {
        Ok(b) => b,
        Err(message) => {
            return Err(OdbError::Io { message });
        },
    };
    let properties_bytes = match open_zip_member(odb, properties_name) {
        Ok(b) => b,
        Err(message) => {
            return Err(OdbError::Io { message });
        },
    };
    let script = match str_from_utf8(script_bytes.as_slice()) {
        Some(s) => s.to_owned(),
        None => {
            return Err(OdbError::Utf8 { member: "database/script" });
        },
    };
    let properties = match str_from_utf8(properties_bytes.as_slice()) {
        Some(s) => s.to_owned(),
        None => {
            return Err(OdbError::Utf8 { member: "database/properties" });
        },
    };
    ensure_cache_scale_one(properties.as_str())?;
    Ok(OdbMembers { script, data, properties })
}

// ---------------------------------------------------------------------------
// The year in a file name

/// Where the run of ASCII digits that ends `s` begins.
pub open spec fn digit_suffix_start(s: Seq<char>) -> int
    decreases s.len(),
{
    if s.len() > 0 && is_digit(s.last()) {
        digit_suffix_start(s.drop_last())
    } else {
        s.len() as int
    }
}

proof fn lemma_digit_suffix(s: Seq<char>)
    ensures
        0 <= digit_suffix_start(s) <= s.len(),
        all_digits(s.skip(digit_suffix_start(s))),
        digit_suffix_start(s) == 0 || !is_digit(s[digit_suffix_start(s) - 1]),
    decreases s.len(),
{
    if s.len() > 0 && is_digit(s.last()) {
        lemma_digit_suffix(s.drop_last());
        let k = digit_suffix_start(s.drop_last());
        assert forall|i: int| 0 <= i < s.skip(k).len() implies #[trigger] is_digit(s.skip(k)[i]) by {
            if i < s.skip(k).len() - 1 {
                assert(s.skip(k)[i] == s.drop_last().skip(k)[i]);
            }
        }
        if k > 0 {
            assert(s[k - 1] == s.drop_last()[k - 1]);
        }
    }
}

/// The ledger year that a file stem ends with, if it ends with digits that
/// fit in an `i32`.
pub open spec fn year_of_stem(stem: Seq<char>) -> Option<i32> {
    let k = digit_suffix_start(stem);
    if k == stem.len() || digits_value(stem.skip(k)) > i32::MAX {
        None
    } else {
        Some(digits_value(stem.skip(k)) as i32)
    }
}

/// The ledger year from the trailing digits of a file stem, such as `2024`
/// in `ledger-2024`.
pub fn year_from_stem(stem: &str) -> (r: Result<i32, OdbError>)
    ensures
        match year_of_stem(stem@) {
            Some(y) => r == Ok::<i32, OdbError>(y),
            None => r == Err::<i32, OdbError>(OdbError::MissingYear),
        },
{
    let s = chars_of(stem);
    let mut k = s.len();
    assert(s@.take(k as int) =~= s@);
    while k > 0 && s[k - 1] >= '0' && s[k - 1] <= '9'
        invariant
            k <= s.len(),
            digit_suffix_start(s@) == digit_suffix_start(s@.take(k as int)),
        decreases k,
    {
        assert(s@.take(k as int).drop_last() =~= s@.take(k - 1));
        k -= 1;
    }
    assert(s@.take(k as int).len() == 0 || !is_digit(s@.take(k as int).last()));
    assert(digit_suffix_start(s@) == k);
    proof {
        lemma_digit_suffix(s@);
    }
    if k == s.len() {
        return Err(OdbError::MissingYear);
    }
    let digits = crate::model::slice_of(s.as_slice(), k, s.len());
    assert(digits@ =~= s@.skip(k as int));
    match digits_up_to(digits.as_slice(), 0x7fff_ffff) {
        Some(v) => Ok(v as i32),
        None => Err(OdbError::MissingYear),
    }
}

// ---------------------------------------------------------------------------
// Cells of a decoded row

/// The last position of column `name` in a layout.
pub open spec fn last_col(cols: Seq<(Seq<char>, ColType)>, name: Seq<char>) -> Option<int>
    decreases cols.len(),
{
    if cols.len() == 0 {
        None
    } else if cols.last().0 == name {
        Some(cols.len() - 1)
    } else {
        last_col(cols.drop_last(), name)
    }
}

proof fn lemma_last_col(cols: Seq<(String, ColType)>, name: Seq<char>)
    ensures
        forall|i: int| #[trigger] is_last_entry(cols, name, i) ==> last_col(layout_view(cols), name) == Some(i),
        (forall|j: int| 0 <= j < cols.len() ==> (#[trigger] cols[j]).0@ != name) ==> last_col(layout_view(cols), name) is None,
    decreases cols.len(),
{
    if cols.len() > 0 {
        let t = cols.drop_last();
        assert(layout_view(cols).drop_last() =~= layout_view(t));
        lemma_last_col(t, name);
        assert forall|i: int| #[trigger] is_last_entry(cols, name, i) implies last_col(layout_view(cols), name) == Some(i) by {
            if i < cols.len() - 1 {
                assert(cols[cols.len() - 1].0@ != name);
                assert forall|j: int| i < j < t.len() implies (#[trigger] t[j]).0@ != name by {
                    assert(t[j] == cols[j]);
                }
                assert(is_last_entry(t, name, i));
            }
        }
        if forall|j: int| 0 <= j < cols.len() ==> (#[trigger] cols[j]).0@ != name {
            assert(cols[cols.len() - 1].0@ != name);
            assert forall|j: int| 0 <= j < t.len() implies (#[trigger] t[j]).0@ != name by {
                assert(t[j] == cols[j]);
            }
        }
    }
}

/// The cell values of a decoded row.
pub open spec fn cells_view(row: Seq<Cell>) -> Seq<CellValue> {
    row.map_values(|c: Cell| c@)
}

/// The cell of column `column` in a row laid out as `cols`.
pub open spec fn row_cell(row: Seq<CellValue>, cols: Seq<(Seq<char>, ColType)>, table: &'static str, column: &'static str) -> Result<CellValue, OdbError> {
    match last_col(cols, column@) {
        Some(i) => if i < row.len() {
            Ok(row[i])
        } else {
            Err(OdbError::MissingColumn { table, column })
        },
        None => Err(OdbError::MissingColumn { table, column }),
    }
}

/// An integer cell.
pub open spec fn int_value(c: Result<CellValue, OdbError>, table: &'static str, column: &'static str) -> Result<i64, OdbError> {
    match c {
        Err(e) => Err(e),
        Ok(CellValue::Int(v)) => Ok(v as i64),
        Ok(_) => Err(OdbError::WrongCellType { table, column }),
    }
}

/// An integer cell that may be null.
pub open spec fn opt_int_value(c: Result<CellValue, OdbError>, table: &'static str, column: &'static str) -> Result<Option<i64>, OdbError> {
    match c {
        Err(e) => Err(e),
        Ok(CellValue::Null) => Ok(None),
        Ok(CellValue::Int(v)) => Ok(Some(v as i64)),
        Ok(_) => Err(OdbError::WrongCellType { table, column }),
    }
}

/// A 32-bit integer cell that may be null.
pub open spec fn opt_i32_value(c: Result<CellValue, OdbError>, table: &'static str, column: &'static str) -> Result<Option<i32>, OdbError> {
    match c {
        Err(e) => Err(e),
        Ok(CellValue::Null) => Ok(None),
        Ok(CellValue::Int(v)) => if i32::MIN <= v <= i32::MAX {
            Ok(Some(v as i32))
        } else {
            Err(OdbError::IntegerOutOfRange { table, column, value: v as i64 })
        },
        Ok(_) => Err(OdbError::WrongCellType { table, column }),
    }
}

/// A text cell.
pub open spec fn text_value(c: Result<CellValue, OdbError>, table: &'static str, column: &'static str) -> Result<Seq<char>, OdbError> {
    match c {
        Err(e) => Err(e),
        Ok(CellValue::Str(s)) => Ok(s),
        Ok(_) => Err(OdbError::WrongCellType { table, column }),
    }
}

/// A text cell that may be null; empty text counts as absent.
pub open spec fn opt_text_value(c: Result<CellValue, OdbError>, table: &'static str, column: &'static str) -> Result<Option<Seq<char>>, OdbError> {
    match c {
        Err(e) => Err(e),
        Ok(CellValue::Null) => Ok(None),
        Ok(CellValue::Str(s)) => if s.len() == 0 { Ok(None) } else { Ok(Some(s)) },
        Ok(_) => Err(OdbError::WrongCellType { table, column }),
    }
}

/// A date cell.
pub open spec fn date_value(c: Result<CellValue, OdbError>, table: &'static str, column: &'static str) -> Result<Seq<char>, OdbError> {
    match c {
        Err(e) => Err(e),
        Ok(CellValue::Date(s)) => Ok(s),
        Ok(_) => Err(OdbError::WrongCellType { table, column }),
    }
}

/// A fixed-decimal cell that may be null, in minor units.
pub open spec fn opt_num_value(c: Result<CellValue, OdbError>, table: &'static str, column: &'static str) -> Result<Option<i64>, OdbError> {
    match c {
        Err(e) => Err(e),
        Ok(CellValue::Null) => Ok(None),
        Ok(CellValue::Num(v)) => Ok(Some(v as i64)),
        Ok(_) => Err(OdbError::WrongCellType { table, column }),
    }
}

/// A value that must not be null.
pub open spec fn required<T>(v: Result<Option<T>, OdbError>, table: &'static str, column: &'static str, source_id: Option<i64>) -> Result<T, OdbError> {
    match v {
        Err(e) => Err(e),
        Ok(None) => Err(OdbError::RequiredNull { table, column, source_id }),
        Ok(Some(x)) => Ok(x),
    }
}

/// The first of two column names that the layout has, else the first.
pub open spec fn alias_of(cols: Seq<(Seq<char>, ColType)>, first: &'static str, second: &'static str) -> &'static str {
    if last_col(cols, first@) is Some {
        first
    } else if last_col(cols, second@) is Some {
        second
    } else {
        first
    }
}

/// `last_col` finds a column exactly when the layout has one of that name.
proof fn lemma_last_col_finds(cols: Seq<(Seq<char>, ColType)>, name: Seq<char>)
    ensures
        last_col(cols, name) is Some <==> exists|i: int| 0 <= i < cols.len() && (#[trigger] cols[i]).0 == name,
    decreases cols.len(),
{
    if cols.len() > 0 {
        lemma_last_col_finds(cols.drop_last(), name);
        if cols.last().0 != name {
            assert forall|i: int| 0 <= i < cols.len() && (#[trigger] cols[i]).0 == name implies exists|k: int|
                0 <= k < cols.drop_last().len() && (#[trigger] cols.drop_last()[k]).0 == name by {
                assert(i < cols.len() - 1);
                assert(cols.drop_last()[i] == cols[i]);
            }
            assert forall|k: int| 0 <= k < cols.drop_last().len() && (#[trigger] cols.drop_last()[k]).0 == name implies exists|i: int|
                0 <= i < cols.len() && (#[trigger] cols[i]).0 == name by {
                assert(cols[k] == cols.drop_last()[k]);
            }
        } else {
            assert(cols[cols.len() - 1].0 == name);
        }
    }
}

/// Of two column names, the one read is the first whenever the layout has a
/// column of that name, the second when only it is there; so the column read
/// is one the layout has whenever it has either.
pub proof fn lemma_alias_prefers_the_first_name(cols: Seq<(Seq<char>, ColType)>, first: &'static str, second: &'static str)
    ensures
        (exists|i: int| 0 <= i < cols.len() && (#[trigger] cols[i]).0 == first@) ==> alias_of(cols, first, second) == first,
        !(exists|i: int| 0 <= i < cols.len() && (#[trigger] cols[i]).0 == first@) && (exists|i: int|
            0 <= i < cols.len() && (#[trigger] cols[i]).0 == second@) ==> alias_of(cols, first, second) == second,
        (exists|i: int| 0 <= i < cols.len() && ((#[trigger] cols[i]).0 == first@ || cols[i].0 == second@)) ==> exists|i: int|
            0 <= i < cols.len() && (#[trigger] cols[i]).0 == alias_of(cols, first, second)@,
{
    lemma_last_col_finds(cols, first@);
    lemma_last_col_finds(cols, second@);
    if exists|i: int| 0 <= i < cols.len() && ((#[trigger] cols[i]).0 == first@ || cols[i].0 == second@) {
        let i = choose|i: int| 0 <= i < cols.len() && ((#[trigger] cols[i]).0 == first@ || cols[i].0 == second@);
        if cols[i].0 == first@ {
            assert(alias_of(cols, first, second) == first);
        } else if last_col(cols, first@) is Some {
            let k = choose|k: int| 0 <= k < cols.len() && (#[trigger] cols[k]).0 == first@;
        } else {
            assert(alias_of(cols, first, second) == second);
        }
    }
}

/// The cell of `column` in `row`.
fn cell<'a>(row: &'a [Cell], cols: &[(String, ColType)], table: &'static str, column: &'static str) -> (r: Result<&'a Cell, OdbError>)
    ensures
        match row_cell(cells_view(row@), layout_view(cols@), table, column) {
            Ok(c) => r matches Ok(x) && x@ == c,
            Err(e) => r == Err::<&Cell, OdbError>(e),
        },
{
    proof {
        lemma_last_col(cols@, column@);
    }
    match find_entry(cols, column) {
        Some(index) => {
            assert(is_last_entry(cols@, column@, index as int));
            if index < row.len() {
                Ok(&row[index])
            } else {
                Err(OdbError::MissingColumn { table, column })
            }
        },
        None => Err(OdbError::MissingColumn { table, column }),
    }
}

fn int_cell(row: &[Cell], cols: &[(String, ColType)], table: &'static str, column: &'static str) -> (r: Result<i64, OdbError>)
    ensures
        r == int_value(row_cell(cells_view(row@), layout_view(cols@), table, column), table, column),
{
    match cell(row, cols, table, column)? {
        Cell::Int(value) => Ok(*value),
        _ => Err(OdbError::WrongCellType { table, column }),
    }
}

fn optional_int_cell(row: &[Cell], cols: &[(String, ColType)], table: &'static str, column: &'static str) -> (r: Result<Option<i64>, OdbError>)
    ensures
        r == opt_int_value(row_cell(cells_view(row@), layout_view(cols@), table, column), table, column),
{
    match cell(row, cols, table, column)? {
        Cell::Null => Ok(None),
        Cell::Int(value) => Ok(Some(*value)),
        _ => Err(OdbError::WrongCellType { table, column }),
    }
}

fn optional_i32_cell(row: &[Cell], cols: &[(String, ColType)], table: &'static str, column: &'static str) -> (r: Result<Option<i32>, OdbError>)
    ensures
        r == opt_i32_value(row_cell(cells_view(row@), layout_view(cols@), table, column), table, column),
{
    match cell(row, cols, table, column)? {
        Cell::Null => Ok(None),
        Cell::Int(value) => {
            if *value < i32::MIN as i64 || *value > i32::MAX as i64 {
                Err(OdbError::IntegerOutOfRange { table, column, value: *value })
            } else {
                Ok(Some(*value as i32))
            }
        },
        _ => Err(OdbError::WrongCellType { table, column }),
    }
}

fn string_cell(row: &[Cell], cols: &[(String, ColType)], table: &'static str, column: &'static str) -> (r: Result<String, OdbError>)
    ensures
        match text_value(row_cell(cells_view(row@), layout_view(cols@), table, column), table, column) {
            Ok(s) => r matches Ok(x) && x@ == s,
            Err(e) => r == Err::<String, OdbError>(e),
        },
{
    match cell(row, cols, table, column)? {
        Cell::Str(value) => Ok(value.clone()),
        _ => Err(OdbError::WrongCellType { table, column }),
    }
}

fn optional_string_cell(row: &[Cell], cols: &[(String, ColType)], table: &'static str, column: &'static str) -> (r: Result<Option<String>, OdbError>)
    ensures
        match opt_text_value(row_cell(cells_view(row@), layout_view(cols@), table, column), table, column) {
            Ok(s) => r matches Ok(x) && opt_text(x) == s,
            Err(e) => r == Err::<Option<String>, OdbError>(e),
        },
{
    match cell(row, cols, table, column)? {
        Cell::Null => Ok(None),
        Cell::Str(value) => {
            if value.as_str().is_empty() {
                Ok(None)
            } else {
                Ok(Some(value.clone()))
            }
        },
        _ => Err(OdbError::WrongCellType { table, column }),
    }
}

fn date_cell(row: &[Cell], cols: &[(String, ColType)], table: &'static str, column: &'static str) -> (r: Result<String, OdbError>)
    ensures
        match date_value(row_cell(cells_view(row@), layout_view(cols@), table, column), table, column) {
            Ok(s) => r matches Ok(x) && x@ == s,
            Err(e) => r == Err::<String, OdbError>(e),
        },
{
    match cell(row, cols, table, column)? {
        Cell::Date(value) => Ok(value.clone()),
        _ => Err(OdbError::WrongCellType { table, column }),
    }
}

fn optional_num_cell(row: &[Cell], cols: &[(String, ColType)], table: &'static str, column: &'static str) -> (r: Result<Option<i64>, OdbError>)
    ensures
        r == opt_num_value(row_cell(cells_view(row@), layout_view(cols@), table, column), table, column),
{
    match cell(row, cols, table, column)? {
        Cell::Null => Ok(None),
        Cell::Num(value) => Ok(Some(*value)),
        _ => Err(OdbError::WrongCellType { table, column }),
    }
}

fn required_int_cell(row: &[Cell], cols: &[(String, ColType)], table: &'static str, column: &'static str, source_id: Option<i64>) -> (r: Result<i64, OdbError>)
    ensures
        r == required(opt_int_value(row_cell(cells_view(row@), layout_view(cols@), table, column), table, column), table, column, source_id),
{
    match optional_int_cell(row, cols, table, column)? {
        Some(v) => Ok(v),
        None => Err(OdbError::RequiredNull { table, column, source_id }),
    }
}

/// The first of two column names that the layout has, else the first.
fn alias_column(cols: &[(String, ColType)], first: &'static str, second: &'static str) -> (r: &'static str)
    ensures
        r == alias_of(layout_view(cols@), first, second),
{
    proof {
        lemma_last_col(cols@, first@);
        lemma_last_col(cols@, second@);
    }
    match find_entry(cols, first) {
        Some(i) => {
            assert(is_last_entry(cols@, first@, i as int));
            first
        },
        None => match find_entry(cols, second) {
            Some(i) => {
                assert(is_last_entry(cols@, second@, i as int));
                second
            },
            None => first,
        },
    }
}

// ---------------------------------------------------------------------------
// Rows to source records

/// The account a `konto` row states.
pub open spec fn account_of_row(row: Seq<CellValue>, cols: Seq<(Seq<char>, ColType)>) -> Result<AccountView, OdbError> {
    let t = "konto";
    match int_value(row_cell(row, cols, t, "k_nr"), t, "k_nr") {
        Err(e) => Err(e),
        Ok(number) => match text_value(row_cell(row, cols, t, "k_namn"), t, "k_namn") {
            Err(e) => Err(e),
            Ok(name) => match opt_text_value(row_cell(row, cols, t, "k_text"), t, "k_text") {
                Err(e) => Err(e),
                Ok(note) => match opt_i32_value(row_cell(row, cols, t, "k_sru_p"), t, "k_sru_p") {
                    Err(e) => Err(e),
                    Ok(sru_plus) => match opt_i32_value(row_cell(row, cols, t, "k_sru_m"), t, "k_sru_m") {
                        Err(e) => Err(e),
                        Ok(sru_minus) => Ok(AccountView { number, name, note, sru_plus, sru_minus }),
                    },
                },
            },
        },
    }
}

/// The voucher a `ver` row states.
pub open spec fn voucher_of_row(row: Seq<CellValue>, cols: Seq<(Seq<char>, ColType)>) -> Result<SourceVoucherView, OdbError> {
    let t = "ver";
    match int_value(row_cell(row, cols, t, "v_nr"), t, "v_nr") {
        Err(e) => Err(e),
        Ok(source_id) => match date_value(row_cell(row, cols, t, "v_datum"), t, "v_datum") {
            Err(e) => Err(e),
            Ok(date) => match opt_text_value(row_cell(row, cols, t, "v_text"), t, "v_text") {
                Err(e) => Err(e),
                Ok(text) => Ok(SourceVoucherView { source_id, date, text }),
            },
        },
    }
}

/// The posting a `trans` row states. A row with neither an account nor an
/// amount is an unfinished draft line and states no posting; otherwise both
/// are required.
pub open spec fn posting_of_row(row: Seq<CellValue>, cols: Seq<(Seq<char>, ColType)>) -> Result<Option<SourcePostingView>, OdbError> {
    let t = "trans";
    match required(opt_int_value(row_cell(row, cols, t, "t_nr"), t, "t_nr"), t, "t_nr", None) {
        Err(e) => Err(e),
        Ok(source_id) => {
            let vcol = alias_of(cols, "t_ver", "v_nr");
            match required(opt_int_value(row_cell(row, cols, t, vcol), t, vcol), t, vcol, Some(source_id)) {
                Err(e) => Err(e),
                Ok(source_voucher_id) => {
                    let acol = alias_of(cols, "t_konto", "k_nr");
                    match opt_int_value(row_cell(row, cols, t, acol), t, acol) {
                        Err(e) => Err(e),
                        Ok(account) => match opt_num_value(row_cell(row, cols, t, "t_belopp"), t, "t_belopp") {
                            Err(e) => Err(e),
                            Ok(amount) => if account is None && amount is None {
                                Ok(None)
                            } else if account is None {
                                Err(OdbError::RequiredNull { table: t, column: acol, source_id: Some(source_id) })
                            } else if amount is None {
                                Err(OdbError::RequiredNull { table: t, column: "t_belopp", source_id: Some(source_id) })
                            } else {
                                match opt_text_value(row_cell(row, cols, t, "t_text"), t, "t_text") {
                                    Err(e) => Err(e),
                                    Ok(text) => Ok(Some(SourcePostingView {
                                        source_id,
                                        source_voucher_id,
                                        account: account->Some_0,
                                        amount: amount->Some_0,
                                        text,
                                    })),
                                }
                            },
                        },
                    }
                },
            }
        },
    }
}

/// The accounts of the `konto` rows, or the failure of the first bad row.
pub open spec fn accounts_of_rows(rows: Seq<Seq<CellValue>>, cols: Seq<(Seq<char>, ColType)>) -> Result<Seq<AccountView>, OdbError>
    decreases rows.len(),
{
    if rows.len() == 0 {
        Ok(Seq::empty())
    } else {
        match accounts_of_rows(rows.drop_last(), cols) {
            Err(e) => Err(e),
            Ok(done) => match account_of_row(rows.last(), cols) {
                Err(e) => Err(e),
                Ok(a) => Ok(done.push(a)),
            },
        }
    }
}

/// The vouchers of the `ver` rows, or the failure of the first bad row.
pub open spec fn vouchers_of_rows(rows: Seq<Seq<CellValue>>, cols: Seq<(Seq<char>, ColType)>) -> Result<Seq<SourceVoucherView>, OdbError>
    decreases rows.len(),
{
    if rows.len() == 0 {
        Ok(Seq::empty())
    } else {
        match vouchers_of_rows(rows.drop_last(), cols) {
            Err(e) => Err(e),
            Ok(done) => match voucher_of_row(rows.last(), cols) {
                Err(e) => Err(e),
                Ok(v) => Ok(done.push(v)),
            },
        }
    }
}

/// The postings of the `trans` rows, draft lines left out, or the failure of
/// the first bad row.
pub open spec fn postings_of_rows(rows: Seq<Seq<CellValue>>, cols: Seq<(Seq<char>, ColType)>) -> Result<Seq<SourcePostingView>, OdbError>
    decreases rows.len(),
{
    if rows.len() == 0 {
        Ok(Seq::empty())
    } else {
        match postings_of_rows(rows.drop_last(), cols) {
            Err(e) => Err(e),
            Ok(done) => match posting_of_row(rows.last(), cols) {
                Err(e) => Err(e),
                Ok(None) => Ok(done),
                Ok(Some(p)) => Ok(done.push(p)),
            },
        }
    }
}

proof fn lemma_rows_prefix_err<T>(rows: Seq<Seq<CellValue>>, k: int, n: int, f: spec_fn(Seq<Seq<CellValue>>) -> Result<T, OdbError>)
    requires
        0 <= k <= n <= rows.len(),
        f(rows.take(k)) is Err,
        forall|s: Seq<Seq<CellValue>>| s.len() > 0 && (#[trigger] f(s.drop_last())) is Err ==> f(s) == f(s.drop_last()),
    ensures
        f(rows.take(n)) == f(rows.take(k)),
    decreases n - k,
{
    if n > k {
        lemma_rows_prefix_err(rows, k, n - 1, f);
        assert(rows.take(n).drop_last() =~= rows.take(n - 1));
    }
}

fn account_from_row(row: &[Cell], cols: &[(String, ColType)]) -> (r: Result<Account, OdbError>)
    ensures
        match account_of_row(cells_view(row@), layout_view(cols@)) {
            Ok(a) => r matches Ok(x) && x@ == a,
            Err(e) => r == Err::<Account, OdbError>(e),
        },
{
    let number = int_cell(row, cols, "konto", "k_nr")?;
    let name = string_cell(row, cols, "konto", "k_namn")?;
    let note = optional_string_cell(row, cols, "konto", "k_text")?;
    let sru_plus = optional_i32_cell(row, cols, "konto", "k_sru_p")?;
    let sru_minus = optional_i32_cell(row, cols, "konto", "k_sru_m")?;
    Ok(Account { number, name, note, sru_plus, sru_minus })
}

fn voucher_from_row(row: &[Cell], cols: &[(String, ColType)]) -> (r: Result<SourceVoucher, OdbError>)
    ensures
        match voucher_of_row(cells_view(row@), layout_view(cols@)) {
            Ok(v) => r matches Ok(x) && x@ == v,
            Err(e) => r == Err::<SourceVoucher, OdbError>(e),
        },
{
    let source_id = int_cell(row, cols, "ver", "v_nr")?;
    let date = date_cell(row, cols, "ver", "v_datum")?;
    let text = optional_string_cell(row, cols, "ver", "v_text")?;
    Ok(SourceVoucher { source_id, date, text })
}

/// The posting a `trans` row states; `None` for a draft line with neither an
/// account nor an amount.
fn posting_from_row(row: &[Cell], cols: &[(String, ColType)]) -> (r: Result<Option<SourcePosting>, OdbError>)
    ensures
        match posting_of_row(cells_view(row@), layout_view(cols@)) {
            Ok(Some(p)) => r matches Ok(Some(x)) && x@ == p,
            Ok(None) => r matches Ok(None),
            Err(e) => r == Err::<Option<SourcePosting>, OdbError>(e),
        },
{
    let source_id = required_int_cell(row, cols, "trans", "t_nr", None)?;
    let vcol = alias_column(cols, "t_ver", "v_nr");
    let source_voucher_id = required_int_cell(row, cols, "trans", vcol, Some(source_id))?;
    let acol = alias_column(cols, "t_konto", "k_nr");
    let account = optional_int_cell(row, cols, "trans", acol)?;
    let amount = optional_num_cell(row, cols, "trans", "t_belopp")?;
    let (account, amount) = match (account, amount) {
        (None, None) => {
            return Ok(None);
        },
        (None, Some(_)) => {
            return Err(OdbError::RequiredNull { table: "trans", column: acol, source_id: Some(source_id) });
        },
        (Some(_), None) => {
            return Err(OdbError::RequiredNull { table: "trans", column: "t_belopp", source_id: Some(source_id) });
        },
        (Some(account), Some(amount)) => (account, amount),
    };
    let text = optional_string_cell(row, cols, "trans", "t_text")?;
    Ok(Some(SourcePosting { source_id, source_voucher_id, account, amount: Amount(amount), text }))
}

/// The accounts of decoded `konto` rows.
fn accounts_from_rows(rows: &[Vec<Cell>], cols: &[(String, ColType)]) -> (r: Result<Vec<Account>, OdbError>)
    ensures
        match accounts_of_rows(rows_view(rows@), layout_view(cols@)) {
            Ok(v) => r matches Ok(x) && x@.map_values(|a: Account| a@) == v,
            Err(e) => r == Err::<Vec<Account>, OdbError>(e),
        },
{
    let ghost rv = rows_view(rows@);
    let ghost lv = layout_view(cols@);
    let mut out: Vec<Account> = Vec::new();
    let mut i: usize = 0;
    assert(rv.take(0) =~= Seq::<Seq<CellValue>>::empty());
    assert(out@.map_values(|a: Account| a@) =~= Seq::empty());
    while i < rows.len()
        invariant
            i <= rows.len(),
            rv == rows_view(rows@),
            lv == layout_view(cols@),
            accounts_of_rows(rv.take(i as int), lv) == Ok::<Seq<AccountView>, OdbError>(out@.map_values(|a: Account| a@)),
        decreases rows.len() - i,
    {
        assert(rv.take(i + 1).drop_last() =~= rv.take(i as int));
        assert(rv.take(i + 1).last() == cells_view(rows@[i as int]@));
        let a = match account_from_row(rows[i].as_slice(), cols) {
            Ok(a) => a,
            Err(e) => {
                proof {
                    let f = |s: Seq<Seq<CellValue>>| accounts_of_rows(s, lv);
                    lemma_rows_prefix_err(rv, i + 1, rows.len() as int, f);
                    assert(rv.take(rows.len() as int) =~= rv);
                }
                return Err(e);
            },
        };
        let ghost before = out@.map_values(|a: Account| a@);
        out.push(a);
        assert(out@.map_values(|a: Account| a@) =~= before.push(a@));
        i += 1;
    }
    assert(rv.take(rows.len() as int) =~= rv);
    Ok(out)
}

/// The vouchers of decoded `ver` rows.
fn vouchers_from_rows(rows: &[Vec<Cell>], cols: &[(String, ColType)]) -> (r: Result<Vec<SourceVoucher>, OdbError>)
    ensures
        match vouchers_of_rows(rows_view(rows@), layout_view(cols@)) {
            Ok(v) => r matches Ok(x) && x@.map_values(|v: SourceVoucher| v@) == v,
            Err(e) => r == Err::<Vec<SourceVoucher>, OdbError>(e),
        },
{
    let ghost rv = rows_view(rows@);
    let ghost lv = layout_view(cols@);
    let mut out: Vec<SourceVoucher> = Vec::new();
    let mut i: usize = 0;
    assert(rv.take(0) =~= Seq::<Seq<CellValue>>::empty());
    assert(out@.map_values(|v: SourceVoucher| v@) =~= Seq::empty());
    while i < rows.len()
        invariant
            i <= rows.len(),
            rv == rows_view(rows@),
            lv == layout_view(cols@),
            vouchers_of_rows(rv.take(i as int), lv) == Ok::<Seq<SourceVoucherView>, OdbError>(out@.map_values(|v: SourceVoucher| v@)),
        decreases rows.len() - i,
    {
        assert(rv.take(i + 1).drop_last() =~= rv.take(i as int));
        assert(rv.take(i + 1).last() == cells_view(rows@[i as int]@));
        let v = match voucher_from_row(rows[i].as_slice(), cols) {
            Ok(v) => v,
            Err(e) => {
                proof {
                    let f = |s: Seq<Seq<CellValue>>| vouchers_of_rows(s, lv);
                    lemma_rows_prefix_err(rv, i + 1, rows.len() as int, f);
                    assert(rv.take(rows.len() as int) =~= rv);
                }
                return Err(e);
            },
        };
        let ghost before = out@.map_values(|v: SourceVoucher| v@);
        out.push(v);
        assert(out@.map_values(|v: SourceVoucher| v@) =~= before.push(v@));
        i += 1;
    }
    assert(rv.take(rows.len() as int) =~= rv);
    Ok(out)
}

/// The postings of decoded `trans` rows, draft lines left out.
fn postings_from_rows(rows: &[Vec<Cell>], cols: &[(String, ColType)]) -> (r: Result<Vec<SourcePosting>, OdbError>)
    ensures
        match postings_of_rows(rows_view(rows@), layout_view(cols@)) {
            Ok(v) => r matches Ok(x) && x@.map_values(|p: SourcePosting| p@) == v,
            Err(e) => r == Err::<Vec<SourcePosting>, OdbError>(e),
        },
{
    let ghost rv = rows_view(rows@);
    let ghost lv = layout_view(cols@);
    let mut out: Vec<SourcePosting> = Vec::new();
    let mut i: usize = 0;
    assert(rv.take(0) =~= Seq::<Seq<CellValue>>::empty());
    assert(out@.map_values(|p: SourcePosting| p@) =~= Seq::empty());
    while i < rows.len()
        invariant
            i <= rows.len(),
            rv == rows_view(rows@),
            lv == layout_view(cols@),
            postings_of_rows(rv.take(i as int), lv) == Ok::<Seq<SourcePostingView>, OdbError>(out@.map_values(|p: SourcePosting| p@)),
        decreases rows.len() - i,
    {
        assert(rv.take(i + 1).drop_last() =~= rv.take(i as int));
        assert(rv.take(i + 1).last() == cells_view(rows@[i as int]@));
        match posting_from_row(rows[i].as_slice(), cols) {
            Ok(Some(p)) => {
                let ghost before = out@.map_values(|p: SourcePosting| p@);
                out.push(p);
                assert(out@.map_values(|p: SourcePosting| p@) =~= before.push(p@));
            },
            Ok(None) => {},
            Err(e) => {
                proof {
                    let f = |s: Seq<Seq<CellValue>>| postings_of_rows(s, lv);
                    lemma_rows_prefix_err(rv, i + 1, rows.len() as int, f);
                    assert(rv.take(rows.len() as int) =~= rv);
                }
                return Err(e);
            },
        }
        i += 1;
    }
    assert(rv.take(rows.len() as int) =~= rv);
    Ok(out)
}

// ---------------------------------------------------------------------------
// Tables of the data file

/// The column types of a layout.
pub open spec fn layout_types(cols: Seq<(Seq<char>, ColType)>) -> Seq<ColType> {
    cols.map_values(|c: (Seq<char>, ColType)| c.1)
}

/// The decoded rows of `table`, through its first index, as the schema lays
/// the table out.
pub open spec fn odb_table_rows(data: Seq<u8>, schema: OdbSchemaView, table: &'static str) -> Result<Seq<Seq<CellValue>>, OdbError> {
    if !schema.columns.dom().contains(table@) {
        Err(OdbError::MissingTable { table })
    } else if !schema.index_roots.dom().contains(table@) || schema.index_roots[table@].len() == 0 {
        Err(OdbError::MissingIndex { table })
    } else {
        let roots = schema.index_roots[table@];
        match hsqldb_table_rows(data, roots[0], layout_types(schema.columns[table@]), roots.len() as int) {
            Ok(rows) => Ok(rows),
            Err(k) => Err(OdbError::Hsql { table, source: HsqlError { kind: k } }),
        }
    }
}

/// Decode every row of `table` through its first index.
fn table_rows(data: &[u8], schema: &OdbSchema, table: &'static str) -> (r: Result<Vec<Vec<Cell>>, OdbError>)
    ensures
        match odb_table_rows(data@, schema@, table) {
            Ok(rows) => r matches Ok(v) && rows_view(v@) == rows,
            Err(e) => r == Err::<Vec<Vec<Cell>>, OdbError>(e),
        },
{
    let cols = match schema.columns_of(table) {
        Some(c) => c,
        None => {
            return Err(OdbError::MissingTable { table });
        },
    };
    let roots = match schema.index_roots_of(table) {
        Some(r) => r,
        None => {
            return Err(OdbError::MissingIndex { table });
        },
    };
    if roots.len() == 0 {
        return Err(OdbError::MissingIndex { table });
    }
    let root = roots[0];
    assert(col_types(cols@) =~= layout_types(layout_view(cols@)));
    match read_table(data, root, cols.as_slice(), roots.len()) {
        Ok(rows) => Ok(rows),
        Err(source) => Err(OdbError::Hsql { table, source }),
    }
}

/// The column layout of `table`.
fn table_layout<'a>(schema: &'a OdbSchema, table: &'static str) -> (r: Result<&'a Vec<(String, ColType)>, OdbError>)
    ensures
        match r {
            Ok(cols) => schema@.columns.dom().contains(table@) && schema@.columns[table@] == layout_view(cols@),
            Err(e) => !schema@.columns.dom().contains(table@) && e == OdbError::MissingTable { table },
        },
{
    match schema.columns_of(table) {
        Some(c) => Ok(c),
        None => Err(OdbError::MissingTable { table }),
    }
}

/// The next source id of `table`.
fn restart(schema: &OdbSchema, table: &'static str) -> (r: Result<i64, OdbError>)
    ensures
        schema@.restart.dom().contains(table@) ==> r == Ok::<i64, OdbError>(schema@.restart[table@]),
        !schema@.restart.dom().contains(table@) ==> r == Err::<i64, OdbError>(OdbError::MissingRestart { table }),
{
    match schema.restart_of(table) {
        Some(v) => Ok(v),
        None => Err(OdbError::MissingRestart { table }),
    }
}

/// What a source year read from an ODB states.
pub struct SourceYearView {
    /// Ledger year.
    pub year: i32,
    /// Accounts.
    pub accounts: Seq<AccountView>,
    /// Vouchers.
    pub vouchers: Seq<SourceVoucherView>,
    /// Postings.
    pub postings: Seq<SourcePostingView>,
    /// Voucher id high-water mark.
    pub next_source_voucher_id: i64,
    /// Posting id high-water mark.
    pub next_source_posting_id: i64,
}

/// What a source year states.
pub open spec fn source_year_view(y: SourceYear) -> SourceYearView {
    SourceYearView {
        year: y.year,
        accounts: y.accounts@.map_values(|a: Account| a@),
        vouchers: y.vouchers@.map_values(|v: SourceVoucher| v@),
        postings: y.postings@.map_values(|p: SourcePosting| p@),
        next_source_voucher_id: y.next_source_voucher_id,
        next_source_posting_id: y.next_source_posting_id,
    }
}

/// The records of one table, as `of_rows` reads its rows.
pub open spec fn table_records<T>(
    data: Seq<u8>,
    schema: OdbSchemaView,
    table: &'static str,
    of_rows: spec_fn(Seq<Seq<CellValue>>, Seq<(Seq<char>, ColType)>) -> Result<T, OdbError>,
) -> Result<T, OdbError> {
    match odb_table_rows(data, schema, table) {
        Err(e) => Err(e),
        Ok(rows) => of_rows(rows, schema.columns[table@]),
    }
}

/// The source year that the data file states under `schema`: accounts,
/// vouchers and postings in index order, and the id high-water marks.
pub open spec fn odb_source_year(data: Seq<u8>, schema: OdbSchemaView, year: i32) -> Result<SourceYearView, OdbError> {
    match table_records(data, schema, "konto", |r, c| accounts_of_rows(r, c)) {
        Err(e) => Err(e),
        Ok(accounts) => match table_records(data, schema, "ver", |r, c| vouchers_of_rows(r, c)) {
            Err(e) => Err(e),
            Ok(vouchers) => match table_records(data, schema, "trans", |r, c| postings_of_rows(r, c)) {
                Err(e) => Err(e),
                Ok(postings) => if !schema.restart.dom().contains("ver"@) {
                    Err(OdbError::MissingRestart { table: "ver" })
                } else if !schema.restart.dom().contains("trans"@) {
                    Err(OdbError::MissingRestart { table: "trans" })
                } else {
                    Ok(SourceYearView {
                        year,
                        accounts,
                        vouchers,
                        postings,
                        next_source_voucher_id: schema.restart["ver"@],
                        next_source_posting_id: schema.restart["trans"@],
                    })
                },
            },
        },
    }
}

/// Reading an ODB for a year gives that year, whatever the file is called,
/// with the schema's id high-water marks; and the year only changes the
/// year: the rows read, and whether the read fails, do not depend on it.
pub proof fn lemma_odb_year_is_the_requested_year(data: Seq<u8>, schema: OdbSchemaView, year: i32, other: i32)
    ensures
        odb_source_year(data, schema, year) matches Ok(y) ==> y.year == year && y.next_source_voucher_id
            == schema.restart["ver"@] && y.next_source_posting_id == schema.restart["trans"@],
        odb_source_year(data, schema, year) is Ok <==> odb_source_year(data, schema, other) is Ok,
        odb_source_year(data, schema, year) matches Ok(y) ==> odb_source_year(data, schema, other) == Ok::<
            SourceYearView,
            OdbError,
        >(SourceYearView { year: other, ..y }),
        odb_source_year(data, schema, year) is Err ==> odb_source_year(data, schema, other) == odb_source_year(
            data,
            schema,
            year,
        ),
{
}

fn read_accounts(data: &[u8], schema: &OdbSchema) -> (r: Result<Vec<Account>, OdbError>)
    ensures
        match table_records(data@, schema@, "konto", |r, c| accounts_of_rows(r, c)) {
            Ok(v) => r matches Ok(x) && x@.map_values(|a: Account| a@) == v,
            Err(e) => r == Err::<Vec<Account>, OdbError>(e),
        },
{
    let rows = table_rows(data, schema, "konto")?;
    let cols = table_layout(schema, "konto")?;
    accounts_from_rows(rows.as_slice(), cols.as_slice())
}

fn read_vouchers(data: &[u8], schema: &OdbSchema) -> (r: Result<Vec<SourceVoucher>, OdbError>)
    ensures
        match table_records(data@, schema@, "ver", |r, c| vouchers_of_rows(r, c)) {
            Ok(v) => r matches Ok(x) && x@.map_values(|v: SourceVoucher| v@) == v,
            Err(e) => r == Err::<Vec<SourceVoucher>, OdbError>(e),
        },
{
    let rows = table_rows(data, schema, "ver")?;
    let cols = table_layout(schema, "ver")?;
    vouchers_from_rows(rows.as_slice(), cols.as_slice())
}

fn read_postings(data: &[u8], schema: &OdbSchema) -> (r: Result<Vec<SourcePosting>, OdbError>)
    ensures
        match table_records(data@, schema@, "trans", |r, c| postings_of_rows(r, c)) {
            Ok(v) => r matches Ok(x) && x@.map_values(|p: SourcePosting| p@) == v,
            Err(e) => r == Err::<Vec<SourcePosting>, OdbError>(e),
        },
{
    let rows = table_rows(data, schema, "trans")?;
    let cols = table_layout(schema, "trans")?;
    postings_from_rows(rows.as_slice(), cols.as_slice())
}

/// Read the ledger tables of an opened ODB export for an explicit ledger
/// year, with the table layouts and id high-water marks of its script.
pub fn read_odb_for_year(members: &OdbMembers, schema: &OdbSchema, year: i32) -> (r: Result<SourceYear, OdbError>)
    ensures
        match odb_source_year(members.data@, schema@, year) {
            Ok(y) => r matches Ok(x) && source_year_view(x) == y,
            Err(e) => r == Err::<SourceYear, OdbError>(e),
        },
{
    let data = members.data.as_slice();
    let accounts = read_accounts(data, schema)?;
    let vouchers = read_vouchers(data, schema)?;
    let postings = read_postings(data, schema)?;
    let next_source_voucher_id = restart(schema, "ver")?;
    let next_source_posting_id = restart(schema, "trans")?;
    Ok(SourceYear { year, accounts, vouchers, postings, next_source_voucher_id, next_source_posting_id })
}

/// Read the ledger tables of an opened ODB export, taking the ledger year
/// from the trailing digits of the file stem (`ledger-2024` gives 2024).
/// Use [`read_odb_for_year`] when the caller already has an authoritative
/// year.
pub fn read_odb(members: &OdbMembers, schema: &OdbSchema, stem: &str) -> (r: Result<SourceYear, OdbError>)
    ensures
        match year_of_stem(stem@) {
            None => r == Err::<SourceYear, OdbError>(OdbError::MissingYear),
            Some(year) => match odb_source_year(members.data@, schema@, year) {
                Ok(y) => r matches Ok(x) && source_year_view(x) == y,
                Err(e) => r == Err::<SourceYear, OdbError>(e),
            },
        },
{
    let year = year_from_stem(stem)?;
    read_odb_for_year(members, schema, year)
}

/// What an ODB read failure says, for people.
pub open spec fn odb_error_text(e: OdbError) -> Seq<char> {
    match e {
        OdbError::Io { message } => "ODB IO failure: "@ + message@,
        OdbError::Utf8 { member } => "ODB member "@ + member@ + " is not UTF-8"@,
        OdbError::Hsql { table, source } => "failed to decode HSQLDB table "@ + table@ + ": "@ + hsql_message(source.kind),
        OdbError::UnsupportedCacheScale => "ODB uses an unsupported hsqldb.cache_file_scale"@,
        OdbError::MissingTable { table } => "missing HSQLDB table "@ + table@,
        OdbError::MissingIndex { table } => "missing HSQLDB index root for table "@ + table@,
        OdbError::MissingRestart { table } => "missing HSQLDB restart marker for table "@ + table@,
        OdbError::MissingColumn { table, column } => "missing column "@ + column@ + " in table "@ + table@,
        OdbError::WrongCellType { table, column } => "wrong cell type for "@ + table@ + "."@ + column@,
        OdbError::RequiredNull { table, column, source_id } => "required ODB field "@ + table@ + "."@ + column@ + " is null"@
            + match source_id {
            Some(id) => " at source row "@ + signed_decimal(id as int),
            None => Seq::empty(),
        },
        OdbError::IntegerOutOfRange { table, column, value } => "integer "@ + signed_decimal(value as int) + " in "@ + table@
            + "."@ + column@ + " is out of range"@,
        OdbError::MissingYear => "ODB path does not include a ledger year"@,
    }
}

impl OdbError {
    /// What went wrong, for people.
    pub fn message(&self) -> (r: String)
        ensures
            r@ == odb_error_text(*self),
    {
        let mut out: Vec<char> = Vec::new();
        match self {
            OdbError::Io { message } => {
                push_str(&mut out, "ODB IO failure: ");
                push_str(&mut out, message.as_str());
            },
            OdbError::Utf8 { member } => {
                push_str(&mut out, "ODB member ");
                push_str(&mut out, member);
                push_str(&mut out, " is not UTF-8");
            },
            OdbError::Hsql { table, source } => {
                push_str(&mut out, "failed to decode HSQLDB table ");
                push_str(&mut out, table);
                push_str(&mut out, ": ");
                let m = source.message();
                push_str(&mut out, m.as_str());
            },
            OdbError::UnsupportedCacheScale => {
                push_str(&mut out, "ODB uses an unsupported hsqldb.cache_file_scale");
            },
            OdbError::MissingTable { table } => {
                push_str(&mut out, "missing HSQLDB table ");
                push_str(&mut out, table);
            },
            OdbError::MissingIndex { table } => {
                push_str(&mut out, "missing HSQLDB index root for table ");
                push_str(&mut out, table);
            },
            OdbError::MissingRestart { table } => {
                push_str(&mut out, "missing HSQLDB restart marker for table ");
                push_str(&mut out, table);
            },
            OdbError::MissingColumn { table, column } => {
                push_str(&mut out, "missing column ");
                push_str(&mut out, column);
                push_str(&mut out, " in table ");
                push_str(&mut out, table);
            },
            OdbError::WrongCellType { table, column } => {
                push_str(&mut out, "wrong cell type for ");
                push_str(&mut out, table);
                push_str(&mut out, ".");
                push_str(&mut out, column);
            },
            OdbError::RequiredNull { table, column, source_id } => {
                push_str(&mut out, "required ODB field ");
                push_str(&mut out, table);
                push_str(&mut out, ".");
                push_str(&mut out, column);
                push_str(&mut out, " is null");
                match source_id {
                    Some(id) => {
                        push_str(&mut out, " at source row ");
                        push_int(&mut out, *id as i128);
                    },
                    None => {},
                }
            },
            OdbError::IntegerOutOfRange { table, column, value } => {
                push_str(&mut out, "integer ");
                push_int(&mut out, *value as i128);
                push_str(&mut out, " in ");
                push_str(&mut out, table);
                push_str(&mut out, ".");
                push_str(&mut out, column);
                push_str(&mut out, " is out of range");
            },
            OdbError::MissingYear => {
                push_str(&mut out, "ODB path does not include a ledger year");
            },
        }
        string_from_chars(out.as_slice())
    }
}

} // verus!
