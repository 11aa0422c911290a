//! Table layouts and id high-water marks of an HSQLDB `database/script`,
//! admitted against the ledger importer's closed domain catalog.
use vstd::prelude::*;

use crate::text::{chars_eq, chars_of, str_is};

verus! {

broadcast use vstd::string::group_string_axioms;

/// HSQLDB column domains admitted by the ledger importer.
#[derive(Clone, Copy, Debug, PartialEq, Eq, Structural)]
pub enum ColType {
    /// Integer column.
    Integer,
    /// Text column.
    Varchar,
    /// Date column.
    Date,
    /// Fixed-decimal numeric column.
    Numeric,
}

// ---------------------------------------------------------------------------
// Association lists keyed by name

/// The map an association list stands for: a later entry for a name shadows
/// an earlier one.
pub open spec fn entries_map<T>(s: Seq<(String, T)>) -> Map<Seq<char>, T>
    decreases s.len(),
{
    if s.len() == 0 {
        Map::empty()
    } else {
        entries_map(s.drop_last()).insert(s.last().0@, s.last().1)
    }
}

/// Whether `i` is the last entry of `s` named `key`.
pub open spec fn is_last_entry<T>(s: Seq<(String, T)>, key: Seq<char>, i: int) -> bool {
    &&& 0 <= i < s.len()
    &&& s[i].0@ == key
    &&& forall|j: int| i < j < s.len() ==> (#[trigger] s[j]).0@ != key
}

/// What the map holds under `key`: the value of the last entry named `key`.
pub proof fn lemma_entries_map_lookup<T>(s: Seq<(String, T)>, key: Seq<char>)
    ensures
        entries_map(s).dom().contains(key) <==> exists|i: int| 0 <= i < s.len() && (#[trigger] s[i]).0@ == key,
        forall|i: int| #[trigger] is_last_entry(s, key, i) ==> entries_map(s)[key] == s[i].1,
    decreases s.len(),
{
    if s.len() > 0 {
        let t = s.drop_last();
        lemma_entries_map_lookup(t, key);
        if s.last().0@ != key {
            assert forall|i: int| #[trigger] is_last_entry(s, key, i) implies is_last_entry(t, key, i) by {
                assert(i != s.len() - 1);
                assert forall|j: int| i < j < t.len() implies (#[trigger] t[j]).0@ != key by {
                    assert(t[j] == s[j]);
                }
            }
            if exists|i: int| 0 <= i < s.len() && (#[trigger] s[i]).0@ == key {
                let i = choose|i: int| 0 <= i < s.len() && (#[trigger] s[i]).0@ == key;
                assert(t[i] == s[i]);
            }
            if exists|i: int| 0 <= i < t.len() && (#[trigger] t[i]).0@ == key {
                let i = choose|i: int| 0 <= i < t.len() && (#[trigger] t[i]).0@ == key;
                assert(s[i] == t[i]);
            }
        } else {
            assert forall|i: int| #[trigger] is_last_entry(s, key, i) implies i == s.len() - 1 by {
                if i < s.len() - 1 {
                    assert(s[s.len() - 1].0@ == key);
                }
            }
            assert(s[s.len() - 1].0@ == key);
        }
    }
}

/// Replacing the value of the last entry named `key` updates the map there.
pub proof fn lemma_entries_map_update<T>(s: Seq<(String, T)>, key: Seq<char>, i: int, v: T)
    requires
        is_last_entry(s, key, i),
    ensures
        entries_map(s.update(i, (s[i].0, v))) == entries_map(s).insert(key, v),
    decreases s.len(),
{
    let u = s.update(i, (s[i].0, v));
    if i == s.len() - 1 {
        assert(u.drop_last() =~= s.drop_last());
    } else {
        let t = s.drop_last();
        assert forall|j: int| i < j < t.len() implies (#[trigger] t[j]).0@ != key by {
            assert(t[j] == s[j]);
        }
        lemma_entries_map_update(t, key, i, v);
        assert(u.drop_last() =~= t.update(i, (t[i].0, v)));
        assert(s.last().0@ != key);
        assert(entries_map(u) =~= entries_map(s).insert(key, v));
    }
}

/// The position of the last entry named `key`.
pub fn find_entry<T>(m: &[(String, T)], key: &str) -> (r: Option<usize>)
    ensures
        match r {
            Some(i) => is_last_entry(m@, key@, i as int),
            None => forall|j: int| 0 <= j < m@.len() ==> (#[trigger] m@[j]).0@ != key@,
        },
{
    let mut i: usize = m.len();
    while i > 0
        invariant
            i <= m.len(),
            forall|j: int| i <= j < m@.len() ==> (#[trigger] m@[j]).0@ != key@,
        decreases i,
    {
        i -= 1;
        if str_is(m[i].0.as_str(), key) {
            return Some(i);
        }
    }
    None
}

/// The value the association list holds under `key`.
pub fn entry<'a, T>(m: &'a [(String, T)], key: &str) -> (r: Option<&'a T>)
    ensures
        match r {
            Some(v) => entries_map(m@).dom().contains(key@) && entries_map(m@)[key@] == *v,
            None => !entries_map(m@).dom().contains(key@),
        },
{
    proof {
        lemma_entries_map_lookup(m@, key@);
    }
    match find_entry(m, key) {
        Some(i) => {
            assert(is_last_entry(m@, key@, i as int));
            Some(&m[i].1)
        },
        None => None,
    }
}

/// Store `value` under `key`, replacing what the list held there.
pub fn set_entry<T>(m: &mut Vec<(String, T)>, key: String, value: T)
    ensures
        entries_map(final(m)@) == entries_map(old(m)@).insert(key@, value),
{
    match find_entry(m.as_slice(), key.as_str()) {
        Some(i) => {
            proof {
                lemma_entries_map_update(m@, key@, i as int, value);
            }
            let name = m[i].0.clone();
            m.set(i, (name, value));
            assert(m@ =~= old(m)@.update(i as int, (old(m)@[i as int].0, value)));
        },
        None => {
            m.push((key, value));
            assert(m@.drop_last() =~= old(m)@);
        },
    }
}

// ---------------------------------------------------------------------------
// The schema

/// Parsed table layout and id high-water marks from `database/script`,
/// each keyed by table name.
#[derive(Clone, Debug, Default, PartialEq, Eq)]
pub struct OdbSchema {
    /// Column layout by table name.
    pub columns: Vec<(String, Vec<(String, ColType)>)>,
    /// Primary-key columns by table name.
    pub primary_keys: Vec<(String, Vec<String>)>,
    /// Next id by table name.
    pub restart: Vec<(String, i64)>,
    /// Real index root offsets by table name.
    pub index_roots: Vec<(String, Vec<i64>)>,
}

/// A column layout as names and domains.
pub open spec fn layout_view(cols: Seq<(String, ColType)>) -> Seq<(Seq<char>, ColType)> {
    cols.map_values(|c: (String, ColType)| (c.0@, c.1))
}

/// The names of a list of strings.
pub open spec fn names_view(names: Seq<String>) -> Seq<Seq<char>> {
    names.map_values(|n: String| n@)
}

/// What a schema states, table by table.
pub struct OdbSchemaView {
    /// Column layout by table name.
    pub columns: Map<Seq<char>, Seq<(Seq<char>, ColType)>>,
    /// Primary-key columns by table name.
    pub primary_keys: Map<Seq<char>, Seq<Seq<char>>>,
    /// Next id by table name.
    pub restart: Map<Seq<char>, i64>,
    /// Index root offsets by table name.
    pub index_roots: Map<Seq<char>, Seq<i64>>,
}

impl View for OdbSchema {
    type V = OdbSchemaView;

    open spec fn view(&self) -> OdbSchemaView {
        OdbSchemaView {
            columns: entries_map(self.columns@).map_values(|v: Vec<(String, ColType)>| layout_view(v@)),
            primary_keys: entries_map(self.primary_keys@).map_values(|v: Vec<String>| names_view(v@)),
            restart: entries_map(self.restart@),
            index_roots: entries_map(self.index_roots@).map_values(|v: Vec<i64>| v@),
        }
    }
}

impl OdbSchema {
    /// The column layout of `table`.
    pub fn columns_of(&self, table: &str) -> (r: Option<&Vec<(String, ColType)>>)
        ensures
            match r {
                Some(v) => self@.columns.dom().contains(table@) && self@.columns[table@] == layout_view(v@),
                None => !self@.columns.dom().contains(table@),
            },
    {
        entry(self.columns.as_slice(), table)
    }

    /// The primary-key columns of `table`.
    pub fn primary_keys_of(&self, table: &str) -> (r: Option<&Vec<String>>)
        ensures
            match r {
                Some(v) => self@.primary_keys.dom().contains(table@) && self@.primary_keys[table@] == names_view(v@),
                None => !self@.primary_keys.dom().contains(table@),
            },
    {
        entry(self.primary_keys.as_slice(), table)
    }

    /// The next source id of `table`.
    pub fn restart_of(&self, table: &str) -> (r: Option<i64>)
        ensures
            match r {
                Some(v) => self@.restart.dom().contains(table@) && self@.restart[table@] == v,
                None => !self@.restart.dom().contains(table@),
            },
    {
        match entry(self.restart.as_slice(), table) {
            Some(v) => Some(*v),
            None => None,
        }
    }

    /// The index root offsets of `table`.
    pub fn index_roots_of(&self, table: &str) -> (r: Option<&Vec<i64>>)
        ensures
            match r {
                Some(v) => self@.index_roots.dom().contains(table@) && self@.index_roots[table@] == v@,
                None => !self@.index_roots.dom().contains(table@),
            },
    {
        entry(self.index_roots.as_slice(), table)
    }
}

// ---------------------------------------------------------------------------
// Admission of decoded schema drafts

/// A column of a decoded table definition.
#[derive(Clone, Debug, PartialEq, Eq)]
pub struct ColumnDraft {
    /// Column name.
    pub name: String,
    /// Normalized SQL storage spelling, such as `VARCHAR(50)`.
    pub storage_type: String,
}

/// A decoded table definition with its HSQLDB metadata.
#[derive(Clone, Debug, PartialEq, Eq)]
pub struct TableDraft {
    /// Table name.
    pub name: String,
    /// Columns in declaration order.
    pub columns: Vec<ColumnDraft>,
    /// Primary-key column names.
    pub primary_key: Vec<String>,
    /// Next identity value, from `ALTER COLUMN .. RESTART WITH`.
    pub restart_with: Option<i64>,
    /// Index root offsets, from `SET TABLE .. INDEX`.
    pub index_roots: Vec<i64>,
}

/// The tables of a decoded `database/script`.
#[derive(Clone, Debug, PartialEq, Eq)]
pub struct SchemaDraft {
    /// Tables in script order.
    pub tables: Vec<TableDraft>,
}

/// What a decoded column states: its name and storage spelling.
pub open spec fn column_draft_view(c: ColumnDraft) -> (Seq<char>, Seq<char>) {
    (c.name@, c.storage_type@)
}

/// What a decoded table states.
pub struct TableDraftView {
    /// Table name.
    pub name: Seq<char>,
    /// Columns: names and storage spellings.
    pub columns: Seq<(Seq<char>, Seq<char>)>,
    /// Primary-key column names.
    pub primary_key: Seq<Seq<char>>,
    /// Next identity value.
    pub restart_with: Option<i64>,
    /// Index root offsets.
    pub index_roots: Seq<i64>,
}

impl View for TableDraft {
    type V = TableDraftView;

    open spec fn view(&self) -> TableDraftView {
        TableDraftView {
            name: self.name@,
            columns: self.columns@.map_values(|c: ColumnDraft| column_draft_view(c)),
            primary_key: names_view(self.primary_key@),
            restart_with: self.restart_with,
            index_roots: self.index_roots@,
        }
    }
}

/// What a decoded script states: its tables in order.
pub open spec fn draft_view(d: SchemaDraft) -> Seq<TableDraftView> {
    d.tables@.map_values(|t: TableDraft| t@)
}

/// Failure to decode or admit an HSQLDB schema script.
#[derive(Clone, Debug, PartialEq, Eq)]
pub enum SchemaError {
    /// The SQL codec rejected syntax outside its bounded HSQLDB grammar.
    Ddl(String),
    /// A codec draft used a storage domain the importer does not support.
    UnsupportedDomain {
        /// Table containing the column.
        table: String,
        /// Column with the unsupported domain.
        column: String,
        /// Normalized SQL storage spelling.
        storage_type: String,
    },
}

/// `INTEGER`
pub open spec fn integer_word() -> Seq<char> { seq!['I', 'N', 'T', 'E', 'G', 'E', 'R'] }
/// `VARCHAR`
pub open spec fn varchar_word() -> Seq<char> { seq!['V', 'A', 'R', 'C', 'H', 'A', 'R'] }
/// `CHAR`
pub open spec fn char_word() -> Seq<char> { seq!['C', 'H', 'A', 'R'] }
/// `LONGVARCHAR`
pub open spec fn longvarchar_word() -> Seq<char> { seq!['L', 'O', 'N', 'G', 'V', 'A', 'R', 'C', 'H', 'A', 'R'] }
/// `DATE`
pub open spec fn date_word() -> Seq<char> { seq!['D', 'A', 'T', 'E'] }
/// `NUMERIC`
pub open spec fn numeric_word() -> Seq<char> { seq!['N', 'U', 'M', 'E', 'R', 'I', 'C'] }
/// `DECIMAL`
pub open spec fn decimal_word() -> Seq<char> { seq!['D', 'E', 'C', 'I', 'M', 'A', 'L'] }

/// The importer domain of a storage spelling, if it admits one.
pub open spec fn storage_domain(s: Seq<char>) -> Option<ColType> {
    if s == integer_word() {
        Some(ColType::Integer)
    } else if varchar_word().is_prefix_of(s) || char_word().is_prefix_of(s) || s == longvarchar_word() {
        Some(ColType::Varchar)
    } else if s == date_word() {
        Some(ColType::Date)
    } else if numeric_word().is_prefix_of(s) || decimal_word().is_prefix_of(s) {
        Some(ColType::Numeric)
    } else {
        None
    }
}

/// What admitting a table's columns gives: the layout, or the table, column
/// and storage spelling of the first column outside the catalog.
pub open spec fn admitted_layout(table: Seq<char>, cols: Seq<(Seq<char>, Seq<char>)>) -> Result<Seq<(Seq<char>, ColType)>, (Seq<char>, Seq<char>, Seq<char>)>
    decreases cols.len(),
{
    if cols.len() == 0 {
        Ok(Seq::empty())
    } else {
        match storage_domain(cols[0].1) {
            None => Err((table, cols[0].0, cols[0].1)),
            Some(d) => match admitted_layout(table, cols.skip(1)) {
                Err(e) => Err(e),
                Ok(rest) => Ok(seq![(cols[0].0, d)] + rest),
            },
        }
    }
}

/// The schema that admitting `tables` in order gives:
/// a later table of the same name replaces an earlier one.
pub open spec fn admitted_schema(tables: Seq<TableDraftView>) -> Result<OdbSchemaView, (Seq<char>, Seq<char>, Seq<char>)>
    decreases tables.len(),
{
    if tables.len() == 0 {
        Ok(OdbSchemaView { columns: Map::empty(), primary_keys: Map::empty(), restart: Map::empty(), index_roots: Map::empty() })
    } else {
        let t = tables.last();
        match admitted_schema(tables.drop_last()) {
            Err(e) => Err(e),
            Ok(s) => match admitted_layout(t.name, t.columns) {
                Err(e) => Err(e),
                Ok(layout) => Ok(OdbSchemaView {
                    columns: s.columns.insert(t.name, layout),
                    primary_keys: s.primary_keys.insert(t.name, t.primary_key),
                    restart: match t.restart_with {
                        Some(n) => s.restart.insert(t.name, n),
                        None => s.restart,
                    },
                    index_roots: if t.index_roots.len() == 0 { s.index_roots } else { s.index_roots.insert(t.name, t.index_roots) },
                }),
            },
        }
    }
}

/// Once admitting a prefix of the tables fails, admitting any longer prefix
/// fails the same way.
proof fn lemma_admitted_schema_err(tables: Seq<TableDraftView>, k: int, n: int)
    requires
        0 <= k <= n <= tables.len(),
        admitted_schema(tables.take(k)) is Err,
    ensures
        admitted_schema(tables.take(n)) == admitted_schema(tables.take(k)),
    decreases n - k,
{
    if n > k {
        lemma_admitted_schema_err(tables, k, n - 1);
        assert(tables.take(n).drop_last() =~= tables.take(n - 1));
    }
}

/// Whether `p` begins `s`.
fn starts_with(s: &[char], p: &[char]) -> (r: bool)
    ensures
        r == p@.is_prefix_of(s@),
{
    if p.len() > s.len() {
        return false;
    }
    let mut i: usize = 0;
    while i < p.len()
        invariant
            i <= p.len() <= s.len(),
            forall|j: int| 0 <= j < i ==> p@[j] == s@[j],
        decreases p.len() - i,
    {
        if p[i] != s[i] {
            return false;
        }
        i += 1;
    }
    assert(p@ =~= s@.take(p.len() as int));
    true
}

/// The importer domain of a storage spelling, if the catalog admits it.
pub fn domain_of_storage(storage: &str) -> (r: Option<ColType>)
    ensures
        r == storage_domain(storage@),
{
    let s = chars_of(storage);
    let integer = vec!['I', 'N', 'T', 'E', 'G', 'E', 'R'];
    let varchar = vec!['V', 'A', 'R', 'C', 'H', 'A', 'R'];
    let chr = vec!['C', 'H', 'A', 'R'];
    let longvarchar = vec!['L', 'O', 'N', 'G', 'V', 'A', 'R', 'C', 'H', 'A', 'R'];
    let date = vec!['D', 'A', 'T', 'E'];
    let numeric = vec!['N', 'U', 'M', 'E', 'R', 'I', 'C'];
    let decimal = vec!['D', 'E', 'C', 'I', 'M', 'A', 'L'];
    assert(integer@ =~= integer_word());
    assert(varchar@ =~= varchar_word());
    assert(chr@ =~= char_word());
    assert(longvarchar@ =~= longvarchar_word());
    assert(date@ =~= date_word());
    assert(numeric@ =~= numeric_word());
    assert(decimal@ =~= decimal_word());
    if chars_eq(s.as_slice(), integer.as_slice()) {
        Some(ColType::Integer)
    } else if starts_with(s.as_slice(), varchar.as_slice()) || starts_with(s.as_slice(), chr.as_slice())
        || chars_eq(s.as_slice(), longvarchar.as_slice()) {
        Some(ColType::Varchar)
    } else if chars_eq(s.as_slice(), date.as_slice()) {
        Some(ColType::Date)
    } else if starts_with(s.as_slice(), numeric.as_slice()) || starts_with(s.as_slice(), decimal.as_slice()) {
        Some(ColType::Numeric)
    } else {
        None
    }
}

/// A deep copy of a list of strings.
fn clone_names(v: &Vec<String>) -> (r: Vec<String>)
    ensures
        names_view(r@) == names_view(v@),
{
    let mut r: Vec<String> = Vec::new();
    let mut i: usize = 0;
    while i < v.len()
        invariant
            i <= v.len(),
            names_view(r@) == names_view(v@.take(i as int)),
        decreases v.len() - i,
    {
        r.push(v[i].clone());
        assert(names_view(v@.take(i + 1)) =~= names_view(v@.take(i as int)).push(v@[i as int]@));
        assert(names_view(r@) =~= names_view(v@.take(i as int)).push(v@[i as int]@));
        i += 1;
    }
    assert(v@.take(v.len() as int) =~= v@);
    r
}

/// The column layout of one table, or the first column outside the catalog.
fn admit_layout(table: &TableDraft) -> (r: Result<Vec<(String, ColType)>, SchemaError>)
    ensures
        match admitted_layout(table.name@, table@.columns) {
            Ok(layout) => r matches Ok(v) && layout_view(v@) == layout,
            Err((t, c, s)) => r matches Err(SchemaError::UnsupportedDomain { table, column, storage_type })
                && table@ == t && column@ == c && storage_type@ == s,
        },
{
    let ghost cols = table@.columns;
    let mut out: Vec<(String, ColType)> = Vec::new();
    let mut i: usize = 0;
    assert(cols.skip(0) =~= cols);
    while i < table.columns.len()
        invariant
            i <= cols.len(),
            cols == table@.columns,
            cols.len() == table.columns@.len(),
            match admitted_layout(table.name@, cols.skip(i as int)) {
                Ok(rest) => admitted_layout(table.name@, cols) == Ok::<Seq<(Seq<char>, ColType)>, (Seq<char>, Seq<char>, Seq<char>)>(layout_view(out@) + rest),
                Err(e) => admitted_layout(table.name@, cols) == Err::<Seq<(Seq<char>, ColType)>, (Seq<char>, Seq<char>, Seq<char>)>(e),
            },
        decreases cols.len() - i,
    {
        let column = &table.columns[i];
        assert(cols[i as int] == column_draft_view(table.columns@[i as int]));
        assert(cols.skip(i as int)[0] == cols[i as int]);
        assert(cols.skip(i as int).skip(1) =~= cols.skip(i + 1));
        match domain_of_storage(column.storage_type.as_str()) {
            None => {
                return Err(SchemaError::UnsupportedDomain {
                    table: table.name.clone(),
                    column: column.name.clone(),
                    storage_type: column.storage_type.clone(),
                });
            },
            Some(d) => {
                let ghost before = layout_view(out@);
                out.push((column.name.clone(), d));
                assert(layout_view(out@) =~= before.push((column.name@, d)));
                proof {
                    match admitted_layout(table.name@, cols.skip(i + 1)) {
                        Ok(rest) => {
                            assert(before + (seq![(column.name@, d)] + rest) =~= before.push((column.name@, d)) + rest);
                        },
                        Err(_) => {},
                    }
                }
            },
        }
        i += 1;
    }
    assert(cols.skip(cols.len() as int) =~= Seq::<(Seq<char>, Seq<char>)>::empty());
    assert(layout_view(out@) + Seq::<(Seq<char>, ColType)>::empty() =~= layout_view(out@));
    Ok(out)
}

/// Admit decoded table definitions against the importer's domain catalog:
/// every column domain must be one the importer reads.
pub fn admit_draft(draft: &SchemaDraft) -> (r: Result<OdbSchema, SchemaError>)
    ensures
        match admitted_schema(draft_view(*draft)) {
            Ok(s) => r matches Ok(schema) && schema@ == s,
            Err((t, c, st)) => r matches Err(SchemaError::UnsupportedDomain { table, column, storage_type })
                && table@ == t && column@ == c && storage_type@ == st,
        },
{
    let mut schema = OdbSchema { columns: Vec::new(), primary_keys: Vec::new(), restart: Vec::new(), index_roots: Vec::new() };
    let ghost tables = draft_view(*draft);
    let mut i: usize = 0;
    assert(tables.take(0) =~= Seq::<TableDraftView>::empty());
    assert(schema@.columns =~= Map::<Seq<char>, Seq<(Seq<char>, ColType)>>::empty());
    assert(schema@.primary_keys =~= Map::<Seq<char>, Seq<Seq<char>>>::empty());
    assert(schema@.index_roots =~= Map::<Seq<char>, Seq<i64>>::empty());
    while i < draft.tables.len()
        invariant
            i <= tables.len(),
            tables == draft_view(*draft),
            tables.len() == draft.tables@.len(),
            admitted_schema(tables.take(i as int)) == Ok::<OdbSchemaView, (Seq<char>, Seq<char>, Seq<char>)>(schema@),
        decreases tables.len() - i,
    {
        let table = &draft.tables[i];
        assert(tables[i as int] == draft.tables@[i as int]@);
        assert(tables.take(i + 1).drop_last() =~= tables.take(i as int));
        assert(tables.take(i + 1).last() == tables[i as int]);
        let layout = match admit_layout(table) {
            Ok(layout) => layout,
            Err(e) => {
                proof {
                    lemma_admitted_schema_err(tables, i + 1, tables.len() as int);
                    assert(tables.take(tables.len() as int) =~= tables);
                }
                return Err(e);
            },
        };
        let ghost before = schema@;
        set_entry(&mut schema.columns, table.name.clone(), layout);
        set_entry(&mut schema.primary_keys, table.name.clone(), clone_names(&table.primary_key));
        match table.restart_with {
            Some(next) => set_entry(&mut schema.restart, table.name.clone(), next),
            None => {},
        }
        if table.index_roots.len() > 0 {
            set_entry(&mut schema.index_roots, table.name.clone(), table.index_roots.clone());
        }
        proof {
            let t = tables[i as int];
            assert(schema@.columns =~= before.columns.insert(t.name, layout_view(layout@)));
            assert(schema@.primary_keys =~= before.primary_keys.insert(t.name, t.primary_key));
            if t.index_roots.len() > 0 {
                assert(schema@.index_roots =~= before.index_roots.insert(t.name, t.index_roots));
            }
        }
        i += 1;
    }
    assert(tables.take(tables.len() as int) =~= tables);
    Ok(schema)
}

// ---------------------------------------------------------------------------
// Decoding the script

/// ASCII upper case of one character; other characters are left alone.
pub open spec fn ascii_upper(c: char) -> char {
    if 'a' <= c && c <= 'z' { ((c as u32) - 32) as char } else { c }
}

/// `PRIMARY KEY`
pub open spec fn primary_key_words() -> Seq<char> {
    seq!['P', 'R', 'I', 'M', 'A', 'R', 'Y', ' ', 'K', 'E', 'Y']
}

/// Whether `PRIMARY KEY` starts at `i`, ASCII case ignored.
pub open spec fn primary_key_at(s: Seq<char>, i: int) -> bool {
    &&& 0 <= i
    &&& i + 11 <= s.len()
    &&& forall|k: int| 0 <= k < 11 ==> #[trigger] ascii_upper(s[i + k]) == primary_key_words()[k]
}

/// Whether, reading the line from `j` on, the first `(` comes after a `)`
/// (`closed` says whether a `)` was already read).
pub open spec fn close_before_open(s: Seq<char>, j: int, closed: bool) -> bool
    decreases s.len() - j,
{
    if j < 0 || j >= s.len() || s[j] == '\n' {
        false
    } else if s[j] == '(' {
        closed
    } else if s[j] == ')' {
        close_before_open(s, j + 1, true)
    } else {
        close_before_open(s, j + 1, closed)
    }
}

/// Whether, after every `PRIMARY KEY` of the script, the rest of its line
/// opens a parenthesis before it closes one (or has no `(` at all). The SQL
/// codec slices a primary-key item from its first `(` to its last `)`, so
/// the codec is only handed scripts of this shape.
pub open spec fn primary_keys_well_ordered(s: Seq<char>) -> bool {
    forall|i: int| #[trigger] primary_key_at(s, i) ==> !close_before_open(s, i + 11, false)
}

/// What a script with a `PRIMARY KEY` whose parentheses come in the wrong
/// order is answered.
pub open spec fn primary_key_order_message() -> Seq<char> {
    "primary key columns must be enclosed in parentheses"@
}

fn primary_key_at_exec(s: &[char], i: usize) -> (r: bool)
    ensures
        r == primary_key_at(s@, i as int),
{
    if i > s.len() || s.len() - i < 11 {
        return false;
    }
    let words: [char; 11] = ['P', 'R', 'I', 'M', 'A', 'R', 'Y', ' ', 'K', 'E', 'Y'];
    let mut k: usize = 0;
    while k < 11
        invariant
            i + 11 <= s.len(),
            words@ == primary_key_words(),
            forall|m: int| 0 <= m < k ==> #[trigger] ascii_upper(s@[i + m]) == primary_key_words()[m],
        decreases 11 - k,
    {
        let c = s[i + k];
        let u = if 'a' <= c && c <= 'z' { (((c as u32) - 32) as u8) as char } else { c };
        assert(u == ascii_upper(s@[i + k]));
        if u != words[k] {
            return false;
        }
        k += 1;
    }
    true
}

fn close_before_open_exec(s: &[char], from: usize) -> (r: bool)
    requires
        from <= s.len(),
    ensures
        r == close_before_open(s@, from as int, false),
{
    let mut j: usize = from;
    let mut closed = false;
    while j < s.len()
        invariant
            from <= j <= s.len(),
            close_before_open(s@, from as int, false) == close_before_open(s@, j as int, closed),
        decreases s.len() - j,
    {
        let c = s[j];
        if c == '\n' {
            return false;
        } else if c == '(' {
            return closed;
        } else if c == ')' {
            closed = true;
        }
        j += 1;
    }
    false
}

/// Whether every `PRIMARY KEY` of the script is followed on its line by `(`
/// before any `)`.
fn primary_keys_well_ordered_exec(script: &str) -> (r: bool)
    ensures
        r == primary_keys_well_ordered(script@),
{
    let s = chars_of(script);
    let mut i: usize = 0;
    while i < s.len()
        invariant
            s@ == script@,
            i <= s.len(),
            forall|k: int| 0 <= k < i && #[trigger] primary_key_at(s@, k) ==> !close_before_open(s@, k + 11, false),
        decreases s.len() - i,
    {
        if primary_key_at_exec(s.as_slice(), i) {
            if close_before_open_exec(s.as_slice(), i + 11) {
                return false;
            }
        }
        i += 1;
    }
    proof {
        assert forall|k: int| #[trigger] primary_key_at(s@, k) implies !close_before_open(s@, k + 11, false) by {
            assert(k < s@.len());
        }
    }
    true
}

/// The tables that the SQL codec decodes from an HSQLDB `database/script`, in
/// script order, or the text of the codec's error.
pub uninterp spec fn hsqldb_ddl(script: Seq<char>) -> Result<Seq<TableDraftView>, Seq<char>>;

/// `sim_codec_sql::DdlCodec::decode` with the `LegacyDdl::Hsqldb` grammar.
/// Claims that the decoded tables (names, columns with their storage
/// spellings, primary keys, restart marks and index roots) or the error's
/// text are a function of the script alone; what the grammar admits is not
/// stated. The codec panics on a primary-key item whose last `)` comes
/// before its first `(`; `requires` admits only scripts where that cannot
/// happen.
#[verifier::external_body]
fn decode_hsqldb_ddl(script: &str) -> (r: Result<SchemaDraft, String>)
    requires
        primary_keys_well_ordered(script@),
    ensures
        match r {
            Ok(d) => hsqldb_ddl(script@) == Ok::<Seq<TableDraftView>, Seq<char>>(draft_view(d)),
            Err(m) => hsqldb_ddl(script@) == Err::<Seq<TableDraftView>, Seq<char>>(m@),
        },
{
    let draft = sim_codec_sql::DdlCodec.decode(script, sim_codec_sql::LegacyDdl::Hsqldb).map_err(|e| e.to_string())?;
    let column = |c: sim_codec_sql::DraftColumn| ColumnDraft { name: c.name, storage_type: c.storage_type };
    let tables = draft.tables.into_iter().map(|t| TableDraft {
        name: t.name,
        columns: t.columns.into_iter().map(column).collect(),
        primary_key: t.primary_key,
        restart_with: t.restart_with,
        index_roots: t.index_roots,
    });
    Ok(SchemaDraft { tables: tables.collect() })
}

/// Decode `database/script` with the SQL codec, then admit its tables against
/// the importer's domain catalog.
pub fn parse_script(script: &str) -> (r: Result<OdbSchema, SchemaError>)
    ensures
        !primary_keys_well_ordered(script@) ==> (r matches Err(SchemaError::Ddl(x)) && x@
            == primary_key_order_message()),
        primary_keys_well_ordered(script@) ==> match hsqldb_ddl(script@) {
            Err(m) => r matches Err(SchemaError::Ddl(x)) && x@ == m,
            Ok(tables) => match admitted_schema(tables) {
                Ok(s) => r matches Ok(schema) && schema@ == s,
                Err((t, c, st)) => r matches Err(SchemaError::UnsupportedDomain { table, column, storage_type })
                    && table@ == t && column@ == c && storage_type@ == st,
            },
        },
{
    if !primary_keys_well_ordered_exec(script) {
        proof {
            reveal_strlit("primary key columns must be enclosed in parentheses");
        }
        return Err(SchemaError::Ddl("primary key columns must be enclosed in parentheses".to_owned()));
    }
    let draft = match decode_hsqldb_ddl(script) {
        Ok(draft) => draft,
        Err(message) => {
            return Err(SchemaError::Ddl(message));
        },
    };
    admit_draft(&draft)
}

/// What a schema failure says, for people.
pub open spec fn schema_error_text(e: SchemaError) -> Seq<char> {
    match e {
        SchemaError::Ddl(m) => "HSQLDB DDL is outside the bounded SQL codec grammar: "@ + m@,
        SchemaError::UnsupportedDomain { table, column, storage_type } => "unsupported HSQLDB domain "@ + storage_type@
            + " for "@ + table@ + "."@ + column@,
    }
}

impl SchemaError {
    /// What went wrong, for people.
    pub fn message(&self) -> (r: String)
        ensures
            r@ == schema_error_text(*self),
    {
        let mut out: Vec<char> = Vec::new();
        match self {
            SchemaError::Ddl(m) => {
                crate::text::push_str(&mut out, "HSQLDB DDL is outside the bounded SQL codec grammar: ");
                crate::text::push_str(&mut out, m.as_str());
            },
            SchemaError::UnsupportedDomain { table, column, storage_type } => {
                crate::text::push_str(&mut out, "unsupported HSQLDB domain ");
                crate::text::push_str(&mut out, storage_type.as_str());
                crate::text::push_str(&mut out, " for ");
                crate::text::push_str(&mut out, table.as_str());
                crate::text::push_str(&mut out, ".");
                crate::text::push_str(&mut out, column.as_str());
            },
        }
        crate::text::string_from_chars(out.as_slice())
    }
}

} // verus!
