//! The relational layout of a ledger year file: its logical tables, and the
//! physical columns of the legacy SQLite files that adopt it.
use vstd::prelude::*;

verus! {

broadcast use vstd::string::group_string_axioms;

/// The value domain of a column.
#[derive(Clone, Copy, Debug, PartialEq, Eq, Structural)]
pub enum Domain {
    /// Signed 64-bit integers.
    I64,
    /// Text.
    Text,
}

/// One logical column.
#[derive(Clone, Debug, PartialEq, Eq)]
pub struct ColumnLayout {
    /// Column name.
    pub name: String,
    /// Value domain.
    pub domain: Domain,
    /// Whether the column admits null.
    pub nullable: bool,
}

/// A foreign key: columns of one table naming the key of another.
#[derive(Clone, Debug, PartialEq, Eq)]
pub struct ForeignKeyLayout {
    /// Constraint name.
    pub name: String,
    /// Referencing columns.
    pub columns: Vec<String>,
    /// Referenced table.
    pub target_table: String,
    /// Referenced columns.
    pub target_columns: Vec<String>,
}

/// One logical table.
#[derive(Clone, Debug, PartialEq, Eq)]
pub struct TableLayout {
    /// Table name.
    pub name: String,
    /// Columns in declaration order.
    pub columns: Vec<ColumnLayout>,
    /// Primary-key columns.
    pub primary_key: Vec<String>,
    /// Name of the primary-key constraint: the table name and `_pk`.
    pub key_name: String,
    /// Foreign keys.
    pub foreign_keys: Vec<ForeignKeyLayout>,
}

/// One column of a physical table.
#[derive(Clone, Debug, PartialEq, Eq)]
pub struct PhysicalColumnLayout {
    /// Column name.
    pub name: String,
    /// Storage representation.
    pub storage: Domain,
    /// Whether the stored column admits null.
    pub nullable: bool,
    /// Position of the column in its table.
    pub ordinal: u32,
}

/// One physical table.
#[derive(Clone, Debug, PartialEq, Eq)]
pub struct PhysicalTableLayout {
    /// Table name.
    pub name: String,
    /// Columns in storage order.
    pub columns: Vec<PhysicalColumnLayout>,
}

/// What a logical column states: name, domain, nullability.
pub open spec fn column_view(c: ColumnLayout) -> (Seq<char>, Domain, bool) {
    (c.name@, c.domain, c.nullable)
}

/// What a physical column states: name, storage, nullability, ordinal.
pub open spec fn physical_column_view(c: PhysicalColumnLayout) -> (Seq<char>, Domain, bool, int) {
    (c.name@, c.storage, c.nullable, c.ordinal as int)
}

/// The names of a list of strings.
pub open spec fn strings_view(v: Seq<String>) -> Seq<Seq<char>> {
    v.map_values(|s: String| s@)
}

/// What a foreign key states.
pub open spec fn foreign_key_view(k: ForeignKeyLayout) -> (Seq<char>, Seq<Seq<char>>, Seq<char>, Seq<Seq<char>>) {
    (k.name@, strings_view(k.columns@), k.target_table@, strings_view(k.target_columns@))
}

/// What a logical table states.
pub open spec fn table_view(t: TableLayout) -> (
    Seq<char>,
    Seq<(Seq<char>, Domain, bool)>,
    Seq<Seq<char>>,
    Seq<(Seq<char>, Seq<Seq<char>>, Seq<char>, Seq<Seq<char>>)>,
) {
    (
        t.name@,
        t.columns@.map_values(|c: ColumnLayout| column_view(c)),
        strings_view(t.primary_key@),
        t.foreign_keys@.map_values(|k: ForeignKeyLayout| foreign_key_view(k)),
    )
}

/// What a physical table states.
pub open spec fn physical_table_view(t: PhysicalTableLayout) -> (Seq<char>, Seq<(Seq<char>, Domain, bool, int)>) {
    (t.name@, t.columns@.map_values(|c: PhysicalColumnLayout| physical_column_view(c)))
}

/// The logical tables of a ledger year file.
pub open spec fn ledger_tables() -> Seq<(
    Seq<char>,
    Seq<(Seq<char>, Domain, bool)>,
    Seq<Seq<char>>,
    Seq<(Seq<char>, Seq<Seq<char>>, Seq<char>, Seq<Seq<char>>)>,
)> {
    seq![
        (
            "account"@,
            seq![
                ("number"@, Domain::I64, false),
                ("name"@, Domain::Text, false),
                ("note"@, Domain::Text, true),
                ("sru_plus"@, Domain::I64, true),
                ("sru_minus"@, Domain::I64, true),
            ],
            seq!["number"@],
            seq![],
        ),
        (
            "voucher"@,
            seq![
                ("id"@, Domain::I64, false),
                ("source_id"@, Domain::I64, true),
                ("date"@, Domain::Text, false),
                ("text"@, Domain::Text, true),
            ],
            seq!["id"@],
            seq![],
        ),
        (
            "posting"@,
            seq![
                ("id"@, Domain::I64, false),
                ("source_id"@, Domain::I64, true),
                ("voucher_id"@, Domain::I64, false),
                ("account"@, Domain::I64, false),
                ("minor"@, Domain::I64, false),
                ("text"@, Domain::Text, true),
            ],
            seq!["id"@],
            seq![
                ("posting_voucher_fk"@, seq!["voucher_id"@], "voucher"@, seq!["id"@]),
                ("posting_account_fk"@, seq!["account"@], "account"@, seq!["number"@]),
            ],
        ),
        ("id_state"@, seq![("kind"@, Domain::Text, false), ("next"@, Domain::I64, false)], seq!["kind"@], seq![]),
        ("meta"@, seq![("key"@, Domain::Text, false), ("value"@, Domain::Text, false)], seq!["key"@], seq![]),
    ]
}

/// The physical tables of a legacy ledger year file, in name order.
pub open spec fn legacy_tables() -> Seq<(Seq<char>, Seq<(Seq<char>, Domain, bool, int)>)> {
    seq![
        (
            "account"@,
            seq![
                ("number"@, Domain::I64, true, 0),
                ("name"@, Domain::Text, false, 1),
                ("note"@, Domain::Text, true, 2),
                ("sru_plus"@, Domain::I64, true, 3),
                ("sru_minus"@, Domain::I64, true, 4),
            ],
        ),
        ("id_state"@, seq![("kind"@, Domain::Text, true, 0), ("next"@, Domain::I64, false, 1)]),
        ("meta"@, seq![("key"@, Domain::Text, true, 0), ("value"@, Domain::Text, false, 1)]),
        (
            "posting"@,
            seq![
                ("id"@, Domain::I64, true, 0),
                ("source_id"@, Domain::I64, true, 1),
                ("voucher_id"@, Domain::I64, false, 2),
                ("account"@, Domain::I64, false, 3),
                ("minor"@, Domain::I64, false, 4),
                ("text"@, Domain::Text, true, 5),
            ],
        ),
        (
            "voucher"@,
            seq![
                ("id"@, Domain::I64, true, 0),
                ("source_id"@, Domain::I64, true, 1),
                ("date"@, Domain::Text, false, 2),
                ("text"@, Domain::Text, true, 3),
            ],
        ),
    ]
}

fn column(name: &str, domain: Domain, nullable: bool) -> (c: ColumnLayout)
    ensures
        column_view(c) == (name@, domain, nullable),
{
    ColumnLayout { name: name.to_owned(), domain, nullable }
}

fn physical(name: &str, storage: Domain, nullable: bool, ordinal: u32) -> (c: PhysicalColumnLayout)
    ensures
        physical_column_view(c) == (name@, storage, nullable, ordinal as int),
{
    PhysicalColumnLayout { name: name.to_owned(), storage, nullable, ordinal }
}

fn names(a: &str) -> (r: Vec<String>)
    ensures
        strings_view(r@) == seq![a@],
{
    let r = vec![a.to_owned()];
    assert(strings_view(r@) =~= seq![a@]);
    r
}

fn foreign_key(name: &str, column: &str, target_table: &str, target_column: &str) -> (k: ForeignKeyLayout)
    ensures
        foreign_key_view(k) == (name@, seq![column@], target_table@, seq![target_column@]),
{
    ForeignKeyLayout {
        name: name.to_owned(),
        columns: names(column),
        target_table: target_table.to_owned(),
        target_columns: names(target_column),
    }
}

fn table(name: &str, columns: Vec<ColumnLayout>, key: &str, foreign_keys: Vec<ForeignKeyLayout>) -> (t: TableLayout)
    ensures
        t.key_name@ == name@ + "_pk"@,
        table_view(t) == (
            name@,
            columns@.map_values(|c: ColumnLayout| column_view(c)),
            seq![key@],
            foreign_keys@.map_values(|k: ForeignKeyLayout| foreign_key_view(k)),
        ),
{
    let mut key_name: Vec<char> = crate::text::chars_of(name);
    crate::text::push_str(&mut key_name, "_pk");
    TableLayout {
        name: name.to_owned(),
        columns,
        primary_key: names(key),
        key_name: crate::text::string_from_chars(key_name.as_slice()),
        foreign_keys,
    }
}

/// The logical tables of a ledger year file: accounts, vouchers, postings
/// (with their voucher and account references), id cursors and metadata.
pub fn ledger_schema() -> (r: Vec<TableLayout>)
    ensures
        r@.map_values(|t: TableLayout| table_view(t)) == ledger_tables(),
        forall|i: int| 0 <= i < r@.len() ==> (#[trigger] r@[i]).key_name@ == r@[i].name@ + "_pk"@,
{
    let account_columns = vec![
        column("number", Domain::I64, false),
        column("name", Domain::Text, false),
        column("note", Domain::Text, true),
        column("sru_plus", Domain::I64, true),
        column("sru_minus", Domain::I64, true),
    ];
    let voucher_columns = vec![
        column("id", Domain::I64, false),
        column("source_id", Domain::I64, true),
        column("date", Domain::Text, false),
        column("text", Domain::Text, true),
    ];
    let posting_columns = vec![
        column("id", Domain::I64, false),
        column("source_id", Domain::I64, true),
        column("voucher_id", Domain::I64, false),
        column("account", Domain::I64, false),
        column("minor", Domain::I64, false),
        column("text", Domain::Text, true),
    ];
    let posting_keys = vec![
        foreign_key("posting_voucher_fk", "voucher_id", "voucher", "id"),
        foreign_key("posting_account_fk", "account", "account", "number"),
    ];
    let id_columns = vec![column("kind", Domain::Text, false), column("next", Domain::I64, false)];
    let meta_columns = vec![column("key", Domain::Text, false), column("value", Domain::Text, false)];
    let ghost lt = ledger_tables();
    assert(account_columns@.map_values(|c: ColumnLayout| column_view(c)) =~= lt[0].1);
    assert(voucher_columns@.map_values(|c: ColumnLayout| column_view(c)) =~= lt[1].1);
    assert(posting_columns@.map_values(|c: ColumnLayout| column_view(c)) =~= lt[2].1);
    assert(id_columns@.map_values(|c: ColumnLayout| column_view(c)) =~= lt[3].1);
    assert(meta_columns@.map_values(|c: ColumnLayout| column_view(c)) =~= lt[4].1);
    assert(posting_keys@.map_values(|k: ForeignKeyLayout| foreign_key_view(k)) =~= lt[2].3);
    assert(Seq::<ForeignKeyLayout>::empty().map_values(|k: ForeignKeyLayout| foreign_key_view(k)) =~= lt[0].3);
    let r = vec![
        table("account", account_columns, "number", Vec::new()),
        table("voucher", voucher_columns, "id", Vec::new()),
        table("posting", posting_columns, "id", posting_keys),
        table("id_state", id_columns, "kind", Vec::new()),
        table("meta", meta_columns, "key", Vec::new()),
    ];
    assert(table_view(r@[0]) == lt[0]);
    assert(table_view(r@[1]) == lt[1]);
    assert(table_view(r@[2]) == lt[2]);
    assert(table_view(r@[3]) == lt[3]);
    assert(table_view(r@[4]) == lt[4]);
    assert(r@.map_values(|t: TableLayout| table_view(t)) =~= ledger_tables());
    r
}

/// The physical tables of the legacy SQLite ledger year files, in table name
/// order, each column with its storage, nullability and position.
pub fn legacy_physical_schema() -> (r: Vec<PhysicalTableLayout>)
    ensures
        r@.map_values(|t: PhysicalTableLayout| physical_table_view(t)) == legacy_tables(),
{
    let ghost pt = legacy_tables();
    let account = vec![
        physical("number", Domain::I64, true, 0),
        physical("name", Domain::Text, false, 1),
        physical("note", Domain::Text, true, 2),
        physical("sru_plus", Domain::I64, true, 3),
        physical("sru_minus", Domain::I64, true, 4),
    ];
    let id_state = vec![physical("kind", Domain::Text, true, 0), physical("next", Domain::I64, false, 1)];
    let meta = vec![physical("key", Domain::Text, true, 0), physical("value", Domain::Text, false, 1)];
    let posting = vec![
        physical("id", Domain::I64, true, 0),
        physical("source_id", Domain::I64, true, 1),
        physical("voucher_id", Domain::I64, false, 2),
        physical("account", Domain::I64, false, 3),
        physical("minor", Domain::I64, false, 4),
        physical("text", Domain::Text, true, 5),
    ];
    let voucher = vec![
        physical("id", Domain::I64, true, 0),
        physical("source_id", Domain::I64, true, 1),
        physical("date", Domain::Text, false, 2),
        physical("text", Domain::Text, true, 3),
    ];
    assert(account@.map_values(|c: PhysicalColumnLayout| physical_column_view(c)) =~= pt[0].1);
    assert(id_state@.map_values(|c: PhysicalColumnLayout| physical_column_view(c)) =~= pt[1].1);
    assert(meta@.map_values(|c: PhysicalColumnLayout| physical_column_view(c)) =~= pt[2].1);
    assert(posting@.map_values(|c: PhysicalColumnLayout| physical_column_view(c)) =~= pt[3].1);
    assert(voucher@.map_values(|c: PhysicalColumnLayout| physical_column_view(c)) =~= pt[4].1);
    let r = vec![
        PhysicalTableLayout { name: "account".to_owned(), columns: account },
        PhysicalTableLayout { name: "id_state".to_owned(), columns: id_state },
        PhysicalTableLayout { name: "meta".to_owned(), columns: meta },
        PhysicalTableLayout { name: "posting".to_owned(), columns: posting },
        PhysicalTableLayout { name: "voucher".to_owned(), columns: voucher },
    ];
    assert(physical_table_view(r@[0]) == pt[0]);
    assert(physical_table_view(r@[1]) == pt[1]);
    assert(physical_table_view(r@[2]) == pt[2]);
    assert(physical_table_view(r@[3]) == pt[3]);
    assert(physical_table_view(r@[4]) == pt[4]);
    assert(r@.map_values(|t: PhysicalTableLayout| physical_table_view(t)) =~= legacy_tables());
    r
}

/// Whether stored columns carry the logical columns: the same names in the
/// same order, each at its position, stored in its domain, and nullable when
/// the logical column is or when it is a key column.
pub open spec fn columns_agree(
    logical: Seq<(Seq<char>, Domain, bool)>,
    key: Seq<Seq<char>>,
    stored: Seq<(Seq<char>, Domain, bool, int)>,
) -> bool {
    &&& logical.len() == stored.len()
    &&& forall|j: int| 0 <= j < logical.len() ==> {
        &&& (#[trigger] stored[j]).0 == logical[j].0
        &&& stored[j].1 == logical[j].1
        &&& stored[j].2 == (logical[j].2 || key.contains(logical[j].0))
        &&& stored[j].3 == j
    }
}

/// Whether the physical tables adopt the logical ones: the same tables by
/// name, each storing its logical columns.
pub open spec fn physical_adopts(
    logical: Seq<(Seq<char>, Seq<(Seq<char>, Domain, bool)>, Seq<Seq<char>>, Seq<(Seq<char>, Seq<Seq<char>>, Seq<char>, Seq<Seq<char>>)>)>,
    stored: Seq<(Seq<char>, Seq<(Seq<char>, Domain, bool, int)>)>,
) -> bool {
    &&& logical.len() == stored.len()
    &&& forall|i: int| 0 <= i < logical.len() ==> exists|k: int|
        0 <= k < stored.len() && (#[trigger] stored[k]).0 == (#[trigger] logical[i]).0 && columns_agree(
            logical[i].1,
            logical[i].2,
            stored[k].1,
        )
    &&& forall|k: int| 0 <= k < stored.len() ==> exists|i: int|
        0 <= i < logical.len() && (#[trigger] logical[i]).0 == (#[trigger] stored[k]).0
}

proof fn lemma_single_key(k: Seq<char>, x: Seq<char>)
    ensures
        seq![k].contains(x) <==> x == k,
{
    if x == k {
        assert(seq![k][0] == x);
    }
}

proof fn lemma_table_agrees(
    logical: Seq<(Seq<char>, Domain, bool)>,
    key: Seq<char>,
    stored: Seq<(Seq<char>, Domain, bool, int)>,
)
    requires
        logical.len() == stored.len(),
        forall|j: int| 0 <= j < logical.len() ==> {
            &&& (#[trigger] stored[j]).0 == logical[j].0
            &&& stored[j].1 == logical[j].1
            &&& stored[j].2 == (logical[j].2 || logical[j].0 == key)
            &&& stored[j].3 == j
        },
    ensures
        columns_agree(logical, seq![key], stored),
{
    assert forall|j: int| 0 <= j < logical.len() implies stored[j].2 == (logical[j].2 || seq![key].contains(logical[j].0)) by {
        lemma_single_key(key, logical[j].0);
    }
}

/// The `account` table is stored with its logical columns.
proof fn lemma_account_stored()
    ensures
        columns_agree(ledger_tables()[0].1, ledger_tables()[0].2, legacy_tables()[0].1),
{
    let l = ledger_tables();
    let p = legacy_tables();
    reveal_strlit("number");
    reveal_strlit("name");
    reveal_strlit("note");
    reveal_strlit("sru_plus");
    reveal_strlit("sru_minus");
    assert forall|j: int| 0 <= j < l[0].1.len() implies {
        &&& (#[trigger] p[0].1[j]).0 == l[0].1[j].0
        &&& p[0].1[j].1 == l[0].1[j].1
        &&& p[0].1[j].2 == (l[0].1[j].2 || l[0].1[j].0 == "number"@)
        &&& p[0].1[j].3 == j
    } by {
        assert(j == 0 || j == 1 || j == 2 || j == 3 || j == 4);
        assert("number"@[1] == 'u');
        assert("name"@[1] == 'a' && "note"@[1] == 'o');
        assert("sru_plus"@[0] == 's' && "sru_minus"@[0] == 's' && "number"@[0] == 'n');
    }
    lemma_table_agrees(l[0].1, "number"@, p[0].1);
}

/// The `voucher` table is stored with its logical columns.
proof fn lemma_voucher_stored()
    ensures
        columns_agree(ledger_tables()[1].1, ledger_tables()[1].2, legacy_tables()[4].1),
{
    let l = ledger_tables();
    let p = legacy_tables();
    reveal_strlit("id");
    reveal_strlit("source_id");
    reveal_strlit("date");
    reveal_strlit("text");
    assert forall|j: int| 0 <= j < l[1].1.len() implies {
        &&& (#[trigger] p[4].1[j]).0 == l[1].1[j].0
        &&& p[4].1[j].1 == l[1].1[j].1
        &&& p[4].1[j].2 == (l[1].1[j].2 || l[1].1[j].0 == "id"@)
        &&& p[4].1[j].3 == j
    } by {
        assert(j == 0 || j == 1 || j == 2 || j == 3);
    }
    lemma_table_agrees(l[1].1, "id"@, p[4].1);
}

/// The `posting` table is stored with its logical columns.
proof fn lemma_posting_stored()
    ensures
        columns_agree(ledger_tables()[2].1, ledger_tables()[2].2, legacy_tables()[3].1),
{
    let l = ledger_tables();
    let p = legacy_tables();
    reveal_strlit("id");
    reveal_strlit("source_id");
    reveal_strlit("voucher_id");
    reveal_strlit("account");
    reveal_strlit("minor");
    reveal_strlit("text");
    assert forall|j: int| 0 <= j < l[2].1.len() implies {
        &&& (#[trigger] p[3].1[j]).0 == l[2].1[j].0
        &&& p[3].1[j].1 == l[2].1[j].1
        &&& p[3].1[j].2 == (l[2].1[j].2 || l[2].1[j].0 == "id"@)
        &&& p[3].1[j].3 == j
    } by {
        assert(j == 0 || j == 1 || j == 2 || j == 3 || j == 4 || j == 5);
    }
    lemma_table_agrees(l[2].1, "id"@, p[3].1);
}

/// The `id_state` table is stored with its logical columns.
proof fn lemma_id_state_stored()
    ensures
        columns_agree(ledger_tables()[3].1, ledger_tables()[3].2, legacy_tables()[1].1),
{
    let l = ledger_tables();
    let p = legacy_tables();
    reveal_strlit("kind");
    reveal_strlit("next");
    assert forall|j: int| 0 <= j < l[3].1.len() implies {
        &&& (#[trigger] p[1].1[j]).0 == l[3].1[j].0
        &&& p[1].1[j].1 == l[3].1[j].1
        &&& p[1].1[j].2 == (l[3].1[j].2 || l[3].1[j].0 == "kind"@)
        &&& p[1].1[j].3 == j
    } by {
        assert(j == 0 || j == 1);
        assert("next"@[0] == 'n' && "kind"@[0] == 'k');
    }
    lemma_table_agrees(l[3].1, "kind"@, p[1].1);
}

/// The `meta` table is stored with its logical columns.
proof fn lemma_meta_stored()
    ensures
        columns_agree(ledger_tables()[4].1, ledger_tables()[4].2, legacy_tables()[2].1),
{
    let l = ledger_tables();
    let p = legacy_tables();
    reveal_strlit("key");
    reveal_strlit("value");
    assert forall|j: int| 0 <= j < l[4].1.len() implies {
        &&& (#[trigger] p[2].1[j]).0 == l[4].1[j].0
        &&& p[2].1[j].1 == l[4].1[j].1
        &&& p[2].1[j].2 == (l[4].1[j].2 || l[4].1[j].0 == "key"@)
        &&& p[2].1[j].3 == j
    } by {
        assert(j == 0 || j == 1);
    }
    lemma_table_agrees(l[4].1, "key"@, p[2].1);
}

/// The legacy SQLite year files hold exactly the ledger's logical tables:
/// every table and column is there under its name, in its domain and
/// position, so a legacy file can be read as a ledger year.
#[verifier::spinoff_prover]
#[verifier::rlimit(40)]
pub proof fn lemma_legacy_files_adopt_the_ledger_schema()
    ensures
        physical_adopts(ledger_tables(), legacy_tables()),
{
    let l = ledger_tables();
    let p = legacy_tables();
    assert forall|i: int| 0 <= i < l.len() implies exists|k: int|
        0 <= k < p.len() && (#[trigger] p[k]).0 == (#[trigger] l[i]).0 && columns_agree(l[i].1, l[i].2, p[k].1) by {
        if i == 0 {
            lemma_account_stored();
            assert(p[0].0 == l[0].0);
        } else if i == 1 {
            lemma_voucher_stored();
            assert(p[4].0 == l[1].0);
        } else if i == 2 {
            lemma_posting_stored();
            assert(p[3].0 == l[2].0);
        } else if i == 3 {
            lemma_id_state_stored();
            assert(p[1].0 == l[3].0);
        } else {
            lemma_meta_stored();
            assert(p[2].0 == l[4].0);
        }
    }
    assert forall|k: int| 0 <= k < p.len() implies exists|i: int| 0 <= i < l.len() && (#[trigger] l[i]).0 == (#[trigger] p[k]).0 by {
        if k == 0 {
            assert(l[0].0 == p[0].0);
        } else if k == 1 {
            assert(l[3].0 == p[1].0);
        } else if k == 2 {
            assert(l[4].0 == p[2].0);
        } else if k == 3 {
            assert(l[2].0 == p[3].0);
        } else {
            assert(l[1].0 == p[4].0);
        }
    }
}

} // verus!
