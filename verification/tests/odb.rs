use std::io::{Cursor, Write};

use sim_ledger::hsqldb::row::{try_write_cell, Cell};
use sim_ledger::import::{SourcePosting, SourceVoucher};
use sim_ledger::model::{Account, Amount};
use sim_ledger::odb::{ensure_cache_scale_one, open_odb, open_zip_member, read_odb, read_odb_for_year, year_from_stem, OdbError};
use sim_ledger::script::{admit_draft, parse_script, ColType, ColumnDraft, OdbSchema, SchemaDraft, SchemaError, TableDraft};
use zip::write::SimpleFileOptions;
use zip::{CompressionMethod, ZipWriter};

const SCRIPT: &str = "database/script";
const DATA: &str = "database/data";
const PROPERTIES: &str = "database/properties";

#[derive(Clone, Copy)]
struct Roots {
    konto: i32,
    ver: i32,
    trans: i32,
}

fn append_row(data: &mut Vec<u8>, left: i32, right: i32, cells: &[(Cell, ColType)]) -> i32 {
    let offset = i32::try_from(data.len()).unwrap();
    let mut body = Vec::new();
    body.extend_from_slice(&0_i32.to_be_bytes());
    body.extend_from_slice(&left.to_be_bytes());
    body.extend_from_slice(&right.to_be_bytes());
    body.extend_from_slice(&0_i32.to_be_bytes());
    for (cell, ty) in cells {
        try_write_cell(&mut body, cell, *ty).unwrap();
    }
    let row_size = i32::try_from(body.len() + 4).unwrap();
    data.extend_from_slice(&row_size.to_be_bytes());
    data.extend_from_slice(&body);
    offset
}

fn synthetic_data() -> (Vec<u8>, Roots) {
    let mut data = vec![0; 16];
    let account_cash = append_row(
        &mut data,
        0,
        0,
        &[
            (Cell::Int(1910), ColType::Integer),
            (Cell::Str("Cash".to_owned()), ColType::Varchar),
            (Cell::Null, ColType::Varchar),
            (Cell::Int(1000), ColType::Integer),
            (Cell::Null, ColType::Integer),
        ],
    );
    let account_sales = append_row(
        &mut data,
        account_cash,
        0,
        &[
            (Cell::Int(3010), ColType::Integer),
            (Cell::Str("Sales".to_owned()), ColType::Varchar),
            (Cell::Null, ColType::Varchar),
            (Cell::Null, ColType::Integer),
            (Cell::Int(3000), ColType::Integer),
        ],
    );
    let voucher = append_row(
        &mut data,
        0,
        0,
        &[
            (Cell::Int(11_612), ColType::Integer),
            (Cell::Date("2024-01-31".to_owned()), ColType::Date),
            (Cell::Str("Receipt".to_owned()), ColType::Varchar),
        ],
    );
    let posting_debit = append_row(
        &mut data,
        0,
        0,
        &[
            (Cell::Int(25_471), ColType::Integer),
            (Cell::Int(11_612), ColType::Integer),
            (Cell::Int(1910), ColType::Integer),
            (Cell::Num(1_200), ColType::Numeric),
            (Cell::Str("Debit".to_owned()), ColType::Varchar),
        ],
    );
    let posting_credit = append_row(
        &mut data,
        posting_debit,
        0,
        &[
            (Cell::Int(25_472), ColType::Integer),
            (Cell::Int(11_612), ColType::Integer),
            (Cell::Int(3010), ColType::Integer),
            (Cell::Num(-1_200), ColType::Numeric),
            (Cell::Str("Credit".to_owned()), ColType::Varchar),
        ],
    );
    let posting_sparse = append_row(
        &mut data,
        posting_credit,
        0,
        &[
            (Cell::Int(25_473), ColType::Integer),
            (Cell::Int(11_612), ColType::Integer),
            (Cell::Null, ColType::Integer),
            (Cell::Null, ColType::Numeric),
            (Cell::Str("Draft".to_owned()), ColType::Varchar),
        ],
    );
    (data, Roots { konto: account_sales, ver: voucher, trans: posting_sparse })
}

fn column(name: &str, storage: &str) -> ColumnDraft {
    ColumnDraft { name: name.to_owned(), storage_type: storage.to_owned() }
}

fn table(name: &str, columns: Vec<ColumnDraft>, key: &str, restart_with: Option<i64>, root: i32) -> TableDraft {
    TableDraft {
        name: name.to_owned(),
        columns,
        primary_key: vec![key.to_owned()],
        restart_with,
        index_roots: vec![i64::from(root)],
    }
}

/// The draft that the SQL codec decodes from the fixture's `database/script`.
fn script_draft(roots: Roots) -> SchemaDraft {
    SchemaDraft {
        tables: vec![
            table(
                "konto",
                vec![
                    column("k_nr", "INTEGER"),
                    column("k_namn", "VARCHAR(50)"),
                    column("k_text", "VARCHAR(200)"),
                    column("k_sru_p", "INTEGER"),
                    column("k_sru_m", "INTEGER"),
                ],
                "k_nr",
                None,
                roots.konto,
            ),
            table(
                "ver",
                vec![column("v_nr", "INTEGER"), column("v_datum", "DATE"), column("v_text", "VARCHAR(200)")],
                "v_nr",
                Some(11_612),
                roots.ver,
            ),
            table(
                "trans",
                vec![
                    column("t_nr", "INTEGER"),
                    column("v_nr", "INTEGER"),
                    column("k_nr", "INTEGER"),
                    column("t_belopp", "NUMERIC(50,2)"),
                    column("t_text", "VARCHAR(200)"),
                ],
                "t_nr",
                Some(25_471),
                roots.trans,
            ),
        ],
    }
}

fn odb_bytes(script: &str, data: &[u8], properties: &str) -> Vec<u8> {
    let mut zip = ZipWriter::new(Cursor::new(Vec::new()));
    let options = SimpleFileOptions::default().compression_method(CompressionMethod::Stored);
    zip.start_file(SCRIPT, options).unwrap();
    zip.write_all(script.as_bytes()).unwrap();
    zip.start_file(DATA, options).unwrap();
    zip.write_all(data).unwrap();
    zip.start_file(PROPERTIES, options).unwrap();
    zip.write_all(properties.as_bytes()).unwrap();
    zip.finish().unwrap().into_inner()
}

fn fixture() -> (Vec<u8>, OdbSchema) {
    let (data, roots) = synthetic_data();
    let schema = admit_draft(&script_draft(roots)).unwrap();
    let bytes = odb_bytes("CREATE CACHED TABLE \"konto\"()\n", &data, "hsqldb.cache_file_scale=1\n");
    (bytes, schema)
}

fn script_text(roots: Roots) -> String {
    format!(
        r#"
CREATE CACHED TABLE "konto"("k_nr" INTEGER NOT NULL PRIMARY KEY,"k_namn" VARCHAR(50),"k_text" VARCHAR(200),"k_sru_p" INTEGER,"k_sru_m" INTEGER)
CREATE CACHED TABLE "ver"("v_nr" INTEGER NOT NULL PRIMARY KEY,"v_datum" DATE NOT NULL,"v_text" VARCHAR(200))
CREATE CACHED TABLE "trans"("t_nr" INTEGER NOT NULL PRIMARY KEY,"v_nr" INTEGER NOT NULL,"k_nr" INTEGER NOT NULL,"t_belopp" NUMERIC(50,2) NOT NULL,"t_text" VARCHAR(200))
ALTER TABLE "ver" ALTER COLUMN "v_nr" RESTART WITH 11612
ALTER TABLE "trans" ALTER COLUMN "t_nr" RESTART WITH 25471
SET TABLE "konto" INDEX'{} 0'
SET TABLE "ver" INDEX'{} 11612'
SET TABLE "trans" INDEX'{} 25471'
"#,
        roots.konto, roots.ver, roots.trans
    )
}

#[test]
fn reads_synthetic_odb_end_to_end() {
    let (data, roots) = synthetic_data();
    let script = script_text(roots);
    let bytes = odb_bytes(&script, &data, "hsqldb.cache_file_scale=1\n");
    let members = open_odb(&bytes).unwrap();
    let schema = parse_script(&members.script).unwrap();
    assert_eq!(schema, admit_draft(&script_draft(roots)).unwrap());

    let year = read_odb(&members, &schema, "ledger-2024").unwrap();

    assert_eq!(year.year, 2024);
    assert_eq!(year.next_source_voucher_id, 11_612);
    assert_eq!(year.next_source_posting_id, 25_471);
    assert_eq!(
        year.accounts,
        vec![
            Account { number: 1910, name: "Cash".to_owned(), note: None, sru_plus: Some(1000), sru_minus: None },
            Account { number: 3010, name: "Sales".to_owned(), note: None, sru_plus: None, sru_minus: Some(3000) },
        ]
    );
    assert_eq!(
        year.vouchers,
        vec![SourceVoucher { source_id: 11_612, date: "2024-01-31".to_owned(), text: Some("Receipt".to_owned()) }]
    );
    assert_eq!(
        year.postings,
        vec![
            SourcePosting {
                source_id: 25_471,
                source_voucher_id: 11_612,
                account: 1910,
                amount: Amount(1_200),
                text: Some("Debit".to_owned()),
            },
            SourcePosting {
                source_id: 25_472,
                source_voucher_id: 11_612,
                account: 3010,
                amount: Amount(-1_200),
                text: Some("Credit".to_owned()),
            },
        ]
    );
}

#[test]
fn explicit_year_overrides_the_file_stem() {
    let (bytes, schema) = fixture();
    let members = open_odb(&bytes).unwrap();
    let year = read_odb_for_year(&members, &schema, 1999).unwrap();
    assert_eq!(year.year, 1999);
    assert_eq!(year.accounts.len(), 2);
}

#[test]
fn stem_without_trailing_year_is_refused() {
    let (bytes, schema) = fixture();
    let members = open_odb(&bytes).unwrap();
    assert_eq!(read_odb(&members, &schema, "ledger").unwrap_err(), OdbError::MissingYear);
    assert_eq!(year_from_stem("bok-2023").unwrap(), 2023);
    assert_eq!(year_from_stem("2023").unwrap(), 2023);
    assert_eq!(year_from_stem("x").unwrap_err(), OdbError::MissingYear);
}

#[test]
fn members_are_read_from_the_archive() {
    let bytes = odb_bytes("script text", &[1, 2, 3], "hsqldb.cache_file_scale=1\n");
    assert_eq!(open_zip_member(&bytes, DATA).unwrap(), vec![1, 2, 3]);
    assert_eq!(open_zip_member(&bytes, SCRIPT).unwrap(), b"script text".to_vec());
    assert!(open_zip_member(&bytes, "database/missing").is_err());
    assert!(open_zip_member(b"not a zip", DATA).is_err());
    let members = open_odb(&bytes).unwrap();
    assert_eq!(members.script, "script text");
    assert_eq!(members.data, vec![1, 2, 3]);
}

#[test]
fn cache_scale_must_be_one() {
    assert_eq!(ensure_cache_scale_one("a=b\n  hsqldb.cache_file_scale=1  \n"), Ok(()));
    assert_eq!(ensure_cache_scale_one("hsqldb.cache_file_scale=8\n"), Err(OdbError::UnsupportedCacheScale));
    let bytes = odb_bytes("s", &[], "hsqldb.cache_file_scale=8\n");
    assert_eq!(open_odb(&bytes).unwrap_err(), OdbError::UnsupportedCacheScale);
}

#[test]
fn non_utf8_script_is_refused() {
    let mut zip = ZipWriter::new(Cursor::new(Vec::new()));
    let options = SimpleFileOptions::default().compression_method(CompressionMethod::Stored);
    zip.start_file(SCRIPT, options).unwrap();
    zip.write_all(&[0xff, 0xfe]).unwrap();
    zip.start_file(DATA, options).unwrap();
    zip.start_file(PROPERTIES, options).unwrap();
    zip.write_all(b"hsqldb.cache_file_scale=1").unwrap();
    let bytes = zip.finish().unwrap().into_inner();
    assert_eq!(open_odb(&bytes).unwrap_err(), OdbError::Utf8 { member: "database/script" });
}

#[test]
fn missing_restart_and_tables_are_named() {
    let (data, roots) = synthetic_data();
    let mut draft = script_draft(roots);
    draft.tables[2].restart_with = None;
    let schema = admit_draft(&draft).unwrap();
    let bytes = odb_bytes("s", &data, "hsqldb.cache_file_scale=1\n");
    let members = open_odb(&bytes).unwrap();
    assert_eq!(read_odb(&members, &schema, "l-2024").unwrap_err(), OdbError::MissingRestart { table: "trans" });

    draft.tables.remove(0);
    let schema = admit_draft(&draft).unwrap();
    assert_eq!(read_odb(&members, &schema, "l-2024").unwrap_err(), OdbError::MissingTable { table: "konto" });
}

#[test]
fn draft_admission_maps_storage_domains() {
    let (_, roots) = synthetic_data();
    let schema = admit_draft(&script_draft(roots)).unwrap();
    assert_eq!(schema.restart_of("ver"), Some(11_612));
    assert_eq!(schema.restart_of("konto"), None);
    assert_eq!(schema.primary_keys_of("konto").unwrap(), &vec!["k_nr".to_owned()]);
    let trans = schema.columns_of("trans").unwrap();
    assert_eq!(trans.len(), 5);
    assert_eq!(trans[3], ("t_belopp".to_owned(), ColType::Numeric));
    assert_eq!(schema.columns_of("ver").unwrap()[1].1, ColType::Date);

    let blob = SchemaDraft {
        tables: vec![TableDraft {
            name: "t".to_owned(),
            columns: vec![column("payload", "BLOB")],
            primary_key: vec![],
            restart_with: None,
            index_roots: vec![],
        }],
    };
    assert_eq!(
        admit_draft(&blob).unwrap_err(),
        SchemaError::UnsupportedDomain {
            table: "t".to_owned(),
            column: "payload".to_owned(),
            storage_type: "BLOB".to_owned(),
        }
    );
}

#[test]
fn odb_error_messages() {
    assert_eq!(OdbError::MissingYear.message(), "ODB path does not include a ledger year");
    assert_eq!(
        OdbError::RequiredNull { table: "trans", column: "k_nr", source_id: Some(7) }.message(),
        "required ODB field trans.k_nr is null at source row 7"
    );
    assert_eq!(
        OdbError::RequiredNull { table: "ver", column: "v_nr", source_id: None }.message(),
        "required ODB field ver.v_nr is null"
    );
    assert_eq!(
        OdbError::IntegerOutOfRange { table: "konto", column: "k_sru_p", value: -5 }.message(),
        "integer -5 in konto.k_sru_p is out of range"
    );
    assert_eq!(OdbError::MissingTable { table: "konto" }.message(), "missing HSQLDB table konto");
    let domain = SchemaError::UnsupportedDomain {
        table: "t".to_owned(),
        column: "payload".to_owned(),
        storage_type: "BLOB".to_owned(),
    };
    assert_eq!(domain.message(), "unsupported HSQLDB domain BLOB for t.payload");
    assert_eq!(
        SchemaError::Ddl("bad".to_owned()).message(),
        "HSQLDB DDL is outside the bounded SQL codec grammar: bad"
    );
}
