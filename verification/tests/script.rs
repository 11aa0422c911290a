use sim_ledger::script::{parse_script, SchemaError};

const LEDGER_DDL: &str = r#"CREATE CACHED TABLE "konto"("k_nr" INTEGER NOT NULL PRIMARY KEY,"k_namn" VARCHAR(50),"k_text" VARCHAR(200),"k_sru_p" INTEGER,"k_sru_m" INTEGER)
CREATE CACHED TABLE "ver"("v_nr" INTEGER NOT NULL PRIMARY KEY,"v_datum" DATE NOT NULL,"v_text" VARCHAR(200))
CREATE CACHED TABLE "trans"("t_nr" INTEGER NOT NULL PRIMARY KEY,"t_ver" INTEGER NOT NULL,"t_konto" INTEGER NOT NULL,"t_belopp" NUMERIC(50,2) NOT NULL,"t_text" VARCHAR(200))
ALTER TABLE "ver" ALTER COLUMN "v_nr" RESTART WITH 11612
ALTER TABLE "trans" ALTER COLUMN "t_nr" RESTART WITH 25471
SET TABLE "trans" INDEX'134576 94648 47888 25471'"#;

#[test]
fn admits_the_complete_ledger_fixture_schema() {
    let schema = parse_script(LEDGER_DDL).unwrap();
    assert_eq!(schema.restart_of("ver"), Some(11_612));
    assert_eq!(schema.restart_of("trans"), Some(25_471));
    assert_eq!(schema.primary_keys_of("konto").unwrap(), &["k_nr"]);
    assert_eq!(schema.columns_of("konto").unwrap().len(), 5);
    assert_eq!(schema.index_roots_of("trans").unwrap(), &[134_576, 94_648, 47_888]);
}

#[test]
fn refuses_unknown_sql_and_unknown_import_domains() {
    assert!(matches!(parse_script("DROP TABLE ledger"), Err(SchemaError::Ddl(_))));
    assert!(matches!(
        parse_script("CREATE CACHED TABLE t (payload BLOB)"),
        Err(SchemaError::UnsupportedDomain { .. })
    ));
}

#[test]
fn script_failures_carry_the_codec_text() {
    let err = parse_script("DROP TABLE ledger").unwrap_err();
    assert_eq!(
        err,
        SchemaError::Ddl("Ddl(\"statement is outside bounded CREATE TABLE domain\")".to_owned())
    );
    assert_eq!(
        parse_script("CREATE CACHED TABLE t (payload BLOB)").unwrap_err(),
        SchemaError::UnsupportedDomain { table: "t".to_owned(), column: "payload".to_owned(), storage_type: "BLOB".to_owned() }
    );
    let schema = parse_script("CREATE TABLE \"a\"(\"x\" DECIMAL(10,2), \"y\" CHAR(3), \"z\" LONGVARCHAR)").unwrap();
    let columns = schema.columns_of("a").unwrap();
    assert_eq!(columns.len(), 3);
}

#[test]
fn refuses_primary_key_parentheses_out_of_order() {
    let err = parse_script("CREATE TABLE t(a INTEGER,PRIMARY KEY \"x)\" \"(\")").unwrap_err();
    assert_eq!(err, SchemaError::Ddl("primary key columns must be enclosed in parentheses".to_owned()));
    let err = parse_script("create table t(a integer,primary key ) (a))").unwrap_err();
    assert!(matches!(err, SchemaError::Ddl(_)));
}
