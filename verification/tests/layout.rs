use sim_ledger::layout::{ledger_schema, legacy_physical_schema, Domain};

#[test]
fn ledger_schema_lists_the_year_tables() {
    let tables = ledger_schema();
    let names: Vec<&str> = tables.iter().map(|t| t.name.as_str()).collect();
    assert_eq!(names, ["account", "voucher", "posting", "id_state", "meta"]);
    assert_eq!(tables[0].key_name, "account_pk");
    assert_eq!(tables[0].primary_key, ["number"]);
    let posting = &tables[2];
    assert_eq!(posting.columns.len(), 6);
    assert_eq!(posting.columns[4].name, "minor");
    assert_eq!(posting.columns[4].domain, Domain::I64);
    assert!(!posting.columns[4].nullable);
    assert_eq!(posting.foreign_keys.len(), 2);
    assert_eq!(posting.foreign_keys[1].name, "posting_account_fk");
    assert_eq!(posting.foreign_keys[1].target_table, "account");
    assert_eq!(posting.foreign_keys[1].target_columns, ["number"]);
}

#[test]
fn legacy_files_store_every_logical_column() {
    let logical = ledger_schema();
    let physical = legacy_physical_schema();
    assert_eq!(logical.len(), physical.len());
    for table in &logical {
        let stored = physical.iter().find(|p| p.name == table.name).unwrap();
        assert_eq!(stored.columns.len(), table.columns.len());
        for (j, (c, p)) in table.columns.iter().zip(&stored.columns).enumerate() {
            assert_eq!(p.name, c.name);
            assert_eq!(p.storage, c.domain);
            assert_eq!(p.ordinal as usize, j);
            assert_eq!(p.nullable, c.nullable || table.primary_key.contains(&c.name));
        }
    }
    let names: Vec<&str> = physical.iter().map(|t| t.name.as_str()).collect();
    assert_eq!(names, ["account", "id_state", "meta", "posting", "voucher"]);
}
