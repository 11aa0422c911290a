use sim_ledger::csv::{accounts_from_records, load_csv, postings_from_records, vouchers_from_records, CsvLoadError};
use sim_ledger::import::{SourcePosting, SourceVoucher};
use sim_ledger::model::{Account, Amount};
use sim_ledger::script::{admit_draft, OdbSchema, SchemaDraft, TableDraft};
use sim_ledger::text::IntParseFailure;

fn schema_with(restarts: &[(&str, i64)]) -> OdbSchema {
    let tables = restarts
        .iter()
        .map(|(name, next)| TableDraft {
            name: (*name).to_owned(),
            columns: vec![],
            primary_key: vec![],
            restart_with: Some(*next),
            index_roots: vec![],
        })
        .collect();
    admit_draft(&SchemaDraft { tables }).unwrap()
}

fn files(konto: &str, ver: &str, trans: &str) -> Vec<(String, Vec<u8>)> {
    vec![
        ("konto.csv".to_owned(), konto.as_bytes().to_vec()),
        ("ver.csv".to_owned(), ver.as_bytes().to_vec()),
        ("trans.csv".to_owned(), trans.as_bytes().to_vec()),
    ]
}

const KONTO: &str = "k_nr,k_namn,k_text,k_sru_p,k_sru_m\n1910, Cash ,,1000,\n3010,Sales,Income,,3000\n";
const VER: &str = "v_nr,v_datum,v_text\n7,2024-01-31,Receipt\n8,2024-02-01,\n";
const TRANS: &str = "t_nr,t_ver,t_konto,t_belopp,t_text\n70,7,1910,12.00,Debit\n71,7,3010,-12,\n";

#[test]
fn loads_exported_tables_into_a_source_year() {
    let schema = schema_with(&[("ver", 9), ("trans", 72)]);
    let year = load_csv(&files(KONTO, VER, TRANS), 2024, &schema).unwrap();
    assert_eq!(year.year, 2024);
    assert_eq!(year.next_source_voucher_id, 9);
    assert_eq!(year.next_source_posting_id, 72);
    assert_eq!(
        year.accounts,
        vec![
            Account { number: 1910, name: "Cash".to_owned(), note: None, sru_plus: Some(1000), sru_minus: None },
            Account {
                number: 3010,
                name: "Sales".to_owned(),
                note: Some("Income".to_owned()),
                sru_plus: None,
                sru_minus: Some(3000),
            },
        ]
    );
    assert_eq!(
        year.vouchers,
        vec![
            SourceVoucher { source_id: 7, date: "2024-01-31".to_owned(), text: Some("Receipt".to_owned()) },
            SourceVoucher { source_id: 8, date: "2024-02-01".to_owned(), text: None },
        ]
    );
    assert_eq!(
        year.postings,
        vec![
            SourcePosting { source_id: 70, source_voucher_id: 7, account: 1910, amount: Amount(1_200), text: Some("Debit".to_owned()) },
            SourcePosting { source_id: 71, source_voucher_id: 7, account: 3010, amount: Amount(-1_200), text: None },
        ]
    );
}

#[test]
fn csv_failures_name_the_file_and_field() {
    let schema = schema_with(&[("ver", 9), ("trans", 72)]);

    let mut dir = files(KONTO, VER, TRANS);
    dir.remove(1);
    assert_eq!(
        load_csv(&dir, 2024, &schema).unwrap_err(),
        CsvLoadError::MissingField { file: "ver.csv", field: "file" }
    );

    let no_name = "k_nr,k_text,k_sru_p,k_sru_m\n1910,,1000,\n";
    assert_eq!(
        load_csv(&files(no_name, VER, TRANS), 2024, &schema).unwrap_err(),
        CsvLoadError::MissingField { file: "konto.csv", field: "k_namn" }
    );

    let bad_id = "v_nr,v_datum,v_text\nseven,2024-01-31,Receipt\n";
    assert_eq!(
        load_csv(&files(KONTO, bad_id, TRANS), 2024, &schema).unwrap_err(),
        CsvLoadError::InvalidInteger {
            file: "ver.csv",
            field: "v_nr",
            value: "seven".to_owned(),
            source: IntParseFailure::InvalidDigit,
        }
    );

    let bad_sru = "k_nr,k_namn,k_text,k_sru_p,k_sru_m\n1910,Cash,,99999999999,\n";
    assert_eq!(
        load_csv(&files(bad_sru, VER, TRANS), 2024, &schema).unwrap_err(),
        CsvLoadError::InvalidInteger {
            file: "konto.csv",
            field: "k_sru_p",
            value: "99999999999".to_owned(),
            source: IntParseFailure::PosOverflow,
        }
    );

    let bad_amount = "t_nr,t_ver,t_konto,t_belopp,t_text\n70,7,1910,1.234,Debit\n";
    assert_eq!(
        load_csv(&files(KONTO, VER, bad_amount), 2024, &schema).unwrap_err(),
        CsvLoadError::InvalidAmount {
            file: "trans.csv",
            field: "t_belopp",
            value: "1.234".to_owned(),
            message: "amount has more than two fractional digits".to_owned(),
        }
    );

    let ragged = "v_nr,v_datum,v_text\n7,2024-01-31\n";
    assert!(matches!(load_csv(&files(KONTO, ragged, TRANS), 2024, &schema).unwrap_err(), CsvLoadError::Csv { .. }));
}

#[test]
fn csv_load_needs_both_high_water_marks() {
    let schema = schema_with(&[("ver", 9)]);
    assert_eq!(
        load_csv(&files(KONTO, VER, TRANS), 2024, &schema).unwrap_err(),
        CsvLoadError::MissingRestart { table: "trans" }
    );
}

#[test]
fn csv_failure_messages() {
    let schema = schema_with(&[("ver", 9)]);
    let bad_id = "v_nr,v_datum,v_text\nsev en,2024-01-31,Receipt\n";
    let err = load_csv(&files(KONTO, bad_id, TRANS), 2024, &schema).unwrap_err();
    assert_eq!(err.message(), "invalid integer in ver.csv:v_nr value \"sev en\": invalid digit found in string");
    let err = load_csv(&files(KONTO, VER, TRANS), 2024, &schema).unwrap_err();
    assert_eq!(err.message(), "missing restart high-water mark for table trans");
    let mut dir = files(KONTO, VER, TRANS);
    dir.remove(0);
    assert_eq!(load_csv(&dir, 2024, &schema).unwrap_err().message(), "missing field file in konto.csv");
    let bad_amount = "t_nr,t_ver,t_konto,t_belopp,t_text\n70,7,1910,+1,Debit\n";
    assert_eq!(
        load_csv(&files(KONTO, VER, bad_amount), 2024, &schema).unwrap_err().message(),
        "invalid amount in trans.csv:t_belopp value \"+1\": amount must not include an explicit plus sign"
    );
}

fn strings(fields: &[&str]) -> Vec<String> {
    fields.iter().map(|f| (*f).to_owned()).collect()
}

#[test]
fn parsed_tables_map_to_rows_in_order() {
    let headers = strings(&["k_nr", "k_namn", "k_text", "k_sru_p", "k_sru_m"]);
    let records = vec![Ok(strings(&["1910", "Kassa", "", "7281", ""])), Ok(strings(&["2081", "Eget kapital", "not", "", "7301"]))];
    let accounts = accounts_from_records(&headers, &records).unwrap();
    assert_eq!(accounts.len(), 2);
    assert_eq!(accounts[0], Account { number: 1910, name: "Kassa".into(), note: None, sru_plus: Some(7281), sru_minus: None });
    assert_eq!(accounts[1].note.as_deref(), Some("not"));

    let failing = vec![Ok(strings(&["1910", "Kassa", "", "", ""])), Err("bad record".to_owned())];
    assert_eq!(accounts_from_records(&headers, &failing).unwrap_err(), CsvLoadError::Csv { message: "bad record".into() });

    let vouchers = vouchers_from_records(&strings(&["v_nr", "v_datum", "v_text"]), &[Ok(strings(&["7", "2024-01-31", "Hyra"]))]).unwrap();
    assert_eq!(vouchers, vec![SourceVoucher { source_id: 7, date: "2024-01-31".into(), text: Some("Hyra".into()) }]);

    let headers = strings(&["t_nr", "t_ver", "t_konto", "t_belopp", "t_text"]);
    let postings = postings_from_records(&headers, &[Ok(strings(&["3", "7", "1910", "-12.50", ""]))]).unwrap();
    assert_eq!(postings, vec![SourcePosting { source_id: 3, source_voucher_id: 7, account: 1910, amount: Amount(-1250), text: None }]);
    let err = postings_from_records(&headers, &[Ok(strings(&["3", "7", "1910", "1.234", ""]))]).unwrap_err();
    assert!(matches!(err, CsvLoadError::InvalidAmount { file: "trans.csv", field: "t_belopp", .. }));
}
