use sim_ledger::import::{plan_import, ImportError, SourcePosting, SourceVoucher, SourceYear};
use sim_ledger::model::{Account, Amount, Posting, Voucher};
use sim_ledger::report::{account_balances, sort_by_year_key, sru_balances, BalanceKey, BalanceRow, ReportBalance};
use sim_ledger::set::{reserve_ids, IdAllocationError, SetManifest};
use sim_ledger::store::{year_leaf, StoreError};

fn source(year: i32, source: i64) -> SourceYear {
    SourceYear {
        year,
        accounts: vec![
            Account { number: 1910, name: "Cash".into(), note: None, sru_plus: Some(1000), sru_minus: Some(1000) },
            Account { number: 3010, name: "Sales".into(), note: None, sru_plus: Some(3000), sru_minus: Some(3000) },
        ],
        vouchers: vec![SourceVoucher { source_id: source, date: format!("{year}-01-02"), text: Some("Sale".into()) }],
        postings: vec![
            SourcePosting { source_id: source * 10, source_voucher_id: source, account: 1910, amount: Amount(125), text: None },
            SourcePosting { source_id: source * 10 + 1, source_voucher_id: source, account: 3010, amount: Amount(-125), text: None },
        ],
        next_source_voucher_id: 10,
        next_source_posting_id: 20,
    }
}

#[test]
fn first_import_seeds_ids_from_source_high_water_marks() {
    let manifest = SetManifest::new("Household");
    assert_eq!(manifest.next_voucher_id, 1);
    assert_eq!(manifest.next_posting_id, 1);
    assert!(manifest.years.is_empty());

    let plan = plan_import(&manifest, source(2024, 7)).unwrap();
    assert_eq!(plan.year, 2024);
    assert_eq!(plan.accounts.len(), 2);
    assert_eq!(
        plan.vouchers,
        vec![Voucher { id: 10, source_id: Some(7), date: "2024-01-02".into(), text: Some("Sale".into()) }]
    );
    assert_eq!(
        plan.postings,
        vec![
            Posting { id: 20, source_id: Some(70), voucher_id: 10, account: 1910, amount: Amount(125), text: None },
            Posting { id: 21, source_id: Some(71), voucher_id: 10, account: 3010, amount: Amount(-125), text: None },
        ]
    );
    assert_eq!(plan.voucher_start, 10);
    assert_eq!(plan.posting_start, 20);
    assert_eq!(plan.manifest.label, "Household");
    assert_eq!(plan.manifest.next_voucher_id, 11);
    assert_eq!(plan.manifest.next_posting_id, 22);
    assert_eq!(plan.manifest.years, vec![2024]);

    let second = plan_import(&plan.manifest, source(2023, 8)).unwrap();
    assert_eq!(second.vouchers[0].id, 11);
    assert_eq!(second.postings[0].id, 22);
    assert_eq!(second.postings[1].voucher_id, 11);
    assert_eq!(second.manifest.years, vec![2023, 2024]);
}

#[test]
fn reimport_of_a_year_is_refused() {
    let plan = plan_import(&SetManifest::new("Household"), source(2024, 7)).unwrap();
    assert_eq!(
        plan_import(&plan.manifest, source(2024, 9)).unwrap_err(),
        ImportError::YearAlreadyImported { year: 2024 }
    );
}

#[test]
fn unbalanced_import_is_refused_and_manifest_is_untouched() {
    let manifest = SetManifest::new("Household");
    let before = manifest.clone();
    let mut bad = source(2024, 7);
    bad.postings.pop();
    assert_eq!(
        plan_import(&manifest, bad).unwrap_err(),
        ImportError::Unbalanced { voucher: 10, posting_count: 1, minor_sum: 125 }
    );
    assert_eq!(manifest, before);
}

#[test]
fn source_id_and_voucher_reference_checks() {
    let manifest = SetManifest::new("Household");

    let mut dup_voucher = source(2024, 7);
    dup_voucher.vouchers.push(dup_voucher.vouchers[0].clone());
    assert_eq!(plan_import(&manifest, dup_voucher).unwrap_err(), ImportError::DuplicateSourceVoucher { source_id: 7 });

    let mut dup_posting = source(2024, 7);
    dup_posting.postings[1].source_id = 70;
    assert_eq!(plan_import(&manifest, dup_posting).unwrap_err(), ImportError::DuplicateSourcePosting { source_id: 70 });

    let mut orphan = source(2024, 7);
    orphan.postings[1].source_voucher_id = 99;
    assert_eq!(plan_import(&manifest, orphan).unwrap_err(), ImportError::MissingVoucher { source_voucher_id: 99 });

    let mut overflow = source(2024, 7);
    overflow.postings[0].amount = Amount(i64::MAX);
    overflow.postings[1].amount = Amount(1);
    assert_eq!(plan_import(&manifest, overflow).unwrap_err(), ImportError::BalanceOverflow { voucher: 10 });
}

#[test]
fn id_cursor_overflow_is_an_allocation_error() {
    let mut manifest = SetManifest::new("Household");
    manifest.next_voucher_id = i64::MAX;
    assert_eq!(
        plan_import(&manifest, source(2024, 7)).unwrap_err(),
        ImportError::IdAllocation {
            source: IdAllocationError::CursorOverflow { row_kind: "voucher", start: i64::MAX, count: 1 }
        }
    );
}

#[test]
fn reservations_advance_the_cursor() {
    let mut cursor: i64 = 5;
    assert_eq!(reserve_ids("voucher", &mut cursor, 3), Ok(5..8));
    assert_eq!(cursor, 8);
    assert_eq!(reserve_ids("voucher", &mut cursor, 0), Ok(8..8));
    assert_eq!(
        reserve_ids("voucher", &mut cursor, -1),
        Err(IdAllocationError::NegativeCount { row_kind: "voucher", count: -1 })
    );
    let mut negative: i64 = -2;
    assert_eq!(
        reserve_ids("posting", &mut negative, 1),
        Err(IdAllocationError::NegativeCursor { row_kind: "posting", start: -2 })
    );
    assert_eq!(negative, -2);

    let mut manifest = SetManifest::new("x");
    assert_eq!(manifest.alloc_voucher_ids(2), Ok(1..3));
    assert_eq!(manifest.alloc_posting_ids(4), Ok(1..5));
    assert_eq!(manifest.next_voucher_id, 3);
    assert_eq!(manifest.next_posting_id, 5);
}

fn balance(year: i32, key: i64, amount: i64) -> ReportBalance {
    ReportBalance { year, key, amount }
}

#[test]
fn sru_balances_sum_across_years_in_code_order() {
    let rows = [balance(2025, 3000, -125), balance(2025, 1000, 125), balance(2024, 3000, -125), balance(2024, 1000, 125)];
    assert_eq!(
        sru_balances(&rows).unwrap(),
        vec![
            BalanceRow { key: BalanceKey::Sru { code: 1000 }, amount: Amount(250) },
            BalanceRow { key: BalanceKey::Sru { code: 3000 }, amount: Amount(-250) },
        ]
    );
    assert!(sru_balances(&[]).unwrap().is_empty());
    let cancelling = [balance(2024, 2000, 5), balance(2025, 2000, -5)];
    assert!(sru_balances(&cancelling).unwrap().is_empty());
    assert!(matches!(sru_balances(&[balance(2024, 1_i64 << 40, 1)]), Err(StoreError::Malformed(_))));
    assert!(matches!(
        sru_balances(&[balance(2024, 1000, i64::MAX), balance(2025, 1000, 1)]),
        Err(StoreError::Malformed(_))
    ));
}

#[test]
fn account_balances_follow_year_then_account() {
    let rows = [balance(2025, 1910, 125), balance(2025, 3010, -125), balance(2024, 3010, -125), balance(2024, 1910, 125)];
    assert_eq!(
        account_balances(&rows),
        vec![
            BalanceRow { key: BalanceKey::Account { year: 2024, account: 1910 }, amount: Amount(125) },
            BalanceRow { key: BalanceKey::Account { year: 2024, account: 3010 }, amount: Amount(-125) },
            BalanceRow { key: BalanceKey::Account { year: 2025, account: 1910 }, amount: Amount(125) },
            BalanceRow { key: BalanceKey::Account { year: 2025, account: 3010 }, amount: Amount(-125) },
        ]
    );
}

#[test]
fn sort_is_stable_for_equal_keys() {
    let rows = [balance(2024, 1, 7), balance(2023, 9, 1), balance(2024, 1, 3)];
    assert_eq!(sort_by_year_key(&rows), vec![balance(2023, 9, 1), balance(2024, 1, 7), balance(2024, 1, 3)]);
}

#[test]
fn year_store_file_names() {
    assert_eq!(year_leaf(2024), "year-2024.sqlite");
    assert_eq!(year_leaf(-7), "year--7.sqlite");
}

#[test]
fn import_error_messages() {
    assert_eq!(ImportError::YearAlreadyImported { year: 2024 }.message(), "ledger year 2024 is already imported");
    assert_eq!(
        ImportError::Unbalanced { voucher: 10, posting_count: 1, minor_sum: -125 }.message(),
        "voucher 10 has 1 postings and is unbalanced by -125 minor units"
    );
    assert_eq!(ImportError::MissingVoucher { source_voucher_id: 99 }.message(), "missing source voucher id 99");
    assert_eq!(ImportError::IdCountOverflow { row_kind: "voucher", count: 3 }.message(), "voucher row count 3 cannot fit in i64");
    let allocation = IdAllocationError::CursorOverflow { row_kind: "voucher", start: 9, count: 1 };
    assert_eq!(allocation.message(), format!("{allocation:?}"));
    assert_eq!(
        ImportError::IdAllocation { source: allocation.clone() }.message(),
        format!("id allocation failed: {allocation:?}")
    );
    let negative = IdAllocationError::NegativeCount { row_kind: "posting", count: -1 };
    assert_eq!(negative.message(), format!("{negative:?}"));
}
