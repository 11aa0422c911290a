use sim_ledger::model::{Account, Amount, Posting};
use sim_ledger::report::{balances_of, report_balances_of, BalanceKey, BalanceRow, ReportBalance};
use sim_ledger::store::{ensure_mutable_state, trial_balance_data_of, StoreError, TrialBalanceData};

fn account(number: i64, sru_plus: Option<i32>, sru_minus: Option<i32>) -> Account {
    Account { number, name: format!("Account {number}"), note: None, sru_plus, sru_minus }
}

fn posting(id: i64, account: i64, minor: i64) -> Posting {
    Posting { id, source_id: None, voucher_id: 1, account, amount: Amount(minor), text: None }
}

fn ledger() -> (Vec<Account>, Vec<Posting>) {
    let accounts = vec![account(1910, Some(7281), None), account(2081, None, Some(7301)), account(3000, Some(7410), Some(7510)), account(4000, None, None)];
    let postings = vec![
        posting(1, 1910, 50_000),
        posting(2, 2081, -50_000),
        posting(3, 1910, -12_550),
        posting(4, 3000, 12_550),
        posting(5, 9999, 700),
        posting(6, 3000, -300),
    ];
    (accounts, postings)
}

#[test]
fn trial_balance_sums_debits_credits_and_closing_per_account() {
    let (accounts, postings) = ledger();
    let rows = trial_balance_data_of(&accounts, &postings).unwrap();
    assert_eq!(
        rows,
        vec![
            TrialBalanceData { account: 1910, sru_plus: Some(7281), sru_minus: None, debit_minor: 50_000, credit_minor: 12_550, closing_minor: 37_450 },
            TrialBalanceData { account: 2081, sru_plus: None, sru_minus: Some(7301), debit_minor: 0, credit_minor: 50_000, closing_minor: -50_000 },
            TrialBalanceData { account: 3000, sru_plus: Some(7410), sru_minus: Some(7510), debit_minor: 12_550, credit_minor: 300, closing_minor: 12_250 },
            TrialBalanceData { account: 4000, sru_plus: None, sru_minus: None, debit_minor: 0, credit_minor: 0, closing_minor: 0 },
        ]
    );
}

#[test]
fn trial_balance_refuses_unordered_accounts_and_overflow() {
    let accounts = vec![account(2, None, None), account(1, None, None)];
    assert_eq!(
        trial_balance_data_of(&accounts, &[]),
        Err(StoreError::Malformed("accounts are not in ascending number order".to_owned()))
    );
    let accounts = vec![account(1, None, None)];
    let postings = vec![posting(1, 1, i64::MAX), posting(2, 1, 1)];
    assert_eq!(
        trial_balance_data_of(&accounts, &postings),
        Err(StoreError::Storage("Provider".to_owned()))
    );
}

#[test]
fn report_balances_by_account_sum_per_year_and_drop_zeros() {
    let (accounts, postings) = ledger();
    let later = vec![posting(10, 1910, 100), posting(11, 1910, -100), posting(12, 4000, 5)];
    let rows = report_balances_of(&[(2024, accounts.clone(), postings), (2025, accounts, later)], false).unwrap();
    assert_eq!(
        rows,
        vec![
            ReportBalance { year: 2024, key: 1910, amount: 37_450 },
            ReportBalance { year: 2024, key: 2081, amount: -50_000 },
            ReportBalance { year: 2024, key: 3000, amount: 12_250 },
            ReportBalance { year: 2025, key: 4000, amount: 5 },
        ]
    );
}

#[test]
fn report_balances_by_sru_pick_the_code_for_each_sign() {
    let (accounts, postings) = ledger();
    let rows = report_balances_of(&[(2024, accounts, postings)], true).unwrap();
    assert_eq!(
        rows,
        vec![
            ReportBalance { year: 2024, key: 7281, amount: 37_450 },
            ReportBalance { year: 2024, key: 7301, amount: -50_000 },
            ReportBalance { year: 2024, key: 7410, amount: 12_550 },
            ReportBalance { year: 2024, key: 7510, amount: -300 },
        ]
    );
}

#[test]
fn report_balances_refuse_unordered_accounts() {
    let accounts = vec![account(5, None, None), account(5, None, None)];
    assert_eq!(
        report_balances_of(&[(2024, accounts, vec![])], false),
        Err(StoreError::Malformed("accounts are not in ascending number order".to_owned()))
    );
    assert_eq!(report_balances_of(&[], true), Ok(vec![]));
}

#[test]
fn closed_years_refuse_ordinary_insertions() {
    assert_eq!(ensure_mutable_state(Some("closed")), Err(StoreError::Closed));
    assert_eq!(ensure_mutable_state(Some("open")), Ok(()));
    assert_eq!(ensure_mutable_state(Some("review")), Ok(()));
    assert_eq!(ensure_mutable_state(None), Ok(()));
}

#[test]
fn report_sums_beyond_i64_fail_as_the_provider_does() {
    let accounts = vec![account(1, Some(10), None)];
    let postings = vec![posting(1, 1, i64::MAX), posting(2, 1, 1)];
    assert_eq!(
        report_balances_of(&[(2024, accounts.clone(), postings.clone())], false),
        Err(StoreError::Storage("Provider".to_owned()))
    );
    assert_eq!(report_balances_of(&[(2024, accounts, postings)], true), Err(StoreError::Storage("Provider".to_owned())));
}

#[test]
fn balances_across_years_by_account_and_by_sru() {
    let (accounts, postings) = ledger();
    let later = vec![posting(10, 1910, 550), posting(11, 2081, -550)];
    let years = [(2025, accounts.clone(), later), (2024, accounts, postings)];
    let by_account = balances_of(&years, false).unwrap();
    let keys: Vec<(i32, i64, i64)> = by_account
        .iter()
        .map(|row| match row.key {
            BalanceKey::Account { year, account } => (year, account, row.amount.0),
            BalanceKey::Sru { .. } => panic!("account report holds an SRU row"),
        })
        .collect();
    assert_eq!(keys, vec![(2024, 1910, 37_450), (2024, 2081, -50_000), (2024, 3000, 12_250), (2025, 1910, 550), (2025, 2081, -550)]);
    let by_sru = balances_of(&years, true).unwrap();
    assert_eq!(
        by_sru,
        vec![
            BalanceRow { key: BalanceKey::Sru { code: 7281 }, amount: Amount(38_000) },
            BalanceRow { key: BalanceKey::Sru { code: 7301 }, amount: Amount(-50_550) },
            BalanceRow { key: BalanceKey::Sru { code: 7410 }, amount: Amount(12_550) },
            BalanceRow { key: BalanceKey::Sru { code: 7510 }, amount: Amount(-300) },
        ]
    );
    assert_eq!(balances_of(&[], true), Ok(vec![]));
}
