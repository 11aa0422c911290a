use sim_ledger::close::{
    append_journal_entry, checked_i64, ensure_no_violations, is_income_sru, parse_journal, reopen_reason, sru_comparison,
    statements_from_trial_balance, table_from_rows, trial_balance_rows, CloseError, CloseJournalEntry, ClosingState,
    SruComparativeRow, SruYearAmount, StatementRow, StatementTable, TrialBalanceRow,
};
use sim_ledger::model::{Amount, VoucherBalanceViolation};
use sim_ledger::report::{BalanceKey, BalanceRow};
use sim_ledger::store::{StoreError, TrialBalanceData};

fn row(account: i64, sru_plus: Option<i32>, sru_minus: Option<i32>, closing: i64) -> TrialBalanceRow {
    TrialBalanceRow {
        year: 2024,
        account,
        sru_plus,
        sru_minus,
        opening_minor: 0,
        debit_minor: closing.max(0),
        credit_minor: (-closing).max(0),
        closing_minor: closing,
    }
}

#[test]
fn closing_state_text_round_trips() {
    for state in [ClosingState::Open, ClosingState::Review, ClosingState::Closed] {
        assert_eq!(ClosingState::parse(state.as_str()), Ok(state));
    }
    assert_eq!(ClosingState::Closed.as_str(), "closed");
    assert_eq!(
        ClosingState::parse("locked"),
        Err(CloseError::InvalidState("unknown closing state locked".to_owned()))
    );
}

#[test]
fn journal_append_then_parse_gives_the_entries_back() {
    let one = append_journal_entry("", ClosingState::Closed, "closed by close_year");
    assert_eq!(one, "closed\tclosed by close_year");
    let two = append_journal_entry(&one, ClosingState::Open, "fix\tlate\ninvoice");
    assert_eq!(two, "closed\tclosed by close_year\nopen\tfix late invoice");
    assert_eq!(
        parse_journal(&two).unwrap(),
        vec![
            CloseJournalEntry { state: ClosingState::Closed, reason: "closed by close_year".to_owned() },
            CloseJournalEntry { state: ClosingState::Open, reason: "fix late invoice".to_owned() },
        ]
    );
    assert_eq!(parse_journal("\n  \nreview\tcheck\r\n").unwrap(), vec![CloseJournalEntry {
        state: ClosingState::Review,
        reason: "check".to_owned()
    }]);
    assert_eq!(
        parse_journal("closed without tab"),
        Err(CloseError::InvalidState("close journal entry missing separator".to_owned()))
    );
    assert_eq!(
        parse_journal("shut\tx"),
        Err(CloseError::InvalidState("unknown closing state shut".to_owned()))
    );
}

#[test]
fn reopen_needs_a_reason() {
    assert_eq!(reopen_reason("  audit fix \n").unwrap(), "audit fix");
    assert_eq!(
        reopen_reason(" \t "),
        Err(CloseError::InvalidState("reopen reason must not be empty".to_owned()))
    );
}

#[test]
fn trial_balance_rows_open_at_zero() {
    let data = [TrialBalanceData { account: 1910, sru_plus: Some(1000), sru_minus: None, debit_minor: 500, credit_minor: 200, closing_minor: 300 }];
    assert_eq!(
        trial_balance_rows(2024, &data),
        vec![TrialBalanceRow {
            year: 2024,
            account: 1910,
            sru_plus: Some(1000),
            sru_minus: None,
            opening_minor: 0,
            debit_minor: 500,
            credit_minor: 200,
            closing_minor: 300,
        }]
    );
}

#[test]
fn closing_sru_follows_the_balance_sign() {
    assert_eq!(row(1, Some(10), Some(20), 5).closing_sru(), Some(10));
    assert_eq!(row(1, Some(10), Some(20), -5).closing_sru(), Some(20));
    assert_eq!(row(1, None, Some(20), 5).closing_sru(), Some(20));
    assert_eq!(row(1, Some(10), None, -5).closing_sru(), Some(10));
    assert_eq!(row(1, None, None, 0).closing_sru(), None);
    assert!(is_income_sru(Some(3000)));
    assert!(is_income_sru(Some(8999)));
    assert!(!is_income_sru(Some(2999)));
    assert!(!is_income_sru(None));
}

#[test]
fn statements_split_income_from_balance_sheet() {
    let trial = vec![
        row(1910, Some(1000), Some(1000), 1_250),
        row(1930, Some(1000), Some(1000), 750),
        row(3010, Some(3000), Some(3000), -2_000),
        row(2099, None, None, 0),
    ];
    let statements = statements_from_trial_balance(2024, trial.clone()).unwrap();
    assert_eq!(statements.year, 2024);
    assert_eq!(statements.trial_balance, trial);
    assert_eq!(
        statements.income_statement,
        StatementTable { title: "Income statement".to_owned(), rows: vec![StatementRow { label: "SRU 3000".to_owned(), amount_minor: -2_000 }] }
    );
    assert_eq!(
        statements.balance_sheet,
        StatementTable { title: "Balance sheet".to_owned(), rows: vec![StatementRow { label: "SRU 1000".to_owned(), amount_minor: 2_000 }] }
    );
    assert_eq!(statements.notes.len(), 1);
    assert_eq!(statements.notes[0].id, "basis");
    assert_eq!(statements.trial_balance_total_minor(), Ok(0));
    assert_eq!(statements.income_statement.total_minor(), Ok(-2_000));

    assert_eq!(
        statements_from_trial_balance(2024, vec![row(1910, None, None, 5)]),
        Err(CloseError::UnbalancedTrialBalance { minor_sum: 5 })
    );
    assert_eq!(
        statements_from_trial_balance(2024, vec![row(1, None, None, i64::MAX), row(2, None, None, 1)]),
        Err(CloseError::ArithmeticOverflow("trial-balance total"))
    );
}

#[test]
fn unmapped_accounts_are_labelled_by_number_in_label_order() {
    let rows = [row(1930, None, None, 10), row(1910, None, None, 5), row(2440, Some(2640), Some(2640), -15)];
    let table = table_from_rows("Balance sheet", &rows, false).unwrap();
    assert_eq!(
        table.rows,
        vec![
            StatementRow { label: "Account 1910".to_owned(), amount_minor: 5 },
            StatementRow { label: "Account 1930".to_owned(), amount_minor: 10 },
            StatementRow { label: "SRU 2640".to_owned(), amount_minor: -15 },
        ]
    );
}

#[test]
fn sru_comparison_lists_every_code_for_every_year() {
    let y2023 = vec![BalanceRow { key: BalanceKey::Sru { code: 1000 }, amount: Amount(100) }];
    let y2024 = vec![
        BalanceRow { key: BalanceKey::Sru { code: 3000 }, amount: Amount(-40) },
        BalanceRow { key: BalanceKey::Sru { code: 1000 }, amount: Amount(40) },
    ];
    let rows = sru_comparison(&[(2024, y2024), (2023, y2023)]);
    assert_eq!(
        rows,
        vec![
            SruComparativeRow {
                sru: 1000,
                years: vec![SruYearAmount { year: 2024, amount_minor: 40 }, SruYearAmount { year: 2023, amount_minor: 100 }],
            },
            SruComparativeRow {
                sru: 3000,
                years: vec![SruYearAmount { year: 2024, amount_minor: -40 }, SruYearAmount { year: 2023, amount_minor: 0 }],
            },
        ]
    );
    assert!(sru_comparison(&[]).is_empty());
}

#[test]
fn unbalanced_vouchers_block_statements() {
    assert_eq!(ensure_no_violations(&[]), Ok(()));
    let violations = [
        VoucherBalanceViolation { voucher_id: 4, posting_count: 1, minor_sum: 12 },
        VoucherBalanceViolation { voucher_id: 9, posting_count: 0, minor_sum: 0 },
    ];
    let err = ensure_no_violations(&violations).unwrap_err();
    assert_eq!(err, CloseError::UnbalancedVoucher { voucher: 4, posting_count: 1, minor_sum: 12 });
    assert_eq!(err.message(), "voucher 4 has 1 postings and is unbalanced by 12 minor units");
}

#[test]
fn minor_unit_sums_must_fit() {
    assert_eq!(checked_i64(5, "x"), Ok(5));
    assert_eq!(checked_i64(i128::from(i64::MAX) + 1, "statement row"), Err(CloseError::ArithmeticOverflow("statement row")));
    assert_eq!(CloseError::ArithmeticOverflow("statement row").message(), "statement row overflows minor units");
    assert_eq!(CloseError::Store(StoreError::Closed.message()).message(), "ledger close storage failed: ledger year is closed");
}
