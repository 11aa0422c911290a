use sim_ledger::codec::{
    balances_call_from_expr, balances_query_expr, report_to_expr, BalancesCall, Expr, LedgerCodecError, NumberLiteral, Symbol,
};
use sim_ledger::model::Amount;
use sim_ledger::report::{BalanceKey, BalanceRow};
use sim_ledger::text::IntParseFailure;

fn ledger_symbol(name: &str) -> Symbol {
    Symbol::qualified("ledger", name)
}

fn entry(name: &str, value: Expr) -> (Expr, Expr) {
    (Expr::Symbol(Symbol::new(name)), value)
}

fn number(domain: &str, value: i64) -> Expr {
    Expr::Number(NumberLiteral { domain: ledger_symbol(domain), canonical: value.to_string() })
}

fn integer_expr(value: i64) -> Expr {
    number("integer", value)
}

fn amount_expr(amount: Amount) -> Expr {
    number("minor", amount.0)
}

#[test]
fn report_expr_round_trips_as_portable_data() {
    let expr = report_to_expr(&[
        BalanceRow { key: BalanceKey::Account { year: 2024, account: 1910 }, amount: Amount(1_200) },
        BalanceRow { key: BalanceKey::Sru { code: 3000 }, amount: Amount(-1_200) },
    ]);
    let expected = Expr::Entries(vec![
        entry("kind", Expr::Symbol(ledger_symbol("report"))),
        entry(
            "rows",
            Expr::List(vec![
                Expr::Entries(vec![
                    entry("kind", Expr::Symbol(ledger_symbol("balance-row"))),
                    entry(
                        "key",
                        Expr::Entries(vec![
                            entry("kind", Expr::Symbol(ledger_symbol("account"))),
                            entry("year", integer_expr(2024)),
                            entry("account", integer_expr(1910)),
                        ]),
                    ),
                    entry("amount", amount_expr(Amount(1_200))),
                ]),
                Expr::Entries(vec![
                    entry("kind", Expr::Symbol(ledger_symbol("balance-row"))),
                    entry(
                        "key",
                        Expr::Entries(vec![
                            entry("kind", Expr::Symbol(ledger_symbol("sru"))),
                            entry("code", integer_expr(3000)),
                        ]),
                    ),
                    entry("amount", amount_expr(Amount(-1_200))),
                ]),
            ]),
        ),
    ]);
    assert_eq!(expr, expected);
}

#[test]
fn balances_query_decodes_to_call() {
    let expr = balances_query_expr(&[2022, 2023], true);
    assert_eq!(balances_call_from_expr(&expr).unwrap(), BalancesCall { years: vec![2022, 2023], by_sru: true });
    let by_account = balances_query_expr(&[], false);
    assert_eq!(balances_call_from_expr(&by_account).unwrap(), BalancesCall { years: vec![], by_sru: false });
}

#[test]
fn rejects_unknown_query_kind() {
    let expr = Expr::Entries(vec![entry("kind", Expr::Symbol(ledger_symbol("other")))]);
    let err = balances_call_from_expr(&expr).unwrap_err();
    assert!(err.message().contains("unsupported ledger symbol"));
    assert_eq!(err.message(), "unsupported ledger symbol ledger/other in field kind");
}

#[test]
fn decoding_failures_name_the_field() {
    assert_eq!(balances_call_from_expr(&Expr::Other).unwrap_err(), LedgerCodecError::ExpectedMap);
    assert_eq!(balances_call_from_expr(&Expr::Other).unwrap_err().message(), "ledger query must be a map");

    let no_years = Expr::Entries(vec![entry("kind", Expr::Symbol(ledger_symbol("balances")))]);
    assert_eq!(balances_call_from_expr(&no_years).unwrap_err(), LedgerCodecError::MissingField { field: "years" });

    let years_not_list = Expr::Entries(vec![
        entry("kind", Expr::Symbol(ledger_symbol("balances"))),
        entry("years", integer_expr(2024)),
        entry("by", Expr::Symbol(ledger_symbol("sru"))),
    ]);
    let err = balances_call_from_expr(&years_not_list).unwrap_err();
    assert_eq!(err, LedgerCodecError::WrongField { field: "years", expected: "a list" });
    assert_eq!(err.message(), "ledger query field years must be a list");

    let bad_domain = Expr::Entries(vec![
        entry("kind", Expr::Symbol(ledger_symbol("balances"))),
        entry("years", Expr::List(vec![number("minor", 2024)])),
        entry("by", Expr::Symbol(ledger_symbol("sru"))),
    ]);
    assert_eq!(
        balances_call_from_expr(&bad_domain).unwrap_err(),
        LedgerCodecError::UnsupportedNumberDomain { field: "years", domain: "ledger/minor".to_owned() }
    );

    let too_big = Expr::Entries(vec![
        entry("kind", Expr::Symbol(ledger_symbol("balances"))),
        entry("years", Expr::List(vec![integer_expr(1 << 40)])),
        entry("by", Expr::Symbol(ledger_symbol("sru"))),
    ]);
    let err = balances_call_from_expr(&too_big).unwrap_err();
    assert_eq!(err, LedgerCodecError::YearOutOfRange { value: 1 << 40 });
    assert_eq!(err.message(), "ledger year is out of range: out of range integral type conversion attempted");

    let not_a_number = Expr::Entries(vec![
        entry("kind", Expr::Symbol(ledger_symbol("balances"))),
        entry(
            "years",
            Expr::List(vec![Expr::Number(NumberLiteral { domain: ledger_symbol("integer"), canonical: "20x4".to_owned() })]),
        ),
        entry("by", Expr::Symbol(ledger_symbol("sru"))),
    ]);
    let err = balances_call_from_expr(&not_a_number).unwrap_err();
    assert_eq!(err, LedgerCodecError::InvalidInteger { field: "years", source: IntParseFailure::InvalidDigit });
    assert_eq!(err.message(), "invalid ledger integer in field years: invalid digit found in string");

    let bad_by = Expr::Entries(vec![
        entry("kind", Expr::Symbol(ledger_symbol("balances"))),
        entry("years", Expr::List(vec![])),
        entry("by", Expr::Symbol(ledger_symbol("month"))),
    ]);
    assert_eq!(
        balances_call_from_expr(&bad_by).unwrap_err(),
        LedgerCodecError::UnsupportedSymbol { field: "by", symbol: "ledger/month".to_owned() }
    );
}

#[test]
fn integer_failures_follow_rust_parse_rules() {
    let cases = [
        ("", IntParseFailure::Empty),
        ("-", IntParseFailure::InvalidDigit),
        ("12a", IntParseFailure::InvalidDigit),
        ("99999999999999999999", IntParseFailure::PosOverflow),
        ("99999999999999999999x", IntParseFailure::PosOverflow),
        ("-99999999999999999999", IntParseFailure::NegOverflow),
    ];
    for (text, failure) in cases {
        let expr = Expr::Entries(vec![
            entry("kind", Expr::Symbol(ledger_symbol("balances"))),
            entry(
                "years",
                Expr::List(vec![Expr::Number(NumberLiteral { domain: ledger_symbol("integer"), canonical: text.to_owned() })]),
            ),
            entry("by", Expr::Symbol(ledger_symbol("sru"))),
        ]);
        let expected = text.parse::<i64>().unwrap_err().to_string();
        let err = balances_call_from_expr(&expr).unwrap_err();
        assert_eq!(err, LedgerCodecError::InvalidInteger { field: "years", source: failure });
        assert_eq!(err.message(), format!("invalid ledger integer in field years: {expected}"));
    }
}

#[test]
fn symbols_print_qualified() {
    assert_eq!(Symbol::qualified("ledger", "sru").as_qualified_str(), "ledger/sru");
    assert_eq!(Symbol::new("kind").as_qualified_str(), "kind");
}
