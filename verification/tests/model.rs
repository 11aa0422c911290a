use sim_ledger::model::{
    is_balanced, is_voucher_balanced, voucher_balance_violations, Amount, BalanceError, Posting,
    Voucher, VoucherBalanceViolation,
};

fn posting(amount: i64) -> Posting {
    posting_for(1, amount)
}

fn posting_for(voucher_id: i64, amount: i64) -> Posting {
    Posting {
        id: amount,
        source_id: None,
        voucher_id,
        account: 1910,
        amount: Amount(amount),
        text: None,
    }
}

fn voucher(id: i64) -> Voucher {
    Voucher {
        id,
        source_id: None,
        date: "2026-01-01".to_owned(),
        text: None,
    }
}

#[test]
fn parses_fixed_decimal_amounts() {
    assert_eq!(Amount::parse("1234.56").unwrap().0, 123_456);
    assert_eq!(Amount::parse("-7.00").unwrap().0, -700);
    assert_eq!(Amount::parse("42").unwrap().0, 4_200);
}

#[test]
fn rejects_too_many_fraction_digits() {
    assert!(Amount::parse("1.234").is_err());
}

#[test]
fn formats_amounts_for_round_trip() {
    for text in ["0.00", "1234.56", "-7.00", "42.10"] {
        let amount = Amount::parse(text).unwrap();
        assert_eq!(amount.to_decimal_string(), text);
        assert_eq!(Amount::parse(&amount.to_decimal_string()).unwrap(), amount);
        assert_eq!(amount.to_decimal_string(), text);
    }
}

#[test]
fn checks_double_entry_balance() {
    let balanced = vec![posting(100), posting(-100)];
    let unbalanced = vec![posting(100), posting(-99)];

    assert!(is_balanced(&balanced));
    assert!(!is_balanced(&unbalanced));
}

#[test]
fn reports_voucher_balance_violations() {
    let vouchers = vec![voucher(1), voucher(2), voucher(3)];
    let postings = vec![posting_for(1, 100), posting_for(1, -100), posting_for(2, 7)];

    let violations = voucher_balance_violations(&vouchers, &postings).unwrap();

    assert_eq!(
        violations,
        vec![
            VoucherBalanceViolation {
                voucher_id: 2,
                posting_count: 1,
                minor_sum: 7,
            },
            VoucherBalanceViolation {
                voucher_id: 3,
                posting_count: 0,
                minor_sum: 0,
            },
        ]
    );
    assert!(is_voucher_balanced(1, &postings).unwrap());
    assert!(!is_voucher_balanced(2, &postings).unwrap());
    assert!(!is_voucher_balanced(3, &postings).unwrap());
}

#[test]
fn voucher_balance_detects_minor_unit_overflow() {
    let vouchers = vec![voucher(1)];
    let postings = vec![posting_for(1, i64::MAX), posting_for(1, 1)];

    let err = voucher_balance_violations(&vouchers, &postings).unwrap_err();

    assert_eq!(err, BalanceError::SumOverflow { voucher_id: 1 });
}

#[test]
fn amount_parse_reports_each_malformed_shape() {
    assert_eq!(Amount::parse("").unwrap_err(), "amount is empty");
    assert!(Amount::parse("-").is_err());
    assert!(Amount::parse("1.2.3").is_err());
    assert!(Amount::parse("12a").is_err());
    assert_eq!(Amount::parse("0.5").unwrap().0, 50);
    assert_eq!(Amount::parse("-0.05").unwrap().0, -5);
}

#[test]
fn amount_text_round_trips_at_the_extremes() {
    for minor in [i64::MAX, i64::MIN + 1, 0, -1, 1, 99, -100] {
        let text = Amount(minor).to_decimal_string();
        assert_eq!(Amount::parse(&text).unwrap(), Amount(minor));
    }
    assert_eq!(Amount(-5).to_decimal_string(), "-0.05");
    assert_eq!(Amount(123_456).to_decimal_string(), "1234.56");
}

#[test]
fn empty_posting_set_is_balanced() {
    assert!(is_balanced(&[]));
    assert!(!is_voucher_balanced(9, &[]).unwrap());
}

#[test]
fn fraction_length_counts_bytes() {
    assert_eq!(Amount::parse("1.éé").unwrap_err(), "amount has more than two fractional digits");
    assert_eq!(Amount::parse("1.é").unwrap_err(), "amount fractional part must contain digits only");
    assert_eq!(Amount::parse("1.x").unwrap_err(), "amount fractional part must contain digits only");
}
