use sim_ledger::calendar::{format_date, parse_date};

#[test]
fn dates_format_with_padded_fields() {
    assert_eq!(format_date(2024, 2, 9), "2024-02-09");
    assert_eq!(format_date(987, 12, 31), "0987-12-31");
    assert_eq!(format_date(-12, 1, 1), "-012-01-01");
    assert_eq!(format_date(12345, 6, 7), "12345-06-07");
}

#[test]
fn formatted_dates_read_back() {
    for (y, m, d) in [(2024, 2, 29), (0, 1, 1), (9999, 12, 31), (987, 3, 4)] {
        assert_eq!(parse_date(&format_date(y, m, d)), Some((y, m, d)));
    }
    assert_eq!(parse_date("2024-1-5"), Some((2024, 1, 5)));
    assert_eq!(parse_date("+2024-01-05"), Some((2024, 1, 5)));
    assert_eq!(parse_date("2024-01"), None);
    assert_eq!(parse_date("2024-01-05-1"), None);
    assert_eq!(parse_date("2024-x-05"), None);
    assert_eq!(parse_date(&format_date(-12, 1, 1)), None);
}
