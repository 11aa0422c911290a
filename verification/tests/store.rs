use sim_ledger::close::ClosingState;
use sim_ledger::store::{check_year_identity, is_closed_state, report_sources, year_leaf, StoreError};

#[test]
fn year_metadata_must_name_the_opened_year() {
    assert_eq!(check_year_identity(Some("2024"), 2024), Ok(()));
    assert_eq!(
        check_year_identity(None, 2024),
        Err(StoreError::Invalid("year metadata is absent".to_owned()))
    );
    assert_eq!(
        check_year_identity(Some("2023"), 2024),
        Err(StoreError::Invalid("year identity mismatch".to_owned()))
    );
    assert_eq!(
        check_year_identity(Some("twenty"), 2024),
        Err(StoreError::Invalid("year identity mismatch".to_owned()))
    );
    assert_eq!(check_year_identity(Some("+2024"), 2024), Ok(()));
}

#[test]
fn only_a_closed_year_refuses_mutation() {
    assert!(is_closed_state(Some(ClosingState::Closed.as_str())));
    assert!(!is_closed_state(Some(ClosingState::Open.as_str())));
    assert!(!is_closed_state(Some(ClosingState::Review.as_str())));
    assert!(!is_closed_state(None));
    assert!(!is_closed_state(Some("CLOSED")));
}

#[test]
fn report_sources_name_the_first_year_main() {
    assert_eq!(
        report_sources(&[2024, 2022, 2025]),
        vec![
            ("main".to_owned(), "year-2024.sqlite".to_owned()),
            ("year_2022".to_owned(), "year-2022.sqlite".to_owned()),
            ("year_2025".to_owned(), "year-2025.sqlite".to_owned()),
        ]
    );
    assert!(report_sources(&[]).is_empty());
    assert_eq!(year_leaf(2022), "year-2022.sqlite");
}

#[test]
fn store_error_messages() {
    assert_eq!(StoreError::AlreadyExists.message(), "ledger content already exists");
    assert_eq!(StoreError::Malformed("x".to_owned()).message(), "malformed ledger content: x");
    assert_eq!(StoreError::Mount("gone".to_owned()).message(), "ledger mount failure: gone");
}
