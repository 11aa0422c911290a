use sim_ledger::cookbook::{balanced_year_demo, CookbookAccountBalance};

#[test]
fn balanced_year_demo_checks_double_entry_and_balances() {
    let demo = balanced_year_demo();

    assert_eq!(demo.year, 2024);
    assert_eq!(demo.account_count, 2);
    assert_eq!(demo.voucher_count, 1);
    assert_eq!(demo.posting_count, 2);
    assert!(demo.balanced);
    assert_eq!(
        demo.balances,
        vec![
            CookbookAccountBalance {
                account: 1910,
                name: "Bank".to_owned(),
                balance: "125.00".to_owned(),
            },
            CookbookAccountBalance {
                account: 3010,
                name: "Sales".to_owned(),
                balance: "-125.00".to_owned(),
            },
        ]
    );
}
