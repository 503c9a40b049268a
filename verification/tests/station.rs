use avt_replenishment::station::count_columns;

#[test]
fn fixed_columns_protect_currency_and_rates() {
    for site in ["US", "CA", "JP"] {
        for c in [0, 1, 2, 5, 6, 9, 10, 11, 12, 15, 16, 17, 18] {
            assert!(!count_columns(site).contains(&c));
        }
    }
    for site in ["UK", "EU"] {
        for c in [0, 1, 2, 4, 6, 7, 10, 11, 12] {
            assert!(!count_columns(site).contains(&c));
        }
    }
}
