use restaurant_sim::histogram::find_best_bins;

#[test]
fn no_bins_for_an_empty_sample() {
    assert_eq!(find_best_bins(0), 0);
}

#[test]
fn one_bin_below_ten_observations() {
    assert_eq!(find_best_bins(1), 1);
    assert_eq!(find_best_bins(9), 1);
}

#[test]
fn bins_grow_with_the_order_of_magnitude() {
    assert_eq!(find_best_bins(10), 4);
    assert_eq!(find_best_bins(99), 4);
    assert_eq!(find_best_bins(100), 7);
    assert_eq!(find_best_bins(1_000), 10);
    assert_eq!(find_best_bins(10_000), 13);
    assert_eq!(find_best_bins(100_000), 17);
}
