use restaurant_sim::statistic::{
    chi_squared_freedom, interval_freedom, kolmogorov_smirnov_applies,
};

#[test]
fn chi_squared_needs_more_than_three_bins() {
    assert_eq!(chi_squared_freedom(0), None);
    assert_eq!(chi_squared_freedom(2), None);
    assert_eq!(chi_squared_freedom(3), None);
    assert_eq!(chi_squared_freedom(4), Some(1));
    assert_eq!(chi_squared_freedom(10), Some(7));
}

#[test]
fn kolmogorov_smirnov_needs_more_than_forty_observations() {
    assert!(!kolmogorov_smirnov_applies(0));
    assert!(!kolmogorov_smirnov_applies(39));
    assert!(!kolmogorov_smirnov_applies(40));
    assert!(kolmogorov_smirnov_applies(41));
    assert!(kolmogorov_smirnov_applies(10_000));
}

#[test]
fn an_interval_needs_two_observations() {
    assert_eq!(interval_freedom(0), None);
    assert_eq!(interval_freedom(1), None);
    assert_eq!(interval_freedom(2), Some(1));
    assert_eq!(interval_freedom(100), Some(99));
}
