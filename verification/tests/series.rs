use restaurant_sim::series::{Series, SCALE};

fn series_of(samples: &[u32]) -> Series {
    let mut series = Series::new();
    for sample in samples {
        series.push(*sample);
    }
    series
}

#[test]
fn the_unit_is_a_millionth() {
    assert_eq!(SCALE, 1_000_000);
}

#[test]
fn the_mean_of_no_samples_is_zero() {
    assert_eq!(Series::new().mean(), 0);
    assert_eq!(Series::new().len(), 0);
}

#[test]
fn the_mean_is_in_fixed_point_and_rounded_down() {
    assert_eq!(series_of(&[4]).mean(), 4_000_000);
    assert_eq!(series_of(&[1, 2]).mean(), 1_500_000);
    assert_eq!(series_of(&[1, 1, 2]).mean(), 1_333_333);
    assert_eq!(series_of(&[0, 0, 0, 0, 0, 0, 1]).mean(), 142_857);
    assert_eq!(series_of(&[2, 2, 1]).mean(), 1_666_666);
}

#[test]
fn the_largest_samples_do_not_overflow() {
    let series = series_of(&[u32::MAX; 64]);
    assert_eq!(series.mean(), u32::MAX as u64 * SCALE);
}

#[test]
fn samples_are_kept_in_order_and_can_be_dropped() {
    let mut series = series_of(&[3, 1, 2]);
    assert_eq!(series.samples(), &vec![3, 1, 2]);
    assert_eq!(series.len(), 3);
    series.clear();
    assert_eq!(series.len(), 0);
    assert_eq!(series.mean(), 0);
    series.push(8);
    assert_eq!(series.mean(), 8 * SCALE);
}
