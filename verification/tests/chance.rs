use restaurant_sim::chance::{draw, happens, Demand, Supply};
use restaurant_sim::config::Ratio;

#[test]
fn nothing_is_drawn_where_nothing_is_asked() {
    assert_eq!(draw(Demand::Nothing), Supply::Nothing);
}

#[test]
fn ticks_are_drawn_from_the_range_asked_for() {
    let mut seen = [false; 5];
    for _ in 0..2000 {
        match draw(Demand::Ticks(10, 15)) {
            Supply::Ticks(ticks) => {
                assert!((10..15).contains(&ticks));
                seen[(ticks - 10) as usize] = true;
            }
            other => panic!("unexpected supply {other:?}"),
        }
    }
    assert_eq!(seen, [true; 5]);
}

#[test]
fn a_range_of_one_tick_leaves_no_choice() {
    for _ in 0..50 {
        assert_eq!(draw(Demand::Ticks(7, 8)), Supply::Ticks(7));
        assert_eq!(draw(Demand::Ticks(u32::MAX - 1, u32::MAX)), Supply::Ticks(u32::MAX - 1));
    }
}

#[test]
fn a_client_orders_again_now_and_then() {
    let mut again = 0;
    let mut left = 0;
    for _ in 0..2000 {
        match draw(Demand::Encore) {
            Supply::Encore(Some(wait)) => {
                assert!((1..3).contains(&wait));
                again += 1;
            }
            Supply::Encore(None) => left += 1,
            other => panic!("unexpected supply {other:?}"),
        }
    }
    assert!(again > 0);
    assert!(left > again);
}

#[test]
fn what_is_impossible_never_happens() {
    for _ in 0..1000 {
        assert!(!happens(Ratio { numerator: 0, denominator: 1 }));
        assert!(!happens(Ratio { numerator: 0, denominator: 100 }));
    }
}

#[test]
fn what_is_certain_always_happens() {
    for _ in 0..1000 {
        assert!(happens(Ratio { numerator: 1, denominator: 1 }));
        assert!(happens(Ratio { numerator: 100, denominator: 100 }));
    }
}

#[test]
fn an_even_chance_goes_both_ways() {
    let mut hits = 0;
    for _ in 0..1000 {
        if happens(Ratio { numerator: 1, denominator: 2 }) {
            hits += 1;
        }
    }
    assert!(hits > 300 && hits < 700);
}
