use ecogrid::chance::{survival_threshold, trial, trial_any_of, SCALE};
use ecogrid::random::{draw_chance, PRng};
use rand::SeedableRng;
use ecogrid::util::time_ns;

#[test]
fn survival_of_no_trial_is_one_whole() {
    assert_eq!(survival_threshold(0, 0), SCALE);
    assert_eq!(survival_threshold(400_000, 0), SCALE);
    assert_eq!(survival_threshold(SCALE, 0), SCALE);
}

#[test]
fn survival_is_the_power_of_the_complement() {
    assert_eq!(survival_threshold(500_000, 1), 500_000);
    assert_eq!(survival_threshold(500_000, 2), 250_000);
    assert_eq!(survival_threshold(500_000, 3), 125_000);
    assert_eq!(survival_threshold(300_000, 3), 343_000);
}

#[test]
fn survival_rounds_down_after_each_factor() {
    assert_eq!(survival_threshold(999_999, 1), 1);
    assert_eq!(survival_threshold(999_999, 2), 0);
    assert_eq!(survival_threshold(333_333, 2), 444_444);
    assert_eq!(survival_threshold(100_000, 8), 430_466);
}

#[test]
fn survival_at_the_extremes() {
    assert_eq!(survival_threshold(0, 8), SCALE);
    assert_eq!(survival_threshold(SCALE, 1), 0);
    assert_eq!(survival_threshold(SCALE, 5), 0);
}

#[test]
fn a_single_trial_compares_the_draw_with_the_rate() {
    assert!(trial(0, 1));
    assert!(!trial(0, 0));
    assert!(trial(499_999, 500_000));
    assert!(!trial(500_000, 500_000));
    assert!(trial(999_999, SCALE));
}

#[test]
fn a_repeated_trial_compares_the_draw_with_the_survival() {
    assert!(!trial_any_of(249_999, 500_000, 2));
    assert!(trial_any_of(250_000, 500_000, 2));
    assert!(!trial_any_of(999_999, 500_000, 0));
    assert!(trial_any_of(0, SCALE, 1));
    assert!(!trial_any_of(999_999, 0, 4));
}

#[test]
fn draws_stay_below_one_whole_and_vary() {
    let mut rng = PRng::seed_from_u64(1);
    let mut seen = Vec::new();
    for _ in 0..200 {
        let r = draw_chance(&mut rng);
        assert!(r < SCALE);
        if !seen.contains(&r) {
            seen.push(r);
        }
    }
    assert!(seen.len() > 150);
}

#[test]
fn equal_seeds_give_equal_draws() {
    let mut a = PRng::seed_from_u64(42);
    let mut b = PRng::seed_from_u64(42);
    let mut c = PRng::seed_from_u64(43);
    let mut differs = false;
    for _ in 0..50 {
        let x = draw_chance(&mut a);
        assert_eq!(x, draw_chance(&mut b));
        if x != draw_chance(&mut c) {
            differs = true;
        }
    }
    assert!(differs);
}

#[test]
fn the_clock_is_past_the_epoch() {
    assert!(time_ns() > 1_000_000_000_000_000_000);
}
