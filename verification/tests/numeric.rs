//! Checks of the numeric helpers and the fixed-point response curve.
use neat::params::{SCALE, HALF};
use neat::phenotype::sigmoid;
use neat::utils::{sqrt_usize, random_usize, random_int, random_unit, random_clamped, clamp};

#[test]
fn sqrt_usize_gives_the_floor_root() {
    assert_eq!(sqrt_usize(&0), 0);
    assert_eq!(sqrt_usize(&1), 1);
    assert_eq!(sqrt_usize(&3), 1);
    assert_eq!(sqrt_usize(&4), 2);
    assert_eq!(sqrt_usize(&8), 2);
    assert_eq!(sqrt_usize(&9), 3);
    assert_eq!(sqrt_usize(&1048576), 1024);
    assert_eq!(sqrt_usize(&(usize::MAX)), 4294967295);
}

#[test]
fn sigmoid_is_half_at_zero() {
    assert_eq!(sigmoid(0, SCALE), HALF);
}

#[test]
fn sigmoid_value_at_one() {
    // net input 1.0 with response 1.0: 1/2 + 1/(2*(1+1)) = 3/4
    let one = (SCALE as i128) * (SCALE as i128);
    assert_eq!(sigmoid(one, SCALE), HALF + SCALE / 4);
}

#[test]
fn sigmoid_is_symmetric_and_bounded() {
    let x = 3 * (SCALE as i128) * (SCALE as i128);
    let hi = sigmoid(x, SCALE);
    let lo = sigmoid(-x, SCALE);
    assert!(hi > HALF && hi < SCALE);
    assert!(lo < HALF && lo > 0);
    assert_eq!(hi - HALF, HALF - lo);
}

#[test]
fn sigmoid_response_flattens_the_curve() {
    let x = (SCALE as i128) * (SCALE as i128);
    let steep = sigmoid(x, SCALE / 4);
    let flat = sigmoid(x, 4 * SCALE);
    assert!(steep > flat);
}

#[test]
fn random_draws_stay_in_their_ranges() {
    for _ in 0..200 {
        let u = random_usize(3, 9);
        assert!(u >= 3 && u <= 9);
        let i = random_int(-5, 5);
        assert!(i >= -5 && i <= 5);
        let p = random_unit();
        assert!(p >= 0 && p < SCALE);
        let c = random_clamped();
        assert!(c > -SCALE && c < SCALE);
    }
    assert_eq!(random_usize(7, 3), 7);
    assert_eq!(random_int(4, 2), 4);
}

#[test]
fn random_unit_is_not_constant() {
    // a draw that ignored its range would fail one of these almost surely
    let mut seen_low = false;
    let mut seen_high = false;
    for _ in 0..10000 {
        let p = random_unit();
        if p < HALF {
            seen_low = true;
        } else {
            seen_high = true;
        }
    }
    assert!(seen_low && seen_high);
}

#[test]
fn clamp_pins_values_to_the_interval() {
    let mut a = 10;
    clamp(&mut a, 0, 5);
    assert_eq!(a, 5);
    let mut b = -10;
    clamp(&mut b, 0, 5);
    assert_eq!(b, 0);
    let mut c = 3;
    clamp(&mut c, 0, 5);
    assert_eq!(c, 3);
}
