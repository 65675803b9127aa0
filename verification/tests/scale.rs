use pixel_shuffle::bignat::BigNat;
use pixel_shuffle::renderer::{change_speed, change_step, ALL_SLEEPS_PER_LOOP};
use pixel_shuffle::utils::lerp;

#[test]
fn speed_at_the_entries_of_the_table() {
    assert_eq!(change_speed(0), 200_000);
    assert_eq!(change_speed(100), 0);
}

#[test]
fn speed_between_the_entries_of_the_table() {
    assert_eq!(change_speed(1), 197_750);
    assert_eq!(change_speed(11), 175_250);
    assert_eq!(change_speed(12), 165_000);
    assert_eq!(change_speed(50), 1500);
    assert_eq!(change_speed(66), 68);
    assert_eq!(change_speed(99), 1);
}

#[test]
fn speed_rounds_a_half_upward() {
    assert_eq!(change_speed(85), 14);
    assert_eq!(change_speed(95), 5);
}

#[test]
fn speed_never_grows_with_the_percentage() {
    let mut before = change_speed(0);
    for percentage in 1..=100 {
        let sleep = change_speed(percentage);
        assert!(sleep <= before, "at {}", percentage);
        before = sleep;
    }
}

#[test]
fn lerp_of_the_sleeps_table_is_the_speed() {
    for percentage in 0..=100 {
        assert_eq!(lerp(ALL_SLEEPS_PER_LOOP, percentage), change_speed(percentage));
    }
}

#[test]
fn lerp_in_small_tables() {
    assert_eq!(lerp([7], 0), 7);
    assert_eq!(lerp([7], 33), 7);
    assert_eq!(lerp([7], 100), 7);
    assert_eq!(lerp([0, 10], 0), 0);
    assert_eq!(lerp([0, 10], 5), 1);
    assert_eq!(lerp([0, 10], 50), 5);
    assert_eq!(lerp([0, 10], 100), 10);
    assert_eq!(lerp([0, 100, 0], 25), 50);
    assert_eq!(lerp([0, 100, 0], 50), 100);
    assert_eq!(lerp([0, 100, 0], 75), 50);
}

#[test]
fn lerp_rounds_to_the_nearest() {
    assert_eq!(lerp([3, 4], 49), 3);
    assert_eq!(lerp([3, 4], 50), 4);
    assert_eq!(lerp([0, 1], 50), 1);
    assert_eq!(lerp([1, 0], 50), 1);
    assert_eq!(lerp([1, 0], 51), 0);
}

#[test]
fn lerp_takes_the_largest_entries() {
    assert_eq!(lerp([u32::MAX, u32::MAX], 37), u32::MAX as u64);
    assert_eq!(lerp([0, u32::MAX], 100), u32::MAX as u64);
}

#[test]
fn step_at_the_centre_is_zero() {
    assert_eq!(change_step(50, 65536), 0);
    assert_eq!(change_step(50, 1), 0);
    assert_eq!(change_step(50, u32::MAX), 0);
}

#[test]
fn step_for_a_path_of_65536() {
    assert_eq!(change_step(0, 65536), -32768);
    assert_eq!(change_step(1, 65536), -26616);
    assert_eq!(change_step(25, 65536), -181);
    assert_eq!(change_step(49, 65536), -1);
    assert_eq!(change_step(51, 65536), 1);
    assert_eq!(change_step(52, 65536), 2);
    assert_eq!(change_step(60, 65536), 8);
    assert_eq!(change_step(75, 65536), 181);
    assert_eq!(change_step(99, 65536), 26616);
    assert_eq!(change_step(100, 65536), 32768);
}

#[test]
fn step_rounds_to_the_nearest() {
    // 6 to the power 0.98 is about 5.79, 46 to the power 0.5 about 6.78
    assert_eq!(change_step(1, 12), -6);
    assert_eq!(change_step(99, 12), 6);
    assert_eq!(change_step(75, 92), 7);
    assert_eq!(change_step(25, 92), -7);
    // 46 to the power 0.04 is about 1.17, 46 to the power 0.2 about 2.15
    assert_eq!(change_step(52, 92), 1);
    assert_eq!(change_step(60, 92), 2);
    assert_eq!(change_step(60, 2_073_600), 16);
    assert_eq!(change_step(1, 2_073_600), -785_925);
}

#[test]
fn step_rounds_a_half_upward() {
    // half of an odd length ends in a half
    assert_eq!(change_step(100, 3), 2);
    assert_eq!(change_step(0, 3), -2);
    assert_eq!(change_step(100, 5), 3);
    assert_eq!(change_step(100, 7), 4);
    assert_eq!(change_step(99, 7), 3);
}

#[test]
fn step_at_the_ends_is_half_the_path() {
    assert_eq!(change_step(100, 92), 46);
    assert_eq!(change_step(0, 92), -46);
    assert_eq!(change_step(100, 2), 1);
    assert_eq!(change_step(100, 2_073_600), 1_036_800);
}

#[test]
fn step_for_short_paths() {
    for percentage in 0..=100 {
        assert_eq!(change_step(percentage, 1), 0);
        assert_eq!(change_step(percentage, 0), 0);
    }
    for percentage in 0..50 {
        assert_eq!(change_step(percentage, 2), -1);
    }
    for percentage in 51..=100 {
        assert_eq!(change_step(percentage, 2), 1);
    }
    let quarters: Vec<i32> = (0..=10).map(|tenth| change_step(10 * tenth, 4)).collect();
    assert_eq!(quarters, vec![-2, -2, -2, -1, -1, 0, 1, 1, 2, 2, 2]);
}

#[test]
fn step_for_the_longest_paths() {
    assert_eq!(change_step(100, u32::MAX - 1), 2_147_483_647);
    assert_eq!(change_step(0, u32::MAX - 1), -2_147_483_647);
    assert_eq!(change_step(0, u32::MAX), i32::MIN);
    assert_eq!(change_step(99, u32::MAX), 1_397_305_177);
    assert_eq!(change_step(75, u32::MAX), 46_341);
    assert_eq!(change_step(60, u32::MAX), 74);
    assert_eq!(change_step(51, u32::MAX), 2);
}

#[test]
fn step_is_always_shorter_than_the_path() {
    for path_len in [1u32, 2, 3, 4, 5, 7, 100, 65536, 1_000_003] {
        for percentage in 0..=100 {
            let steps = change_step(percentage, path_len);
            assert!(steps.unsigned_abs() < path_len);
            assert!(2 * steps.unsigned_abs() <= path_len + 1);
            if steps != 0 {
                assert_eq!(steps.signum(), (percentage as i32 - 50).signum());
            }
        }
    }
}

#[test]
fn step_never_shrinks_away_from_the_centre() {
    for path_len in [2u32, 9, 640 * 480] {
        let mut before = 0;
        for percentage in 50..=100 {
            let steps = change_step(percentage, path_len);
            assert!(steps >= before);
            assert_eq!(change_step(100 - percentage, path_len), -steps);
            before = steps;
        }
    }
}

#[test]
fn big_numbers_multiply() {
    let n = BigNat::one().times(1000).times(1000).times(1000).times(1000);
    assert_eq!(n.limbs[0], 0xd4a5_1000);
    assert_eq!(n.limbs[1], 0xe8);
    assert!(n.limbs[2..].iter().all(|d| *d == 0));
}

#[test]
fn big_numbers_take_powers() {
    let n = BigNat::one().times_power(2, 100);
    assert_eq!(n.limbs[3], 16);
    assert!(n.limbs[..3].iter().all(|d| *d == 0));
    assert!(n.limbs[4..].iter().all(|d| *d == 0));
    let m = BigNat::one().times_power(7, 0);
    assert!(m.le(&BigNat::one()) && BigNat::one().le(&m));
}

#[test]
fn big_numbers_compare() {
    let a = BigNat::one().times_power(3, 70);
    let b = BigNat::one().times_power(2, 111);
    // 3^70 is a little less than 2^111
    assert!(a.le(&b));
    assert!(!b.le(&a));
    let c = BigNat::one().times_power(9, 35);
    assert!(a.le(&c) && c.le(&a));
    let zero = BigNat::one().times(0);
    assert!(zero.le(&a));
    assert!(!a.le(&zero));
    assert!(zero.le(&zero));
}
