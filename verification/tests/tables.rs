use cordic::{precompute, ANGLE_PARTS, ANGLE_TABLE, GAIN_TABLE, MAX_N, SCALE};

#[test]
fn tables_have_sixty_four_entries() {
    let tables = precompute();
    assert_eq!(MAX_N, 64);
    for i in 0..MAX_N {
        assert!(tables.angle(i).is_some());
        assert!(tables.gain(i).is_some());
    }
    assert_eq!(tables.angle(MAX_N), None);
    assert_eq!(tables.gain(MAX_N), None);
    assert_eq!(tables.angle(usize::MAX), None);
    assert_eq!(tables.gain(usize::MAX), None);
}

#[test]
fn first_and_last_entries() {
    let tables = precompute();
    assert_eq!(SCALE, 1_000_000_000_000_000_000);
    assert_eq!(ANGLE_PARTS, 16);
    assert_eq!(tables.angle(0), Some(12_566_370_614_359_172_954));
    assert_eq!(tables.angle(1), Some(7_418_361_744_012_897_860));
    assert_eq!(tables.angle(62), Some(4));
    assert_eq!(tables.angle(63), Some(2));
    assert_eq!(tables.gain(0), Some(707_106_781_186_547_524));
    assert_eq!(tables.gain(1), Some(632_455_532_033_675_866));
    assert_eq!(tables.gain(63), Some(607_252_935_008_881_256));
}

#[test]
fn angles_are_arctangents_of_powers_of_two() {
    let tables = precompute();
    for i in 0..MAX_N {
        let entry = tables.angle(i).unwrap();
        let exact = 2f64.powi(-(i as i32)).atan() * 1e18 * ANGLE_PARTS as f64;
        assert!((entry as f64 - exact).abs() <= 1.0 + exact * 1e-15, "entry {i}");
    }
}

#[test]
fn gains_are_products_of_cosines() {
    let tables = precompute();
    let mut product = 1.0f64;
    for i in 0..MAX_N {
        product /= (2f64.powi(-2 * i as i32) + 1.0).sqrt();
        let entry = tables.gain(i).unwrap();
        assert!((entry as f64 - product * 1e18).abs() <= 1e3, "entry {i}");
    }
}

#[test]
fn angles_fall_strictly_and_each_is_at_most_twice_the_next() {
    let tables = precompute();
    for i in 0..MAX_N - 1 {
        let (a, b) = (tables.angle(i).unwrap(), tables.angle(i + 1).unwrap());
        assert!(b > 0);
        assert!(a > b);
        assert!(a <= 2 * b);
    }
}

#[test]
fn gains_never_rise() {
    let tables = precompute();
    for i in 0..MAX_N - 1 {
        assert!(tables.gain(i).unwrap() >= tables.gain(i + 1).unwrap());
    }
}

#[test]
fn precompute_holds_the_two_tables() {
    let tables = precompute();
    assert_eq!(ANGLE_TABLE.len(), MAX_N);
    assert_eq!(GAIN_TABLE.len(), MAX_N);
    for i in 0..MAX_N {
        assert_eq!(tables.angle(i), Some(ANGLE_TABLE[i]));
        assert_eq!(tables.gain(i), Some(GAIN_TABLE[i]));
    }
}

#[test]
fn gains_shrink_by_the_stretch_of_each_rotation() {
    let mut before = SCALE as f64;
    for i in 0..MAX_N {
        let after = GAIN_TABLE[i] as f64;
        let stretch = 1.0 + 4f64.powi(-(i as i32));
        assert!((after * after * stretch / (before * before) - 1.0).abs() < 1e-15, "entry {i}");
        before = after;
    }
}

#[test]
fn all_angles_together_stay_below_two_radians() {
    let sum: i128 = ANGLE_TABLE.iter().sum();
    assert_eq!(sum, 27_892_585_927_557_440_083);
    assert!(sum <= 2 * SCALE as i128 * ANGLE_PARTS);
}
