use cordic::{precompute, sincos, sincos_faster, BudgetError, ANGLE_PARTS, MAX_N, SCALE};

fn to_fixed(theta: f64) -> i64 {
    (theta * 1e18).round() as i64
}

fn to_float(v: i64) -> f64 {
    v as f64 / 1e18
}

#[test]
fn quarter_pi_with_thirty_steps() {
    let tables = precompute();
    let theta = std::f64::consts::FRAC_PI_4;
    let (sin, cos, _) = sincos(&tables, to_fixed(theta), 30).unwrap();
    assert!((to_float(sin) - 0.70710678).abs() < 1e-6);
    assert!((to_float(cos) - 0.70710678).abs() < 1e-6);
    assert!((to_float(sin) - theta.sin()).abs() < 1e-6);
    assert!((to_float(cos) - theta.cos()).abs() < 1e-6);
}

#[test]
fn quarter_pi_in_whole_units_spends_the_budget() {
    let tables = precompute();
    assert_eq!(
        sincos(&tables, 785_398_163_397_448_310, 30),
        Ok((707_106_780_925_523_995, 707_106_781_447_571_053, 30))
    );
}

#[test]
fn zero_angle_gives_zero_and_one() {
    let tables = precompute();
    assert_eq!(sincos(&tables, 0, 10), Ok((0, SCALE, 0)));
    assert_eq!(sincos_faster(&tables, 0, 10), (0, SCALE));
    for n in 1..=MAX_N {
        assert_eq!(sincos(&tables, 0, n), Ok((0, SCALE, 0)));
    }
}

#[test]
fn small_angle_is_stable() {
    let tables = precompute();
    let theta = 0.001f64;
    let (sin, cos, steps) = sincos(&tables, to_fixed(theta), 25).unwrap();
    assert!((to_float(sin) - theta.sin()).abs() < 1e-4);
    assert!((to_float(cos) - theta.cos()).abs() < 1e-4);
    assert_eq!((sin, cos, steps), (1_000_034_973_775_086, 999_999_499_964_900_595, 25));
}

#[test]
fn one_step_is_the_single_rotation() {
    let tables = precompute();
    let g = tables.gain(0).unwrap();
    assert_eq!(g, 707_106_781_186_547_524);
    for theta in [1i64, 100_000_000_000_000_000, 1_570_796_326_794_896_619, i64::MAX] {
        assert_eq!(sincos(&tables, theta, 1), Ok((g, g, 1)));
        assert_eq!(sincos(&tables, -theta, 1), Ok((-g, g, 1)));
        assert_eq!(sincos_faster(&tables, theta, 1), (g, g));
        assert_eq!(sincos_faster(&tables, -theta, 1), (-g, g));
    }
    assert_eq!(sincos(&tables, i64::MIN, 1), Ok((-g, g, 1)));
    assert_eq!(sincos(&tables, 0, 1), Ok((0, SCALE, 0)));
}

#[test]
fn zero_budget_is_refused() {
    let tables = precompute();
    assert_eq!(sincos(&tables, 1, 0), Err(BudgetError::Zero));
    assert_eq!(sincos(&tables, 0, 0), Err(BudgetError::Zero));
}

#[test]
fn budget_beyond_the_tables_is_refused() {
    let tables = precompute();
    assert_eq!(sincos(&tables, 1, MAX_N + 1), Err(BudgetError::TooLarge));
    assert_eq!(sincos(&tables, 0, usize::MAX), Err(BudgetError::TooLarge));
    assert!(sincos(&tables, 1, MAX_N).is_ok());
    assert!(sincos(&tables, 1, 1).is_ok());
}

#[test]
fn exact_results_of_short_rotations() {
    let tables = precompute();
    assert_eq!(
        sincos(&tables, 100_000_000_000_000_000, 3),
        Ok((76_696_498_884_737_043, 997_054_485_501_581_568, 3))
    );
    assert_eq!(
        sincos(&tables, -100_000_000_000_000_000, 3),
        Ok((-76_696_498_884_737_043, 997_054_485_501_581_568, 3))
    );
    assert_eq!(
        sincos(&tables, -500_000_000_000_000_000, 10),
        Ok((-478_497_118_998_943_841, 878_089_122_532_394_529, 10))
    );
}

#[test]
fn exact_results_of_full_rotations() {
    let tables = precompute();
    assert_eq!(
        sincos(&tables, 1_234_567_890_123_456_789, 64),
        Ok((944_005_725_045_266_579, 329_929_069_773_732_662, 64))
    );
    assert_eq!(
        sincos(&tables, -1_234_567_890_123_456_789, 64),
        Ok((-944_005_725_045_266_579, 329_929_069_773_732_664, 64))
    );
    assert_eq!(sincos(&tables, 1, 64), Ok((0, 1_000_000_000_000_000_009, 64)));
    assert_eq!(sincos(&tables, -1, 64), Ok((0, 1_000_000_000_000_000_007, 64)));
}

#[test]
fn rotation_stops_when_the_angle_is_met() {
    let tables = precompute();
    // Up, up, up, down: the fourth rotation lands on a whole number of units.
    let parts = tables.angle(0).unwrap() + tables.angle(1).unwrap() + tables.angle(2).unwrap()
        - tables.angle(3).unwrap();
    assert_eq!(parts % ANGLE_PARTS, 0);
    let theta = (parts / ANGLE_PARTS) as i64;
    assert_eq!(theta, 1_369_669_440_978_357_145);
    assert_eq!(
        sincos(&tables, theta, 3),
        Ok((997_054_485_501_581_568, 76_696_498_884_737_043, 3))
    );
    let four = sincos(&tables, theta, 4).unwrap();
    assert_eq!(four, (979_842_077_958_257_802, 199_773_627_544_887_513, 4));
    assert_eq!(sincos(&tables, theta, 7), Ok(four));
    assert_eq!(sincos(&tables, theta, MAX_N), Ok(four));
    assert_eq!(sincos_faster(&tables, theta, MAX_N), (four.0, four.1));
}

#[test]
fn angles_out_of_reach_degrade_without_failing() {
    let tables = precompute();
    assert_eq!(
        sincos(&tables, 3_000_000_000_000_000_000, 5),
        Ok((993_955_887_919_025_133, -109_780_202_546_280_387, 5))
    );
    assert_eq!(
        sincos(&tables, i64::MIN, 64),
        Ok((-985_160_397_529_575_863, -171_636_217_446_575_141, 64))
    );
    assert_eq!(
        sincos(&tables, i64::MAX, 64),
        Ok((985_160_397_529_575_863, -171_636_217_446_575_106, 64))
    );
}
