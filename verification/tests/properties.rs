use cordic::{precompute, sincos, sincos_faster, MAX_N, SCALE};

fn to_fixed(theta: f64) -> i64 {
    (theta * 1e18).round() as i64
}

fn to_float(v: i64) -> f64 {
    v as f64 / 1e18
}

// A fixed spread of angles strictly inside a quarter turn either way.
fn sample_angles() -> Vec<f64> {
    let mut angles = Vec::new();
    let mut k = -499i32;
    while k < 500 {
        angles.push(k as f64 / 500.0 * std::f64::consts::FRAC_PI_2);
        k += 1;
    }
    angles
}

#[test]
fn thirty_steps_reach_one_millionth() {
    let tables = precompute();
    for theta in sample_angles() {
        for n in [30usize, 31, 40, 54, 64] {
            let (sin, cos, _) = sincos(&tables, to_fixed(theta), n).unwrap();
            assert!((to_float(sin) - theta.sin()).abs() < 1e-6, "sin({theta}) by {n} steps");
            assert!((to_float(cos) - theta.cos()).abs() < 1e-6, "cos({theta}) by {n} steps");
        }
    }
}

#[test]
fn squares_sum_to_one() {
    let tables = precompute();
    for theta in sample_angles() {
        for n in 1..=MAX_N {
            let (sin, cos, _) = sincos(&tables, to_fixed(theta), n).unwrap();
            let (s, c) = (to_float(sin), to_float(cos));
            assert!((s * s + c * c - 1.0).abs() < 1e-9, "angle {theta}, {n} steps");
        }
    }
}

#[test]
fn squares_sum_to_one_within_the_stated_tolerance() {
    let tables = precompute();
    let one = SCALE as i128 * SCALE as i128;
    let tolerance = 1500 * SCALE as i128;
    let mut theta = i64::MIN;
    loop {
        for n in 1..=MAX_N {
            let (sin, cos, _) = sincos(&tables, theta, n).unwrap();
            let sum = sin as i128 * sin as i128 + cos as i128 * cos as i128;
            assert!((sum - one).abs() <= tolerance, "angle {theta}, {n} steps");
        }
        match theta.checked_add(37_000_000_000_000_000) {
            Some(next) => theta = next,
            None => break,
        }
    }
}

#[test]
fn both_entry_points_agree() {
    let tables = precompute();
    for theta in sample_angles() {
        for n in 1..=MAX_N {
            let (sin, cos, _) = sincos(&tables, to_fixed(theta), n).unwrap();
            assert_eq!(sincos_faster(&tables, to_fixed(theta), n), (sin, cos));
        }
    }
}

#[test]
fn mean_error_falls_as_the_budget_grows() {
    let tables = precompute();
    let angles = sample_angles();
    let mut previous = f64::INFINITY;
    for n in [1usize, 2, 4, 8, 12, 16, 20, 24, 28, 32, 40, 48] {
        let mut total = 0.0;
        for &theta in &angles {
            let (sin, cos, _) = sincos(&tables, to_fixed(theta), n).unwrap();
            total += (to_float(sin) - theta.sin()).abs() + (to_float(cos) - theta.cos()).abs();
        }
        let mean = total / (2 * angles.len()) as f64;
        assert!(mean <= previous, "mean error {mean} by {n} steps, {previous} before");
        previous = mean;
    }
    assert!(previous < 1e-12);
}

#[test]
fn step_count_never_exceeds_the_budget() {
    let tables = precompute();
    for theta in sample_angles() {
        for n in 1..=MAX_N {
            let (_, _, steps) = sincos(&tables, to_fixed(theta), n).unwrap();
            assert!(steps <= n);
            assert!(steps >= 1 || to_fixed(theta) == 0);
        }
    }
}

#[test]
fn sine_is_odd_and_cosine_even_to_a_few_units() {
    let tables = precompute();
    for theta in sample_angles() {
        let (sin, cos, _) = sincos(&tables, to_fixed(theta), 64).unwrap();
        let (sin_neg, cos_neg, _) = sincos(&tables, -to_fixed(theta), 64).unwrap();
        assert!((sin + sin_neg).abs() <= 200);
        assert!((cos - cos_neg).abs() <= 200);
    }
}

#[test]
fn results_never_exceed_one_by_more_than_a_few_hundred_units() {
    let tables = precompute();
    let mut theta = i64::MIN;
    loop {
        for n in 1..=MAX_N {
            let (sin, cos, _) = sincos(&tables, theta, n).unwrap();
            assert!(sin.abs() <= SCALE + 750 && cos.abs() <= SCALE + 750);
        }
        match theta.checked_add(41_000_000_000_000_000) {
            Some(next) => theta = next,
            None => break,
        }
    }
}
