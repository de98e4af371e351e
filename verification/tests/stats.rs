use cordic::stats::{
    angle_from_bits, random_angle, step_distribution, tally_steps, StepCounts, HALF_PI, PI,
};
use cordic::{precompute, BudgetError, MAX_N};

#[test]
fn bits_map_onto_the_half_turn() {
    assert_eq!(PI, 3_141_592_653_589_793_238);
    assert_eq!(HALF_PI, 1_570_796_326_794_896_619);
    assert_eq!(angle_from_bits(0), -HALF_PI);
    assert_eq!(angle_from_bits(2047), -HALF_PI);
    assert_eq!(angle_from_bits(2048), -1_570_796_326_794_896_271);
    assert_eq!(angle_from_bits(1 << 63), 0);
    assert_eq!(angle_from_bits(u64::MAX), 1_570_796_326_794_896_270);
    assert_eq!(angle_from_bits(0x1234_5678_9abc_def0), -1_347_394_182_539_622_739);
}

#[test]
fn random_angles_stay_within_a_quarter_turn() {
    let mut distinct = false;
    let first = random_angle();
    for _ in 0..1000 {
        let theta = random_angle();
        assert!(-HALF_PI <= theta && theta < HALF_PI);
        distinct = distinct || theta != first;
    }
    assert!(distinct);
}

#[test]
fn step_counts_add_up_to_the_trials() {
    let tables = precompute();
    for n in [1usize, 2, 10, 54, MAX_N] {
        let stats = step_distribution(&tables, 500, n).unwrap();
        assert_eq!(stats.counts.len(), n + 1);
        assert_eq!(stats.counts.iter().sum::<u64>(), 500);
        let weighted: u128 = stats
            .counts
            .iter()
            .enumerate()
            .map(|(k, &count)| k as u128 * count as u128)
            .sum();
        assert_eq!(stats.total, weighted);
        assert!(stats.total <= 500 * n as u128);
    }
}

#[test]
fn no_trials_give_empty_counts() {
    let tables = precompute();
    let stats = step_distribution(&tables, 0, 5).unwrap();
    assert_eq!(stats.counts, vec![0, 0, 0, 0, 0, 0]);
    assert_eq!(stats.total, 0);
}

#[test]
fn a_single_step_budget_is_always_spent() {
    let tables = precompute();
    let stats = step_distribution(&tables, 200, 1).unwrap();
    assert_eq!(stats.counts[0] + stats.counts[1], 200);
    assert_eq!(stats.total, stats.counts[1] as u128);
}

#[test]
fn step_distribution_validates_the_budget() {
    let tables = precompute();
    assert_eq!(step_distribution(&tables, 10, 0).unwrap_err(), BudgetError::Zero);
    assert_eq!(step_distribution(&tables, 10, MAX_N + 1).unwrap_err(), BudgetError::TooLarge);
}

#[test]
fn new_counts_are_all_zero() {
    let counts = StepCounts::new(3);
    assert_eq!(counts.counts, vec![0, 0, 0, 0]);
    assert_eq!(counts.total, 0);
    let counts = StepCounts::new(0);
    assert_eq!(counts.counts, vec![0]);
}

#[test]
fn recording_counts_each_trial_once() {
    let mut counts = StepCounts::new(5);
    for steps in [0usize, 3, 3, 5] {
        counts.record(steps);
    }
    assert_eq!(counts.counts, vec![1, 0, 0, 2, 0, 1]);
    assert_eq!(counts.total, 11);
    counts.record(1);
    assert_eq!(counts.counts, vec![1, 1, 0, 2, 0, 1]);
    assert_eq!(counts.total, 12);
}

#[test]
fn tally_counts_each_angle_under_its_steps() {
    let tables = precompute();
    let angles = vec![
        0,
        100_000_000_000_000_000,
        -100_000_000_000_000_000,
        785_398_163_397_448_310,
        1_369_669_440_978_357_145,
        504_793_032_972_702_261,
        -379_955_412_980_787_564,
        0,
    ];
    let five = tally_steps(&tables, &angles, 5).unwrap();
    assert_eq!(five.counts, vec![2, 0, 0, 0, 1, 5]);
    assert_eq!(five.total, 29);
    let three = tally_steps(&tables, &angles, 3).unwrap();
    assert_eq!(three.counts, vec![2, 0, 0, 6]);
    assert_eq!(three.total, 18);
    let one = tally_steps(&tables, &angles, 1).unwrap();
    assert_eq!(one.counts, vec![2, 6]);
    assert_eq!(one.total, 6);
}

#[test]
fn tally_of_no_angles_is_empty() {
    let tables = precompute();
    let none = tally_steps(&tables, &Vec::new(), 4).unwrap();
    assert_eq!(none.counts, vec![0, 0, 0, 0, 0]);
    assert_eq!(none.total, 0);
}

#[test]
fn tally_validates_the_budget() {
    let tables = precompute();
    let angles = vec![1, 2, 3];
    assert_eq!(tally_steps(&tables, &angles, 0).unwrap_err(), BudgetError::Zero);
    assert_eq!(tally_steps(&tables, &angles, MAX_N + 1).unwrap_err(), BudgetError::TooLarge);
}

#[test]
fn drawn_angles_never_take_no_step_unless_zero() {
    let tables = precompute();
    let stats = step_distribution(&tables, 300, 20).unwrap();
    // Only the angle zero takes no step, and one draw in 2^53 gives it.
    assert_eq!(stats.counts[0], 0);
}
