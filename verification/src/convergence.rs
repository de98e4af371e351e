use vstd::prelude::*;
use crate::rotation::{lemma_rotation_steps, rotation};
use crate::tables::{
    angle_sum, angle_table, in_parts, lemma_angle_table, lemma_angles_fall, MAX_N,
};

verus! {

/// The largest angle that a budget of `n` rotations can turn to and still
/// end within the last rotation's angle of it: the sum of the `n` angles,
/// and the last of them once more.
pub open spec fn reach(n: nat) -> int
    recommends
        1 <= n <= MAX_N,
{
    angle_sum(n) + angle_table()[n - 1]
}

/// How far the angle may still be from the target after `k` of `n` rotations.
pub open spec fn slack(k: nat, n: nat) -> int
    recommends
        k <= n,
        1 <= n <= MAX_N,
{
    angle_sum(n) - angle_sum(k) + angle_table()[n - 1]
}

/// The angles that are left after `k` rotations cover twice the next one:
/// each angle is at most twice its successor.
proof fn lemma_slack_covers(k: nat, n: nat)
    requires
        k < n <= MAX_N,
    ensures
        slack(k, n) >= 2 * angle_table()[k as int],
    decreases n - k,
{
    lemma_angle_table(k as int);
    if k + 1 < n {
        lemma_slack_covers(k + 1, n);
    }
}

proof fn lemma_residual_within_slack(target: int, n: nat, k: nat)
    requires
        1 <= n <= MAX_N,
        k <= n,
        -reach(n) <= target <= reach(n),
    ensures
        -slack(rotation(target, k).steps, n) <= target - rotation(target, k).phi <= slack(
            rotation(target, k).steps,
            n,
        ),
    decreases k,
{
    lemma_rotation_steps(target, k);
    if k > 0 {
        let prev = rotation(target, (k - 1) as nat);
        lemma_residual_within_slack(target, n, (k - 1) as nat);
        lemma_rotation_steps(target, (k - 1) as nat);
        if prev.phi != target {
            lemma_angle_table(k - 1);
            if k < n {
                lemma_slack_covers(k, n);
            }
        }
    }
}

/// Every angle up to a quarter turn either way is within reach of every
/// budget.
pub proof fn lemma_quarter_turn_in_reach(n: nat)
    requires
        1 <= n <= MAX_N,
    ensures
        reach(n) >= 2 * angle_table()[0],
{
    lemma_slack_covers(0, n);
}

/// The rotations converge: for a target within reach, the angle turned
/// through ends within the last rotation's angle of the target. Each further
/// rotation of the budget halves that bound, or nearly.
pub proof fn lemma_residual(target: int, n: nat)
    requires
        1 <= n <= MAX_N,
        -reach(n) <= target <= reach(n),
    ensures
        -angle_table()[n - 1] <= target - rotation(target, n).phi <= angle_table()[n - 1],
{
    lemma_residual_within_slack(target, n, n);
    lemma_rotation_steps(target, n);
    lemma_angle_table(n - 1);
}

/// The bound on the distance from the target shrinks with every rotation
/// that is added to the budget.
pub proof fn lemma_resolution_improves(m: nat, n: nat)
    requires
        1 <= m <= n <= MAX_N,
    ensures
        angle_table()[n - 1] <= angle_table()[m - 1],
        m < n ==> angle_table()[n - 1] < angle_table()[m - 1],
{
    lemma_angles_fall(m - 1, n - 1);
}

/// With thirty rotations or more, every angle up to a quarter turn either way
/// is met to within two billionths of a radian.
pub proof fn lemma_thirty_steps_resolve(theta: int, n: nat)
    requires
        30 <= n <= MAX_N,
        -2 * angle_table()[0] <= in_parts(theta) <= 2 * angle_table()[0],
    ensures
        -in_parts(2_000_000_000) < in_parts(theta) - rotation(in_parts(theta), n).phi < in_parts(
            2_000_000_000,
        ),
{
    lemma_quarter_turn_in_reach(n);
    lemma_residual(in_parts(theta), n);
    lemma_resolution_improves(30, n);
}

} // verus!
