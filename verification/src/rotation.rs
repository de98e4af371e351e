use vstd::prelude::*;
use vstd::arithmetic::power2::lemma2_to64;
use crate::fixed::{fixed_mul, shift_floor, SCALE};
use crate::tables::{
    angle_sum, angle_table, gain_after, gain_table, in_parts, lemma_angle_sum_bound, MAX_N,
};

verus! {

/// The state of a rotation: the vector `(x, y)`, the angle `phi` that it has
/// been turned through, and the number of rotations made so far. The vector
/// is in units, the angle in the parts of a unit that the angle table is in.
pub ghost struct Rotation {
    pub x: int,
    pub y: int,
    pub phi: int,
    pub steps: nat,
}

/// The state before any rotation: the unit vector along the positive x-axis.
pub open spec fn start() -> Rotation {
    Rotation { x: SCALE as int, y: 0, phi: 0, steps: 0 }
}

/// One rotation toward `target`. Rotation number `i` turns the vector through
/// arctan(2^-i), upward while `phi` lies below `target` and downward otherwise,
/// by adding to each coordinate the other one shifted right by `i` places.
pub open spec fn turn(r: Rotation, target: int) -> Rotation {
    let i = r.steps;
    let a = angle_table()[i as int] as int;
    if r.phi < target {
        Rotation {
            x: r.x - shift_floor(r.y, i),
            y: r.y + shift_floor(r.x, i),
            phi: r.phi + a,
            steps: i + 1,
        }
    } else {
        Rotation {
            x: r.x + shift_floor(r.y, i),
            y: r.y - shift_floor(r.x, i),
            phi: r.phi - a,
            steps: i + 1,
        }
    }
}

/// The state after a budget of `n` rotations toward `target`, an angle in
/// parts of a unit. The rotations stop early once `phi` equals `target`
/// exactly.
pub open spec fn rotation(target: int, n: nat) -> Rotation
    decreases n,
{
    if n == 0 {
        start()
    } else {
        let prev = rotation(target, (n - 1) as nat);
        if prev.phi == target {
            prev
        } else {
            turn(prev, target)
        }
    }
}

/// The sine and cosine of `theta`, an angle in units, by a budget of `n`
/// rotations, with the number of rotations made: the coordinates of the
/// rotated vector, each multiplied by the gain correction for that number of
/// rotations. Where no rotation was made the vector still lies on the x-axis,
/// and the result is exactly (0, 1).
pub open spec fn sincos_value(theta: int, n: nat) -> (int, int, nat) {
    let r = rotation(in_parts(theta), n);
    if r.steps == 0 {
        (0, SCALE as int, 0)
    } else {
        let g = gain_after(r.steps);
        (fixed_mul(r.y, g), fixed_mul(r.x, g), r.steps)
    }
}

/// A rotation never makes more steps than its budget, and it stops short of
/// the budget only on reaching the target angle.
pub proof fn lemma_rotation_steps(target: int, n: nat)
    ensures
        rotation(target, n).steps <= n,
        rotation(target, n).steps < n ==> rotation(target, n).phi == target,
    decreases n,
{
    if n > 0 {
        lemma_rotation_steps(target, (n - 1) as nat);
    }
}

/// The step count of a result is within the budget.
pub proof fn lemma_steps_within_budget(theta: int, n: nat)
    ensures
        sincos_value(theta, n).2 <= n,
{
    lemma_rotation_steps(in_parts(theta), n);
}

/// Once the target angle is reached, a larger budget changes nothing.
pub proof fn lemma_rotation_settles(target: int, k: nat, n: nat)
    requires
        k <= n,
        rotation(target, k).phi == target,
    ensures
        rotation(target, n) == rotation(target, k),
    decreases n,
{
    if k < n {
        lemma_rotation_settles(target, k, (n - 1) as nat);
    }
}

/// The angle turned through is at most the sum of the angles of the rotations
/// made, and so stays below two radians.
pub proof fn lemma_phi_bound(target: int, n: nat)
    requires
        n <= MAX_N,
    ensures
        -angle_sum(rotation(target, n).steps) <= rotation(target, n).phi <= angle_sum(
            rotation(target, n).steps,
        ),
        -in_parts(2 * SCALE) <= rotation(target, n).phi <= in_parts(2 * SCALE),
    decreases n,
{
    lemma_rotation_steps(target, n);
    lemma_angle_sum_bound(rotation(target, n).steps);
    if n > 0 {
        lemma_phi_bound(target, (n - 1) as nat);
        lemma_rotation_steps(target, (n - 1) as nat);
    }
}

/// A target of zero is met before the first rotation: the result is exactly
/// (0, 1) in no steps, whatever the budget.
pub proof fn lemma_zero_angle(n: nat)
    ensures
        rotation(0, n) == start(),
        sincos_value(0, n) == (0int, SCALE as int, 0nat),
    decreases n,
{
    if n > 0 {
        lemma_zero_angle((n - 1) as nat);
    }
}

/// No rotation is made only where the target is zero.
pub proof fn lemma_no_step_iff_zero(theta: int, n: nat)
    requires
        n >= 1,
    ensures
        sincos_value(theta, n).2 == 0 <==> theta == 0,
{
    lemma_target_no_step_iff_zero(in_parts(theta), n);
}

proof fn lemma_target_no_step_iff_zero(target: int, n: nat)
    requires
        n >= 1,
    ensures
        rotation(target, n).steps == 0 <==> target == 0,
    decreases n,
{
    if target == 0 {
        lemma_zero_angle(n);
    } else if n == 1 {
        assert(rotation(target, 0) == start());
    } else {
        lemma_target_no_step_iff_zero(target, (n - 1) as nat);
    }
}

/// A budget of one makes the single rotation by a quarter of pi, toward the
/// target: sine and cosine are both the first gain correction, the sine with
/// the sign of the target.
pub proof fn lemma_single_step(theta: int)
    requires
        theta != 0,
    ensures
        theta > 0 ==> sincos_value(theta, 1) == (
            gain_table()[0] as int,
            gain_table()[0] as int,
            1nat,
        ),
        theta < 0 ==> sincos_value(theta, 1) == (
            -(gain_table()[0] as int),
            gain_table()[0] as int,
            1nat,
        ),
{
    lemma2_to64();
    let g = gain_table()[0] as int;
    let target = in_parts(theta);
    assert(rotation(target, 0) == start());
    assert(rotation(target, 1) == turn(start(), target));
    assert(shift_floor(SCALE as int, 0) == SCALE);
    assert(shift_floor(0, 0) == 0);
    assert(SCALE * g / (SCALE as int) == g && (-SCALE) * g == -(SCALE * g) && SCALE * g >= 0)
        by (nonlinear_arith)
        requires
            g >= 0,
    ;
}

} // verus!
