use vstd::prelude::*;
use crate::fixed::{fixed_mul, lemma_fixed_mul_error, lemma_shr_is_floor, SCALE};
use crate::norm::{lemma_rotation_drift, lemma_unit_norm, near_unit};
use crate::rotation::{lemma_phi_bound, lemma_rotation_settles, rotation, sincos_value};
use crate::tables::{gain_after, in_parts, lemma_gain_table, Tables, ANGLE_PARTS, MAX_N};

verus! {

/// Why the checked entry point refused an iteration budget.
#[derive(Clone, Copy, Debug, PartialEq, Eq)]
pub enum BudgetError {
    /// The budget was zero: there is no rotation to make.
    Zero,
    /// The budget was larger than the tables.
    TooLarge,
}

/// Multiplies a coordinate by a gain correction.
fn apply_gain(v: i64, g: i64) -> (r: i64)
    requires
        0 <= g <= SCALE,
    ensures
        r == fixed_mul(v as int, g as int),
{
    proof {
        // A gain of at most one keeps the product between zero and the coordinate.
        assert(v >= 0 ==> 0 <= v * g <= v * SCALE) by (nonlinear_arith)
            requires
                0 <= g <= SCALE,
        ;
        assert(v < 0 ==> v * SCALE <= v * g <= 0) by (nonlinear_arith)
            requires
                0 <= g <= SCALE,
        ;
        assert(i64::MIN * SCALE <= v * SCALE <= i64::MAX * SCALE) by (nonlinear_arith)
            requires
                i64::MIN <= v <= i64::MAX,
        ;
        lemma_fixed_mul_error(v as int, g as int);
    }
    let p: i128 = (v as i128) * (g as i128);
    let q: i128 = p / (SCALE as i128);
    q as i64
}

/// The rotation loop: turns the unit vector toward `theta` until the budget is
/// spent or the angle is met, and returns the vector and the number of
/// rotations made.
fn rotate(tables: &Tables, theta: i64, n: usize) -> (r: (i64, i64, usize))
    requires
        n <= MAX_N,
    ensures
        r.0 == rotation(in_parts(theta as int), n as nat).x,
        r.1 == rotation(in_parts(theta as int), n as nat).y,
        r.2 == rotation(in_parts(theta as int), n as nat).steps,
        r.2 <= n,
{
    let target: i128 = (theta as i128) * ANGLE_PARTS;
    let mut x: i64 = SCALE;
    let mut y: i64 = 0;
    let mut phi: i128 = 0;
    let mut i: usize = 0;
    while i < n && phi != target
        invariant
            i <= n <= MAX_N,
            target == in_parts(theta as int),
            x == rotation(target as int, i as nat).x,
            y == rotation(target as int, i as nat).y,
            phi == rotation(target as int, i as nat).phi,
            i == rotation(target as int, i as nat).steps,
        decreases n - i,
    {
        proof {
            lemma_shr_is_floor(x, i as u64);
            lemma_shr_is_floor(y, i as u64);
            lemma_rotation_drift(target as int, (i + 1) as nat);
            lemma_phi_bound(target as int, (i + 1) as nat);
        }
        let a = tables.angle_at(i);
        let sx = x >> i;
        let sy = y >> i;
        if phi < target {
            phi = phi + a;
            x = x - sy;
            y = y + sx;
        } else {
            phi = phi - a;
            x = x + sy;
            y = y - sx;
        }
        i = i + 1;
    }
    proof {
        if i < n {
            lemma_rotation_settles(target as int, i as nat, n as nat);
        }
    }
    (x, y, i)
}

/// Brings the rotated vector back to unit length.
fn normalize(tables: &Tables, x: i64, y: i64, steps: usize) -> (r: (i64, i64))
    requires
        steps <= MAX_N,
    ensures
        steps == 0 ==> r == (0i64, SCALE),
        steps > 0 ==> r.0 == fixed_mul(y as int, gain_after(steps as nat)) && r.1 == fixed_mul(
            x as int,
            gain_after(steps as nat),
        ),
{
    if steps == 0 {
        (0, SCALE)
    } else {
        let g = tables.gain_at(steps - 1);
        proof {
            lemma_gain_table(steps - 1);
        }
        (apply_gain(y, g), apply_gain(x, g))
    }
}

/// Whether `r` is what [`sincos`] owes for an angle and a budget: a refusal
/// of a budget outside 1 to [`MAX_N`], and otherwise the sine, the cosine and
/// the step count of [`sincos_value`].
pub open spec fn is_sincos(
    theta: i64,
    n: usize,
    r: Result<(i64, i64, usize), BudgetError>,
) -> bool {
    if n == 0 {
        r == Err::<(i64, i64, usize), BudgetError>(BudgetError::Zero)
    } else if n > MAX_N {
        r == Err::<(i64, i64, usize), BudgetError>(BudgetError::TooLarge)
    } else {
        r matches Ok((sin, cos, steps)) && (sin as int, cos as int, steps as nat) == sincos_value(
            theta as int,
            n as nat,
        )
    }
}

/// Whether `r` is what [`sincos_faster`] owes for an angle and a budget: the
/// sine and the cosine of [`sincos_value`].
pub open spec fn is_sincos_faster(theta: i64, n: usize, r: (i64, i64)) -> bool {
    r.0 == sincos_value(theta as int, n as nat).0 && r.1 == sincos_value(theta as int, n as nat).1
}

/// The sine and cosine of `theta` by at most `n` rotations, and the number of
/// rotations made. `theta` is in radians and the results are in fixed point,
/// all in units of 10^-18. The budget must be between 1 and [`MAX_N`]; any
/// other is refused.
pub fn sincos(tables: &Tables, theta: i64, n: usize) -> (r: Result<(i64, i64, usize), BudgetError>)
    ensures
        is_sincos(theta, n, r),
        r matches Ok((sin, cos, _)) ==> near_unit(sin as int, cos as int),
{
    if n == 0 {
        return Err(BudgetError::Zero);
    }
    if n > MAX_N {
        return Err(BudgetError::TooLarge);
    }
    let (x, y, steps) = rotate(tables, theta, n);
    let (sin, cos) = normalize(tables, x, y, steps);
    proof {
        lemma_unit_norm(theta as int, n as nat);
    }
    Ok((sin, cos, steps))
}

/// The sine and cosine of `theta` by at most `n` rotations, without the
/// validation and the step count of [`sincos`]. The caller answers for the
/// budget.
pub fn sincos_faster(tables: &Tables, theta: i64, n: usize) -> (r: (i64, i64))
    requires
        1 <= n <= MAX_N,
    ensures
        is_sincos_faster(theta, n, r),
        near_unit(r.0 as int, r.1 as int),
{
    let (x, y, steps) = rotate(tables, theta, n);
    proof {
        lemma_unit_norm(theta as int, n as nat);
    }
    normalize(tables, x, y, steps)
}

/// The two entry points agree: on a budget that both accept, the checked one
/// succeeds with the sine and cosine that the fast one returns.
pub proof fn lemma_variants_agree(
    theta: i64,
    n: usize,
    checked: Result<(i64, i64, usize), BudgetError>,
    fast: (i64, i64),
)
    requires
        1 <= n <= MAX_N,
        is_sincos(theta, n, checked),
        is_sincos_faster(theta, n, fast),
    ensures
        checked matches Ok((sin, cos, _)) && sin == fast.0 && cos == fast.1,
{
}

} // verus!
