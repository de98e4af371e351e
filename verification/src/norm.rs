use vstd::prelude::*;
use vstd::arithmetic::div_mod::{lemma_fundamental_div_mod, lemma_mod_bound};
use vstd::arithmetic::power2::{lemma_pow2_adds, lemma_pow2_pos, pow2};
use crate::fixed::{fixed_mul, lemma_fixed_mul_error, unit_pow2, unit_pow3, unit_pow4, SCALE};
use crate::rotation::{lemma_rotation_steps, rotation, sincos_value, Rotation};
use crate::tables::{gain_after, in_parts, lemma_gain_step, lemma_gain_table, MAX_N};

verus! {

/// The squared length of the vector of a rotation state.
pub open spec fn norm_sq(r: Rotation) -> int {
    r.x * r.x + r.y * r.y
}

/// How far the squared length of a state, multiplied by the square of its gain
/// correction, is from the squared length of a unit vector. Both are products
/// of four fixed-point numbers.
pub open spec fn drift(r: Rotation) -> int {
    gain_after(r.steps) * gain_after(r.steps) * norm_sq(r) - unit_pow4()
}

/// The most that one rotation adds to the drift: 23 units of the format, from
/// the rounding of the two shifts and of the gain table.
pub open spec fn drift_per_step() -> int {
    23_000_000_000_000_000_000_000_000_000_000_000_000_000_000_000_000_000_000int
}

/// The most that the squares of a sine and cosine pair, summed, differ from
/// one: 1500 units of the format.
pub open spec fn norm_tolerance() -> int {
    1500 * SCALE
}

/// Whether a sine and a cosine are those of one angle, as far as their
/// squares tell: whether they sum to one up to [`norm_tolerance`].
pub open spec fn near_unit(sin: int, cos: int) -> bool {
    -norm_tolerance() <= sin * sin + cos * cos - SCALE * SCALE <= norm_tolerance()
}

/// One rotation by arctan(1/p) stretches the squared length by 1 + 1/p^2, up
/// to the rounding of the two shifts.
proof fn lemma_turn_stretch(x: int, y: int, p: int)
    requires
        p >= 1,
        -2 * SCALE <= x <= 2 * SCALE,
        -2 * SCALE <= y <= 2 * SCALE,
    ensures
        ({
            let x1 = x - y / p;
            let y1 = y + x / p;
            let e = p * p * (x1 * x1 + y1 * y1) - (p * p + 1) * (x * x + y * y);
            -(16 * SCALE + 2) * (p * p) <= e <= (16 * SCALE + 2) * (p * p)
        }),
{
    let x1 = x - y / p;
    let y1 = y + x / p;
    let rx = x % p;
    let ry = y % p;
    lemma_fundamental_div_mod(x, p);
    lemma_fundamental_div_mod(y, p);
    lemma_mod_bound(x, p);
    lemma_mod_bound(y, p);
    // The vector scaled by p, before and after the shifts are rounded.
    let px = p * x;
    let py = p * y;
    let a = px - y;
    let b = py + x;
    let u = a + ry;
    let v = b - rx;
    assert(p * x1 == u) by (nonlinear_arith)
        requires
            x1 == x - y / p,
            y == p * (y / p) + ry,
            u == p * x - y + ry,
    ;
    assert(p * y1 == v) by (nonlinear_arith)
        requires
            y1 == y + x / p,
            x == p * (x / p) + rx,
            v == p * y + x - rx,
    ;
    assert(p * p * (x1 * x1 + y1 * y1) == u * u + v * v) by (nonlinear_arith)
        requires
            p * x1 == u,
            p * y1 == v,
    ;
    assert(a * a + b * b == (p * p + 1) * (x * x + y * y)) by {
        assert(a * a == px * px - 2 * (px * y) + y * y) by (nonlinear_arith)
            requires
                a == px - y,
        ;
        assert(b * b == py * py + 2 * (py * x) + x * x) by (nonlinear_arith)
            requires
                b == py + x,
        ;
        assert(px * y == py * x) by (nonlinear_arith)
            requires
                px == p * x,
                py == p * y,
        ;
        assert(px * px == (p * p) * (x * x)) by (nonlinear_arith)
            requires
                px == p * x,
        ;
        assert(py * py == (p * p) * (y * y)) by (nonlinear_arith)
            requires
                py == p * y,
        ;
        assert((p * p + 1) * (x * x + y * y) == (p * p) * (x * x) + (p * p) * (y * y) + x * x + y
            * y) by (nonlinear_arith);
    }
    assert(u * u + v * v == a * a + b * b + 2 * (a * ry) - 2 * (b * rx) + ry * ry + rx * rx)
        by (nonlinear_arith)
        requires
            u == a + ry,
            v == b - rx,
    ;
    let pp = p * p;
    assert(-(4 * SCALE) * pp <= a * ry <= (4 * SCALE) * pp) by (nonlinear_arith)
        requires
            a == p * x - y,
            -2 * SCALE <= x <= 2 * SCALE,
            -2 * SCALE <= y <= 2 * SCALE,
            0 <= ry < p,
            pp == p * p,
    ;
    assert(-(4 * SCALE) * pp <= b * rx <= (4 * SCALE) * pp) by (nonlinear_arith)
        requires
            b == p * y + x,
            -2 * SCALE <= x <= 2 * SCALE,
            -2 * SCALE <= y <= 2 * SCALE,
            0 <= rx < p,
            pp == p * p,
    ;
    assert(0 <= ry * ry <= pp && 0 <= rx * rx <= pp) by (nonlinear_arith)
        requires
            0 <= rx < p,
            0 <= ry < p,
            pp == p * p,
    ;
    assert((16 * SCALE + 2) * pp == 4 * ((4 * SCALE) * pp) + 2 * pp) by (nonlinear_arith);
    assert(-(16 * SCALE + 2) * pp == -((16 * SCALE + 2) * pp)) by (nonlinear_arith);
    assert(-(4 * SCALE) * pp == -((4 * SCALE) * pp)) by (nonlinear_arith);
}

/// What one rotation adds to the drift, from the stretch of the rotation and
/// the agreement of the gain table with it.
proof fn lemma_drift_step(n0: int, n1: int, pp: int, g0: int, g1: int)
    requires
        pp >= 1,
        0 <= n0 <= 3 * unit_pow2(),
        0 < g1 <= SCALE,
        -(16 * SCALE + 2) * pp <= pp * n1 - (pp + 1) * n0 <= (16 * SCALE + 2) * pp,
        -2 * SCALE * pp <= g1 * g1 * (pp + 1) - g0 * g0 * pp <= 2 * SCALE * pp,
    ensures
        -drift_per_step() <= g1 * g1 * n1 - g0 * g0 * n0 <= drift_per_step(),
{
    let e = pp * n1 - (pp + 1) * n0;
    let d = g1 * g1 * (pp + 1) - g0 * g0 * pp;
    let gg = g1 * g1;
    let t = gg * n1 - g0 * g0 * n0;
    assert(pp * t == d * n0 + gg * e) by (nonlinear_arith)
        requires
            e == pp * n1 - (pp + 1) * n0,
            d == gg * (pp + 1) - g0 * g0 * pp,
            t == gg * n1 - g0 * g0 * n0,
    ;
    assert(0 < gg <= unit_pow2()) by (nonlinear_arith)
        requires
            gg == g1 * g1,
            0 < g1 <= SCALE,
    ;
    assert(-(6 * unit_pow3()) * pp <= d * n0 <= (6 * unit_pow3()) * pp) by (nonlinear_arith)
        requires
            pp >= 1,
            0 <= n0 <= 3 * unit_pow2(),
            -2 * SCALE * pp <= d <= 2 * SCALE * pp,
    ;
    assert(-(17 * unit_pow3()) * pp <= gg * e <= (17 * unit_pow3()) * pp) by (nonlinear_arith)
        requires
            pp >= 1,
            0 < gg <= unit_pow2(),
            -(16 * SCALE + 2) * pp <= e <= (16 * SCALE + 2) * pp,
    ;
    assert(-drift_per_step() <= t <= drift_per_step()) by (nonlinear_arith)
        requires
            pp >= 1,
            pp * t == d * n0 + gg * e,
            -(6 * unit_pow3()) * pp <= d * n0 <= (6 * unit_pow3()) * pp,
            -(17 * unit_pow3()) * pp <= gg * e <= (17 * unit_pow3()) * pp,
    ;
}

/// A state whose drift is small has a vector of length below two.
proof fn lemma_vector_bound(r: Rotation)
    requires
        r.steps <= MAX_N,
        -r.steps * drift_per_step() <= drift(r) <= r.steps * drift_per_step(),
    ensures
        0 <= norm_sq(r) <= 3 * unit_pow2(),
        -2 * SCALE <= r.x <= 2 * SCALE,
        -2 * SCALE <= r.y <= 2 * SCALE,
{
    let g = gain_after(r.steps);
    let n = norm_sq(r);
    let x = r.x;
    let y = r.y;
    if r.steps > 0 {
        lemma_gain_table(r.steps - 1);
    }
    assert(r.steps * drift_per_step() <= 64 * drift_per_step()) by (nonlinear_arith)
        requires
            r.steps <= 64,
    ;
    let gg = g * g;
    assert(0 <= x * x && 0 <= y * y) by (nonlinear_arith);
    assert(n <= 3 * unit_pow2()) by (nonlinear_arith)
        requires
            n >= 0,
            gg == g * g,
            g >= 600_000_000_000_000_000,
            gg * n <= unit_pow4() + 64 * drift_per_step(),
    ;
    assert(-2 * SCALE <= x <= 2 * SCALE) by (nonlinear_arith)
        requires
            x * x <= 3 * unit_pow2(),
    ;
    assert(-2 * SCALE <= y <= 2 * SCALE) by (nonlinear_arith)
        requires
            y * y <= 3 * unit_pow2(),
    ;
}

/// The rounding of the shifts and of the gain table moves the gain-corrected
/// length of the vector only a little: each rotation adds at most
/// [`drift_per_step`] to the drift, so the vector never grows beyond a length of
/// two, whatever the target.
pub proof fn lemma_rotation_drift(target: int, n: nat)
    requires
        n <= MAX_N,
    ensures
        ({
            let r = rotation(target, n);
            &&& -r.steps * drift_per_step() <= drift(r) <= r.steps * drift_per_step()
            &&& -2 * SCALE <= r.x <= 2 * SCALE
            &&& -2 * SCALE <= r.y <= 2 * SCALE
        }),
    decreases n,
{
    let r = rotation(target, n);
    lemma_rotation_steps(target, n);
    if n == 0 {
        assert(SCALE * SCALE * (SCALE * SCALE + 0 * 0) == unit_pow4()) by (nonlinear_arith);
    } else {
        let prev = rotation(target, (n - 1) as nat);
        lemma_rotation_drift(target, (n - 1) as nat);
        lemma_rotation_steps(target, (n - 1) as nat);
        if prev.phi != target {
            let k = prev.steps;
            let p = pow2(k) as int;
            let pp = pow2(2 * k) as int;
            lemma_pow2_pos(k);
            lemma_pow2_pos(2 * k);
            lemma_pow2_adds(k, k);
            lemma_vector_bound(prev);
            lemma_gain_step(k);
            lemma_gain_table(k as int);
            if prev.phi < target {
                lemma_turn_stretch(prev.x, prev.y, p);
            } else {
                lemma_turn_stretch(prev.y, prev.x, p);
            }
            lemma_drift_step(norm_sq(prev), norm_sq(r), pp, gain_after(k), gain_after(k + 1));
            assert(-r.steps * drift_per_step() <= drift(r) <= r.steps * drift_per_step())
                by (nonlinear_arith)
                requires
                    r.steps == k + 1,
                    -k * drift_per_step() <= drift(prev) <= k * drift_per_step(),
                    -drift_per_step() <= drift(r) - drift(prev) <= drift_per_step(),
            ;
        } else {
            assert(r == prev);
        }
    }
    assert(-r.steps * drift_per_step() <= drift(r) <= r.steps * drift_per_step());
    lemma_vector_bound(r);
}

/// A vector whose gain-corrected squared length is within 64 times
/// [`drift_per_step`] of one keeps a squared length within [`norm_tolerance`] of
/// one when its coordinates are multiplied by the gain correction.
proof fn lemma_corrected_norm(x: int, y: int, g: int)
    requires
        -2 * SCALE <= x <= 2 * SCALE,
        -2 * SCALE <= y <= 2 * SCALE,
        0 < g <= SCALE,
        -64 * drift_per_step() <= g * g * (x * x + y * y) - unit_pow4() <= 64 * drift_per_step(),
    ensures
        near_unit(fixed_mul(y, g), fixed_mul(x, g)),
{
    let sin = fixed_mul(y, g);
    let cos = fixed_mul(x, g);
    lemma_fixed_mul_error(x, g);
    lemma_fixed_mul_error(y, g);
    let xg = x * g;
    let yg = y * g;
    let ec = cos * SCALE - xg;
    let es = sin * SCALE - yg;
    let d = xg * xg + yg * yg - unit_pow4();
    let t = sin * sin + cos * cos - SCALE * SCALE;
    assert(-2 * unit_pow2() <= xg <= 2 * unit_pow2()) by (nonlinear_arith)
        requires
            xg == x * g,
            -2 * SCALE <= x <= 2 * SCALE,
            0 < g <= SCALE,
    ;
    assert(-2 * unit_pow2() <= yg <= 2 * unit_pow2()) by (nonlinear_arith)
        requires
            yg == y * g,
            -2 * SCALE <= y <= 2 * SCALE,
            0 < g <= SCALE,
    ;
    assert(xg * xg + yg * yg == g * g * (x * x + y * y)) by (nonlinear_arith)
        requires
            xg == x * g,
            yg == y * g,
    ;
    assert(unit_pow2() * t == d + 2 * (xg * ec) + 2 * (yg * es) + ec * ec + es * es)
        by (nonlinear_arith)
        requires
            t == sin * sin + cos * cos - SCALE * SCALE,
            d == xg * xg + yg * yg - unit_pow4(),
            cos * SCALE == xg + ec,
            sin * SCALE == yg + es,
    ;
    assert(-2 * unit_pow3() <= xg * ec <= 2 * unit_pow3() && 0 <= ec * ec <= unit_pow2())
        by (nonlinear_arith)
        requires
            -2 * unit_pow2() <= xg <= 2 * unit_pow2(),
            -SCALE < ec < SCALE,
    ;
    assert(-2 * unit_pow3() <= yg * es <= 2 * unit_pow3() && 0 <= es * es <= unit_pow2())
        by (nonlinear_arith)
        requires
            -2 * unit_pow2() <= yg <= 2 * unit_pow2(),
            -SCALE < es < SCALE,
    ;
    assert(-norm_tolerance() <= t <= norm_tolerance()) by (nonlinear_arith)
        requires
            unit_pow2() * t == d + 2 * (xg * ec) + 2 * (yg * es) + ec * ec + es * es,
            -64 * drift_per_step() <= d <= 64 * drift_per_step(),
            -2 * unit_pow3() <= xg * ec <= 2 * unit_pow3(),
            -2 * unit_pow3() <= yg * es <= 2 * unit_pow3(),
            0 <= ec * ec <= unit_pow2(),
            0 <= es * es <= unit_pow2(),
    ;
}

/// The squares of the sine and the cosine that a rotation yields sum to one,
/// up to [`norm_tolerance`]: for every angle and every budget.
pub proof fn lemma_unit_norm(theta: int, n: nat)
    requires
        n <= MAX_N,
    ensures
        near_unit(sincos_value(theta, n).0, sincos_value(theta, n).1),
{
    let r = rotation(in_parts(theta), n);
    lemma_rotation_steps(in_parts(theta), n);
    lemma_rotation_drift(in_parts(theta), n);
    if r.steps == 0 {
        assert(0 * 0 + SCALE * SCALE - SCALE * SCALE == 0) by (nonlinear_arith);
    } else {
        lemma_gain_table(r.steps - 1);
        lemma_corrected_norm(r.x, r.y, gain_after(r.steps));
    }
}

/// Neither the sine nor the cosine that a rotation yields exceeds one by more
/// than 750 units, either way.
pub proof fn lemma_value_range(theta: int, n: nat)
    requires
        n <= MAX_N,
    ensures
        -(SCALE + 750) <= sincos_value(theta, n).0 <= SCALE + 750,
        -(SCALE + 750) <= sincos_value(theta, n).1 <= SCALE + 750,
{
    let sin = sincos_value(theta, n).0;
    let cos = sincos_value(theta, n).1;
    lemma_unit_norm(theta, n);
    assert(-(SCALE + 750) <= sin <= SCALE + 750 && -(SCALE + 750) <= cos <= SCALE + 750)
        by (nonlinear_arith)
        requires
            sin * sin + cos * cos - SCALE * SCALE <= 1500 * SCALE,
    ;
}

} // verus!
