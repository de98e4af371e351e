use vstd::prelude::*;
use vstd::arithmetic::div_mod::{
    lemma_fundamental_div_mod, lemma_fundamental_div_mod_converse, lemma_mod_bound,
};
use vstd::arithmetic::power2::{lemma_pow2_pos, pow2};
use vstd::bits::lemma_u64_shr_is_div;

verus! {

/// One unit of the fixed-point format: the integer that stands for 1.0.
/// Coordinates, sines, cosines and the angles asked for, in radians, are all
/// held as multiples of 10^-18.
pub const SCALE: i64 = 1_000_000_000_000_000_000;

/// The square of the unit: the integer that stands for 1.0 among products of
/// two fixed-point numbers.
pub open spec fn unit_pow2() -> int {
    1_000_000_000_000_000_000_000_000_000_000_000_000int
}

/// The cube of the unit.
pub open spec fn unit_pow3() -> int {
    1_000_000_000_000_000_000_000_000_000_000_000_000_000_000_000_000_000_000int
}

/// The fourth power of the unit.
pub open spec fn unit_pow4() -> int {
    1_000_000_000_000_000_000_000_000_000_000_000_000int
        * 1_000_000_000_000_000_000_000_000_000_000_000_000int
}

/// The floor of `v / 2^i`: what an arithmetic right shift by `i` computes on a
/// signed integer.
pub open spec fn shift_floor(v: int, i: nat) -> int {
    v / (pow2(i) as int)
}

/// The product of two fixed-point numbers, brought back to the format and
/// rounded toward zero.
pub open spec fn fixed_mul(a: int, b: int) -> int {
    let p = a * b;
    if p >= 0 {
        p / (SCALE as int)
    } else {
        -((-p) / (SCALE as int))
    }
}

/// An arithmetic right shift rounds toward negative infinity, for negative
/// values too.
pub proof fn lemma_shr_is_floor(v: i64, i: u64)
    requires
        i < 64,
    ensures
        (v >> i) == shift_floor(v as int, i as nat),
{
    let p = pow2(i as nat) as int;
    lemma_pow2_pos(i as nat);
    if v >= 0 {
        let u = v as u64;
        assert((v >> i) == (u >> i) as i64 && (u >> i) <= u) by (bit_vector)
            requires
                v >= 0,
                u == v as u64,
                i < 64,
        ;
        lemma_u64_shr_is_div(u, i);
    } else {
        let w = !v;
        let u = w as u64;
        assert(w >= 0 && w == -v - 1 && (v >> i) == !(w >> i) && (w >> i) == (u >> i) as i64 && u
            == w && !(w >> i) == -(w >> i) - 1) by (bit_vector)
            requires
                v < 0,
                w == !v,
                u == w as u64,
                i < 64,
        ;
        lemma_u64_shr_is_div(u, i);
        let q = w as int / p;
        let r = w as int % p;
        lemma_fundamental_div_mod(w as int, p);
        assert(v as int == (-q - 1) * p + (p - r - 1)) by (nonlinear_arith)
            requires
                w as int == p * q + r,
                v as int == -(w as int) - 1,
        ;
        lemma_fundamental_div_mod_converse(v as int, p, -q - 1, p - r - 1);
    }
}

/// The product of two fixed-point numbers is off by less than one unit of the
/// format, and never away from zero.
pub proof fn lemma_fixed_mul_error(a: int, b: int)
    ensures
        a * b >= 0 ==> 0 <= a * b - fixed_mul(a, b) * SCALE < SCALE,
        a * b < 0 ==> -SCALE < a * b - fixed_mul(a, b) * SCALE <= 0,
{
    let p = a * b;
    let m = if p >= 0 {
        p
    } else {
        -p
    };
    lemma_fundamental_div_mod(m, SCALE as int);
    lemma_mod_bound(m, SCALE as int);
    let q = m / (SCALE as int);
    assert((SCALE as int) * q == q * SCALE && (-q) * SCALE == -(q * SCALE)) by (nonlinear_arith);
}

} // verus!
