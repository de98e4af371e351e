use vstd::prelude::*;
use vstd::arithmetic::power2::{lemma2_to64, lemma2_to64_rest, lemma_pow2_strictly_increases, pow2};
use crate::fixed::SCALE;

verus! {

/// The number of entries in each table, and so the largest iteration budget.
pub const MAX_N: usize = 64;

/// How many parts of a unit the angles of the table and the running angle of
/// a rotation are held in. The last rotations turn through less than one
/// unit, and in whole units they could not be told apart.
pub const ANGLE_PARTS: i128 = 16;

/// The rotation angles. Entry `i` is arctan(2^-i) in radians, in sixteenths
/// of a unit and rounded up to the next sixteenth. Rounding up keeps every
/// entry at most twice its successor, which is what lets the rotations reach
/// every angle in their range.
pub const ANGLE_TABLE: [i128; 64] = [
    12_566_370_614_359_172_954, 7_418_361_744_012_897_860, 3_919_658_610_029_826_467,
    1_989_679_912_748_182_961, 998_700_959_935_317_576, 499_837_334_884_292_421,
    249_979_657_927_629_293, 124_997_456_961_617_781, 62_499_682_111_471_550,
    31_249_960_263_661_099, 15_624_995_032_949_111, 7_812_499_379_118_373, 3_906_249_922_389_789,
    1_953_124_990_298_724, 976_562_498_787_341, 488_281_249_848_418, 244_140_624_981_053,
    122_070_312_497_632, 61_035_156_249_704, 30_517_578_124_963, 15_258_789_062_496,
    7_629_394_531_250, 3_814_697_265_625, 1_907_348_632_813, 953_674_316_407, 476_837_158_204,
    238_418_579_102, 119_209_289_551, 59_604_644_776, 29_802_322_388, 14_901_161_194, 7_450_580_597,
    3_725_290_299, 1_862_645_150, 931_322_575, 465_661_288, 232_830_644, 116_415_322, 58_207_661,
    29_103_831, 14_551_916, 7_275_958, 3_637_979, 1_818_990, 909_495, 454_748, 227_374, 113_687,
    56_844, 28_422, 14_211, 7_106, 3_553, 1_777, 889, 445, 223, 112, 56, 28, 14, 7, 4, 2,
];

/// The gain corrections. Entry `i` is the product of cos(arctan(2^-j)) for
/// `j` from 0 to `i`, in fixed point and rounded to the nearest unit: the
/// factor that brings a vector back to unit length after `i + 1` rotations.
pub const GAIN_TABLE: [i64; 64] = [
    707_106_781_186_547_524, 632_455_532_033_675_866, 613_571_991_077_896_350,
    608_833_912_517_752_421, 607_648_256_256_168_201, 607_351_770_141_295_959,
    607_277_644_093_525_999, 607_259_112_298_892_730, 607_254_479_332_562_330,
    607_253_321_089_875_163, 607_253_031_529_134_335, 607_252_959_138_944_814,
    607_252_941_041_397_164, 607_252_936_517_010_234, 607_252_935_385_913_501,
    607_252_935_103_139_317, 607_252_935_032_445_771, 607_252_935_014_772_385,
    607_252_935_010_354_038, 607_252_935_009_249_452, 607_252_935_008_973_305,
    607_252_935_008_904_268, 607_252_935_008_887_009, 607_252_935_008_882_694,
    607_252_935_008_881_616, 607_252_935_008_881_346, 607_252_935_008_881_279,
    607_252_935_008_881_262, 607_252_935_008_881_258, 607_252_935_008_881_257,
    607_252_935_008_881_256, 607_252_935_008_881_256, 607_252_935_008_881_256,
    607_252_935_008_881_256, 607_252_935_008_881_256, 607_252_935_008_881_256,
    607_252_935_008_881_256, 607_252_935_008_881_256, 607_252_935_008_881_256,
    607_252_935_008_881_256, 607_252_935_008_881_256, 607_252_935_008_881_256,
    607_252_935_008_881_256, 607_252_935_008_881_256, 607_252_935_008_881_256,
    607_252_935_008_881_256, 607_252_935_008_881_256, 607_252_935_008_881_256,
    607_252_935_008_881_256, 607_252_935_008_881_256, 607_252_935_008_881_256,
    607_252_935_008_881_256, 607_252_935_008_881_256, 607_252_935_008_881_256,
    607_252_935_008_881_256, 607_252_935_008_881_256, 607_252_935_008_881_256,
    607_252_935_008_881_256, 607_252_935_008_881_256, 607_252_935_008_881_256,
    607_252_935_008_881_256, 607_252_935_008_881_256, 607_252_935_008_881_256,
    607_252_935_008_881_256,
];

/// The rotation angles, as a sequence.
pub open spec fn angle_table() -> Seq<i128> {
    ANGLE_TABLE@
}

/// The gain corrections, as a sequence.
pub open spec fn gain_table() -> Seq<i64> {
    GAIN_TABLE@
}

/// An angle in units, in the parts of a unit that the table is held in.
pub open spec fn in_parts(theta: int) -> int {
    theta * ANGLE_PARTS
}

/// The sum of the first `k` rotation angles: how far `k` rotations in one
/// direction turn the vector.
pub open spec fn angle_sum(k: nat) -> int
    decreases k,
{
    if k == 0 {
        0
    } else {
        angle_sum((k - 1) as nat) + angle_table()[k - 1]
    }
}

/// The gain correction that applies after `k` rotations. No rotation needs no
/// correction.
pub open spec fn gain_after(k: nat) -> int {
    if k == 0 {
        SCALE as int
    } else {
        gain_table()[k - 1] as int
    }
}

/// The two tables of the rotation engine. A value of this type always holds
/// [`ANGLE_TABLE`] and [`GAIN_TABLE`]; [`precompute`] is the only way to make
/// one.
pub struct Tables {
    angles: [i128; 64],
    gains: [i64; 64],
}

impl Tables {
    #[verifier::type_invariant]
    spec fn inv(self) -> bool {
        &&& self.angles@ == angle_table()
        &&& self.gains@ == gain_table()
    }

    /// The rotation angles held.
    pub closed spec fn angles(self) -> Seq<i128> {
        self.angles@
    }

    /// The gain corrections held.
    pub closed spec fn gains(self) -> Seq<i64> {
        self.gains@
    }

    /// The rotation angle of step `i`, in sixteenths of a unit, or `None` past
    /// the end of the table.
    pub fn angle(&self, i: usize) -> (a: Option<i128>)
        ensures
            a == (if i < MAX_N {
                Some(angle_table()[i as int])
            } else {
                None
            }),
    {
        proof {
            use_type_invariant(self);
        }
        if i < MAX_N {
            Some(self.angles[i])
        } else {
            None
        }
    }

    /// The gain correction after `i + 1` rotations, or `None` past the end of
    /// the table.
    pub fn gain(&self, i: usize) -> (g: Option<i64>)
        ensures
            g == (if i < MAX_N {
                Some(gain_table()[i as int])
            } else {
                None
            }),
    {
        proof {
            use_type_invariant(self);
        }
        if i < MAX_N {
            Some(self.gains[i])
        } else {
            None
        }
    }

    pub(crate) fn angle_at(&self, i: usize) -> (a: i128)
        requires
            i < MAX_N,
        ensures
            a == angle_table()[i as int],
    {
        proof {
            use_type_invariant(self);
        }
        self.angles[i]
    }

    pub(crate) fn gain_at(&self, i: usize) -> (g: i64)
        requires
            i < MAX_N,
        ensures
            g == gain_table()[i as int],
    {
        proof {
            use_type_invariant(self);
        }
        self.gains[i]
    }
}

/// Builds the two tables. Call it once and hand the result to every rotation.
pub fn precompute() -> (tables: Tables)
    ensures
        tables.angles() == angle_table(),
        tables.gains() == gain_table(),
{
    Tables { angles: ANGLE_TABLE, gains: GAIN_TABLE }
}

/// The shape of the angle table: 64 entries, the first a quarter of pi, all
/// positive, each smaller than its predecessor and none larger than twice its
/// successor.
pub proof fn lemma_angle_table(i: int)
    requires
        0 <= i < MAX_N,
    ensures
        angle_table().len() == MAX_N,
        angle_table()[0] == 12_566_370_614_359_172_954,
        0 < angle_table()[i] <= angle_table()[0],
        i + 1 < MAX_N ==> angle_table()[i + 1] < angle_table()[i] <= 2 * angle_table()[i + 1],
{
}

/// The shape of the gain table: 64 entries, the first the square root of one
/// half, none larger than its predecessor, all above six tenths. The entries
/// fall strictly up to the thirty-first, where the stretch of a rotation
/// drops below one unit, and stay there.
pub proof fn lemma_gain_table(i: int)
    requires
        0 <= i < MAX_N,
    ensures
        gain_table().len() == MAX_N,
        gain_table()[0] == 707_106_781_186_547_524,
        600_000_000_000_000_000 < gain_table()[i] <= gain_table()[0],
        i + 1 < MAX_N ==> gain_table()[i + 1] <= gain_table()[i],
        i < 30 ==> gain_table()[i + 1] < gain_table()[i],
        30 <= i ==> gain_table()[i] == gain_table()[30],
{
}

proof fn lemma_angle_sum_tail(k: nat)
    requires
        k < MAX_N,
    ensures
        0 <= angle_sum(k),
        2 * angle_sum(k) + 5 * angle_table()[k as int] <= 5 * angle_table()[0] + 5 * k,
    decreases k,
{
    if k > 0 {
        lemma_angle_sum_tail((k - 1) as nat);
        lemma_angle_table(k - 1);
        // Each angle is at most three fifths of its predecessor, and one part.
        assert(5 * angle_table()[k as int] <= 3 * angle_table()[k - 1] + 5);
    }
}

/// However many rotations are made in one direction, the angle stays below
/// two radians.
pub proof fn lemma_angle_sum_bound(k: nat)
    requires
        k <= MAX_N,
    ensures
        0 <= angle_sum(k) <= in_parts(2 * SCALE),
{
    if k > 0 {
        lemma_angle_sum_tail((k - 1) as nat);
        lemma_angle_table(k - 1);
    }
}

/// The table is strictly decreasing: a later rotation turns less far than
/// an earlier one.
pub proof fn lemma_angles_fall(i: int, j: int)
    requires
        0 <= i <= j < MAX_N,
    ensures
        angle_table()[j] <= angle_table()[i],
        i < j ==> angle_table()[j] < angle_table()[i],
    decreases j - i,
{
    if i < j {
        lemma_angles_fall(i, j - 1);
        lemma_angle_table(j - 1);
    }
}

/// Whether the gain corrections before and after rotation `k` agree with the
/// stretch of that rotation. A rotation by arctan(2^-k) multiplies the squared
/// length of a vector by 1 + 4^-k, so the square of the correction must shrink
/// by that factor. The two sides may differ by the rounding of the entries.
pub open spec fn gain_step_ok(k: nat) -> bool {
    let p = pow2(2 * k) as int;
    let g0 = gain_after(k);
    let g1 = gain_after(k + 1);
    -2 * SCALE * p <= g1 * g1 * (p + 1) - g0 * g0 * p <= 2 * SCALE * p
}

/// Past the thirty-first rotation the gain correction no longer changes, and
/// the stretch of a rotation is below the rounding of the table.
proof fn lemma_gain_settled(g: int, p: int)
    by (nonlinear_arith)
    requires
        0 <= g <= SCALE,
        p >= 0x4000_0000_0000_0000,
    ensures
        -2 * SCALE * p <= g * g * (p + 1) - g * g * p <= 2 * SCALE * p,
{
}

/// Every entry of the gain table agrees with the stretch of its rotation:
/// each is within a few units of its predecessor divided by the square root
/// of 1 + 4^-k.
pub proof fn lemma_gain_step(k: nat)
    requires
        k < MAX_N,
    ensures
        gain_step_ok(k),
{
    lemma2_to64();
    lemma2_to64_rest();
    match k as u64 {
        0 => {
            assert(gain_step_ok(0)) by (nonlinear_arith) requires pow2(0) == 0x1;
        },
        1 => {
            assert(gain_step_ok(1)) by (nonlinear_arith) requires pow2(2) == 0x4;
        },
        2 => {
            assert(gain_step_ok(2)) by (nonlinear_arith) requires pow2(4) == 0x10;
        },
        3 => {
            assert(gain_step_ok(3)) by (nonlinear_arith) requires pow2(6) == 0x40;
        },
        4 => {
            assert(gain_step_ok(4)) by (nonlinear_arith) requires pow2(8) == 0x100;
        },
        5 => {
            assert(gain_step_ok(5)) by (nonlinear_arith) requires pow2(10) == 0x400;
        },
        6 => {
            assert(gain_step_ok(6)) by (nonlinear_arith) requires pow2(12) == 0x1000;
        },
        7 => {
            assert(gain_step_ok(7)) by (nonlinear_arith) requires pow2(14) == 0x4000;
        },
        8 => {
            assert(gain_step_ok(8)) by (nonlinear_arith) requires pow2(16) == 0x1_0000;
        },
        9 => {
            assert(gain_step_ok(9)) by (nonlinear_arith) requires pow2(18) == 0x4_0000;
        },
        10 => {
            assert(gain_step_ok(10)) by (nonlinear_arith) requires pow2(20) == 0x10_0000;
        },
        11 => {
            assert(gain_step_ok(11)) by (nonlinear_arith) requires pow2(22) == 0x40_0000;
        },
        12 => {
            assert(gain_step_ok(12)) by (nonlinear_arith) requires pow2(24) == 0x100_0000;
        },
        13 => {
            assert(gain_step_ok(13)) by (nonlinear_arith) requires pow2(26) == 0x400_0000;
        },
        14 => {
            assert(gain_step_ok(14)) by (nonlinear_arith) requires pow2(28) == 0x1000_0000;
        },
        15 => {
            assert(gain_step_ok(15)) by (nonlinear_arith) requires pow2(30) == 0x4000_0000;
        },
        16 => {
            assert(gain_step_ok(16)) by (nonlinear_arith) requires pow2(32) == 0x1_0000_0000;
        },
        17 => {
            assert(gain_step_ok(17)) by (nonlinear_arith) requires pow2(34) == 0x4_0000_0000;
        },
        18 => {
            assert(gain_step_ok(18)) by (nonlinear_arith) requires pow2(36) == 0x10_0000_0000;
        },
        19 => {
            assert(gain_step_ok(19)) by (nonlinear_arith) requires pow2(38) == 0x40_0000_0000;
        },
        20 => {
            assert(gain_step_ok(20)) by (nonlinear_arith) requires pow2(40) == 0x100_0000_0000;
        },
        21 => {
            assert(gain_step_ok(21)) by (nonlinear_arith) requires pow2(42) == 0x400_0000_0000;
        },
        22 => {
            assert(gain_step_ok(22)) by (nonlinear_arith) requires pow2(44) == 0x1000_0000_0000;
        },
        23 => {
            assert(gain_step_ok(23)) by (nonlinear_arith) requires pow2(46) == 0x4000_0000_0000;
        },
        24 => {
            assert(gain_step_ok(24)) by (nonlinear_arith) requires pow2(48) == 0x1_0000_0000_0000;
        },
        25 => {
            assert(gain_step_ok(25)) by (nonlinear_arith) requires pow2(50) == 0x4_0000_0000_0000;
        },
        26 => {
            assert(gain_step_ok(26)) by (nonlinear_arith) requires pow2(52) == 0x10_0000_0000_0000;
        },
        27 => {
            assert(gain_step_ok(27)) by (nonlinear_arith) requires pow2(54) == 0x40_0000_0000_0000;
        },
        28 => {
            assert(gain_step_ok(28)) by (nonlinear_arith) requires pow2(56) == 0x100_0000_0000_0000;
        },
        29 => {
            assert(gain_step_ok(29)) by (nonlinear_arith) requires pow2(58) == 0x400_0000_0000_0000;
        },
        30 => {
            assert(gain_step_ok(30)) by (nonlinear_arith) requires pow2(60) == 0x1000_0000_0000_0000;
        },
        _ => {
            assert(gain_after(k + 1) == gain_after(k));
            lemma_gain_table(k as int);
            if 2 * k > 62 {
                lemma_pow2_strictly_increases(62, 2 * k);
            }
            lemma_gain_settled(gain_after(k), pow2(2 * k) as int);
        },
    }
}

} // verus!
