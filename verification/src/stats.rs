use vstd::prelude::*;
use crate::engine::{sincos, BudgetError};
use crate::rotation::{lemma_steps_within_budget, sincos_value};
use crate::tables::{Tables, MAX_N};

verus! {

/// Pi in fixed point, rounded down.
pub const PI: i64 = 3_141_592_653_589_793_238;

/// Half of pi in fixed point, rounded down.
pub const HALF_PI: i64 = 1_570_796_326_794_896_619;

/// The angle that 64 random bits stand for. The top 53 bits, read as a
/// fraction of one, pick a point of the half turn from `-HALF_PI` up to
/// `HALF_PI`; bits that are uniform give angles that are.
pub open spec fn angle_of_bits(bits: u64) -> int {
    (bits as int / 0x800) * PI / 0x20_0000_0000_0000 - HALF_PI
}

/// The sum of the entries of `s`.
pub open spec fn sum(s: Seq<u64>) -> int
    decreases s.len(),
{
    if s.len() == 0 {
        0
    } else {
        sum(s.drop_last()) + s.last()
    }
}

/// The sum of the entries of `s`, each multiplied by its index.
pub open spec fn weighted_sum(s: Seq<u64>) -> int
    decreases s.len(),
{
    if s.len() == 0 {
        0
    } else {
        weighted_sum(s.drop_last()) + (s.len() - 1) * s.last()
    }
}

/// Whether `theta` is an angle that some 64 bits stand for.
pub open spec fn is_drawn(theta: i64) -> bool {
    exists|bits: u64| theta == angle_of_bits(bits)
}

/// Whether each of `angles` is an angle that some 64 bits stand for.
pub open spec fn all_drawn(angles: Seq<i64>) -> bool {
    forall|j: int| 0 <= j < angles.len() ==> is_drawn(#[trigger] angles[j])
}

/// Whether some 64 bits stand for an angle that takes `k` rotations of a
/// budget of `n`.
pub open spec fn step_count_drawn(n: nat, k: int) -> bool {
    exists|bits: u64| (#[trigger] sincos_value(angle_of_bits(bits), n)).2 == k
}

/// How many of `angles` take `k` rotations of a budget of `n`.
pub open spec fn count_steps(angles: Seq<i64>, n: nat, k: int) -> nat
    decreases angles.len(),
{
    if angles.len() == 0 {
        0
    } else {
        let rest = count_steps(angles.drop_last(), n, k);
        if sincos_value(angles.last() as int, n).2 == k {
            rest + 1
        } else {
            rest
        }
    }
}

/// How many rotations a run of trials took.
#[derive(Debug)]
pub struct StepCounts {
    /// The rotations made, over all trials.
    pub total: u128,
    /// Entry `k` counts the trials that made `k` rotations.
    pub counts: Vec<u64>,
}

proof fn lemma_sum_push(s: Seq<u64>, v: u64)
    ensures
        sum(s.push(v)) == sum(s) + v,
        weighted_sum(s.push(v)) == weighted_sum(s) + s.len() * v,
{
    assert(s.push(v).drop_last() =~= s);
}

/// No entry exceeds the sum, and the weighted sum is at most the sum times the
/// largest index.
proof fn lemma_sum_bounds(s: Seq<u64>)
    ensures
        0 <= sum(s),
        forall|k: int| 0 <= k < s.len() ==> s[k] <= sum(s),
        0 <= weighted_sum(s),
        s.len() > 0 ==> weighted_sum(s) <= (s.len() - 1) * sum(s),
    decreases s.len(),
{
    if s.len() > 0 {
        let head = s.drop_last();
        lemma_sum_bounds(head);
        let n = s.len() - 1;
        let a = sum(head);
        let w = weighted_sum(head);
        let l = s.last() as int;
        assert(0 <= n * l && w + n * l <= n * (a + l)) by (nonlinear_arith)
            requires
                0 <= a,
                0 <= l,
                0 <= w,
                n == 0 ==> w == 0,
                n > 0 ==> w <= (n - 1) * a,
                n >= 0,
        ;
        assert forall|k: int| 0 <= k < s.len() implies s[k] <= sum(s) by {
            if k < n {
                assert(head[k] == s[k]);
            }
        }
    }
}

/// What the two sums become where one entry changes.
proof fn lemma_sum_update(s: Seq<u64>, k: int, v: u64)
    requires
        0 <= k < s.len(),
    ensures
        sum(s.update(k, v)) == sum(s) - s[k] + v,
        weighted_sum(s.update(k, v)) == weighted_sum(s) - k * s[k] + k * v,
    decreases s.len(),
{
    let t = s.update(k, v);
    if k == s.len() - 1 {
        assert(t.drop_last() =~= s.drop_last());
    } else {
        assert(t.drop_last() =~= s.drop_last().update(k, v));
        lemma_sum_update(s.drop_last(), k, v);
    }
}

/// A step count that one of the angles takes is one that a drawn angle takes,
/// where all of them are drawn.
proof fn lemma_counted_is_drawn(angles: Seq<i64>, n: nat, k: int)
    requires
        all_drawn(angles),
        count_steps(angles, n, k) > 0,
    ensures
        step_count_drawn(n, k),
    decreases angles.len(),
{
    let last = angles.last();
    if sincos_value(last as int, n).2 == k {
        assert(is_drawn(angles[angles.len() - 1]));
        let bits = choose|bits: u64| last == angle_of_bits(bits);
        assert(sincos_value(angle_of_bits(bits), n).2 == k);
    } else {
        let rest = angles.drop_last();
        assert forall|j: int| 0 <= j < rest.len() implies is_drawn(#[trigger] rest[j]) by {
            assert(rest[j] == angles[j]);
        }
        lemma_counted_is_drawn(rest, n, k);
    }
}

impl StepCounts {
    /// The number of trials counted.
    pub open spec fn trials(&self) -> int {
        sum(self.counts@)
    }

    /// Whether the total is that of the counts.
    pub open spec fn wf(&self) -> bool {
        self.total == weighted_sum(self.counts@)
    }

    /// Whether these are the counts of rotations of budget `n` toward
    /// `angles`: one trial for each angle, counted under the number of
    /// rotations that it takes.
    pub open spec fn is_tally(&self, angles: Seq<i64>, n: nat) -> bool {
        &&& self.wf()
        &&& self.counts@.len() == n + 1
        &&& self.trials() == angles.len()
        &&& forall|k: int| 0 <= k <= n ==> #[trigger] self.counts@[k] == count_steps(angles, n, k)
    }

    /// Empty counts for rotations of budget `n`: one entry for each number of
    /// rotations from 0 to `n`.
    pub fn new(n: usize) -> (c: StepCounts)
        requires
            n < usize::MAX,
        ensures
            c.wf(),
            c.total == 0,
            c.counts@.len() == n + 1,
            forall|k: int| 0 <= k <= n ==> c.counts@[k] == 0,
            c.trials() == 0,
    {
        let mut counts: Vec<u64> = Vec::new();
        while counts.len() <= n
            invariant
                n < usize::MAX,
                counts.len() <= n + 1,
                forall|k: int| 0 <= k < counts.len() ==> counts@[k] == 0,
                sum(counts@) == 0,
                weighted_sum(counts@) == 0,
            decreases n + 1 - counts.len(),
        {
            proof {
                lemma_sum_push(counts@, 0);
            }
            counts.push(0);
        }
        StepCounts { total: 0, counts }
    }

    /// Counts one more trial, which made `steps` rotations.
    pub fn record(&mut self, steps: usize)
        requires
            old(self).wf(),
            steps < old(self).counts@.len(),
            old(self).trials() < u64::MAX,
        ensures
            final(self).wf(),
            final(self).counts@ == old(self).counts@.update(
                steps as int,
                (old(self).counts@[steps as int] + 1) as u64,
            ),
            final(self).total == old(self).total + steps,
            final(self).trials() == old(self).trials() + 1,
    {
        let seen = self.counts[steps];
        let len = self.counts.len();
        proof {
            lemma_sum_bounds(self.counts@);
            lemma_sum_update(self.counts@, steps as int, (seen + 1) as u64);
            assert(steps * seen + steps == steps * (seen + 1)) by (nonlinear_arith);
            // The total is at most the largest step count times the number of trials.
            assert((len - 1) * sum(self.counts@) + steps < u128::MAX) by (nonlinear_arith)
                requires
                    0 <= sum(self.counts@) <= 0xffff_ffff_ffff_ffff,
                    0 <= steps <= len - 1 <= 0xffff_ffff_ffff_ffff,
                    u128::MAX == 0xffff_ffff_ffff_ffff_ffff_ffff_ffff_ffff,
            ;
        }
        self.counts.set(steps, seen + 1);
        self.total = self.total + steps as u128;
    }
}

/// Turns 64 random bits into an angle between a quarter turn below zero and
/// a quarter turn above it.
pub fn angle_from_bits(bits: u64) -> (theta: i64)
    ensures
        theta == angle_of_bits(bits),
        -HALF_PI <= theta < HALF_PI,
{
    let fraction: u128 = (bits / 0x800) as u128;
    assert(fraction * PI <= 0x20_0000_0000_0000 * PI) by (nonlinear_arith)
        requires
            fraction < 0x20_0000_0000_0000,
    ;
    let turned: u128 = fraction * (PI as u128) / 0x20_0000_0000_0000;
    (turned as i64) - HALF_PI
}

/// Calls `rand::random::<u64>()`, which draws 64 bits from the generator of
/// the calling thread. Nothing is claimed of the bits. The call fails only
/// where the operating system gives that generator no seed.
#[verifier::external_body]
fn random_bits() -> (bits: u64) {
    rand::random::<u64>()
}

/// Draws 64 bits at random and returns the angle that they stand for, which
/// lies between a quarter turn below zero and a quarter turn above it.
pub fn random_angle() -> (theta: i64)
    ensures
        exists|bits: u64| theta == angle_of_bits(bits),
        -HALF_PI <= theta < HALF_PI,
{
    angle_from_bits(random_bits())
}

/// Draws `trials` angles at random.
fn random_angles(trials: usize) -> (angles: Vec<i64>)
    ensures
        angles@.len() == trials,
        all_drawn(angles@),
        forall|j: int| 0 <= j < trials ==> -HALF_PI <= #[trigger] angles@[j] < HALF_PI,
{
    let mut angles: Vec<i64> = Vec::new();
    while angles.len() < trials
        invariant
            angles@.len() <= trials,
            all_drawn(angles@),
            forall|j: int| 0 <= j < angles@.len() ==> -HALF_PI <= #[trigger] angles@[j] < HALF_PI,
        decreases trials - angles@.len(),
    {
        let theta = random_angle();
        assert(is_drawn(theta));
        angles.push(theta);
    }
    angles
}

/// Runs one rotation of budget `n` toward each of `angles`, and counts how
/// many rotations each made before it met its angle or spent the budget. A
/// budget outside 1 to [`MAX_N`] is refused.
pub fn tally_steps(tables: &Tables, angles: &Vec<i64>, n: usize) -> (r: Result<
    StepCounts,
    BudgetError,
>)
    ensures
        n == 0 ==> r == Err::<StepCounts, BudgetError>(BudgetError::Zero),
        n > MAX_N ==> r == Err::<StepCounts, BudgetError>(BudgetError::TooLarge),
        1 <= n <= MAX_N ==> (r matches Ok(c) && c.is_tally(angles@, n as nat)),
{
    if n == 0 {
        return Err(BudgetError::Zero);
    }
    if n > MAX_N {
        return Err(BudgetError::TooLarge);
    }
    let mut counts = StepCounts::new(n);
    let mut done: usize = 0;
    while done < angles.len()
        invariant
            1 <= n <= MAX_N,
            done <= angles@.len(),
            counts.is_tally(angles@.take(done as int), n as nat),
        decreases angles@.len() - done,
    {
        let theta = angles[done];
        if let Ok((_, _, steps)) = sincos(tables, theta, n) {
            let ghost before = counts.counts@;
            let ghost seen = angles@.take(done as int);
            let ghost now = angles@.take(done + 1);
            proof {
                lemma_steps_within_budget(theta as int, n as nat);
                lemma_sum_bounds(before);
                assert(now.drop_last() =~= seen);
                assert(now.last() == theta);
                assert(steps == sincos_value(theta as int, n as nat).2);
            }
            counts.record(steps);
            assert forall|k: int| 0 <= k <= n implies #[trigger] counts.counts@[k] == count_steps(
                now,
                n as nat,
                k,
            ) by {
                // The angle just counted is the last of those seen now.
                let one_more: nat = if steps == k {
                    1
                } else {
                    0
                };
                assert(before[k] == count_steps(seen, n as nat, k));
                assert(count_steps(now, n as nat, k) == count_steps(now.drop_last(), n as nat, k)
                    + one_more);
            }
        }
        done = done + 1;
    }
    assert(angles@.take(done as int) =~= angles@);
    Ok(counts)
}

/// Runs `trials` rotations of budget `n`, each toward an angle drawn at
/// random, and counts how many rotations each made before it met its angle
/// or spent the budget. A budget outside 1 to [`MAX_N`] is refused.
pub fn step_distribution(tables: &Tables, trials: usize, n: usize) -> (r: Result<
    StepCounts,
    BudgetError,
>)
    ensures
        n == 0 ==> r == Err::<StepCounts, BudgetError>(BudgetError::Zero),
        n > MAX_N ==> r == Err::<StepCounts, BudgetError>(BudgetError::TooLarge),
        1 <= n <= MAX_N ==> (r matches Ok(c) && c.wf() && c.counts@.len() == n + 1 && c.trials()
            == trials),
        1 <= n <= MAX_N ==> (r matches Ok(c) && exists|angles: Seq<i64>|
            angles.len() == trials && all_drawn(angles) && #[trigger] c.is_tally(angles, n as nat)),
        1 <= n <= MAX_N ==> (r matches Ok(c) && forall|k: int|
            0 <= k <= n && #[trigger] c.counts@[k] > 0 ==> step_count_drawn(n as nat, k)),
{
    if n == 0 {
        return Err(BudgetError::Zero);
    }
    if n > MAX_N {
        return Err(BudgetError::TooLarge);
    }
    let angles = random_angles(trials);
    let r = tally_steps(tables, &angles, n);
    proof {
        let c = r->Ok_0;
        assert(c.is_tally(angles@, n as nat));
        assert forall|k: int| 0 <= k <= n && #[trigger] c.counts@[k] > 0 implies step_count_drawn(
            n as nat,
            k,
        ) by {
            lemma_counted_is_drawn(angles@, n as nat, k);
        }
    }
    r
}

} // verus!
