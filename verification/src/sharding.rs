//! Sharding ratios and the integer partitioning of a dimension across the
//! devices of the cluster. Ratios are exact rationals over a common
//! denominator: device `i` receives share `nums[i] / denom` of each sharded
//! dimension, and the numerators sum to the denominator, so the shares sum
//! to one by construction.

use vstd::prelude::*;
use vstd::arithmetic::div_mod::{lemma_div_is_ordered, lemma_fundamental_div_mod};
use vstd::arithmetic::mul::{lemma_mul_upper_bound, lemma_mul_nonnegative};

verus! {

/// The sum of a sequence of 32-bit numerators.
pub open spec fn sum_u32(s: Seq<u32>) -> int
    decreases s.len(),
{
    if s.len() == 0 {
        0
    } else {
        sum_u32(s.drop_last()) + s.last()
    }
}

/// The sum of a sequence of bucket lengths.
pub open spec fn sum_usize(s: Seq<usize>) -> int
    decreases s.len(),
{
    if s.len() == 0 {
        0
    } else {
        sum_usize(s.drop_last()) + s.last()
    }
}

pub proof fn lemma_sum_u32_take_step(s: Seq<u32>, i: int)
    requires
        0 <= i < s.len(),
    ensures
        sum_u32(s.take(i + 1)) == sum_u32(s.take(i)) + s[i],
{
    assert(s.take(i + 1).drop_last() == s.take(i));
    assert(s.take(i + 1).last() == s[i]);
}

pub proof fn lemma_sum_usize_take_step(s: Seq<usize>, i: int)
    requires
        0 <= i < s.len(),
    ensures
        sum_usize(s.take(i + 1)) == sum_usize(s.take(i)) + s[i],
{
    assert(s.take(i + 1).drop_last() == s.take(i));
    assert(s.take(i + 1).last() == s[i]);
}

pub proof fn lemma_sum_u32_nonneg(s: Seq<u32>)
    ensures
        sum_u32(s) >= 0,
    decreases s.len(),
{
    if s.len() > 0 {
        lemma_sum_u32_nonneg(s.drop_last());
    }
}

pub proof fn lemma_sum_usize_nonneg(s: Seq<usize>)
    ensures
        sum_usize(s) >= 0,
    decreases s.len(),
{
    if s.len() > 0 {
        lemma_sum_usize_nonneg(s.drop_last());
    }
}

/// Every element is at most the sum of the (non-negative) sequence.
pub proof fn lemma_elem_le_sum_u32(s: Seq<u32>, i: int)
    requires
        0 <= i < s.len(),
    ensures
        s[i] <= sum_u32(s),
    decreases s.len(),
{
    if i == s.len() - 1 {
        lemma_sum_u32_nonneg(s.drop_last());
    } else {
        lemma_elem_le_sum_u32(s.drop_last(), i);
    }
}

/// Every element is at most the sum of the (non-negative) sequence.
pub proof fn lemma_elem_le_sum_usize(s: Seq<usize>, i: int)
    requires
        0 <= i < s.len(),
    ensures
        s[i] <= sum_usize(s),
    decreases s.len(),
{
    if i == s.len() - 1 {
        lemma_sum_usize_nonneg(s.drop_last());
    } else {
        lemma_elem_le_sum_usize(s.drop_last(), i);
    }
}

/// Replacing one element changes the sum by the difference.
pub proof fn lemma_sum_usize_update(s: Seq<usize>, i: int, v: usize)
    requires
        0 <= i < s.len(),
    ensures
        sum_usize(s.update(i, v)) == sum_usize(s) - s[i] + v,
    decreases s.len(),
{
    let u = s.update(i, v);
    if i == s.len() - 1 {
        assert(u.drop_last() == s.drop_last());
        assert(u.last() == v);
    } else {
        assert(u.drop_last() == s.drop_last().update(i, v));
        assert(u.last() == s.last());
        lemma_sum_usize_update(s.drop_last(), i, v);
    }
}

/// The sum of a shorter prefix is at most the sum of a longer one.
pub proof fn lemma_sum_u32_prefix_le(s: Seq<u32>, i: int, j: int)
    requires
        0 <= i <= j <= s.len(),
    ensures
        sum_u32(s.take(i)) <= sum_u32(s.take(j)),
    decreases j - i,
{
    if i < j {
        lemma_sum_u32_take_step(s, j - 1);
        lemma_sum_u32_prefix_le(s, i, j - 1);
    }
}

/// Floor division distributes sub-additively over addition.
pub proof fn lemma_div_add_le(a: int, b: int, d: int)
    requires
        a >= 0,
        b >= 0,
        d > 0,
    ensures
        a / d + b / d <= (a + b) / d,
{
    lemma_fundamental_div_mod(a, d);
    lemma_fundamental_div_mod(b, d);
    lemma_fundamental_div_mod(a + b, d);
    assert(a / d + b / d <= (a + b) / d) by (nonlinear_arith)
        requires
            a == d * (a / d) + a % d,
            b == d * (b / d) + b % d,
            a + b == d * ((a + b) / d) + (a + b) % d,
            0 <= a % d < d,
            0 <= b % d < d,
            0 <= (a + b) % d < d,
            d > 0,
    {
    }
}

/// Scaling by a fraction at most one does not increase the value.
pub proof fn lemma_mul_div_le(l: int, n: int, d: int)
    requires
        l >= 0,
        0 <= n <= d,
        d > 0,
    ensures
        l * n / d <= l,
{
    assert(l * n <= l * d) by (nonlinear_arith)
        requires
            l >= 0,
            n <= d,
    {
    }
    lemma_div_is_ordered(l * n, l * d, d);
    assert(l * d / d == l) by (nonlinear_arith)
        requires
            d > 0,
    {
    }
}

/// The sum of a sequence of bucket lengths, in the mathematical integers.
pub open spec fn sum_int(s: Seq<int>) -> int
    decreases s.len(),
{
    if s.len() == 0 {
        0
    } else {
        sum_int(s.drop_last()) + s.last()
    }
}

/// A sequence of bucket lengths as mathematical integers.
pub open spec fn as_ints(s: Seq<usize>) -> Seq<int> {
    Seq::new(s.len(), |i: int| s[i] as int)
}

/// The two sums agree.
pub proof fn lemma_sum_as_ints(s: Seq<usize>)
    ensures
        sum_int(as_ints(s)) == sum_usize(s),
    decreases s.len(),
{
    if s.len() > 0 {
        assert(as_ints(s).drop_last() =~= as_ints(s.drop_last()));
        lemma_sum_as_ints(s.drop_last());
    }
}

/// How far bucket `j` lags its exact share, scaled by `denom * length`:
/// the quantity the greedy rounding maximizes when placing a remainder
/// unit.
pub open spec fn bucket_score(nums: Seq<u32>, denom: int, length: int, acc: Seq<int>, j: int)
    -> int {
    (nums[j] as int) * length - acc[j] * denom
}

/// The first index among the first `i` buckets with the maximal score:
/// ties break towards the smallest index.
pub open spec fn arg_best(nums: Seq<u32>, denom: int, length: int, acc: Seq<int>, i: int) -> int
    decreases i,
{
    if i <= 1 {
        0
    } else {
        let prev = arg_best(nums, denom, length, acc, i - 1);
        if bucket_score(nums, denom, length, acc, i - 1) > bucket_score(
            nums,
            denom,
            length,
            acc,
            prev,
        ) {
            i - 1
        } else {
            prev
        }
    }
}

/// Places `k` remainder units one at a time, each on the first bucket with
/// the largest deficit.
pub open spec fn fill(nums: Seq<u32>, denom: int, length: int, acc: Seq<int>, k: nat) -> Seq<int>
    decreases k,
{
    if k == 0 {
        acc
    } else {
        let j = arg_best(nums, denom, length, acc, acc.len() as int);
        fill(nums, denom, length, acc.update(j, acc[j] + 1), (k - 1) as nat)
    }
}

/// The floor of each bucket's exact share.
pub open spec fn floor_seeds(nums: Seq<u32>, denom: int, length: int) -> Seq<int> {
    Seq::new(nums.len(), |i: int| length * (nums[i] as int) / denom)
}

/// The exact result of the greedy rounding: floor seeds, then one unit at
/// a time to the first bucket with the largest deficit until the sum is
/// the full length.
pub open spec fn sharding_round_spec(length: int, r: Ratios) -> Seq<int> {
    let seeds = floor_seeds(r.nums@, r.denom as int, length);
    let short = length - sum_int(seeds);
    fill(r.nums@, r.denom as int, length, seeds, if short >= 0 {
        short as nat
    } else {
        0
    })
}

/// Filling keeps the number of buckets.
pub proof fn lemma_fill_len(nums: Seq<u32>, denom: int, length: int, acc: Seq<int>, k: nat)
    requires
        acc.len() >= 1,
    ensures
        fill(nums, denom, length, acc, k).len() == acc.len(),
    decreases k,
{
    if k > 0 {
        let j = arg_best(nums, denom, length, acc, acc.len() as int);
        lemma_arg_best_in_range(nums, denom, length, acc, acc.len() as int);
        lemma_fill_len(nums, denom, length, acc.update(j, acc[j] + 1), (k - 1) as nat);
    }
}

/// The chosen bucket exists.
pub proof fn lemma_arg_best_in_range(nums: Seq<u32>, denom: int, length: int, acc: Seq<int>, i:
    int)
    requires
        i >= 1,
    ensures
        0 <= arg_best(nums, denom, length, acc, i) < i,
    decreases i,
{
    if i > 1 {
        lemma_arg_best_in_range(nums, denom, length, acc, i - 1);
    }
}

/// Filling never lowers a bucket, so non-negative buckets stay
/// non-negative.
pub proof fn lemma_fill_nonneg(nums: Seq<u32>, denom: int, length: int, acc: Seq<int>, k: nat)
    requires
        acc.len() >= 1,
        forall|i: int| 0 <= i < acc.len() ==> #[trigger] acc[i] >= 0,
    ensures
        forall|i: int|
            0 <= i < acc.len() ==> #[trigger] fill(nums, denom, length, acc, k)[i] >= 0,
    decreases k,
{
    lemma_fill_len(nums, denom, length, acc, k);
    if k > 0 {
        let j = arg_best(nums, denom, length, acc, acc.len() as int);
        lemma_arg_best_in_range(nums, denom, length, acc, acc.len() as int);
        let acc2 = acc.update(j, acc[j] + 1);
        assert forall|i: int| 0 <= i < acc2.len() implies #[trigger] acc2[i] >= 0 by {
            if i != j {
                assert(acc2[i] == acc[i]);
            }
        }
        lemma_fill_nonneg(nums, denom, length, acc2, (k - 1) as nat);
        assert forall|i: int|
            0 <= i < acc.len() implies #[trigger] fill(nums, denom, length, acc, k)[i] >= 0 by {
            assert(fill(nums, denom, length, acc, k) == fill(
                nums,
                denom,
                length,
                acc2,
                (k - 1) as nat,
            ));
            assert(fill(nums, denom, length, acc2, (k - 1) as nat)[i] >= 0);
        }
    }
}

/// Every bucket of the rounding is non-negative.
pub proof fn lemma_sharding_round_spec_nonneg(length: int, r: Ratios, i: int)
    requires
        r.wf(),
        length >= 0,
        0 <= i < r.nums@.len(),
    ensures
        sharding_round_spec(length, r).len() == r.nums@.len(),
        sharding_round_spec(length, r)[i] >= 0,
{
    let seeds = floor_seeds(r.nums@, r.denom as int, length);
    assert forall|x: int| 0 <= x < seeds.len() implies #[trigger] seeds[x] >= 0 by {
        vstd::arithmetic::mul::lemma_mul_nonnegative(length, r.nums@[x] as int);
        vstd::arithmetic::div_mod::lemma_div_pos_is_pos(
            length * (r.nums@[x] as int),
            r.denom as int,
        );
    }
    let short = length - sum_int(seeds);
    let k: nat = if short >= 0 {
        short as nat
    } else {
        0
    };
    lemma_fill_len(r.nums@, r.denom as int, length, seeds, k);
    lemma_fill_nonneg(r.nums@, r.denom as int, length, seeds, k);
}

/// Why a ratio vector was rejected.
#[derive(Clone, Copy, PartialEq, Eq, Structural, Debug)]
pub enum RatioError {
    /// The vector holds no entry: the cluster would have no device.
    EmptyRatios,
    /// The shares sum to zero, so they cannot sum to one.
    ZeroSum,
    /// The numerators overflow the common denominator's range.
    SumTooLarge,
}

/// Sharding ratios: device `i` receives share `nums[i] / denom`.
#[derive(Debug)]
pub struct Ratios {
    pub nums: Vec<u32>,
    pub denom: u32,
}

impl Ratios {
    /// The shares are well-formed and sum to exactly one.
    pub open spec fn wf(&self) -> bool {
        &&& self.nums@.len() >= 1
        &&& self.denom >= 1
        &&& sum_u32(self.nums@) == self.denom as int
    }

    /// Validates a vector of numerators; the denominator is their sum, so the
    /// shares sum to one exactly. Rejects an empty vector, a zero sum, and a
    /// sum beyond the denominator's range.
    pub fn new(nums: Vec<u32>) -> (r: Result<Ratios, RatioError>)
        ensures
            match r {
                Ok(ratios) => ratios.wf() && ratios.nums@ == nums@ && 0 < sum_u32(nums@)
                    <= u32::MAX,
                Err(RatioError::EmptyRatios) => nums@.len() == 0,
                Err(RatioError::ZeroSum) => nums@.len() >= 1 && sum_u32(nums@) == 0,
                Err(RatioError::SumTooLarge) => sum_u32(nums@) > u32::MAX,
            },
    {
        if nums.len() == 0 {
            return Err(RatioError::EmptyRatios);
        }
        let mut acc: u64 = 0;
        let mut i: usize = 0;
        while i < nums.len()
            invariant
                i <= nums@.len(),
                acc == sum_u32(nums@.take(i as int)),
                acc <= u32::MAX,
            decreases nums@.len() - i,
        {
            proof {
                lemma_sum_u32_take_step(nums@, i as int);
            }
            let next: u64 = acc + (nums[i] as u64);
            if next > (u32::MAX as u64) {
                proof {
                    // the sum of a prefix bounds the total from below
                    lemma_sum_u32_prefix_le(nums@, i + 1, nums@.len() as int);
                    assert(nums@.take(nums@.len() as int) == nums@);
                }
                return Err(RatioError::SumTooLarge);
            }
            acc = next;
            i += 1;
        }
        proof {
            assert(nums@.take(nums@.len() as int) == nums@);
        }
        if acc == 0 {
            return Err(RatioError::ZeroSum);
        }
        Ok(Ratios { nums, denom: acc as u32 })
    }

    /// The number of devices the ratios describe.
    pub fn n_shares(&self) -> (r: usize)
        ensures
            r == self.nums@.len(),
    {
        self.nums.len()
    }
}

/// Partitions an integer `length` into `k` non-negative buckets whose sum is
/// exactly `length` and whose proportions approximate the sharding ratios:
/// each bucket is seeded with the floor of its exact share, and while the sum
/// falls short of `length` the bucket with the largest deficit against its
/// exact share is incremented, ties broken towards the smallest index.
pub fn sharding_round(length: usize, ratios: &Ratios) -> (r: Vec<usize>)
    requires
        ratios.wf(),
    ensures
        r@.len() == ratios.nums@.len(),
        sum_usize(r@) == length,
        forall|i: int|
            0 <= i < r@.len() ==> (length as int) * (ratios.nums@[i] as int) / (
            ratios.denom as int) <= #[trigger] r@[i] <= length,
        as_ints(r@) == sharding_round_spec(length as int, *ratios),
{
    let k = ratios.nums.len();
    let d: u128 = ratios.denom as u128;
    let mut lengths: Vec<usize> = Vec::new();
    let mut total: usize = 0;
    let mut i: usize = 0;
    while i < k
        invariant
            i <= k,
            k == ratios.nums@.len(),
            ratios.wf(),
            d == ratios.denom as int,
            lengths@.len() == i,
            total == sum_usize(lengths@),
            total as int <= (length as int) * sum_u32(ratios.nums@.take(i as int)) / (d as int),
            forall|j: int|
                0 <= j < i ==> #[trigger] lengths@[j] == (length as int) * (
                ratios.nums@[j] as int) / (d as int),
            forall|j: int| 0 <= j < i ==> #[trigger] lengths@[j] <= length,
        decreases k - i,
    {
        let n: u128 = ratios.nums[i] as u128;
        proof {
            lemma_mul_upper_bound(length as int, u64::MAX as int, n as int, u32::MAX as int);
        }
        let f: u128 = (length as u128) * n / d;
        proof {
            lemma_elem_le_sum_u32(ratios.nums@, i as int);
            lemma_mul_div_le(length as int, n as int, d as int);
            lemma_sum_u32_take_step(ratios.nums@, i as int);
            lemma_sum_u32_nonneg(ratios.nums@.take(i as int));
            lemma_mul_nonnegative(length as int, sum_u32(ratios.nums@.take(i as int)));
            lemma_div_add_le(
                (length as int) * sum_u32(ratios.nums@.take(i as int)),
                (length as int) * (ratios.nums@[i as int] as int),
                d as int,
            );
            assert((length as int) * sum_u32(ratios.nums@.take(i as int)) + (length as int) * (
            ratios.nums@[i as int] as int) == (length as int) * sum_u32(
                ratios.nums@.take(i + 1 as int),
            )) by (nonlinear_arith)
                requires
                    sum_u32(ratios.nums@.take(i + 1 as int)) == sum_u32(
                        ratios.nums@.take(i as int),
                    ) + ratios.nums@[i as int],
            {
            }
            lemma_sum_u32_prefix_le(ratios.nums@, i + 1, ratios.nums@.len() as int);
            assert(ratios.nums@.take(ratios.nums@.len() as int) == ratios.nums@);
            lemma_sum_u32_nonneg(ratios.nums@.take(i + 1 as int));
            lemma_mul_div_le(length as int, sum_u32(ratios.nums@.take(i + 1 as int)), d as int);
        }
        let fl: usize = f as usize;
        let ghost prev = lengths@;
        lengths.push(fl);
        proof {
            assert(lengths@.drop_last() == prev);
        }
        total = total + fl;
        i += 1;
    }
    proof {
        assert(ratios.nums@.take(k as int) == ratios.nums@);
        lemma_mul_div_le(length as int, ratios.denom as int, ratios.denom as int);
        assert(as_ints(lengths@) =~= floor_seeds(ratios.nums@, d as int, length as int));
        lemma_sum_as_ints(lengths@);
    }
    let ghost target = sharding_round_spec(length as int, *ratios);
    proof {
        assert(target == fill(
            ratios.nums@,
            d as int,
            length as int,
            as_ints(lengths@),
            (length - total) as nat,
        ));
    }
    while total < length
        invariant
            k == ratios.nums@.len(),
            k >= 1,
            ratios.wf(),
            d == ratios.denom as int,
            lengths@.len() == k,
            total == sum_usize(lengths@),
            total <= length,
            forall|j: int|
                0 <= j < k ==> (length as int) * (ratios.nums@[j] as int) / (d as int)
                    <= #[trigger] lengths@[j],
            forall|j: int| 0 <= j < k ==> #[trigger] lengths@[j] <= length,
            target == sharding_round_spec(length as int, *ratios),
            fill(ratios.nums@, d as int, length as int, as_ints(lengths@), (
            length - total) as nat) == target,
        decreases length - total,
    {
        // pick the bucket with the largest deficit `nums[j]/denom - lengths[j]/length`,
        // compared exactly by cross-multiplication; first maximum wins
        let ghost acc = as_ints(lengths@);
        let mut best: usize = 0;
        let mut j: usize = 1;
        while j < k
            invariant
                k == ratios.nums@.len(),
                lengths@.len() == k,
                best < j <= k,
                1 <= j,
                d == ratios.denom as int,
                acc == as_ints(lengths@),
                best as int == arg_best(ratios.nums@, d as int, length as int, acc, j as int),
                forall|m: int| 0 <= m < k ==> #[trigger] lengths@[m] <= length,
            decreases k - j,
        {
            proof {
                lemma_mul_upper_bound(
                    ratios.nums@[j as int] as int,
                    u32::MAX as int,
                    length as int,
                    u64::MAX as int,
                );
                lemma_mul_upper_bound(
                    ratios.nums@[best as int] as int,
                    u32::MAX as int,
                    length as int,
                    u64::MAX as int,
                );
                lemma_mul_upper_bound(
                    lengths@[best as int] as int,
                    u64::MAX as int,
                    d as int,
                    u32::MAX as int,
                );
                lemma_mul_upper_bound(
                    lengths@[j as int] as int,
                    u64::MAX as int,
                    d as int,
                    u32::MAX as int,
                );
            }
            let gain_j: u128 = (ratios.nums[j] as u128) * (length as u128) + (
            lengths[best] as u128) * (d as u128);
            let gain_best: u128 = (ratios.nums[best] as u128) * (length as u128) + (
            lengths[j] as u128) * (d as u128);
            proof {
                // the cross-multiplied comparison decides exactly whether
                // bucket j's deficit beats the current best's
                assert(acc[j as int] == lengths@[j as int] && acc[best as int]
                    == lengths@[best as int]);
                assert(gain_j as int == (ratios.nums@[j as int] as int) * (length as int) + (
                lengths@[best as int] as int) * (d as int));
                assert(gain_best as int == (ratios.nums@[best as int] as int) * (length as int)
                    + (lengths@[j as int] as int) * (d as int));
                assert((gain_j > gain_best) == (bucket_score(
                    ratios.nums@,
                    d as int,
                    length as int,
                    acc,
                    j as int,
                ) > bucket_score(ratios.nums@, d as int, length as int, acc, best as int)));
            }
            if gain_j > gain_best {
                best = j;
            }
            j += 1;
        }
        proof {
            lemma_elem_le_sum_usize(lengths@, best as int);
            lemma_sum_usize_update(lengths@, best as int, (lengths@[best as int] + 1) as usize);
            // the exec choice is exactly the specification's choice, so one
            // unfolding of the greedy fill matches the bump below
            assert(best as int == arg_best(
                ratios.nums@,
                d as int,
                length as int,
                acc,
                acc.len() as int,
            ));
            assert(fill(ratios.nums@, d as int, length as int, acc, (length - total) as nat)
                == fill(
                ratios.nums@,
                d as int,
                length as int,
                acc.update(best as int, acc[best as int] + 1),
                (length - total - 1) as nat,
            ));
            assert(as_ints(lengths@.update(best as int, (lengths@[best as int] + 1) as usize))
                =~= acc.update(best as int, acc[best as int] + 1));
        }
        let bumped: usize = lengths[best] + 1;
        lengths.set(best, bumped);
        total = total + 1;
    }
    proof {
        assert(fill(ratios.nums@, d as int, length as int, as_ints(lengths@), 0nat) == as_ints(
            lengths@,
        ));
    }
    lengths
}

} // verus!
