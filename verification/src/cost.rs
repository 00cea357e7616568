//! The cluster description and the cost model. A profile carries the FLOPs
//! of an operation and the bytes each collective moves; the model converts a
//! profile into an estimated time given the per-device throughput, the four
//! collective bandwidths, and the sharding ratios. Times are exact integers
//! in units of `1 / TIME_SCALE` seconds-per-unit-work, computed with floor
//! division, so plan costs are total-ordered and reproducible.

use vstd::prelude::*;
use vstd::arithmetic::mul::{lemma_mul_upper_bound, lemma_mul_strictly_positive};
use vstd::arithmetic::div_mod::lemma_div_nonincreasing;
use crate::sharding::Ratios;

verus! {

/// Resolution of the integer time unit.
pub const TIME_SCALE: u64 = 1000000;

/// An upper bound on any single scaled term of the cost model.
pub const TERM_BOUND: u128 = 0x100000000000000000000000000000;

/// An upper bound on the whole estimated time of one profile; half the
/// largest cost, so two profile times always add without overflow.
pub const TIME_BOUND: u128 = 0x800000000000000000000000000000;

/// Work of one operation: its computation in FLOPs and the bytes moved by
/// each collective communication it performs.
#[derive(Clone, Copy, PartialEq, Eq, Structural, Debug)]
pub struct Profile {
    pub flops: u64,
    pub all_reduce: u64,
    pub all_gather: u64,
    pub all_to_all: u64,
    pub reduce_scatter: u64,
}

impl Profile {
    /// A profile with no work at all.
    pub fn zero() -> (r: Profile)
        ensures
            r == (Profile {
                flops: 0,
                all_reduce: 0,
                all_gather: 0,
                all_to_all: 0,
                reduce_scatter: 0,
            }),
    {
        Profile { flops: 0, all_reduce: 0, all_gather: 0, all_to_all: 0, reduce_scatter: 0 }
    }
}

/// The cluster: per-device throughput in FLOPs per second, ordered by
/// device, and one bandwidth per collective in bytes per second.
pub struct ClusterInfo {
    pub device_flops: Vec<u64>,
    pub all_reduce_bandwidth: u64,
    pub all_gather_bandwidth: u64,
    pub all_to_all_bandwidth: u64,
    pub reduce_scatter_bandwidth: u64,
}

impl ClusterInfo {
    /// At least one device, and all throughputs and bandwidths positive.
    pub open spec fn wf(&self) -> bool {
        &&& self.device_flops@.len() >= 1
        &&& forall|i: int| 0 <= i < self.device_flops@.len() ==> #[trigger] self.device_flops@[i]
            >= 1
        &&& self.all_reduce_bandwidth >= 1
        &&& self.all_gather_bandwidth >= 1
        &&& self.all_to_all_bandwidth >= 1
        &&& self.reduce_scatter_bandwidth >= 1
    }

    /// The number of devices of the cluster.
    pub fn n_devices(&self) -> (r: usize)
        ensures
            r == self.device_flops@.len(),
    {
        self.device_flops.len()
    }
}

/// The larger of two integers.
pub open spec fn max2(a: int, b: int) -> int {
    if a >= b {
        a
    } else {
        b
    }
}

/// One scaled term of the cost model: work `a` taken at rate `d`, of which
/// this device's share is `b / denom`, in integer time units.
pub open spec fn scaled_term(a: int, b: int, denom: int, d: int) -> int {
    a * b * (TIME_SCALE as int) / (denom * d)
}

/// The straggler bound over the first `n` devices: the largest per-device
/// computation time `flops * (nums[i]/denom) / device_flops[i]`.
pub open spec fn compute_time_upto(
    flops: int,
    devs: Seq<u64>,
    nums: Seq<u32>,
    denom: int,
    n: int,
) -> int
    decreases n,
{
    if n <= 0 {
        0
    } else {
        max2(
            compute_time_upto(flops, devs, nums, denom, n - 1),
            scaled_term(flops, nums[n - 1] as int, denom, devs[n - 1] as int),
        )
    }
}

/// The largest ratio numerator among the first `n`.
pub open spec fn max_num_upto(nums: Seq<u32>, n: int) -> int
    decreases n,
{
    if n <= 0 {
        0
    } else {
        max2(max_num_upto(nums, n - 1), nums[n - 1] as int)
    }
}

/// The communication time of a profile: each collective's bytes over its
/// bandwidth, scaled by the bottleneck device's share `maxnum / denom`.
pub open spec fn comm_time(p: Profile, c: ClusterInfo, maxnum: int, denom: int) -> int {
    scaled_term(p.all_gather as int, maxnum, denom, c.all_gather_bandwidth as int) + scaled_term(
        p.all_reduce as int,
        maxnum,
        denom,
        c.all_reduce_bandwidth as int,
    ) + scaled_term(p.all_to_all as int, maxnum, denom, c.all_to_all_bandwidth as int)
        + scaled_term(p.reduce_scatter as int, maxnum, denom, c.reduce_scatter_bandwidth as int)
}

/// The estimated time of one profile: lockstep computation (the slowest
/// device's share) plus communication at the bottleneck share.
pub open spec fn profile_time(p: Profile, c: ClusterInfo, r: Ratios) -> int {
    compute_time_upto(p.flops as int, c.device_flops@, r.nums@, r.denom as int, c.device_flops@.len() as int)
        + comm_time(p, c, max_num_upto(r.nums@, r.nums@.len() as int), r.denom as int)
}

/// One scaled term, computed exactly in 128-bit integers.
fn scaled_div(a: u64, b: u32, denom: u32, d: u64) -> (r: u128)
    requires
        denom >= 1,
        d >= 1,
    ensures
        r as int == scaled_term(a as int, b as int, denom as int, d as int),
        r <= TERM_BOUND,
{
    proof {
        lemma_mul_upper_bound(a as int, u64::MAX as int, b as int, u32::MAX as int);
        lemma_mul_upper_bound(
            (a as int) * (b as int),
            0x1000000000000000000000000,
            TIME_SCALE as int,
            0x100000,
        );
        lemma_mul_upper_bound(denom as int, u32::MAX as int, d as int, u64::MAX as int);
        lemma_mul_strictly_positive(denom as int, d as int);
    }
    let num: u128 = (a as u128) * (b as u128) * (TIME_SCALE as u128);
    let div: u128 = (denom as u128) * (d as u128);
    let r: u128 = num / div;
    proof {
        lemma_div_nonincreasing(num as int, div as int);
    }
    r
}

impl ClusterInfo {
    /// The estimated wall time of one profile on this cluster under the
    /// given sharding ratios: the straggler's computation time plus the
    /// bottleneck share's communication time.
    pub fn get_time(&self, p: &Profile, ratios: &Ratios) -> (t: u128)
        requires
            self.wf(),
            ratios.wf(),
            self.device_flops@.len() == ratios.nums@.len(),
        ensures
            t as int == profile_time(*p, *self, *ratios),
            t <= TIME_BOUND,
    {
        let n = self.device_flops.len();
        let mut compute: u128 = 0;
        let mut i: usize = 0;
        while i < n
            invariant
                i <= n,
                n == self.device_flops@.len(),
                n == ratios.nums@.len(),
                self.wf(),
                ratios.wf(),
                compute as int == compute_time_upto(
                    p.flops as int,
                    self.device_flops@,
                    ratios.nums@,
                    ratios.denom as int,
                    i as int,
                ),
                compute <= TERM_BOUND,
            decreases n - i,
        {
            let term = scaled_div(p.flops, ratios.nums[i], ratios.denom, self.device_flops[i]);
            if term > compute {
                compute = term;
            }
            i += 1;
        }
        let mut maxnum: u32 = 0;
        let mut j: usize = 0;
        while j < n
            invariant
                j <= n,
                n == ratios.nums@.len(),
                maxnum as int == max_num_upto(ratios.nums@, j as int),
            decreases n - j,
        {
            let v = ratios.nums[j];
            if v > maxnum {
                maxnum = v;
            }
            j += 1;
        }
        let t1 = scaled_div(p.all_gather, maxnum, ratios.denom, self.all_gather_bandwidth);
        let t2 = scaled_div(p.all_reduce, maxnum, ratios.denom, self.all_reduce_bandwidth);
        let t3 = scaled_div(p.all_to_all, maxnum, ratios.denom, self.all_to_all_bandwidth);
        let t4 = scaled_div(p.reduce_scatter, maxnum, ratios.denom, self.reduce_scatter_bandwidth);
        compute + t1 + t2 + t3 + t4
    }
}

/// Every term of the cost model is non-negative, so no profile is priced
/// below zero.
pub proof fn lemma_profile_time_nonneg(p: Profile, c: ClusterInfo, r: Ratios)
    requires
        c.wf(),
        r.wf(),
    ensures
        profile_time(p, c, r) >= 0,
{
    lemma_compute_time_nonneg(
        p.flops as int,
        c.device_flops@,
        r.nums@,
        r.denom as int,
        c.device_flops@.len() as int,
    );
    let maxnum = max_num_upto(r.nums@, r.nums@.len() as int);
    lemma_max_num_nonneg(r.nums@, r.nums@.len() as int);
    lemma_scaled_term_nonneg(p.all_gather as int, maxnum, r.denom as int, c.all_gather_bandwidth as int);
    lemma_scaled_term_nonneg(p.all_reduce as int, maxnum, r.denom as int, c.all_reduce_bandwidth as int);
    lemma_scaled_term_nonneg(p.all_to_all as int, maxnum, r.denom as int, c.all_to_all_bandwidth as int);
    lemma_scaled_term_nonneg(
        p.reduce_scatter as int,
        maxnum,
        r.denom as int,
        c.reduce_scatter_bandwidth as int,
    );
}

proof fn lemma_scaled_term_nonneg(a: int, b: int, denom: int, d: int)
    requires
        a >= 0,
        b >= 0,
        denom >= 1,
        d >= 1,
    ensures
        scaled_term(a, b, denom, d) >= 0,
{
    vstd::arithmetic::mul::lemma_mul_nonnegative(a, b);
    vstd::arithmetic::mul::lemma_mul_nonnegative(a * b, TIME_SCALE as int);
    lemma_mul_strictly_positive(denom, d);
    vstd::arithmetic::div_mod::lemma_div_pos_is_pos(a * b * (TIME_SCALE as int), denom * d);
}

proof fn lemma_compute_time_nonneg(flops: int, devs: Seq<u64>, nums: Seq<u32>, denom: int, n: int)
    ensures
        compute_time_upto(flops, devs, nums, denom, n) >= 0,
    decreases n,
{
    if n > 0 {
        lemma_compute_time_nonneg(flops, devs, nums, denom, n - 1);
    }
}

proof fn lemma_max_num_nonneg(nums: Seq<u32>, n: int)
    ensures
        max_num_upto(nums, n) >= 0,
    decreases n,
{
    if n > 0 {
        lemma_max_num_nonneg(nums, n - 1);
    }
}

/// Adds two plan costs, saturating at the largest representable cost.
pub fn sat_add_u128(a: u128, b: u128) -> (r: u128)
    ensures
        r as int == sat_add_spec(a as int, b as int),
        r >= a,
        r >= b,
{
    if a > u128::MAX - b {
        u128::MAX
    } else {
        a + b
    }
}

/// The saturating sum of two costs.
pub open spec fn sat_add_spec(a: int, b: int) -> int {
    if a + b > u128::MAX {
        u128::MAX as int
    } else {
        a + b
    }
}

} // verus!
