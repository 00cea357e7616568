//! The triple synthesizer: given a reference graph and its module metadata,
//! emits every Hoare triple modelling the legal sharded variants of each
//! operator, the collective-communication moves on each communicatable
//! tensor, and the output rule. Computation profiles are derived from the
//! operator's FLOPs formula on the (sharded) shapes of its pre-conditions;
//! communication profiles carry the full tensor size, which the cost model
//! later scales by the bottleneck share.

use vstd::prelude::*;
use vstd::arithmetic::mul::lemma_mul_upper_bound;
use crate::ids::{RTensorId, Dimension};
use crate::property::{Property, TensorRelation};
use crate::shape::shape_elems;
use crate::graph::{RGraph, RNode, ModuleInfo, RInstruction, OpKind, rgraph_wf, module_wf, tensor_wf,
    node_wf, node_module_wf, count_outputs, clamp_u64};
use crate::sharding::Ratios;
use crate::cost::Profile;
use crate::triple::{HoareTriple, TripleLabel};

verus! {

/// The bucket of the sharding ratios that prices dimension `d`: the
/// dimension's own bucket where one exists, else the last.
pub open spec fn shard_bucket(r: Ratios, d: int) -> int {
    if d < r.nums@.len() {
        d
    } else {
        r.nums@.len() - 1
    }
}

/// The length of one device's slice of a dimension of length `len` sharded
/// along `d`: the priced bucket of the greedy rounding of `len`.
pub open spec fn shard_len(len: int, r: Ratios, d: int) -> int {
    crate::sharding::sharding_round_spec(len, r)[shard_bucket(r, d)]
}

/// The length a dimension contributes to a sharded shape: the slice length
/// on the sharded dimension, the full length elsewhere.
pub open spec fn dim_len(shape: Seq<usize>, rel: TensorRelation, r: Ratios, i: int) -> int {
    match rel {
        TensorRelation::Gather(d) => if i == d as int {
            shard_len(shape[i] as int, r, d as int)
        } else {
            shape[i] as int
        },
        _ => shape[i] as int,
    }
}

/// The product of the first `n` dimension contributions.
pub open spec fn sharded_prod_upto(
    shape: Seq<usize>,
    rel: TensorRelation,
    r: Ratios,
    n: int,
) -> int
    decreases n,
{
    if n <= 0 {
        1
    } else {
        sharded_prod_upto(shape, rel, r, n - 1) * dim_len(shape, rel, r, n - 1)
    }
}

/// The number of elements a device holds of a tensor under a relation:
/// the product of the sharded shape, clamped to the byte-count range.
pub open spec fn sharded_size(shape: Seq<usize>, rel: TensorRelation, r: Ratios) -> int {
    clamp_u64(sharded_prod_upto(shape, rel, r, shape.len() as int))
}

/// The slice length of one dimension: the priced bucket of the greedy
/// rounding.
fn shard_len_exec(len: usize, ratios: &Ratios, d: Dimension) -> (r: u64)
    requires
        ratios.wf(),
    ensures
        r as int == shard_len(len as int, *ratios, d as int),
        r <= len,
{
    let b: usize = if (d as usize) < ratios.nums.len() {
        d as usize
    } else {
        ratios.nums.len() - 1
    };
    let parts = crate::sharding::sharding_round(len, ratios);
    let v = parts[b];
    proof {
        assert(crate::sharding::as_ints(parts@)[b as int] == v as int);
    }
    v as u64
}

proof fn lemma_sharded_prod_upto_step(shape: Seq<usize>, rel: TensorRelation, r: Ratios, n: int)
    requires
        0 <= n < shape.len(),
    ensures
        sharded_prod_upto(shape, rel, r, n + 1) == sharded_prod_upto(shape, rel, r, n) * dim_len(
            shape,
            rel,
            r,
            n,
        ),
{
}

proof fn lemma_dim_len_nonneg(shape: Seq<usize>, rel: TensorRelation, r: Ratios, i: int)
    requires
        0 <= i < shape.len(),
        r.wf(),
    ensures
        dim_len(shape, rel, r, i) >= 0,
{
    match rel {
        TensorRelation::Gather(d) => {
            if i == d as int {
                crate::sharding::lemma_sharding_round_spec_nonneg(
                    shape[i] as int,
                    r,
                    shard_bucket(r, d as int),
                );
            }
        },
        _ => {},
    }
}

proof fn lemma_sharded_prod_nonneg(shape: Seq<usize>, rel: TensorRelation, r: Ratios, n: int)
    requires
        r.wf(),
        n <= shape.len(),
    ensures
        sharded_prod_upto(shape, rel, r, n) >= 0,
    decreases n,
{
    if n > 0 {
        lemma_sharded_prod_nonneg(shape, rel, r, n - 1);
        lemma_dim_len_nonneg(shape, rel, r, n - 1);
        vstd::arithmetic::mul::lemma_mul_nonnegative(
            sharded_prod_upto(shape, rel, r, n - 1),
            dim_len(shape, rel, r, n - 1),
        );
    }
}

/// The number of elements a device holds of tensor `tid` under `rel`: the
/// sharded shape's product, as the profile formulas use it.
fn property_size(g: &RGraph, tid: RTensorId, rel: TensorRelation, ratios: &Ratios) -> (r: u64)
    requires
        rgraph_wf(*g),
        tid.0 < g.tensors@.len(),
        ratios.wf(),
    ensures
        r as int == sharded_size(shape_elems(g.tensors@[tid.0 as int].shape), rel, *ratios),
{
    proof {
        assert(tensor_wf(*g, tid.0 as int));
    }
    let ghost s = shape_elems(g.tensors@[tid.0 as int].shape);
    let t = &g.tensors[tid.0];
    let n = t.n_dims();
    let mut acc: u64 = 1;
    let mut i: u8 = 0;
    while i < n
        invariant
            i <= n,
            n as int == s.len(),
            s == shape_elems(g.tensors@[tid.0 as int].shape),
            t == &g.tensors@[tid.0 as int],
            tid.0 < g.tensors@.len(),
            rgraph_wf(*g),
            ratios.wf(),
            acc as int == clamp_u64(sharded_prod_upto(s, rel, *ratios, i as int)),
        decreases n - i,
    {
        proof {
            assert(tensor_wf(*g, tid.0 as int));
        }
        let full = crate::shape::shape_get(&t.shape, i as usize);
        let li: u64 = match rel {
            TensorRelation::Gather(d) => {
                if i == d {
                    shard_len_exec(full, ratios, d)
                } else {
                    full as u64
                }
            },
            _ => full as u64,
        };
        proof {
            assert(li as int == dim_len(s, rel, *ratios, i as int));
            lemma_sharded_prod_upto_step(s, rel, *ratios, i as int);
            lemma_sharded_prod_nonneg(s, rel, *ratios, i as int);
            lemma_dim_len_nonneg(s, rel, *ratios, i as int);
            lemma_mul_upper_bound(acc as int, u64::MAX as int, li as int, u64::MAX as int);
        }
        let m: u128 = (acc as u128) * (li as u128);
        let ghost prod_i = sharded_prod_upto(s, rel, *ratios, i as int);
        let ghost prod_n = sharded_prod_upto(s, rel, *ratios, i + 1 as int);
        if m > (u64::MAX as u128) {
            proof {
                // the exact prefix product already overflowed, or this step
                // pushes it over; either way the clamp stays at the top
                if prod_i <= u64::MAX {
                    assert(acc as int == prod_i);
                    assert(prod_n > u64::MAX);
                } else {
                    assert(acc == u64::MAX);
                    assert(prod_n >= prod_i) by (nonlinear_arith)
                        requires
                            prod_n == prod_i * (li as int),
                            prod_i >= 0,
                            li >= 1,
                    {
                        // li == 0 would make m == 0, not above the clamp
                    }
                }
            }
            acc = u64::MAX;
        } else {
            proof {
                if prod_i <= u64::MAX {
                    assert(acc as int == prod_i);
                    assert(m as int == prod_n);
                } else {
                    assert(acc == u64::MAX);
                    if li == 0 {
                        assert(prod_n == 0) by (nonlinear_arith)
                            requires
                                prod_n == prod_i * (li as int),
                                li == 0,
                        {
                        }
                        assert(m == 0);
                    } else {
                        assert(m == (u64::MAX as u128) * (li as u128));
                        assert(li == 1) by (nonlinear_arith)
                            requires
                                (u64::MAX as u128) * (li as u128) <= u64::MAX as u128,
                                li >= 1,
                        {
                        }
                        assert(prod_n == prod_i) by (nonlinear_arith)
                            requires
                                prod_n == prod_i * (li as int),
                                li == 1,
                        {
                        }
                    }
                }
            }
            acc = m as u64;
        }
        i += 1;
    }
    acc
}

/// The number of finishing triples (those whose post-conditions add the
/// finished marker) among the emitted ones.
pub open spec fn count_finishing(s: Seq<HoareTriple>) -> int
    decreases s.len(),
{
    if s.len() == 0 {
        0
    } else {
        count_finishing(s.drop_last()) + if s.last().is_finishing() {
            1int
        } else {
            0int
        }
    }
}

/// Structural facts every emitted triple satisfies: no negative
/// post-conditions (the base synthesis burns no tokens), at least one
/// post-condition, and a finishing triple adds exactly the finished marker
/// from exactly one pre-condition.
pub open spec fn triples_ok(s: Seq<HoareTriple>) -> bool {
    forall|i: int|
        0 <= i < s.len() ==> {
            &&& (#[trigger] s[i]).negative_post_conditions@.len() == 0
            &&& s[i].post_conditions@.len() >= 1
            &&& (s[i].is_finishing() ==> s[i].post_conditions@ == seq![Property::Finished]
                && s[i].pre_conditions@.len() == 1)
        }
}

/// Appends a triple, keeping the structural facts, the finishing count and
/// the justification of every emitted triple by the synthesis table. Every
/// triple of the synthesis establishes exactly one property, so the triple
/// is finishing exactly when that property is the finished marker.
fn emit(
    out: &mut Vec<HoareTriple>,
    Ghost(g): Ghost<RGraph>,
    Ghost(mi): Ghost<ModuleInfo>,
    Ghost(rr): Ghost<Ratios>,
    t: HoareTriple,
)
    requires
        triples_ok(old(out)@),
        comm_labels_sound(g, old(out)@),
        all_justified(g, mi, rr, old(out)@),
        comm_label_ok(g, t.instruction),
        triple_justified(g, mi, rr, t),
        t.negative_post_conditions@.len() == 0,
        t.post_conditions@.len() == 1,
        t.post_conditions@[0] == Property::Finished ==> t.pre_conditions@.len() == 1,
    ensures
        triples_ok(final(out)@),
        comm_labels_sound(g, final(out)@),
        all_justified(g, mi, rr, final(out)@),
        final(out)@ == old(out)@.push(t),
        final(out)@.len() == old(out)@.len() + 1,
        count_finishing(final(out)@) == count_finishing(old(out)@) + if t.post_conditions@[0]
            == Property::Finished {
            1int
        } else {
            0int
        },
{
    proof {
        if t.post_conditions@.contains(Property::Finished) {
            let k = choose|k: int|
                0 <= k < t.post_conditions@.len() && t.post_conditions@[k] == Property::Finished;
            assert(k == 0);
        }
        if t.post_conditions@[0] == Property::Finished {
            assert(t.post_conditions@.contains(Property::Finished));
            assert(t.post_conditions@ =~= seq![Property::Finished]);
        }
        assert(t.is_finishing() == (t.post_conditions@[0] == Property::Finished));
    }
    let ghost orig = out@;
    out.push(t);
    proof {
        assert(out@.drop_last() == orig);
        assert(out@.last() == t);
        assert forall|i: int| 0 <= i < out@.len() implies {
            &&& (#[trigger] out@[i]).negative_post_conditions@.len() == 0
            &&& out@[i].post_conditions@.len() >= 1
            &&& (out@[i].is_finishing() ==> out@[i].post_conditions@ == seq![Property::Finished]
                && out@[i].pre_conditions@.len() == 1)
        } by {
            if i < orig.len() {
                assert(out@[i] == orig[i]);
            } else {
                assert(out@[i] == t);
            }
        }
        assert forall|i: int| 0 <= i < out@.len() implies comm_label_ok(
            g,
            (#[trigger] out@[i]).instruction,
        ) by {
            if i < orig.len() {
                assert(out@[i] == orig[i]);
            } else {
                assert(out@[i] == t);
            }
        }
        assert forall|i: int| 0 <= i < out@.len() implies triple_justified(
            g,
            mi,
            rr,
            #[trigger] out@[i],
        ) by {
            if i < orig.len() {
                assert(out@[i] == orig[i]);
            } else {
                assert(out@[i] == t);
            }
        }
    }
}

/// A single-property vector.
fn props1(a: Property) -> (r: Vec<Property>)
    ensures
        r@ == seq![a],
{
    let mut r: Vec<Property> = Vec::new();
    r.push(a);
    r
}

/// A three-property vector.
fn props3(a: Property, b: Property, c: Property) -> (r: Vec<Property>)
    ensures
        r@ == seq![a, b, c],
{
    let mut r: Vec<Property> = Vec::new();
    r.push(a);
    r.push(b);
    r.push(c);
    r
}

/// Twice the forward FLOPs, clamped: the backward pass of a computation.
fn backward_flops(flops: u64) -> (r: u64)
    ensures
        r as int == clamp_u64(2 * flops),
{
    if flops > u64::MAX / 2 {
        u64::MAX
    } else {
        2 * flops
    }
}

/// A computation profile pair: the forward FLOPs, and twice that backward.
fn comp_profiles(flops: u64) -> (r: (Profile, Profile))
    ensures
        r.0 == (Profile {
            flops,
            all_reduce: 0,
            all_gather: 0,
            all_to_all: 0,
            reduce_scatter: 0,
        }),
        r.1.flops as int == clamp_u64(2 * flops),
        r.1.all_reduce == 0 && r.1.all_gather == 0 && r.1.all_to_all == 0 && r.1.reduce_scatter
            == 0,
{
    let b = backward_flops(flops);
    (
        Profile { flops, all_reduce: 0, all_gather: 0, all_to_all: 0, reduce_scatter: 0 },
        Profile { flops: b, all_reduce: 0, all_gather: 0, all_to_all: 0, reduce_scatter: 0 },
    )
}

/// Three times a size, clamped: the FLOPs of an elementwise or linear
/// operator on that many elements.
fn triple_size(size: u64) -> (r: u64)
    ensures
        r as int == clamp_u64(3 * size),
{
    if size > u64::MAX / 3 {
        u64::MAX
    } else {
        3 * size
    }
}

/// A size times a factor, clamped: the tail of the linear FLOPs formula.
fn mul_clamped(a: u64, b: u64) -> (r: u64)
    ensures
        r as int == clamp_u64((a as int) * (b as int)),
{
    proof {
        lemma_mul_upper_bound(a as int, u64::MAX as int, b as int, u64::MAX as int);
    }
    let m: u128 = (a as u128) * (b as u128);
    if m > (u64::MAX as u128) {
        u64::MAX
    } else {
        m as u64
    }
}

/// A profile that only computes.
pub open spec fn flops_profile(f: int) -> Profile {
    Profile {
        flops: f as u64,
        all_reduce: 0,
        all_gather: 0,
        all_to_all: 0,
        reduce_scatter: 0,
    }
}

/// A profile that only communicates.
pub open spec fn comm_profile(ag: int, ar: int, aa: int, rs: int) -> Profile {
    Profile {
        flops: 0,
        all_reduce: ar as u64,
        all_gather: ag as u64,
        all_to_all: aa as u64,
        reduce_scatter: rs as u64,
    }
}

/// The forward and backward computation profiles of an operator variant
/// with the given forward FLOPs: the backward pass costs twice the forward.
pub open spec fn comp_fwd(f: int) -> Profile {
    flops_profile(f)
}

pub open spec fn comp_bwd(f: int) -> Profile {
    flops_profile(clamp_u64(2 * f))
}

/// The full element count of a tensor, as the communication profiles and
/// the parameter-gradient profile use it.
pub open spec fn full_size(g: RGraph, t: int) -> int {
    crate::graph::clamp_u64(crate::graph::seq_prod(shape_elems(g.tensors@[t].shape)))
}

/// A communication label may only name a communicatable tensor.
pub open spec fn comm_label_ok(g: RGraph, l: TripleLabel) -> bool {
    match l {
        TripleLabel::AllGather(t, _) => t.0 < g.tensors@.len() && g.tensors@[t.0 as int].communicatable,
        TripleLabel::DynamicSlice(t, _) => t.0 < g.tensors@.len()
            && g.tensors@[t.0 as int].communicatable,
        TripleLabel::ReduceScatter(t, _) => t.0 < g.tensors@.len()
            && g.tensors@[t.0 as int].communicatable,
        TripleLabel::AllReduce(t) => t.0 < g.tensors@.len()
            && g.tensors@[t.0 as int].communicatable,
        TripleLabel::IdentityToReduce(t) => t.0 < g.tensors@.len()
            && g.tensors@[t.0 as int].communicatable,
        TripleLabel::AllToAll(t, _, _) => t.0 < g.tensors@.len()
            && g.tensors@[t.0 as int].communicatable,
        _ => true,
    }
}

/// No emitted triple communicates on a tensor that is not communicatable:
/// together with `tensor_comm_covered`, the collective moves on a tensor
/// stand in the output exactly when the tensor allows them.
pub open spec fn comm_labels_sound(g: RGraph, out: Seq<HoareTriple>) -> bool {
    forall|x: int| 0 <= x < out.len() ==> comm_label_ok(g, (#[trigger] out[x]).instruction)
}

/// The emitted triples hold exactly this rule.
pub open spec fn has_triple(
    out: Seq<HoareTriple>,
    pre: Seq<Property>,
    post: Seq<Property>,
    label: TripleLabel,
    fwd: Profile,
    bwd: Profile,
) -> bool {
    exists|x: int|
        0 <= x < out.len() && (#[trigger] out[x]).pre_conditions@ == pre
            && out[x].post_conditions@ == post && out[x].instruction == label
            && out[x].forward_profile == fwd && out[x].backward_profile == bwd
}

/// Triple `t` is exactly the rule with these conditions, label and
/// profiles, and burns no tokens.
pub open spec fn is_rule(
    t: HoareTriple,
    pre: Seq<Property>,
    post: Seq<Property>,
    label: TripleLabel,
    fwd: Profile,
    bwd: Profile,
) -> bool {
    &&& t.pre_conditions@ == pre
    &&& t.post_conditions@ == post
    &&& t.negative_post_conditions@.len() == 0
    &&& t.instruction == label
    &&& t.forward_profile == fwd
    &&& t.backward_profile == bwd
}

/// Triple `t` is one of the materialization or output rules of node `n`:
/// the replicated materialization of a placeholder or parameter, one of its
/// sharded materializations, or the finishing output rule.
pub open spec fn node_rule(g: RGraph, n: int, t: HoareTriple) -> bool {
    let nodes = g.nodes@;
    match nodes[n].instruction {
        RInstruction::Placeholder(pid) => {
            let tid = nodes[n].outputs@[0];
            let rank = shape_elems(g.tensors@[tid.0 as int].shape).len() as int;
            ||| is_rule(
                t,
                Seq::<Property>::empty(),
                seq![Property::HasTensor(tid, TensorRelation::Identity)],
                TripleLabel::PlaceholderUnsharded(pid),
                comm_profile(0, 0, 0, 0),
                comm_profile(0, 0, 0, 0),
            )
            ||| exists|d: int|
                0 <= d < rank && #[trigger] is_rule(
                    t,
                    Seq::<Property>::empty(),
                    seq![Property::HasTensor(tid, TensorRelation::Gather(d as u8))],
                    TripleLabel::PlaceholderShard(pid, d as u8),
                    comm_profile(0, 0, 0, 0),
                    comm_profile(0, 0, 0, 0),
                )
        },
        RInstruction::GetAttr(pid) => {
            let tid = nodes[n].outputs@[0];
            let rank = shape_elems(g.tensors@[tid.0 as int].shape).len() as int;
            ||| is_rule(
                t,
                Seq::<Property>::empty(),
                seq![Property::HasTensor(tid, TensorRelation::Identity)],
                TripleLabel::GetAttrUnsharded(pid),
                comm_profile(0, 0, 0, 0),
                comm_profile(0, full_size(g, tid.0 as int), 0, 0),
            )
            ||| exists|d: int|
                0 <= d < rank && #[trigger] is_rule(
                    t,
                    Seq::<Property>::empty(),
                    seq![Property::HasTensor(tid, TensorRelation::Gather(d as u8))],
                    TripleLabel::GetAttrShard(pid, d as u8),
                    comm_profile(0, 0, 0, 0),
                    comm_profile(0, 0, 0, 0),
                )
        },
        RInstruction::Output => {
            let tid = nodes[n].inputs@[0];
            is_rule(
                t,
                seq![Property::HasTensor(tid, TensorRelation::Reduce)],
                seq![Property::Finished],
                TripleLabel::Output,
                comm_profile(0, 0, 0, 0),
                comm_profile(0, 0, 0, 0),
            )
        },
        RInstruction::Op(_) => false,
    }
}

/// Triple `t` is one of the collective moves on tensor `ti`, which must be
/// communicatable: an all-gather, free dynamic slice or reduce-scatter per
/// dimension, an all-reduce, the free masking into partial sums, or an
/// all-to-all per ordered pair of distinct dimensions.
pub open spec fn comm_rule(g: RGraph, ti: int, t: HoareTriple) -> bool {
    let tid = RTensorId(ti as usize);
    let sz = full_size(g, ti);
    let rank = shape_elems(g.tensors@[ti].shape).len() as int;
    &&& g.tensors@[ti].communicatable
    &&& {
        ||| exists|d: int|
            0 <= d < rank && #[trigger] is_rule(
                t,
                seq![Property::HasTensor(tid, TensorRelation::Gather(d as u8))],
                seq![Property::HasTensor(tid, TensorRelation::Identity)],
                TripleLabel::AllGather(tid, d as u8),
                comm_profile(sz, 0, 0, 0),
                comm_profile(0, 0, 0, sz),
            )
        ||| exists|d: int|
            0 <= d < rank && #[trigger] is_rule(
                t,
                seq![Property::HasTensor(tid, TensorRelation::Identity)],
                seq![Property::HasTensor(tid, TensorRelation::Gather(d as u8))],
                TripleLabel::DynamicSlice(tid, d as u8),
                comm_profile(0, 0, 0, 0),
                comm_profile(0, 0, 0, 0),
            )
        ||| exists|d: int|
            0 <= d < rank && #[trigger] is_rule(
                t,
                seq![Property::HasTensor(tid, TensorRelation::Reduce)],
                seq![Property::HasTensor(tid, TensorRelation::Gather(d as u8))],
                TripleLabel::ReduceScatter(tid, d as u8),
                comm_profile(0, 0, 0, sz),
                comm_profile(sz, 0, 0, 0),
            )
        ||| is_rule(
            t,
            seq![Property::HasTensor(tid, TensorRelation::Reduce)],
            seq![Property::HasTensor(tid, TensorRelation::Identity)],
            TripleLabel::AllReduce(tid),
            comm_profile(0, sz, 0, 0),
            comm_profile(0, sz, 0, 0),
        )
        ||| is_rule(
            t,
            seq![Property::HasTensor(tid, TensorRelation::Identity)],
            seq![Property::HasTensor(tid, TensorRelation::Reduce)],
            TripleLabel::IdentityToReduce(tid),
            comm_profile(0, 0, 0, 0),
            comm_profile(0, 0, 0, 0),
        )
        ||| exists|di: int, dj: int|
            0 <= di < rank && 0 <= dj < rank && di != dj && #[trigger] is_rule(
                t,
                seq![Property::HasTensor(tid, TensorRelation::Gather(di as u8))],
                seq![Property::HasTensor(tid, TensorRelation::Gather(dj as u8))],
                TripleLabel::AllToAll(tid, di as u8, dj as u8),
                comm_profile(0, 0, sz, 0),
                comm_profile(0, 0, sz, 0),
            )
    }
}

/// Triple `t` is one of the sharded variants of operator node `n` listed in
/// the synthesis table for its operator's kind, with the exact
/// FLOPs-derived profiles.
pub open spec fn op_rule(g: RGraph, mi: ModuleInfo, r: Ratios, n: int, t: HoareTriple) -> bool {
    match g.nodes@[n].instruction {
        RInstruction::Op(op) => {
            &&& op.0 < mi.ops@.len()
            &&& match mi.ops@[op.0 as int].kind {
                OpKind::Elementwise => {
                    let x = g.nodes@[n].inputs@[0];
                    let y = g.nodes@[n].outputs@[0];
                    let shape = shape_elems(g.tensors@[x.0 as int].shape);
                    let f0 = clamp_u64(3 * sharded_size(shape, TensorRelation::Identity, r));
                    ||| is_rule(
                        t,
                        seq![Property::HasTensor(x, TensorRelation::Identity)],
                        seq![Property::HasTensor(y, TensorRelation::Identity)],
                        TripleLabel::Computation(op),
                        comp_fwd(f0),
                        comp_bwd(f0),
                    )
                    ||| exists|d: int|
                        0 <= d < shape.len() as int && #[trigger] is_rule(
                            t,
                            seq![Property::HasTensor(x, TensorRelation::Gather(d as u8))],
                            seq![Property::HasTensor(y, TensorRelation::Gather(d as u8))],
                            TripleLabel::Computation(op),
                            comp_fwd(
                                clamp_u64(
                                    3 * sharded_size(shape, TensorRelation::Gather(d as u8), r),
                                ),
                            ),
                            comp_bwd(
                                clamp_u64(
                                    3 * sharded_size(shape, TensorRelation::Gather(d as u8), r),
                                ),
                            ),
                        )
                },
                OpKind::Reducing => {
                    let x = g.nodes@[n].inputs@[0];
                    let y = g.nodes@[n].outputs@[0];
                    let shape = shape_elems(g.tensors@[x.0 as int].shape);
                    let f0 = sharded_size(shape, TensorRelation::Identity, r);
                    ||| is_rule(
                        t,
                        seq![Property::HasTensor(x, TensorRelation::Identity)],
                        seq![Property::HasTensor(y, TensorRelation::Identity)],
                        TripleLabel::Computation(op),
                        comp_fwd(f0),
                        comp_bwd(f0),
                    )
                    ||| exists|d: int|
                        0 <= d < shape.len() as int && #[trigger] is_rule(
                            t,
                            seq![Property::HasTensor(x, TensorRelation::Gather(d as u8))],
                            seq![Property::HasTensor(y, TensorRelation::Reduce)],
                            TripleLabel::Computation(op),
                            comp_fwd(sharded_size(shape, TensorRelation::Gather(d as u8), r)),
                            comp_bwd(sharded_size(shape, TensorRelation::Gather(d as u8), r)),
                        )
                    ||| is_rule(
                        t,
                        seq![Property::HasTensor(x, TensorRelation::Reduce)],
                        seq![Property::HasTensor(y, TensorRelation::Reduce)],
                        TripleLabel::Computation(op),
                        comp_fwd(sharded_size(shape, TensorRelation::Reduce, r)),
                        comp_bwd(sharded_size(shape, TensorRelation::Reduce, r)),
                    )
                },
                OpKind::Linear => {
                    let a = g.nodes@[n].inputs@[0];
                    let w = g.nodes@[n].inputs@[1];
                    let b = g.nodes@[n].inputs@[2];
                    let y = g.nodes@[n].outputs@[0];
                    let ashape = shape_elems(g.tensors@[a.0 as int].shape);
                    let gf = shape_elems(g.tensors@[w.0 as int].shape)[0] as int;
                    let rank_y = shape_elems(g.tensors@[y.0 as int].shape).len() as int;
                    let f_rep = clamp_u64(
                        clamp_u64(3 * sharded_size(ashape, TensorRelation::Identity, r)) * gf,
                    );
                    let f_feat = clamp_u64(
                        clamp_u64(3 * sharded_size(ashape, TensorRelation::Identity, r))
                            * shard_len(gf, r, 0),
                    );
                    ||| is_rule(
                        t,
                        seq![
                            Property::HasTensor(a, TensorRelation::Identity),
                            Property::HasTensor(w, TensorRelation::Identity),
                            Property::HasTensor(b, TensorRelation::Identity),
                        ],
                        seq![Property::HasTensor(y, TensorRelation::Identity)],
                        TripleLabel::Computation(op),
                        comp_fwd(f_rep),
                        comp_bwd(f_rep),
                    )
                    ||| exists|d: int|
                        #![trigger sharded_size(ashape, TensorRelation::Gather(d as u8), r)]
                        0 <= d < ashape.len() as int - 1 && is_rule(
                            t,
                            seq![
                                Property::HasTensor(a, TensorRelation::Gather(d as u8)),
                                Property::HasTensor(w, TensorRelation::Identity),
                                Property::HasTensor(b, TensorRelation::Identity),
                            ],
                            seq![Property::HasTensor(y, TensorRelation::Gather(d as u8))],
                            TripleLabel::Computation(op),
                            comp_fwd(
                                clamp_u64(
                                    clamp_u64(
                                        3 * sharded_size(
                                            ashape,
                                            TensorRelation::Gather(d as u8),
                                            r,
                                        ),
                                    ) * gf,
                                ),
                            ),
                            comp_bwd(
                                clamp_u64(
                                    clamp_u64(
                                        3 * sharded_size(
                                            ashape,
                                            TensorRelation::Gather(d as u8),
                                            r,
                                        ),
                                    ) * gf,
                                ),
                            ),
                        )
                    ||| is_rule(
                        t,
                        seq![
                            Property::HasTensor(a, TensorRelation::Identity),
                            Property::HasTensor(w, TensorRelation::Gather(0)),
                            Property::HasTensor(b, TensorRelation::Gather(0)),
                        ],
                        seq![Property::HasTensor(y, TensorRelation::Gather((rank_y - 1) as u8))],
                        TripleLabel::Computation(op),
                        comp_fwd(f_feat),
                        comp_bwd(f_feat),
                    )
                },
            }
        },
        _ => false,
    }
}

/// Triple `t` is one row of the synthesis table for this graph: a
/// materialization or output rule of some node, a collective move on some
/// communicatable tensor, or a sharded variant of some operator. Together
/// with the coverage facts, this pins the emitted triples up to order and
/// multiplicity: nothing outside the table is ever emitted.
pub open spec fn triple_justified(g: RGraph, mi: ModuleInfo, r: Ratios, t: HoareTriple) -> bool {
    ||| exists|n: int| 0 <= n < g.nodes@.len() && #[trigger] node_rule(g, n, t)
    ||| exists|ti: int| 0 <= ti < g.tensors@.len() && #[trigger] comm_rule(g, ti, t)
    ||| exists|n: int| 0 <= n < g.nodes@.len() && #[trigger] op_rule(g, mi, r, n, t)
}

/// Every emitted triple is justified by the synthesis table.
pub open spec fn all_justified(
    g: RGraph,
    mi: ModuleInfo,
    r: Ratios,
    out: Seq<HoareTriple>,
) -> bool {
    forall|i: int| 0 <= i < out.len() ==> triple_justified(g, mi, r, #[trigger] out[i])
}

/// Appending triples keeps every rule already present.
proof fn lemma_has_triple_extends(
    out1: Seq<HoareTriple>,
    out2: Seq<HoareTriple>,
    pre: Seq<Property>,
    post: Seq<Property>,
    label: TripleLabel,
    fwd: Profile,
    bwd: Profile,
)
    requires
        has_triple(out1, pre, post, label, fwd, bwd),
        out1.len() <= out2.len(),
        forall|k: int| 0 <= k < out1.len() ==> #[trigger] out2[k] == out1[k],
    ensures
        has_triple(out2, pre, post, label, fwd, bwd),
{
    let x = choose|x: int|
        0 <= x < out1.len() && (#[trigger] out1[x]).pre_conditions@ == pre
            && out1[x].post_conditions@ == post && out1[x].instruction == label
            && out1[x].forward_profile == fwd && out1[x].backward_profile == bwd;
    assert(0 <= x < out2.len() && (out2[x]).pre_conditions@ == pre && out2[x].post_conditions@
        == post && out2[x].instruction == label && out2[x].forward_profile == fwd
        && out2[x].backward_profile == bwd);
}

/// The materialization or output rules of node `n` stand in the emitted
/// triples, with their exact conditions, labels and profiles: a placeholder
/// or parameter node has its replicated materialization and one sharded
/// materialization per dimension (a replicated parameter's backward pass
/// all-reduces its gradient), and an output node has its finishing rule,
/// requiring the partial sums of exactly the tensor it consumes.
pub open spec fn node_covered(g: RGraph, n: int, out: Seq<HoareTriple>) -> bool {
    let nodes = g.nodes@;
    match nodes[n].instruction {
        RInstruction::Placeholder(pid) => {
            let tid = nodes[n].outputs@[0];
            let rank = shape_elems(g.tensors@[tid.0 as int].shape).len() as int;
            &&& has_triple(
                out,
                Seq::<Property>::empty(),
                seq![Property::HasTensor(tid, TensorRelation::Identity)],
                TripleLabel::PlaceholderUnsharded(pid),
                comm_profile(0, 0, 0, 0),
                comm_profile(0, 0, 0, 0),
            )
            &&& forall|d: int|
                0 <= d < rank ==> #[trigger] has_triple(
                    out,
                    Seq::<Property>::empty(),
                    seq![Property::HasTensor(tid, TensorRelation::Gather(d as u8))],
                    TripleLabel::PlaceholderShard(pid, d as u8),
                    comm_profile(0, 0, 0, 0),
                    comm_profile(0, 0, 0, 0),
                )
        },
        RInstruction::GetAttr(pid) => {
            let tid = nodes[n].outputs@[0];
            let rank = shape_elems(g.tensors@[tid.0 as int].shape).len() as int;
            &&& has_triple(
                out,
                Seq::<Property>::empty(),
                seq![Property::HasTensor(tid, TensorRelation::Identity)],
                TripleLabel::GetAttrUnsharded(pid),
                comm_profile(0, 0, 0, 0),
                comm_profile(0, full_size(g, tid.0 as int), 0, 0),
            )
            &&& forall|d: int|
                0 <= d < rank ==> #[trigger] has_triple(
                    out,
                    Seq::<Property>::empty(),
                    seq![Property::HasTensor(tid, TensorRelation::Gather(d as u8))],
                    TripleLabel::GetAttrShard(pid, d as u8),
                    comm_profile(0, 0, 0, 0),
                    comm_profile(0, 0, 0, 0),
                )
        },
        RInstruction::Output => {
            let tid = nodes[n].inputs@[0];
            has_triple(
                out,
                seq![Property::HasTensor(tid, TensorRelation::Reduce)],
                seq![Property::Finished],
                TripleLabel::Output,
                comm_profile(0, 0, 0, 0),
                comm_profile(0, 0, 0, 0),
            )
        },
        RInstruction::Op(_) => true,
    }
}

/// Appending triples never uncovers a node.
proof fn lemma_covered_extends(g: RGraph, out1: Seq<HoareTriple>, out2: Seq<HoareTriple>)
    requires
        out1.len() <= out2.len(),
        forall|k: int| 0 <= k < out1.len() ==> #[trigger] out2[k] == out1[k],
    ensures
        forall|n: int|
            0 <= n < g.nodes@.len() && node_covered(g, n, out1) ==> node_covered(g, n, out2),
{
    assert forall|n: int|
        0 <= n < g.nodes@.len() && node_covered(g, n, out1) implies node_covered(
        g,
        n,
        out2,
    ) by {
        match g.nodes@[n].instruction {
            RInstruction::Placeholder(pid) => {
                let tid = g.nodes@[n].outputs@[0];
                let rank = shape_elems(g.tensors@[tid.0 as int].shape).len() as int;
                lemma_has_triple_extends(
                    out1,
                    out2,
                    Seq::<Property>::empty(),
                    seq![Property::HasTensor(tid, TensorRelation::Identity)],
                    TripleLabel::PlaceholderUnsharded(pid),
                    comm_profile(0, 0, 0, 0),
                    comm_profile(0, 0, 0, 0),
                );
                assert forall|d: int|
                    0 <= d < rank implies #[trigger] has_triple(
                    out2,
                    Seq::<Property>::empty(),
                    seq![Property::HasTensor(tid, TensorRelation::Gather(d as u8))],
                    TripleLabel::PlaceholderShard(pid, d as u8),
                    comm_profile(0, 0, 0, 0),
                    comm_profile(0, 0, 0, 0),
                ) by {
                    lemma_has_triple_extends(
                        out1,
                        out2,
                        Seq::<Property>::empty(),
                        seq![Property::HasTensor(tid, TensorRelation::Gather(d as u8))],
                        TripleLabel::PlaceholderShard(pid, d as u8),
                        comm_profile(0, 0, 0, 0),
                        comm_profile(0, 0, 0, 0),
                    );
                }
            },
            RInstruction::GetAttr(pid) => {
                let tid = g.nodes@[n].outputs@[0];
                let rank = shape_elems(g.tensors@[tid.0 as int].shape).len() as int;
                lemma_has_triple_extends(
                    out1,
                    out2,
                    Seq::<Property>::empty(),
                    seq![Property::HasTensor(tid, TensorRelation::Identity)],
                    TripleLabel::GetAttrUnsharded(pid),
                    comm_profile(0, 0, 0, 0),
                    comm_profile(0, full_size(g, tid.0 as int), 0, 0),
                );
                assert forall|d: int|
                    0 <= d < rank implies #[trigger] has_triple(
                    out2,
                    Seq::<Property>::empty(),
                    seq![Property::HasTensor(tid, TensorRelation::Gather(d as u8))],
                    TripleLabel::GetAttrShard(pid, d as u8),
                    comm_profile(0, 0, 0, 0),
                    comm_profile(0, 0, 0, 0),
                ) by {
                    lemma_has_triple_extends(
                        out1,
                        out2,
                        Seq::<Property>::empty(),
                        seq![Property::HasTensor(tid, TensorRelation::Gather(d as u8))],
                        TripleLabel::GetAttrShard(pid, d as u8),
                        comm_profile(0, 0, 0, 0),
                        comm_profile(0, 0, 0, 0),
                    );
                }
            },
            RInstruction::Output => {
                let tid = g.nodes@[n].inputs@[0];
                lemma_has_triple_extends(
                    out1,
                    out2,
                    seq![Property::HasTensor(tid, TensorRelation::Reduce)],
                    seq![Property::Finished],
                    TripleLabel::Output,
                    comm_profile(0, 0, 0, 0),
                    comm_profile(0, 0, 0, 0),
                );
            },
            RInstruction::Op(_) => {},
        }
    }
}

/// The collective moves on tensor `t` stand in the emitted triples, with
/// their exact conditions, labels and full-tensor byte counts, whenever the
/// tensor is communicatable: per dimension an all-gather (backward: a
/// reduce-scatter), a free dynamic slice and a reduce-scatter (backward: an
/// all-gather); an all-reduce and a free masking of a replicated tensor
/// into partial sums; and an all-to-all per ordered pair of distinct
/// dimensions.
pub open spec fn tensor_comm_covered(g: RGraph, t: int, out: Seq<HoareTriple>) -> bool {
    let tid = RTensorId(t as usize);
    let sz = full_size(g, t);
    let rank = shape_elems(g.tensors@[t].shape).len() as int;
    g.tensors@[t].communicatable ==> {
        &&& forall|d: int|
            0 <= d < rank ==> #[trigger] has_triple(
                out,
                seq![Property::HasTensor(tid, TensorRelation::Gather(d as u8))],
                seq![Property::HasTensor(tid, TensorRelation::Identity)],
                TripleLabel::AllGather(tid, d as u8),
                comm_profile(sz, 0, 0, 0),
                comm_profile(0, 0, 0, sz),
            )
        &&& forall|d: int|
            0 <= d < rank ==> #[trigger] has_triple(
                out,
                seq![Property::HasTensor(tid, TensorRelation::Identity)],
                seq![Property::HasTensor(tid, TensorRelation::Gather(d as u8))],
                TripleLabel::DynamicSlice(tid, d as u8),
                comm_profile(0, 0, 0, 0),
                comm_profile(0, 0, 0, 0),
            )
        &&& forall|d: int|
            0 <= d < rank ==> #[trigger] has_triple(
                out,
                seq![Property::HasTensor(tid, TensorRelation::Reduce)],
                seq![Property::HasTensor(tid, TensorRelation::Gather(d as u8))],
                TripleLabel::ReduceScatter(tid, d as u8),
                comm_profile(0, 0, 0, sz),
                comm_profile(sz, 0, 0, 0),
            )
        &&& has_triple(
            out,
            seq![Property::HasTensor(tid, TensorRelation::Reduce)],
            seq![Property::HasTensor(tid, TensorRelation::Identity)],
            TripleLabel::AllReduce(tid),
            comm_profile(0, sz, 0, 0),
            comm_profile(0, sz, 0, 0),
        )
        &&& has_triple(
            out,
            seq![Property::HasTensor(tid, TensorRelation::Identity)],
            seq![Property::HasTensor(tid, TensorRelation::Reduce)],
            TripleLabel::IdentityToReduce(tid),
            comm_profile(0, 0, 0, 0),
            comm_profile(0, 0, 0, 0),
        )
        &&& forall|di: int, dj: int|
            0 <= di < rank && 0 <= dj < rank && di != dj ==> #[trigger] has_triple(
                out,
                seq![Property::HasTensor(tid, TensorRelation::Gather(di as u8))],
                seq![Property::HasTensor(tid, TensorRelation::Gather(dj as u8))],
                TripleLabel::AllToAll(tid, di as u8, dj as u8),
                comm_profile(0, 0, sz, 0),
                comm_profile(0, 0, sz, 0),
            )
    }
}

/// Appending triples never uncovers a tensor's collective moves.
proof fn lemma_comm_covered_extends(g: RGraph, out1: Seq<HoareTriple>, out2: Seq<HoareTriple>)
    requires
        out1.len() <= out2.len(),
        forall|k: int| 0 <= k < out1.len() ==> #[trigger] out2[k] == out1[k],
    ensures
        forall|t: int|
            0 <= t < g.tensors@.len() && tensor_comm_covered(g, t, out1)
                ==> tensor_comm_covered(g, t, out2),
{
    assert forall|t: int|
        0 <= t < g.tensors@.len() && tensor_comm_covered(g, t, out1) implies tensor_comm_covered(
        g,
        t,
        out2,
    ) by {
        if g.tensors@[t].communicatable {
            let tid = RTensorId(t as usize);
            let sz = full_size(g, t);
            let rank = shape_elems(g.tensors@[t].shape).len() as int;
            assert forall|d: int|
                0 <= d < rank implies #[trigger] has_triple(
                out2,
                seq![Property::HasTensor(tid, TensorRelation::Gather(d as u8))],
                seq![Property::HasTensor(tid, TensorRelation::Identity)],
                TripleLabel::AllGather(tid, d as u8),
                comm_profile(sz, 0, 0, 0),
                comm_profile(0, 0, 0, sz),
            ) by {
                lemma_has_triple_extends(
                    out1,
                    out2,
                    seq![Property::HasTensor(tid, TensorRelation::Gather(d as u8))],
                    seq![Property::HasTensor(tid, TensorRelation::Identity)],
                    TripleLabel::AllGather(tid, d as u8),
                    comm_profile(sz, 0, 0, 0),
                    comm_profile(0, 0, 0, sz),
                );
            }
            assert forall|d: int|
                0 <= d < rank implies #[trigger] has_triple(
                out2,
                seq![Property::HasTensor(tid, TensorRelation::Identity)],
                seq![Property::HasTensor(tid, TensorRelation::Gather(d as u8))],
                TripleLabel::DynamicSlice(tid, d as u8),
                comm_profile(0, 0, 0, 0),
                comm_profile(0, 0, 0, 0),
            ) by {
                lemma_has_triple_extends(
                    out1,
                    out2,
                    seq![Property::HasTensor(tid, TensorRelation::Identity)],
                    seq![Property::HasTensor(tid, TensorRelation::Gather(d as u8))],
                    TripleLabel::DynamicSlice(tid, d as u8),
                    comm_profile(0, 0, 0, 0),
                    comm_profile(0, 0, 0, 0),
                );
            }
            assert forall|d: int|
                0 <= d < rank implies #[trigger] has_triple(
                out2,
                seq![Property::HasTensor(tid, TensorRelation::Reduce)],
                seq![Property::HasTensor(tid, TensorRelation::Gather(d as u8))],
                TripleLabel::ReduceScatter(tid, d as u8),
                comm_profile(0, 0, 0, sz),
                comm_profile(sz, 0, 0, 0),
            ) by {
                lemma_has_triple_extends(
                    out1,
                    out2,
                    seq![Property::HasTensor(tid, TensorRelation::Reduce)],
                    seq![Property::HasTensor(tid, TensorRelation::Gather(d as u8))],
                    TripleLabel::ReduceScatter(tid, d as u8),
                    comm_profile(0, 0, 0, sz),
                    comm_profile(sz, 0, 0, 0),
                );
            }
            lemma_has_triple_extends(
                out1,
                out2,
                seq![Property::HasTensor(tid, TensorRelation::Reduce)],
                seq![Property::HasTensor(tid, TensorRelation::Identity)],
                TripleLabel::AllReduce(tid),
                comm_profile(0, sz, 0, 0),
                comm_profile(0, sz, 0, 0),
            );
            lemma_has_triple_extends(
                out1,
                out2,
                seq![Property::HasTensor(tid, TensorRelation::Identity)],
                seq![Property::HasTensor(tid, TensorRelation::Reduce)],
                TripleLabel::IdentityToReduce(tid),
                comm_profile(0, 0, 0, 0),
                comm_profile(0, 0, 0, 0),
            );
            assert forall|di: int, dj: int|
                0 <= di < rank && 0 <= dj < rank && di != dj implies #[trigger] has_triple(
                out2,
                seq![Property::HasTensor(tid, TensorRelation::Gather(di as u8))],
                seq![Property::HasTensor(tid, TensorRelation::Gather(dj as u8))],
                TripleLabel::AllToAll(tid, di as u8, dj as u8),
                comm_profile(0, 0, sz, 0),
                comm_profile(0, 0, sz, 0),
            ) by {
                lemma_has_triple_extends(
                    out1,
                    out2,
                    seq![Property::HasTensor(tid, TensorRelation::Gather(di as u8))],
                    seq![Property::HasTensor(tid, TensorRelation::Gather(dj as u8))],
                    TripleLabel::AllToAll(tid, di as u8, dj as u8),
                    comm_profile(0, 0, sz, 0),
                    comm_profile(0, 0, sz, 0),
                );
            }
        }
    }
}

/// The sharded variants of operator node `n` stand in the emitted triples
/// whenever its operator has the given kind, with their exact conditions,
/// labels and FLOPs-derived profiles (the backward pass costs twice the
/// forward): an elementwise operator runs replicated or sharded along any
/// input dimension; a reducing operator runs replicated, turns any sharded
/// input into partial sums, or folds partial sums; a linear operator runs
/// replicated, data-parallel on any leading batch dimension, or
/// feature-parallel on the weight's first dimension.
pub open spec fn op_covered_for(
    g: RGraph,
    mi: ModuleInfo,
    r: Ratios,
    n: int,
    out: Seq<HoareTriple>,
    kind: OpKind,
) -> bool {
    match g.nodes@[n].instruction {
        RInstruction::Op(op) => mi.ops@[op.0 as int].kind == kind ==> match kind {
            OpKind::Elementwise => {
                let x = g.nodes@[n].inputs@[0];
                let y = g.nodes@[n].outputs@[0];
                let shape = shape_elems(g.tensors@[x.0 as int].shape);
                let f0 = clamp_u64(3 * sharded_size(shape, TensorRelation::Identity, r));
                &&& has_triple(
                    out,
                    seq![Property::HasTensor(x, TensorRelation::Identity)],
                    seq![Property::HasTensor(y, TensorRelation::Identity)],
                    TripleLabel::Computation(op),
                    comp_fwd(f0),
                    comp_bwd(f0),
                )
                &&& forall|d: int|
                    0 <= d < shape.len() as int ==> #[trigger] has_triple(
                        out,
                        seq![Property::HasTensor(x, TensorRelation::Gather(d as u8))],
                        seq![Property::HasTensor(y, TensorRelation::Gather(d as u8))],
                        TripleLabel::Computation(op),
                        comp_fwd(
                            clamp_u64(3 * sharded_size(shape, TensorRelation::Gather(d as u8), r)),
                        ),
                        comp_bwd(
                            clamp_u64(3 * sharded_size(shape, TensorRelation::Gather(d as u8), r)),
                        ),
                    )
            },
            OpKind::Reducing => {
                let x = g.nodes@[n].inputs@[0];
                let y = g.nodes@[n].outputs@[0];
                let shape = shape_elems(g.tensors@[x.0 as int].shape);
                let f0 = sharded_size(shape, TensorRelation::Identity, r);
                &&& has_triple(
                    out,
                    seq![Property::HasTensor(x, TensorRelation::Identity)],
                    seq![Property::HasTensor(y, TensorRelation::Identity)],
                    TripleLabel::Computation(op),
                    comp_fwd(f0),
                    comp_bwd(f0),
                )
                &&& forall|d: int|
                    0 <= d < shape.len() as int ==> #[trigger] has_triple(
                        out,
                        seq![Property::HasTensor(x, TensorRelation::Gather(d as u8))],
                        seq![Property::HasTensor(y, TensorRelation::Reduce)],
                        TripleLabel::Computation(op),
                        comp_fwd(sharded_size(shape, TensorRelation::Gather(d as u8), r)),
                        comp_bwd(sharded_size(shape, TensorRelation::Gather(d as u8), r)),
                    )
                &&& has_triple(
                    out,
                    seq![Property::HasTensor(x, TensorRelation::Reduce)],
                    seq![Property::HasTensor(y, TensorRelation::Reduce)],
                    TripleLabel::Computation(op),
                    comp_fwd(sharded_size(shape, TensorRelation::Reduce, r)),
                    comp_bwd(sharded_size(shape, TensorRelation::Reduce, r)),
                )
            },
            OpKind::Linear => {
                let a = g.nodes@[n].inputs@[0];
                let w = g.nodes@[n].inputs@[1];
                let b = g.nodes@[n].inputs@[2];
                let y = g.nodes@[n].outputs@[0];
                let ashape = shape_elems(g.tensors@[a.0 as int].shape);
                let gf = shape_elems(g.tensors@[w.0 as int].shape)[0] as int;
                let rank_y = shape_elems(g.tensors@[y.0 as int].shape).len() as int;
                let f_rep = clamp_u64(
                    clamp_u64(3 * sharded_size(ashape, TensorRelation::Identity, r)) * gf,
                );
                let f_feat = clamp_u64(
                    clamp_u64(3 * sharded_size(ashape, TensorRelation::Identity, r)) * shard_len(
                        gf,
                        r,
                        0,
                    ),
                );
                &&& has_triple(
                    out,
                    seq![
                        Property::HasTensor(a, TensorRelation::Identity),
                        Property::HasTensor(w, TensorRelation::Identity),
                        Property::HasTensor(b, TensorRelation::Identity),
                    ],
                    seq![Property::HasTensor(y, TensorRelation::Identity)],
                    TripleLabel::Computation(op),
                    comp_fwd(f_rep),
                    comp_bwd(f_rep),
                )
                &&& forall|d: int|
                    #![trigger sharded_size(ashape, TensorRelation::Gather(d as u8), r)]
                    0 <= d < ashape.len() as int - 1 ==> has_triple(
                        out,
                        seq![
                            Property::HasTensor(a, TensorRelation::Gather(d as u8)),
                            Property::HasTensor(w, TensorRelation::Identity),
                            Property::HasTensor(b, TensorRelation::Identity),
                        ],
                        seq![Property::HasTensor(y, TensorRelation::Gather(d as u8))],
                        TripleLabel::Computation(op),
                        comp_fwd(
                            clamp_u64(
                                clamp_u64(
                                    3 * sharded_size(ashape, TensorRelation::Gather(d as u8), r),
                                ) * gf,
                            ),
                        ),
                        comp_bwd(
                            clamp_u64(
                                clamp_u64(
                                    3 * sharded_size(ashape, TensorRelation::Gather(d as u8), r),
                                ) * gf,
                            ),
                        ),
                    )
                &&& has_triple(
                    out,
                    seq![
                        Property::HasTensor(a, TensorRelation::Identity),
                        Property::HasTensor(w, TensorRelation::Gather(0)),
                        Property::HasTensor(b, TensorRelation::Gather(0)),
                    ],
                    seq![Property::HasTensor(y, TensorRelation::Gather((rank_y - 1) as u8))],
                    TripleLabel::Computation(op),
                    comp_fwd(f_feat),
                    comp_bwd(f_feat),
                )
            },
        },
        _ => true,
    }
}

/// Appending triples never uncovers an operator's variants.
proof fn lemma_op_covered_extends(
    g: RGraph,
    mi: ModuleInfo,
    r: Ratios,
    out1: Seq<HoareTriple>,
    out2: Seq<HoareTriple>,
    kind: OpKind,
)
    requires
        out1.len() <= out2.len(),
        forall|k: int| 0 <= k < out1.len() ==> #[trigger] out2[k] == out1[k],
    ensures
        forall|n: int|
            0 <= n < g.nodes@.len() && op_covered_for(g, mi, r, n, out1, kind)
                ==> op_covered_for(g, mi, r, n, out2, kind),
{
    assert forall|n: int|
        0 <= n < g.nodes@.len() && op_covered_for(g, mi, r, n, out1, kind) implies op_covered_for(
        g,
        mi,
        r,
        n,
        out2,
        kind,
    ) by {
        match g.nodes@[n].instruction {
            RInstruction::Op(op) => if mi.ops@[op.0 as int].kind == kind {
                match kind {
                    OpKind::Elementwise => {
                        let x = g.nodes@[n].inputs@[0];
                        let y = g.nodes@[n].outputs@[0];
                        let shape = shape_elems(g.tensors@[x.0 as int].shape);
                        let f0 = clamp_u64(3 * sharded_size(shape, TensorRelation::Identity, r));
                        lemma_has_triple_extends(
                            out1,
                            out2,
                            seq![Property::HasTensor(x, TensorRelation::Identity)],
                            seq![Property::HasTensor(y, TensorRelation::Identity)],
                            TripleLabel::Computation(op),
                            comp_fwd(f0),
                            comp_bwd(f0),
                        );
                        assert forall|d: int|
                            0 <= d < shape.len() as int implies #[trigger] has_triple(
                            out2,
                            seq![Property::HasTensor(x, TensorRelation::Gather(d as u8))],
                            seq![Property::HasTensor(y, TensorRelation::Gather(d as u8))],
                            TripleLabel::Computation(op),
                            comp_fwd(
                                clamp_u64(
                                    3 * sharded_size(shape, TensorRelation::Gather(d as u8), r),
                                ),
                            ),
                            comp_bwd(
                                clamp_u64(
                                    3 * sharded_size(shape, TensorRelation::Gather(d as u8), r),
                                ),
                            ),
                        ) by {
                            lemma_has_triple_extends(
                                out1,
                                out2,
                                seq![Property::HasTensor(x, TensorRelation::Gather(d as u8))],
                                seq![Property::HasTensor(y, TensorRelation::Gather(d as u8))],
                                TripleLabel::Computation(op),
                                comp_fwd(
                                    clamp_u64(
                                        3 * sharded_size(
                                            shape,
                                            TensorRelation::Gather(d as u8),
                                            r,
                                        ),
                                    ),
                                ),
                                comp_bwd(
                                    clamp_u64(
                                        3 * sharded_size(
                                            shape,
                                            TensorRelation::Gather(d as u8),
                                            r,
                                        ),
                                    ),
                                ),
                            );
                        }
                    },
                    OpKind::Reducing => {
                        let x = g.nodes@[n].inputs@[0];
                        let y = g.nodes@[n].outputs@[0];
                        let shape = shape_elems(g.tensors@[x.0 as int].shape);
                        let f0 = sharded_size(shape, TensorRelation::Identity, r);
                        lemma_has_triple_extends(
                            out1,
                            out2,
                            seq![Property::HasTensor(x, TensorRelation::Identity)],
                            seq![Property::HasTensor(y, TensorRelation::Identity)],
                            TripleLabel::Computation(op),
                            comp_fwd(f0),
                            comp_bwd(f0),
                        );
                        assert forall|d: int|
                            0 <= d < shape.len() as int implies #[trigger] has_triple(
                            out2,
                            seq![Property::HasTensor(x, TensorRelation::Gather(d as u8))],
                            seq![Property::HasTensor(y, TensorRelation::Reduce)],
                            TripleLabel::Computation(op),
                            comp_fwd(sharded_size(shape, TensorRelation::Gather(d as u8), r)),
                            comp_bwd(sharded_size(shape, TensorRelation::Gather(d as u8), r)),
                        ) by {
                            lemma_has_triple_extends(
                                out1,
                                out2,
                                seq![Property::HasTensor(x, TensorRelation::Gather(d as u8))],
                                seq![Property::HasTensor(y, TensorRelation::Reduce)],
                                TripleLabel::Computation(op),
                                comp_fwd(sharded_size(shape, TensorRelation::Gather(d as u8), r)),
                                comp_bwd(sharded_size(shape, TensorRelation::Gather(d as u8), r)),
                            );
                        }
                        lemma_has_triple_extends(
                            out1,
                            out2,
                            seq![Property::HasTensor(x, TensorRelation::Reduce)],
                            seq![Property::HasTensor(y, TensorRelation::Reduce)],
                            TripleLabel::Computation(op),
                            comp_fwd(sharded_size(shape, TensorRelation::Reduce, r)),
                            comp_bwd(sharded_size(shape, TensorRelation::Reduce, r)),
                        );
                    },
                    OpKind::Linear => {
                        let a = g.nodes@[n].inputs@[0];
                        let w = g.nodes@[n].inputs@[1];
                        let b = g.nodes@[n].inputs@[2];
                        let y = g.nodes@[n].outputs@[0];
                        let ashape = shape_elems(g.tensors@[a.0 as int].shape);
                        let gf = shape_elems(g.tensors@[w.0 as int].shape)[0] as int;
                        let rank_y = shape_elems(g.tensors@[y.0 as int].shape).len() as int;
                        let f_rep = clamp_u64(
                            clamp_u64(3 * sharded_size(ashape, TensorRelation::Identity, r)) * gf,
                        );
                        let f_feat = clamp_u64(
                            clamp_u64(3 * sharded_size(ashape, TensorRelation::Identity, r))
                                * shard_len(gf, r, 0),
                        );
                        lemma_has_triple_extends(
                            out1,
                            out2,
                            seq![
                                Property::HasTensor(a, TensorRelation::Identity),
                                Property::HasTensor(w, TensorRelation::Identity),
                                Property::HasTensor(b, TensorRelation::Identity),
                            ],
                            seq![Property::HasTensor(y, TensorRelation::Identity)],
                            TripleLabel::Computation(op),
                            comp_fwd(f_rep),
                            comp_bwd(f_rep),
                        );
                        assert forall|d: int|
                            #![trigger sharded_size(ashape, TensorRelation::Gather(d as u8), r)]
                            0 <= d < ashape.len() as int - 1 implies has_triple(
                            out2,
                            seq![
                                Property::HasTensor(a, TensorRelation::Gather(d as u8)),
                                Property::HasTensor(w, TensorRelation::Identity),
                                Property::HasTensor(b, TensorRelation::Identity),
                            ],
                            seq![Property::HasTensor(y, TensorRelation::Gather(d as u8))],
                            TripleLabel::Computation(op),
                            comp_fwd(
                                clamp_u64(
                                    clamp_u64(
                                        3 * sharded_size(
                                            ashape,
                                            TensorRelation::Gather(d as u8),
                                            r,
                                        ),
                                    ) * gf,
                                ),
                            ),
                            comp_bwd(
                                clamp_u64(
                                    clamp_u64(
                                        3 * sharded_size(
                                            ashape,
                                            TensorRelation::Gather(d as u8),
                                            r,
                                        ),
                                    ) * gf,
                                ),
                            ),
                        ) by {
                            lemma_has_triple_extends(
                                out1,
                                out2,
                                seq![
                                    Property::HasTensor(a, TensorRelation::Gather(d as u8)),
                                    Property::HasTensor(w, TensorRelation::Identity),
                                    Property::HasTensor(b, TensorRelation::Identity),
                                ],
                                seq![Property::HasTensor(y, TensorRelation::Gather(d as u8))],
                                TripleLabel::Computation(op),
                                comp_fwd(
                                    clamp_u64(
                                        clamp_u64(
                                            3 * sharded_size(
                                                ashape,
                                                TensorRelation::Gather(d as u8),
                                                r,
                                            ),
                                        ) * gf,
                                    ),
                                ),
                                comp_bwd(
                                    clamp_u64(
                                        clamp_u64(
                                            3 * sharded_size(
                                                ashape,
                                                TensorRelation::Gather(d as u8),
                                                r,
                                            ),
                                        ) * gf,
                                    ),
                                ),
                            );
                        }
                        lemma_has_triple_extends(
                            out1,
                            out2,
                            seq![
                                Property::HasTensor(a, TensorRelation::Identity),
                                Property::HasTensor(w, TensorRelation::Gather(0)),
                                Property::HasTensor(b, TensorRelation::Gather(0)),
                            ],
                            seq![
                                Property::HasTensor(y, TensorRelation::Gather((rank_y - 1) as u8)),
                            ],
                            TripleLabel::Computation(op),
                            comp_fwd(f_feat),
                            comp_bwd(f_feat),
                        );
                    },
                }
            },
            _ => {},
        }
    }
}

/// Emits every Hoare triple modelling the graph: materialization of
/// placeholders and parameters (replicated or sharded along any dimension),
/// the output rule, the collective moves on every communicatable tensor,
/// and every legal sharded variant of every operator, priced by its FLOPs
/// on the sharded pre-condition shapes. Exactly one finishing triple is
/// emitted per output node; no triple burns tokens, and every triple
/// establishes something.
pub fn analyze_rgraph(rgraph: &RGraph, module_info: &ModuleInfo, ratios: &Ratios) -> (r: Vec<
    HoareTriple,
>)
    requires
        rgraph_wf(*rgraph),
        module_wf(*rgraph, *module_info),
        ratios.wf(),
    ensures
        triples_ok(r@),
        count_finishing(r@) == count_outputs(rgraph.nodes@, rgraph.nodes@.len() as int),
        all_justified(*rgraph, *module_info, *ratios, r@),
        forall|n: int| 0 <= n < rgraph.nodes@.len() ==> node_covered(*rgraph, n, r@),
        forall|t: int| 0 <= t < rgraph.tensors@.len() ==> tensor_comm_covered(*rgraph, t, r@),
        comm_labels_sound(*rgraph, r@),
        forall|n: int|
            0 <= n < rgraph.nodes@.len() ==> op_covered_for(
                *rgraph,
                *module_info,
                *ratios,
                n,
                r@,
                OpKind::Linear,
            ),
        forall|n: int|
            0 <= n < rgraph.nodes@.len() ==> op_covered_for(
                *rgraph,
                *module_info,
                *ratios,
                n,
                r@,
                OpKind::Elementwise,
            ),
        forall|n: int|
            0 <= n < rgraph.nodes@.len() ==> op_covered_for(
                *rgraph,
                *module_info,
                *ratios,
                n,
                r@,
                OpKind::Reducing,
            ),
{
    let mut out: Vec<HoareTriple> = Vec::new();
    let zero = Profile::zero();

    // materialization and output rules, per node
    let n_nodes = rgraph.n_nodes();
    let mut ni: usize = 0;
    while ni < n_nodes
        invariant
            ni <= n_nodes,
            n_nodes == rgraph.nodes@.len(),
            rgraph_wf(*rgraph),
            module_wf(*rgraph, *module_info),
            ratios.wf(),
            triples_ok(out@),
            comm_labels_sound(*rgraph, out@),
            all_justified(*rgraph, *module_info, *ratios, out@),
            count_finishing(out@) == count_outputs(rgraph.nodes@, ni as int),
            forall|n: int| 0 <= n < ni ==> node_covered(*rgraph, n, out@),
            zero == comm_profile(0, 0, 0, 0),
        decreases n_nodes - ni,
    {
        proof {
            assert(node_wf(*rgraph, ni as int));
            assert(node_module_wf(*rgraph, *module_info, ni as int));
        }
        let node = &rgraph.nodes[ni];
        match node.instruction {
            RInstruction::Placeholder(pid) => {
                let tid = node.outputs[0];
                proof {
                    assert(tensor_wf(*rgraph, tid.0 as int));
                }
                let ghost before = out@;
                let tr = HoareTriple {
                    pre_conditions: Vec::new(),
                    post_conditions: props1(Property::identity(tid)),
                    negative_post_conditions: Vec::new(),
                    instruction: TripleLabel::PlaceholderUnsharded(pid),
                    forward_profile: zero,
                    backward_profile: zero,
                };
                proof {
                    assert(tr.pre_conditions@ =~= Seq::<Property>::empty());
                    assert(is_rule(
                        tr,
                        Seq::<Property>::empty(),
                        seq![Property::HasTensor(tid, TensorRelation::Identity)],
                        TripleLabel::PlaceholderUnsharded(pid),
                        comm_profile(0, 0, 0, 0),
                        comm_profile(0, 0, 0, 0),
                    ));
                    assert(node_rule(*rgraph, ni as int, tr));
                    assert(triple_justified(*rgraph, *module_info, *ratios, tr));
                }
                emit(&mut out, Ghost(*rgraph), Ghost(*module_info), Ghost(*ratios), tr);
                proof {
                    lemma_covered_extends(*rgraph, before, out@);
                    assert(has_triple(
                        out@,
                        Seq::<Property>::empty(),
                        seq![Property::HasTensor(tid, TensorRelation::Identity)],
                        TripleLabel::PlaceholderUnsharded(pid),
                        comm_profile(0, 0, 0, 0),
                        comm_profile(0, 0, 0, 0),
                    )) by {
                        assert(out@[before.len() as int].pre_conditions@
                            =~= Seq::<Property>::empty());
                        assert(out@[before.len() as int].post_conditions@ == seq![
                            Property::HasTensor(tid, TensorRelation::Identity),
                        ]);
                        assert(out@[before.len() as int].forward_profile == comm_profile(
                            0,
                            0,
                            0,
                            0,
                        ));
                        assert(out@[before.len() as int].backward_profile == comm_profile(
                            0,
                            0,
                            0,
                            0,
                        ));
                    }
                }
                let nd = rgraph.tensors[tid.0].n_dims();
                let mut dim: usize = 0;
                while dim < nd as usize
                    invariant
                        dim <= nd as usize,
                        nd <= 255,
                        ni < rgraph.nodes@.len(),
                        rgraph.nodes@[ni as int].instruction == RInstruction::Placeholder(pid),
                        tid == rgraph.nodes@[ni as int].outputs@[0],
                        nd as int == shape_elems(rgraph.tensors@[tid.0 as int].shape).len(),
                        triples_ok(out@),
                        comm_labels_sound(*rgraph, out@),
                        all_justified(*rgraph, *module_info, *ratios, out@),
                        count_finishing(out@) == count_outputs(rgraph.nodes@, ni as int + 1),
                        forall|n: int| 0 <= n < ni ==> node_covered(*rgraph, n, out@),
                        zero == comm_profile(0, 0, 0, 0),
                        has_triple(
                            out@,
                            Seq::<Property>::empty(),
                            seq![Property::HasTensor(tid, TensorRelation::Identity)],
                            TripleLabel::PlaceholderUnsharded(pid),
                            comm_profile(0, 0, 0, 0),
                            comm_profile(0, 0, 0, 0),
                        ),
                        forall|d: int|
                            0 <= d < dim ==> #[trigger] has_triple(
                                out@,
                                Seq::<Property>::empty(),
                                seq![Property::HasTensor(tid, TensorRelation::Gather(d as u8))],
                                TripleLabel::PlaceholderShard(pid, d as u8),
                                comm_profile(0, 0, 0, 0),
                                comm_profile(0, 0, 0, 0),
                            ),
                    decreases nd as usize - dim,
                {
                    let ghost prev = out@;
                    let tr = HoareTriple {
                        pre_conditions: Vec::new(),
                        post_conditions: props1(Property::gather(tid, dim as u8)),
                        negative_post_conditions: Vec::new(),
                        instruction: TripleLabel::PlaceholderShard(pid, dim as u8),
                        forward_profile: zero,
                        backward_profile: zero,
                    };
                    proof {
                        assert(tr.pre_conditions@ =~= Seq::<Property>::empty());
                        assert(is_rule(
                            tr,
                            Seq::<Property>::empty(),
                            seq![
                                Property::HasTensor(
                                    tid,
                                    TensorRelation::Gather((dim as int) as u8),
                                ),
                            ],
                            TripleLabel::PlaceholderShard(pid, (dim as int) as u8),
                            comm_profile(0, 0, 0, 0),
                            comm_profile(0, 0, 0, 0),
                        ));
                        assert(node_rule(*rgraph, ni as int, tr));
                        assert(triple_justified(*rgraph, *module_info, *ratios, tr));
                    }
                    emit(&mut out, Ghost(*rgraph), Ghost(*module_info), Ghost(*ratios), tr);
                    proof {
                        lemma_covered_extends(*rgraph, prev, out@);
                        lemma_has_triple_extends(
                            prev,
                            out@,
                            Seq::<Property>::empty(),
                            seq![Property::HasTensor(tid, TensorRelation::Identity)],
                            TripleLabel::PlaceholderUnsharded(pid),
                            comm_profile(0, 0, 0, 0),
                            comm_profile(0, 0, 0, 0),
                        );
                        assert forall|d: int|
                            0 <= d < dim + 1 implies #[trigger] has_triple(
                            out@,
                            Seq::<Property>::empty(),
                            seq![Property::HasTensor(tid, TensorRelation::Gather(d as u8))],
                            TripleLabel::PlaceholderShard(pid, d as u8),
                            comm_profile(0, 0, 0, 0),
                            comm_profile(0, 0, 0, 0),
                        ) by {
                            if d < dim {
                                lemma_has_triple_extends(
                                    prev,
                                    out@,
                                    Seq::<Property>::empty(),
                                    seq![
                                        Property::HasTensor(tid, TensorRelation::Gather(d as u8)),
                                    ],
                                    TripleLabel::PlaceholderShard(pid, d as u8),
                                    comm_profile(0, 0, 0, 0),
                                    comm_profile(0, 0, 0, 0),
                                );
                            } else {
                                assert(out@[prev.len() as int].pre_conditions@
                                    =~= Seq::<Property>::empty());
                                assert(out@[prev.len() as int].post_conditions@ == seq![
                                    Property::HasTensor(tid, TensorRelation::Gather(dim as u8)),
                                ]);
                                assert(out@[prev.len() as int].forward_profile == comm_profile(
                                    0,
                                    0,
                                    0,
                                    0,
                                ));
                                assert(out@[prev.len() as int].backward_profile == comm_profile(
                                    0,
                                    0,
                                    0,
                                    0,
                                ));
                                assert(d == dim);
                            }
                        }
                    }
                    dim += 1;
                }
                proof {
                    assert(node_covered(*rgraph, ni as int, out@));
                }
            },
            RInstruction::GetAttr(pid) => {
                let tid = node.outputs[0];
                proof {
                    assert(tensor_wf(*rgraph, tid.0 as int));
                }
                let size = rgraph.tensors[tid.0].size();
                let ghost before = out@;
                let tr = HoareTriple {
                    pre_conditions: Vec::new(),
                    post_conditions: props1(Property::identity(tid)),
                    negative_post_conditions: Vec::new(),
                    instruction: TripleLabel::GetAttrUnsharded(pid),
                    forward_profile: zero,
                    // the gradient of a replicated parameter is
                    // all-reduced across the cluster on the way back
                    backward_profile: Profile {
                        flops: 0,
                        all_reduce: size,
                        all_gather: 0,
                        all_to_all: 0,
                        reduce_scatter: 0,
                    },
                };
                proof {
                    assert(tr.pre_conditions@ =~= Seq::<Property>::empty());
                    assert(tr.backward_profile == comm_profile(
                        0,
                        full_size(*rgraph, tid.0 as int),
                        0,
                        0,
                    ));
                    assert(is_rule(
                        tr,
                        Seq::<Property>::empty(),
                        seq![Property::HasTensor(tid, TensorRelation::Identity)],
                        TripleLabel::GetAttrUnsharded(pid),
                        comm_profile(0, 0, 0, 0),
                        comm_profile(0, full_size(*rgraph, tid.0 as int), 0, 0),
                    ));
                    assert(node_rule(*rgraph, ni as int, tr));
                    assert(triple_justified(*rgraph, *module_info, *ratios, tr));
                }
                emit(&mut out, Ghost(*rgraph), Ghost(*module_info), Ghost(*ratios), tr);
                proof {
                    lemma_covered_extends(*rgraph, before, out@);
                    assert(has_triple(
                        out@,
                        Seq::<Property>::empty(),
                        seq![Property::HasTensor(tid, TensorRelation::Identity)],
                        TripleLabel::GetAttrUnsharded(pid),
                        comm_profile(0, 0, 0, 0),
                        comm_profile(0, full_size(*rgraph, tid.0 as int), 0, 0),
                    )) by {
                        assert(out@[before.len() as int].pre_conditions@
                            =~= Seq::<Property>::empty());
                        assert(out@[before.len() as int].post_conditions@ == seq![
                            Property::HasTensor(tid, TensorRelation::Identity),
                        ]);
                        assert(out@[before.len() as int].forward_profile == comm_profile(
                            0,
                            0,
                            0,
                            0,
                        ));
                        assert(out@[before.len() as int].backward_profile == comm_profile(
                            0,
                            full_size(*rgraph, tid.0 as int),
                            0,
                            0,
                        ));
                    }
                }
                let nd = rgraph.tensors[tid.0].n_dims();
                let mut dim: usize = 0;
                while dim < nd as usize
                    invariant
                        dim <= nd as usize,
                        nd <= 255,
                        ni < rgraph.nodes@.len(),
                        rgraph.nodes@[ni as int].instruction == RInstruction::GetAttr(pid),
                        tid == rgraph.nodes@[ni as int].outputs@[0],
                        nd as int == shape_elems(rgraph.tensors@[tid.0 as int].shape).len(),
                        triples_ok(out@),
                        comm_labels_sound(*rgraph, out@),
                        all_justified(*rgraph, *module_info, *ratios, out@),
                        count_finishing(out@) == count_outputs(rgraph.nodes@, ni as int + 1),
                        forall|n: int| 0 <= n < ni ==> node_covered(*rgraph, n, out@),
                        zero == comm_profile(0, 0, 0, 0),
                        has_triple(
                            out@,
                            Seq::<Property>::empty(),
                            seq![Property::HasTensor(tid, TensorRelation::Identity)],
                            TripleLabel::GetAttrUnsharded(pid),
                            comm_profile(0, 0, 0, 0),
                            comm_profile(0, full_size(*rgraph, tid.0 as int), 0, 0),
                        ),
                        forall|d: int|
                            0 <= d < dim ==> #[trigger] has_triple(
                                out@,
                                Seq::<Property>::empty(),
                                seq![Property::HasTensor(tid, TensorRelation::Gather(d as u8))],
                                TripleLabel::GetAttrShard(pid, d as u8),
                                comm_profile(0, 0, 0, 0),
                                comm_profile(0, 0, 0, 0),
                            ),
                    decreases nd as usize - dim,
                {
                    let ghost prev = out@;
                    let tr = HoareTriple {
                        pre_conditions: Vec::new(),
                        post_conditions: props1(Property::gather(tid, dim as u8)),
                        negative_post_conditions: Vec::new(),
                        instruction: TripleLabel::GetAttrShard(pid, dim as u8),
                        forward_profile: zero,
                        backward_profile: zero,
                    };
                    proof {
                        assert(tr.pre_conditions@ =~= Seq::<Property>::empty());
                        assert(is_rule(
                            tr,
                            Seq::<Property>::empty(),
                            seq![
                                Property::HasTensor(
                                    tid,
                                    TensorRelation::Gather((dim as int) as u8),
                                ),
                            ],
                            TripleLabel::GetAttrShard(pid, (dim as int) as u8),
                            comm_profile(0, 0, 0, 0),
                            comm_profile(0, 0, 0, 0),
                        ));
                        assert(node_rule(*rgraph, ni as int, tr));
                        assert(triple_justified(*rgraph, *module_info, *ratios, tr));
                    }
                    emit(&mut out, Ghost(*rgraph), Ghost(*module_info), Ghost(*ratios), tr);
                    proof {
                        lemma_covered_extends(*rgraph, prev, out@);
                        lemma_has_triple_extends(
                            prev,
                            out@,
                            Seq::<Property>::empty(),
                            seq![Property::HasTensor(tid, TensorRelation::Identity)],
                            TripleLabel::GetAttrUnsharded(pid),
                            comm_profile(0, 0, 0, 0),
                            comm_profile(0, full_size(*rgraph, tid.0 as int), 0, 0),
                        );
                        assert forall|d: int|
                            0 <= d < dim + 1 implies #[trigger] has_triple(
                            out@,
                            Seq::<Property>::empty(),
                            seq![Property::HasTensor(tid, TensorRelation::Gather(d as u8))],
                            TripleLabel::GetAttrShard(pid, d as u8),
                            comm_profile(0, 0, 0, 0),
                            comm_profile(0, 0, 0, 0),
                        ) by {
                            if d < dim {
                                lemma_has_triple_extends(
                                    prev,
                                    out@,
                                    Seq::<Property>::empty(),
                                    seq![
                                        Property::HasTensor(tid, TensorRelation::Gather(d as u8)),
                                    ],
                                    TripleLabel::GetAttrShard(pid, d as u8),
                                    comm_profile(0, 0, 0, 0),
                                    comm_profile(0, 0, 0, 0),
                                );
                            } else {
                                assert(out@[prev.len() as int].pre_conditions@
                                    =~= Seq::<Property>::empty());
                                assert(out@[prev.len() as int].post_conditions@ == seq![
                                    Property::HasTensor(tid, TensorRelation::Gather(dim as u8)),
                                ]);
                                assert(out@[prev.len() as int].forward_profile == comm_profile(
                                    0,
                                    0,
                                    0,
                                    0,
                                ));
                                assert(out@[prev.len() as int].backward_profile == comm_profile(
                                    0,
                                    0,
                                    0,
                                    0,
                                ));
                                assert(d == dim);
                            }
                        }
                    }
                    dim += 1;
                }
                proof {
                    assert(node_covered(*rgraph, ni as int, out@));
                }
            },
            RInstruction::Output => {
                let tid = node.inputs[0];
                let ghost before = out@;
                let tr = HoareTriple {
                    pre_conditions: props1(Property::reduce(tid)),
                    post_conditions: props1(Property::Finished),
                    negative_post_conditions: Vec::new(),
                    instruction: TripleLabel::Output,
                    forward_profile: zero,
                    backward_profile: zero,
                };
                proof {
                    assert(is_rule(
                        tr,
                        seq![Property::HasTensor(tid, TensorRelation::Reduce)],
                        seq![Property::Finished],
                        TripleLabel::Output,
                        comm_profile(0, 0, 0, 0),
                        comm_profile(0, 0, 0, 0),
                    ));
                    assert(node_rule(*rgraph, ni as int, tr));
                    assert(triple_justified(*rgraph, *module_info, *ratios, tr));
                }
                emit(&mut out, Ghost(*rgraph), Ghost(*module_info), Ghost(*ratios), tr);
                proof {
                    lemma_covered_extends(*rgraph, before, out@);
                    assert(out@[before.len() as int].pre_conditions@ == seq![
                        Property::HasTensor(tid, TensorRelation::Reduce),
                    ]);
                    assert(out@[before.len() as int].post_conditions@ == seq![
                        Property::Finished,
                    ]);
                    assert(node_covered(*rgraph, ni as int, out@));
                }
            },
            RInstruction::Op(_) => {},
        }
        ni += 1;
    }
    proof {
        assert(count_finishing(out@) == count_outputs(rgraph.nodes@, rgraph.nodes@.len() as int));
    }
    let ghost total = count_outputs(rgraph.nodes@, rgraph.nodes@.len() as int);

    // collective communication on every communicatable tensor
    let n_tensors = rgraph.n_tensors();
    let mut ti: usize = 0;
    while ti < n_tensors
        invariant
            ti <= n_tensors,
            n_tensors == rgraph.tensors@.len(),
            rgraph_wf(*rgraph),
            ratios.wf(),
            triples_ok(out@),
            comm_labels_sound(*rgraph, out@),
            all_justified(*rgraph, *module_info, *ratios, out@),
            count_finishing(out@) == total,
            zero == comm_profile(0, 0, 0, 0),
            forall|n: int| 0 <= n < rgraph.nodes@.len() ==> node_covered(*rgraph, n, out@),
            forall|t: int| 0 <= t < ti ==> tensor_comm_covered(*rgraph, t, out@),
        decreases n_tensors - ti,
    {
        proof {
            assert(tensor_wf(*rgraph, ti as int));
        }
        if rgraph.tensors[ti].communicatable {
            let tid = RTensorId(ti);
            let size = rgraph.tensors[ti].size();
            let ghost sz = full_size(*rgraph, ti as int);
            let nd = rgraph.tensors[ti].n_dims();
            let mut dim: usize = 0;
            while dim < nd as usize
                invariant
                    dim <= nd as usize,
                    nd <= 255,
                    ti < rgraph.tensors@.len(),
                    nd as int == shape_elems(rgraph.tensors@[ti as int].shape).len(),
                    tid == RTensorId(ti as usize),
                    rgraph.tensors@[ti as int].communicatable,
                    size as int == sz,
                    sz == full_size(*rgraph, ti as int),
                    zero == comm_profile(0, 0, 0, 0),
                    triples_ok(out@),
                    comm_labels_sound(*rgraph, out@),
                    all_justified(*rgraph, *module_info, *ratios, out@),
                    count_finishing(out@) == total,
                    forall|n: int| 0 <= n < rgraph.nodes@.len() ==> node_covered(*rgraph, n, out@),
                    forall|t: int| 0 <= t < ti ==> tensor_comm_covered(*rgraph, t, out@),
                    forall|d: int|
                        0 <= d < dim ==> #[trigger] has_triple(
                            out@,
                            seq![Property::HasTensor(tid, TensorRelation::Gather(d as u8))],
                            seq![Property::HasTensor(tid, TensorRelation::Identity)],
                            TripleLabel::AllGather(tid, d as u8),
                            comm_profile(sz, 0, 0, 0),
                            comm_profile(0, 0, 0, sz),
                        ),
                    forall|d: int|
                        0 <= d < dim ==> #[trigger] has_triple(
                            out@,
                            seq![Property::HasTensor(tid, TensorRelation::Identity)],
                            seq![Property::HasTensor(tid, TensorRelation::Gather(d as u8))],
                            TripleLabel::DynamicSlice(tid, d as u8),
                            comm_profile(0, 0, 0, 0),
                            comm_profile(0, 0, 0, 0),
                        ),
                    forall|d: int|
                        0 <= d < dim ==> #[trigger] has_triple(
                            out@,
                            seq![Property::HasTensor(tid, TensorRelation::Reduce)],
                            seq![Property::HasTensor(tid, TensorRelation::Gather(d as u8))],
                            TripleLabel::ReduceScatter(tid, d as u8),
                            comm_profile(0, 0, 0, sz),
                            comm_profile(sz, 0, 0, 0),
                        ),
                decreases nd as usize - dim,
            {
                let ghost prev = out@;
                let tr_ag = HoareTriple {
                    pre_conditions: props1(Property::gather(tid, dim as u8)),
                    post_conditions: props1(Property::identity(tid)),
                    negative_post_conditions: Vec::new(),
                    instruction: TripleLabel::AllGather(tid, dim as u8),
                    forward_profile: Profile {
                        flops: 0,
                        all_reduce: 0,
                        all_gather: size,
                        all_to_all: 0,
                        reduce_scatter: 0,
                    },
                    backward_profile: Profile {
                        flops: 0,
                        all_reduce: 0,
                        all_gather: 0,
                        all_to_all: 0,
                        reduce_scatter: size,
                    },
                };
                proof {
                    assert(is_rule(
                        tr_ag,
                        seq![
                            Property::HasTensor(tid, TensorRelation::Gather((dim as int) as u8)),
                        ],
                        seq![Property::HasTensor(tid, TensorRelation::Identity)],
                        TripleLabel::AllGather(tid, (dim as int) as u8),
                        comm_profile(sz, 0, 0, 0),
                        comm_profile(0, 0, 0, sz),
                    ));
                    assert(comm_rule(*rgraph, ti as int, tr_ag));
                    assert(triple_justified(*rgraph, *module_info, *ratios, tr_ag));
                }
                emit(&mut out, Ghost(*rgraph), Ghost(*module_info), Ghost(*ratios), tr_ag);
                let ghost mid1 = out@;
                let tr_ds = HoareTriple {
                    pre_conditions: props1(Property::identity(tid)),
                    post_conditions: props1(Property::gather(tid, dim as u8)),
                    negative_post_conditions: Vec::new(),
                    instruction: TripleLabel::DynamicSlice(tid, dim as u8),
                    forward_profile: zero,
                    backward_profile: zero,
                };
                proof {
                    assert(is_rule(
                        tr_ds,
                        seq![Property::HasTensor(tid, TensorRelation::Identity)],
                        seq![
                            Property::HasTensor(tid, TensorRelation::Gather((dim as int) as u8)),
                        ],
                        TripleLabel::DynamicSlice(tid, (dim as int) as u8),
                        comm_profile(0, 0, 0, 0),
                        comm_profile(0, 0, 0, 0),
                    ));
                    assert(comm_rule(*rgraph, ti as int, tr_ds));
                    assert(triple_justified(*rgraph, *module_info, *ratios, tr_ds));
                }
                emit(&mut out, Ghost(*rgraph), Ghost(*module_info), Ghost(*ratios), tr_ds);
                let ghost mid2 = out@;
                let tr_rs = HoareTriple {
                    pre_conditions: props1(Property::reduce(tid)),
                    post_conditions: props1(Property::gather(tid, dim as u8)),
                    negative_post_conditions: Vec::new(),
                    instruction: TripleLabel::ReduceScatter(tid, dim as u8),
                    forward_profile: Profile {
                        flops: 0,
                        all_reduce: 0,
                        all_gather: 0,
                        all_to_all: 0,
                        reduce_scatter: size,
                    },
                    backward_profile: Profile {
                        flops: 0,
                        all_reduce: 0,
                        all_gather: size,
                        all_to_all: 0,
                        reduce_scatter: 0,
                    },
                };
                proof {
                    assert(is_rule(
                        tr_rs,
                        seq![Property::HasTensor(tid, TensorRelation::Reduce)],
                        seq![
                            Property::HasTensor(tid, TensorRelation::Gather((dim as int) as u8)),
                        ],
                        TripleLabel::ReduceScatter(tid, (dim as int) as u8),
                        comm_profile(0, 0, 0, sz),
                        comm_profile(sz, 0, 0, 0),
                    ));
                    assert(comm_rule(*rgraph, ti as int, tr_rs));
                    assert(triple_justified(*rgraph, *module_info, *ratios, tr_rs));
                }
                emit(&mut out, Ghost(*rgraph), Ghost(*module_info), Ghost(*ratios), tr_rs);
                proof {
                    lemma_covered_extends(*rgraph, prev, out@);
                    lemma_comm_covered_extends(*rgraph, prev, out@);
                    assert(out@[prev.len() as int] == mid1[prev.len() as int]);
                    assert forall|d: int|
                        0 <= d < dim + 1 implies #[trigger] has_triple(
                        out@,
                        seq![Property::HasTensor(tid, TensorRelation::Gather(d as u8))],
                        seq![Property::HasTensor(tid, TensorRelation::Identity)],
                        TripleLabel::AllGather(tid, d as u8),
                        comm_profile(sz, 0, 0, 0),
                        comm_profile(0, 0, 0, sz),
                    ) by {
                        if d < dim {
                            lemma_has_triple_extends(
                                prev,
                                out@,
                                seq![Property::HasTensor(tid, TensorRelation::Gather(d as u8))],
                                seq![Property::HasTensor(tid, TensorRelation::Identity)],
                                TripleLabel::AllGather(tid, d as u8),
                                comm_profile(sz, 0, 0, 0),
                                comm_profile(0, 0, 0, sz),
                            );
                        } else {
                            assert(out@[prev.len() as int].pre_conditions@ == seq![
                                Property::HasTensor(tid, TensorRelation::Gather(dim as u8)),
                            ]);
                            assert(out@[prev.len() as int].forward_profile == comm_profile(
                                sz,
                                0,
                                0,
                                0,
                            ));
                            assert(out@[prev.len() as int].backward_profile == comm_profile(
                                0,
                                0,
                                0,
                                sz,
                            ));
                        }
                    }
                    assert forall|d: int|
                        0 <= d < dim + 1 implies #[trigger] has_triple(
                        out@,
                        seq![Property::HasTensor(tid, TensorRelation::Identity)],
                        seq![Property::HasTensor(tid, TensorRelation::Gather(d as u8))],
                        TripleLabel::DynamicSlice(tid, d as u8),
                        comm_profile(0, 0, 0, 0),
                        comm_profile(0, 0, 0, 0),
                    ) by {
                        if d < dim {
                            lemma_has_triple_extends(
                                prev,
                                out@,
                                seq![Property::HasTensor(tid, TensorRelation::Identity)],
                                seq![Property::HasTensor(tid, TensorRelation::Gather(d as u8))],
                                TripleLabel::DynamicSlice(tid, d as u8),
                                comm_profile(0, 0, 0, 0),
                                comm_profile(0, 0, 0, 0),
                            );
                        } else {
                            assert(out@[mid1.len() as int] == mid2[mid1.len() as int]);
                            assert(out@[mid1.len() as int].post_conditions@ == seq![
                                Property::HasTensor(tid, TensorRelation::Gather(dim as u8)),
                            ]);
                        }
                    }
                    assert forall|d: int|
                        0 <= d < dim + 1 implies #[trigger] has_triple(
                        out@,
                        seq![Property::HasTensor(tid, TensorRelation::Reduce)],
                        seq![Property::HasTensor(tid, TensorRelation::Gather(d as u8))],
                        TripleLabel::ReduceScatter(tid, d as u8),
                        comm_profile(0, 0, 0, sz),
                        comm_profile(sz, 0, 0, 0),
                    ) by {
                        if d < dim {
                            lemma_has_triple_extends(
                                prev,
                                out@,
                                seq![Property::HasTensor(tid, TensorRelation::Reduce)],
                                seq![Property::HasTensor(tid, TensorRelation::Gather(d as u8))],
                                TripleLabel::ReduceScatter(tid, d as u8),
                                comm_profile(0, 0, 0, sz),
                                comm_profile(sz, 0, 0, 0),
                            );
                        } else {
                            assert(out@[mid2.len() as int].post_conditions@ == seq![
                                Property::HasTensor(tid, TensorRelation::Gather(dim as u8)),
                            ]);
                            assert(out@[mid2.len() as int].forward_profile == comm_profile(
                                0,
                                0,
                                0,
                                sz,
                            ));
                            assert(out@[mid2.len() as int].backward_profile == comm_profile(
                                sz,
                                0,
                                0,
                                0,
                            ));
                        }
                    }
                }
                dim += 1;
            }
            let ghost prev2 = out@;
            let tr_ar = HoareTriple {
                pre_conditions: props1(Property::reduce(tid)),
                post_conditions: props1(Property::identity(tid)),
                negative_post_conditions: Vec::new(),
                instruction: TripleLabel::AllReduce(tid),
                forward_profile: Profile {
                    flops: 0,
                    all_reduce: size,
                    all_gather: 0,
                    all_to_all: 0,
                    reduce_scatter: 0,
                },
                backward_profile: Profile {
                    flops: 0,
                    all_reduce: size,
                    all_gather: 0,
                    all_to_all: 0,
                    reduce_scatter: 0,
                },
            };
            proof {
                assert(is_rule(
                    tr_ar,
                    seq![Property::HasTensor(tid, TensorRelation::Reduce)],
                    seq![Property::HasTensor(tid, TensorRelation::Identity)],
                    TripleLabel::AllReduce(tid),
                    comm_profile(0, sz, 0, 0),
                    comm_profile(0, sz, 0, 0),
                ));
                assert(comm_rule(*rgraph, ti as int, tr_ar));
                assert(triple_justified(*rgraph, *module_info, *ratios, tr_ar));
            }
            emit(&mut out, Ghost(*rgraph), Ghost(*module_info), Ghost(*ratios), tr_ar);
            let ghost mid3 = out@;
            // every device already holds the tensor, so one keeps it and
            // the rest contribute zeros: free partial sums
            let tr_ir = HoareTriple {
                pre_conditions: props1(Property::identity(tid)),
                post_conditions: props1(Property::reduce(tid)),
                negative_post_conditions: Vec::new(),
                instruction: TripleLabel::IdentityToReduce(tid),
                forward_profile: zero,
                backward_profile: zero,
            };
            proof {
                assert(is_rule(
                    tr_ir,
                    seq![Property::HasTensor(tid, TensorRelation::Identity)],
                    seq![Property::HasTensor(tid, TensorRelation::Reduce)],
                    TripleLabel::IdentityToReduce(tid),
                    comm_profile(0, 0, 0, 0),
                    comm_profile(0, 0, 0, 0),
                ));
                assert(comm_rule(*rgraph, ti as int, tr_ir));
                assert(triple_justified(*rgraph, *module_info, *ratios, tr_ir));
            }
            emit(&mut out, Ghost(*rgraph), Ghost(*module_info), Ghost(*ratios), tr_ir);
            proof {
                lemma_covered_extends(*rgraph, prev2, out@);
                lemma_comm_covered_extends(*rgraph, prev2, out@);
                assert(out@[prev2.len() as int] == mid3[prev2.len() as int]);
                assert(out@[prev2.len() as int].forward_profile == comm_profile(0, sz, 0, 0));
                assert(out@[prev2.len() as int].backward_profile == comm_profile(0, sz, 0, 0));
                assert(has_triple(
                    out@,
                    seq![Property::HasTensor(tid, TensorRelation::Reduce)],
                    seq![Property::HasTensor(tid, TensorRelation::Identity)],
                    TripleLabel::AllReduce(tid),
                    comm_profile(0, sz, 0, 0),
                    comm_profile(0, sz, 0, 0),
                ));
                assert(out@[mid3.len() as int].post_conditions@ == seq![
                    Property::HasTensor(tid, TensorRelation::Reduce),
                ]);
                assert(has_triple(
                    out@,
                    seq![Property::HasTensor(tid, TensorRelation::Identity)],
                    seq![Property::HasTensor(tid, TensorRelation::Reduce)],
                    TripleLabel::IdentityToReduce(tid),
                    comm_profile(0, 0, 0, 0),
                    comm_profile(0, 0, 0, 0),
                ));
                assert forall|d: int|
                    0 <= d < nd as int implies #[trigger] has_triple(
                    out@,
                    seq![Property::HasTensor(tid, TensorRelation::Gather(d as u8))],
                    seq![Property::HasTensor(tid, TensorRelation::Identity)],
                    TripleLabel::AllGather(tid, d as u8),
                    comm_profile(sz, 0, 0, 0),
                    comm_profile(0, 0, 0, sz),
                ) by {
                    lemma_has_triple_extends(
                        prev2,
                        out@,
                        seq![Property::HasTensor(tid, TensorRelation::Gather(d as u8))],
                        seq![Property::HasTensor(tid, TensorRelation::Identity)],
                        TripleLabel::AllGather(tid, d as u8),
                        comm_profile(sz, 0, 0, 0),
                        comm_profile(0, 0, 0, sz),
                    );
                }
                assert forall|d: int|
                    0 <= d < nd as int implies #[trigger] has_triple(
                    out@,
                    seq![Property::HasTensor(tid, TensorRelation::Identity)],
                    seq![Property::HasTensor(tid, TensorRelation::Gather(d as u8))],
                    TripleLabel::DynamicSlice(tid, d as u8),
                    comm_profile(0, 0, 0, 0),
                    comm_profile(0, 0, 0, 0),
                ) by {
                    lemma_has_triple_extends(
                        prev2,
                        out@,
                        seq![Property::HasTensor(tid, TensorRelation::Identity)],
                        seq![Property::HasTensor(tid, TensorRelation::Gather(d as u8))],
                        TripleLabel::DynamicSlice(tid, d as u8),
                        comm_profile(0, 0, 0, 0),
                        comm_profile(0, 0, 0, 0),
                    );
                }
                assert forall|d: int|
                    0 <= d < nd as int implies #[trigger] has_triple(
                    out@,
                    seq![Property::HasTensor(tid, TensorRelation::Reduce)],
                    seq![Property::HasTensor(tid, TensorRelation::Gather(d as u8))],
                    TripleLabel::ReduceScatter(tid, d as u8),
                    comm_profile(0, 0, 0, sz),
                    comm_profile(sz, 0, 0, 0),
                ) by {
                    lemma_has_triple_extends(
                        prev2,
                        out@,
                        seq![Property::HasTensor(tid, TensorRelation::Reduce)],
                        seq![Property::HasTensor(tid, TensorRelation::Gather(d as u8))],
                        TripleLabel::ReduceScatter(tid, d as u8),
                        comm_profile(0, 0, 0, sz),
                        comm_profile(sz, 0, 0, 0),
                    );
                }
            }
            let mut di: usize = 0;
            while di < nd as usize
                invariant
                    di <= nd as usize,
                    nd <= 255,
                    ti < rgraph.tensors@.len(),
                    nd as int == shape_elems(rgraph.tensors@[ti as int].shape).len(),
                    tid == RTensorId(ti as usize),
                    rgraph.tensors@[ti as int].communicatable,
                    size as int == sz,
                    sz == full_size(*rgraph, ti as int),
                    zero == comm_profile(0, 0, 0, 0),
                    triples_ok(out@),
                    comm_labels_sound(*rgraph, out@),
                    all_justified(*rgraph, *module_info, *ratios, out@),
                    count_finishing(out@) == total,
                    forall|n: int| 0 <= n < rgraph.nodes@.len() ==> node_covered(*rgraph, n, out@),
                    forall|t: int| 0 <= t < ti ==> tensor_comm_covered(*rgraph, t, out@),
                    forall|d: int|
                        0 <= d < nd as int ==> #[trigger] has_triple(
                            out@,
                            seq![Property::HasTensor(tid, TensorRelation::Gather(d as u8))],
                            seq![Property::HasTensor(tid, TensorRelation::Identity)],
                            TripleLabel::AllGather(tid, d as u8),
                            comm_profile(sz, 0, 0, 0),
                            comm_profile(0, 0, 0, sz),
                        ),
                    forall|d: int|
                        0 <= d < nd as int ==> #[trigger] has_triple(
                            out@,
                            seq![Property::HasTensor(tid, TensorRelation::Identity)],
                            seq![Property::HasTensor(tid, TensorRelation::Gather(d as u8))],
                            TripleLabel::DynamicSlice(tid, d as u8),
                            comm_profile(0, 0, 0, 0),
                            comm_profile(0, 0, 0, 0),
                        ),
                    forall|d: int|
                        0 <= d < nd as int ==> #[trigger] has_triple(
                            out@,
                            seq![Property::HasTensor(tid, TensorRelation::Reduce)],
                            seq![Property::HasTensor(tid, TensorRelation::Gather(d as u8))],
                            TripleLabel::ReduceScatter(tid, d as u8),
                            comm_profile(0, 0, 0, sz),
                            comm_profile(sz, 0, 0, 0),
                        ),
                    has_triple(
                        out@,
                        seq![Property::HasTensor(tid, TensorRelation::Reduce)],
                        seq![Property::HasTensor(tid, TensorRelation::Identity)],
                        TripleLabel::AllReduce(tid),
                        comm_profile(0, sz, 0, 0),
                        comm_profile(0, sz, 0, 0),
                    ),
                    has_triple(
                        out@,
                        seq![Property::HasTensor(tid, TensorRelation::Identity)],
                        seq![Property::HasTensor(tid, TensorRelation::Reduce)],
                        TripleLabel::IdentityToReduce(tid),
                        comm_profile(0, 0, 0, 0),
                        comm_profile(0, 0, 0, 0),
                    ),
                    forall|di2: int, dj2: int|
                        0 <= di2 < nd as int && 0 <= dj2 < nd as int && di2 != dj2 && di2
                            < di ==> #[trigger] has_triple(
                            out@,
                            seq![Property::HasTensor(tid, TensorRelation::Gather(di2 as u8))],
                            seq![Property::HasTensor(tid, TensorRelation::Gather(dj2 as u8))],
                            TripleLabel::AllToAll(tid, di2 as u8, dj2 as u8),
                            comm_profile(0, 0, sz, 0),
                            comm_profile(0, 0, sz, 0),
                        ),
                decreases nd as usize - di,
            {
                let mut dj: usize = 0;
                while dj < nd as usize
                    invariant
                        dj <= nd as usize,
                        di < nd as usize,
                        nd <= 255,
                        ti < rgraph.tensors@.len(),
                        nd as int == shape_elems(rgraph.tensors@[ti as int].shape).len(),
                        tid == RTensorId(ti as usize),
                        rgraph.tensors@[ti as int].communicatable,
                        size as int == sz,
                        sz == full_size(*rgraph, ti as int),
                        zero == comm_profile(0, 0, 0, 0),
                        triples_ok(out@),
                        comm_labels_sound(*rgraph, out@),
                        all_justified(*rgraph, *module_info, *ratios, out@),
                        count_finishing(out@) == total,
                        forall|n: int|
                            0 <= n < rgraph.nodes@.len() ==> node_covered(*rgraph, n, out@),
                        forall|t: int| 0 <= t < ti ==> tensor_comm_covered(*rgraph, t, out@),
                        forall|d: int|
                            0 <= d < nd as int ==> #[trigger] has_triple(
                                out@,
                                seq![Property::HasTensor(tid, TensorRelation::Gather(d as u8))],
                                seq![Property::HasTensor(tid, TensorRelation::Identity)],
                                TripleLabel::AllGather(tid, d as u8),
                                comm_profile(sz, 0, 0, 0),
                                comm_profile(0, 0, 0, sz),
                            ),
                        forall|d: int|
                            0 <= d < nd as int ==> #[trigger] has_triple(
                                out@,
                                seq![Property::HasTensor(tid, TensorRelation::Identity)],
                                seq![Property::HasTensor(tid, TensorRelation::Gather(d as u8))],
                                TripleLabel::DynamicSlice(tid, d as u8),
                                comm_profile(0, 0, 0, 0),
                                comm_profile(0, 0, 0, 0),
                            ),
                        forall|d: int|
                            0 <= d < nd as int ==> #[trigger] has_triple(
                                out@,
                                seq![Property::HasTensor(tid, TensorRelation::Reduce)],
                                seq![Property::HasTensor(tid, TensorRelation::Gather(d as u8))],
                                TripleLabel::ReduceScatter(tid, d as u8),
                                comm_profile(0, 0, 0, sz),
                                comm_profile(sz, 0, 0, 0),
                            ),
                        has_triple(
                            out@,
                            seq![Property::HasTensor(tid, TensorRelation::Reduce)],
                            seq![Property::HasTensor(tid, TensorRelation::Identity)],
                            TripleLabel::AllReduce(tid),
                            comm_profile(0, sz, 0, 0),
                            comm_profile(0, sz, 0, 0),
                        ),
                        has_triple(
                            out@,
                            seq![Property::HasTensor(tid, TensorRelation::Identity)],
                            seq![Property::HasTensor(tid, TensorRelation::Reduce)],
                            TripleLabel::IdentityToReduce(tid),
                            comm_profile(0, 0, 0, 0),
                            comm_profile(0, 0, 0, 0),
                        ),
                        forall|di2: int, dj2: int|
                            0 <= di2 < nd as int && 0 <= dj2 < nd as int && di2 != dj2 && (di2
                                < di as int || (di2 == di as int && dj2 < dj as int))
                                ==> #[trigger] has_triple(
                                out@,
                                seq![
                                    Property::HasTensor(tid, TensorRelation::Gather(di2 as u8)),
                                ],
                                seq![
                                    Property::HasTensor(tid, TensorRelation::Gather(dj2 as u8)),
                                ],
                                TripleLabel::AllToAll(tid, di2 as u8, dj2 as u8),
                                comm_profile(0, 0, sz, 0),
                                comm_profile(0, 0, sz, 0),
                            ),
                    decreases nd as usize - dj,
                {
                    if di != dj {
                        let ghost prev3 = out@;
                        let tr_aa = HoareTriple {
                            pre_conditions: props1(Property::gather(tid, di as u8)),
                            post_conditions: props1(Property::gather(tid, dj as u8)),
                            negative_post_conditions: Vec::new(),
                            instruction: TripleLabel::AllToAll(tid, di as u8, dj as u8),
                            forward_profile: Profile {
                                flops: 0,
                                all_reduce: 0,
                                all_gather: 0,
                                all_to_all: size,
                                reduce_scatter: 0,
                            },
                            backward_profile: Profile {
                                flops: 0,
                                all_reduce: 0,
                                all_gather: 0,
                                all_to_all: size,
                                reduce_scatter: 0,
                            },
                        };
                        proof {
                            assert(is_rule(
                                tr_aa,
                                seq![
                                    Property::HasTensor(
                                        tid,
                                        TensorRelation::Gather((di as int) as u8),
                                    ),
                                ],
                                seq![
                                    Property::HasTensor(
                                        tid,
                                        TensorRelation::Gather((dj as int) as u8),
                                    ),
                                ],
                                TripleLabel::AllToAll(tid, (di as int) as u8, (dj as int) as u8),
                                comm_profile(0, 0, sz, 0),
                                comm_profile(0, 0, sz, 0),
                            ));
                            assert(comm_rule(*rgraph, ti as int, tr_aa));
                            assert(triple_justified(*rgraph, *module_info, *ratios, tr_aa));
                        }
                        emit(&mut out, Ghost(*rgraph), Ghost(*module_info), Ghost(*ratios), tr_aa);
                        proof {
                            lemma_covered_extends(*rgraph, prev3, out@);
                            lemma_comm_covered_extends(*rgraph, prev3, out@);
                            assert forall|d: int|
                                0 <= d < nd as int implies #[trigger] has_triple(
                                out@,
                                seq![Property::HasTensor(tid, TensorRelation::Gather(d as u8))],
                                seq![Property::HasTensor(tid, TensorRelation::Identity)],
                                TripleLabel::AllGather(tid, d as u8),
                                comm_profile(sz, 0, 0, 0),
                                comm_profile(0, 0, 0, sz),
                            ) by {
                                lemma_has_triple_extends(
                                    prev3,
                                    out@,
                                    seq![
                                        Property::HasTensor(tid, TensorRelation::Gather(d as u8)),
                                    ],
                                    seq![Property::HasTensor(tid, TensorRelation::Identity)],
                                    TripleLabel::AllGather(tid, d as u8),
                                    comm_profile(sz, 0, 0, 0),
                                    comm_profile(0, 0, 0, sz),
                                );
                            }
                            assert forall|d: int|
                                0 <= d < nd as int implies #[trigger] has_triple(
                                out@,
                                seq![Property::HasTensor(tid, TensorRelation::Identity)],
                                seq![Property::HasTensor(tid, TensorRelation::Gather(d as u8))],
                                TripleLabel::DynamicSlice(tid, d as u8),
                                comm_profile(0, 0, 0, 0),
                                comm_profile(0, 0, 0, 0),
                            ) by {
                                lemma_has_triple_extends(
                                    prev3,
                                    out@,
                                    seq![Property::HasTensor(tid, TensorRelation::Identity)],
                                    seq![
                                        Property::HasTensor(tid, TensorRelation::Gather(d as u8)),
                                    ],
                                    TripleLabel::DynamicSlice(tid, d as u8),
                                    comm_profile(0, 0, 0, 0),
                                    comm_profile(0, 0, 0, 0),
                                );
                            }
                            assert forall|d: int|
                                0 <= d < nd as int implies #[trigger] has_triple(
                                out@,
                                seq![Property::HasTensor(tid, TensorRelation::Reduce)],
                                seq![Property::HasTensor(tid, TensorRelation::Gather(d as u8))],
                                TripleLabel::ReduceScatter(tid, d as u8),
                                comm_profile(0, 0, 0, sz),
                                comm_profile(sz, 0, 0, 0),
                            ) by {
                                lemma_has_triple_extends(
                                    prev3,
                                    out@,
                                    seq![Property::HasTensor(tid, TensorRelation::Reduce)],
                                    seq![
                                        Property::HasTensor(tid, TensorRelation::Gather(d as u8)),
                                    ],
                                    TripleLabel::ReduceScatter(tid, d as u8),
                                    comm_profile(0, 0, 0, sz),
                                    comm_profile(sz, 0, 0, 0),
                                );
                            }
                            lemma_has_triple_extends(
                                prev3,
                                out@,
                                seq![Property::HasTensor(tid, TensorRelation::Reduce)],
                                seq![Property::HasTensor(tid, TensorRelation::Identity)],
                                TripleLabel::AllReduce(tid),
                                comm_profile(0, sz, 0, 0),
                                comm_profile(0, sz, 0, 0),
                            );
                            lemma_has_triple_extends(
                                prev3,
                                out@,
                                seq![Property::HasTensor(tid, TensorRelation::Identity)],
                                seq![Property::HasTensor(tid, TensorRelation::Reduce)],
                                TripleLabel::IdentityToReduce(tid),
                                comm_profile(0, 0, 0, 0),
                                comm_profile(0, 0, 0, 0),
                            );
                            assert forall|di2: int, dj2: int|
                                0 <= di2 < nd as int && 0 <= dj2 < nd as int && di2 != dj2 && (di2
                                    < di as int || (di2 == di as int && dj2 < dj as int
                                    + 1)) implies #[trigger] has_triple(
                                out@,
                                seq![
                                    Property::HasTensor(tid, TensorRelation::Gather(di2 as u8)),
                                ],
                                seq![
                                    Property::HasTensor(tid, TensorRelation::Gather(dj2 as u8)),
                                ],
                                TripleLabel::AllToAll(tid, di2 as u8, dj2 as u8),
                                comm_profile(0, 0, sz, 0),
                                comm_profile(0, 0, sz, 0),
                            ) by {
                                if di2 < di as int || dj2 < dj as int {
                                    lemma_has_triple_extends(
                                        prev3,
                                        out@,
                                        seq![
                                            Property::HasTensor(
                                                tid,
                                                TensorRelation::Gather(di2 as u8),
                                            ),
                                        ],
                                        seq![
                                            Property::HasTensor(
                                                tid,
                                                TensorRelation::Gather(dj2 as u8),
                                            ),
                                        ],
                                        TripleLabel::AllToAll(tid, di2 as u8, dj2 as u8),
                                        comm_profile(0, 0, sz, 0),
                                        comm_profile(0, 0, sz, 0),
                                    );
                                } else {
                                    assert(di2 == di as int && dj2 == dj as int);
                                    assert(out@[prev3.len() as int].pre_conditions@ == seq![
                                        Property::HasTensor(
                                            tid,
                                            TensorRelation::Gather(di as u8),
                                        ),
                                    ]);
                                    assert(out@[prev3.len() as int].forward_profile
                                        == comm_profile(0, 0, sz, 0));
                                    assert(out@[prev3.len() as int].backward_profile
                                        == comm_profile(0, 0, sz, 0));
                                }
                            }
                        }
                    }
                    dj += 1;
                }
                di += 1;
            }
            proof {
                assert(tensor_comm_covered(*rgraph, ti as int, out@));
            }
        }
        ti += 1;
    }

    // sharded variants of every linear operator
    let mut li: usize = 0;
    while li < n_nodes
        invariant
            li <= n_nodes,
            n_nodes == rgraph.nodes@.len(),
            rgraph_wf(*rgraph),
            module_wf(*rgraph, *module_info),
            ratios.wf(),
            triples_ok(out@),
            comm_labels_sound(*rgraph, out@),
            all_justified(*rgraph, *module_info, *ratios, out@),
            count_finishing(out@) == total,
            forall|n: int| 0 <= n < rgraph.nodes@.len() ==> node_covered(*rgraph, n, out@),
            forall|t: int| 0 <= t < rgraph.tensors@.len() ==> tensor_comm_covered(*rgraph, t, out@),
            forall|n: int|
                0 <= n < li ==> op_covered_for(
                    *rgraph,
                    *module_info,
                    *ratios,
                    n,
                    out@,
                    OpKind::Linear,
                ),
        decreases n_nodes - li,
    {
        proof {
            assert(node_wf(*rgraph, li as int));
            assert(node_module_wf(*rgraph, *module_info, li as int));
        }
        let node = &rgraph.nodes[li];
        if let RInstruction::Op(op_id) = node.instruction {
            if matches!(module_info.ops[op_id.0].kind, OpKind::Linear) {
                let a = node.inputs[0];
                let w = node.inputs[1];
                let b = node.inputs[2];
                let y = node.outputs[0];
                proof {
                    assert(tensor_wf(*rgraph, a.0 as int));
                    assert(tensor_wf(*rgraph, w.0 as int));
                    assert(tensor_wf(*rgraph, y.0 as int));
                }
                let ghost ashape = shape_elems(rgraph.tensors@[a.0 as int].shape);
                let ghost gf = shape_elems(rgraph.tensors@[w.0 as int].shape)[0] as int;
                let ghost f_rep = clamp_u64(
                    clamp_u64(3 * sharded_size(ashape, TensorRelation::Identity, *ratios)) * gf,
                );
                let g_full = crate::shape::shape_get(&rgraph.tensors[w.0].shape, 0);
                let a_full = property_size(rgraph, a, TensorRelation::Identity, ratios);
                let nd_a = rgraph.tensors[a.0].n_dims();
                let nd_y = rgraph.tensors[y.0].n_dims();
                // replicated
                let flops = mul_clamped(triple_size(a_full), g_full as u64);
                let (fwd, bwd) = comp_profiles(flops);
                let ghost prev = out@;
                let tr = HoareTriple {
                    pre_conditions: props3(
                        Property::identity(a),
                        Property::identity(w),
                        Property::identity(b),
                    ),
                    post_conditions: props1(Property::identity(y)),
                    negative_post_conditions: Vec::new(),
                    instruction: TripleLabel::Computation(op_id),
                    forward_profile: fwd,
                    backward_profile: bwd,
                };
                proof {
                    assert(flops as int == f_rep);
                    assert(fwd == comp_fwd(f_rep));
                    assert(bwd == comp_bwd(f_rep));
                    assert(is_rule(
                        tr,
                        seq![
                            Property::HasTensor(a, TensorRelation::Identity),
                            Property::HasTensor(w, TensorRelation::Identity),
                            Property::HasTensor(b, TensorRelation::Identity),
                        ],
                        seq![Property::HasTensor(y, TensorRelation::Identity)],
                        TripleLabel::Computation(op_id),
                        comp_fwd(f_rep),
                        comp_bwd(f_rep),
                    ));
                    assert(op_rule(*rgraph, *module_info, *ratios, li as int, tr));
                    assert(triple_justified(*rgraph, *module_info, *ratios, tr));
                }
                emit(&mut out, Ghost(*rgraph), Ghost(*module_info), Ghost(*ratios), tr);
                proof {
                    lemma_covered_extends(*rgraph, prev, out@);
                    lemma_comm_covered_extends(*rgraph, prev, out@);
                    lemma_op_covered_extends(
                        *rgraph,
                        *module_info,
                        *ratios,
                        prev,
                        out@,
                        OpKind::Linear,
                    );
                    assert(flops as int == f_rep);
                    assert(fwd == comp_fwd(f_rep));
                    assert(bwd == comp_bwd(f_rep));
                    assert(out@[prev.len() as int].pre_conditions@ == seq![
                        Property::HasTensor(a, TensorRelation::Identity),
                        Property::HasTensor(w, TensorRelation::Identity),
                        Property::HasTensor(b, TensorRelation::Identity),
                    ]);
                    assert(has_triple(
                        out@,
                        seq![
                            Property::HasTensor(a, TensorRelation::Identity),
                            Property::HasTensor(w, TensorRelation::Identity),
                            Property::HasTensor(b, TensorRelation::Identity),
                        ],
                        seq![Property::HasTensor(y, TensorRelation::Identity)],
                        TripleLabel::Computation(op_id),
                        comp_fwd(f_rep),
                        comp_bwd(f_rep),
                    ));
                }
                // data parallel on each leading batch dimension
                let mut dim: usize = 0;
                while dim + 1 < nd_a as usize
                    invariant
                        dim < nd_a as usize || dim == 0,
                        nd_a <= 255,
                        rgraph_wf(*rgraph),
                        module_wf(*rgraph, *module_info),
                        ratios.wf(),
                        a.0 < rgraph.tensors@.len(),
                        ashape == shape_elems(rgraph.tensors@[a.0 as int].shape),
                        g_full as int == gf,
                        gf == shape_elems(rgraph.tensors@[w.0 as int].shape)[0] as int,
                        nd_a as int == ashape.len(),
                        rgraph.nodes@[li as int].instruction == RInstruction::Op(op_id),
                        op_id.0 < module_info.ops@.len(),
                        module_info.ops@[op_id.0 as int].kind == OpKind::Linear,
                        a == rgraph.nodes@[li as int].inputs@[0],
                        w == rgraph.nodes@[li as int].inputs@[1],
                        b == rgraph.nodes@[li as int].inputs@[2],
                        y == rgraph.nodes@[li as int].outputs@[0],
                        li < n_nodes,
                        n_nodes == rgraph.nodes@.len(),
                        triples_ok(out@),
                        comm_labels_sound(*rgraph, out@),
                        all_justified(*rgraph, *module_info, *ratios, out@),
                        count_finishing(out@) == total,
                        forall|n: int|
                            0 <= n < rgraph.nodes@.len() ==> node_covered(*rgraph, n, out@),
                        forall|t: int|
                            0 <= t < rgraph.tensors@.len() ==> tensor_comm_covered(
                                *rgraph,
                                t,
                                out@,
                            ),
                        forall|n: int|
                            0 <= n < li ==> op_covered_for(
                                *rgraph,
                                *module_info,
                                *ratios,
                                n,
                                out@,
                                OpKind::Linear,
                            ),
                        has_triple(
                            out@,
                            seq![
                                Property::HasTensor(a, TensorRelation::Identity),
                                Property::HasTensor(w, TensorRelation::Identity),
                                Property::HasTensor(b, TensorRelation::Identity),
                            ],
                            seq![Property::HasTensor(y, TensorRelation::Identity)],
                            TripleLabel::Computation(op_id),
                            comp_fwd(f_rep),
                            comp_bwd(f_rep),
                        ),
                        forall|d: int|
                            #![trigger sharded_size(ashape, TensorRelation::Gather(d as u8), *ratios)]
                            0 <= d < dim ==> has_triple(
                                out@,
                                seq![
                                    Property::HasTensor(a, TensorRelation::Gather(d as u8)),
                                    Property::HasTensor(w, TensorRelation::Identity),
                                    Property::HasTensor(b, TensorRelation::Identity),
                                ],
                                seq![Property::HasTensor(y, TensorRelation::Gather(d as u8))],
                                TripleLabel::Computation(op_id),
                                comp_fwd(
                                    clamp_u64(
                                        clamp_u64(
                                            3 * sharded_size(
                                                ashape,
                                                TensorRelation::Gather(d as u8),
                                                *ratios,
                                            ),
                                        ) * gf,
                                    ),
                                ),
                                comp_bwd(
                                    clamp_u64(
                                        clamp_u64(
                                            3 * sharded_size(
                                                ashape,
                                                TensorRelation::Gather(d as u8),
                                                *ratios,
                                            ),
                                        ) * gf,
                                    ),
                                ),
                            ),
                    decreases nd_a as usize - dim,
                {
                    let ghost prev_d = out@;
                    let a_shard = property_size(
                        rgraph,
                        a,
                        TensorRelation::Gather(dim as u8),
                        ratios,
                    );
                    let flops_d = mul_clamped(triple_size(a_shard), g_full as u64);
                    let (fwd_d, bwd_d) = comp_profiles(flops_d);
                    let ghost f_d = clamp_u64(
                        clamp_u64(
                            3 * sharded_size(ashape, TensorRelation::Gather(dim as u8), *ratios),
                        ) * gf,
                    );
                    let tr = HoareTriple {
                        pre_conditions: props3(
                            Property::gather(a, dim as u8),
                            Property::identity(w),
                            Property::identity(b),
                        ),
                        post_conditions: props1(Property::gather(y, dim as u8)),
                        negative_post_conditions: Vec::new(),
                        instruction: TripleLabel::Computation(op_id),
                        forward_profile: fwd_d,
                        backward_profile: bwd_d,
                    };
                    proof {
                        assert(flops_d as int == f_d);
                        assert(fwd_d == comp_fwd(f_d));
                        assert(bwd_d == comp_bwd(f_d));
                        assert(is_rule(
                            tr,
                            seq![
                                Property::HasTensor(
                                    a,
                                    TensorRelation::Gather((dim as int) as u8),
                                ),
                                Property::HasTensor(w, TensorRelation::Identity),
                                Property::HasTensor(b, TensorRelation::Identity),
                            ],
                            seq![
                                Property::HasTensor(
                                    y,
                                    TensorRelation::Gather((dim as int) as u8),
                                ),
                            ],
                            TripleLabel::Computation(op_id),
                            comp_fwd(
                                clamp_u64(
                                    clamp_u64(
                                        3 * sharded_size(
                                            ashape,
                                            TensorRelation::Gather((dim as int) as u8),
                                            *ratios,
                                        ),
                                    ) * gf,
                                ),
                            ),
                            comp_bwd(
                                clamp_u64(
                                    clamp_u64(
                                        3 * sharded_size(
                                            ashape,
                                            TensorRelation::Gather((dim as int) as u8),
                                            *ratios,
                                        ),
                                    ) * gf,
                                ),
                            ),
                        ));
                        assert(0 <= (dim as int) && (dim as int) < ashape.len() as int - 1);
                        assert(sharded_size(
                            shape_elems(
                                rgraph.tensors@[rgraph.nodes@[li as int].inputs@[0].0 as int].shape,
                            ),
                            TensorRelation::Gather((dim as int) as u8),
                            *ratios,
                        ) == sharded_size(ashape, TensorRelation::Gather(dim as u8), *ratios));
                        assert(op_rule(*rgraph, *module_info, *ratios, li as int, tr));
                        assert(triple_justified(*rgraph, *module_info, *ratios, tr));
                    }
                    emit(&mut out, Ghost(*rgraph), Ghost(*module_info), Ghost(*ratios), tr);
                    proof {
                        lemma_covered_extends(*rgraph, prev_d, out@);
                        lemma_comm_covered_extends(*rgraph, prev_d, out@);
                        lemma_op_covered_extends(
                            *rgraph,
                            *module_info,
                            *ratios,
                            prev_d,
                            out@,
                            OpKind::Linear,
                        );
                        lemma_has_triple_extends(
                            prev_d,
                            out@,
                            seq![
                                Property::HasTensor(a, TensorRelation::Identity),
                                Property::HasTensor(w, TensorRelation::Identity),
                                Property::HasTensor(b, TensorRelation::Identity),
                            ],
                            seq![Property::HasTensor(y, TensorRelation::Identity)],
                            TripleLabel::Computation(op_id),
                            comp_fwd(f_rep),
                            comp_bwd(f_rep),
                        );
                        assert(flops_d as int == f_d);
                        assert(fwd_d == comp_fwd(f_d));
                        assert(bwd_d == comp_bwd(f_d));
                        assert forall|d: int|
                            #![trigger sharded_size(ashape, TensorRelation::Gather(d as u8), *ratios)]
                            0 <= d < dim + 1 implies has_triple(
                            out@,
                            seq![
                                Property::HasTensor(a, TensorRelation::Gather(d as u8)),
                                Property::HasTensor(w, TensorRelation::Identity),
                                Property::HasTensor(b, TensorRelation::Identity),
                            ],
                            seq![Property::HasTensor(y, TensorRelation::Gather(d as u8))],
                            TripleLabel::Computation(op_id),
                            comp_fwd(
                                clamp_u64(
                                    clamp_u64(
                                        3 * sharded_size(
                                            ashape,
                                            TensorRelation::Gather(d as u8),
                                            *ratios,
                                        ),
                                    ) * gf,
                                ),
                            ),
                            comp_bwd(
                                clamp_u64(
                                    clamp_u64(
                                        3 * sharded_size(
                                            ashape,
                                            TensorRelation::Gather(d as u8),
                                            *ratios,
                                        ),
                                    ) * gf,
                                ),
                            ),
                        ) by {
                            if d < dim {
                                lemma_has_triple_extends(
                                    prev_d,
                                    out@,
                                    seq![
                                        Property::HasTensor(a, TensorRelation::Gather(d as u8)),
                                        Property::HasTensor(w, TensorRelation::Identity),
                                        Property::HasTensor(b, TensorRelation::Identity),
                                    ],
                                    seq![Property::HasTensor(y, TensorRelation::Gather(d as u8))],
                                    TripleLabel::Computation(op_id),
                                    comp_fwd(
                                        clamp_u64(
                                            clamp_u64(
                                                3 * sharded_size(
                                                    ashape,
                                                    TensorRelation::Gather(d as u8),
                                                    *ratios,
                                                ),
                                            ) * gf,
                                        ),
                                    ),
                                    comp_bwd(
                                        clamp_u64(
                                            clamp_u64(
                                                3 * sharded_size(
                                                    ashape,
                                                    TensorRelation::Gather(d as u8),
                                                    *ratios,
                                                ),
                                            ) * gf,
                                        ),
                                    ),
                                );
                            } else {
                                assert(d == dim);
                                assert(out@[prev_d.len() as int].pre_conditions@ == seq![
                                    Property::HasTensor(a, TensorRelation::Gather(dim as u8)),
                                    Property::HasTensor(w, TensorRelation::Identity),
                                    Property::HasTensor(b, TensorRelation::Identity),
                                ]);
                                assert(out@[prev_d.len() as int].post_conditions@ == seq![
                                    Property::HasTensor(y, TensorRelation::Gather(dim as u8)),
                                ]);
                            }
                        }
                    }
                    dim += 1;
                }
                // feature partition on the weight's first dimension
                let w0s = shard_len_exec(g_full, ratios, 0);
                let flops_f = mul_clamped(triple_size(a_full), w0s);
                let (fwd_f, bwd_f) = comp_profiles(flops_f);
                let ghost f_feat = clamp_u64(
                    clamp_u64(3 * sharded_size(ashape, TensorRelation::Identity, *ratios))
                        * crate::synthesis::shard_len(gf, *ratios, 0),
                );
                let ghost prev_f = out@;
                let tr_f = HoareTriple {
                    pre_conditions: props3(
                        Property::identity(a),
                        Property::gather(w, 0),
                        Property::gather(b, 0),
                    ),
                    post_conditions: props1(Property::gather(y, nd_y - 1)),
                    negative_post_conditions: Vec::new(),
                    instruction: TripleLabel::Computation(op_id),
                    forward_profile: fwd_f,
                    backward_profile: bwd_f,
                };
                proof {
                    let ghost rank_y = shape_elems(rgraph.tensors@[y.0 as int].shape).len() as int;
                    assert(flops_f as int == f_feat);
                    assert(fwd_f == comp_fwd(f_feat));
                    assert(bwd_f == comp_bwd(f_feat));
                    assert(is_rule(
                        tr_f,
                        seq![
                            Property::HasTensor(a, TensorRelation::Identity),
                            Property::HasTensor(w, TensorRelation::Gather(0)),
                            Property::HasTensor(b, TensorRelation::Gather(0)),
                        ],
                        seq![Property::HasTensor(y, TensorRelation::Gather((rank_y - 1) as u8))],
                        TripleLabel::Computation(op_id),
                        comp_fwd(f_feat),
                        comp_bwd(f_feat),
                    ));
                    assert(op_rule(*rgraph, *module_info, *ratios, li as int, tr_f));
                    assert(triple_justified(*rgraph, *module_info, *ratios, tr_f));
                }
                emit(&mut out, Ghost(*rgraph), Ghost(*module_info), Ghost(*ratios), tr_f);
                proof {
                    lemma_covered_extends(*rgraph, prev_f, out@);
                    lemma_comm_covered_extends(*rgraph, prev_f, out@);
                    lemma_op_covered_extends(
                        *rgraph,
                        *module_info,
                        *ratios,
                        prev_f,
                        out@,
                        OpKind::Linear,
                    );
                    lemma_has_triple_extends(
                        prev_f,
                        out@,
                        seq![
                            Property::HasTensor(a, TensorRelation::Identity),
                            Property::HasTensor(w, TensorRelation::Identity),
                            Property::HasTensor(b, TensorRelation::Identity),
                        ],
                        seq![Property::HasTensor(y, TensorRelation::Identity)],
                        TripleLabel::Computation(op_id),
                        comp_fwd(f_rep),
                        comp_bwd(f_rep),
                    );
                    assert(flops_f as int == f_feat);
                    assert(fwd_f == comp_fwd(f_feat));
                    assert(bwd_f == comp_bwd(f_feat));
                    assert(out@[prev_f.len() as int].pre_conditions@ == seq![
                        Property::HasTensor(a, TensorRelation::Identity),
                        Property::HasTensor(w, TensorRelation::Gather(0)),
                        Property::HasTensor(b, TensorRelation::Gather(0)),
                    ]);
                    let ghost rank_y = shape_elems(rgraph.tensors@[y.0 as int].shape).len() as int;
                    assert(out@[prev_f.len() as int].post_conditions@ == seq![
                        Property::HasTensor(y, TensorRelation::Gather((rank_y - 1) as u8)),
                    ]);
                    assert(has_triple(
                        out@,
                        seq![
                            Property::HasTensor(a, TensorRelation::Identity),
                            Property::HasTensor(w, TensorRelation::Gather(0)),
                            Property::HasTensor(b, TensorRelation::Gather(0)),
                        ],
                        seq![Property::HasTensor(y, TensorRelation::Gather((rank_y - 1) as u8))],
                        TripleLabel::Computation(op_id),
                        comp_fwd(f_feat),
                        comp_bwd(f_feat),
                    ));
                    assert forall|d: int|
                        #![trigger sharded_size(ashape, TensorRelation::Gather(d as u8), *ratios)]
                        0 <= d < ashape.len() as int - 1 implies has_triple(
                        out@,
                        seq![
                            Property::HasTensor(a, TensorRelation::Gather(d as u8)),
                            Property::HasTensor(w, TensorRelation::Identity),
                            Property::HasTensor(b, TensorRelation::Identity),
                        ],
                        seq![Property::HasTensor(y, TensorRelation::Gather(d as u8))],
                        TripleLabel::Computation(op_id),
                        comp_fwd(
                            clamp_u64(
                                clamp_u64(
                                    3 * sharded_size(
                                        ashape,
                                        TensorRelation::Gather(d as u8),
                                        *ratios,
                                    ),
                                ) * gf,
                            ),
                        ),
                        comp_bwd(
                            clamp_u64(
                                clamp_u64(
                                    3 * sharded_size(
                                        ashape,
                                        TensorRelation::Gather(d as u8),
                                        *ratios,
                                    ),
                                ) * gf,
                            ),
                        ),
                    ) by {
                        lemma_has_triple_extends(
                            prev_f,
                            out@,
                            seq![
                                Property::HasTensor(a, TensorRelation::Gather(d as u8)),
                                Property::HasTensor(w, TensorRelation::Identity),
                                Property::HasTensor(b, TensorRelation::Identity),
                            ],
                            seq![Property::HasTensor(y, TensorRelation::Gather(d as u8))],
                            TripleLabel::Computation(op_id),
                            comp_fwd(
                                clamp_u64(
                                    clamp_u64(
                                        3 * sharded_size(
                                            ashape,
                                            TensorRelation::Gather(d as u8),
                                            *ratios,
                                        ),
                                    ) * gf,
                                ),
                            ),
                            comp_bwd(
                                clamp_u64(
                                    clamp_u64(
                                        3 * sharded_size(
                                            ashape,
                                            TensorRelation::Gather(d as u8),
                                            *ratios,
                                        ),
                                    ) * gf,
                                ),
                            ),
                        );
                    }
                    assert(op_covered_for(
                        *rgraph,
                        *module_info,
                        *ratios,
                        li as int,
                        out@,
                        OpKind::Linear,
                    ));
                }
            }
        }
        li += 1;
    }

    // sharded variants of every elementwise operator
    let mut ei: usize = 0;
    while ei < n_nodes
        invariant
            ei <= n_nodes,
            n_nodes == rgraph.nodes@.len(),
            rgraph_wf(*rgraph),
            module_wf(*rgraph, *module_info),
            ratios.wf(),
            triples_ok(out@),
            comm_labels_sound(*rgraph, out@),
            all_justified(*rgraph, *module_info, *ratios, out@),
            count_finishing(out@) == total,
            forall|n: int| 0 <= n < rgraph.nodes@.len() ==> node_covered(*rgraph, n, out@),
            forall|t: int| 0 <= t < rgraph.tensors@.len() ==> tensor_comm_covered(*rgraph, t, out@),
            forall|n: int|
                0 <= n < rgraph.nodes@.len() ==> op_covered_for(
                    *rgraph,
                    *module_info,
                    *ratios,
                    n,
                    out@,
                    OpKind::Linear,
                ),
            forall|n: int|
                0 <= n < ei ==> op_covered_for(
                    *rgraph,
                    *module_info,
                    *ratios,
                    n,
                    out@,
                    OpKind::Elementwise,
                ),
        decreases n_nodes - ei,
    {
        proof {
            assert(node_wf(*rgraph, ei as int));
            assert(node_module_wf(*rgraph, *module_info, ei as int));
        }
        let node = &rgraph.nodes[ei];
        if let RInstruction::Op(op_id) = node.instruction {
            if matches!(module_info.ops[op_id.0].kind, OpKind::Elementwise) {
                let x = node.inputs[0];
                let y = node.outputs[0];
                proof {
                    assert(tensor_wf(*rgraph, x.0 as int));
                }
                let ghost xshape = shape_elems(rgraph.tensors@[x.0 as int].shape);
                let ghost f0 = clamp_u64(3 * sharded_size(xshape, TensorRelation::Identity, *ratios));
                let x_full = property_size(rgraph, x, TensorRelation::Identity, ratios);
                let flops0 = triple_size(x_full);
                let (fwd, bwd) = comp_profiles(flops0);
                let ghost prev = out@;
                let tr = HoareTriple {
                    pre_conditions: props1(Property::identity(x)),
                    post_conditions: props1(Property::identity(y)),
                    negative_post_conditions: Vec::new(),
                    instruction: TripleLabel::Computation(op_id),
                    forward_profile: fwd,
                    backward_profile: bwd,
                };
                proof {
                    assert(fwd == comp_fwd(f0));
                    assert(bwd == comp_bwd(f0));
                    assert(is_rule(
                        tr,
                        seq![Property::HasTensor(x, TensorRelation::Identity)],
                        seq![Property::HasTensor(y, TensorRelation::Identity)],
                        TripleLabel::Computation(op_id),
                        comp_fwd(f0),
                        comp_bwd(f0),
                    ));
                    assert(op_rule(*rgraph, *module_info, *ratios, ei as int, tr));
                    assert(triple_justified(*rgraph, *module_info, *ratios, tr));
                }
                emit(&mut out, Ghost(*rgraph), Ghost(*module_info), Ghost(*ratios), tr);
                proof {
                    lemma_covered_extends(*rgraph, prev, out@);
                    lemma_comm_covered_extends(*rgraph, prev, out@);
                    lemma_op_covered_extends(
                        *rgraph,
                        *module_info,
                        *ratios,
                        prev,
                        out@,
                        OpKind::Linear,
                    );
                    lemma_op_covered_extends(
                        *rgraph,
                        *module_info,
                        *ratios,
                        prev,
                        out@,
                        OpKind::Elementwise,
                    );
                    assert(fwd == comp_fwd(f0));
                    assert(bwd == comp_bwd(f0));
                    assert(out@[prev.len() as int].pre_conditions@ == seq![
                        Property::HasTensor(x, TensorRelation::Identity),
                    ]);
                    assert(has_triple(
                        out@,
                        seq![Property::HasTensor(x, TensorRelation::Identity)],
                        seq![Property::HasTensor(y, TensorRelation::Identity)],
                        TripleLabel::Computation(op_id),
                        comp_fwd(f0),
                        comp_bwd(f0),
                    ));
                }
                let nd_x = rgraph.tensors[x.0].n_dims();
                let mut dim: usize = 0;
                while dim < nd_x as usize
                    invariant
                        dim <= nd_x as usize,
                        nd_x <= 255,
                        nd_x as int == xshape.len(),
                        rgraph_wf(*rgraph),
                        module_wf(*rgraph, *module_info),
                        ratios.wf(),
                        x.0 < rgraph.tensors@.len(),
                        xshape == shape_elems(rgraph.tensors@[x.0 as int].shape),
                        rgraph.nodes@[ei as int].instruction == RInstruction::Op(op_id),
                        op_id.0 < module_info.ops@.len(),
                        module_info.ops@[op_id.0 as int].kind == OpKind::Elementwise,
                        x == rgraph.nodes@[ei as int].inputs@[0],
                        y == rgraph.nodes@[ei as int].outputs@[0],
                        ei < n_nodes,
                        n_nodes == rgraph.nodes@.len(),
                        triples_ok(out@),
                        comm_labels_sound(*rgraph, out@),
                        all_justified(*rgraph, *module_info, *ratios, out@),
                        count_finishing(out@) == total,
                        forall|n: int|
                            0 <= n < rgraph.nodes@.len() ==> node_covered(*rgraph, n, out@),
                        forall|t: int|
                            0 <= t < rgraph.tensors@.len() ==> tensor_comm_covered(
                                *rgraph,
                                t,
                                out@,
                            ),
                        forall|n: int|
                            0 <= n < rgraph.nodes@.len() ==> op_covered_for(
                                *rgraph,
                                *module_info,
                                *ratios,
                                n,
                                out@,
                                OpKind::Linear,
                            ),
                        forall|n: int|
                            0 <= n < ei ==> op_covered_for(
                                *rgraph,
                                *module_info,
                                *ratios,
                                n,
                                out@,
                                OpKind::Elementwise,
                            ),
                        has_triple(
                            out@,
                            seq![Property::HasTensor(x, TensorRelation::Identity)],
                            seq![Property::HasTensor(y, TensorRelation::Identity)],
                            TripleLabel::Computation(op_id),
                            comp_fwd(f0),
                            comp_bwd(f0),
                        ),
                        forall|d: int|
                            #![trigger sharded_size(xshape, TensorRelation::Gather(d as u8), *ratios)]
                            0 <= d < dim ==> has_triple(
                                out@,
                                seq![Property::HasTensor(x, TensorRelation::Gather(d as u8))],
                                seq![Property::HasTensor(y, TensorRelation::Gather(d as u8))],
                                TripleLabel::Computation(op_id),
                                comp_fwd(clamp_u64(3 * sharded_size(xshape, TensorRelation::Gather(d as u8), *ratios))),
                                comp_bwd(clamp_u64(3 * sharded_size(xshape, TensorRelation::Gather(d as u8), *ratios))),
                            ),
                    decreases nd_x as usize - dim,
                {
                    let ghost prev_d = out@;
                    let x_shard = property_size(
                        rgraph,
                        x,
                        TensorRelation::Gather(dim as u8),
                        ratios,
                    );
                    let flops_dd = triple_size(x_shard);
                    let (fwd_d, bwd_d) = comp_profiles(flops_dd);
                    let tr = HoareTriple {
                        pre_conditions: props1(Property::gather(x, dim as u8)),
                        post_conditions: props1(Property::gather(y, dim as u8)),
                        negative_post_conditions: Vec::new(),
                        instruction: TripleLabel::Computation(op_id),
                        forward_profile: fwd_d,
                        backward_profile: bwd_d,
                    };
                    proof {
                        let ghost fd = clamp_u64(
                            3 * sharded_size(
                                xshape,
                                TensorRelation::Gather((dim as int) as u8),
                                *ratios,
                            ),
                        );
                        assert(fwd_d == comp_fwd(fd));
                        assert(bwd_d == comp_bwd(fd));
                        assert(is_rule(
                            tr,
                            seq![
                                Property::HasTensor(
                                    x,
                                    TensorRelation::Gather((dim as int) as u8),
                                ),
                            ],
                            seq![
                                Property::HasTensor(
                                    y,
                                    TensorRelation::Gather((dim as int) as u8),
                                ),
                            ],
                            TripleLabel::Computation(op_id),
                            comp_fwd(fd),
                            comp_bwd(fd),
                        ));
                        assert(op_rule(*rgraph, *module_info, *ratios, ei as int, tr));
                        assert(triple_justified(*rgraph, *module_info, *ratios, tr));
                    }
                    emit(&mut out, Ghost(*rgraph), Ghost(*module_info), Ghost(*ratios), tr);
                    proof {
                        lemma_covered_extends(*rgraph, prev_d, out@);
                        lemma_comm_covered_extends(*rgraph, prev_d, out@);
                    lemma_op_covered_extends(
                        *rgraph,
                        *module_info,
                        *ratios,
                        prev_d,
                        out@,
                        OpKind::Linear,
                    );
                        lemma_op_covered_extends(
                            *rgraph,
                            *module_info,
                            *ratios,
                            prev_d,
                            out@,
                            OpKind::Elementwise,
                        );
                        lemma_has_triple_extends(
                            prev_d,
                            out@,
                            seq![Property::HasTensor(x, TensorRelation::Identity)],
                            seq![Property::HasTensor(y, TensorRelation::Identity)],
                            TripleLabel::Computation(op_id),
                            comp_fwd(f0),
                            comp_bwd(f0),
                        );
                        assert(fwd_d == comp_fwd(clamp_u64(3 * sharded_size(xshape, TensorRelation::Gather(dim as u8), *ratios))));
                        assert(bwd_d == comp_bwd(clamp_u64(3 * sharded_size(xshape, TensorRelation::Gather(dim as u8), *ratios))));
                        assert forall|d: int|
                            #![trigger sharded_size(xshape, TensorRelation::Gather(d as u8), *ratios)]
                            0 <= d < dim + 1 implies has_triple(
                            out@,
                            seq![Property::HasTensor(x, TensorRelation::Gather(d as u8))],
                            seq![Property::HasTensor(y, TensorRelation::Gather(d as u8))],
                            TripleLabel::Computation(op_id),
                            comp_fwd(clamp_u64(3 * sharded_size(xshape, TensorRelation::Gather(d as u8), *ratios))),
                            comp_bwd(clamp_u64(3 * sharded_size(xshape, TensorRelation::Gather(d as u8), *ratios))),
                        ) by {
                            if d < dim {
                                lemma_has_triple_extends(
                                    prev_d,
                                    out@,
                                    seq![Property::HasTensor(x, TensorRelation::Gather(d as u8))],
                                    seq![Property::HasTensor(y, TensorRelation::Gather(d as u8))],
                                    TripleLabel::Computation(op_id),
                                    comp_fwd(clamp_u64(3 * sharded_size(xshape, TensorRelation::Gather(d as u8), *ratios))),
                                    comp_bwd(clamp_u64(3 * sharded_size(xshape, TensorRelation::Gather(d as u8), *ratios))),
                                );
                            } else {
                                assert(d == dim);
                                assert(out@[prev_d.len() as int].pre_conditions@ == seq![
                                    Property::HasTensor(x, TensorRelation::Gather(dim as u8)),
                                ]);
                                assert(out@[prev_d.len() as int].post_conditions@ == seq![
                                    Property::HasTensor(y, TensorRelation::Gather(dim as u8)),
                                ]);
                            }
                        }
                    }
                    dim += 1;
                }
                proof {
                    assert(op_covered_for(
                        *rgraph,
                        *module_info,
                        *ratios,
                        ei as int,
                        out@,
                        OpKind::Elementwise,
                    ));
                }
            }
        }
        ei += 1;
    }

    // sharded variants of every reducing operator
    let mut ri: usize = 0;
    while ri < n_nodes
        invariant
            ri <= n_nodes,
            n_nodes == rgraph.nodes@.len(),
            rgraph_wf(*rgraph),
            module_wf(*rgraph, *module_info),
            ratios.wf(),
            triples_ok(out@),
            comm_labels_sound(*rgraph, out@),
            all_justified(*rgraph, *module_info, *ratios, out@),
            count_finishing(out@) == total,
            forall|n: int| 0 <= n < rgraph.nodes@.len() ==> node_covered(*rgraph, n, out@),
            forall|t: int| 0 <= t < rgraph.tensors@.len() ==> tensor_comm_covered(*rgraph, t, out@),
            forall|n: int|
                0 <= n < rgraph.nodes@.len() ==> op_covered_for(
                    *rgraph,
                    *module_info,
                    *ratios,
                    n,
                    out@,
                    OpKind::Linear,
                ),
            forall|n: int|
                0 <= n < rgraph.nodes@.len() ==> op_covered_for(
                    *rgraph,
                    *module_info,
                    *ratios,
                    n,
                    out@,
                    OpKind::Elementwise,
                ),
            forall|n: int|
                0 <= n < ri ==> op_covered_for(
                    *rgraph,
                    *module_info,
                    *ratios,
                    n,
                    out@,
                    OpKind::Reducing,
                ),
        decreases n_nodes - ri,
    {
        proof {
            assert(node_wf(*rgraph, ri as int));
            assert(node_module_wf(*rgraph, *module_info, ri as int));
        }
        let node = &rgraph.nodes[ri];
        if let RInstruction::Op(op_id) = node.instruction {
            if matches!(module_info.ops[op_id.0].kind, OpKind::Reducing) {
                let x = node.inputs[0];
                let y = node.outputs[0];
                proof {
                    assert(tensor_wf(*rgraph, x.0 as int));
                }
                let ghost xshape = shape_elems(rgraph.tensors@[x.0 as int].shape);
                let ghost f0 = sharded_size(xshape, TensorRelation::Identity, *ratios);
                let x_full = property_size(rgraph, x, TensorRelation::Identity, ratios);
                let flops0 = x_full;
                let (fwd, bwd) = comp_profiles(flops0);
                let ghost prev = out@;
                let tr = HoareTriple {
                    pre_conditions: props1(Property::identity(x)),
                    post_conditions: props1(Property::identity(y)),
                    negative_post_conditions: Vec::new(),
                    instruction: TripleLabel::Computation(op_id),
                    forward_profile: fwd,
                    backward_profile: bwd,
                };
                proof {
                    assert(fwd == comp_fwd(f0));
                    assert(bwd == comp_bwd(f0));
                    assert(is_rule(
                        tr,
                        seq![Property::HasTensor(x, TensorRelation::Identity)],
                        seq![Property::HasTensor(y, TensorRelation::Identity)],
                        TripleLabel::Computation(op_id),
                        comp_fwd(f0),
                        comp_bwd(f0),
                    ));
                    assert(op_rule(*rgraph, *module_info, *ratios, ri as int, tr));
                    assert(triple_justified(*rgraph, *module_info, *ratios, tr));
                }
                emit(&mut out, Ghost(*rgraph), Ghost(*module_info), Ghost(*ratios), tr);
                proof {
                    lemma_covered_extends(*rgraph, prev, out@);
                    lemma_comm_covered_extends(*rgraph, prev, out@);
                    lemma_op_covered_extends(
                        *rgraph,
                        *module_info,
                        *ratios,
                        prev,
                        out@,
                        OpKind::Linear,
                    );
                    lemma_op_covered_extends(
                        *rgraph,
                        *module_info,
                        *ratios,
                        prev,
                        out@,
                        OpKind::Elementwise,
                    );
                    lemma_op_covered_extends(
                        *rgraph,
                        *module_info,
                        *ratios,
                        prev,
                        out@,
                        OpKind::Reducing,
                    );
                    assert(fwd == comp_fwd(f0));
                    assert(bwd == comp_bwd(f0));
                    assert(out@[prev.len() as int].pre_conditions@ == seq![
                        Property::HasTensor(x, TensorRelation::Identity),
                    ]);
                    assert(has_triple(
                        out@,
                        seq![Property::HasTensor(x, TensorRelation::Identity)],
                        seq![Property::HasTensor(y, TensorRelation::Identity)],
                        TripleLabel::Computation(op_id),
                        comp_fwd(f0),
                        comp_bwd(f0),
                    ));
                }
                let nd_x = rgraph.tensors[x.0].n_dims();
                let mut dim: usize = 0;
                while dim < nd_x as usize
                    invariant
                        dim <= nd_x as usize,
                        nd_x <= 255,
                        nd_x as int == xshape.len(),
                        rgraph_wf(*rgraph),
                        module_wf(*rgraph, *module_info),
                        ratios.wf(),
                        x.0 < rgraph.tensors@.len(),
                        xshape == shape_elems(rgraph.tensors@[x.0 as int].shape),
                        rgraph.nodes@[ri as int].instruction == RInstruction::Op(op_id),
                        op_id.0 < module_info.ops@.len(),
                        module_info.ops@[op_id.0 as int].kind == OpKind::Reducing,
                        x == rgraph.nodes@[ri as int].inputs@[0],
                        y == rgraph.nodes@[ri as int].outputs@[0],
                        ri < n_nodes,
                        n_nodes == rgraph.nodes@.len(),
                        triples_ok(out@),
                        comm_labels_sound(*rgraph, out@),
                        all_justified(*rgraph, *module_info, *ratios, out@),
                        count_finishing(out@) == total,
                        forall|n: int|
                            0 <= n < rgraph.nodes@.len() ==> node_covered(*rgraph, n, out@),
                        forall|t: int|
                            0 <= t < rgraph.tensors@.len() ==> tensor_comm_covered(
                                *rgraph,
                                t,
                                out@,
                            ),
                        forall|n: int|
                            0 <= n < rgraph.nodes@.len() ==> op_covered_for(
                                *rgraph,
                                *module_info,
                                *ratios,
                                n,
                                out@,
                                OpKind::Linear,
                            ),
                        forall|n: int|
                            0 <= n < rgraph.nodes@.len() ==> op_covered_for(
                                *rgraph,
                                *module_info,
                                *ratios,
                                n,
                                out@,
                                OpKind::Elementwise,
                            ),
                        forall|n: int|
                            0 <= n < ri ==> op_covered_for(
                                *rgraph,
                                *module_info,
                                *ratios,
                                n,
                                out@,
                                OpKind::Reducing,
                            ),
                        has_triple(
                            out@,
                            seq![Property::HasTensor(x, TensorRelation::Identity)],
                            seq![Property::HasTensor(y, TensorRelation::Identity)],
                            TripleLabel::Computation(op_id),
                            comp_fwd(f0),
                            comp_bwd(f0),
                        ),
                        forall|d: int|
                            #![trigger sharded_size(xshape, TensorRelation::Gather(d as u8), *ratios)]
                            0 <= d < dim ==> has_triple(
                                out@,
                                seq![Property::HasTensor(x, TensorRelation::Gather(d as u8))],
                                seq![Property::HasTensor(y, TensorRelation::Reduce)],
                                TripleLabel::Computation(op_id),
                                comp_fwd(sharded_size(xshape, TensorRelation::Gather(d as u8), *ratios)),
                                comp_bwd(sharded_size(xshape, TensorRelation::Gather(d as u8), *ratios)),
                            ),
                    decreases nd_x as usize - dim,
                {
                    let ghost prev_d = out@;
                    let x_shard = property_size(
                        rgraph,
                        x,
                        TensorRelation::Gather(dim as u8),
                        ratios,
                    );
                    let flops_dd = x_shard;
                    let (fwd_d, bwd_d) = comp_profiles(flops_dd);
                    let tr = HoareTriple {
                        pre_conditions: props1(Property::gather(x, dim as u8)),
                        post_conditions: props1(Property::reduce(y)),
                        negative_post_conditions: Vec::new(),
                        instruction: TripleLabel::Computation(op_id),
                        forward_profile: fwd_d,
                        backward_profile: bwd_d,
                    };
                    proof {
                        let ghost fd = sharded_size(
                            xshape,
                            TensorRelation::Gather((dim as int) as u8),
                            *ratios,
                        );
                        assert(fwd_d == comp_fwd(fd));
                        assert(bwd_d == comp_bwd(fd));
                        assert(is_rule(
                            tr,
                            seq![
                                Property::HasTensor(
                                    x,
                                    TensorRelation::Gather((dim as int) as u8),
                                ),
                            ],
                            seq![Property::HasTensor(y, TensorRelation::Reduce)],
                            TripleLabel::Computation(op_id),
                            comp_fwd(fd),
                            comp_bwd(fd),
                        ));
                        assert(op_rule(*rgraph, *module_info, *ratios, ri as int, tr));
                        assert(triple_justified(*rgraph, *module_info, *ratios, tr));
                    }
                    emit(&mut out, Ghost(*rgraph), Ghost(*module_info), Ghost(*ratios), tr);
                    proof {
                        lemma_covered_extends(*rgraph, prev_d, out@);
                        lemma_comm_covered_extends(*rgraph, prev_d, out@);
                    lemma_op_covered_extends(
                        *rgraph,
                        *module_info,
                        *ratios,
                        prev_d,
                        out@,
                        OpKind::Linear,
                    );
                    lemma_op_covered_extends(
                        *rgraph,
                        *module_info,
                        *ratios,
                        prev_d,
                        out@,
                        OpKind::Elementwise,
                    );
                        lemma_op_covered_extends(
                            *rgraph,
                            *module_info,
                            *ratios,
                            prev_d,
                            out@,
                            OpKind::Reducing,
                        );
                        lemma_has_triple_extends(
                            prev_d,
                            out@,
                            seq![Property::HasTensor(x, TensorRelation::Identity)],
                            seq![Property::HasTensor(y, TensorRelation::Identity)],
                            TripleLabel::Computation(op_id),
                            comp_fwd(f0),
                            comp_bwd(f0),
                        );
                        assert(fwd_d == comp_fwd(sharded_size(xshape, TensorRelation::Gather(dim as u8), *ratios)));
                        assert(bwd_d == comp_bwd(sharded_size(xshape, TensorRelation::Gather(dim as u8), *ratios)));
                        assert forall|d: int|
                            #![trigger sharded_size(xshape, TensorRelation::Gather(d as u8), *ratios)]
                            0 <= d < dim + 1 implies has_triple(
                            out@,
                            seq![Property::HasTensor(x, TensorRelation::Gather(d as u8))],
                            seq![Property::HasTensor(y, TensorRelation::Reduce)],
                            TripleLabel::Computation(op_id),
                            comp_fwd(sharded_size(xshape, TensorRelation::Gather(d as u8), *ratios)),
                            comp_bwd(sharded_size(xshape, TensorRelation::Gather(d as u8), *ratios)),
                        ) by {
                            if d < dim {
                                lemma_has_triple_extends(
                                    prev_d,
                                    out@,
                                    seq![Property::HasTensor(x, TensorRelation::Gather(d as u8))],
                                    seq![Property::HasTensor(y, TensorRelation::Reduce)],
                                    TripleLabel::Computation(op_id),
                                    comp_fwd(sharded_size(xshape, TensorRelation::Gather(d as u8), *ratios)),
                                    comp_bwd(sharded_size(xshape, TensorRelation::Gather(d as u8), *ratios)),
                                );
                            } else {
                                assert(d == dim);
                                assert(out@[prev_d.len() as int].pre_conditions@ == seq![
                                    Property::HasTensor(x, TensorRelation::Gather(dim as u8)),
                                ]);
                                assert(out@[prev_d.len() as int].post_conditions@ == seq![
                                    Property::HasTensor(y, TensorRelation::Reduce),
                                ]);
                            }
                        }
                    }
                    dim += 1;
                }
                let x_red = property_size(rgraph, x, TensorRelation::Reduce, ratios);
                let (fwd_r, bwd_r) = comp_profiles(x_red);
                let ghost f_r = sharded_size(xshape, TensorRelation::Reduce, *ratios);
                let ghost prev_r = out@;
                let tr_r = HoareTriple {
                    pre_conditions: props1(Property::reduce(x)),
                    post_conditions: props1(Property::reduce(y)),
                    negative_post_conditions: Vec::new(),
                    instruction: TripleLabel::Computation(op_id),
                    forward_profile: fwd_r,
                    backward_profile: bwd_r,
                };
                proof {
                    assert(fwd_r == comp_fwd(f_r));
                    assert(bwd_r == comp_bwd(f_r));
                    assert(is_rule(
                        tr_r,
                        seq![Property::HasTensor(x, TensorRelation::Reduce)],
                        seq![Property::HasTensor(y, TensorRelation::Reduce)],
                        TripleLabel::Computation(op_id),
                        comp_fwd(f_r),
                        comp_bwd(f_r),
                    ));
                    assert(op_rule(*rgraph, *module_info, *ratios, ri as int, tr_r));
                    assert(triple_justified(*rgraph, *module_info, *ratios, tr_r));
                }
                emit(&mut out, Ghost(*rgraph), Ghost(*module_info), Ghost(*ratios), tr_r);
                proof {
                    lemma_covered_extends(*rgraph, prev_r, out@);
                    lemma_comm_covered_extends(*rgraph, prev_r, out@);
                    lemma_op_covered_extends(
                        *rgraph,
                        *module_info,
                        *ratios,
                        prev_r,
                        out@,
                        OpKind::Linear,
                    );
                    lemma_op_covered_extends(
                        *rgraph,
                        *module_info,
                        *ratios,
                        prev_r,
                        out@,
                        OpKind::Elementwise,
                    );
                    lemma_op_covered_extends(
                        *rgraph,
                        *module_info,
                        *ratios,
                        prev_r,
                        out@,
                        OpKind::Reducing,
                    );
                    lemma_has_triple_extends(
                        prev_r,
                        out@,
                        seq![Property::HasTensor(x, TensorRelation::Identity)],
                        seq![Property::HasTensor(y, TensorRelation::Identity)],
                        TripleLabel::Computation(op_id),
                        comp_fwd(f0),
                        comp_bwd(f0),
                    );
                    assert(fwd_r == comp_fwd(f_r));
                    assert(bwd_r == comp_bwd(f_r));
                    assert(out@[prev_r.len() as int].pre_conditions@ == seq![
                        Property::HasTensor(x, TensorRelation::Reduce),
                    ]);
                    assert(has_triple(
                        out@,
                        seq![Property::HasTensor(x, TensorRelation::Reduce)],
                        seq![Property::HasTensor(y, TensorRelation::Reduce)],
                        TripleLabel::Computation(op_id),
                        comp_fwd(f_r),
                        comp_bwd(f_r),
                    ));
                    assert forall|d: int|
                        #![trigger sharded_size(xshape, TensorRelation::Gather(d as u8), *ratios)]
                        0 <= d < xshape.len() as int implies has_triple(
                        out@,
                        seq![Property::HasTensor(x, TensorRelation::Gather(d as u8))],
                        seq![Property::HasTensor(y, TensorRelation::Reduce)],
                        TripleLabel::Computation(op_id),
                        comp_fwd(sharded_size(xshape, TensorRelation::Gather(d as u8), *ratios)),
                        comp_bwd(sharded_size(xshape, TensorRelation::Gather(d as u8), *ratios)),
                    ) by {
                        lemma_has_triple_extends(
                            prev_r,
                            out@,
                            seq![Property::HasTensor(x, TensorRelation::Gather(d as u8))],
                            seq![Property::HasTensor(y, TensorRelation::Reduce)],
                            TripleLabel::Computation(op_id),
                            comp_fwd(sharded_size(xshape, TensorRelation::Gather(d as u8), *ratios)),
                            comp_bwd(sharded_size(xshape, TensorRelation::Gather(d as u8), *ratios)),
                        );
                    }
                    assert(op_covered_for(
                        *rgraph,
                        *module_info,
                        *ratios,
                        ri as int,
                        out@,
                        OpKind::Reducing,
                    ));
                }
            }
        }
        ri += 1;
    }

    out
}

} // verus!
