//! Hoare triples: guarded rewrite rules over property sets, and the indexed
//! triple set that serves availability queries. A triple fires when all its
//! pre-conditions hold; firing removes its negative post-conditions and adds
//! its post-conditions. Each triple carries the profiles of its forward and
//! backward work, from which the cost model prices it.

use vstd::prelude::*;
use crate::ids::{RTensorId, OpId, ParameterId, PlaceholderId, Dimension, HoareTripleId};
use crate::property::Property;
use crate::cost::{Profile, ClusterInfo, profile_time, TIME_BOUND};
use crate::sharding::Ratios;

verus! {

/// The human-readable label of a triple, used for debugging and test diffs.
#[derive(Clone, Copy, PartialEq, Eq, Structural, Debug)]
pub enum TripleLabel {
    /// Materialize a placeholder fully on every device.
    PlaceholderUnsharded(PlaceholderId),
    /// Materialize a placeholder sharded along a dimension.
    PlaceholderShard(PlaceholderId, Dimension),
    /// Materialize a parameter fully on every device.
    GetAttrUnsharded(ParameterId),
    /// Materialize a parameter sharded along a dimension.
    GetAttrShard(ParameterId, Dimension),
    /// Consume the final tensor.
    Output,
    /// Collect the shards of a tensor onto every device.
    AllGather(RTensorId, Dimension),
    /// Slice a replicated tensor into shards; no communication.
    DynamicSlice(RTensorId, Dimension),
    /// Reduce partial sums into shards.
    ReduceScatter(RTensorId, Dimension),
    /// Reduce partial sums onto every device.
    AllReduce(RTensorId),
    /// Mask a replicated tensor into trivial partial sums; no communication.
    IdentityToReduce(RTensorId),
    /// Exchange shards between two dimensions.
    AllToAll(RTensorId, Dimension, Dimension),
    /// Run one sharded variant of an operator.
    Computation(OpId),
}

/// A guarded rewrite rule over property sets.
pub struct HoareTriple {
    /// Every one must hold for the triple to fire.
    pub pre_conditions: Vec<Property>,
    /// Added to the property set when the triple fires.
    pub post_conditions: Vec<Property>,
    /// Removed from the property set when the triple fires; not logical
    /// negation, used by heuristics to burn one-shot tokens.
    pub negative_post_conditions: Vec<Property>,
    /// The label of the instruction.
    pub instruction: TripleLabel,
    /// Work of the forward pass.
    pub forward_profile: Profile,
    /// Work of the backward pass.
    pub backward_profile: Profile,
}

/// The estimated time a triple adds to a plan: its forward profile's time
/// plus its backward profile's time.
pub open spec fn triple_cost(t: HoareTriple, c: ClusterInfo, r: Ratios) -> int {
    profile_time(t.forward_profile, c, r) + profile_time(t.backward_profile, c, r)
}

impl HoareTriple {
    /// Prices this triple: the estimated time of the forward pass plus that
    /// of the backward pass.
    pub fn get_cost(&self, cluster: &ClusterInfo, ratios: &Ratios) -> (c: u128)
        requires
            cluster.wf(),
            ratios.wf(),
            cluster.device_flops@.len() == ratios.nums@.len(),
        ensures
            c as int == triple_cost(*self, *cluster, *ratios),
            c <= 2 * TIME_BOUND,
    {
        let fwd = cluster.get_time(&self.forward_profile, ratios);
        let bwd = cluster.get_time(&self.backward_profile, ratios);
        fwd + bwd
    }

    /// Whether firing this triple marks the program finished.
    pub open spec fn is_finishing(&self) -> bool {
        self.post_conditions@.contains(Property::Finished)
    }
}

/// The pre- or post-conditions of a triple, selected by `pre`.
pub open spec fn conds(t: HoareTriple, pre: bool) -> Seq<Property> {
    if pre {
        t.pre_conditions@
    } else {
        t.post_conditions@
    }
}

/// Triple `t` is listed under property `q` in the index.
pub open spec fn index_mem(
    index: Seq<(Property, Vec<HoareTripleId>)>,
    q: Property,
    t: HoareTripleId,
) -> bool {
    exists|e: int| 0 <= e < index.len() && (#[trigger] index[e]).0 == q && index[e].1@.contains(t)
}

/// No property keys two entries.
pub open spec fn keys_unique(index: Seq<(Property, Vec<HoareTripleId>)>) -> bool {
    forall|i: int, j: int| 0 <= i < j < index.len() ==> (#[trigger] index[i]).0 != (
    #[trigger] index[j]).0
}

/// Every listing in the index is true of the triples: the id exists and the
/// key really is among the selected conditions of that triple.
pub open spec fn index_sound(
    index: Seq<(Property, Vec<HoareTripleId>)>,
    triples: Seq<HoareTriple>,
    pre: bool,
) -> bool {
    forall|e: int, k: int|
        0 <= e < index.len() && 0 <= k < index[e].1@.len() ==> {
            let t = (#[trigger] index[e].1@[k]);
            t.0 < triples.len() && conds(triples[t.0 as int], pre).contains(index[e].0)
        }
}

/// Every condition of every triple is listed: for each triple and each of
/// its selected conditions, the triple appears under that property.
pub open spec fn index_complete(
    index: Seq<(Property, Vec<HoareTripleId>)>,
    triples: Seq<HoareTriple>,
    pre: bool,
) -> bool {
    forall|t: int, ci: int|
        0 <= t < triples.len() && 0 <= ci < conds(triples[t], pre).len() ==> index_mem(
            index,
            #[trigger] conds(triples[t], pre)[ci],
            HoareTripleId(t as usize),
        )
}

/// Completeness restricted to the first `i` triples and, for triple `i`
/// itself, its first `j` conditions; the shape of the construction loop's
/// progress.
pub open spec fn index_complete_upto(
    index: Seq<(Property, Vec<HoareTripleId>)>,
    triples: Seq<HoareTriple>,
    pre: bool,
    i: int,
    j: int,
) -> bool {
    &&& forall|t: int, ci: int|
        0 <= t < i && t < triples.len() && 0 <= ci < conds(triples[t], pre).len() ==> index_mem(
            index,
            #[trigger] conds(triples[t], pre)[ci],
            HoareTripleId(t as usize),
        )
    &&& forall|ci: int|
        0 <= i < triples.len() && 0 <= ci < j && ci < conds(triples[i], pre).len() ==> index_mem(
            index,
            #[trigger] conds(triples[i], pre)[ci],
            HoareTripleId(i as usize),
        )
}

/// The index lists exactly the triples that carry the property among their
/// pre-conditions (`pre` true) or post-conditions (`pre` false).
pub open spec fn lists_ascending(index: Seq<(Property, Vec<HoareTripleId>)>) -> bool {
    forall|e: int, a: int, b: int|
        0 <= e < index.len() && 0 <= a < b < index[e].1@.len() ==> (#[trigger] index[e].1@[a]).0
            < (#[trigger] index[e].1@[b]).0
}

pub open spec fn index_wf(
    index: Seq<(Property, Vec<HoareTripleId>)>,
    triples: Seq<HoareTriple>,
    pre: bool,
) -> bool {
    &&& keys_unique(index)
    &&& lists_ascending(index)
    &&& index_sound(index, triples, pre)
    &&& index_complete(index, triples, pre)
}

/// Triples stored once and addressed by id, with a forward index by
/// pre-condition property and a backward index by post-condition property.
/// Immutable after construction.
pub struct IndexedHoareTripleSet {
    pub triples: Vec<HoareTriple>,
    pub pre_condition_index: Vec<(Property, Vec<HoareTripleId>)>,
    pub post_condition_index: Vec<(Property, Vec<HoareTripleId>)>,
}

impl IndexedHoareTripleSet {
    /// Both indexes agree exactly with the stored triples.
    pub open spec fn wf(&self) -> bool {
        &&& index_wf(self.pre_condition_index@, self.triples@, true)
        &&& index_wf(self.post_condition_index@, self.triples@, false)
    }

    /// The number of triples.
    pub fn n_triples(&self) -> (r: usize)
        ensures
            r == self.triples@.len(),
    {
        self.triples.len()
    }
}

/// Records `id` under `p`, appending to the entry that already keys `p` or
/// opening a new one.
fn index_insert(
    index: &mut Vec<(Property, Vec<HoareTripleId>)>,
    p: Property,
    id: HoareTripleId,
)
    requires
        keys_unique(old(index)@),
        lists_ascending(old(index)@),
        forall|q: Property, t: HoareTripleId| index_mem(old(index)@, q, t) ==> t.0 <= id.0,
    ensures
        keys_unique(final(index)@),
        lists_ascending(final(index)@),
        forall|q: Property, t: HoareTripleId|
            index_mem(final(index)@, q, t) <==> (index_mem(old(index)@, q, t) || (q == p && t
                == id)),
{
    let ghost orig = index@;
    let mut e: usize = 0;
    while e < index.len()
        invariant
            e <= index@.len(),
            index@ == orig,
            orig == old(index)@,
            keys_unique(orig),
            lists_ascending(orig),
            forall|q: Property, t: HoareTripleId| index_mem(orig, q, t) ==> t.0 <= id.0,
            forall|x: int| 0 <= x < e ==> (#[trigger] index@[x]).0 != p,
        decreases index@.len() - e,
    {
        if index[e].0 == p {
            let elen = index[e].1.len();
            if elen > 0 && index[e].1[elen - 1] == id {
                // the id was just recorded under this property; the pair is
                // already listed
                proof {
                    assert(orig[e as int].1@[elen - 1] == id);
                    assert(orig[e as int].1@.contains(id));
                    assert(index_mem(orig, p, id));
                }
                return ;
            }
            let mut ids = copy_triple_ids(&index[e].1);
            ids.push(id);
            index.set(e, (p, ids));
            proof {
                let cur = index@;
                assert(cur[e as int].0 == p);
                assert(cur[e as int].1@ == orig[e as int].1@.push(id));
                assert(forall|x: int| 0 <= x < cur.len() ==> (#[trigger] cur[x]).0 == orig[x].0);
                let olen = orig[e as int].1@.len() as int;
                assert forall|k: int| 0 <= k < olen implies (#[trigger] orig[e as int].1@[k]).0
                    < id.0 by {
                    let t = orig[e as int].1@[k];
                    assert(orig[e as int].1@.contains(t));
                    assert(index_mem(orig, p, t));
                    if k == olen - 1 {
                        assert(t != id);
                    } else {
                        assert(t.0 < orig[e as int].1@[olen - 1].0);
                        assert(index_mem(orig, p, orig[e as int].1@[olen - 1])) by {
                            assert(orig[e as int].1@.contains(orig[e as int].1@[olen - 1]));
                        }
                    }
                }
                assert forall|e2: int, a: int, b: int|
                    0 <= e2 < cur.len() && 0 <= a < b < cur[e2].1@.len() implies (
                #[trigger] cur[e2].1@[a]).0 < (#[trigger] cur[e2].1@[b]).0 by {
                    if e2 == e {
                        if b < olen {
                            assert(cur[e2].1@[a] == orig[e2].1@[a]);
                            assert(cur[e2].1@[b] == orig[e2].1@[b]);
                        } else {
                            assert(cur[e2].1@[b] == id);
                            assert(cur[e2].1@[a] == orig[e2].1@[a]);
                        }
                    } else {
                        assert(cur[e2] == orig[e2]);
                    }
                }
                assert forall|q: Property, t: HoareTripleId|
                    index_mem(cur, q, t) <==> (index_mem(orig, q, t) || (q == p && t == id)) by {
                    if index_mem(cur, q, t) {
                        let w = choose|w: int|
                            0 <= w < cur.len() && (#[trigger] cur[w]).0 == q && cur[w].1@.contains(
                                t,
                            );
                        if w == e {
                            if t != id {
                                let k = choose|k: int|
                                    0 <= k < cur[w].1@.len() && cur[w].1@[k] == t;
                                assert(orig[w].1@[k] == t);
                                assert(orig[w].1@.contains(t));
                                assert(index_mem(orig, q, t));
                            }
                        } else {
                            assert(cur[w] == orig[w]);
                            assert(index_mem(orig, q, t));
                        }
                    }
                    if index_mem(orig, q, t) {
                        let w = choose|w: int|
                            0 <= w < orig.len() && (#[trigger] orig[w]).0 == q
                                && orig[w].1@.contains(t);
                        if w == e {
                            let k = choose|k: int| 0 <= k < orig[w].1@.len() && orig[w].1@[k] == t;
                            assert(cur[w].1@[k] == t);
                            assert(cur[w].1@.contains(t));
                            assert(index_mem(cur, q, t));
                        } else {
                            assert(cur[w] == orig[w]);
                            assert(index_mem(cur, q, t));
                        }
                    }
                    if q == p && t == id {
                        assert(cur[e as int].1@.last() == id);
                        assert(cur[e as int].1@.contains(id));
                        assert(index_mem(cur, q, t));
                    }
                }
            }
            return ;
        }
        e += 1;
    }
    let mut ids: Vec<HoareTripleId> = Vec::new();
    ids.push(id);
    index.push((p, ids));
    proof {
        let cur = index@;
        assert(cur == orig.push((p, cur[orig.len() as int].1)));
        assert(cur[orig.len() as int].0 == p);
        assert(cur[orig.len() as int].1@ == seq![id]);
        assert forall|q: Property, t: HoareTripleId|
            index_mem(cur, q, t) <==> (index_mem(orig, q, t) || (q == p && t == id)) by {
            if index_mem(cur, q, t) {
                let w = choose|w: int|
                    0 <= w < cur.len() && (#[trigger] cur[w]).0 == q && cur[w].1@.contains(t);
                if w < orig.len() {
                    assert(cur[w] == orig[w]);
                    assert(index_mem(orig, q, t));
                } else {
                    assert(cur[w].1@[0] == id);
                    assert(q == p && t == id);
                }
            }
            if index_mem(orig, q, t) {
                let w = choose|w: int|
                    0 <= w < orig.len() && (#[trigger] orig[w]).0 == q && orig[w].1@.contains(t);
                assert(cur[w] == orig[w]);
                assert(index_mem(cur, q, t));
            }
            if q == p && t == id {
                assert(cur[orig.len() as int].1@[0] == id);
                assert(cur[orig.len() as int].1@.contains(id));
                assert(index_mem(cur, q, t));
            }
        }
        assert forall|e2: int, a: int, b: int|
            0 <= e2 < cur.len() && 0 <= a < b < cur[e2].1@.len() implies (
        #[trigger] cur[e2].1@[a]).0 < (#[trigger] cur[e2].1@[b]).0 by {
            if e2 < orig.len() {
                assert(cur[e2] == orig[e2]);
            }
        }
        assert forall|i: int, j: int| 0 <= i < j < cur.len() implies (#[trigger] cur[i]).0 != (
        #[trigger] cur[j]).0 by {
            if j < orig.len() {
                assert(cur[i] == orig[i]);
                assert(cur[j] == orig[j]);
            } else {
                assert(cur[i] == orig[i]);
                assert(orig[i].0 != p);
            }
        }
    }
}

/// Copies a vector of triple ids.
fn copy_triple_ids(v: &Vec<HoareTripleId>) -> (r: Vec<HoareTripleId>)
    ensures
        r@ == v@,
{
    let mut r: Vec<HoareTripleId> = Vec::new();
    let mut i: usize = 0;
    while i < v.len()
        invariant
            i <= v@.len(),
            r@ == v@.take(i as int),
        decreases v@.len() - i,
    {
        r.push(v[i]);
        proof {
            assert(v@.take(i + 1 as int) == v@.take(i as int).push(v@[i as int]));
        }
        i += 1;
    }
    proof {
        assert(v@.take(v@.len() as int) == v@);
    }
    r
}

impl IndexedHoareTripleSet {
    /// Builds the two indexes: for every triple and every property among its
    /// pre-conditions the triple is listed under that property in the
    /// forward index, and symmetrically for post-conditions.
    pub fn new(triples: Vec<HoareTriple>) -> (r: IndexedHoareTripleSet)
        ensures
            r.wf(),
            r.triples@ == triples@,
    {
        let mut pre_condition_index: Vec<(Property, Vec<HoareTripleId>)> = Vec::new();
        let mut post_condition_index: Vec<(Property, Vec<HoareTripleId>)> = Vec::new();
        build_index(&mut pre_condition_index, &triples, true);
        build_index(&mut post_condition_index, &triples, false);
        IndexedHoareTripleSet { triples, pre_condition_index, post_condition_index }
    }

    /// The triples that have the property as a pre-condition: exactly those,
    /// each by its id, in strictly ascending id order (hence duplicate-free).
    pub fn get_triples_with_pre_condition(&self, p: &Property) -> (r: Vec<HoareTripleId>)
        requires
            self.wf(),
        ensures
            forall|t: HoareTripleId|
                #[trigger] r@.contains(t) <==> (t.0 < self.triples@.len()
                    && self.triples@[t.0 as int].pre_conditions@.contains(*p)),
            forall|a: int, b: int| 0 <= a < b < r@.len() ==> r@[a].0 < r@[b].0,
    {
        index_lookup(&self.pre_condition_index, p, Ghost(self.triples@), Ghost(true))
    }

    /// The triples that have the property as a post-condition: exactly
    /// those, each by its id, in strictly ascending id order (hence
    /// duplicate-free).
    pub fn get_triples_with_post_condition(&self, p: &Property) -> (r: Vec<HoareTripleId>)
        requires
            self.wf(),
        ensures
            forall|t: HoareTripleId|
                #[trigger] r@.contains(t) <==> (t.0 < self.triples@.len()
                    && self.triples@[t.0 as int].post_conditions@.contains(*p)),
            forall|a: int, b: int| 0 <= a < b < r@.len() ==> r@[a].0 < r@[b].0,
    {
        index_lookup(&self.post_condition_index, p, Ghost(self.triples@), Ghost(false))
    }
}

/// Fills one index from the triples.
fn build_index(index: &mut Vec<(Property, Vec<HoareTripleId>)>, triples: &Vec<HoareTriple>, pre:
    bool)
    requires
        old(index)@.len() == 0,
    ensures
        index_wf(final(index)@, triples@, pre),
{
    let mut i: usize = 0;
    while i < triples.len()
        invariant
            i <= triples@.len(),
            keys_unique(index@),
            lists_ascending(index@),
            index_sound(index@, triples@, pre),
            index_complete_upto(index@, triples@, pre, i as int, 0),
            forall|q: Property, t: HoareTripleId| index_mem(index@, q, t) ==> t.0 < i,
        decreases triples@.len() - i,
    {
        let cs: &Vec<Property> = if pre {
            &triples[i].pre_conditions
        } else {
            &triples[i].post_conditions
        };
        let mut j: usize = 0;
        while j < cs.len()
            invariant
                j <= cs@.len(),
                i < triples@.len(),
                cs@ == conds(triples@[i as int], pre),
                keys_unique(index@),
                lists_ascending(index@),
                index_sound(index@, triples@, pre),
                index_complete_upto(index@, triples@, pre, i as int, j as int),
                forall|q: Property, t: HoareTripleId| index_mem(index@, q, t) ==> t.0 <= i,
            decreases cs@.len() - j,
        {
            let p = cs[j];
            let ghost before = index@;
            index_insert(index, p, HoareTripleId(i));
            proof {
                let cur = index@;
                assert forall|e2: int, k2: int|
                    0 <= e2 < cur.len() && 0 <= k2 < cur[e2].1@.len() implies {
                    let t = (#[trigger] cur[e2].1@[k2]);
                    t.0 < triples@.len() && conds(triples@[t.0 as int], pre).contains(cur[e2].0)
                } by {
                    let q = cur[e2].0;
                    let t = cur[e2].1@[k2];
                    assert(cur[e2].1@.contains(t));
                    assert(index_mem(cur, q, t));
                    if index_mem(before, q, t) {
                        let w = choose|w: int|
                            0 <= w < before.len() && (#[trigger] before[w]).0 == q
                                && before[w].1@.contains(t);
                        let k3 = choose|k3: int|
                            0 <= k3 < before[w].1@.len() && before[w].1@[k3] == t;
                        assert(before[w].1@[k3] == t);
                    } else {
                        assert(q == p && t == HoareTripleId(i as usize));
                        assert(conds(triples@[i as int], pre)[j as int] == p);
                        assert(conds(triples@[i as int], pre).contains(p));
                    }
                }
                assert forall|t: int, ci: int|
                    0 <= t < triples@.len() && 0 <= ci < conds(triples@[t], pre).len() && (t
                        < i || (t == i && ci < j + 1)) implies index_mem(
                    cur,
                    #[trigger] conds(triples@[t], pre)[ci],
                    HoareTripleId(t as usize),
                ) by {
                    if t < i || (t == i && ci < j) {
                        assert(index_mem(before, conds(triples@[t], pre)[ci], HoareTripleId(t as usize)));
                    } else {
                        assert(t == i && ci == j);
                        assert(conds(triples@[t], pre)[ci] == p);
                    }
                }
            }
            j += 1;
        }
        proof {
            assert forall|t: int, ci: int|
                0 <= t < triples@.len() && 0 <= ci < conds(triples@[t], pre).len() && t < i + 1
                implies index_mem(
                index@,
                #[trigger] conds(triples@[t], pre)[ci],
                HoareTripleId(t as usize),
            ) by {
                if t < i {
                } else {
                    assert(t == i && ci < cs@.len());
                }
            }
        }
        i += 1;
    }
    proof {
        assert(index_sound(index@, triples@, pre)) by {
            assert forall|e: int, k: int|
                0 <= e < index@.len() && 0 <= k < index@[e].1@.len() implies {
                let t = (#[trigger] index@[e].1@[k]);
                t.0 < triples@.len() && conds(triples@[t.0 as int], pre).contains(index@[e].0)
            } by {
                let t = index@[e].1@[k];
                assert(index@[e].1@.contains(t));
                assert(index_mem(index@, index@[e].0, t));
            }
        }
        assert(index_complete(index@, triples@, pre));
    }
}

/// Finds the entry keyed by `p` and hands back a copy of its triple list.
fn index_lookup(
    index: &Vec<(Property, Vec<HoareTripleId>)>,
    p: &Property,
    Ghost(triples): Ghost<Seq<HoareTriple>>,
    Ghost(pre): Ghost<bool>,
) -> (r: Vec<HoareTripleId>)
    requires
        index_wf(index@, triples, pre),
    ensures
        forall|t: HoareTripleId|
            #[trigger] r@.contains(t) <==> (t.0 < triples.len() && conds(
                triples[t.0 as int],
                pre,
            ).contains(*p)),
        forall|a: int, b: int| 0 <= a < b < r@.len() ==> r@[a].0 < r@[b].0,
{
    let mut e: usize = 0;
    while e < index.len()
        invariant
            e <= index@.len(),
            index_wf(index@, triples, pre),
            forall|x: int| 0 <= x < e ==> (#[trigger] index@[x]).0 != *p,
        decreases index@.len() - e,
    {
        if index[e].0 == *p {
            let r = copy_triple_ids(&index[e].1);
            proof {
                assert forall|t: HoareTripleId|
                    #[trigger] r@.contains(t) implies (t.0 < triples.len() && conds(
                    triples[t.0 as int],
                    pre,
                ).contains(*p)) by {
                    let k = choose|k: int| 0 <= k < r@.len() && r@[k] == t;
                    assert(index@[e as int].1@[k] == t);
                }
                assert forall|t: HoareTripleId|
                    (t.0 < triples.len() && conds(triples[t.0 as int], pre).contains(*p)) implies
                    #[trigger] r@.contains(t) by {
                    let ci = choose|ci: int|
                        0 <= ci < conds(triples[t.0 as int], pre).len() && #[trigger] conds(
                            triples[t.0 as int],
                            pre,
                        )[ci] == *p;
                    assert(t == HoareTripleId(t.0));
                    assert(index_mem(index@, *p, t));
                    let w = choose|w: int|
                        0 <= w < index@.len() && (#[trigger] index@[w]).0 == *p
                            && index@[w].1@.contains(t);
                    assert(w == e);
                    assert(r@ == index@[e as int].1@);
                }
            }
            return r;
        }
        e += 1;
    }
    let r: Vec<HoareTripleId> = Vec::new();
    proof {
        assert forall|t: HoareTripleId|
            (t.0 < triples.len() && conds(triples[t.0 as int], pre).contains(*p)) implies
            #[trigger] r@.contains(t) by {
            let ci = choose|ci: int|
                0 <= ci < conds(triples[t.0 as int], pre).len() && #[trigger] conds(
                    triples[t.0 as int],
                    pre,
                )[ci] == *p;
            assert(t == HoareTripleId(t.0));
            assert(index_mem(index@, *p, t));
            let w = choose|w: int|
                0 <= w < index@.len() && (#[trigger] index@[w]).0 == *p && index@[w].1@.contains(
                    t,
                );
            assert(false);
        }
        assert(forall|t: HoareTripleId| !(#[trigger] r@.contains(t)));
    }
    r
}

} // verus!
