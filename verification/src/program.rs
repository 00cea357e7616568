//! Programs: partial plans of the search. A program holds the ordered
//! triples fired so far, the set of properties they established, and the
//! accumulated estimated cost. Expansion fires one more triple: removals
//! first, then additions, then a conservative garbage collection of
//! properties that can no longer contribute to finishing.

use vstd::prelude::*;
use vstd::assert_sets_equal;
use crate::ids::HoareTripleId;
use crate::property::Property;
use crate::propset::PropSet;
use crate::triple::{HoareTriple, IndexedHoareTripleSet, triple_cost};
use crate::cost::{ClusterInfo, sat_add_u128, sat_add_spec};
use crate::sharding::Ratios;

verus! {

/// The property set after firing a triple: its negative post-conditions are
/// removed, then its post-conditions added.
pub open spec fn triple_fire(props: Set<Property>, t: HoareTriple) -> Set<Property> {
    props.difference(t.negative_post_conditions@.to_set()).union(t.post_conditions@.to_set())
}

/// No triple establishes `q`.
pub open spec fn no_producer(triples: Seq<HoareTriple>, q: Property) -> bool {
    forall|i: int|
        0 <= i < triples.len() ==> !(#[trigger] triples[i]).post_conditions@.contains(q)
}

/// The sufficient condition of the garbage collection: every triple that
/// needs `p` also needs some property that does not hold and that no triple
/// can ever establish. Such a triple can never fire, so `p` cannot
/// contribute to reaching the finished state through it.
pub open spec fn irrelevant_in(
    props: Set<Property>,
    triples: Seq<HoareTriple>,
    p: Property,
) -> bool {
    forall|i: int|
        0 <= i < triples.len() && (#[trigger] triples[i]).pre_conditions@.contains(p)
            ==> exists|k: int|
            0 <= k < triples[i].pre_conditions@.len() && !props.contains(
                #[trigger] triples[i].pre_conditions@[k],
            ) && no_producer(triples, triples[i].pre_conditions@[k])
}

/// Whether the garbage collection keeps a property: the finished marker is
/// never removed, anything else only when it is irrelevant.
pub open spec fn gc_keep(props: Set<Property>, triples: Seq<HoareTriple>, p: Property) -> bool {
    p == Property::Finished || !irrelevant_in(props, triples, p)
}

/// The property set after garbage collection.
pub open spec fn gc_set(props: Set<Property>, triples: Seq<HoareTriple>) -> Set<Property> {
    props.filter(|p: Property| gc_keep(props, triples, p))
}

/// The property set after firing a triple and collecting garbage.
pub open spec fn step_props(
    props: Set<Property>,
    triples: Seq<HoareTriple>,
    id: HoareTripleId,
) -> Set<Property> {
    gc_set(triple_fire(props, triples[id.0 as int]), triples)
}

/// A triple is available: every pre-condition holds, and at least one
/// post-condition does not yet hold (otherwise firing it would be useless).
pub open spec fn triple_available(props: Set<Property>, t: HoareTriple) -> bool {
    &&& forall|k: int|
        0 <= k < t.pre_conditions@.len() ==> props.contains(#[trigger] t.pre_conditions@[k])
    &&& exists|k: int|
        0 <= k < t.post_conditions@.len() && !props.contains(#[trigger] t.post_conditions@[k])
}

/// Runs a plan: fires the listed triples in order, each of which must be
/// available in its turn, and yields the final property set; `None` if some
/// triple is not available when its turn comes.
pub open spec fn run_plan(
    triples: Seq<HoareTriple>,
    props: Set<Property>,
    ids: Seq<HoareTripleId>,
) -> Option<Set<Property>>
    decreases ids.len(),
{
    if ids.len() == 0 {
        Some(props)
    } else if ids[0].0 < triples.len() && triple_available(props, triples[ids[0].0 as int]) {
        run_plan(triples, step_props(props, triples, ids[0]), ids.drop_first())
    } else {
        None
    }
}

/// The accumulated (saturating) cost of a plan.
pub open spec fn plan_cost(
    triples: Seq<HoareTriple>,
    ids: Seq<HoareTripleId>,
    c: ClusterInfo,
    r: Ratios,
) -> int
    decreases ids.len(),
{
    if ids.len() == 0 {
        0
    } else if ids.last().0 < triples.len() {
        sat_add_spec(
            plan_cost(triples, ids.drop_last(), c, r),
            triple_cost(triples[ids.last().0 as int], c, r),
        )
    } else {
        plan_cost(triples, ids.drop_last(), c, r)
    }
}

/// A plan's accumulated cost stays within the cost range.
pub proof fn lemma_plan_cost_bounds(
    triples: Seq<HoareTriple>,
    ids: Seq<HoareTripleId>,
    c: ClusterInfo,
    r: Ratios,
)
    requires
        c.wf(),
        r.wf(),
    ensures
        0 <= plan_cost(triples, ids, c, r) <= u128::MAX,
    decreases ids.len(),
{
    if ids.len() > 0 {
        lemma_plan_cost_bounds(triples, ids.drop_last(), c, r);
        if ids.last().0 < triples.len() {
            crate::cost::lemma_profile_time_nonneg(
                triples[ids.last().0 as int].forward_profile,
                c,
                r,
            );
            crate::cost::lemma_profile_time_nonneg(
                triples[ids.last().0 as int].backward_profile,
                c,
                r,
            );
        }
    }
}

/// A plan never costs less than any of its prefixes: the accumulated cost
/// only grows as triples fire. With the heuristic at zero, the priority of
/// every partial plan is therefore a lower bound on the cost of any plan
/// extending it, which is what makes the best-first search admissible.
pub proof fn lemma_plan_cost_prefix(
    triples: Seq<HoareTriple>,
    ids: Seq<HoareTripleId>,
    n: int,
    c: ClusterInfo,
    r: Ratios,
)
    requires
        c.wf(),
        r.wf(),
        0 <= n <= ids.len(),
    ensures
        plan_cost(triples, ids.take(n), c, r) <= plan_cost(triples, ids, c, r),
    decreases ids.len(),
{
    if n < ids.len() {
        lemma_plan_cost_bounds(triples, ids.drop_last(), c, r);
        if ids.last().0 < triples.len() {
            crate::cost::lemma_profile_time_nonneg(
                triples[ids.last().0 as int].forward_profile,
                c,
                r,
            );
            crate::cost::lemma_profile_time_nonneg(
                triples[ids.last().0 as int].backward_profile,
                c,
                r,
            );
            assert(plan_cost(triples, ids.drop_last(), c, r) <= plan_cost(triples, ids, c, r));
        }
        assert(ids.take(n) == ids.drop_last().take(n));
        lemma_plan_cost_prefix(triples, ids.drop_last(), n, c, r);
    } else {
        assert(ids.take(n) == ids);
    }
}

/// Extending a valid plan by an available triple runs to the stepped set.
pub proof fn lemma_run_plan_snoc(
    triples: Seq<HoareTriple>,
    props: Set<Property>,
    ids: Seq<HoareTripleId>,
    id: HoareTripleId,
    s: Set<Property>,
)
    requires
        run_plan(triples, props, ids) == Some(s),
        id.0 < triples.len(),
        triple_available(s, triples[id.0 as int]),
    ensures
        run_plan(triples, props, ids.push(id)) == Some(step_props(s, triples, id)),
    decreases ids.len(),
{
    reveal_with_fuel(run_plan, 3);
    if ids.len() == 0 {
        assert(s == props);
        assert(ids.push(id)[0] == id);
        assert(ids.push(id).drop_first() == Seq::<HoareTripleId>::empty());
    } else {
        assert(ids.push(id)[0] == ids[0]);
        assert(ids.push(id).drop_first() == ids.drop_first().push(id));
        lemma_run_plan_snoc(
            triples,
            step_props(props, triples, ids[0]),
            ids.drop_first(),
            id,
            s,
        );
    }
}

/// A property that does not hold and that no triple establishes stays
/// absent through any run.
pub proof fn lemma_no_producer_stays_absent(
    triples: Seq<HoareTriple>,
    props: Set<Property>,
    ids: Seq<HoareTripleId>,
    q: Property,
)
    requires
        !props.contains(q),
        no_producer(triples, q),
        run_plan(triples, props, ids) is Some,
    ensures
        !run_plan(triples, props, ids).unwrap().contains(q),
    decreases ids.len(),
{
    if ids.len() > 0 {
        let t = triples[ids[0].0 as int];
        let fired = triple_fire(props, t);
        assert(!t.post_conditions@.contains(q));
        assert(!fired.contains(q)) by {
            if fired.contains(q) {
                if t.post_conditions@.to_set().contains(q) {
                    assert(t.post_conditions@.contains(q));
                }
            }
        }
        assert(!step_props(props, triples, ids[0]).contains(q));
        lemma_no_producer_stays_absent(triples, step_props(props, triples, ids[0]), ids.drop_first(), q);
    }
}

/// The garbage collection is conservative: a property it removes never
/// appears as a pre-condition of a triple that can fire, in the current
/// state or in any state reachable from it. Removing it therefore never
/// changes which plans can run.
pub proof fn lemma_gc_is_conservative(
    triples: Seq<HoareTriple>,
    props: Set<Property>,
    start: Set<Property>,
    ids: Seq<HoareTripleId>,
    p: Property,
    i: int,
)
    requires
        !gc_keep(props, triples, p),
        start.subset_of(props),
        run_plan(triples, start, ids) is Some,
        0 <= i < triples.len(),
        triples[i].pre_conditions@.contains(p),
    ensures
        !triple_available(run_plan(triples, start, ids).unwrap(), triples[i]),
{
    assert(irrelevant_in(props, triples, p));
    let k = choose|k: int|
        0 <= k < triples[i].pre_conditions@.len() && !props.contains(
            #[trigger] triples[i].pre_conditions@[k],
        ) && no_producer(triples, triples[i].pre_conditions@[k]);
    let q = triples[i].pre_conditions@[k];
    assert(!start.contains(q));
    lemma_no_producer_stays_absent(triples, start, ids, q);
    let final_props = run_plan(triples, start, ids).unwrap();
    assert(!final_props.contains(q));
    if triple_available(final_props, triples[i]) {
        assert(final_props.contains(triples[i].pre_conditions@[k]));
    }
}

/// The garbage collection never disables a step: a triple available in a
/// property set is still available after the set is collected, since every
/// pre-condition of an available triple is itself kept.
pub proof fn lemma_gc_preserves_available(
    triples: Seq<HoareTriple>,
    props: Set<Property>,
    i: int,
)
    requires
        0 <= i < triples.len(),
        triple_available(props, triples[i]),
    ensures
        triple_available(gc_set(props, triples), triples[i]),
{
    let t = triples[i];
    assert forall|k: int| 0 <= k < t.pre_conditions@.len() implies gc_set(
        props,
        triples,
    ).contains(#[trigger] t.pre_conditions@[k]) by {
        let p = t.pre_conditions@[k];
        assert(props.contains(p));
        // `t` itself witnesses that `p` is not irrelevant: every one of its
        // pre-conditions holds, so none of them is absent and unproducible
        assert(!irrelevant_in(props, triples, p)) by {
            if irrelevant_in(props, triples, p) {
                assert(t.pre_conditions@.contains(p));
                let m = choose|m: int|
                    0 <= m < triples[i].pre_conditions@.len() && !props.contains(
                        #[trigger] triples[i].pre_conditions@[m],
                    ) && no_producer(triples, triples[i].pre_conditions@[m]);
                assert(props.contains(triples[i].pre_conditions@[m]));
            }
        }
        assert(gc_keep(props, triples, p));
    }
    let k = choose|k: int|
        0 <= k < t.post_conditions@.len() && !props.contains(#[trigger] t.post_conditions@[k]);
    assert(!gc_set(props, triples).contains(t.post_conditions@[k]));
}

/// Membership in a vector of properties.
fn vec_contains_prop(v: &Vec<Property>, p: &Property) -> (r: bool)
    ensures
        r == v@.contains(*p),
{
    let mut i: usize = 0;
    while i < v.len()
        invariant
            i <= v@.len(),
            forall|k: int| 0 <= k < i ==> v@[k] != *p,
        decreases v@.len() - i,
    {
        if v[i] == *p {
            assert(v@.contains(*p));
            return true;
        }
        i += 1;
    }
    proof {
        if v@.contains(*p) {
            let k = choose|k: int| 0 <= k < v@.len() && v@[k] == *p;
            assert(v@[k] != *p);
        }
    }
    false
}

/// Whether `p` satisfies the garbage collection's removal condition.
fn is_irrelevant(props: &PropSet, ts: &IndexedHoareTripleSet, p: &Property) -> (r: bool)
    requires
        props.wf(),
        ts.wf(),
    ensures
        r == irrelevant_in(props@.to_set(), ts.triples@, *p),
{
    let users = ts.get_triples_with_pre_condition(p);
    let mut u: usize = 0;
    while u < users.len()
        invariant
            u <= users@.len(),
            props.wf(),
            ts.wf(),
            forall|t: HoareTripleId|
                #[trigger] users@.contains(t) <==> (t.0 < ts.triples@.len()
                    && ts.triples@[t.0 as int].pre_conditions@.contains(*p)),
            forall|x: int|
                0 <= x < u ==> exists|k: int|
                    0 <= k < ts.triples@[(#[trigger] users@[x]).0 as int].pre_conditions@.len()
                        && !props@.to_set().contains(
                        #[trigger] ts.triples@[users@[x].0 as int].pre_conditions@[k],
                    ) && no_producer(
                        ts.triples@,
                        ts.triples@[users@[x].0 as int].pre_conditions@[k],
                    ),
        decreases users@.len() - u,
    {
        let tid = users[u];
        proof {
            assert(users@.contains(users@[u as int]));
        }
        let pre = &ts.triples[tid.0].pre_conditions;
        let mut found = false;
        let mut k: usize = 0;
        while k < pre.len()
            invariant
                k <= pre@.len(),
                props.wf(),
                ts.wf(),
                tid.0 < ts.triples@.len(),
                pre@ == ts.triples@[tid.0 as int].pre_conditions@,
                found ==> exists|m: int|
                    0 <= m < pre@.len() && !props@.to_set().contains(#[trigger] pre@[m])
                        && no_producer(ts.triples@, pre@[m]),
                !found ==> forall|m: int|
                    0 <= m < k ==> !(!props@.to_set().contains(#[trigger] pre@[m]) && no_producer(
                        ts.triples@,
                        pre@[m],
                    )),
            decreases pre@.len() - k,
        {
            if !found {
                let q = pre[k];
                if !props.contains_prop(&q) {
                    let producers = ts.get_triples_with_post_condition(&q);
                    if producers.len() == 0 {
                        proof {
                            assert(ts.triples.len() == ts.triples@.len());
                            assert forall|i: int|
                                0 <= i < ts.triples@.len() implies !(
                            #[trigger] ts.triples@[i]).post_conditions@.contains(q) by {
                                if ts.triples@[i].post_conditions@.contains(q) {
                                    assert(producers@.contains(HoareTripleId(i as usize)));
                                    let w = choose|w: int|
                                        0 <= w < producers@.len() && producers@[w]
                                            == HoareTripleId(i as usize);
                                }
                            }
                            assert(no_producer(ts.triples@, pre@[k as int]));
                        }
                        found = true;
                    } else {
                        proof {
                            let t0 = producers@[0];
                            assert(producers@.contains(t0));
                            assert(ts.triples@[t0.0 as int].post_conditions@.contains(q));
                            assert(!no_producer(ts.triples@, pre@[k as int]));
                        }
                    }
                }
            }
            k += 1;
        }
        if !found {
            proof {
                // this user triple has no blocked pre-condition, so `p` is
                // not irrelevant
                if irrelevant_in(props@.to_set(), ts.triples@, *p) {
                    assert(ts.triples@[tid.0 as int].pre_conditions@.contains(*p));
                    let m = choose|m: int|
                        0 <= m < ts.triples@[tid.0 as int].pre_conditions@.len()
                            && !props@.to_set().contains(
                            #[trigger] ts.triples@[tid.0 as int].pre_conditions@[m],
                        ) && no_producer(
                            ts.triples@,
                            ts.triples@[tid.0 as int].pre_conditions@[m],
                        );
                    assert(false);
                }
            }
            return false;
        }
        u += 1;
    }
    proof {
        assert(ts.triples.len() == ts.triples@.len());
        assert forall|i: int|
            0 <= i < ts.triples@.len() && (
        #[trigger] ts.triples@[i]).pre_conditions@.contains(*p) implies exists|k: int|
            0 <= k < ts.triples@[i].pre_conditions@.len() && !props@.to_set().contains(
                #[trigger] ts.triples@[i].pre_conditions@[k],
            ) && no_producer(ts.triples@, ts.triples@[i].pre_conditions@[k]) by {
            assert(users@.contains(HoareTripleId(i as usize)));
            let x = choose|x: int| 0 <= x < users@.len() && users@[x] == HoareTripleId(i as usize);
            assert(users@[x].0 as int == i);
            let k = choose|k: int|
                0 <= k < ts.triples@[(#[trigger] users@[x]).0 as int].pre_conditions@.len()
                    && !props@.to_set().contains(
                    #[trigger] ts.triples@[users@[x].0 as int].pre_conditions@[k],
                ) && no_producer(ts.triples@, ts.triples@[users@[x].0 as int].pre_conditions@[k]);
            assert(0 <= k < ts.triples@[i].pre_conditions@.len() && !props@.to_set().contains(
                ts.triples@[i].pre_conditions@[k],
            ) && no_producer(ts.triples@, ts.triples@[i].pre_conditions@[k]));
        }
    }
    true
}

/// Removes the properties that cannot contribute to finishing, by the local
/// sufficient condition `irrelevant_in`; the finished marker is never
/// removed. Purely an optimization: it shrinks the dominance-cache keys and,
/// by `lemma_gc_is_conservative`, never changes which plans can run.
pub fn irrelevant_property_gc(props: &PropSet, ts: &IndexedHoareTripleSet) -> (r: PropSet)
    requires
        props.wf(),
        ts.wf(),
    ensures
        r.wf(),
        r@.to_set() == gc_set(props@.to_set(), ts.triples@),
        forall|p: Property|
            props@.to_set().contains(p) && !r@.to_set().contains(p) ==> p != Property::Finished
                && irrelevant_in(props@.to_set(), ts.triples@, p),
{
    let mut r = PropSet::empty();
    let n = props.len();
    let mut i: usize = 0;
    while i < n
        invariant
            i <= n,
            n == props@.len(),
            props.wf(),
            ts.wf(),
            r.wf(),
            forall|q: Property|
                #[trigger] r@.contains(q) <==> (props@.take(i as int).contains(q) && gc_keep(
                    props@.to_set(),
                    ts.triples@,
                    q,
                )),
        decreases n - i,
    {
        let p = props.get(i);
        let keep = if matches!(p, Property::Finished) {
            true
        } else {
            !is_irrelevant(props, ts, &p)
        };
        let ghost prev = r@;
        if keep {
            r.insert(p);
        }
        proof {
            assert(props@.take(i + 1 as int) == props@.take(i as int).push(props@[i as int]));
            assert forall|q: Property|
                #[trigger] r@.contains(q) <==> (props@.take(i + 1 as int).contains(q) && gc_keep(
                    props@.to_set(),
                    ts.triples@,
                    q,
                )) by {
                if r@.contains(q) {
                    if q == p {
                        assert(props@.take(i + 1 as int)[i as int] == q);
                        assert(props@.take(i + 1 as int).contains(q));
                    } else {
                        assert(prev.contains(q));
                        let w = choose|w: int|
                            0 <= w < props@.take(i as int).len() && props@.take(i as int)[w] == q;
                        assert(props@.take(i + 1 as int)[w] == q);
                        assert(props@.take(i + 1 as int).contains(q));
                    }
                }
                if props@.take(i + 1 as int).contains(q) && gc_keep(
                    props@.to_set(),
                    ts.triples@,
                    q,
                ) {
                    let w = choose|w: int|
                        0 <= w < props@.take(i + 1 as int).len() && #[trigger] props@.take(
                            i + 1 as int,
                        )[w] == q;
                    if w < i {
                        assert(props@.take(i as int)[w] == q);
                        assert(props@.take(i as int).contains(q));
                        assert(prev.contains(q));
                    } else {
                        assert(q == p);
                    }
                    assert(r@.contains(q));
                }
            }
        }
        i += 1;
    }
    proof {
        assert(props@.take(n as int) == props@);
        assert_sets_equal!(r@.to_set(), gc_set(props@.to_set(), ts.triples@), q => {
            if r@.to_set().contains(q) {
                assert(r@.contains(q));
                assert(props@.contains(q));
                assert(props@.to_set().contains(q));
            }
            if gc_set(props@.to_set(), ts.triples@).contains(q) {
                assert(props@.to_set().contains(q));
                assert(props@.contains(q));
                assert(r@.contains(q));
            }
        });
    }
    r
}

/// A partial plan: the triples fired so far in order, the active property
/// set, the accumulated cost, and the heuristic remaining cost (always zero
/// here, which keeps the search admissible).
#[derive(Debug)]
pub struct Program {
    pub triple_ids: Vec<HoareTripleId>,
    pub properties: PropSet,
    pub cost: u128,
    pub ecost: u128,
}

impl Program {
    /// The initial program: the seed properties, no triples, zero cost.
    pub fn empty(initial_properties: &Vec<Property>) -> (r: Program)
        ensures
            r.triple_ids@ == Seq::<HoareTripleId>::empty(),
            r.properties.wf(),
            r.properties@.to_set() == initial_properties@.to_set(),
            r.cost == 0,
            r.ecost == 0,
    {
        Program {
            triple_ids: Vec::new(),
            properties: PropSet::from_vec(initial_properties),
            cost: 0,
            ecost: 0,
        }
    }

    /// A program is complete when the finished marker is active.
    pub fn is_complete(&self) -> (r: bool)
        ensures
            r == self.properties@.to_set().contains(Property::Finished),
    {
        let r = self.properties.contains_prop(&Property::Finished);
        proof {
            if self.properties@.contains(Property::Finished) {
                assert(self.properties@.to_set().contains(Property::Finished));
            }
            if self.properties@.to_set().contains(Property::Finished) {
                assert(self.properties@.contains(Property::Finished));
            }
        }
        r
    }

    /// The triples that can fire now: every pre-condition active, at least
    /// one post-condition missing. Listed in ascending id order, which fixes
    /// the deterministic expansion order of the search.
    pub fn find_available_triples(&self, ts: &IndexedHoareTripleSet) -> (r: Vec<HoareTripleId>)
        requires
            self.properties.wf(),
            ts.wf(),
        ensures
            forall|id: HoareTripleId|
                #[trigger] r@.contains(id) <==> (id.0 < ts.triples@.len() && triple_available(
                    self.properties@.to_set(),
                    ts.triples@[id.0 as int],
                )),
            forall|a: int, b: int| 0 <= a < b < r@.len() ==> r@[a].0 < r@[b].0,
    {
        let mut r: Vec<HoareTripleId> = Vec::new();
        let n = ts.n_triples();
        let mut i: usize = 0;
        while i < n
            invariant
                i <= n,
                n == ts.triples@.len(),
                self.properties.wf(),
                ts.wf(),
                forall|id: HoareTripleId|
                    #[trigger] r@.contains(id) <==> (id.0 < i && triple_available(
                        self.properties@.to_set(),
                        ts.triples@[id.0 as int],
                    )),
                forall|a: int, b: int| 0 <= a < b < r@.len() ==> r@[a].0 < r@[b].0,
                forall|a: int| 0 <= a < r@.len() ==> (#[trigger] r@[a]).0 < i,
            decreases n - i,
        {
            let t = &ts.triples[i];
            let mut pre_ok = true;
            let mut k: usize = 0;
            while k < t.pre_conditions.len()
                invariant
                    k <= t.pre_conditions@.len(),
                    self.properties.wf(),
                    t == &ts.triples@[i as int],
                    i < ts.triples@.len(),
                    pre_ok ==> forall|m: int|
                        0 <= m < k ==> self.properties@.to_set().contains(
                            #[trigger] t.pre_conditions@[m],
                        ),
                    !pre_ok ==> exists|m: int|
                        0 <= m < t.pre_conditions@.len() && !self.properties@.to_set().contains(
                            #[trigger] t.pre_conditions@[m],
                        ),
                decreases t.pre_conditions@.len() - k,
            {
                if pre_ok {
                    if !self.properties.contains_prop(&t.pre_conditions[k]) {
                        pre_ok = false;
                    }
                }
                k += 1;
            }
            let mut post_new = false;
            let mut m: usize = 0;
            while m < t.post_conditions.len()
                invariant
                    m <= t.post_conditions@.len(),
                    self.properties.wf(),
                    t == &ts.triples@[i as int],
                    i < ts.triples@.len(),
                    post_new ==> exists|x: int|
                        0 <= x < t.post_conditions@.len() && !self.properties@.to_set().contains(
                            #[trigger] t.post_conditions@[x],
                        ),
                    !post_new ==> forall|x: int|
                        0 <= x < m ==> self.properties@.to_set().contains(
                            #[trigger] t.post_conditions@[x],
                        ),
                decreases t.post_conditions@.len() - m,
            {
                if !post_new {
                    if !self.properties.contains_prop(&t.post_conditions[m]) {
                        post_new = true;
                    }
                }
                m += 1;
            }
            let ghost prev = r@;
            if pre_ok && post_new {
                r.push(HoareTripleId(i));
            }
            proof {
                assert forall|id: HoareTripleId|
                    #[trigger] r@.contains(id) <==> (id.0 < i + 1 && triple_available(
                        self.properties@.to_set(),
                        ts.triples@[id.0 as int],
                    )) by {
                    if r@.contains(id) {
                        let w = choose|w: int| 0 <= w < r@.len() && r@[w] == id;
                        if w < prev.len() {
                            assert(prev[w] == id);
                            assert(prev.contains(id));
                        } else {
                            assert(id == HoareTripleId(i as usize));
                        }
                    }
                    if id.0 < i + 1 && triple_available(
                        self.properties@.to_set(),
                        ts.triples@[id.0 as int],
                    ) {
                        if id.0 < i {
                            assert(prev.contains(id));
                            let w = choose|w: int| 0 <= w < prev.len() && prev[w] == id;
                            assert(r@[w] == id);
                            assert(r@.contains(id));
                        } else {
                            assert(id == HoareTripleId(i as usize));
                            assert(pre_ok && post_new);
                            assert(r@[r@.len() - 1] == id);
                            assert(r@.contains(id));
                        }
                    }
                }
            }
            i += 1;
        }
        r
    }

    /// The program extended by one more (available) triple: the triple id is
    /// appended, the property set is fired and garbage-collected, and the
    /// cost grows by the triple's estimated time — never decreasing, which
    /// is the monotone-dominance property of expansion.
    pub fn with_a_new_triple(
        &self,
        triple_id: HoareTripleId,
        ts: &IndexedHoareTripleSet,
        cluster: &ClusterInfo,
        ratios: &Ratios,
    ) -> (r: Program)
        requires
            self.properties.wf(),
            ts.wf(),
            triple_id.0 < ts.triples@.len(),
            cluster.wf(),
            ratios.wf(),
            cluster.device_flops@.len() == ratios.nums@.len(),
        ensures
            r.triple_ids@ == self.triple_ids@.push(triple_id),
            r.properties.wf(),
            r.properties@.to_set() == step_props(
                self.properties@.to_set(),
                ts.triples@,
                triple_id,
            ),
            r.cost as int == sat_add_spec(
                self.cost as int,
                triple_cost(ts.triples@[triple_id.0 as int], *cluster, *ratios),
            ),
            r.cost >= self.cost,
            r.ecost == 0,
    {
        let mut triple_ids: Vec<HoareTripleId> = Vec::new();
        let mut ci: usize = 0;
        while ci < self.triple_ids.len()
            invariant
                ci <= self.triple_ids@.len(),
                triple_ids@ == self.triple_ids@.take(ci as int),
            decreases self.triple_ids@.len() - ci,
        {
            triple_ids.push(self.triple_ids[ci]);
            proof {
                assert(self.triple_ids@.take(ci + 1 as int) == self.triple_ids@.take(
                    ci as int,
                ).push(self.triple_ids@[ci as int]));
            }
            ci += 1;
        }
        proof {
            assert(self.triple_ids@.take(self.triple_ids@.len() as int) == self.triple_ids@);
        }
        triple_ids.push(triple_id);

        let t = &ts.triples[triple_id.0];
        let mut props = PropSet::empty();
        let n = self.properties.len();
        let mut i: usize = 0;
        while i < n
            invariant
                i <= n,
                n == self.properties@.len(),
                self.properties.wf(),
                props.wf(),
                t == &ts.triples@[triple_id.0 as int],
                triple_id.0 < ts.triples@.len(),
                forall|q: Property|
                    #[trigger] props@.contains(q) <==> (self.properties@.take(i as int).contains(
                        q,
                    ) && !t.negative_post_conditions@.contains(q)),
            decreases n - i,
        {
            let p = self.properties.get(i);
            let ghost prev = props@;
            if !vec_contains_prop(&t.negative_post_conditions, &p) {
                props.insert(p);
            }
            proof {
                assert(self.properties@.take(i + 1 as int) == self.properties@.take(
                    i as int,
                ).push(self.properties@[i as int]));
                assert forall|q: Property|
                    #[trigger] props@.contains(q) <==> (self.properties@.take(
                        i + 1 as int,
                    ).contains(q) && !t.negative_post_conditions@.contains(q)) by {
                    if props@.contains(q) {
                        if q == p {
                            assert(self.properties@.take(i + 1 as int)[i as int] == q);
                            assert(self.properties@.take(i + 1 as int).contains(q));
                        } else {
                            assert(prev.contains(q));
                            let w = choose|w: int|
                                0 <= w < self.properties@.take(i as int).len()
                                    && self.properties@.take(i as int)[w] == q;
                            assert(self.properties@.take(i + 1 as int)[w] == q);
                            assert(self.properties@.take(i + 1 as int).contains(q));
                        }
                    }
                    if self.properties@.take(i + 1 as int).contains(q)
                        && !t.negative_post_conditions@.contains(q) {
                        let w = choose|w: int|
                            0 <= w < self.properties@.take(i + 1 as int).len()
                                && #[trigger] self.properties@.take(i + 1 as int)[w] == q;
                        if w < i {
                            assert(self.properties@.take(i as int)[w] == q);
                            assert(self.properties@.take(i as int).contains(q));
                            assert(prev.contains(q));
                        } else {
                            assert(q == p);
                        }
                        assert(props@.contains(q));
                    }
                }
            }
            i += 1;
        }
        proof {
            assert(self.properties@.take(n as int) == self.properties@);
        }
        let m = t.post_conditions.len();
        let mut j: usize = 0;
        while j < m
            invariant
                j <= m,
                m == t.post_conditions@.len(),
                props.wf(),
                t == &ts.triples@[triple_id.0 as int],
                triple_id.0 < ts.triples@.len(),
                forall|q: Property|
                    #[trigger] props@.contains(q) <==> ((self.properties@.contains(q)
                        && !t.negative_post_conditions@.contains(q))
                        || t.post_conditions@.take(j as int).contains(q)),
            decreases m - j,
        {
            let p = t.post_conditions[j];
            let ghost prev = props@;
            props.insert(p);
            proof {
                assert(t.post_conditions@.take(j + 1 as int) == t.post_conditions@.take(
                    j as int,
                ).push(t.post_conditions@[j as int]));
                assert forall|q: Property|
                    #[trigger] props@.contains(q) <==> ((self.properties@.contains(q)
                        && !t.negative_post_conditions@.contains(q))
                        || t.post_conditions@.take(j + 1 as int).contains(q)) by {
                    if props@.contains(q) && q != p {
                        assert(prev.contains(q));
                        if t.post_conditions@.take(j as int).contains(q) {
                            let w = choose|w: int|
                                0 <= w < t.post_conditions@.take(j as int).len()
                                    && t.post_conditions@.take(j as int)[w] == q;
                            assert(t.post_conditions@.take(j + 1 as int)[w] == q);
                            assert(t.post_conditions@.take(j + 1 as int).contains(q));
                        }
                    }
                    if q == p {
                        assert(t.post_conditions@.take(j + 1 as int)[j as int] == q);
                        assert(t.post_conditions@.take(j + 1 as int).contains(q));
                        assert(props@.contains(q));
                    }
                    if t.post_conditions@.take(j + 1 as int).contains(q) && q != p {
                        let w = choose|w: int|
                            0 <= w < t.post_conditions@.take(j + 1 as int).len()
                                && #[trigger] t.post_conditions@.take(j + 1 as int)[w] == q;
                        if w < j {
                            assert(t.post_conditions@.take(j as int)[w] == q);
                            assert(t.post_conditions@.take(j as int).contains(q));
                            assert(prev.contains(q));
                            assert(props@.contains(q));
                        } else {
                            assert(q == p);
                        }
                    }
                    if self.properties@.contains(q) && !t.negative_post_conditions@.contains(q)
                        && q != p {
                        assert(prev.contains(q));
                        assert(props@.contains(q));
                    }
                }
            }
            j += 1;
        }
        proof {
            assert(t.post_conditions@.take(m as int) == t.post_conditions@);
            assert_sets_equal!(
                props@.to_set(),
                triple_fire(self.properties@.to_set(), ts.triples@[triple_id.0 as int]),
                q => {
                    if props@.to_set().contains(q) {
                        assert(props@.contains(q));
                        if self.properties@.contains(q)
                            && !t.negative_post_conditions@.contains(q) {
                            assert(self.properties@.to_set().contains(q));
                            assert(!t.negative_post_conditions@.to_set().contains(q));
                        } else {
                            assert(t.post_conditions@.contains(q));
                            assert(t.post_conditions@.to_set().contains(q));
                        }
                    }
                    if triple_fire(
                        self.properties@.to_set(),
                        ts.triples@[triple_id.0 as int],
                    ).contains(q) {
                        if t.post_conditions@.to_set().contains(q) {
                            assert(t.post_conditions@.contains(q));
                        } else {
                            assert(self.properties@.to_set().contains(q));
                            assert(self.properties@.contains(q));
                            assert(!t.negative_post_conditions@.to_set().contains(q));
                            assert(!t.negative_post_conditions@.contains(q));
                        }
                        assert(props@.contains(q));
                    }
                }
            );
        }
        let properties = irrelevant_property_gc(&props, ts);
        let tc = t.get_cost(cluster, ratios);
        let cost = sat_add_u128(self.cost, tc);
        Program { triple_ids, properties, cost, ecost: 0 }
    }
}

} // verus!
