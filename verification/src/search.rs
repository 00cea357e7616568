//! The search engine: best-first exploration of programs with dominance
//! pruning. A min-heap is keyed by accumulated plus heuristic cost; a cache
//! maps each active property set to the best cost that reached it, and a
//! partial plan whose property set was already reached at lower cost is
//! discarded. With the heuristic at zero the exploration is uniform-cost,
//! and the returned plan is proved cost-optimal: no sequence of triples
//! that runs from the seed to the finished state costs less. The search
//! polls a cooperative cancellation flag on every pop.

use vstd::prelude::*;
use core::sync::atomic::AtomicBool;
use core::sync::atomic::Ordering;
use crate::ids::HoareTripleId;
use crate::property::Property;
use crate::propset::PropSet;
use crate::triple::{IndexedHoareTripleSet, triple_cost};
use crate::program::{Program, run_plan, plan_cost, triple_available, triple_fire, gc_set,
    step_props, lemma_run_plan_snoc, lemma_plan_cost_prefix};
use crate::cost::{ClusterInfo, sat_add_u128, sat_add_spec};
use crate::sharding::Ratios;

verus! {

/// Why the search ended without a plan.
#[derive(Clone, Copy, PartialEq, Eq, Structural, Debug)]
pub enum PlanError {
    /// The whole state space was explored and no program reached the
    /// finished state.
    Infeasible,
    /// The search aborted before exhausting the state space: the
    /// cancellation flag was raised, or the (astronomically large)
    /// iteration budget ran out.
    Cancelled,
}

/// A heap entry: a program keyed by its total (accumulated plus heuristic)
/// cost.
pub struct ProgramHeapEntry {
    pub program: Program,
    pub total_cost: u128,
}

impl ProgramHeapEntry {
    pub fn new(program: Program) -> (r: ProgramHeapEntry)
        ensures
            r.program == program,
            r.total_cost as int == sat_add_spec(program.cost as int, program.ecost as int),
    {
        let total_cost = sat_add_u128(program.cost, program.ecost);
        ProgramHeapEntry { program, total_cost }
    }
}

/// A progress counter for long searches: counts iterations and says when a
/// report is due, every `iter_per_print` ticks. Emitting the report is the
/// caller's business.
pub struct Ticker {
    pub iter_count: usize,
    pub iter_per_print: usize,
}

impl Ticker {
    pub fn new(iter_per_print: usize) -> (r: Ticker)
        ensures
            r.iter_count == 0,
            r.iter_per_print == iter_per_print,
    {
        Ticker { iter_count: 0, iter_per_print }
    }

    /// Counts one iteration, and reports whether a progress line is due.
    /// The count holds at its maximum rather than wrapping.
    pub fn tick(&mut self) -> (report: bool)
        requires
            old(self).iter_per_print >= 1,
        ensures
            final(self).iter_per_print == old(self).iter_per_print,
            final(self).iter_count == if old(self).iter_count < usize::MAX {
                old(self).iter_count + 1
            } else {
                usize::MAX as int
            },
            report == (final(self).iter_count % final(self).iter_per_print == 0),
    {
        if self.iter_count < usize::MAX {
            self.iter_count += 1;
        }
        self.iter_count % self.iter_per_print == 0
    }
}

/// Removes and returns the cheapest entry; among equals, the one inserted
/// first, which makes the pop order deterministic.
fn heap_pop(heap: &mut Vec<ProgramHeapEntry>) -> (r: ProgramHeapEntry)
    requires
        old(heap)@.len() > 0,
    ensures
        exists|i: int|
            0 <= i < old(heap)@.len() && r == #[trigger] old(heap)@[i] && final(heap)@ == old(
                heap,
            )@.remove(i),
        forall|j: int|
            0 <= j < old(heap)@.len() ==> (#[trigger] old(heap)@[j]).total_cost >= r.total_cost,
{
    let mut min_i: usize = 0;
    let mut i: usize = 1;
    while i < heap.len()
        invariant
            heap@ == old(heap)@,
            heap@.len() > 0,
            min_i < i,
            i <= heap@.len(),
            forall|j: int|
                0 <= j < i ==> (#[trigger] heap@[j]).total_cost >= heap@[min_i as int].total_cost,
        decreases heap@.len() - i,
    {
        if heap[i].total_cost < heap[min_i].total_cost {
            min_i = i;
        }
        i += 1;
    }
    let ghost orig = heap@;
    let r = heap.remove(min_i);
    proof {
        assert(r == orig[min_i as int] && heap@ == orig.remove(min_i as int));
    }
    r
}

/// Looks up the best cost cached for a property set.
fn cache_get(cache: &Vec<(PropSet, u128)>, props: &PropSet) -> (r: Option<u128>)
    ensures
        match r {
            Some(c) => exists|e: int|
                0 <= e < cache@.len() && (#[trigger] cache@[e]).0@ == props@ && cache@[e].1 == c,
            None => forall|e: int| 0 <= e < cache@.len() ==> (#[trigger] cache@[e]).0@ != props@,
        },
{
    let mut e: usize = 0;
    while e < cache.len()
        invariant
            e <= cache@.len(),
            forall|x: int| 0 <= x < e ==> (#[trigger] cache@[x]).0@ != props@,
        decreases cache@.len() - e,
    {
        if cache[e].0.eq_set(props) {
            return Some(cache[e].1);
        }
        e += 1;
    }
    None
}

/// Records the best cost reaching a property set, overwriting an existing
/// entry for the same set and leaving every other entry alone; returns the
/// entry's position.
fn cache_put(cache: &mut Vec<(PropSet, u128)>, props: PropSet, cost: u128) -> (w: usize)
    ensures
        old(cache)@.len() <= final(cache)@.len() <= old(cache)@.len() + 1,
        w < final(cache)@.len(),
        final(cache)@[w as int].0@ == props@,
        final(cache)@[w as int].1 == cost,
        forall|j: int|
            0 <= j < final(cache)@.len() && j != w ==> j < old(cache)@.len()
                && #[trigger] final(cache)@[j] == old(cache)@[j],
{
    let ghost orig = cache@;
    let mut e: usize = 0;
    while e < cache.len()
        invariant
            e <= cache@.len(),
            cache@ == orig,
            orig == old(cache)@,
        decreases cache@.len() - e,
    {
        if cache[e].0.eq_set(&props) {
            cache.set(e, (props, cost));
            return e;
        }
        e += 1;
    }
    cache.push((props, cost));
    e
}

/// A program the search may hold: its plan runs from the seed set to its
/// property set, its cost is the plan's accumulated cost, its triple ids
/// exist, and the finishing triple (one whose post-conditions add the
/// finished marker) appears exactly when the program is complete, and then
/// only as the last step. When the seed set is already finished, only the
/// empty seed program exists.
pub open spec fn program_ok(
    ts: IndexedHoareTripleSet,
    init: Set<Property>,
    cluster: ClusterInfo,
    ratios: Ratios,
    p: Program,
) -> bool {
    &&& p.properties.wf()
    &&& run_plan(ts.triples@, init, p.triple_ids@) == Some(p.properties@.to_set())
    &&& p.cost as int == plan_cost(ts.triples@, p.triple_ids@, cluster, ratios)
    &&& p.ecost == 0
    &&& forall|j: int| 0 <= j < p.triple_ids@.len() ==> (#[trigger] p.triple_ids@[j]).0
        < ts.triples@.len()
    &&& if init.contains(Property::Finished) {
        p.triple_ids@.len() == 0
    } else {
        &&& (p.properties@.to_set().contains(Property::Finished) ==> p.triple_ids@.len() >= 1
            && ts.triples@[p.triple_ids@.last().0 as int].is_finishing())
        &&& (forall|j: int|
            0 <= j < p.triple_ids@.len() - 1 ==> !ts.triples@[(
            #[trigger] p.triple_ids@[j]).0 as int].is_finishing())
        &&& (!p.properties@.to_set().contains(Property::Finished) ==> (forall|j: int|
            0 <= j < p.triple_ids@.len() ==> !ts.triples@[(
            #[trigger] p.triple_ids@[j]).0 as int].is_finishing()))
    }
}

/// The plan runs from the seed to a set holding the finished marker.
pub open spec fn plan_reaches_finished(
    ts: IndexedHoareTripleSet,
    init: Set<Property>,
    ids: Seq<HoareTripleId>,
) -> bool {
    match run_plan(ts.triples@, init, ids) {
        Some(f) => f.contains(Property::Finished),
        None => false,
    }
}

/// The search has accounted for reaching property set `s` at cost `c`: a
/// heap entry holds it no more expensively, or it was expanded (closed) no
/// more expensively, or a complete program no more expensive was already
/// found.
pub open spec fn covered(
    heap: Seq<ProgramHeapEntry>,
    closed: Map<Set<Property>, int>,
    best: Option<Program>,
    s: Set<Property>,
    c: int,
) -> bool {
    ||| exists|h: int|
        0 <= h < heap.len() && (#[trigger] heap[h]).program.properties@.to_set() == s
            && heap[h].program.cost as int <= c
    ||| (closed.contains_key(s) && closed[s] <= c)
    ||| match best {
        Some(b) => b.cost as int <= c,
        None => false,
    }
}

/// Every expanded state has every successor accounted for: firing any
/// available triple from it is covered at the expansion cost plus the
/// triple's cost.
pub open spec fn closed_exp_inv(
    ts: IndexedHoareTripleSet,
    cluster: ClusterInfo,
    ratios: Ratios,
    heap: Seq<ProgramHeapEntry>,
    closed: Map<Set<Property>, int>,
    best: Option<Program>,
) -> bool {
    forall|s: Set<Property>, id: HoareTripleId|
        #![trigger closed.contains_key(s), ts.triples@[id.0 as int]]
        closed.contains_key(s) && id.0 < ts.triples@.len() && triple_available(
            s,
            ts.triples@[id.0 as int],
        ) ==> covered(
            heap,
            closed,
            best,
            step_props(s, ts.triples@, id),
            sat_add_spec(closed[s], triple_cost(ts.triples@[id.0 as int], cluster, ratios)),
        )
}

/// Every cached property set is accounted for at its cached cost.
pub open spec fn cache_cov_inv(
    heap: Seq<ProgramHeapEntry>,
    closed: Map<Set<Property>, int>,
    best: Option<Program>,
    cache: Seq<(PropSet, u128)>,
) -> bool {
    forall|e: int|
        0 <= e < cache.len() ==> covered(
            heap,
            closed,
            best,
            (#[trigger] cache[e]).0@.to_set(),
            cache[e].1 as int,
        )
}

/// Only incomplete programs are ever expanded.
pub open spec fn closed_nf_inv(closed: Map<Set<Property>, int>) -> bool {
    forall|s: Set<Property>| #[trigger] closed.contains_key(s) ==> !s.contains(Property::Finished)
}

/// Being accounted for at some cost means being accounted for at any
/// larger one.
proof fn lemma_covered_mono(
    heap: Seq<ProgramHeapEntry>,
    closed: Map<Set<Property>, int>,
    best: Option<Program>,
    s: Set<Property>,
    c1: int,
    c2: int,
)
    requires
        covered(heap, closed, best, s, c1),
        c1 <= c2,
    ensures
        covered(heap, closed, best, s, c2),
{
    if exists|h: int|
        0 <= h < heap.len() && (#[trigger] heap[h]).program.properties@.to_set() == s
            && heap[h].program.cost as int <= c1 {
        let h = choose|h: int|
            0 <= h < heap.len() && (#[trigger] heap[h]).program.properties@.to_set() == s
                && heap[h].program.cost as int <= c1;
        assert(0 <= h < heap.len() && (heap[h]).program.properties@.to_set() == s
            && heap[h].program.cost as int <= c2);
    }
}

/// Coverage survives appending heap entries.
proof fn lemma_covered_append(
    heap: Seq<ProgramHeapEntry>,
    heap2: Seq<ProgramHeapEntry>,
    closed: Map<Set<Property>, int>,
    best: Option<Program>,
    s: Set<Property>,
    c: int,
)
    requires
        covered(heap, closed, best, s, c),
        heap.len() <= heap2.len(),
        forall|j: int| 0 <= j < heap.len() ==> #[trigger] heap2[j] == heap[j],
    ensures
        covered(heap2, closed, best, s, c),
{
    if exists|h: int|
        0 <= h < heap.len() && (#[trigger] heap[h]).program.properties@.to_set() == s
            && heap[h].program.cost as int <= c {
        let h = choose|h: int|
            0 <= h < heap.len() && (#[trigger] heap[h]).program.properties@.to_set() == s
                && heap[h].program.cost as int <= c;
        assert(0 <= h < heap2.len() && (heap2[h]).program.properties@.to_set() == s
            && heap2[h].program.cost as int <= c);
    }
}

/// Coverage survives one step of the main loop: the popped entry is
/// removed, the closed map only gains keys or lowers values, the best
/// program only improves, and the popped entry's own state stays covered.
proof fn lemma_covered_step(
    pre_heap: Seq<ProgramHeapEntry>,
    i: int,
    heap2: Seq<ProgramHeapEntry>,
    closed: Map<Set<Property>, int>,
    closed2: Map<Set<Property>, int>,
    best: Option<Program>,
    best2: Option<Program>,
    s: Set<Property>,
    c: int,
)
    requires
        0 <= i < pre_heap.len(),
        forall|j: int|
            0 <= j < pre_heap.len() && j != i ==> exists|h2: int|
                0 <= h2 < heap2.len() && heap2[h2] == #[trigger] pre_heap[j],
        forall|sk: Set<Property>|
            #[trigger] closed.contains_key(sk) ==> closed2.contains_key(sk) && closed2[sk]
                <= closed[sk],
        match best {
            Some(b) => match best2 {
                Some(b2) => b2.cost <= b.cost,
                None => false,
            },
            None => true,
        },
        covered(
            heap2,
            closed2,
            best2,
            pre_heap[i].program.properties@.to_set(),
            pre_heap[i].program.cost as int,
        ),
        covered(pre_heap, closed, best, s, c),
    ensures
        covered(heap2, closed2, best2, s, c),
{
    if exists|h: int|
        0 <= h < pre_heap.len() && (#[trigger] pre_heap[h]).program.properties@.to_set() == s
            && pre_heap[h].program.cost as int <= c {
        let h = choose|h: int|
            0 <= h < pre_heap.len() && (#[trigger] pre_heap[h]).program.properties@.to_set() == s
                && pre_heap[h].program.cost as int <= c;
        if h == i {
            lemma_covered_mono(heap2, closed2, best2, s, pre_heap[i].program.cost as int, c);
        } else {
            let h2 = choose|h2: int| 0 <= h2 < heap2.len() && #[trigger] heap2[h2] == pre_heap[h];
            assert(0 <= h2 < heap2.len() && (heap2[h2]).program.properties@.to_set() == s
                && heap2[h2].program.cost as int <= c);
        }
    }
}

/// Saturating addition is monotone in its left argument.
proof fn lemma_sat_add_mono(a: int, b: int, t: int)
    requires
        a <= b,
    ensures
        sat_add_spec(a, t) <= sat_add_spec(b, t),
{
}

/// A valid plan's prefix runs, its next triple is valid and available, and
/// one more step of the prefix lands on the stepped set.
proof fn lemma_run_plan_prefix_step(
    triples: Seq<crate::triple::HoareTriple>,
    p0: Set<Property>,
    ids: Seq<HoareTripleId>,
    k: int,
)
    requires
        run_plan(triples, p0, ids) is Some,
        0 <= k < ids.len(),
    ensures
        run_plan(triples, p0, ids.take(k)) is Some,
        ids[k].0 < triples.len(),
        triple_available(
            run_plan(triples, p0, ids.take(k)).unwrap(),
            triples[ids[k].0 as int],
        ),
        run_plan(triples, p0, ids.take(k + 1)) == Some(
            step_props(run_plan(triples, p0, ids.take(k)).unwrap(), triples, ids[k]),
        ),
    decreases k,
{
    reveal_with_fuel(run_plan, 3);
    if k == 0 {
        assert(ids.take(0) =~= Seq::<HoareTripleId>::empty());
        assert(ids.take(1) =~= seq![ids[0]]);
        assert(ids.take(1)[0] == ids[0]);
        assert(ids.take(1).drop_first() =~= Seq::<HoareTripleId>::empty());
    } else {
        let p1 = step_props(p0, triples, ids[0]);
        assert(run_plan(triples, p1, ids.drop_first()) is Some);
        lemma_run_plan_prefix_step(triples, p1, ids.drop_first(), k - 1);
        assert(ids.drop_first()[k - 1] == ids[k]);
        assert(ids.take(k)[0] == ids[0]);
        assert(ids.take(k).drop_first() =~= ids.drop_first().take(k - 1));
        assert(ids.take(k + 1)[0] == ids[0]);
        assert(ids.take(k + 1).drop_first() =~= ids.drop_first().take(k));
        assert(run_plan(triples, p0, ids.take(k)) == run_plan(
            triples,
            p1,
            ids.drop_first().take(k - 1),
        ));
        assert(run_plan(triples, p0, ids.take(k + 1)) == run_plan(
            triples,
            p1,
            ids.drop_first().take(k),
        ));
    }
}

/// One more prefix step accumulates exactly the stepped triple's cost.
proof fn lemma_plan_cost_take_snoc(
    triples: Seq<crate::triple::HoareTriple>,
    ids: Seq<HoareTripleId>,
    k: int,
    cluster: ClusterInfo,
    ratios: Ratios,
)
    requires
        0 <= k < ids.len(),
        ids[k].0 < triples.len(),
    ensures
        plan_cost(triples, ids.take(k + 1), cluster, ratios) == sat_add_spec(
            plan_cost(triples, ids.take(k), cluster, ratios),
            triple_cost(triples[ids[k].0 as int], cluster, ratios),
        ),
{
    assert(ids.take(k + 1).drop_last() =~= ids.take(k));
    assert(ids.take(k + 1).last() == ids[k]);
}

/// With the heap empty, every finishing plan leads to the best program:
/// walking the plan, each prefix state is either closed (and its expansion
/// covers the next prefix) or already beaten by the best program, whose
/// cost is then a lower bound for the whole plan.
proof fn lemma_empty_frontier(
    ts: IndexedHoareTripleSet,
    cluster: ClusterInfo,
    ratios: Ratios,
    heap: Seq<ProgramHeapEntry>,
    closed: Map<Set<Property>, int>,
    best: Option<Program>,
    init: Set<Property>,
    ids: Seq<HoareTripleId>,
    n: int,
)
    requires
        cluster.wf(),
        ratios.wf(),
        heap.len() == 0,
        closed_exp_inv(ts, cluster, ratios, heap, closed, best),
        closed_nf_inv(closed),
        plan_reaches_finished(ts, init, ids),
        0 <= n <= ids.len(),
        run_plan(ts.triples@, init, ids.take(n)) is Some,
        covered(
            heap,
            closed,
            best,
            run_plan(ts.triples@, init, ids.take(n)).unwrap(),
            plan_cost(ts.triples@, ids.take(n), cluster, ratios),
        ),
    ensures
        match best {
            Some(b) => b.cost as int <= plan_cost(ts.triples@, ids, cluster, ratios),
            None => false,
        },
    decreases ids.len() - n,
{
    let sn = run_plan(ts.triples@, init, ids.take(n)).unwrap();
    let cn = plan_cost(ts.triples@, ids.take(n), cluster, ratios);
    match best {
        Some(b) => {
            if b.cost as int <= cn {
                lemma_plan_cost_prefix(ts.triples@, ids, n, cluster, ratios);
                return ;
            }
        },
        None => {},
    }
    // no heap entry and no cheap best: the prefix state must be closed
    assert(closed.contains_key(sn) && closed[sn] <= cn);
    if n == ids.len() {
        assert(ids.take(n) =~= ids);
        assert(sn.contains(Property::Finished));
        assert(false);
    }
    lemma_run_plan_prefix_step(ts.triples@, init, ids, n);
    let id = ids[n];
    let tc = triple_cost(ts.triples@[id.0 as int], cluster, ratios);
    assert(covered(heap, closed, best, step_props(sn, ts.triples@, id), sat_add_spec(
        closed[sn],
        tc,
    )));
    lemma_sat_add_mono(closed[sn], cn, tc);
    lemma_plan_cost_take_snoc(ts.triples@, ids, n, cluster, ratios);
    lemma_covered_mono(
        heap,
        closed,
        best,
        step_props(sn, ts.triples@, id),
        sat_add_spec(closed[sn], tc),
        plan_cost(ts.triples@, ids.take(n + 1), cluster, ratios),
    );
    lemma_empty_frontier(ts, cluster, ratios, heap, closed, best, init, ids, n + 1);
}

/// Best-first search for the cheapest program that reaches the finished
/// state, with dominance pruning: among partial plans with the same active
/// property set only the cheapest survives; ties break towards the plan
/// found first, so the result is deterministic. Any plan returned runs
/// exactly as listed from the seed properties, costs exactly what the cost
/// model says, fires exactly one finishing triple (as its last step), and
/// is cost-optimal: no triple sequence running from the seed to a finished
/// set costs less. The infeasibility error comes only when no triple
/// sequence reaches the finished state at all. The search polls the
/// cancellation flag once per pop and aborts with the distinct abort error
/// when the flag is raised; what the flag reads is up to the environment,
/// so nothing more is promised in that direction. A seed that is already
/// finished is returned as the empty plan, never as infeasible.
pub fn a_star(
    triple_set: &IndexedHoareTripleSet,
    initial_properties: &Vec<Property>,
    cluster: &ClusterInfo,
    ratios: &Ratios,
    cancel: &AtomicBool,
) -> (r: Result<Program, PlanError>)
    requires
        triple_set.wf(),
        cluster.wf(),
        ratios.wf(),
        cluster.device_flops@.len() == ratios.nums@.len(),
    ensures
        match r {
            Ok(p) => {
                &&& program_ok(*triple_set, initial_properties@.to_set(), *cluster, *ratios, p)
                &&& p.properties@.to_set().contains(Property::Finished)
                &&& forall|ids: Seq<HoareTripleId>|
                    plan_reaches_finished(*triple_set, initial_properties@.to_set(), ids)
                        ==> p.cost as int <= plan_cost(triple_set.triples@, ids, *cluster, *ratios)
            },
            Err(PlanError::Infeasible) => forall|ids: Seq<HoareTripleId>|
                !plan_reaches_finished(*triple_set, initial_properties@.to_set(), ids),
            Err(PlanError::Cancelled) => true,
        },
        initial_properties@.to_set().contains(Property::Finished) ==> r != Result::<
            Program,
            PlanError,
        >::Err(PlanError::Infeasible),
{
    let ghost init = initial_properties@.to_set();
    let ghost ts = *triple_set;
    let mut heap: Vec<ProgramHeapEntry> = Vec::new();
    let mut best_program: Option<Program> = None;
    let mut cache: Vec<(PropSet, u128)> = Vec::new();
    let ghost mut closed: Map<Set<Property>, int> = Map::empty();

    let seed = Program::empty(initial_properties);
    proof {
        assert(run_plan(ts.triples@, init, seed.triple_ids@) == Some(init));
        assert(program_ok(ts, init, *cluster, *ratios, seed));
    }
    let _ = cache_put(&mut cache, seed.properties.clone_set(), 0);
    heap.push(ProgramHeapEntry::new(seed));
    proof {
        assert(heap@[0].program.properties@.to_set() == init && heap@[0].program.cost as int
            <= 0);
        assert(covered(heap@, closed, best_program, init, 0));
    }

    let ghost init_finished = init.contains(Property::Finished);
    // an effectively unbounded iteration budget; it bounds the loop with a
    // decreasing measure, and running it out aborts rather than misreports
    let mut fuel: u64 = u64::MAX;
    while fuel > 0 && heap.len() > 0
        invariant
            triple_set.wf(),
            cluster.wf(),
            ratios.wf(),
            cluster.device_flops@.len() == ratios.nums@.len(),
            ts == *triple_set,
            init == initial_properties@.to_set(),
            init_finished == init.contains(Property::Finished),
            forall|h: int|
                0 <= h < heap@.len() ==> program_ok(
                    ts,
                    init,
                    *cluster,
                    *ratios,
                    (#[trigger] heap@[h]).program,
                ),
            match best_program {
                Some(b) => program_ok(ts, init, *cluster, *ratios, b)
                    && b.properties@.to_set().contains(Property::Finished),
                None => true,
            },
            covered(heap@, closed, best_program, init, 0),
            cache_cov_inv(heap@, closed, best_program, cache@),
            closed_exp_inv(ts, *cluster, *ratios, heap@, closed, best_program),
            closed_nf_inv(closed),
            init_finished ==> match best_program {
                Some(b) => heap@.len() == 0,
                None => fuel == u64::MAX && heap@.len() == 1 && heap@[0].program.cost == 0
                    && heap@[0].program.properties@.to_set().contains(Property::Finished),
            },
        decreases fuel,
    {
        fuel = fuel - 1;
        let ghost pre_heap = heap@;
        let ghost pre_best = best_program;
        let entry = heap_pop(&mut heap);
        let program = entry.program;
        let ghost i = choose|i: int|
            0 <= i < pre_heap.len() && entry == #[trigger] pre_heap[i] && heap@ == pre_heap.remove(
                i,
            );
        let ghost pp = program.properties@.to_set();
        proof {
            assert(program_ok(ts, init, *cluster, *ratios, program));
            assert forall|j: int| 0 <= j < pre_heap.len() && j != i implies exists|h2: int|
                0 <= h2 < heap@.len() && heap@[h2] == #[trigger] pre_heap[j] by {
                if j < i {
                    assert(heap@[j] == pre_heap[j]);
                } else {
                    assert(heap@[j - 1] == pre_heap[j]);
                }
            }
            assert forall|h: int|
                0 <= h < heap@.len() implies program_ok(
                ts,
                init,
                *cluster,
                *ratios,
                (#[trigger] heap@[h]).program,
            ) by {
                if h < i {
                    assert(heap@[h] == pre_heap[h]);
                } else {
                    assert(heap@[h] == pre_heap[h + 1]);
                }
            }
        }
        if cancel.load(Ordering::Relaxed) {
            // cooperative cancellation: best-effort, no partial plan
            return Err(PlanError::Cancelled);
        }
        let skip_by_best = match &best_program {
            Some(b) => b.cost < program.cost,
            None => false,
        };
        let cached_opt = if skip_by_best {
            None
        } else {
            cache_get(&cache, &program.properties)
        };
        let skip_by_cache = match cached_opt {
            // a cheaper program has already reached this property set
            Some(c) => c < program.cost,
            None => false,
        };
        if skip_by_best || skip_by_cache {
            proof {
                if init_finished {
                    assert(pre_heap.len() == 1);
                    assert(program == pre_heap[0].program);
                    assert(program.cost == 0);
                    assert(false);
                }
                // the discarded program's state stays covered: by the best
                // program, or by the cheaper cached route, whose witness is
                // not the popped entry
                if skip_by_best {
                    assert(covered(heap@, closed, best_program, pp, program.cost as int));
                } else {
                    let c = cached_opt.unwrap();
                    let e = choose|e: int|
                        0 <= e < cache@.len() && (#[trigger] cache@[e]).0@ == program.properties@
                            && cache@[e].1 == c;
                    assert(cache@[e].0@.to_set() == pp);
                    assert(covered(pre_heap, closed, pre_best, pp, c as int));
                    if exists|h: int|
                        0 <= h < pre_heap.len() && (
                        #[trigger] pre_heap[h]).program.properties@.to_set() == pp
                            && pre_heap[h].program.cost as int <= c as int {
                        let h = choose|h: int|
                            0 <= h < pre_heap.len() && (
                            #[trigger] pre_heap[h]).program.properties@.to_set() == pp
                                && pre_heap[h].program.cost as int <= c as int;
                        assert(h != i);
                        let h2 = choose|h2: int|
                            0 <= h2 < heap@.len() && #[trigger] heap@[h2] == pre_heap[h];
                        assert(covered(heap@, closed, best_program, pp, c as int));
                    }
                    lemma_covered_mono(heap@, closed, best_program, pp, c as int,
                        program.cost as int);
                }
                assert forall|e: int|
                    0 <= e < cache@.len() implies covered(
                    heap@,
                    closed,
                    best_program,
                    (#[trigger] cache@[e]).0@.to_set(),
                    cache@[e].1 as int,
                ) by {
                    lemma_covered_step(pre_heap, i, heap@, closed, closed, pre_best, best_program,
                        cache@[e].0@.to_set(), cache@[e].1 as int);
                }
                assert forall|s: Set<Property>, id: HoareTripleId|
                    closed.contains_key(s) && id.0 < ts.triples@.len() && triple_available(
                        s,
                        ts.triples@[id.0 as int],
                    ) implies covered(
                    heap@,
                    closed,
                    best_program,
                    step_props(s, ts.triples@, id),
                    sat_add_spec(
                        closed[s],
                        triple_cost(ts.triples@[id.0 as int], *cluster, *ratios),
                    ),
                ) by {
                    lemma_covered_step(pre_heap, i, heap@, closed, closed, pre_best, best_program,
                        step_props(s, ts.triples@, id), sat_add_spec(
                        closed[s],
                        triple_cost(ts.triples@[id.0 as int], *cluster, *ratios),
                    ));
                }
                lemma_covered_step(pre_heap, i, heap@, closed, closed, pre_best, best_program,
                    init, 0);
            }
        } else if program.is_complete() {
            let replace = match &best_program {
                Some(b) => b.cost > program.cost,
                None => true,
            };
            let ghost pcost = program.cost;
            if replace {
                best_program = Some(program);
            } else {
                proof {
                    if init_finished {
                        assert(pre_heap.len() == 0);
                        assert(false);
                    }
                }
            }
            proof {
                // the popped complete program is now beaten by the best
                assert(match best_program {
                    Some(b) => b.cost <= pcost,
                    None => false,
                });
                assert(covered(heap@, closed, best_program, pp, pcost as int));
                assert forall|e: int|
                    0 <= e < cache@.len() implies covered(
                    heap@,
                    closed,
                    best_program,
                    (#[trigger] cache@[e]).0@.to_set(),
                    cache@[e].1 as int,
                ) by {
                    lemma_covered_step(pre_heap, i, heap@, closed, closed, pre_best, best_program,
                        cache@[e].0@.to_set(), cache@[e].1 as int);
                }
                assert forall|s: Set<Property>, id: HoareTripleId|
                    closed.contains_key(s) && id.0 < ts.triples@.len() && triple_available(
                        s,
                        ts.triples@[id.0 as int],
                    ) implies covered(
                    heap@,
                    closed,
                    best_program,
                    step_props(s, ts.triples@, id),
                    sat_add_spec(
                        closed[s],
                        triple_cost(ts.triples@[id.0 as int], *cluster, *ratios),
                    ),
                ) by {
                    lemma_covered_step(pre_heap, i, heap@, closed, closed, pre_best, best_program,
                        step_props(s, ts.triples@, id), sat_add_spec(
                        closed[s],
                        triple_cost(ts.triples@[id.0 as int], *cluster, *ratios),
                    ));
                }
                lemma_covered_step(pre_heap, i, heap@, closed, closed, pre_best, best_program,
                    init, 0);
            }
        } else {
            proof {
                if init_finished {
                    assert(pre_heap.len() == 1);
                    assert(program == pre_heap[0].program);
                    assert(false);
                }
            }
            let ghost pre_closed = closed;
            let ghost fresh = !(closed.contains_key(pp) && closed[pp] <= program.cost as int);
            proof {
                closed = if closed.contains_key(pp) && closed[pp] <= program.cost as int {
                    closed
                } else {
                    closed.insert(pp, program.cost as int)
                };
                assert(closed.contains_key(pp) && closed[pp] <= program.cost as int);
                assert forall|sk: Set<Property>|
                    #[trigger] pre_closed.contains_key(sk) implies closed.contains_key(sk)
                    && closed[sk] <= pre_closed[sk] by {}
                // the popped program's state is now closed
                assert(covered(heap@, closed, best_program, pp, program.cost as int));
                assert forall|e: int|
                    0 <= e < cache@.len() implies covered(
                    heap@,
                    closed,
                    best_program,
                    (#[trigger] cache@[e]).0@.to_set(),
                    cache@[e].1 as int,
                ) by {
                    lemma_covered_step(pre_heap, i, heap@, pre_closed, closed, pre_best,
                        best_program, cache@[e].0@.to_set(), cache@[e].1 as int);
                }
                assert forall|s: Set<Property>, id: HoareTripleId|
                    pre_closed.contains_key(s) && id.0 < ts.triples@.len() && triple_available(
                        s,
                        ts.triples@[id.0 as int],
                    ) implies covered(
                    heap@,
                    closed,
                    best_program,
                    step_props(s, ts.triples@, id),
                    sat_add_spec(
                        pre_closed[s],
                        triple_cost(ts.triples@[id.0 as int], *cluster, *ratios),
                    ),
                ) by {
                    lemma_covered_step(pre_heap, i, heap@, pre_closed, closed, pre_best,
                        best_program, step_props(s, ts.triples@, id), sat_add_spec(
                        pre_closed[s],
                        triple_cost(ts.triples@[id.0 as int], *cluster, *ratios),
                    ));
                }
                lemma_covered_step(pre_heap, i, heap@, pre_closed, closed, pre_best, best_program,
                    init, 0);
            }
            let available = program.find_available_triples(triple_set);
            let mut a: usize = 0;
            while a < available.len()
                invariant
                    triple_set.wf(),
                    cluster.wf(),
                    ratios.wf(),
                    cluster.device_flops@.len() == ratios.nums@.len(),
                    ts == *triple_set,
                    init == initial_properties@.to_set(),
                    !init.contains(Property::Finished),
                    a <= available@.len(),
                    program_ok(ts, init, *cluster, *ratios, program),
                    !program.properties@.to_set().contains(Property::Finished),
                    program.properties.wf(),
                    pp == program.properties@.to_set(),
                    closed.contains_key(pp),
                    closed[pp] <= program.cost as int,
                    fresh ==> closed[pp] == program.cost as int,
                    closed_nf_inv(closed),
                    forall|id: HoareTripleId|
                        #[trigger] available@.contains(id) <==> (id.0 < ts.triples@.len()
                            && triple_available(
                            program.properties@.to_set(),
                            ts.triples@[id.0 as int],
                        )),
                    forall|h: int|
                        0 <= h < heap@.len() ==> program_ok(
                            ts,
                            init,
                            *cluster,
                            *ratios,
                            (#[trigger] heap@[h]).program,
                        ),
                    match best_program {
                        Some(b) => program_ok(ts, init, *cluster, *ratios, b)
                            && b.properties@.to_set().contains(Property::Finished),
                        None => true,
                    },
                    covered(heap@, closed, best_program, init, 0),
                    cache_cov_inv(heap@, closed, best_program, cache@),
                    forall|s: Set<Property>, id: HoareTripleId|
                        #![trigger closed.contains_key(s), ts.triples@[id.0 as int]]
                        closed.contains_key(s) && (s != pp || !fresh) && id.0
                            < ts.triples@.len() && triple_available(s, ts.triples@[id.0 as int])
                            ==> covered(
                            heap@,
                            closed,
                            best_program,
                            step_props(s, ts.triples@, id),
                            sat_add_spec(
                                closed[s],
                                triple_cost(ts.triples@[id.0 as int], *cluster, *ratios),
                            ),
                        ),
                    forall|x: int|
                        0 <= x < a ==> covered(
                            heap@,
                            closed,
                            best_program,
                            step_props(pp, ts.triples@, #[trigger] available@[x]),
                            sat_add_spec(
                                program.cost as int,
                                triple_cost(
                                    ts.triples@[available@[x].0 as int],
                                    *cluster,
                                    *ratios,
                                ),
                            ),
                        ),
                decreases available@.len() - a,
            {
                let id = available[a];
                proof {
                    assert(available@.contains(available@[a as int]));
                }
                let new_program = program.with_a_new_triple(id, triple_set, cluster, ratios);
                proof {
                    lemma_run_plan_snoc(
                        ts.triples@,
                        init,
                        program.triple_ids@,
                        id,
                        program.properties@.to_set(),
                    );
                    assert(new_program.triple_ids@.drop_last() == program.triple_ids@);
                    assert(new_program.triple_ids@.last() == id);
                    // the extension is finished exactly when the fired
                    // triple is the finishing one
                    let fired = triple_fire(
                        program.properties@.to_set(),
                        ts.triples@[id.0 as int],
                    );
                    let t = ts.triples@[id.0 as int];
                    assert(fired.contains(Property::Finished) == t.is_finishing()) by {
                        if t.post_conditions@.to_set().contains(Property::Finished) {
                            assert(t.post_conditions@.contains(Property::Finished));
                        }
                        if t.post_conditions@.contains(Property::Finished) {
                            assert(t.post_conditions@.to_set().contains(Property::Finished));
                        }
                    }
                    assert(new_program.properties@.to_set().contains(Property::Finished)
                        == t.is_finishing()) by {
                        assert(new_program.properties@.to_set() == gc_set(fired, ts.triples@));
                        if fired.contains(Property::Finished) {
                            assert(gc_set(fired, ts.triples@).contains(Property::Finished));
                        }
                        if gc_set(fired, ts.triples@).contains(Property::Finished) {
                            assert(fired.contains(Property::Finished));
                        }
                    }
                    assert(program_ok(ts, init, *cluster, *ratios, new_program)) by {
                        assert forall|j: int|
                            0 <= j < new_program.triple_ids@.len() - 1 implies !ts.triples@[(
                        #[trigger] new_program.triple_ids@[j]).0 as int].is_finishing() by {
                            assert(new_program.triple_ids@[j] == program.triple_ids@[j]);
                        }
                        assert forall|j: int|
                            0 <= j < new_program.triple_ids@.len() implies (
                        #[trigger] new_program.triple_ids@[j]).0 < ts.triples@.len() by {
                            if j < new_program.triple_ids@.len() - 1 {
                                assert(new_program.triple_ids@[j] == program.triple_ids@[j]);
                            } else {
                                assert(new_program.triple_ids@[j] == id);
                            }
                        }
                    }
                }
                let dominated = match cache_get(&cache, &new_program.properties) {
                    Some(c) => c <= new_program.cost,
                    None => false,
                };
                let ghost mid_heap = heap@;
                let ghost mid_cache = cache@;
                let ghost np = new_program.properties@.to_set();
                let ghost ncost = new_program.cost as int;
                let mut slot: usize = 0;
                if !dominated {
                    slot = cache_put(
                        &mut cache,
                        new_program.properties.clone_set(),
                        new_program.cost,
                    );
                    heap.push(ProgramHeapEntry::new(new_program));
                }
                proof {
                    // the new successor's state is accounted for, and every
                    // previously accounted state still is
                    if !dominated {
                        let h = heap@.len() - 1;
                        assert(heap@[h].program.properties@.to_set() == np
                            && heap@[h].program.cost as int <= ncost);
                        assert(covered(heap@, closed, best_program, np, ncost));
                    } else {
                        let e = choose|e: int|
                            0 <= e < mid_cache.len() && (#[trigger] mid_cache[e]).0@
                                == new_program.properties@ && mid_cache[e].1 <= new_program.cost;
                        assert(covered(mid_heap, closed, best_program, mid_cache[e].0@.to_set(),
                            mid_cache[e].1 as int));
                        assert(mid_cache[e].0@.to_set() == np);
                        lemma_covered_mono(mid_heap, closed, best_program, np,
                            mid_cache[e].1 as int, ncost);
                        assert(covered(heap@, closed, best_program, np, ncost));
                    }
                    assert forall|j: int| 0 <= j < mid_heap.len() implies #[trigger] heap@[j]
                        == mid_heap[j] by {}
                    assert forall|h: int|
                        0 <= h < heap@.len() implies program_ok(
                        ts,
                        init,
                        *cluster,
                        *ratios,
                        (#[trigger] heap@[h]).program,
                    ) by {
                        if h < mid_heap.len() {
                            assert(heap@[h] == mid_heap[h]);
                        }
                    }
                    lemma_covered_append(mid_heap, heap@, closed, best_program, init, 0);
                    assert forall|e: int|
                        0 <= e < cache@.len() implies covered(
                        heap@,
                        closed,
                        best_program,
                        (#[trigger] cache@[e]).0@.to_set(),
                        cache@[e].1 as int,
                    ) by {
                        if dominated {
                            lemma_covered_append(mid_heap, heap@, closed, best_program,
                                cache@[e].0@.to_set(), cache@[e].1 as int);
                        } else {
                            if e == slot {
                                assert(cache@[e].0@.to_set() == np && cache@[e].1 as int
                                    == ncost);
                            } else {
                                assert(cache@[e] == mid_cache[e]);
                                lemma_covered_append(mid_heap, heap@, closed, best_program,
                                    cache@[e].0@.to_set(), cache@[e].1 as int);
                            }
                        }
                    }
                    assert forall|s: Set<Property>, id2: HoareTripleId|
                        closed.contains_key(s) && (s != pp || !fresh) && id2.0
                            < ts.triples@.len() && triple_available(s, ts.triples@[id2.0 as int])
                            implies covered(
                        heap@,
                        closed,
                        best_program,
                        step_props(s, ts.triples@, id2),
                        sat_add_spec(
                            closed[s],
                            triple_cost(ts.triples@[id2.0 as int], *cluster, *ratios),
                        ),
                    ) by {
                        lemma_covered_append(mid_heap, heap@, closed, best_program,
                            step_props(s, ts.triples@, id2), sat_add_spec(
                            closed[s],
                            triple_cost(ts.triples@[id2.0 as int], *cluster, *ratios),
                        ));
                    }
                    assert forall|x: int|
                        0 <= x < a + 1 implies covered(
                        heap@,
                        closed,
                        best_program,
                        step_props(pp, ts.triples@, #[trigger] available@[x]),
                        sat_add_spec(
                            program.cost as int,
                            triple_cost(ts.triples@[available@[x].0 as int], *cluster, *ratios),
                        ),
                    ) by {
                        if x < a {
                            lemma_covered_append(mid_heap, heap@, closed, best_program,
                                step_props(pp, ts.triples@, available@[x]), sat_add_spec(
                                program.cost as int,
                                triple_cost(ts.triples@[available@[x].0 as int], *cluster,
                                    *ratios),
                            ));
                        } else {
                            assert(available@[x] == id);
                            assert(np == step_props(pp, ts.triples@, id));
                            assert(ncost == sat_add_spec(
                                program.cost as int,
                                triple_cost(ts.triples@[id.0 as int], *cluster, *ratios),
                            ));
                        }
                    }
                }
                a += 1;
            }
            proof {
                // all successors of the newly closed state are accounted
                // for, so its expansion obligation holds in full
                assert forall|s: Set<Property>, id: HoareTripleId|
                    closed.contains_key(s) && id.0 < ts.triples@.len() && triple_available(
                        s,
                        ts.triples@[id.0 as int],
                    ) implies covered(
                    heap@,
                    closed,
                    best_program,
                    step_props(s, ts.triples@, id),
                    sat_add_spec(
                        closed[s],
                        triple_cost(ts.triples@[id.0 as int], *cluster, *ratios),
                    ),
                ) by {
                    if s == pp && fresh {
                        assert(available@.contains(id));
                        let x = choose|x: int|
                            0 <= x < available@.len() && #[trigger] available@[x] == id;
                        assert(covered(
                            heap@,
                            closed,
                            best_program,
                            step_props(pp, ts.triples@, available@[x]),
                            sat_add_spec(
                                program.cost as int,
                                triple_cost(ts.triples@[available@[x].0 as int], *cluster,
                                    *ratios),
                            ),
                        ));
                    }
                }
            }
        }
    }
    if heap.len() > 0 {
        // the iteration budget ran out with work remaining: abort rather
        // than claim anything about the unexplored space
        return Err(PlanError::Cancelled);
    }
    proof {
        assert forall|ids: Seq<HoareTripleId>|
            plan_reaches_finished(ts, init, ids) implies match best_program {
            Some(b) => b.cost as int <= plan_cost(ts.triples@, ids, *cluster, *ratios),
            None => false,
        } by {
            assert(ids.take(0) =~= Seq::<HoareTripleId>::empty());
            assert(run_plan(ts.triples@, init, ids.take(0)) == Some(init));
            assert(plan_cost(ts.triples@, ids.take(0), *cluster, *ratios) == 0);
            lemma_empty_frontier(ts, *cluster, *ratios, heap@, closed, best_program, init, ids,
                0);
        }
    }
    match best_program {
        Some(p) => Ok(p),
        None => {
            proof {
                if init_finished {
                    assert(false);
                }
            }
            Err(PlanError::Infeasible)
        },
    }
}

} // verus!
