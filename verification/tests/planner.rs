//! End-to-end planning scenarios: small graphs through synthesis, indexing
//! and the best-first search, checking the returned plans triple by triple.

use std::sync::atomic::AtomicBool;
use std::sync::atomic::Ordering;

use hetspmd::ids::{HoareTripleId, OpId, ParameterId, PlaceholderId};
use hetspmd::property::{Property, TensorRelation};
use hetspmd::sharding::Ratios;
use hetspmd::cost::ClusterInfo;
use hetspmd::graph::{RGraph, ModuleInfo};
use hetspmd::program::Program;
use hetspmd::triple::{IndexedHoareTripleSet, TripleLabel};
use hetspmd::search::{a_star, PlanError};
use hetspmd::synthesis::analyze_rgraph;

fn cluster(n: usize, flops: u64, bandwidth: u64) -> ClusterInfo {
    ClusterInfo {
        device_flops: vec![flops; n],
        all_reduce_bandwidth: bandwidth,
        all_gather_bandwidth: bandwidth,
        all_to_all_bandwidth: bandwidth,
        reduce_scatter_bandwidth: bandwidth,
    }
}

fn even_ratios(n: usize) -> Ratios {
    Ratios::new(vec![1; n]).unwrap()
}

fn plan_labels(ts: &IndexedHoareTripleSet, plan: &hetspmd::program::Program) -> Vec<TripleLabel> {
    plan.triple_ids
        .iter()
        .map(|id| ts.triples[id.0].instruction)
        .collect()
}

#[test]
fn single_placeholder_to_output() {
    // one placeholder handed straight to the output, on one device
    let mut g = RGraph::new();
    let mut mi = ModuleInfo::new();
    let x = g
        .add_placeholder(&mut mi, "x".to_string(), &vec![4])
        .unwrap();
    g.set_communicatable(x, true).unwrap();
    g.add_output(x).unwrap();
    let ratios = even_ratios(1);
    let cl = cluster(1, 1_000_000_000, 1_000_000_000);
    let ts = IndexedHoareTripleSet::new(analyze_rgraph(&g, &mi, &ratios));
    let cancel = AtomicBool::new(false);
    let plan = a_star(&ts, &vec![], &cl, &ratios, &cancel).unwrap();
    assert_eq!(
        plan_labels(&ts, &plan),
        vec![
            TripleLabel::PlaceholderUnsharded(PlaceholderId(0)),
            TripleLabel::IdentityToReduce(x),
            TripleLabel::Output,
        ]
    );
    assert_eq!(plan.cost, 0);
}

#[test]
fn elementwise_prefers_the_sharded_variant() {
    // placeholder [8,16] -> sigmoid -> output, four devices, cheap wires
    let mut g = RGraph::new();
    let mut mi = ModuleInfo::new();
    let x = g
        .add_placeholder(&mut mi, "x".to_string(), &vec![8, 16])
        .unwrap();
    let y = g
        .add_elementwise(&mut mi, "torch.sigmoid".to_string(), x)
        .unwrap();
    g.set_communicatable(y, true).unwrap();
    g.add_output(y).unwrap();
    let ratios = even_ratios(4);
    let cl = cluster(4, 1, 1_000_000_000);
    let ts = IndexedHoareTripleSet::new(analyze_rgraph(&g, &mi, &ratios));
    let cancel = AtomicBool::new(false);
    let plan = a_star(&ts, &vec![], &cl, &ratios, &cancel).unwrap();
    let labels = plan_labels(&ts, &plan);
    assert_eq!(labels.len(), 5);
    assert_eq!(labels[0], TripleLabel::PlaceholderShard(PlaceholderId(0), 0));
    assert_eq!(labels[1], TripleLabel::Computation(OpId(0)));
    assert_eq!(labels[2], TripleLabel::AllGather(y, 0));
    assert_eq!(labels[3], TripleLabel::IdentityToReduce(y));
    assert_eq!(labels[4], TripleLabel::Output);
    // the sigmoid fired under its dimension-zero sharding
    let sigmoid = &ts.triples[plan.triple_ids[1].0];
    assert_eq!(
        sigmoid.pre_conditions,
        vec![Property::HasTensor(x, TensorRelation::Gather(0))]
    );
}

#[test]
fn linear_prefers_the_feature_partition() {
    // a [8,64] activation against a [256,64] weight: sharding the features
    // avoids the gradient all-reduce of a replicated parameter
    let mut g = RGraph::new();
    let mut mi = ModuleInfo::new();
    let a = g
        .add_placeholder(&mut mi, "a".to_string(), &vec![8, 64])
        .unwrap();
    let w = g
        .add_get_attr(&mut mi, "w".to_string(), &vec![256, 64])
        .unwrap();
    let b = g
        .add_get_attr(&mut mi, "b".to_string(), &vec![256])
        .unwrap();
    let y = g
        .add_linear(&mut mi, "torch.nn.functional.linear".to_string(), a, w, b)
        .unwrap();
    g.add_output(y).unwrap();
    let ratios = even_ratios(4);
    let cl = cluster(4, 1_000_000_000, 1000);
    let ts = IndexedHoareTripleSet::new(analyze_rgraph(&g, &mi, &ratios));
    let cancel = AtomicBool::new(false);
    let plan = a_star(&ts, &vec![], &cl, &ratios, &cancel).unwrap();
    let feature_pre = vec![
        Property::HasTensor(a, TensorRelation::Identity),
        Property::HasTensor(w, TensorRelation::Gather(0)),
        Property::HasTensor(b, TensorRelation::Gather(0)),
    ];
    let replicated_pre = vec![
        Property::HasTensor(a, TensorRelation::Identity),
        Property::HasTensor(w, TensorRelation::Identity),
        Property::HasTensor(b, TensorRelation::Identity),
    ];
    let fired: Vec<&Vec<Property>> = plan
        .triple_ids
        .iter()
        .map(|id| &ts.triples[id.0].pre_conditions)
        .collect();
    assert!(fired.iter().any(|pre| **pre == feature_pre));
    assert!(!fired.iter().any(|pre| **pre == replicated_pre));

    // the replicated-only plan, built by hand, is strictly costlier
    let find = |want: &dyn Fn(usize) -> bool| -> HoareTripleId {
        (0..ts.triples.len())
            .find(|i| want(*i))
            .map(HoareTripleId)
            .unwrap()
    };
    let by_label = |l: TripleLabel| find(&|i: usize| ts.triples[i].instruction == l);
    let replicated_id = find(&|i: usize| ts.triples[i].pre_conditions == replicated_pre);
    let manual_ids = vec![
        by_label(TripleLabel::PlaceholderUnsharded(PlaceholderId(0))),
        by_label(TripleLabel::GetAttrUnsharded(ParameterId(0))),
        by_label(TripleLabel::GetAttrUnsharded(ParameterId(1))),
        replicated_id,
        by_label(TripleLabel::IdentityToReduce(y)),
        by_label(TripleLabel::Output),
    ];
    let mut replicated_plan = Program::empty(&vec![]);
    for id in manual_ids {
        replicated_plan = replicated_plan.with_a_new_triple(id, &ts, &cl, &ratios);
    }
    assert!(replicated_plan
        .properties
        .contains_prop(&Property::Finished));
    assert!(plan.cost < replicated_plan.cost);
}

#[test]
fn sum_avoids_the_all_gather() {
    // placeholder [64] -> sum -> output: shard the input, keep the partial
    // sums, finish; never collect the whole tensor
    let mut g = RGraph::new();
    let mut mi = ModuleInfo::new();
    let x = g
        .add_placeholder(&mut mi, "x".to_string(), &vec![64])
        .unwrap();
    let y = g.add_reducing(&mut mi, "torch.sum".to_string(), x).unwrap();
    g.add_output(y).unwrap();
    let ratios = even_ratios(4);
    let cl = cluster(4, 1, 1);
    let ts = IndexedHoareTripleSet::new(analyze_rgraph(&g, &mi, &ratios));
    let cancel = AtomicBool::new(false);
    let plan = a_star(&ts, &vec![], &cl, &ratios, &cancel).unwrap();
    assert_eq!(
        plan_labels(&ts, &plan),
        vec![
            TripleLabel::PlaceholderShard(PlaceholderId(0), 0),
            TripleLabel::Computation(OpId(0)),
            TripleLabel::Output,
        ]
    );
    let sum = &ts.triples[plan.triple_ids[1].0];
    assert_eq!(
        sum.pre_conditions,
        vec![Property::HasTensor(x, TensorRelation::Gather(0))]
    );
    assert_eq!(sum.post_conditions, vec![Property::reduce(y)]);
}

#[test]
fn cancellation_aborts_the_search() {
    let mut g = RGraph::new();
    let mut mi = ModuleInfo::new();
    let x = g
        .add_placeholder(&mut mi, "x".to_string(), &vec![4])
        .unwrap();
    g.set_communicatable(x, true).unwrap();
    g.add_output(x).unwrap();
    let ratios = even_ratios(1);
    let cl = cluster(1, 1, 1);
    let ts = IndexedHoareTripleSet::new(analyze_rgraph(&g, &mi, &ratios));
    let cancel = AtomicBool::new(false);
    cancel.store(true, Ordering::Relaxed);
    let r = a_star(&ts, &vec![], &cl, &ratios, &cancel);
    assert_eq!(r.unwrap_err(), PlanError::Cancelled);
}

#[test]
fn unreachable_output_is_infeasible() {
    // the sigmoid output cannot become partial sums without communication
    let mut g = RGraph::new();
    let mut mi = ModuleInfo::new();
    let x = g
        .add_placeholder(&mut mi, "x".to_string(), &vec![8, 16])
        .unwrap();
    let y = g
        .add_elementwise(&mut mi, "torch.sigmoid".to_string(), x)
        .unwrap();
    g.add_output(y).unwrap();
    let ratios = even_ratios(4);
    let cl = cluster(4, 1, 1);
    let ts = IndexedHoareTripleSet::new(analyze_rgraph(&g, &mi, &ratios));
    let cancel = AtomicBool::new(false);
    let r = a_star(&ts, &vec![], &cl, &ratios, &cancel);
    assert_eq!(r.unwrap_err(), PlanError::Infeasible);
}

#[test]
fn planning_is_deterministic() {
    let mut plans: Vec<(Vec<TripleLabel>, u128)> = vec![];
    for _ in 0..2 {
        let mut g = RGraph::new();
        let mut mi = ModuleInfo::new();
        let x = g
            .add_placeholder(&mut mi, "x".to_string(), &vec![8, 16])
            .unwrap();
        let y = g
            .add_elementwise(&mut mi, "torch.sigmoid".to_string(), x)
            .unwrap();
        g.set_communicatable(y, true).unwrap();
        g.add_output(y).unwrap();
        let ratios = even_ratios(4);
        let cl = cluster(4, 1, 1_000_000_000);
        let ts = IndexedHoareTripleSet::new(analyze_rgraph(&g, &mi, &ratios));
        let cancel = AtomicBool::new(false);
        let plan = a_star(&ts, &vec![], &cl, &ratios, &cancel).unwrap();
        plans.push((plan_labels(&ts, &plan), plan.cost));
    }
    assert_eq!(plans[0], plans[1]);
}

#[test]
fn every_plan_finishes_exactly_once() {
    // the finishing triple appears exactly once, as the last step
    let mut g = RGraph::new();
    let mut mi = ModuleInfo::new();
    let x = g
        .add_placeholder(&mut mi, "x".to_string(), &vec![8, 16])
        .unwrap();
    let y = g
        .add_elementwise(&mut mi, "torch.sigmoid".to_string(), x)
        .unwrap();
    g.set_communicatable(y, true).unwrap();
    g.add_output(y).unwrap();
    let ratios = even_ratios(4);
    let cl = cluster(4, 1, 1_000_000_000);
    let ts = IndexedHoareTripleSet::new(analyze_rgraph(&g, &mi, &ratios));
    let cancel = AtomicBool::new(false);
    let plan = a_star(&ts, &vec![], &cl, &ratios, &cancel).unwrap();
    let finishing: Vec<usize> = plan
        .triple_ids
        .iter()
        .enumerate()
        .filter(|(_, id)| {
            ts.triples[id.0]
                .post_conditions
                .iter()
                .any(|p| *p == Property::Finished)
        })
        .map(|(i, _)| i)
        .collect();
    assert_eq!(finishing, vec![plan.triple_ids.len() - 1]);
}

#[test]
fn synthesizer_emits_exactly_the_table() {
    // a communicatable rank-2 placeholder handed to the output: the table
    // gives 1 replicated and 2 sharded materializations, 1 output rule, and
    // per dimension an all-gather, a dynamic slice and a reduce-scatter,
    // plus an all-reduce, the free identity-to-reduce masking, and an
    // all-to-all per ordered pair of distinct dimensions -- and nothing else
    let mut g = RGraph::new();
    let mut mi = ModuleInfo::new();
    let x = g
        .add_placeholder(&mut mi, "x".to_string(), &vec![2, 3])
        .unwrap();
    g.set_communicatable(x, true).unwrap();
    g.add_output(x).unwrap();
    let ratios = even_ratios(2);
    let triples = analyze_rgraph(&g, &mi, &ratios);
    let count = |pred: &dyn Fn(&TripleLabel) -> bool| {
        triples.iter().filter(|t| pred(&t.instruction)).count()
    };
    assert_eq!(
        count(&|l| matches!(l, TripleLabel::PlaceholderUnsharded(_))),
        1
    );
    assert_eq!(count(&|l| matches!(l, TripleLabel::PlaceholderShard(_, _))), 2);
    assert_eq!(count(&|l| matches!(l, TripleLabel::Output)), 1);
    assert_eq!(count(&|l| matches!(l, TripleLabel::AllGather(_, _))), 2);
    assert_eq!(count(&|l| matches!(l, TripleLabel::DynamicSlice(_, _))), 2);
    assert_eq!(count(&|l| matches!(l, TripleLabel::ReduceScatter(_, _))), 2);
    assert_eq!(count(&|l| matches!(l, TripleLabel::AllReduce(_))), 1);
    assert_eq!(count(&|l| matches!(l, TripleLabel::IdentityToReduce(_))), 1);
    assert_eq!(count(&|l| matches!(l, TripleLabel::AllToAll(_, _, _))), 2);
    assert_eq!(count(&|l| matches!(l, TripleLabel::Computation(_))), 0);
    assert_eq!(triples.len(), 14);
}
