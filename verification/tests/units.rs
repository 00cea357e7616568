//! Unit tests for the building blocks: sharding, ratios, shapes, property
//! sets, the triple index, the garbage collection, and the progress ticker.

use hetspmd::ids::{RNodeId, RTensorId, HoareTripleId};
use hetspmd::property::{Property, TensorRelation, prop_lt_exec};
use hetspmd::propset::PropSet;
use hetspmd::shape::shape_from_vec;
use hetspmd::sharding::{Ratios, RatioError, sharding_round};
use hetspmd::cost::{Profile, ClusterInfo};
use hetspmd::graph::{RGraph, ModuleInfo, GraphError, RTensor};
use hetspmd::triple::{HoareTriple, TripleLabel, IndexedHoareTripleSet};
use hetspmd::program::{Program, irrelevant_property_gc};
use hetspmd::search::Ticker;

fn quarters() -> Ratios {
    Ratios::new(vec![1, 1, 1, 1]).unwrap()
}

#[test]
fn sharding_round_even() {
    let r = quarters();
    assert_eq!(sharding_round(8, &r), vec![2, 2, 2, 2]);
}

#[test]
fn sharding_round_remainder_prefers_small_indices() {
    let r = quarters();
    assert_eq!(sharding_round(10, &r), vec![3, 3, 2, 2]);
}

#[test]
fn sharding_round_sums_to_length() {
    let r = Ratios::new(vec![3, 1, 2]).unwrap();
    for len in 0..50usize {
        let parts = sharding_round(len, &r);
        assert_eq!(parts.len(), 3);
        assert_eq!(parts.iter().sum::<usize>(), len);
    }
}

#[test]
fn sharding_round_uneven() {
    let r = Ratios::new(vec![3, 1]).unwrap();
    assert_eq!(sharding_round(8, &r), vec![6, 2]);
}

#[test]
fn sharding_round_zero_length() {
    let r = quarters();
    assert_eq!(sharding_round(0, &r), vec![0, 0, 0, 0]);
}

#[test]
fn ratios_rejects_empty() {
    assert_eq!(Ratios::new(vec![]).unwrap_err(), RatioError::EmptyRatios);
}

#[test]
fn ratios_rejects_zero_sum() {
    assert_eq!(Ratios::new(vec![0, 0]).unwrap_err(), RatioError::ZeroSum);
}

#[test]
fn ratios_rejects_overflowing_sum() {
    assert_eq!(
        Ratios::new(vec![u32::MAX, 1]).unwrap_err(),
        RatioError::SumTooLarge
    );
}

#[test]
fn property_order_is_strict() {
    let a = Property::gather(RTensorId(0), 0);
    let b = Property::gather(RTensorId(0), 1);
    let c = Property::reduce(RTensorId(0));
    let d = Property::identity(RTensorId(0));
    let e = Property::Finished;
    assert!(prop_lt_exec(&a, &b));
    assert!(prop_lt_exec(&b, &c));
    assert!(prop_lt_exec(&c, &d));
    assert!(prop_lt_exec(&d, &e));
    assert!(!prop_lt_exec(&e, &a));
    assert!(!prop_lt_exec(&a, &a));
}

#[test]
fn propset_is_canonical() {
    let mut s1 = PropSet::empty();
    s1.insert(Property::Finished);
    s1.insert(Property::identity(RTensorId(3)));
    s1.insert(Property::gather(RTensorId(1), 0));
    let mut s2 = PropSet::empty();
    s2.insert(Property::gather(RTensorId(1), 0));
    s2.insert(Property::identity(RTensorId(3)));
    s2.insert(Property::Finished);
    s2.insert(Property::Finished);
    assert!(s1.eq_set(&s2));
    assert_eq!(s1.len(), 3);
    assert!(s1.contains_prop(&Property::Finished));
    assert!(!s1.contains_prop(&Property::reduce(RTensorId(3))));
}

#[test]
fn tensor_size_is_the_shape_product() {
    let t = RTensor {
        producer: RNodeId(0),
        consumers: vec![],
        shape: shape_from_vec(&vec![3, 4]),
        communicatable: false,
    };
    assert_eq!(t.size(), 12);
    assert_eq!(t.n_dims(), 2);
}

#[test]
fn tensor_size_clamps_at_the_top() {
    let t = RTensor {
        producer: RNodeId(0),
        consumers: vec![],
        shape: shape_from_vec(&vec![usize::MAX, 3]),
        communicatable: false,
    };
    assert_eq!(t.size(), u64::MAX);
}

#[test]
fn graph_rejects_zero_dimension() {
    let mut g = RGraph::new();
    let mut mi = ModuleInfo::new();
    let r = g.add_placeholder(&mut mi, "x".to_string(), &vec![4, 0]);
    assert_eq!(r.unwrap_err(), GraphError::NonPositiveDim);
}

#[test]
fn graph_rejects_huge_rank() {
    let mut g = RGraph::new();
    let mut mi = ModuleInfo::new();
    let r = g.add_placeholder(&mut mi, "x".to_string(), &vec![1; 300]);
    assert_eq!(r.unwrap_err(), GraphError::RankTooLarge);
}

#[test]
fn graph_rejects_unknown_tensor() {
    let mut g = RGraph::new();
    let mut mi = ModuleInfo::new();
    let r = g.add_elementwise(&mut mi, "torch.sigmoid".to_string(), RTensorId(7));
    assert_eq!(r.unwrap_err(), GraphError::UnknownTensor);
}

#[test]
fn graph_rejects_bad_linear_shapes() {
    let mut g = RGraph::new();
    let mut mi = ModuleInfo::new();
    let a = g
        .add_placeholder(&mut mi, "a".to_string(), &vec![2, 8])
        .unwrap();
    let w = g
        .add_get_attr(&mut mi, "w".to_string(), &vec![16, 9])
        .unwrap();
    let b = g.add_get_attr(&mut mi, "b".to_string(), &vec![16]).unwrap();
    let r = g.add_linear(&mut mi, "torch.nn.functional.linear".to_string(), a, w, b);
    assert_eq!(r.unwrap_err(), GraphError::BadOperandShapes);
}

#[test]
fn graph_rejects_second_output() {
    let mut g = RGraph::new();
    let mut mi = ModuleInfo::new();
    let x = g
        .add_placeholder(&mut mi, "x".to_string(), &vec![4])
        .unwrap();
    g.add_output(x).unwrap();
    assert_eq!(g.add_output(x).unwrap_err(), GraphError::MultipleOutputs);
}

#[test]
fn linear_propagates_the_output_shape() {
    let mut g = RGraph::new();
    let mut mi = ModuleInfo::new();
    let a = g
        .add_placeholder(&mut mi, "a".to_string(), &vec![2, 8])
        .unwrap();
    let w = g
        .add_get_attr(&mut mi, "w".to_string(), &vec![16, 8])
        .unwrap();
    let b = g.add_get_attr(&mut mi, "b".to_string(), &vec![16]).unwrap();
    let y = g
        .add_linear(&mut mi, "torch.nn.functional.linear".to_string(), a, w, b)
        .unwrap();
    assert_eq!(g.tensors[y.0].size(), 32);
    assert_eq!(g.tensors[y.0].n_dims(), 2);
    assert!(g.tensors[y.0].communicatable);
}

#[test]
fn builders_record_the_new_consumer() {
    let mut g = RGraph::new();
    let mut mi = ModuleInfo::new();
    let a = g
        .add_placeholder(&mut mi, "a".to_string(), &vec![2, 8])
        .unwrap();
    let w = g
        .add_get_attr(&mut mi, "w".to_string(), &vec![16, 8])
        .unwrap();
    let b = g.add_get_attr(&mut mi, "b".to_string(), &vec![16]).unwrap();
    // materialization nodes read nothing
    assert!(g.tensors[a.0].consumers.is_empty());
    assert!(g.tensors[w.0].consumers.is_empty());
    assert!(g.tensors[b.0].consumers.is_empty());
    let linear_node = RNodeId(g.n_nodes());
    let y = g
        .add_linear(&mut mi, "torch.nn.functional.linear".to_string(), a, w, b)
        .unwrap();
    // the linear node is appended to each operand's consumer list
    assert_eq!(g.tensors[a.0].consumers, vec![linear_node]);
    assert_eq!(g.tensors[w.0].consumers, vec![linear_node]);
    assert_eq!(g.tensors[b.0].consumers, vec![linear_node]);
    let sig_node = RNodeId(g.n_nodes());
    let s = g
        .add_elementwise(&mut mi, "torch.sigmoid".to_string(), y)
        .unwrap();
    assert_eq!(g.tensors[y.0].consumers, vec![sig_node]);
    let sum_node = RNodeId(g.n_nodes());
    let z = g.add_reducing(&mut mi, "torch.sum".to_string(), s).unwrap();
    assert_eq!(g.tensors[s.0].consumers, vec![sum_node]);
    let out_node = RNodeId(g.n_nodes());
    g.add_output(z).unwrap();
    assert_eq!(g.tensors[z.0].consumers, vec![out_node]);
    // untouched lists stay as they were
    assert_eq!(g.tensors[a.0].consumers, vec![linear_node]);
}

fn zero_profile() -> Profile {
    Profile {
        flops: 0,
        all_reduce: 0,
        all_gather: 0,
        all_to_all: 0,
        reduce_scatter: 0,
    }
}

fn plain_triple(pre: Vec<Property>, post: Vec<Property>) -> HoareTriple {
    HoareTriple {
        pre_conditions: pre,
        post_conditions: post,
        negative_post_conditions: vec![],
        instruction: TripleLabel::Output,
        forward_profile: zero_profile(),
        backward_profile: zero_profile(),
    }
}

#[test]
fn triple_index_lists_exactly_the_carriers() {
    let t0 = RTensorId(0);
    let t1 = RTensorId(1);
    let triples = vec![
        plain_triple(vec![Property::identity(t0)], vec![Property::identity(t1)]),
        plain_triple(
            vec![Property::identity(t0), Property::reduce(t1)],
            vec![Property::Finished],
        ),
        plain_triple(vec![], vec![Property::identity(t0)]),
    ];
    let ts = IndexedHoareTripleSet::new(triples);
    let by_pre = ts.get_triples_with_pre_condition(&Property::identity(t0));
    assert_eq!(by_pre, vec![HoareTripleId(0), HoareTripleId(1)]);
    let by_post = ts.get_triples_with_post_condition(&Property::identity(t0));
    assert_eq!(by_post, vec![HoareTripleId(2)]);
    let none = ts.get_triples_with_pre_condition(&Property::gather(t0, 3));
    assert!(none.is_empty());
}

#[test]
fn triple_index_is_ascending_and_duplicate_free() {
    let t0 = RTensorId(0);
    // one triple lists the same property twice among its pre-conditions
    let triples = vec![
        plain_triple(
            vec![Property::identity(t0), Property::identity(t0)],
            vec![Property::Finished],
        ),
        plain_triple(vec![Property::identity(t0)], vec![Property::Finished]),
    ];
    let ts = IndexedHoareTripleSet::new(triples);
    let by_pre = ts.get_triples_with_pre_condition(&Property::identity(t0));
    assert_eq!(by_pre, vec![HoareTripleId(0), HoareTripleId(1)]);
}

#[test]
fn gc_drops_only_irrelevant_properties() {
    let t0 = RTensorId(0);
    let dead = Property::AllowCommunication(RTensorId(9));
    // the only triple needing `dead` also needs a property nothing produces
    let triples = vec![
        plain_triple(
            vec![dead, Property::reduce(RTensorId(8))],
            vec![Property::Finished],
        ),
        plain_triple(vec![Property::identity(t0)], vec![Property::Finished]),
    ];
    let ts = IndexedHoareTripleSet::new(triples);
    let mut props = PropSet::empty();
    props.insert(dead);
    props.insert(Property::identity(t0));
    props.insert(Property::Finished);
    let kept = irrelevant_property_gc(&props, &ts);
    assert!(!kept.contains_prop(&dead));
    assert!(kept.contains_prop(&Property::identity(t0)));
    assert!(kept.contains_prop(&Property::Finished));
}

#[test]
fn expansion_never_lowers_the_cost() {
    let t0 = RTensorId(0);
    let triples = vec![plain_triple(vec![], vec![Property::identity(t0)])];
    let ts = IndexedHoareTripleSet::new(triples);
    let cluster = ClusterInfo {
        device_flops: vec![1],
        all_reduce_bandwidth: 1,
        all_gather_bandwidth: 1,
        all_to_all_bandwidth: 1,
        reduce_scatter_bandwidth: 1,
    };
    let ratios = Ratios::new(vec![1]).unwrap();
    let base = Program::empty(&vec![]);
    let avail = base.find_available_triples(&ts);
    assert_eq!(avail, vec![HoareTripleId(0)]);
    let bigger = base.with_a_new_triple(HoareTripleId(0), &ts, &cluster, &ratios);
    assert!(bigger.cost >= base.cost);
    assert_eq!(bigger.triple_ids, vec![HoareTripleId(0)]);
}

#[test]
fn cost_model_has_exact_integer_times() {
    // four devices at 2 FLOP/s, even shares: 8 FLOPs take 8 * (1/4) / 2 = 1
    // second of computation; 8 bytes over a 2 B/s all-gather wire at the
    // bottleneck share take another second
    let cl = ClusterInfo {
        device_flops: vec![2, 2, 2, 2],
        all_reduce_bandwidth: 2,
        all_gather_bandwidth: 2,
        all_to_all_bandwidth: 2,
        reduce_scatter_bandwidth: 2,
    };
    let r = quarters();
    let compute_only = Profile {
        flops: 8,
        all_reduce: 0,
        all_gather: 0,
        all_to_all: 0,
        reduce_scatter: 0,
    };
    assert_eq!(cl.get_time(&compute_only, &r), 1_000_000);
    let with_comm = Profile {
        flops: 8,
        all_reduce: 0,
        all_gather: 8,
        all_to_all: 0,
        reduce_scatter: 0,
    };
    assert_eq!(cl.get_time(&with_comm, &r), 2_000_000);
    let t = plain_triple(vec![], vec![Property::Finished]);
    let priced = HoareTriple {
        forward_profile: with_comm,
        backward_profile: compute_only,
        ..t
    };
    assert_eq!(priced.get_cost(&cl, &r), 3_000_000);
}

#[test]
fn ticker_reports_every_period() {
    let mut t = Ticker::new(3);
    assert!(!t.tick());
    assert!(!t.tick());
    assert!(t.tick());
    assert!(!t.tick());
    assert_eq!(t.iter_count, 4);
}

#[test]
fn property_constructors_build_has_tensor() {
    let t = RTensorId(5);
    assert_eq!(
        Property::identity(t),
        Property::HasTensor(t, TensorRelation::Identity)
    );
    assert_eq!(
        Property::gather(t, 2),
        Property::HasTensor(t, TensorRelation::Gather(2))
    );
    assert_eq!(
        Property::reduce(t),
        Property::HasTensor(t, TensorRelation::Reduce)
    );
}
