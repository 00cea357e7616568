//! A planner for executing a single-device tensor computation graph on a
//! homogeneous SIMD cluster. The planning problem is reduced to a best-first
//! search over Hoare triples: guarded rewrite rules on sets of symbolic
//! properties that describe which tensors are materialized on the cluster and
//! in which distribution (replicated, sharded along a dimension, or held as
//! partial sums). The search returns the cheapest sequence of sharded
//! operations and collective communications that produces the graph's output.

pub mod ids;
pub mod property;
pub mod propset;
pub mod shape;
pub mod sharding;
pub mod cost;
pub mod graph;
pub mod triple;
pub mod program;
pub mod search;
pub mod synthesis;
