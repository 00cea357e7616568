//! The symbolic state vocabulary of the planner. A `Property` is an atom
//! describing what is known to be materialized on the cluster at some point
//! during execution, or a scheduling token used by pruning heuristics. The
//! module also defines a total order on properties, used to keep property
//! sets in a canonical sorted form.

use vstd::prelude::*;
use crate::ids::{RTensorId, OpId, ParameterId, PlaceholderId, Dimension};

verus! {

/// How a tensor is distributed over the devices of the cluster.
#[derive(Clone, Copy, PartialEq, Eq, Structural, Debug)]
pub enum TensorRelation {
    /// The tensor is partitioned along the given dimension by the sharding
    /// ratios; each device holds its slice.
    Gather(Dimension),
    /// Each device holds a partial result; an element-wise sum across devices
    /// would yield the true tensor.
    Reduce,
    /// Every device holds the full tensor.
    Identity,
}

/// A symbolic atom describing the state of the cluster during execution.
#[derive(Clone, Copy, PartialEq, Eq, Structural, Debug)]
pub enum Property {
    /// The tensor is materialized in the given distribution.
    HasTensor(RTensorId, TensorRelation),
    /// The whole program has produced its output.
    Finished,
    /// Scheduling tokens reserved for pruning heuristics.
    AllowCommunication(RTensorId),
    AllowPlaceholder(PlaceholderId),
    AllowGetAttr(ParameterId),
    AllowComputation(OpId),
}

impl Property {
    /// The property that every device holds the full tensor.
    pub fn identity(tensor_id: RTensorId) -> (r: Property)
        ensures
            r == Property::HasTensor(tensor_id, TensorRelation::Identity),
    {
        Property::HasTensor(tensor_id, TensorRelation::Identity)
    }

    /// The property that the tensor is sharded along `dim`.
    pub fn gather(tensor_id: RTensorId, dim: Dimension) -> (r: Property)
        ensures
            r == Property::HasTensor(tensor_id, TensorRelation::Gather(dim)),
    {
        Property::HasTensor(tensor_id, TensorRelation::Gather(dim))
    }

    /// The property that each device holds a partial sum of the tensor.
    pub fn reduce(tensor_id: RTensorId) -> (r: Property)
        ensures
            r == Property::HasTensor(tensor_id, TensorRelation::Reduce),
    {
        Property::HasTensor(tensor_id, TensorRelation::Reduce)
    }
}

/// Numeric code of a tensor relation, used by the total order. `Gather(d)`
/// sorts by its dimension, below `Reduce` and `Identity`.
pub open spec fn rel_code(rel: TensorRelation) -> int {
    match rel {
        TensorRelation::Gather(d) => d as int,
        TensorRelation::Reduce => 256,
        TensorRelation::Identity => 257,
    }
}

/// Variant tag of a property, the major key of the total order.
pub open spec fn prop_tag(p: Property) -> int {
    match p {
        Property::HasTensor(_, _) => 0,
        Property::Finished => 1,
        Property::AllowCommunication(_) => 2,
        Property::AllowPlaceholder(_) => 3,
        Property::AllowGetAttr(_) => 4,
        Property::AllowComputation(_) => 5,
    }
}

/// Identifier payload of a property, the middle key of the total order.
pub open spec fn prop_id(p: Property) -> int {
    match p {
        Property::HasTensor(t, _) => t.0 as int,
        Property::Finished => 0,
        Property::AllowCommunication(t) => t.0 as int,
        Property::AllowPlaceholder(pid) => pid.0 as int,
        Property::AllowGetAttr(pid) => pid.0 as int,
        Property::AllowComputation(o) => o.0 as int,
    }
}

/// Relation payload of a property, the minor key of the total order.
pub open spec fn prop_rel(p: Property) -> int {
    match p {
        Property::HasTensor(_, rel) => rel_code(rel),
        _ => 0,
    }
}

/// The total order on properties: lexicographic on variant tag, identifier,
/// and relation code.
pub open spec fn prop_lt(a: Property, b: Property) -> bool {
    prop_tag(a) < prop_tag(b) || (prop_tag(a) == prop_tag(b) && (prop_id(a) < prop_id(b)
        || (prop_id(a) == prop_id(b) && prop_rel(a) < prop_rel(b))))
}

/// The three keys identify a property completely.
pub proof fn lemma_prop_keys_injective(a: Property, b: Property)
    requires
        prop_tag(a) == prop_tag(b),
        prop_id(a) == prop_id(b),
        prop_rel(a) == prop_rel(b),
    ensures
        a == b,
{
}

/// `prop_lt` is a strict total order: exactly one of `a < b`, `a == b`,
/// `b < a` holds, and the order is transitive.
pub proof fn lemma_prop_lt_total(a: Property, b: Property)
    ensures
        prop_lt(a, b) || prop_lt(b, a) || a == b,
        !(prop_lt(a, b) && prop_lt(b, a)),
        !(prop_lt(a, b) && a == b),
{
    if prop_tag(a) == prop_tag(b) && prop_id(a) == prop_id(b) && prop_rel(a) == prop_rel(b) {
        lemma_prop_keys_injective(a, b);
    }
}

/// Transitivity of the total order.
pub proof fn lemma_prop_lt_trans(a: Property, b: Property, c: Property)
    requires
        prop_lt(a, b),
        prop_lt(b, c),
    ensures
        prop_lt(a, c),
{
}

/// Exec counterpart of `rel_code`.
fn rel_code_exec(rel: &TensorRelation) -> (r: u16)
    ensures
        r as int == rel_code(*rel),
{
    match rel {
        TensorRelation::Gather(d) => *d as u16,
        TensorRelation::Reduce => 256,
        TensorRelation::Identity => 257,
    }
}

/// Exec decomposition of a property into its three ordering keys.
fn prop_keys(p: &Property) -> (r: (u8, usize, u16))
    ensures
        r.0 as int == prop_tag(*p),
        r.1 as int == prop_id(*p),
        r.2 as int == prop_rel(*p),
{
    match p {
        Property::HasTensor(t, rel) => (0, t.0, rel_code_exec(rel)),
        Property::Finished => (1, 0, 0),
        Property::AllowCommunication(t) => (2, t.0, 0),
        Property::AllowPlaceholder(pid) => (3, pid.0, 0),
        Property::AllowGetAttr(pid) => (4, pid.0, 0),
        Property::AllowComputation(o) => (5, o.0, 0),
    }
}

/// Compares two properties in the total order.
pub fn prop_lt_exec(a: &Property, b: &Property) -> (r: bool)
    ensures
        r == prop_lt(*a, *b),
{
    let (ta, ia, ra) = prop_keys(a);
    let (tb, ib, rb) = prop_keys(b);
    ta < tb || (ta == tb && (ia < ib || (ia == ib && ra < rb)))
}

} // verus!
