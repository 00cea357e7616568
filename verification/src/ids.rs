//! Dense integer identifiers for the entities of the planner. Vectors indexed
//! by these ids form the backing store of the reference graph, the module
//! metadata and the triple set; the ids are stable for the lifetime of the
//! planner.

use vstd::prelude::*;

verus! {

/// Identifier of a node of the reference graph.
#[derive(Clone, Copy, PartialEq, Eq, Structural, Debug)]
pub struct RNodeId(pub usize);

/// Identifier of a tensor of the reference graph.
#[derive(Clone, Copy, PartialEq, Eq, Structural, Debug)]
pub struct RTensorId(pub usize);

/// Identifier of an operator of the module metadata.
#[derive(Clone, Copy, PartialEq, Eq, Structural, Debug)]
pub struct OpId(pub usize);

/// Identifier of a model parameter of the module metadata.
#[derive(Clone, Copy, PartialEq, Eq, Structural, Debug)]
pub struct ParameterId(pub usize);

/// Identifier of a model input of the module metadata.
#[derive(Clone, Copy, PartialEq, Eq, Structural, Debug)]
pub struct PlaceholderId(pub usize);

/// Identifier of a Hoare triple within an indexed triple set.
#[derive(Clone, Copy, PartialEq, Eq, Structural, Debug)]
pub struct HoareTripleId(pub usize);

/// Index of a tensor dimension. Tensor ranks are kept small enough for this
/// type by graph validation.
pub type Dimension = u8;

} // verus!
