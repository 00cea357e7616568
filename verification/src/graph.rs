//! The reference graph: an in-memory, index-addressed dataflow graph of
//! tensor operations, together with the module metadata (operator catalog,
//! placeholder and parameter names). Nodes and tensors live in dense vectors
//! keyed by integer ids; a tensor knows its one producer and its consumers,
//! and consumers are appended as the graph is built, so no back-patching is
//! needed. Builder methods validate operand shapes and propagate the output
//! shape, and every method preserves the graph invariants.

use vstd::prelude::*;
use vstd::arithmetic::mul::lemma_mul_upper_bound;
use crate::ids::{RNodeId, RTensorId, OpId, ParameterId, PlaceholderId, Dimension};
use crate::shape::{Shape, shape_elems, shape_new, shape_push, shape_len, shape_get, shape_clone,
    shape_from_vec};

verus! {

/// An instruction of the reference graph, without its input and output
/// tensors.
#[derive(Clone, Copy, PartialEq, Eq, Structural, Debug)]
pub enum RInstruction {
    /// Apply the operator of the catalog.
    Op(OpId),
    /// Materialize a model parameter.
    GetAttr(ParameterId),
    /// Materialize a model input.
    Placeholder(PlaceholderId),
    /// Consume the final result.
    Output,
}

/// A node of the reference graph.
pub struct RNode {
    pub inputs: Vec<RTensorId>,
    pub outputs: Vec<RTensorId>,
    pub instruction: RInstruction,
}

/// A tensor of the reference graph.
pub struct RTensor {
    /// The node that produces this tensor; exactly one.
    pub producer: RNodeId,
    /// The nodes that read this tensor, appended as the graph is built.
    pub consumers: Vec<RNodeId>,
    /// Dimension lengths, all positive.
    pub shape: Shape,
    /// Whether the planner may insert collective communications on this
    /// tensor. Set by the builder per operator kind; a user annotation can
    /// override it.
    pub communicatable: bool,
}

/// How an operator shards: the table of legal sharded variants emitted by
/// the synthesizer is keyed on this.
#[derive(Clone, Copy, PartialEq, Eq, Structural, Debug)]
pub enum OpKind {
    /// One input, one output of the same shape; any sharding of the input
    /// carries over to the output.
    Elementwise,
    /// One input reduced to a scalar; a sharded input yields partial sums.
    Reducing,
    /// Matmul plus bias: data-parallel on a leading batch dimension or
    /// feature-parallel on the weight's first dimension.
    Linear,
}

/// An operator of the catalog: its dispatch name and its sharding kind.
pub struct Op {
    pub name: String,
    pub kind: OpKind,
}

/// Module metadata: names of placeholders and parameters, and the operator
/// catalog, all keyed by dense ids.
pub struct ModuleInfo {
    pub placeholders: Vec<String>,
    pub parameters: Vec<String>,
    pub ops: Vec<Op>,
}

impl ModuleInfo {
    pub fn new() -> (r: ModuleInfo)
        ensures
            r.placeholders@.len() == 0,
            r.parameters@.len() == 0,
            r.ops@.len() == 0,
    {
        ModuleInfo { placeholders: Vec::new(), parameters: Vec::new(), ops: Vec::new() }
    }
}

/// A shape is valid: positive dimension lengths, rank within the dimension
/// index type.
pub open spec fn shape_ok(s: Shape) -> bool {
    &&& shape_elems(s).len() <= 255
    &&& forall|i: int| 0 <= i < shape_elems(s).len() ==> #[trigger] shape_elems(s)[i] >= 1
}

/// The reference graph.
pub struct RGraph {
    pub nodes: Vec<RNode>,
    pub tensors: Vec<RTensor>,
}

/// Tensor `t` of the graph is well-formed: its shape is valid, its producer
/// exists and lists it as an output, and each consumer exists and lists it
/// as an input.
pub open spec fn tensor_wf(g: RGraph, t: int) -> bool {
    let tn = g.tensors@[t];
    &&& shape_ok(tn.shape)
    &&& tn.producer.0 < g.nodes@.len()
    &&& g.nodes@[tn.producer.0 as int].outputs@.contains(RTensorId(t as usize))
    &&& forall|c: int|
        0 <= c < tn.consumers@.len() ==> (#[trigger] tn.consumers@[c]).0 < g.nodes@.len()
            && g.nodes@[tn.consumers@[c].0 as int].inputs@.contains(RTensorId(t as usize))
}

/// Node `n` of the graph is well-formed: its tensor ids exist.
pub open spec fn node_wf(g: RGraph, n: int) -> bool {
    let nd = g.nodes@[n];
    &&& forall|i: int| 0 <= i < nd.inputs@.len() ==> (#[trigger] nd.inputs@[i]).0
        < g.tensors@.len()
    &&& forall|i: int| 0 <= i < nd.outputs@.len() ==> (#[trigger] nd.outputs@[i]).0
        < g.tensors@.len()
}

/// The whole graph is well-formed.
pub open spec fn rgraph_wf(g: RGraph) -> bool {
    &&& forall|t: int| 0 <= t < g.tensors@.len() ==> tensor_wf(g, t)
    &&& forall|n: int| 0 <= n < g.nodes@.len() ==> node_wf(g, n)
}

/// Node `n` is consistent with the module metadata: instruction payloads
/// exist in the catalog and the node has the arity its instruction demands.
pub open spec fn node_module_wf(g: RGraph, mi: ModuleInfo, n: int) -> bool {
    let nd = g.nodes@[n];
    match nd.instruction {
        RInstruction::Op(op) => op.0 < mi.ops@.len() && nd.outputs@.len() == 1 && (
        match mi.ops@[op.0 as int].kind {
            OpKind::Elementwise => nd.inputs@.len() == 1,
            OpKind::Reducing => nd.inputs@.len() == 1,
            OpKind::Linear => nd.inputs@.len() == 3 && shape_elems(
                g.tensors@[nd.inputs@[0].0 as int].shape,
            ).len() >= 1 && shape_elems(g.tensors@[nd.inputs@[1].0 as int].shape).len() >= 1
                && shape_elems(g.tensors@[nd.outputs@[0].0 as int].shape).len() >= 1,
        }),
        RInstruction::GetAttr(p) => p.0 < mi.parameters@.len() && nd.inputs@.len() == 0
            && nd.outputs@.len() == 1,
        RInstruction::Placeholder(p) => p.0 < mi.placeholders@.len() && nd.inputs@.len() == 0
            && nd.outputs@.len() == 1,
        RInstruction::Output => nd.inputs@.len() == 1 && nd.outputs@.len() == 0,
    }
}

/// The graph and the metadata agree.
pub open spec fn module_wf(g: RGraph, mi: ModuleInfo) -> bool {
    forall|n: int| 0 <= n < g.nodes@.len() ==> node_module_wf(g, mi, n)
}

/// The number of `Output` nodes among the first `n`.
pub open spec fn count_outputs(nodes: Seq<RNode>, n: int) -> int
    decreases n,
{
    if n <= 0 {
        0
    } else {
        count_outputs(nodes, n - 1) + if nodes[n - 1].instruction is Output {
            1int
        } else {
            0int
        }
    }
}

/// Why a graph construction step was rejected.
#[derive(Clone, Copy, PartialEq, Eq, Structural, Debug)]
pub enum GraphError {
    /// A tensor id does not exist in the graph.
    UnknownTensor,
    /// A shape entry is zero.
    NonPositiveDim,
    /// The rank exceeds the dimension index type.
    RankTooLarge,
    /// Operand shapes do not fit the operator.
    BadOperandShapes,
    /// The graph already has an output node.
    MultipleOutputs,
}

impl RTensor {
    /// The rank of the tensor.
    pub fn n_dims(&self) -> (r: Dimension)
        requires
            shape_elems(self.shape).len() <= 255,
        ensures
            r as int == shape_elems(self.shape).len(),
    {
        shape_len(&self.shape) as u8
    }
}

/// The product of a sequence of dimension lengths.
pub open spec fn seq_prod(s: Seq<usize>) -> int
    decreases s.len(),
{
    if s.len() == 0 {
        1
    } else {
        seq_prod(s.drop_last()) * s.last()
    }
}

/// A product clamped to the range of the byte-count type.
pub open spec fn clamp_u64(x: int) -> int {
    if x > u64::MAX {
        u64::MAX as int
    } else {
        x
    }
}

proof fn lemma_seq_prod_take_step(s: Seq<usize>, i: int)
    requires
        0 <= i < s.len(),
    ensures
        seq_prod(s.take(i + 1)) == seq_prod(s.take(i)) * s[i],
{
    assert(s.take(i + 1).drop_last() == s.take(i));
    assert(s.take(i + 1).last() == s[i]);
}

proof fn lemma_seq_prod_pos(s: Seq<usize>)
    requires
        forall|i: int| 0 <= i < s.len() ==> #[trigger] s[i] >= 1,
    ensures
        seq_prod(s) >= 1,
    decreases s.len(),
{
    if s.len() > 0 {
        lemma_seq_prod_pos(s.drop_last());
        assert(seq_prod(s) >= 1) by (nonlinear_arith)
            requires
                seq_prod(s) == seq_prod(s.drop_last()) * s.last(),
                seq_prod(s.drop_last()) >= 1,
                s.last() >= 1,
        {
        }
    }
}

impl RTensor {
    /// The number of elements of the tensor, clamped to the byte-count
    /// range.
    pub fn size(&self) -> (r: u64)
        requires
            shape_ok(self.shape),
        ensures
            r as int == clamp_u64(seq_prod(shape_elems(self.shape))),
    {
        let n = shape_len(&self.shape);
        let mut acc: u64 = 1;
        let mut i: usize = 0;
        while i < n
            invariant
                i <= n,
                n == shape_elems(self.shape).len(),
                shape_ok(self.shape),
                acc as int == clamp_u64(seq_prod(shape_elems(self.shape).take(i as int))),
                acc >= 1,
            decreases n - i,
        {
            let ghost s = shape_elems(self.shape);
            let d = shape_get(&self.shape, i);
            proof {
                lemma_seq_prod_take_step(s, i as int);
                assert(forall|j: int| 0 <= j < s.take(i as int).len() ==> #[trigger] s.take(
                    i as int,
                )[j] >= 1);
                lemma_seq_prod_pos(s.take(i as int));
                assert(seq_prod(s.take(i + 1 as int)) >= seq_prod(s.take(i as int)))
                    by (nonlinear_arith)
                    requires
                        seq_prod(s.take(i + 1 as int)) == seq_prod(s.take(i as int)) * s[i as int],
                        seq_prod(s.take(i as int)) >= 1,
                        s[i as int] >= 1,
                {
                }
                if seq_prod(s.take(i as int)) > u64::MAX {
                } else {
                    assert(acc as int == seq_prod(s.take(i as int)));
                    assert((acc as int) * (s[i as int] as int) == seq_prod(s.take(i + 1 as int)));
                }
            }
            proof {
                lemma_mul_upper_bound(acc as int, u64::MAX as int, d as int, u64::MAX as int);
            }
            let m: u128 = (acc as u128) * (d as u128);
            if m > (u64::MAX as u128) {
                acc = u64::MAX;
                proof {
                    if seq_prod(s.take(i as int)) <= u64::MAX {
                        assert(seq_prod(s.take(i + 1 as int)) > u64::MAX);
                    } else {
                        assert(seq_prod(s.take(i + 1 as int)) >= seq_prod(s.take(i as int)));
                    }
                }
            } else {
                proof {
                    assert(m >= 1) by (nonlinear_arith)
                        requires
                            m == (acc as int) * (d as int),
                            acc >= 1,
                            d >= 1,
                    {
                    }
                }
                acc = m as u64;
                proof {
                    if seq_prod(s.take(i as int)) > u64::MAX {
                        // then acc was already u64::MAX and acc * d <= u64::MAX forces d == 1
                        assert(m == (u64::MAX as u128) * (d as u128));
                        assert(d == 1) by (nonlinear_arith)
                            requires
                                (u64::MAX as u128) * (d as u128) <= u64::MAX as u128,
                                d >= 1,
                        {
                        }
                        assert(seq_prod(s.take(i + 1 as int)) == seq_prod(s.take(i as int)))
                            by (nonlinear_arith)
                            requires
                                seq_prod(s.take(i + 1 as int)) == seq_prod(s.take(i as int)) * (
                                d as int),
                                d == 1,
                        {
                        }
                    }
                }
            }
            i += 1;
        }
        proof {
            assert(shape_elems(self.shape).take(n as int) == shape_elems(self.shape));
        }
        acc
    }
}

impl RGraph {
    /// An empty graph.
    pub fn new() -> (r: RGraph)
        ensures
            r.nodes@.len() == 0,
            r.tensors@.len() == 0,
            rgraph_wf(r),
            count_outputs(r.nodes@, r.nodes@.len() as int) == 0,
    {
        RGraph { nodes: Vec::new(), tensors: Vec::new() }
    }

    /// The number of nodes.
    pub fn n_nodes(&self) -> (r: usize)
        ensures
            r == self.nodes@.len(),
    {
        self.nodes.len()
    }

    /// The number of tensors.
    pub fn n_tensors(&self) -> (r: usize)
        ensures
            r == self.tensors@.len(),
    {
        self.tensors.len()
    }

    /// Overrides the communication annotation of a tensor.
    pub fn set_communicatable(&mut self, t: RTensorId, c: bool) -> (r: Result<(), GraphError>)
        requires
            rgraph_wf(*old(self)),
        ensures
            rgraph_wf(*final(self)),
            final(self).nodes@ == old(self).nodes@,
            match r {
                Ok(()) => t.0 < old(self).tensors@.len() && final(self).tensors@.len()
                    == old(self).tensors@.len() && final(self).tensors@[t.0 as int].communicatable
                    == c && shape_elems(final(self).tensors@[t.0 as int].shape) == shape_elems(
                    old(self).tensors@[t.0 as int].shape,
                ) && final(self).tensors@[t.0 as int].producer
                    == old(self).tensors@[t.0 as int].producer
                    && final(self).tensors@[t.0 as int].consumers@
                    == old(self).tensors@[t.0 as int].consumers@
                    && forall|j: int|
                    0 <= j < final(self).tensors@.len() && j != t.0
                        ==> #[trigger] final(self).tensors@[j] == old(self).tensors@[j],
                Err(GraphError::UnknownTensor) => t.0 >= old(self).tensors@.len() && *final(self)
                    == *old(self),
                Err(_) => false,
            },
    {
        if t.0 >= self.tensors.len() {
            return Err(GraphError::UnknownTensor);
        }
        let old_t = &self.tensors[t.0];
        let replacement = RTensor {
            producer: old_t.producer,
            consumers: copy_node_ids(&old_t.consumers),
            shape: shape_clone(&old_t.shape),
            communicatable: c,
        };
        self.tensors.set(t.0, replacement);
        proof {
            assert forall|x: int| 0 <= x < self.tensors@.len() implies tensor_wf(*self, x) by {
                assert(tensor_wf(*old(self), x));
                if x == t.0 {
                    assert(self.tensors@[x].consumers@ == old(self).tensors@[x].consumers@);
                    assert(shape_elems(self.tensors@[x].shape) == shape_elems(
                        old(self).tensors@[x].shape,
                    ));
                    assert(self.tensors@[x].producer == old(self).tensors@[x].producer);
                } else {
                    assert(self.tensors@[x] == old(self).tensors@[x]);
                }
            }
            assert forall|n: int| 0 <= n < self.nodes@.len() implies node_wf(*self, n) by {
                assert(node_wf(*old(self), n));
            }
        }
        Ok(())
    }
}

/// A prefix with no `Output` node counts zero.
pub proof fn lemma_count_outputs_zero(s: Seq<RNode>, n: int)
    requires
        0 <= n <= s.len(),
        forall|j: int| 0 <= j < n ==> !((#[trigger] s[j].instruction) is Output),
    ensures
        count_outputs(s, n) == 0,
    decreases n,
{
    if n > 0 {
        lemma_count_outputs_zero(s, n - 1);
    }
}

/// How many of the first `k` inputs name tensor `t`.
pub open spec fn occurrences_upto(ins: Seq<RTensorId>, t: int, k: int) -> int
    decreases k,
{
    if k <= 0 {
        0
    } else {
        occurrences_upto(ins, t, k - 1) + if ins[k - 1].0 == t {
            1int
        } else {
            0int
        }
    }
}

/// How many of the inputs name tensor `t`.
pub open spec fn occurrences(ins: Seq<RTensorId>, t: int) -> int {
    occurrences_upto(ins, t, ins.len() as int)
}

/// The consumer list of tensor `t` after a node reading `ins` is appended:
/// the old list, with the new node appended once per input that names `t`.
pub open spec fn consumers_after(
    old_cons: Seq<RNodeId>,
    ins: Seq<RTensorId>,
    t: int,
    n: RNodeId,
) -> Seq<RNodeId> {
    old_cons + Seq::new(occurrences(ins, t) as nat, |x: int| n)
}

proof fn lemma_occurrences_upto_bounds(ins: Seq<RTensorId>, t: int, k: int)
    requires
        0 <= k <= ins.len(),
    ensures
        0 <= occurrences_upto(ins, t, k) <= k,
    decreases k,
{
    if k > 0 {
        lemma_occurrences_upto_bounds(ins, t, k - 1);
    }
}

/// An input list of one entry contributes that entry alone.
proof fn lemma_occurrences_one(ins: Seq<RTensorId>, t: int)
    requires
        ins.len() == 1,
    ensures
        occurrences(ins, t) == if ins[0].0 == t {
            1int
        } else {
            0int
        },
{
    assert(occurrences_upto(ins, t, 0) == 0);
}

/// An input list of three entries contributes each of them.
proof fn lemma_occurrences_three(ins: Seq<RTensorId>, t: int)
    requires
        ins.len() == 3,
    ensures
        occurrences(ins, t) == (if ins[0].0 == t {
            1int
        } else {
            0int
        }) + (if ins[1].0 == t {
            1int
        } else {
            0int
        }) + (if ins[2].0 == t {
            1int
        } else {
            0int
        }),
{
    assert(occurrences_upto(ins, t, 0) == 0);
    assert(occurrences_upto(ins, t, 1) == occurrences_upto(ins, t, 0) + if ins[0].0 == t {
        1int
    } else {
        0int
    });
    assert(occurrences_upto(ins, t, 2) == occurrences_upto(ins, t, 1) + if ins[1].0 == t {
        1int
    } else {
        0int
    });
}

/// Appends a consumer to one tensor, leaving every other tensor and every
/// other field untouched.
fn push_consumer(tensors: &mut Vec<RTensor>, t: usize, n: RNodeId)
    requires
        t < old(tensors)@.len(),
    ensures
        final(tensors)@.len() == old(tensors)@.len(),
        final(tensors)@[t as int].producer == old(tensors)@[t as int].producer,
        shape_elems(final(tensors)@[t as int].shape) == shape_elems(
            old(tensors)@[t as int].shape,
        ),
        final(tensors)@[t as int].communicatable == old(tensors)@[t as int].communicatable,
        final(tensors)@[t as int].consumers@ == old(tensors)@[t as int].consumers@.push(n),
        forall|j: int|
            0 <= j < final(tensors)@.len() && j != t ==> #[trigger] final(tensors)@[j] == old(
                tensors,
            )@[j],
{
    let old_t = &tensors[t];
    let mut consumers = copy_node_ids(&old_t.consumers);
    consumers.push(n);
    let replacement = RTensor {
        producer: old_t.producer,
        consumers,
        shape: shape_clone(&old_t.shape),
        communicatable: old_t.communicatable,
    };
    tensors.set(t, replacement);
}

impl RGraph {
    /// Appends one node reading `ins`, producing a fresh tensor of shape
    /// `out_shape` when one is given, and records the new node as a consumer
    /// of each input. The caller owns the catalog bookkeeping; this method
    /// owns the graph invariants.
    fn attach_node(
        &mut self,
        ins: &Vec<RTensorId>,
        out_shape: Option<Shape>,
        communicatable: bool,
        instruction: RInstruction,
    ) -> (r: Option<RTensorId>)
        requires
            rgraph_wf(*old(self)),
            forall|k: int| 0 <= k < ins@.len() ==> (#[trigger] ins@[k]).0
                < old(self).tensors@.len(),
            match out_shape {
                Some(sh) => shape_ok(sh),
                None => true,
            },
        ensures
            rgraph_wf(*final(self)),
            final(self).nodes@.len() == old(self).nodes@.len() + 1,
            final(self).nodes@[old(self).nodes@.len() as int].instruction == instruction,
            final(self).nodes@[old(self).nodes@.len() as int].inputs@ == ins@,
            forall|j: int|
                0 <= j < old(self).nodes@.len() ==> #[trigger] final(self).nodes@[j] == old(
                    self,
                ).nodes@[j],
            forall|t: int|
                0 <= t < old(self).tensors@.len() ==> {
                    &&& (#[trigger] final(self).tensors@[t]).producer
                        == old(self).tensors@[t].producer
                    &&& shape_elems(final(self).tensors@[t].shape) == shape_elems(
                        old(self).tensors@[t].shape,
                    )
                    &&& final(self).tensors@[t].communicatable
                        == old(self).tensors@[t].communicatable
                    &&& final(self).tensors@[t].consumers@ == consumers_after(
                        old(self).tensors@[t].consumers@,
                        ins@,
                        t,
                        RNodeId(old(self).nodes@.len() as usize),
                    )
                },
            match r {
                Some(tid) => {
                    &&& out_shape is Some
                    &&& tid.0 == old(self).tensors@.len()
                    &&& final(self).tensors@.len() == old(self).tensors@.len() + 1
                    &&& final(self).tensors@[tid.0 as int].producer.0 == old(self).nodes@.len()
                    &&& final(self).tensors@[tid.0 as int].shape == out_shape.unwrap()
                    &&& final(self).tensors@[tid.0 as int].communicatable == communicatable
                    &&& final(self).tensors@[tid.0 as int].consumers@ == Seq::<RNodeId>::empty()
                    &&& final(self).nodes@[old(self).nodes@.len() as int].outputs@ == seq![tid]
                },
                None => {
                    &&& out_shape is None
                    &&& final(self).tensors@.len() == old(self).tensors@.len()
                    &&& final(self).nodes@[old(self).nodes@.len() as int].outputs@
                        == Seq::<RTensorId>::empty()
                },
            },
    {
        let node_id = RNodeId(self.nodes.len());
        let ghost orig_tensors = self.tensors@;
        proof {
            assert forall|t: int| 0 <= t < orig_tensors.len() implies (
            #[trigger] self.tensors@[t]).consumers@ == orig_tensors[t].consumers@ + Seq::new(
                occurrences_upto(ins@, t, 0) as nat,
                |x: int| node_id,
            ) by {
                assert(occurrences_upto(ins@, t, 0) == 0);
                assert(self.tensors@[t].consumers@ =~= orig_tensors[t].consumers@ + Seq::new(
                    0nat,
                    |x: int| node_id,
                ));
            }
        }
        let mut k: usize = 0;
        while k < ins.len()
            invariant
                k <= ins@.len(),
                forall|m: int| 0 <= m < ins@.len() ==> (#[trigger] ins@[m]).0
                    < orig_tensors.len(),
                self.tensors@.len() == orig_tensors.len(),
                self.nodes@ == old(self).nodes@,
                node_id.0 == self.nodes@.len(),
                forall|t: int|
                    0 <= t < orig_tensors.len() ==> {
                        &&& (#[trigger] self.tensors@[t]).producer == orig_tensors[t].producer
                        &&& shape_elems(self.tensors@[t].shape) == shape_elems(
                            orig_tensors[t].shape,
                        )
                        &&& self.tensors@[t].communicatable == orig_tensors[t].communicatable
                        &&& self.tensors@[t].consumers@.len() >= orig_tensors[t].consumers@.len()
                    },
                forall|t: int, c: int|
                    0 <= t < orig_tensors.len() && 0 <= c < orig_tensors[t].consumers@.len()
                        ==> (#[trigger] self.tensors@[t].consumers@[c])
                        == orig_tensors[t].consumers@[c],
                forall|t: int, c: int|
                    0 <= t < orig_tensors.len() && orig_tensors[t].consumers@.len() <= c
                        < self.tensors@[t].consumers@.len()
                        ==> (#[trigger] self.tensors@[t].consumers@[c]) == node_id,
                forall|t: int|
                    0 <= t < orig_tensors.len() && orig_tensors[t].consumers@.len()
                        < (#[trigger] self.tensors@[t].consumers@.len()) ==> ins@.contains(
                        RTensorId(t as usize),
                    ),
                forall|t: int|
                    0 <= t < orig_tensors.len() ==> (#[trigger] self.tensors@[t]).consumers@
                        == orig_tensors[t].consumers@ + Seq::new(
                        occurrences_upto(ins@, t, k as int) as nat,
                        |x: int| node_id,
                    ),
            decreases ins@.len() - k,
        {
            let t = ins[k];
            let ghost prev = self.tensors@;
            push_consumer(&mut self.tensors, t.0, node_id);
            proof {
                assert(ins@[k as int] == t);
                assert(ins@.contains(RTensorId(t.0)));
                let cur = self.tensors@;
                assert(self.tensors.len() == self.tensors@.len());
                assert(cur.len() <= usize::MAX);
                assert(cur[t.0 as int].consumers@ == prev[t.0 as int].consumers@.push(node_id));
                assert forall|tt: int, c: int|
                    0 <= tt < orig_tensors.len() && orig_tensors[tt].consumers@.len() <= c
                        < cur[tt].consumers@.len() implies (#[trigger] cur[tt].consumers@[c])
                    == node_id by {
                    if tt == t.0 {
                        if c < prev[tt].consumers@.len() {
                            assert(cur[tt].consumers@[c] == prev[tt].consumers@[c]);
                        } else {
                            assert(cur[tt].consumers@[c] == node_id);
                        }
                    } else {
                        assert(cur[tt] == prev[tt]);
                    }
                }
                assert forall|tt: int|
                    0 <= tt < orig_tensors.len() && orig_tensors[tt].consumers@.len() < (
                    #[trigger] cur[tt].consumers@.len()) implies ins@.contains(
                    RTensorId(tt as usize),
                ) by {
                    if tt == t.0 {
                        assert(RTensorId(tt as usize) == t);
                    } else {
                        assert(cur[tt] == prev[tt]);
                    }
                }
                assert forall|tt: int| 0 <= tt < orig_tensors.len() implies (
                #[trigger] cur[tt]).consumers@ == orig_tensors[tt].consumers@ + Seq::new(
                    occurrences_upto(ins@, tt, k as int + 1) as nat,
                    |x: int| node_id,
                ) by {
                    lemma_occurrences_upto_bounds(ins@, tt, k as int);
                    assert(occurrences_upto(ins@, tt, k as int + 1) == occurrences_upto(
                        ins@,
                        tt,
                        k as int,
                    ) + if ins@[k as int].0 == tt {
                        1int
                    } else {
                        0int
                    });
                    if tt == t.0 {
                        assert(cur[tt].consumers@ == prev[tt].consumers@.push(node_id));
                        assert(cur[tt].consumers@ =~= orig_tensors[tt].consumers@ + Seq::new(
                            (occurrences_upto(ins@, tt, k as int) + 1) as nat,
                            |x: int| node_id,
                        ));
                    } else {
                        assert(cur[tt] == prev[tt]);
                    }
                }
            }
            k += 1;
        }
        let tid = RTensorId(self.tensors.len());
        let made: Option<RTensorId>;
        let outputs: Vec<RTensorId>;
        let has_shape = out_shape.is_some();
        if has_shape {
            let mut o: Vec<RTensorId> = Vec::new();
            o.push(tid);
            outputs = o;
            made = Some(tid);
        } else {
            outputs = Vec::new();
            made = None;
        }
        self.nodes.push(RNode { inputs: copy_tensor_ids(ins), outputs, instruction });
        if let Some(sh) = out_shape {
            self.tensors.push(
                RTensor { producer: node_id, consumers: Vec::new(), shape: sh, communicatable },
            );
        }
        proof {
            let g = *self;
            let oldg = *old(self);
            assert(self.tensors.len() == self.tensors@.len());
            assert(g.tensors@.len() <= usize::MAX);
            assert forall|t: int| 0 <= t < g.tensors@.len() implies tensor_wf(g, t) by {
                if t < orig_tensors.len() {
                    assert(tensor_wf(oldg, t));
                    let tn = g.tensors@[t];
                    assert(g.nodes@[tn.producer.0 as int] == oldg.nodes@[tn.producer.0 as int]);
                    assert forall|c: int| 0 <= c < tn.consumers@.len() implies (
                    #[trigger] tn.consumers@[c]).0 < g.nodes@.len()
                        && g.nodes@[tn.consumers@[c].0 as int].inputs@.contains(
                        RTensorId(t as usize),
                    ) by {
                        if c < orig_tensors[t].consumers@.len() {
                            assert(tn.consumers@[c] == orig_tensors[t].consumers@[c]);
                            assert(g.nodes@[tn.consumers@[c].0 as int]
                                == oldg.nodes@[tn.consumers@[c].0 as int]);
                        } else {
                            assert(tn.consumers@[c] == node_id);
                            assert(ins@.contains(RTensorId(t as usize)));
                            assert(g.nodes@[node_id.0 as int].inputs@ == ins@);
                        }
                    }
                } else {
                    // the freshly produced tensor
                    assert(g.nodes@[node_id.0 as int].outputs@[0] == RTensorId(t as usize));
                }
            }
            assert forall|n: int| 0 <= n < g.nodes@.len() implies node_wf(g, n) by {
                if n < oldg.nodes@.len() {
                    assert(node_wf(oldg, n));
                    assert(g.nodes@[n] == oldg.nodes@[n]);
                }
            }
            assert forall|t: int| 0 <= t < orig_tensors.len() implies (
            #[trigger] g.tensors@[t]).consumers@ == consumers_after(
                orig_tensors[t].consumers@,
                ins@,
                t,
                node_id,
            ) by {
                assert(occurrences(ins@, t) == occurrences_upto(ins@, t, ins@.len() as int));
            }
        }
        made
    }
}

/// Counting outputs looks only at the prefix values.
pub proof fn lemma_count_outputs_agree(s1: Seq<RNode>, s2: Seq<RNode>, n: int)
    requires
        0 <= n <= s1.len(),
        n <= s2.len(),
        forall|j: int| 0 <= j < n ==> #[trigger] s1[j].instruction == s2[j].instruction,
    ensures
        count_outputs(s1, n) == count_outputs(s2, n),
    decreases n,
{
    if n > 0 {
        lemma_count_outputs_agree(s1, s2, n - 1);
    }
}

/// Consistency with the metadata survives appending nodes, tensors and
/// catalog entries, as long as the old entries keep their kinds and shapes.
proof fn lemma_module_wf_preserved(oldg: RGraph, oldmi: ModuleInfo, g: RGraph, mi: ModuleInfo)
    requires
        rgraph_wf(oldg),
        module_wf(oldg, oldmi),
        g.nodes@.len() >= oldg.nodes@.len(),
        forall|j: int| 0 <= j < oldg.nodes@.len() ==> #[trigger] g.nodes@[j] == oldg.nodes@[j],
        mi.ops@.len() >= oldmi.ops@.len(),
        forall|i: int| 0 <= i < oldmi.ops@.len() ==> (#[trigger] mi.ops@[i]).kind
            == oldmi.ops@[i].kind,
        mi.placeholders@.len() >= oldmi.placeholders@.len(),
        mi.parameters@.len() >= oldmi.parameters@.len(),
        g.tensors@.len() >= oldg.tensors@.len(),
        forall|t: int|
            0 <= t < oldg.tensors@.len() ==> shape_elems((#[trigger] g.tensors@[t]).shape)
                == shape_elems(oldg.tensors@[t].shape),
    ensures
        forall|n: int| 0 <= n < oldg.nodes@.len() ==> node_module_wf(g, mi, n),
{
    assert forall|n: int| 0 <= n < oldg.nodes@.len() implies node_module_wf(g, mi, n) by {
        assert(node_module_wf(oldg, oldmi, n));
        assert(node_wf(oldg, n));
        let nd = g.nodes@[n];
        assert(nd == oldg.nodes@[n]);
        match nd.instruction {
            RInstruction::Op(op) => {
                assert(mi.ops@[op.0 as int].kind == oldmi.ops@[op.0 as int].kind);
                match oldmi.ops@[op.0 as int].kind {
                    OpKind::Linear => {
                        assert(shape_elems(g.tensors@[nd.inputs@[0].0 as int].shape)
                            == shape_elems(oldg.tensors@[nd.inputs@[0].0 as int].shape));
                        assert(shape_elems(g.tensors@[nd.inputs@[1].0 as int].shape)
                            == shape_elems(oldg.tensors@[nd.inputs@[1].0 as int].shape));
                        assert(shape_elems(g.tensors@[nd.outputs@[0].0 as int].shape)
                            == shape_elems(oldg.tensors@[nd.outputs@[0].0 as int].shape));
                    },
                    OpKind::Elementwise => {},
                    OpKind::Reducing => {},
                }
            },
            RInstruction::GetAttr(_) => {},
            RInstruction::Placeholder(_) => {},
            RInstruction::Output => {},
        }
    }
}

/// Copies a vector of tensor ids.
fn copy_tensor_ids(v: &Vec<RTensorId>) -> (r: Vec<RTensorId>)
    ensures
        r@ == v@,
{
    let mut r: Vec<RTensorId> = Vec::new();
    let mut i: usize = 0;
    while i < v.len()
        invariant
            i <= v@.len(),
            r@ == v@.take(i as int),
        decreases v@.len() - i,
    {
        r.push(v[i]);
        proof {
            assert(v@.take(i + 1 as int) == v@.take(i as int).push(v@[i as int]));
        }
        i += 1;
    }
    proof {
        assert(v@.take(v@.len() as int) == v@);
    }
    r
}

/// Copies a vector of node ids.
fn copy_node_ids(v: &Vec<RNodeId>) -> (r: Vec<RNodeId>)
    ensures
        r@ == v@,
{
    let mut r: Vec<RNodeId> = Vec::new();
    let mut i: usize = 0;
    while i < v.len()
        invariant
            i <= v@.len(),
            r@ == v@.take(i as int),
        decreases v@.len() - i,
    {
        r.push(v[i]);
        proof {
            assert(v@.take(i + 1 as int) == v@.take(i as int).push(v@[i as int]));
        }
        i += 1;
    }
    proof {
        assert(v@.take(v@.len() as int) == v@);
    }
    r
}

impl RGraph {
    /// Adds a model-input node. The tensor it produces starts
    /// non-communicatable, as elementwise pipelines force its sharding; a
    /// user annotation can override that.
    pub fn add_placeholder(&mut self, mi: &mut ModuleInfo, name: String, dims: &Vec<usize>) -> (r:
        Result<RTensorId, GraphError>)
        requires
            rgraph_wf(*old(self)),
            module_wf(*old(self), *old(mi)),
        ensures
            rgraph_wf(*final(self)),
            module_wf(*final(self), *final(mi)),
            match r {
                Ok(tid) => {
                    &&& dims@.len() <= 255
                    &&& (forall|j: int| 0 <= j < dims@.len() ==> #[trigger] dims@[j] >= 1)
                    &&& tid.0 == old(self).tensors@.len()
                    &&& final(self).tensors@.len() == old(self).tensors@.len() + 1
                    &&& final(self).nodes@.len() == old(self).nodes@.len() + 1
                    &&& shape_elems(final(self).tensors@[tid.0 as int].shape) == dims@
                    &&& final(self).tensors@[tid.0 as int].communicatable == false
                    &&& final(self).nodes@[old(self).nodes@.len() as int].instruction
                        == RInstruction::Placeholder(PlaceholderId(old(mi).placeholders@.len() as usize))
                    &&& forall|t: int|
                        0 <= t < old(self).tensors@.len()
                            ==> (#[trigger] final(self).tensors@[t]).consumers@
                            == old(self).tensors@[t].consumers@
                    &&& final(mi).placeholders@ == old(mi).placeholders@.push(name)
                    &&& final(mi).parameters@ == old(mi).parameters@
                    &&& final(mi).ops@ == old(mi).ops@
                    &&& count_outputs(final(self).nodes@, final(self).nodes@.len() as int)
                        == count_outputs(old(self).nodes@, old(self).nodes@.len() as int)
                },
                Err(GraphError::RankTooLarge) => dims@.len() > 255 && *final(self) == *old(self)
                    && *final(mi) == *old(mi),
                Err(GraphError::NonPositiveDim) => dims@.len() <= 255 && (exists|j: int|
                    0 <= j < dims@.len() && dims@[j] == 0) && *final(self) == *old(self)
                    && *final(mi) == *old(mi),
                Err(_) => false,
            },
    {
        if dims.len() > 255 {
            return Err(GraphError::RankTooLarge);
        }
        let mut j: usize = 0;
        while j < dims.len()
            invariant
                j <= dims@.len(),
                dims@.len() <= 255,
                forall|x: int| 0 <= x < j ==> #[trigger] dims@[x] >= 1,
                *self == *old(self),
                *mi == *old(mi),
                rgraph_wf(*old(self)),
                module_wf(*old(self), *old(mi)),
            decreases dims@.len() - j,
        {
            if dims[j] == 0 {
                return Err(GraphError::NonPositiveDim);
            }
            j += 1;
        }
        let pid = PlaceholderId(mi.placeholders.len());
        mi.placeholders.push(name);
        let sh = shape_from_vec(dims);
        let ins: Vec<RTensorId> = Vec::new();
        let ghost oldg = *old(self);
        let r = self.attach_node(&ins, Some(sh), false, RInstruction::Placeholder(pid));
        proof {
            lemma_module_wf_preserved(oldg, *old(mi), *self, *mi);
            assert(node_module_wf(*self, *mi, oldg.nodes@.len() as int));
            lemma_count_outputs_agree(self.nodes@, oldg.nodes@, oldg.nodes@.len() as int);
            assert forall|t: int| 0 <= t < oldg.tensors@.len() implies (
            #[trigger] self.tensors@[t]).consumers@ == oldg.tensors@[t].consumers@ by {
                assert(occurrences_upto(ins@, t, 0) == 0);
                assert(self.tensors@[t].consumers@ =~= oldg.tensors@[t].consumers@);
            }
        }
        match r {
            Some(tid) => Ok(tid),
            None => {
                proof {
                    assert(false);
                }
                Err(GraphError::UnknownTensor)
            },
        }
    }

    /// Adds a model-parameter node; like a placeholder, but the synthesizer
    /// adds a gradient all-reduce to the backward profile of its replicated
    /// variant.
    pub fn add_get_attr(&mut self, mi: &mut ModuleInfo, name: String, dims: &Vec<usize>) -> (r:
        Result<RTensorId, GraphError>)
        requires
            rgraph_wf(*old(self)),
            module_wf(*old(self), *old(mi)),
        ensures
            rgraph_wf(*final(self)),
            module_wf(*final(self), *final(mi)),
            match r {
                Ok(tid) => {
                    &&& dims@.len() <= 255
                    &&& (forall|j: int| 0 <= j < dims@.len() ==> #[trigger] dims@[j] >= 1)
                    &&& tid.0 == old(self).tensors@.len()
                    &&& final(self).tensors@.len() == old(self).tensors@.len() + 1
                    &&& final(self).nodes@.len() == old(self).nodes@.len() + 1
                    &&& shape_elems(final(self).tensors@[tid.0 as int].shape) == dims@
                    &&& final(self).tensors@[tid.0 as int].communicatable == false
                    &&& final(self).nodes@[old(self).nodes@.len() as int].instruction
                        == RInstruction::GetAttr(ParameterId(old(mi).parameters@.len() as usize))
                    &&& forall|t: int|
                        0 <= t < old(self).tensors@.len()
                            ==> (#[trigger] final(self).tensors@[t]).consumers@
                            == old(self).tensors@[t].consumers@
                    &&& final(mi).parameters@ == old(mi).parameters@.push(name)
                    &&& final(mi).placeholders@ == old(mi).placeholders@
                    &&& final(mi).ops@ == old(mi).ops@
                    &&& count_outputs(final(self).nodes@, final(self).nodes@.len() as int)
                        == count_outputs(old(self).nodes@, old(self).nodes@.len() as int)
                },
                Err(GraphError::RankTooLarge) => dims@.len() > 255 && *final(self) == *old(self)
                    && *final(mi) == *old(mi),
                Err(GraphError::NonPositiveDim) => dims@.len() <= 255 && (exists|j: int|
                    0 <= j < dims@.len() && dims@[j] == 0) && *final(self) == *old(self)
                    && *final(mi) == *old(mi),
                Err(_) => false,
            },
    {
        if dims.len() > 255 {
            return Err(GraphError::RankTooLarge);
        }
        let mut j: usize = 0;
        while j < dims.len()
            invariant
                j <= dims@.len(),
                dims@.len() <= 255,
                forall|x: int| 0 <= x < j ==> #[trigger] dims@[x] >= 1,
                *self == *old(self),
                *mi == *old(mi),
                rgraph_wf(*old(self)),
                module_wf(*old(self), *old(mi)),
            decreases dims@.len() - j,
        {
            if dims[j] == 0 {
                return Err(GraphError::NonPositiveDim);
            }
            j += 1;
        }
        let pid = ParameterId(mi.parameters.len());
        mi.parameters.push(name);
        let sh = shape_from_vec(dims);
        let ins: Vec<RTensorId> = Vec::new();
        let ghost oldg = *old(self);
        let r = self.attach_node(&ins, Some(sh), false, RInstruction::GetAttr(pid));
        proof {
            lemma_module_wf_preserved(oldg, *old(mi), *self, *mi);
            assert(node_module_wf(*self, *mi, oldg.nodes@.len() as int));
            lemma_count_outputs_agree(self.nodes@, oldg.nodes@, oldg.nodes@.len() as int);
            assert forall|t: int| 0 <= t < oldg.tensors@.len() implies (
            #[trigger] self.tensors@[t]).consumers@ == oldg.tensors@[t].consumers@ by {
                assert(occurrences_upto(ins@, t, 0) == 0);
                assert(self.tensors@[t].consumers@ =~= oldg.tensors@[t].consumers@);
            }
        }
        match r {
            Some(tid) => Ok(tid),
            None => {
                proof {
                    assert(false);
                }
                Err(GraphError::UnknownTensor)
            },
        }
    }

    /// Adds an elementwise operator node (for example a sigmoid): one input,
    /// one output of the same shape. The output starts non-communicatable,
    /// since its sharding follows the input.
    pub fn add_elementwise(&mut self, mi: &mut ModuleInfo, name: String, input: RTensorId) -> (r:
        Result<RTensorId, GraphError>)
        requires
            rgraph_wf(*old(self)),
            module_wf(*old(self), *old(mi)),
        ensures
            rgraph_wf(*final(self)),
            module_wf(*final(self), *final(mi)),
            match r {
                Ok(tid) => {
                    &&& input.0 < old(self).tensors@.len()
                    &&& tid.0 == old(self).tensors@.len()
                    &&& final(self).tensors@.len() == old(self).tensors@.len() + 1
                    &&& final(self).nodes@.len() == old(self).nodes@.len() + 1
                    &&& shape_elems(final(self).tensors@[tid.0 as int].shape) == shape_elems(
                        old(self).tensors@[input.0 as int].shape,
                    )
                    &&& final(self).tensors@[tid.0 as int].communicatable == false
                    &&& final(self).nodes@[old(self).nodes@.len() as int].instruction
                        == RInstruction::Op(OpId(old(mi).ops@.len() as usize))
                    &&& final(self).nodes@[old(self).nodes@.len() as int].inputs@ == seq![input]
                    &&& final(self).tensors@[input.0 as int].consumers@
                        == old(self).tensors@[input.0 as int].consumers@.push(
                        RNodeId(old(self).nodes@.len() as usize),
                    )
                    &&& forall|t: int|
                        0 <= t < old(self).tensors@.len() && t != input.0
                            ==> (#[trigger] final(self).tensors@[t]).consumers@
                            == old(self).tensors@[t].consumers@
                    &&& final(mi).ops@.len() == old(mi).ops@.len() + 1
                    &&& final(mi).ops@[old(mi).ops@.len() as int].kind == OpKind::Elementwise
                    &&& final(mi).ops@[old(mi).ops@.len() as int].name == name
                    &&& final(mi).placeholders@ == old(mi).placeholders@
                    &&& final(mi).parameters@ == old(mi).parameters@
                    &&& count_outputs(final(self).nodes@, final(self).nodes@.len() as int)
                        == count_outputs(old(self).nodes@, old(self).nodes@.len() as int)
                },
                Err(GraphError::UnknownTensor) => input.0 >= old(self).tensors@.len() && *final(self) == *old(self) && *final(mi) == *old(mi),
                Err(_) => false,
            },
    {
        if input.0 >= self.tensors.len() {
            return Err(GraphError::UnknownTensor);
        }
        let op_id = OpId(mi.ops.len());
        mi.ops.push(Op { name, kind: OpKind::Elementwise });
        let sh = shape_clone(&self.tensors[input.0].shape);
        proof {
            assert(tensor_wf(*self, input.0 as int));
        }
        let mut ins: Vec<RTensorId> = Vec::new();
        ins.push(input);
        let ghost oldg = *old(self);
        let r = self.attach_node(&ins, Some(sh), false, RInstruction::Op(op_id));
        proof {
            lemma_module_wf_preserved(oldg, *old(mi), *self, *mi);
            assert(node_module_wf(*self, *mi, oldg.nodes@.len() as int));
            lemma_count_outputs_agree(self.nodes@, oldg.nodes@, oldg.nodes@.len() as int);
            let nid = RNodeId(oldg.nodes@.len() as usize);
            lemma_occurrences_one(ins@, input.0 as int);
            assert(self.tensors@[input.0 as int].consumers@
                =~= oldg.tensors@[input.0 as int].consumers@.push(nid));
            assert forall|t: int| 0 <= t < oldg.tensors@.len() && t != input.0 implies (
            #[trigger] self.tensors@[t]).consumers@ == oldg.tensors@[t].consumers@ by {
                lemma_occurrences_one(ins@, t);
                assert(self.tensors@[t].consumers@ =~= oldg.tensors@[t].consumers@);
            }
        }
        match r {
            Some(tid) => Ok(tid),
            None => {
                proof {
                    assert(false);
                }
                Err(GraphError::UnknownTensor)
            },
        }
    }

    /// Adds a reducing operator node (for example a full sum): one input
    /// reduced to a scalar output of rank zero.
    pub fn add_reducing(&mut self, mi: &mut ModuleInfo, name: String, input: RTensorId) -> (r:
        Result<RTensorId, GraphError>)
        requires
            rgraph_wf(*old(self)),
            module_wf(*old(self), *old(mi)),
        ensures
            rgraph_wf(*final(self)),
            module_wf(*final(self), *final(mi)),
            match r {
                Ok(tid) => {
                    &&& input.0 < old(self).tensors@.len()
                    &&& tid.0 == old(self).tensors@.len()
                    &&& final(self).tensors@.len() == old(self).tensors@.len() + 1
                    &&& final(self).nodes@.len() == old(self).nodes@.len() + 1
                    &&& shape_elems(final(self).tensors@[tid.0 as int].shape)
                        == Seq::<usize>::empty()
                    &&& final(self).tensors@[tid.0 as int].communicatable == false
                    &&& final(self).nodes@[old(self).nodes@.len() as int].instruction
                        == RInstruction::Op(OpId(old(mi).ops@.len() as usize))
                    &&& final(self).nodes@[old(self).nodes@.len() as int].inputs@ == seq![input]
                    &&& final(self).tensors@[input.0 as int].consumers@
                        == old(self).tensors@[input.0 as int].consumers@.push(
                        RNodeId(old(self).nodes@.len() as usize),
                    )
                    &&& forall|t: int|
                        0 <= t < old(self).tensors@.len() && t != input.0
                            ==> (#[trigger] final(self).tensors@[t]).consumers@
                            == old(self).tensors@[t].consumers@
                    &&& final(mi).ops@.len() == old(mi).ops@.len() + 1
                    &&& final(mi).ops@[old(mi).ops@.len() as int].kind == OpKind::Reducing
                    &&& final(mi).ops@[old(mi).ops@.len() as int].name == name
                    &&& final(mi).placeholders@ == old(mi).placeholders@
                    &&& final(mi).parameters@ == old(mi).parameters@
                    &&& count_outputs(final(self).nodes@, final(self).nodes@.len() as int)
                        == count_outputs(old(self).nodes@, old(self).nodes@.len() as int)
                },
                Err(GraphError::UnknownTensor) => input.0 >= old(self).tensors@.len() && *final(self) == *old(self) && *final(mi) == *old(mi),
                Err(_) => false,
            },
    {
        if input.0 >= self.tensors.len() {
            return Err(GraphError::UnknownTensor);
        }
        let op_id = OpId(mi.ops.len());
        mi.ops.push(Op { name, kind: OpKind::Reducing });
        let sh = shape_new();
        proof {
            assert(shape_ok(sh));
        }
        let mut ins: Vec<RTensorId> = Vec::new();
        ins.push(input);
        let ghost oldg = *old(self);
        let r = self.attach_node(&ins, Some(sh), false, RInstruction::Op(op_id));
        proof {
            lemma_module_wf_preserved(oldg, *old(mi), *self, *mi);
            assert(node_module_wf(*self, *mi, oldg.nodes@.len() as int));
            lemma_count_outputs_agree(self.nodes@, oldg.nodes@, oldg.nodes@.len() as int);
            let nid = RNodeId(oldg.nodes@.len() as usize);
            lemma_occurrences_one(ins@, input.0 as int);
            assert(self.tensors@[input.0 as int].consumers@
                =~= oldg.tensors@[input.0 as int].consumers@.push(nid));
            assert forall|t: int| 0 <= t < oldg.tensors@.len() && t != input.0 implies (
            #[trigger] self.tensors@[t]).consumers@ == oldg.tensors@[t].consumers@ by {
                lemma_occurrences_one(ins@, t);
                assert(self.tensors@[t].consumers@ =~= oldg.tensors@[t].consumers@);
            }
        }
        match r {
            Some(tid) => Ok(tid),
            None => {
                proof {
                    assert(false);
                }
                Err(GraphError::UnknownTensor)
            },
        }
    }

    /// Adds a linear (matmul plus bias) node. For an input of shape
    /// `[leading.., F]`, the weight must have shape `[G, F]` and the bias
    /// `[G]`; the output has shape `[leading.., G]` and is communicatable.
    pub fn add_linear(
        &mut self,
        mi: &mut ModuleInfo,
        name: String,
        input: RTensorId,
        weight: RTensorId,
        bias: RTensorId,
    ) -> (r: Result<RTensorId, GraphError>)
        requires
            rgraph_wf(*old(self)),
            module_wf(*old(self), *old(mi)),
        ensures
            rgraph_wf(*final(self)),
            module_wf(*final(self), *final(mi)),
            match r {
                Ok(tid) => {
                    let in_elems = shape_elems(old(self).tensors@[input.0 as int].shape);
                    let w_elems = shape_elems(old(self).tensors@[weight.0 as int].shape);
                    let b_elems = shape_elems(old(self).tensors@[bias.0 as int].shape);
                    &&& input.0 < old(self).tensors@.len()
                    &&& weight.0 < old(self).tensors@.len()
                    &&& bias.0 < old(self).tensors@.len()
                    &&& in_elems.len() >= 1
                    &&& w_elems.len() == 2
                    &&& b_elems.len() == 1
                    &&& w_elems[1] == in_elems[in_elems.len() - 1]
                    &&& b_elems[0] == w_elems[0]
                    &&& tid.0 == old(self).tensors@.len()
                    &&& final(self).tensors@.len() == old(self).tensors@.len() + 1
                    &&& final(self).nodes@.len() == old(self).nodes@.len() + 1
                    &&& shape_elems(final(self).tensors@[tid.0 as int].shape)
                        == in_elems.drop_last().push(w_elems[0] as usize)
                    &&& final(self).tensors@[tid.0 as int].communicatable == true
                    &&& final(self).nodes@[old(self).nodes@.len() as int].instruction
                        == RInstruction::Op(OpId(old(mi).ops@.len() as usize))
                    &&& final(self).nodes@[old(self).nodes@.len() as int].inputs@ == seq![
                        input,
                        weight,
                        bias,
                    ]
                    &&& forall|t: int|
                        0 <= t < old(self).tensors@.len()
                            ==> (#[trigger] final(self).tensors@[t]).consumers@
                            == consumers_after(
                            old(self).tensors@[t].consumers@,
                            seq![input, weight, bias],
                            t,
                            RNodeId(old(self).nodes@.len() as usize),
                        )
                    &&& (input != weight && input != bias
                        ==> final(self).tensors@[input.0 as int].consumers@
                        == old(self).tensors@[input.0 as int].consumers@.push(
                        RNodeId(old(self).nodes@.len() as usize),
                    ))
                    &&& (weight != input && weight != bias
                        ==> final(self).tensors@[weight.0 as int].consumers@
                        == old(self).tensors@[weight.0 as int].consumers@.push(
                        RNodeId(old(self).nodes@.len() as usize),
                    ))
                    &&& (bias != input && bias != weight
                        ==> final(self).tensors@[bias.0 as int].consumers@
                        == old(self).tensors@[bias.0 as int].consumers@.push(
                        RNodeId(old(self).nodes@.len() as usize),
                    ))
                    &&& final(mi).ops@.len() == old(mi).ops@.len() + 1
                    &&& final(mi).ops@[old(mi).ops@.len() as int].kind == OpKind::Linear
                    &&& final(mi).ops@[old(mi).ops@.len() as int].name == name
                    &&& final(mi).placeholders@ == old(mi).placeholders@
                    &&& final(mi).parameters@ == old(mi).parameters@
                    &&& count_outputs(final(self).nodes@, final(self).nodes@.len() as int)
                        == count_outputs(old(self).nodes@, old(self).nodes@.len() as int)
                },
                Err(GraphError::UnknownTensor) => (input.0 >= old(self).tensors@.len() || weight.0
                    >= old(self).tensors@.len() || bias.0 >= old(self).tensors@.len()) && *final(self) == *old(self) && *final(mi) == *old(mi),
                Err(GraphError::BadOperandShapes) => {
                    let in_elems = shape_elems(old(self).tensors@[input.0 as int].shape);
                    let w_elems = shape_elems(old(self).tensors@[weight.0 as int].shape);
                    let b_elems = shape_elems(old(self).tensors@[bias.0 as int].shape);
                    &&& input.0 < old(self).tensors@.len()
                    &&& weight.0 < old(self).tensors@.len()
                    &&& bias.0 < old(self).tensors@.len()
                    &&& !(in_elems.len() >= 1 && w_elems.len() == 2 && b_elems.len() == 1
                        && w_elems[1] == in_elems[in_elems.len() - 1] && b_elems[0] == w_elems[0])
                    &&& *final(self) == *old(self)
                    &&& *final(mi) == *old(mi)
                },
                Err(_) => false,
            },
    {
        if input.0 >= self.tensors.len() || weight.0 >= self.tensors.len() || bias.0
            >= self.tensors.len() {
            return Err(GraphError::UnknownTensor);
        }
        let in_rank = shape_len(&self.tensors[input.0].shape);
        let w_rank = shape_len(&self.tensors[weight.0].shape);
        let b_rank = shape_len(&self.tensors[bias.0].shape);
        if in_rank == 0 || w_rank != 2 || b_rank != 1 {
            return Err(GraphError::BadOperandShapes);
        }
        let f = shape_get(&self.tensors[input.0].shape, in_rank - 1);
        let g = shape_get(&self.tensors[weight.0].shape, 0);
        let w1 = shape_get(&self.tensors[weight.0].shape, 1);
        let b0 = shape_get(&self.tensors[bias.0].shape, 0);
        if w1 != f || b0 != g {
            return Err(GraphError::BadOperandShapes);
        }
        let ghost in_elems = shape_elems(self.tensors@[input.0 as int].shape);
        let mut sh = shape_new();
        let mut j: usize = 0;
        while j < in_rank - 1
            invariant
                j <= in_rank - 1,
                in_rank >= 1,
                in_rank == in_elems.len(),
                input.0 < self.tensors@.len(),
                in_elems == shape_elems(self.tensors@[input.0 as int].shape),
                shape_elems(sh) == in_elems.take(j as int),
            decreases in_rank - 1 - j,
        {
            let d = shape_get(&self.tensors[input.0].shape, j);
            shape_push(&mut sh, d);
            proof {
                assert(in_elems.take(j + 1 as int) == in_elems.take(j as int).push(
                    in_elems[j as int],
                ));
            }
            j += 1;
        }
        shape_push(&mut sh, g);
        proof {
            assert(in_elems.take(in_rank - 1 as int) == in_elems.drop_last());
            assert(rgraph_wf(*self));
            assert(tensor_wf(*self, input.0 as int));
            assert(shape_ok(self.tensors@[input.0 as int].shape));
            assert forall|x: int| 0 <= x < shape_elems(sh).len() implies #[trigger] shape_elems(
                sh,
            )[x] >= 1 by {
                if x < in_elems.len() - 1 {
                    assert(shape_elems(sh)[x] == in_elems[x]);
                } else {
                    assert(shape_elems(sh)[x] == g);
                    assert(tensor_wf(*self, weight.0 as int));
                }
            }
        }
        let op_id = OpId(mi.ops.len());
        mi.ops.push(Op { name, kind: OpKind::Linear });
        let mut ins: Vec<RTensorId> = Vec::new();
        ins.push(input);
        ins.push(weight);
        ins.push(bias);
        let ghost oldg = *old(self);
        let r = self.attach_node(&ins, Some(sh), true, RInstruction::Op(op_id));
        proof {
            lemma_module_wf_preserved(oldg, *old(mi), *self, *mi);
            assert(node_module_wf(*self, *mi, oldg.nodes@.len() as int));
            lemma_count_outputs_agree(self.nodes@, oldg.nodes@, oldg.nodes@.len() as int);
            let nid = RNodeId(oldg.nodes@.len() as usize);
            assert(ins@ =~= seq![input, weight, bias]);
            if input != weight && input != bias {
                lemma_occurrences_three(ins@, input.0 as int);
                assert(self.tensors@[input.0 as int].consumers@
                    =~= oldg.tensors@[input.0 as int].consumers@.push(nid));
            }
            if weight != input && weight != bias {
                lemma_occurrences_three(ins@, weight.0 as int);
                assert(self.tensors@[weight.0 as int].consumers@
                    =~= oldg.tensors@[weight.0 as int].consumers@.push(nid));
            }
            if bias != input && bias != weight {
                lemma_occurrences_three(ins@, bias.0 as int);
                assert(self.tensors@[bias.0 as int].consumers@
                    =~= oldg.tensors@[bias.0 as int].consumers@.push(nid));
            }
        }
        match r {
            Some(tid) => Ok(tid),
            None => {
                proof {
                    assert(false);
                }
                Err(GraphError::UnknownTensor)
            },
        }
    }

    /// Adds the output node consuming the final tensor. A graph holds at
    /// most one.
    pub fn add_output(&mut self, input: RTensorId) -> (r: Result<(), GraphError>)
        requires
            rgraph_wf(*old(self)),
        ensures
            rgraph_wf(*final(self)),
            final(self).tensors@.len() == old(self).tensors@.len(),
            forall|t: int|
                0 <= t < old(self).tensors@.len() ==> shape_elems(
                    (#[trigger] final(self).tensors@[t]).shape,
                ) == shape_elems(old(self).tensors@[t].shape),
            match r {
                Ok(()) => {
                    &&& input.0 < old(self).tensors@.len()
                    &&& count_outputs(old(self).nodes@, old(self).nodes@.len() as int) == 0
                    &&& final(self).nodes@.len() == old(self).nodes@.len() + 1
                    &&& final(self).nodes@[old(self).nodes@.len() as int].instruction
                        == RInstruction::Output
                    &&& final(self).nodes@[old(self).nodes@.len() as int].inputs@ == seq![input]
                    &&& final(self).tensors@[input.0 as int].consumers@
                        == old(self).tensors@[input.0 as int].consumers@.push(
                        RNodeId(old(self).nodes@.len() as usize),
                    )
                    &&& forall|t: int|
                        0 <= t < old(self).tensors@.len() && t != input.0
                            ==> (#[trigger] final(self).tensors@[t]).consumers@
                            == old(self).tensors@[t].consumers@
                    &&& forall|j: int|
                        0 <= j < old(self).nodes@.len() ==> #[trigger] final(self).nodes@[j]
                            == old(self).nodes@[j]
                    &&& count_outputs(final(self).nodes@, final(self).nodes@.len() as int) == 1
                },
                Err(GraphError::UnknownTensor) => input.0 >= old(self).tensors@.len() && *final(self) == *old(self),
                Err(GraphError::MultipleOutputs) => input.0 < old(self).tensors@.len() && (exists|
                    j: int,
                |
                    0 <= j < old(self).nodes@.len() && old(self).nodes@[j].instruction
                        is Output) && *final(self) == *old(self),
                Err(_) => false,
            },
    {
        if input.0 >= self.tensors.len() {
            return Err(GraphError::UnknownTensor);
        }
        let mut j: usize = 0;
        while j < self.nodes.len()
            invariant
                j <= self.nodes@.len(),
                forall|x: int| 0 <= x < j ==> !((#[trigger] self.nodes@[x].instruction)
                    is Output),
                *self == *old(self),
                rgraph_wf(*old(self)),
                input.0 < self.tensors@.len(),
            decreases self.nodes@.len() - j,
        {
            if matches!(self.nodes[j].instruction, RInstruction::Output) {
                return Err(GraphError::MultipleOutputs);
            }
            j += 1;
        }
        proof {
            lemma_count_outputs_zero(self.nodes@, self.nodes@.len() as int);
        }
        let mut ins: Vec<RTensorId> = Vec::new();
        ins.push(input);
        let ghost oldg = *old(self);
        let r = self.attach_node(&ins, None, false, RInstruction::Output);
        proof {
            lemma_count_outputs_agree(self.nodes@, oldg.nodes@, oldg.nodes@.len() as int);
            let nid = RNodeId(oldg.nodes@.len() as usize);
            lemma_occurrences_one(ins@, input.0 as int);
            assert(self.tensors@[input.0 as int].consumers@
                =~= oldg.tensors@[input.0 as int].consumers@.push(nid));
            assert forall|t: int| 0 <= t < oldg.tensors@.len() && t != input.0 implies (
            #[trigger] self.tensors@[t]).consumers@ == oldg.tensors@[t].consumers@ by {
                lemma_occurrences_one(ins@, t);
                assert(self.tensors@[t].consumers@ =~= oldg.tensors@[t].consumers@);
            }
        }
        match r {
            None => Ok(()),
            Some(_) => {
                proof {
                    assert(false);
                }
                Err(GraphError::UnknownTensor)
            },
        }
    }
}

} // verus!
