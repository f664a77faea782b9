//! Reverse-mode differentiation of products with quantized operands.
use vstd::prelude::*;

use std::marker::PhantomData;

use crate::backend::{
    inhibits, primitive_shape, sums, Backend, Layout, QuantizationParametersPrimitive,
    TensorPrimitive,
};
use crate::scheme::QuantScheme;
use crate::shape::as_dims;
use crate::tensor::{
    is_sum_along, lemma_reduced_product, matmul_shape, matmul_shapes, transposed_shape,
    DeviceSettings, FloatDType, IntDType, QTensor, Slice, Tensor, TensorData,
};

verus! {

/// The identity of a node in a graph.
#[derive(Clone, Copy, Debug, PartialEq, Eq, Structural)]
pub struct NodeId {
    pub value: u64,
}

/// Whether a gradient is needed.
#[derive(Clone, Copy, Debug, PartialEq, Eq, Structural)]
pub enum Requirement {
    /// The gradient was asked for.
    Grad,
    /// The gradient is needed to compute others.
    GradInBackward,
    /// No gradient is needed.
    Untracked,
}

/// A node of the graph.
#[derive(Clone, Copy, Debug, PartialEq, Eq, Structural)]
pub struct Node {
    pub id: NodeId,
    pub requirement: Requirement,
}

impl Node {
    /// A gradient is needed for this node.
    pub open spec fn is_tracked(self) -> bool {
        self.requirement != Requirement::Untracked
    }
}

/// What limits the speed of an operation.
#[derive(Clone, Copy, Debug, PartialEq, Eq, Structural)]
pub enum ComputingProperty {
    /// Its arithmetic: its output is kept for the backward pass.
    ComputeBound,
    /// Its memory traffic: its output is computed again in the backward pass.
    MemoryBound,
}

/// A float tensor together with its node.
pub struct AutodiffTensor<B: Backend> {
    pub primitive: B::FloatTensorPrimitive,
    pub node: Node,
}

/// The product of a float tensor and a quantized one, with what its gradient needs.
pub struct QMatmulFloatLhs<B: Backend> {
    pub q_rhs: B::QuantizedTensorPrimitive,
}

/// The product of a quantized tensor and a float one, with what its gradient needs.
pub struct QMatmulFloatRhs<B: Backend> {
    pub q_lhs: B::QuantizedTensorPrimitive,
}

/// The product of two float tensors, with what its gradients need: each operand is kept where the
/// other one needs a gradient, and the dimensions of both are.
pub struct Matmul<B: Backend> {
    pub lhs: Option<B::FloatTensorPrimitive>,
    pub rhs: Option<B::FloatTensorPrimitive>,
    pub lhs_shape: Vec<usize>,
    pub rhs_shape: Vec<usize>,
}

/// An operation that was recorded, with the nodes that need gradients from it.
#[allow(inconsistent_fields)]
pub enum Operation<B: Backend> {
    QMatmulFloatLhs { parent: NodeId, state: QMatmulFloatLhs<B> },
    QMatmulFloatRhs { parent: NodeId, state: QMatmulFloatRhs<B> },
    Matmul { lhs: Option<NodeId>, rhs: Option<NodeId>, state: Matmul<B> },
}

/// A step of the backward pass.
pub struct Step<B: Backend> {
    /// The node of the output.
    pub node: NodeId,
    pub property: ComputingProperty,
    pub operation: Operation<B>,
}

/// The steps recorded so far, oldest first.
pub struct Graph<B: Backend> {
    pub steps: Vec<Step<B>>,
    pub next: u64,
}

/// Differentiation on top of a backend.
pub struct Autodiff<B: Backend> {
    backend: PhantomData<B>,
}

impl<F, Q> TensorPrimitive<F, Q> {
    /// The float tensor.
    pub fn into_float(self) -> (tensor: F)
        requires
            self is Float,
        ensures
            tensor == self->Float_0,
    {
        match self {
            TensorPrimitive::Float(tensor) => tensor,
            TensorPrimitive::QFloat(_) => unreached(),
        }
    }
}

impl<B: Backend> Operation<B> {
    /// The nodes to which this operation hands gradients.
    pub open spec fn parents(self) -> Set<NodeId> {
        match self {
            Operation::QMatmulFloatLhs { parent, state } => set![parent],
            Operation::QMatmulFloatRhs { parent, state } => set![parent],
            Operation::Matmul { lhs, rhs, state } => Set::new(
                |id: NodeId| lhs == Some(id) || rhs == Some(id),
            ),
        }
    }
}

impl<B: Backend> Graph<B> {
    /// Steps are in the order of their nodes, and each node comes after those to which its step
    /// hands gradients.
    pub open spec fn wf(self) -> bool {
        &&& forall|i: int|
            0 <= i < self.steps@.len() ==> (#[trigger] self.steps@[i]).node.value < self.next
        &&& forall|i: int, j: int|
            0 <= i < j < self.steps@.len() ==> (#[trigger] self.steps@[i]).node.value < (
            #[trigger] self.steps@[j]).node.value
        &&& forall|i: int, id: NodeId|
            0 <= i < self.steps@.len() && #[trigger] self.steps@[i].operation.parents().contains(id)
                ==> id.value < self.steps@[i].node.value
    }

    /// The tensor belongs to a node that this graph has given out.
    pub open spec fn owns(self, tensor: AutodiffTensor<B>) -> bool {
        tensor.node.id.value < self.next
    }

    /// An empty graph.
    pub fn new() -> (graph: Graph<B>)
        ensures
            graph.wf(),
            graph.steps@ == Seq::<Step<B>>::empty(),
            graph.next == 0,
    {
        Graph { steps: Vec::new(), next: 0 }
    }

    /// A node that no tensor has yet.
    fn new_node(&mut self, requirement: Requirement) -> (node: Node)
        requires
            old(self).next < u64::MAX,
        ensures
            node == (Node { id: NodeId { value: old(self).next }, requirement }),
            final(self).steps == old(self).steps,
            final(self).next == old(self).next + 1,
    {
        let id: NodeId = NodeId { value: self.next };
        self.next = self.next + 1;
        Node { id, requirement }
    }
}

impl<B: Backend> AutodiffTensor<B> {
    /// A leaf of the graph that needs no gradient.
    pub fn new(graph: &mut Graph<B>, primitive: B::FloatTensorPrimitive) -> (tensor: Self)
        requires
            old(graph).next < u64::MAX,
        ensures
            tensor.primitive == primitive,
            is_untracked_leaf(*old(graph), *final(graph), tensor),
    {
        let node: Node = graph.new_node(Requirement::Untracked);
        AutodiffTensor { primitive, node }
    }
}

/// `tensor` has a new node that needs no gradient, and nothing was recorded.
pub open spec fn is_untracked_leaf<B: Backend>(
    before: Graph<B>,
    after: Graph<B>,
    tensor: AutodiffTensor<B>,
) -> bool {
    &&& tensor.node == (Node {
        id: NodeId { value: before.next },
        requirement: Requirement::Untracked,
    })
    &&& after.steps@ == before.steps@
    &&& after.next == before.next + 1
}

/// `tensor` has a new node whose gradient is needed in the backward pass, and `operation` was
/// recorded for it.
pub open spec fn is_recorded<B: Backend>(
    before: Graph<B>,
    after: Graph<B>,
    tensor: AutodiffTensor<B>,
    operation: Operation<B>,
) -> bool {
    &&& tensor.node == (Node {
        id: NodeId { value: before.next },
        requirement: Requirement::GradInBackward,
    })
    &&& after.steps@ == before.steps@.push(
        Step {
            node: tensor.node.id,
            property: ComputingProperty::ComputeBound,
            operation,
        },
    )
    &&& after.next == before.next + 1
}

impl<B: Backend> Graph<B> {
    /// A new node for the output of an operation that needs gradients, which is recorded.
    fn record(&mut self, primitive: B::FloatTensorPrimitive, operation: Operation<B>) -> (tensor:
        AutodiffTensor<B>)
        requires
            old(self).wf(),
            old(self).next < u64::MAX,
            forall|id: NodeId| #[trigger]
                operation.parents().contains(id) ==> id.value < old(self).next,
        ensures
            tensor.primitive == primitive,
            is_recorded(*old(self), *final(self), tensor, operation),
            final(self).wf(),
    {
        let node: Node = self.new_node(Requirement::GradInBackward);
        self.steps.push(
            Step { node: node.id, property: ComputingProperty::ComputeBound, operation },
        );
        AutodiffTensor { primitive, node }
    }
}

/// The kind of a tensor and what it holds, leaving nodes aside.
pub open spec fn inner_view<B: Backend>(
    tensor: TensorPrimitive<AutodiffTensor<B>, B::QuantizedTensorPrimitive>,
) -> TensorPrimitive<Tensor<B::Elem>, QTensor<B::Elem>> {
    match tensor {
        TensorPrimitive::Float(f) => TensorPrimitive::Float(B::float_view(f.primitive)),
        TensorPrimitive::QFloat(q) => TensorPrimitive::QFloat(B::q_view(q)),
    }
}

/// A float tensor of this graph, or a quantized one.
pub open spec fn is_operand<B: Backend>(
    graph: Graph<B>,
    tensor: TensorPrimitive<AutodiffTensor<B>, B::QuantizedTensorPrimitive>,
) -> bool {
    tensor matches TensorPrimitive::Float(f) ==> graph.owns(f)
}

/// The product of two float tensors and what was recorded of it.
pub open spec fn is_tracked_product<B: Backend>(
    before: Graph<B>,
    after: Graph<B>,
    lhs: AutodiffTensor<B>,
    rhs: AutodiffTensor<B>,
    out: AutodiffTensor<B>,
) -> bool {
    &&& B::is_product(
        B::float_view(lhs.primitive),
        B::float_view(rhs.primitive),
        B::float_view(out.primitive),
    )
    &&& if lhs.node.is_tracked() || rhs.node.is_tracked() {
        let operation: Operation<B> = after.steps@.last().operation;
        &&& is_recorded(before, after, out, operation)
        &&& operation matches Operation::Matmul { lhs: l, rhs: r, state } && {
            &&& l == if lhs.node.is_tracked() {
                Some(lhs.node.id)
            } else {
                None
            }
            &&& r == if rhs.node.is_tracked() {
                Some(rhs.node.id)
            } else {
                None
            }
            &&& state.lhs == if rhs.node.is_tracked() {
                Some(lhs.primitive)
            } else {
                None
            }
            &&& state.rhs == if lhs.node.is_tracked() {
                Some(rhs.primitive)
            } else {
                None
            }
            &&& as_dims(state.lhs_shape@) == B::float_view(lhs.primitive).shape
            &&& as_dims(state.rhs_shape@) == B::float_view(rhs.primitive).shape
        }
    } else {
        is_untracked_leaf(before, after, out)
    }
}

/// What is recorded of a product of which `operand` is the float factor: `operation` where that
/// factor needs a gradient, nothing otherwise.
pub open spec fn is_tracked_like<B: Backend>(
    before: Graph<B>,
    after: Graph<B>,
    operand: Node,
    operation: Operation<B>,
    out: AutodiffTensor<B>,
) -> bool {
    if operand.is_tracked() {
        is_recorded(before, after, out, operation)
    } else {
        is_untracked_leaf(before, after, out)
    }
}

impl<B: Backend> Autodiff<B> {
    /// The matrix product of two float tensors.
    pub fn float_matmul(
        graph: &mut Graph<B>,
        lhs: AutodiffTensor<B>,
        rhs: AutodiffTensor<B>,
    ) -> (out: AutodiffTensor<B>)
        requires
            old(graph).wf(),
            old(graph).owns(lhs),
            old(graph).owns(rhs),
            old(graph).next < u64::MAX,
            matmul_shapes(
                B::float_view(lhs.primitive).shape,
                B::float_view(rhs.primitive).shape,
            ),
        ensures
            final(graph).wf(),
            B::float_view(out.primitive).shape == matmul_shape(
                B::float_view(lhs.primitive).shape,
                B::float_view(rhs.primitive).shape,
            ),
            is_tracked_product(*old(graph), *final(graph), lhs, rhs, out),
            B::is_product(
                B::float_view(lhs.primitive),
                B::float_view(rhs.primitive),
                B::float_view(out.primitive),
            ),
            lhs.node.requirement == Requirement::Untracked && rhs.node.requirement
                == Requirement::Untracked ==> {
                &&& out.node.requirement == Requirement::Untracked
                &&& final(graph).steps@ == old(graph).steps@
            },
            lhs.node.requirement != Requirement::Untracked || rhs.node.requirement
                != Requirement::Untracked ==> {
                &&& out.node.requirement == Requirement::GradInBackward
                &&& final(graph).steps@.drop_last() == old(graph).steps@
                &&& final(graph).steps@.len() == old(graph).steps@.len() + 1
                &&& final(graph).steps@.last().node == out.node.id
                &&& final(graph).steps@.last().operation matches Operation::Matmul {
                    lhs: l,
                    rhs: r,
                    state,
                } && {
                    &&& lhs.node.requirement != Requirement::Untracked ==> l == Some(lhs.node.id)
                        && state.rhs == Some(rhs.primitive)
                    &&& rhs.node.requirement != Requirement::Untracked ==> r == Some(rhs.node.id)
                        && state.lhs == Some(lhs.primitive)
                    &&& lhs.node.requirement == Requirement::Untracked ==> l is None
                    &&& rhs.node.requirement == Requirement::Untracked ==> r is None
                }
            },
    {
        let lhs_tracked: bool = lhs.node.requirement != Requirement::Untracked;
        let rhs_tracked: bool = rhs.node.requirement != Requirement::Untracked;
        if lhs_tracked || rhs_tracked {
            let output: B::FloatTensorPrimitive = B::float_matmul(
                B::float_clone(&lhs.primitive),
                B::float_clone(&rhs.primitive),
            );
            let lhs_shape: Vec<usize> = B::float_shape(&lhs.primitive);
            let rhs_shape: Vec<usize> = B::float_shape(&rhs.primitive);
            let state: Matmul<B> = Matmul {
                lhs_shape,
                rhs_shape,
                lhs: if rhs_tracked {
                    Some(lhs.primitive)
                } else {
                    None
                },
                rhs: if lhs_tracked {
                    Some(rhs.primitive)
                } else {
                    None
                },
            };
            let operation: Operation<B> = Operation::Matmul {
                lhs: if lhs_tracked {
                    Some(lhs.node.id)
                } else {
                    None
                },
                rhs: if rhs_tracked {
                    Some(rhs.node.id)
                } else {
                    None
                },
                state,
            };
            graph.record(output, operation)
        } else {
            let output: B::FloatTensorPrimitive = B::float_matmul(lhs.primitive, rhs.primitive);
            AutodiffTensor::new(graph, output)
        }
    }

    /// The matrix product of tensors that may be quantized. A float operand that needs a gradient
    /// gets one; quantized operands are frozen. The product itself leaves quantized operands as
    /// they are; only the gradient needs them as floats.
    pub fn q_matmul(
        graph: &mut Graph<B>,
        lhs: TensorPrimitive<AutodiffTensor<B>, B::QuantizedTensorPrimitive>,
        rhs: TensorPrimitive<AutodiffTensor<B>, B::QuantizedTensorPrimitive>,
    ) -> (out: TensorPrimitive<AutodiffTensor<B>, B::QuantizedTensorPrimitive>)
        requires
            old(graph).wf(),
            old(graph).next < u64::MAX,
            is_operand(*old(graph), lhs),
            is_operand(*old(graph), rhs),
            matmul_shapes(primitive_shape(inner_view(lhs)), primitive_shape(inner_view(rhs))),
            lhs is Float || rhs is Float ==> inhibits(inner_view(lhs)) && inhibits(inner_view(rhs)),
        ensures
            final(graph).wf(),
            primitive_shape(inner_view(out)) == matmul_shape(
                primitive_shape(inner_view(lhs)),
                primitive_shape(inner_view(rhs)),
            ),
            match (lhs, rhs) {
                (TensorPrimitive::Float(l), TensorPrimitive::Float(r)) => {
                    out matches TensorPrimitive::Float(o) && is_tracked_product(
                        *old(graph),
                        *final(graph),
                        l,
                        r,
                        o,
                    )
                },
                (TensorPrimitive::Float(l), TensorPrimitive::QFloat(q)) => {
                    &&& B::is_q_product(inner_view(lhs), inner_view(rhs), inner_view(out))
                    &&& out matches TensorPrimitive::Float(o) && is_tracked_like(
                        *old(graph),
                        *final(graph),
                        l.node,
                        Operation::QMatmulFloatLhs {
                            parent: l.node.id,
                            state: QMatmulFloatLhs { q_rhs: q },
                        },
                        o,
                    )
                },
                (TensorPrimitive::QFloat(q), TensorPrimitive::Float(r)) => {
                    &&& B::is_q_product(inner_view(lhs), inner_view(rhs), inner_view(out))
                    &&& out matches TensorPrimitive::Float(o) && is_tracked_like(
                        *old(graph),
                        *final(graph),
                        r.node,
                        Operation::QMatmulFloatRhs {
                            parent: r.node.id,
                            state: QMatmulFloatRhs { q_lhs: q },
                        },
                        o,
                    )
                },
                (TensorPrimitive::QFloat(_), TensorPrimitive::QFloat(_)) => {
                    &&& B::is_q_product(inner_view(lhs), inner_view(rhs), inner_view(out))
                    &&& inhibits(inner_view(lhs)) && inhibits(inner_view(rhs)) ==> out is Float
                    &&& match out {
                        TensorPrimitive::Float(o) => is_untracked_leaf(
                            *old(graph),
                            *final(graph),
                            o,
                        ),
                        TensorPrimitive::QFloat(_) => *final(graph) == *old(graph),
                    }
                },
            },
            lhs matches TensorPrimitive::Float(l) ==> (rhs matches TensorPrimitive::QFloat(q) ==> (
            out matches TensorPrimitive::Float(o) && {
                &&& B::is_q_product(
                    TensorPrimitive::Float(B::float_view(l.primitive)),
                    TensorPrimitive::QFloat(B::q_view(q)),
                    TensorPrimitive::Float(B::float_view(o.primitive)),
                )
                &&& o.node.id.value == old(graph).next
                &&& l.node.requirement == Requirement::Grad || l.node.requirement
                    == Requirement::GradInBackward ==> {
                    &&& o.node.requirement == Requirement::GradInBackward
                    &&& final(graph).steps@ == old(graph).steps@.push(
                        Step {
                            node: o.node.id,
                            property: ComputingProperty::ComputeBound,
                            operation: Operation::QMatmulFloatLhs {
                                parent: l.node.id,
                                state: QMatmulFloatLhs { q_rhs: q },
                            },
                        },
                    )
                }
                &&& l.node.requirement == Requirement::Untracked ==> {
                    &&& o.node.requirement == Requirement::Untracked
                    &&& final(graph).steps@ == old(graph).steps@
                }
            })),
            lhs matches TensorPrimitive::QFloat(q) ==> (rhs matches TensorPrimitive::Float(r) ==> (
            out matches TensorPrimitive::Float(o) && {
                &&& B::is_q_product(
                    TensorPrimitive::QFloat(B::q_view(q)),
                    TensorPrimitive::Float(B::float_view(r.primitive)),
                    TensorPrimitive::Float(B::float_view(o.primitive)),
                )
                &&& o.node.id.value == old(graph).next
                &&& r.node.requirement == Requirement::Grad || r.node.requirement
                    == Requirement::GradInBackward ==> {
                    &&& o.node.requirement == Requirement::GradInBackward
                    &&& final(graph).steps@ == old(graph).steps@.push(
                        Step {
                            node: o.node.id,
                            property: ComputingProperty::ComputeBound,
                            operation: Operation::QMatmulFloatRhs {
                                parent: r.node.id,
                                state: QMatmulFloatRhs { q_lhs: q },
                            },
                        },
                    )
                }
                &&& r.node.requirement == Requirement::Untracked ==> {
                    &&& o.node.requirement == Requirement::Untracked
                    &&& final(graph).steps@ == old(graph).steps@
                }
            })),
            lhs matches TensorPrimitive::Float(l) ==> (rhs matches TensorPrimitive::Float(r) ==> (
            out matches TensorPrimitive::Float(o) && {
                &&& B::is_product(
                    B::float_view(l.primitive),
                    B::float_view(r.primitive),
                    B::float_view(o.primitive),
                )
                &&& o.node.requirement == Requirement::Untracked <==> (l.node.requirement
                    == Requirement::Untracked && r.node.requirement == Requirement::Untracked)
            })),
            lhs is QFloat && rhs is QFloat ==> {
                &&& final(graph).steps@ == old(graph).steps@
                &&& out matches TensorPrimitive::Float(o) ==> {
                    &&& o.node.requirement == Requirement::Untracked
                    &&& B::is_q_product(
                        TensorPrimitive::QFloat(B::q_view(lhs->QFloat_0)),
                        TensorPrimitive::QFloat(B::q_view(rhs->QFloat_0)),
                        TensorPrimitive::Float(B::float_view(o.primitive)),
                    )
                }
                &&& out matches TensorPrimitive::QFloat(q) ==> B::is_q_product(
                    TensorPrimitive::QFloat(B::q_view(lhs->QFloat_0)),
                    TensorPrimitive::QFloat(B::q_view(rhs->QFloat_0)),
                    TensorPrimitive::QFloat(B::q_view(q)),
                )
            },
    {
        match (lhs, rhs) {
            (TensorPrimitive::Float(lhs), TensorPrimitive::Float(rhs)) => {
                TensorPrimitive::Float(Self::float_matmul(graph, lhs, rhs))
            },
            (TensorPrimitive::Float(float_ad), TensorPrimitive::QFloat(q_tensor)) => {
                if float_ad.node.requirement != Requirement::Untracked {
                    // The product takes a copy; the tensor itself is kept for the backward pass.
                    let output: B::FloatTensorPrimitive = B::q_matmul(
                        TensorPrimitive::Float(float_ad.primitive),
                        TensorPrimitive::QFloat(B::q_clone(&q_tensor)),
                    ).into_float();
                    let operation: Operation<B> = Operation::QMatmulFloatLhs {
                        parent: float_ad.node.id,
                        state: QMatmulFloatLhs { q_rhs: q_tensor },
                    };
                    TensorPrimitive::Float(graph.record(output, operation))
                } else {
                    let output: B::FloatTensorPrimitive = B::q_matmul(
                        TensorPrimitive::Float(float_ad.primitive),
                        TensorPrimitive::QFloat(q_tensor),
                    ).into_float();
                    TensorPrimitive::Float(AutodiffTensor::new(graph, output))
                }
            },
            (TensorPrimitive::QFloat(q_tensor), TensorPrimitive::Float(float_ad)) => {
                if float_ad.node.requirement != Requirement::Untracked {
                    let output: B::FloatTensorPrimitive = B::q_matmul(
                        TensorPrimitive::QFloat(B::q_clone(&q_tensor)),
                        TensorPrimitive::Float(float_ad.primitive),
                    ).into_float();
                    let operation: Operation<B> = Operation::QMatmulFloatRhs {
                        parent: float_ad.node.id,
                        state: QMatmulFloatRhs { q_lhs: q_tensor },
                    };
                    TensorPrimitive::Float(graph.record(output, operation))
                } else {
                    let output: B::FloatTensorPrimitive = B::q_matmul(
                        TensorPrimitive::QFloat(q_tensor),
                        TensorPrimitive::Float(float_ad.primitive),
                    ).into_float();
                    TensorPrimitive::Float(AutodiffTensor::new(graph, output))
                }
            },
            (TensorPrimitive::QFloat(lhs_q), TensorPrimitive::QFloat(rhs_q)) => {
                match B::q_matmul(TensorPrimitive::QFloat(lhs_q), TensorPrimitive::QFloat(rhs_q)) {
                    TensorPrimitive::Float(f) => TensorPrimitive::Float(
                        AutodiffTensor::new(graph, f),
                    ),
                    TensorPrimitive::QFloat(q) => TensorPrimitive::QFloat(q),
                }
            },
        }
    }
}

/// `out` is the gradient of the left factor of a product whose right factor is `rhs`, where `grad`
/// is the gradient of the product.
pub open spec fn is_lhs_grad<B: Backend>(
    grad: Tensor<B::Elem>,
    rhs: Tensor<B::Elem>,
    out: Tensor<B::Elem>,
) -> bool {
    &&& out.shape == matmul_shape(grad.shape, transposed_shape(rhs.shape))
    &&& B::is_product(grad, rhs.transposed(), out)
}

/// `out` is the gradient of the right factor of a product whose left factor is `lhs`, where `grad`
/// is the gradient of the product.
pub open spec fn is_rhs_grad<B: Backend>(
    grad: Tensor<B::Elem>,
    lhs: Tensor<B::Elem>,
    out: Tensor<B::Elem>,
) -> bool {
    &&& out.shape == matmul_shape(transposed_shape(lhs.shape), grad.shape)
    &&& B::is_product(lhs.transposed(), grad, out)
}

/// `out` is the gradient of the left factor of a product whose right factor is the quantized tensor
/// `rhs`, which is read in the float type that its device is set to.
pub open spec fn is_q_lhs_grad<B: Backend>(
    grad: Tensor<B::Elem>,
    rhs: B::QuantizedTensorPrimitive,
    out: Tensor<B::Elem>,
) -> bool {
    exists|settings: DeviceSettings| #[trigger]
        B::is_set_to(B::q_location(rhs), settings) && is_lhs_grad::<B>(
            grad,
            B::q_view(rhs).dequantized(settings.float_dtype),
            out,
        )
}

/// `out` is the gradient of the right factor of a product whose left factor is the quantized tensor
/// `lhs`, which is read in the float type that its device is set to.
pub open spec fn is_q_rhs_grad<B: Backend>(
    grad: Tensor<B::Elem>,
    lhs: B::QuantizedTensorPrimitive,
    out: Tensor<B::Elem>,
) -> bool {
    exists|settings: DeviceSettings| #[trigger]
        B::is_set_to(B::q_location(lhs), settings) && is_rhs_grad::<B>(
            grad,
            B::q_view(lhs).dequantized(settings.float_dtype),
            out,
        )
}

/// The gradient of a product with these dimensions can be multiplied with the right factor.
pub open spec fn takes_lhs_grad(grad: Seq<int>, rhs: Seq<int>) -> bool {
    rhs.len() >= 2 && matmul_shapes(grad, transposed_shape(rhs))
}

/// The gradient of a product with these dimensions can be multiplied with the left factor.
pub open spec fn takes_rhs_grad(grad: Seq<int>, lhs: Seq<int>) -> bool {
    lhs.len() >= 2 && matmul_shapes(transposed_shape(lhs), grad)
}

impl<B: Backend> QMatmulFloatLhs<B> {
    /// The gradient of the float factor, computed in the float type `dtype`.
    pub fn backward_in(self, grad: B::FloatTensorPrimitive, dtype: FloatDType) -> (out:
        B::FloatTensorPrimitive)
        requires
            takes_lhs_grad(B::float_view(grad).shape, B::q_view(self.q_rhs).shape),
        ensures
            is_lhs_grad::<B>(
                B::float_view(grad),
                B::q_view(self.q_rhs).dequantized(dtype),
                B::float_view(out),
            ),
    {
        let dequant_rhs: B::FloatTensorPrimitive = B::dequantize(self.q_rhs, dtype);
        let rhs_t: B::FloatTensorPrimitive = B::float_transpose(dequant_rhs);
        B::float_matmul(grad, rhs_t)
    }

    /// The gradient of the float factor, computed in the float type that the device of the
    /// quantized factor is set to.
    pub fn backward(self, grad: B::FloatTensorPrimitive) -> (out: B::FloatTensorPrimitive)
        requires
            takes_lhs_grad(B::float_view(grad).shape, B::q_view(self.q_rhs).shape),
        ensures
            is_q_lhs_grad::<B>(B::float_view(grad), self.q_rhs, B::float_view(out)),
    {
        let device: B::Device = B::q_device(&self.q_rhs);
        let dtype: FloatDType = B::get_device_settings(&device).float_dtype;
        self.backward_in(grad, dtype)
    }
}

impl<B: Backend> QMatmulFloatRhs<B> {
    /// The gradient of the float factor, computed in the float type `dtype`.
    pub fn backward_in(self, grad: B::FloatTensorPrimitive, dtype: FloatDType) -> (out:
        B::FloatTensorPrimitive)
        requires
            takes_rhs_grad(B::float_view(grad).shape, B::q_view(self.q_lhs).shape),
        ensures
            is_rhs_grad::<B>(
                B::float_view(grad),
                B::q_view(self.q_lhs).dequantized(dtype),
                B::float_view(out),
            ),
    {
        let dequant_lhs: B::FloatTensorPrimitive = B::dequantize(self.q_lhs, dtype);
        let lhs_t: B::FloatTensorPrimitive = B::float_transpose(dequant_lhs);
        B::float_matmul(lhs_t, grad)
    }

    /// The gradient of the float factor, computed in the float type that the device of the
    /// quantized factor is set to.
    pub fn backward(self, grad: B::FloatTensorPrimitive) -> (out: B::FloatTensorPrimitive)
        requires
            takes_rhs_grad(B::float_view(grad).shape, B::q_view(self.q_lhs).shape),
        ensures
            is_q_rhs_grad::<B>(B::float_view(grad), self.q_lhs, B::float_view(out)),
    {
        let device: B::Device = B::q_device(&self.q_lhs);
        let dtype: FloatDType = B::get_device_settings(&device).float_dtype;
        self.backward_in(grad, dtype)
    }
}

/// `out` is `t` after one dimension: where `dims` has length one there and `t` has not, the
/// elements along it were added, by the relation `adds`.
pub open spec fn is_fold_step<E>(
    adds: spec_fn(Seq<E>, E) -> bool,
    dims: Seq<int>,
    k: int,
    t: Tensor<E>,
    out: Tensor<E>,
) -> bool {
    if dims[k] == 1 && t.shape[k] != 1 {
        out.shape == t.shape.update(k, 1) && out.wf() && is_sum_along(adds, t, k, out)
    } else {
        out == t
    }
}

/// `out` is `t` with its first `n` dimensions added up, one after the other, where `dims` has
/// length one.
pub open spec fn is_folded<E>(
    adds: spec_fn(Seq<E>, E) -> bool,
    dims: Seq<int>,
    n: int,
    t: Tensor<E>,
    out: Tensor<E>,
) -> bool
    decreases n,
{
    if n <= 0 {
        out == t
    } else {
        exists|mid: Tensor<E>|
            is_folded(adds, dims, n - 1, t, mid) && #[trigger] is_fold_step(
                adds,
                dims,
                n - 1,
                mid,
                out,
            )
    }
}

/// Adding up one more dimension.
proof fn lemma_fold_step<E>(
    adds: spec_fn(Seq<E>, E) -> bool,
    dims: Seq<int>,
    n: int,
    t: Tensor<E>,
    mid: Tensor<E>,
    out: Tensor<E>,
)
    requires
        n >= 0,
        is_folded(adds, dims, n, t, mid),
        is_fold_step(adds, dims, n, mid, out),
    ensures
        is_folded(adds, dims, n + 1, t, out),
{
    let m: int = n + 1;
    assert(is_folded(adds, dims, m - 1, t, mid) && is_fold_step(adds, dims, m - 1, mid, out));
}

/// The dimensions of a tensor whose first `n` dimensions were added up to `dims`.
pub open spec fn folded_shape(dims: Seq<int>, n: int, shape: Seq<int>) -> Seq<int> {
    Seq::new(
        shape.len(),
        |k: int|
            if k < n {
                dims[k]
            } else {
                shape[k]
            },
    )
}

/// The batch dimensions of `shape` can be added up to those of `dims`: they are equal, or those of
/// `dims` have length one.
pub open spec fn folds_to(shape: Seq<int>, dims: Seq<int>) -> bool {
    &&& shape.len() == dims.len()
    &&& forall|k: int| 0 <= k < dims.len() - 2 ==> (#[trigger] dims[k] == shape[k] || dims[k] == 1)
}

/// `out` is the gradient of the left factor of a product whose right factor is `rhs`. A left factor
/// with the dimensions `dims` gets the sum over the matrices for which it was repeated.
pub open spec fn is_folded_lhs_grad<B: Backend>(
    grad: Tensor<B::Elem>,
    rhs: Tensor<B::Elem>,
    dims: Seq<int>,
    out: Tensor<B::Elem>,
) -> bool {
    exists|full: Tensor<B::Elem>| #[trigger]
        is_lhs_grad::<B>(grad, rhs, full) && full.wf() && is_folded(
            sums::<B>(),
            dims,
            dims.len() - 2,
            full,
            out,
        )
}

/// `out` is the gradient of the right factor of a product whose left factor is `lhs`. A right
/// factor with the dimensions `dims` gets the sum over the matrices for which it was repeated.
pub open spec fn is_folded_rhs_grad<B: Backend>(
    grad: Tensor<B::Elem>,
    lhs: Tensor<B::Elem>,
    dims: Seq<int>,
    out: Tensor<B::Elem>,
) -> bool {
    exists|full: Tensor<B::Elem>| #[trigger]
        is_rhs_grad::<B>(grad, lhs, full) && full.wf() && is_folded(
            sums::<B>(),
            dims,
            dims.len() - 2,
            full,
            out,
        )
}

/// Adds a tensor up along the batch dimensions for which `dims` has length one.
fn fold<B: Backend>(tensor: B::FloatTensorPrimitive, dims: &[usize]) -> (out:
    B::FloatTensorPrimitive)
    requires
        folds_to(B::float_view(tensor).shape, as_dims(dims@)),
    ensures
        is_folded(
            sums::<B>(),
            as_dims(dims@),
            dims@.len() - 2,
            B::float_view(tensor),
            B::float_view(out),
        ),
        B::float_view(out).shape == folded_shape(
            as_dims(dims@),
            dims@.len() - 2,
            B::float_view(tensor).shape,
        ),
        B::float_view(tensor).wf(),
{
    let ghost t: Tensor<B::Elem> = B::float_view(tensor);
    let ghost d: Seq<int> = as_dims(dims@);
    let n: usize = if dims.len() < 2 {
        0
    } else {
        dims.len() - 2
    };
    let _shape: Vec<usize> = B::float_shape(&tensor);
    let mut out: B::FloatTensorPrimitive = tensor;
    let mut k: usize = 0;
    assert(folded_shape(d, 0, t.shape) =~= t.shape);
    while k < n
        invariant
            k <= n,
            n <= dims@.len(),
            n == dims@.len() - 2 || n == 0,
            d == as_dims(dims@),
            folds_to(t.shape, d),
            is_folded(sums::<B>(), d, k as int, t, B::float_view(out)),
            B::float_view(out).shape == folded_shape(d, k as int, t.shape),
        decreases n - k,
    {
        let ghost mid: Tensor<B::Elem> = B::float_view(out);
        let mut shape: Vec<usize> = B::float_shape(&out);
        assert(shape@.len() == dims@.len()) by {
            assert(as_dims(shape@).len() == d.len());
        }
        assert(d[k as int] == dims@[k as int]);
        assert(mid.shape[k as int] == as_dims(shape@)[k as int]);
        if dims[k] == 1 && shape[k] != 1 {
            let summed: B::FloatTensorPrimitive = B::float_sum_dim(out, k);
            shape.set(k, 1);
            proof {
                assert(as_dims(shape@) =~= mid.shape.update(k as int, 1));
                lemma_reduced_product(mid.shape, k as int, B::float_view(summed).shape);
                lemma_reduced_product(mid.shape, k as int, mid.shape.update(k as int, 1));
            }
            out = B::float_reshape(summed, shape);
        }
        proof {
            assert(d[k as int] == t.shape[k as int] || d[k as int] == 1);
            lemma_fold_step(sums::<B>(), d, k as int, t, mid, B::float_view(out));
            assert(B::float_view(out).shape =~= folded_shape(d, k + 1, t.shape));
        }
        k = k + 1;
    }
    assert(folded_shape(d, dims@.len() - 2, t.shape) =~= folded_shape(d, n as int, t.shape));
    out
}

impl<B: Backend> Matmul<B> {
    /// The gradient of the output, with dimensions `grad`, can be handed on to the factors.
    pub open spec fn takes_grad(self, grad: Seq<int>) -> bool {
        &&& self.rhs matches Some(rhs) ==> {
            &&& takes_lhs_grad(grad, B::float_view(rhs).shape)
            &&& folds_to(
                matmul_shape(grad, transposed_shape(B::float_view(rhs).shape)),
                as_dims(self.lhs_shape@),
            )
        }
        &&& self.lhs matches Some(lhs) ==> {
            &&& takes_rhs_grad(grad, B::float_view(lhs).shape)
            &&& folds_to(
                matmul_shape(transposed_shape(B::float_view(lhs).shape), grad),
                as_dims(self.rhs_shape@),
            )
        }
    }

    /// The gradients of the factors, each where the other factor was kept. A factor that was
    /// repeated gets the sum over the matrices for which it was.
    pub fn backward(self, grad: B::FloatTensorPrimitive) -> (grads: (
        Option<B::FloatTensorPrimitive>,
        Option<B::FloatTensorPrimitive>,
    ))
        requires
            self.takes_grad(B::float_view(grad).shape),
        ensures
            grads.0 is Some <==> self.rhs is Some,
            grads.1 is Some <==> self.lhs is Some,
            grads.0 matches Some(out) ==> is_folded_lhs_grad::<B>(
                B::float_view(grad),
                B::float_view(self.rhs->0),
                as_dims(self.lhs_shape@),
                B::float_view(out),
            ),
            grads.1 matches Some(out) ==> is_folded_rhs_grad::<B>(
                B::float_view(grad),
                B::float_view(self.lhs->0),
                as_dims(self.rhs_shape@),
                B::float_view(out),
            ),
    {
        let lhs_grad: Option<B::FloatTensorPrimitive> = match self.rhs {
            Some(rhs) => {
                let full: B::FloatTensorPrimitive = B::float_matmul(
                    B::float_clone(&grad),
                    B::float_transpose(rhs),
                );
                assert(is_lhs_grad::<B>(
                    B::float_view(grad),
                    B::float_view(rhs),
                    B::float_view(full),
                ));
                Some(fold::<B>(full, self.lhs_shape.as_slice()))
            },
            None => None,
        };
        let rhs_grad: Option<B::FloatTensorPrimitive> = match self.lhs {
            Some(lhs) => {
                let full: B::FloatTensorPrimitive = B::float_matmul(
                    B::float_transpose(lhs),
                    B::float_clone(&grad),
                );
                assert(is_rhs_grad::<B>(
                    B::float_view(grad),
                    B::float_view(lhs),
                    B::float_view(full),
                ));
                Some(fold::<B>(full, self.rhs_shape.as_slice()))
            },
            None => None,
        };
        (lhs_grad, rhs_grad)
    }
}

impl<B: Backend> Operation<B> {
    /// The gradient of the output, with dimensions `grad`, can be handed on; for a product of float
    /// tensors, a factor is kept just where the other one needs a gradient.
    pub open spec fn takes_grad(self, grad: Seq<int>) -> bool {
        match self {
            Operation::QMatmulFloatLhs { parent, state } => takes_lhs_grad(
                grad,
                B::q_view(state.q_rhs).shape,
            ),
            Operation::QMatmulFloatRhs { parent, state } => takes_rhs_grad(
                grad,
                B::q_view(state.q_lhs).shape,
            ),
            Operation::Matmul { lhs, rhs, state } => {
                &&& lhs is Some <==> state.rhs is Some
                &&& rhs is Some <==> state.lhs is Some
                &&& state.takes_grad(grad)
            },
        }
    }

    /// `grads` holds for each node that needs a gradient from this operation what it gets.
    pub open spec fn hands_on(
        self,
        grad: Tensor<B::Elem>,
        grads: Seq<(NodeId, B::FloatTensorPrimitive)>,
    ) -> bool {
        match self {
            Operation::QMatmulFloatLhs { parent, state } => {
                &&& grads.len() == 1
                &&& grads[0].0 == parent
                &&& is_q_lhs_grad::<B>(grad, state.q_rhs, B::float_view(grads[0].1))
            },
            Operation::QMatmulFloatRhs { parent, state } => {
                &&& grads.len() == 1
                &&& grads[0].0 == parent
                &&& is_q_rhs_grad::<B>(grad, state.q_lhs, B::float_view(grads[0].1))
            },
            Operation::Matmul { lhs, rhs, state } => {
                let n: int = if lhs is Some {
                    1
                } else {
                    0
                };
                &&& grads.len() == n + if rhs is Some {
                    1int
                } else {
                    0int
                }
                &&& lhs matches Some(id) ==> grads[0].0 == id && is_folded_lhs_grad::<B>(
                    grad,
                    B::float_view(state.rhs->0),
                    as_dims(state.lhs_shape@),
                    B::float_view(grads[0].1),
                )
                &&& rhs matches Some(id) ==> grads[n].0 == id && is_folded_rhs_grad::<B>(
                    grad,
                    B::float_view(state.lhs->0),
                    as_dims(state.rhs_shape@),
                    B::float_view(grads[n].1),
                )
            },
        }
    }

    /// The gradients that the nodes of the operands get, where `grad` is that of the output.
    pub fn backward(self, grad: B::FloatTensorPrimitive) -> (grads: Vec<
        (NodeId, B::FloatTensorPrimitive),
    >)
        requires
            self.takes_grad(B::float_view(grad).shape),
        ensures
            self.hands_on(B::float_view(grad), grads@),
    {
        let mut grads: Vec<(NodeId, B::FloatTensorPrimitive)> = Vec::new();
        match self {
            Operation::QMatmulFloatLhs { parent, state } => {
                grads.push((parent, state.backward(grad)));
            },
            Operation::QMatmulFloatRhs { parent, state } => {
                grads.push((parent, state.backward(grad)));
            },
            Operation::Matmul { lhs, rhs, state } => {
                let (lhs_grad, rhs_grad) = state.backward(grad);
                if let (Some(id), Some(out)) = (lhs, lhs_grad) {
                    grads.push((id, out));
                }
                if let (Some(id), Some(out)) = (rhs, rhs_grad) {
                    grads.push((id, out));
                }
            },
        }
        grads
    }
}

/// What quantization parameters hold, leaving nodes aside.
pub open spec fn inner_params<B: Backend>(
    params: QuantizationParametersPrimitive<AutodiffTensor<B>>,
) -> QuantizationParametersPrimitive<Tensor<B::Elem>> {
    QuantizationParametersPrimitive {
        scales: B::float_view(params.scales.primitive),
        biases: match params.biases {
            Some(b) => Some(B::float_view(b.primitive)),
            None => None,
        },
    }
}

impl<B: Backend> Autodiff<B> {
    /// Creates a quantized tensor from raw data.
    pub fn q_from_data(data: TensorData, device: &B::Device) -> (out: B::QuantizedTensorPrimitive)
        ensures
            B::is_loaded(data, B::q_view(out)),
            B::q_location(out) == *device,
    {
        B::q_from_data(data, device)
    }

    /// Quantizes a float tensor with the given parameters. No gradient flows through
    /// quantization.
    pub fn quantize(
        tensor: AutodiffTensor<B>,
        scheme: &QuantScheme,
        qparams: QuantizationParametersPrimitive<AutodiffTensor<B>>,
    ) -> (out: B::QuantizedTensorPrimitive)
        ensures
            B::is_quantized(
                B::float_view(tensor.primitive),
                *scheme,
                inner_params(qparams),
                B::q_view(out),
            ),
            B::is_quantized(
                B::float_view(tensor.primitive),
                *scheme,
                QuantizationParametersPrimitive {
                    scales: B::float_view(qparams.scales.primitive),
                    biases: match qparams.biases {
                        Some(b) => Some(B::float_view(b.primitive)),
                        None => None,
                    },
                },
                B::q_view(out),
            ),
    {
        let inner_qparams: QuantizationParametersPrimitive<B::FloatTensorPrimitive> =
            QuantizationParametersPrimitive {
            scales: qparams.scales.primitive,
            biases: match qparams.biases {
                Some(biases) => Some(biases.primitive),
                None => None,
            },
        };
        B::quantize(tensor.primitive, scheme, inner_qparams)
    }

    /// Quantizes a float tensor with parameters that the backend finds. No gradient flows through
    /// quantization.
    pub fn quantize_dynamic(tensor: AutodiffTensor<B>, scheme: &QuantScheme) -> (out:
        B::QuantizedTensorPrimitive)
        ensures
            B::is_quantized_dynamic(
                B::float_view(tensor.primitive),
                *scheme,
                B::q_view(out),
            ),
    {
        B::quantize_dynamic(tensor.primitive, scheme)
    }

    /// The float tensor that a quantized tensor stands for, as a leaf that needs no gradient.
    pub fn dequantize(
        graph: &mut Graph<B>,
        tensor: B::QuantizedTensorPrimitive,
        dtype: FloatDType,
    ) -> (out: AutodiffTensor<B>)
        requires
            old(graph).next < u64::MAX,
        ensures
            B::float_view(out.primitive) == B::q_view(tensor).dequantized(dtype),
            B::float_view(out.primitive).shape == B::q_view(tensor).shape,
            B::float_view(out.primitive).data == (B::q_view(tensor).decoded)(dtype),
            is_untracked_leaf(*old(graph), *final(graph), out),
            out.node.requirement == Requirement::Untracked,
            out.node.id.value == old(graph).next,
            final(graph).next == old(graph).next + 1,
            final(graph).steps@ == old(graph).steps@,
    {
        AutodiffTensor::new(graph, B::dequantize(tensor, dtype))
    }

    /// The device of a quantized tensor.
    pub fn q_device(tensor: &B::QuantizedTensorPrimitive) -> (device: B::Device)
        ensures
            device == B::q_location(*tensor),
    {
        B::q_device(tensor)
    }

    /// The same quantized tensor on another device.
    pub fn q_to_device(tensor: B::QuantizedTensorPrimitive, device: &B::Device) -> (out:
        B::QuantizedTensorPrimitive)
        ensures
            B::q_view(out) == B::q_view(tensor),
            B::q_location(out) == *device,
    {
        B::q_to_device(tensor, device)
    }

    /// The same elements under other dimensions.
    pub fn q_reshape(tensor: B::QuantizedTensorPrimitive, shape: Vec<usize>) -> (out:
        B::QuantizedTensorPrimitive)
        ensures
            B::is_laid_out(B::q_view(tensor), Layout::Reshape(as_dims(shape@)), B::q_view(out)),
    {
        B::q_reshape(tensor, shape)
    }

    /// Two dimensions exchanged.
    pub fn q_swap_dims(tensor: B::QuantizedTensorPrimitive, dim1: usize, dim2: usize) -> (out:
        B::QuantizedTensorPrimitive)
        ensures
            B::is_laid_out(
                B::q_view(tensor),
                Layout::SwapDims(dim1 as int, dim2 as int),
                B::q_view(out),
            ),
    {
        B::q_swap_dims(tensor, dim1, dim2)
    }

    /// The dimensions in another order.
    pub fn q_permute(tensor: B::QuantizedTensorPrimitive, axes: &[usize]) -> (out:
        B::QuantizedTensorPrimitive)
        ensures
            B::is_laid_out(B::q_view(tensor), Layout::Permute(as_dims(axes@)), B::q_view(out)),
    {
        B::q_permute(tensor, axes)
    }

    /// The order reversed along some dimensions.
    pub fn q_flip(tensor: B::QuantizedTensorPrimitive, axes: &[usize]) -> (out:
        B::QuantizedTensorPrimitive)
        ensures
            B::is_laid_out(B::q_view(tensor), Layout::Flip(as_dims(axes@)), B::q_view(out)),
    {
        B::q_flip(tensor, axes)
    }

    /// The elements at the given positions along a dimension.
    pub fn q_gather(
        dim: usize,
        tensor: B::QuantizedTensorPrimitive,
        indices: B::IntTensorPrimitive,
    ) -> (out: B::QuantizedTensorPrimitive)
        ensures
            B::is_gathered(dim as int, B::q_view(tensor), B::int_view(indices), B::q_view(out)),
    {
        B::q_gather(dim, tensor, indices)
    }

    /// The slices at the given positions along a dimension.
    pub fn q_select(
        tensor: B::QuantizedTensorPrimitive,
        dim: usize,
        indices: B::IntTensorPrimitive,
    ) -> (out: B::QuantizedTensorPrimitive)
        ensures
            B::is_selected(B::q_view(tensor), dim as int, B::int_view(indices), B::q_view(out)),
    {
        B::q_select(tensor, dim, indices)
    }

    /// A part along each dimension.
    pub fn q_slice(tensor: B::QuantizedTensorPrimitive, slices: &[Slice]) -> (out:
        B::QuantizedTensorPrimitive)
        ensures
            B::is_laid_out(B::q_view(tensor), Layout::Slice(slices@), B::q_view(out)),
    {
        B::q_slice(tensor, slices)
    }

    /// The positions of the greatest elements along a dimension.
    pub fn q_argmax(tensor: B::QuantizedTensorPrimitive, dim: usize, out_dtype: IntDType) -> (out:
        B::IntTensorPrimitive)
        ensures
            B::is_argmax(B::q_view(tensor), dim as int, out_dtype, B::int_view(out)),
    {
        B::q_argmax(tensor, dim, out_dtype)
    }

    /// The positions of the least elements along a dimension.
    pub fn q_argmin(tensor: B::QuantizedTensorPrimitive, dim: usize, out_dtype: IntDType) -> (out:
        B::IntTensorPrimitive)
        ensures
            B::is_argmin(B::q_view(tensor), dim as int, out_dtype, B::int_view(out)),
    {
        B::q_argmin(tensor, dim, out_dtype)
    }

    /// Dimensions of length one repeated.
    pub fn q_expand(tensor: B::QuantizedTensorPrimitive, shape: Vec<usize>) -> (out:
        B::QuantizedTensorPrimitive)
        ensures
            B::is_laid_out(B::q_view(tensor), Layout::Expand(as_dims(shape@)), B::q_view(out)),
    {
        B::q_expand(tensor, shape)
    }
}

} // verus!
