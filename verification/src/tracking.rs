//! Which products are recorded, and where their gradients go.
use vstd::prelude::*;

use crate::autodiff::{
    inner_params, inner_view, is_operand, is_recorded, is_tracked_like, is_tracked_product,
    is_untracked_leaf, AutodiffTensor, ComputingProperty, Graph, NodeId, Operation, Requirement,
    Step,
};
use crate::backend::{
    inhibits, params_view, primitive_shape, primitive_view, Backend, BackendTypes,
    QuantizationParametersPrimitive, TensorPrimitive,
};
use crate::scheme::QuantPropagation;
use crate::shape::as_dims;
use crate::tensor::{FloatDType, QTensor, Tensor};

verus! {

/// A product whose float factor needs a gradient, whether it was asked for or is needed for others,
/// needs one too: it gets a new node that says so, and exactly one step is appended for it. A
/// product whose float factor needs none gets a new node that needs none, and nothing is appended.
pub proof fn law_tracking<B: Backend>(
    before: Graph<B>,
    after: Graph<B>,
    operand: AutodiffTensor<B>,
    operation: Operation<B>,
    out: AutodiffTensor<B>,
)
    requires
        is_tracked_like(before, after, operand.node, operation, out),
    ensures
        out.node.id.value == before.next,
        after.next == before.next + 1,
        operand.node.requirement == Requirement::Grad || operand.node.requirement
            == Requirement::GradInBackward ==> {
            &&& out.node.requirement == Requirement::GradInBackward
            &&& after.steps@.len() == before.steps@.len() + 1
            &&& forall|i: int|
                0 <= i < before.steps@.len() ==> #[trigger] after.steps@[i] == before.steps@[i]
            &&& after.steps@[before.steps@.len() as int].node == out.node.id
            &&& after.steps@[before.steps@.len() as int].operation == operation
            &&& after.steps@[before.steps@.len() as int].property
                == ComputingProperty::ComputeBound
        },
        operand.node.requirement == Requirement::Untracked ==> {
            &&& out.node.requirement == Requirement::Untracked
            &&& after.steps@ == before.steps@
        },
{
}

/// The same for a product of two float tensors: it needs a gradient just where one of its factors
/// does. The step that is appended keeps each factor where the other one needs a gradient, and
/// names the nodes of those that do.
pub proof fn law_tracking_matmul<B: Backend>(
    before: Graph<B>,
    after: Graph<B>,
    lhs: AutodiffTensor<B>,
    rhs: AutodiffTensor<B>,
    out: AutodiffTensor<B>,
)
    requires
        is_tracked_product(before, after, lhs, rhs, out),
    ensures
        B::is_product(
            B::float_view(lhs.primitive),
            B::float_view(rhs.primitive),
            B::float_view(out.primitive),
        ),
        out.node.id.value == before.next,
        after.next == before.next + 1,
        lhs.node.requirement == Requirement::Untracked && rhs.node.requirement
            == Requirement::Untracked ==> {
            &&& out.node.requirement == Requirement::Untracked
            &&& after.steps@ == before.steps@
        },
        lhs.node.requirement != Requirement::Untracked || rhs.node.requirement
            != Requirement::Untracked ==> {
            &&& out.node.requirement == Requirement::GradInBackward
            &&& after.steps@.len() == before.steps@.len() + 1
            &&& forall|i: int|
                0 <= i < before.steps@.len() ==> #[trigger] after.steps@[i] == before.steps@[i]
            &&& after.steps@[before.steps@.len() as int].node == out.node.id
            &&& after.steps@[before.steps@.len() as int].property
                == ComputingProperty::ComputeBound
            &&& after.steps@[before.steps@.len() as int].operation matches Operation::Matmul {
                lhs: l,
                rhs: r,
                state,
            } && {
                &&& lhs.node.requirement == Requirement::Untracked ==> l is None
                    && state.rhs is None
                &&& lhs.node.requirement != Requirement::Untracked ==> {
                    &&& l == Some(lhs.node.id)
                    &&& state.rhs == Some(rhs.primitive)
                }
                &&& rhs.node.requirement == Requirement::Untracked ==> r is None
                    && state.lhs is None
                &&& rhs.node.requirement != Requirement::Untracked ==> {
                    &&& r == Some(rhs.node.id)
                    &&& state.lhs == Some(lhs.primitive)
                }
                &&& as_dims(state.lhs_shape@) == B::float_view(lhs.primitive).shape
                &&& as_dims(state.rhs_shape@) == B::float_view(rhs.primitive).shape
            }
        },
{
}

/// A new leaf has the next node, which needs no gradient, and leaves the steps as they are.
pub proof fn law_leaf<B: Backend>(before: Graph<B>, after: Graph<B>, out: AutodiffTensor<B>)
    requires
        is_untracked_leaf(before, after, out),
    ensures
        out.node.requirement == Requirement::Untracked,
        out.node.id.value == before.next,
        after.next == before.next + 1,
        after.steps@ == before.steps@,
{
}

/// Recording appends one step, for a new node whose gradient is needed in the backward pass.
pub proof fn law_recording<B: Backend>(
    before: Graph<B>,
    after: Graph<B>,
    out: AutodiffTensor<B>,
    operation: Operation<B>,
)
    requires
        is_recorded(before, after, out, operation),
    ensures
        out.node.requirement == Requirement::GradInBackward,
        out.node.id.value == before.next,
        after.next == before.next + 1,
        after.steps@ == before.steps@.push(
            Step { node: out.node.id, property: ComputingProperty::ComputeBound, operation },
        ),
{
}

/// An operation has the nodes of the factors that need a gradient as its parents, and no others.
pub proof fn law_parents<B: Backend>(operation: Operation<B>, id: NodeId)
    ensures
        operation matches Operation::QMatmulFloatLhs { parent, .. } ==> (
        operation.parents().contains(id) <==> id == parent),
        operation matches Operation::QMatmulFloatRhs { parent, .. } ==> (
        operation.parents().contains(id) <==> id == parent),
        operation matches Operation::Matmul { lhs, rhs, .. } ==> (operation.parents().contains(id)
            <==> (lhs == Some(id) || rhs == Some(id))),
{
}

/// Gradients go to the parents of an operation: each of them gets one, and nobody else does.
pub proof fn law_gradients_reach_parents<B: Backend>(
    operation: Operation<B>,
    grad: Tensor<B::Elem>,
    grads: Seq<(NodeId, B::FloatTensorPrimitive)>,
    id: NodeId,
)
    requires
        operation.hands_on(grad, grads),
    ensures
        operation.parents().contains(id) <==> exists|n: int|
            0 <= n < grads.len() && (#[trigger] grads[n]).0 == id,
{
    match operation {
        Operation::QMatmulFloatLhs { parent, state } => {
            assert(grads[0].0 == parent);
        },
        Operation::QMatmulFloatRhs { parent, state } => {
            assert(grads[0].0 == parent);
        },
        Operation::Matmul { lhs, rhs, state } => {
            let n: int = if lhs is Some {
                1
            } else {
                0
            };
            if lhs is Some {
                assert(grads[0].0 == lhs->0);
            }
            if rhs is Some {
                assert(grads[n].0 == rhs->0);
            }
        },
    }
}

/// Going through the steps from the newest to the oldest, all gradients of a node are there before
/// its own step: no step hands a gradient to the node of a step that is as new or newer.
pub proof fn law_backward_order<B: Backend>(graph: Graph<B>, i: int, j: int)
    requires
        graph.wf(),
        0 <= i <= j < graph.steps@.len(),
    ensures
        !graph.steps@[i].operation.parents().contains(graph.steps@[j].node),
        i < j ==> graph.steps@[i].node != graph.steps@[j].node,
        graph.steps@[j].node.value < graph.next,
{
    if graph.steps@[i].operation.parents().contains(graph.steps@[j].node) {
        assert(graph.steps@[j].node.value < graph.steps@[i].node.value);
    }
}

/// What a well-formed graph is: its steps are in the order of their nodes, which it has given out,
/// and each comes after its parents.
pub proof fn law_graph<B: Backend>(graph: Graph<B>)
    ensures
        graph.wf() <==> {
            &&& forall|i: int|
                0 <= i < graph.steps@.len() ==> (#[trigger] graph.steps@[i]).node.value < graph.next
            &&& forall|i: int, j: int|
                0 <= i < j < graph.steps@.len() ==> (#[trigger] graph.steps@[i]).node.value < (
                #[trigger] graph.steps@[j]).node.value
            &&& forall|i: int, id: NodeId|
                0 <= i < graph.steps@.len()
                    && #[trigger] graph.steps@[i].operation.parents().contains(id) ==> id.value
                    < graph.steps@[i].node.value
        },
{
}

/// A chain of products, each with the result of the one before as its factor: where the first
/// factor needs a gradient, every product of the chain does, and the graph holds one step for each
/// of them, which hands a gradient to the factor before it. So the gradient of the last product
/// reaches the first factor.
pub proof fn law_chain<B: Backend>(
    graphs: Seq<Graph<B>>,
    tensors: Seq<AutodiffTensor<B>>,
    operations: Seq<Operation<B>>,
)
    requires
        tensors.len() >= 1,
        graphs.len() == tensors.len(),
        operations.len() == tensors.len() - 1,
        tensors[0].node.requirement == Requirement::Grad || tensors[0].node.requirement
            == Requirement::GradInBackward,
        forall|i: int|
            0 <= i < operations.len() ==> is_tracked_like(
                graphs[i],
                graphs[i + 1],
                tensors[i].node,
                #[trigger] operations[i],
                tensors[i + 1],
            ) && operations[i].parents().contains(tensors[i].node.id),
    ensures
        graphs.last().steps@.len() == graphs[0].steps@.len() + operations.len(),
        tensors.last().node.requirement != Requirement::Untracked,
        forall|i: int|
            0 <= i < operations.len() ==> {
                let step: Step<B> = graphs.last().steps@[graphs[0].steps@.len() + i];
                &&& step.operation == #[trigger] operations[i]
                &&& step.node == tensors[i + 1].node.id
                &&& step.operation.parents().contains(tensors[i].node.id)
                &&& tensors[i + 1].node.requirement == Requirement::GradInBackward
            },
    decreases tensors.len(),
{
    let n: int = operations.len() as int;
    if n > 0 {
        let shorter: Seq<Operation<B>> = operations.drop_last();
        assert forall|i: int| 0 <= i < shorter.len() implies is_tracked_like(
            graphs.drop_last()[i],
            graphs.drop_last()[i + 1],
            tensors.drop_last()[i].node,
            #[trigger] shorter[i],
            tensors.drop_last()[i + 1],
        ) && shorter[i].parents().contains(tensors.drop_last()[i].node.id) by {
            assert(shorter[i] == operations[i]);
        }
        law_chain(graphs.drop_last(), tensors.drop_last(), shorter);
        law_tracking(
            graphs[n - 1],
            graphs[n],
            tensors[n - 1],
            operations[n - 1],
            tensors[n],
        );
        assert forall|i: int| 0 <= i < n implies ({
            let step: Step<B> = graphs.last().steps@[graphs[0].steps@.len() + i];
            &&& step.operation == #[trigger] operations[i]
            &&& step.node == tensors[i + 1].node.id
            &&& step.operation.parents().contains(tensors[i].node.id)
            &&& tensors[i + 1].node.requirement == Requirement::GradInBackward
        }) by {
            if i < n - 1 {
                assert(shorter[i] == operations[i]);
            }
        }
    }
}

/// Which tensors a graph takes as factors: quantized ones, and float ones whose node it has given
/// out.
pub proof fn law_operand<B: Backend>(
    graph: Graph<B>,
    tensor: TensorPrimitive<AutodiffTensor<B>, B::QuantizedTensorPrimitive>,
)
    ensures
        tensor is QFloat ==> is_operand(graph, tensor),
        tensor matches TensorPrimitive::Float(f) ==> (is_operand(graph, tensor) <==> f.node.id.value
            < graph.next),
{
}

/// Leaving nodes aside, a tensor holds what its primitive holds.
pub proof fn law_inner_view<B: Backend>(
    f: AutodiffTensor<B>,
    q: B::QuantizedTensorPrimitive,
)
    ensures
        inner_view::<B>(TensorPrimitive::Float(f)) == TensorPrimitive::<
            Tensor<B::Elem>,
            QTensor<B::Elem>,
        >::Float(B::float_view(f.primitive)),
        inner_view::<B>(TensorPrimitive::QFloat(q)) == TensorPrimitive::<
            Tensor<B::Elem>,
            QTensor<B::Elem>,
        >::QFloat(B::q_view(q)),
{
}

/// Leaving nodes aside, parameters keep their scales and their biases.
pub proof fn law_inner_params<B: Backend>(
    params: QuantizationParametersPrimitive<AutodiffTensor<B>>,
)
    ensures
        inner_params(params).scales == B::float_view(params.scales.primitive),
        params.biases is None ==> inner_params(params).biases is None,
        params.biases matches Some(b) ==> inner_params(params).biases == Some(
            B::float_view(b.primitive),
        ),
{
}

/// What tensors of either kind and parameters hold in a backend.
pub proof fn law_views<B: BackendTypes>(
    f: B::FloatTensorPrimitive,
    q: B::QuantizedTensorPrimitive,
    params: QuantizationParametersPrimitive<B::FloatTensorPrimitive>,
)
    ensures
        primitive_view::<B>(TensorPrimitive::Float(f)) == TensorPrimitive::<
            Tensor<B::Elem>,
            QTensor<B::Elem>,
        >::Float(B::float_view(f)),
        primitive_view::<B>(TensorPrimitive::QFloat(q)) == TensorPrimitive::<
            Tensor<B::Elem>,
            QTensor<B::Elem>,
        >::QFloat(B::q_view(q)),
        params_view::<B>(params).scales == B::float_view(params.scales),
        params.biases is None ==> params_view::<B>(params).biases is None,
        params.biases matches Some(b) ==> params_view::<B>(params).biases == Some(
            B::float_view(b),
        ),
{
}

/// A float tensor hands nothing on, a quantized one its quantization unless it inhibits that; and
/// both have their own dimensions.
pub proof fn law_kinds<E>(f: Tensor<E>, q: QTensor<E>)
    ensures
        inhibits(TensorPrimitive::<Tensor<E>, QTensor<E>>::Float(f)),
        inhibits(TensorPrimitive::<Tensor<E>, QTensor<E>>::QFloat(q)) <==> q.propagation
            == QuantPropagation::Inhibit,
        primitive_shape(TensorPrimitive::<Tensor<E>, QTensor<E>>::Float(f)) == f.shape,
        primitive_shape(TensorPrimitive::<Tensor<E>, QTensor<E>>::QFloat(q)) == q.shape,
{
}

/// Dequantizing keeps the dimensions and gives what the values stand for in the type that was asked
/// for.
pub proof fn law_dequantized<E>(q: QTensor<E>, dtype: FloatDType)
    ensures
        q.dequantized(dtype).shape == q.shape,
        q.dequantized(dtype).data == (q.decoded)(dtype),
{
}

} // verus!
