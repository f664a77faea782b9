//! What the backward pass is for: whatever it returns is the gradient of the product.
use vstd::prelude::*;

use crate::autodiff::{
    is_fold_step, is_folded, is_folded_lhs_grad, is_folded_rhs_grad, is_lhs_grad, is_q_lhs_grad,
    is_q_rhs_grad, is_rhs_grad, Matmul, NodeId, Operation, QMatmulFloatLhs, QMatmulFloatRhs,
};
use crate::backend::{sums, Backend, BackendTypes};
use crate::gradient::{broadcasts, inner_product, is_exact_product};
use crate::repeated::{
    exact_sums, law_matmul_lhs_grad, law_matmul_rhs_grad, law_spread_lhs_grad, law_spread_rhs_grad,
    spread,
};
use crate::shape::{as_dims, product};
use crate::sums::sum;
use crate::tensor::{is_sum_along, matmul_shapes, DeviceSettings, FloatDType, QTensor, Tensor};

verus! {

/// The backend multiplies matrices without rounding, where `value` gives the number that an element
/// stands for.
pub open spec fn multiplies_exactly<B: BackendTypes>(value: spec_fn(B::Elem) -> real) -> bool {
    forall|lhs: Tensor<B::Elem>, rhs: Tensor<B::Elem>, out: Tensor<B::Elem>| #[trigger]
        B::is_product(lhs, rhs, out) ==> is_exact_product(value, lhs, rhs, out)
}

/// The backend adds without rounding.
pub open spec fn adds_exactly<B: BackendTypes>(value: spec_fn(B::Elem) -> real) -> bool {
    forall|terms: Seq<B::Elem>, x: B::Elem| #[trigger]
        B::is_sum(terms, x) ==> value(x) == sum(
            terms.len() as int,
            |j: int| value(terms[j]),
        )
}

/// The floats that a quantized tensor stands for in the type `dtype`.
pub open spec fn weights<E>(q: QTensor<E>, dtype: FloatDType) -> Tensor<E> {
    Tensor { shape: q.shape, data: (q.decoded)(dtype) }
}

/// Without rounding, what comes back for the left factor of a product whose other factor is `rhs`
/// is the gradient: for every change of the factor, repeated where the factor was, the inner
/// product with the change is that of the gradient of the product with the change of the product.
/// Where the factor was not repeated, it has the dimensions of the factor.
pub proof fn law_backward_in_lhs<B: Backend>(
    value: spec_fn(B::Elem) -> real,
    rhs: Tensor<B::Elem>,
    grad: Tensor<B::Elem>,
    out: Tensor<B::Elem>,
    change: Tensor<B::Elem>,
    effect: Tensor<B::Elem>,
)
    requires
        multiplies_exactly::<B>(value),
        is_lhs_grad::<B>(grad, rhs, out),
        change.wf(),
        rhs.wf(),
        grad.wf(),
        out.wf(),
        matmul_shapes(change.shape, rhs.shape),
        is_exact_product(value, change, rhs, effect),
        grad.shape == effect.shape,
    ensures
        inner_product(value, grad, effect) == inner_product(
            value,
            out,
            spread(change, out.shape),
        ),
        broadcasts(rhs.shape, change.shape) ==> out.shape == change.shape && inner_product(
            value,
            grad,
            effect,
        ) == inner_product(value, out, change),
{
    law_spread_lhs_grad(value, change, rhs, effect, grad, out);
}

/// Without rounding, what the backward pass returns for the float factor on the left of a quantized
/// factor `rhs` is the gradient: for every change of the float factor, repeated where the factor
/// was, the inner product with the change is that of the gradient of the product with the change of
/// the product. Where it was not repeated, it has the dimensions of the float factor. The quantized
/// factor counts as the floats that it stands for in the type that its device is set to.
pub proof fn law_backward_lhs<B: Backend>(
    value: spec_fn(B::Elem) -> real,
    rhs: B::QuantizedTensorPrimitive,
    grad: Tensor<B::Elem>,
    out: Tensor<B::Elem>,
    change: Tensor<B::Elem>,
    effect: Tensor<B::Elem>,
)
    requires
        multiplies_exactly::<B>(value),
        is_q_lhs_grad::<B>(grad, rhs, out),
        change.wf(),
        grad.wf(),
        out.wf(),
        matmul_shapes(change.shape, B::q_view(rhs).shape),
        forall|settings: DeviceSettings| #[trigger]
            B::is_set_to(B::q_location(rhs), settings) ==> {
                &&& weights(B::q_view(rhs), settings.float_dtype).wf()
                &&& is_exact_product(
                    value,
                    change,
                    weights(B::q_view(rhs), settings.float_dtype),
                    effect,
                )
            },
        grad.shape == effect.shape,
    ensures
        inner_product(value, grad, effect) == inner_product(
            value,
            out,
            spread(change, out.shape),
        ),
        broadcasts(B::q_view(rhs).shape, change.shape) ==> out.shape == change.shape
            && inner_product(value, grad, effect) == inner_product(value, out, change),
{
    let settings: DeviceSettings = choose|settings: DeviceSettings| #[trigger]
        B::is_set_to(B::q_location(rhs), settings) && is_lhs_grad::<B>(
            grad,
            B::q_view(rhs).dequantized(settings.float_dtype),
            out,
        );
    let w: Tensor<B::Elem> = weights(B::q_view(rhs), settings.float_dtype);
    assert(B::q_view(rhs).dequantized(settings.float_dtype) == w);
    law_backward_in_lhs::<B>(value, w, grad, out, change, effect);
}

/// Without rounding, what comes back for the right factor of a product whose other factor is `lhs`
/// is the gradient: for every change of the factor, repeated where the factor was, the inner
/// product with the change is that of the gradient of the product with the change of the product.
/// Where the factor was not repeated, it has the dimensions of the factor.
pub proof fn law_backward_in_rhs<B: Backend>(
    value: spec_fn(B::Elem) -> real,
    lhs: Tensor<B::Elem>,
    grad: Tensor<B::Elem>,
    out: Tensor<B::Elem>,
    change: Tensor<B::Elem>,
    effect: Tensor<B::Elem>,
)
    requires
        multiplies_exactly::<B>(value),
        is_rhs_grad::<B>(grad, lhs, out),
        change.wf(),
        lhs.wf(),
        grad.wf(),
        out.wf(),
        matmul_shapes(lhs.shape, change.shape),
        is_exact_product(value, lhs, change, effect),
        grad.shape == effect.shape,
    ensures
        inner_product(value, grad, effect) == inner_product(
            value,
            out,
            spread(change, out.shape),
        ),
        broadcasts(lhs.shape, change.shape) ==> out.shape == change.shape && inner_product(
            value,
            grad,
            effect,
        ) == inner_product(value, out, change),
{
    law_spread_rhs_grad(value, lhs, change, effect, grad, out);
}

/// Without rounding, what the backward pass returns for the float factor on the right of a
/// quantized factor `lhs` is the gradient: for every change of the float factor, repeated where the
/// factor was, the inner product with the change is that of the gradient of the product with the
/// change of the product. Where it was not repeated, it has the dimensions of the float factor. The
/// quantized factor counts as the floats that it stands for in the type that its device is set to.
pub proof fn law_backward_rhs<B: Backend>(
    value: spec_fn(B::Elem) -> real,
    lhs: B::QuantizedTensorPrimitive,
    grad: Tensor<B::Elem>,
    out: Tensor<B::Elem>,
    change: Tensor<B::Elem>,
    effect: Tensor<B::Elem>,
)
    requires
        multiplies_exactly::<B>(value),
        is_q_rhs_grad::<B>(grad, lhs, out),
        change.wf(),
        grad.wf(),
        out.wf(),
        matmul_shapes(B::q_view(lhs).shape, change.shape),
        forall|settings: DeviceSettings| #[trigger]
            B::is_set_to(B::q_location(lhs), settings) ==> {
                &&& weights(B::q_view(lhs), settings.float_dtype).wf()
                &&& is_exact_product(
                    value,
                    weights(B::q_view(lhs), settings.float_dtype),
                    change,
                    effect,
                )
            },
        grad.shape == effect.shape,
    ensures
        inner_product(value, grad, effect) == inner_product(
            value,
            out,
            spread(change, out.shape),
        ),
        broadcasts(B::q_view(lhs).shape, change.shape) ==> out.shape == change.shape
            && inner_product(value, grad, effect) == inner_product(value, out, change),
{
    let settings: DeviceSettings = choose|settings: DeviceSettings| #[trigger]
        B::is_set_to(B::q_location(lhs), settings) && is_rhs_grad::<B>(
            grad,
            B::q_view(lhs).dequantized(settings.float_dtype),
            out,
        );
    let w: Tensor<B::Elem> = weights(B::q_view(lhs), settings.float_dtype);
    assert(B::q_view(lhs).dequantized(settings.float_dtype) == w);
    law_backward_in_rhs::<B>(value, w, grad, out, change, effect);
}

/// Sums of a backend that adds without rounding are exact.
proof fn lemma_exact_fold<B: Backend>(
    value: spec_fn(B::Elem) -> real,
    dims: Seq<int>,
    n: int,
    t: Tensor<B::Elem>,
    out: Tensor<B::Elem>,
)
    requires
        adds_exactly::<B>(value),
        is_folded(sums::<B>(), dims, n, t, out),
    ensures
        is_folded(exact_sums(value), dims, n, t, out),
    decreases n,
{
    if n > 0 {
        let mid: Tensor<B::Elem> = choose|mid: Tensor<B::Elem>|
            is_folded(sums::<B>(), dims, n - 1, t, mid) && #[trigger] is_fold_step(
                sums::<B>(),
                dims,
                n - 1,
                mid,
                out,
            );
        lemma_exact_fold::<B>(value, dims, n - 1, t, mid);
        if dims[n - 1] == 1 && mid.shape[n - 1] != 1 {
            lemma_exact_sum_along::<B>(value, mid, n - 1, out);
        }
        assert(is_fold_step(exact_sums(value), dims, n - 1, mid, out));
    }
}

proof fn lemma_exact_sum_along<B: Backend>(
    value: spec_fn(B::Elem) -> real,
    t: Tensor<B::Elem>,
    dim: int,
    out: Tensor<B::Elem>,
)
    requires
        adds_exactly::<B>(value),
        is_sum_along(sums::<B>(), t, dim, out),
    ensures
        is_sum_along(exact_sums(value), t, dim, out),
{
    let stride: int = product(t.shape.skip(dim + 1));
    assert forall|outer: int, inner: int|
        0 <= outer < product(t.shape.take(dim)) && 0 <= inner < stride implies
        exact_sums(value)(
        #[trigger] t.fibre(dim, outer, inner),
        out.data[outer * stride + inner],
    ) by {
        let fibre: Seq<B::Elem> = t.fibre(dim, outer, inner);
        assert(sums::<B>()(fibre, out.data[outer * stride + inner]));
        assert(B::is_sum(fibre, out.data[outer * stride + inner]));
    }
}

/// Without rounding, what the backward pass returns for the left factor of a product of float
/// tensors is the gradient, whichever factor was repeated: it has the dimensions of the factor, and
/// for every change of it, the inner product with the change is that of the gradient of the product
/// with the change of the product.
pub proof fn law_backward_matmul_lhs<B: Backend>(
    value: spec_fn(B::Elem) -> real,
    rhs: Tensor<B::Elem>,
    grad: Tensor<B::Elem>,
    out: Tensor<B::Elem>,
    change: Tensor<B::Elem>,
    effect: Tensor<B::Elem>,
)
    requires
        multiplies_exactly::<B>(value),
        adds_exactly::<B>(value),
        is_folded_lhs_grad::<B>(grad, rhs, change.shape, out),
        change.wf(),
        rhs.wf(),
        grad.wf(),
        matmul_shapes(change.shape, rhs.shape),
        is_exact_product(value, change, rhs, effect),
        grad.shape == effect.shape,
    ensures
        out.shape == change.shape,
        inner_product(value, grad, effect) == inner_product(value, out, change),
{
    let n: int = change.shape.len() - 2;
    let full: Tensor<B::Elem> = choose|full: Tensor<B::Elem>| #[trigger]
        is_lhs_grad::<B>(grad, rhs, full) && full.wf() && is_folded(
            sums::<B>(),
            change.shape,
            n,
            full,
            out,
        );
    lemma_exact_fold::<B>(value, change.shape, n, full, out);
    law_matmul_lhs_grad(value, change, rhs, effect, grad, full, out);
}

/// Without rounding, what the backward pass returns for the right factor of a product of float
/// tensors is the gradient, whichever factor was repeated: it has the dimensions of the factor, and
/// for every change of it, the inner product with the change is that of the gradient of the product
/// with the change of the product.
pub proof fn law_backward_matmul_rhs<B: Backend>(
    value: spec_fn(B::Elem) -> real,
    lhs: Tensor<B::Elem>,
    grad: Tensor<B::Elem>,
    out: Tensor<B::Elem>,
    change: Tensor<B::Elem>,
    effect: Tensor<B::Elem>,
)
    requires
        multiplies_exactly::<B>(value),
        adds_exactly::<B>(value),
        is_folded_rhs_grad::<B>(grad, lhs, change.shape, out),
        change.wf(),
        lhs.wf(),
        grad.wf(),
        matmul_shapes(lhs.shape, change.shape),
        is_exact_product(value, lhs, change, effect),
        grad.shape == effect.shape,
    ensures
        out.shape == change.shape,
        inner_product(value, grad, effect) == inner_product(value, out, change),
{
    let n: int = change.shape.len() - 2;
    let full: Tensor<B::Elem> = choose|full: Tensor<B::Elem>| #[trigger]
        is_rhs_grad::<B>(grad, lhs, full) && full.wf() && is_folded(
            sums::<B>(),
            change.shape,
            n,
            full,
            out,
        );
    lemma_exact_fold::<B>(value, change.shape, n, full, out);
    law_matmul_rhs_grad(value, lhs, change, effect, grad, full, out);
}

/// A recorded product of a float tensor on the left and a quantized one hands one gradient on: to
/// the node that was recorded for the float factor, and it is the gradient of that factor.
pub proof fn law_hands_on_q_lhs<B: Backend>(
    value: spec_fn(B::Elem) -> real,
    parent: NodeId,
    state: QMatmulFloatLhs<B>,
    grad: Tensor<B::Elem>,
    grads: Seq<(NodeId, B::FloatTensorPrimitive)>,
    change: Tensor<B::Elem>,
    effect: Tensor<B::Elem>,
)
    requires
        multiplies_exactly::<B>(value),
        (Operation::QMatmulFloatLhs { parent, state }).hands_on(grad, grads),
        change.wf(),
        grad.wf(),
        grads.len() == 1 ==> B::float_view(grads[0].1).wf(),
        matmul_shapes(change.shape, B::q_view(state.q_rhs).shape),
        forall|settings: DeviceSettings| #[trigger]
            B::is_set_to(B::q_location(state.q_rhs), settings) ==> {
                &&& weights(B::q_view(state.q_rhs), settings.float_dtype).wf()
                &&& is_exact_product(
                    value,
                    change,
                    weights(B::q_view(state.q_rhs), settings.float_dtype),
                    effect,
                )
            },
        grad.shape == effect.shape,
    ensures
        grads.len() == 1,
        grads[0].0 == parent,
        inner_product(value, grad, effect) == inner_product(
            value,
            B::float_view(grads[0].1),
            spread(change, B::float_view(grads[0].1).shape),
        ),
        broadcasts(B::q_view(state.q_rhs).shape, change.shape) ==> {
            &&& B::float_view(grads[0].1).shape == change.shape
            &&& inner_product(value, grad, effect) == inner_product(
                value,
                B::float_view(grads[0].1),
                change,
            )
        },
{
    law_backward_lhs::<B>(value, state.q_rhs, grad, B::float_view(grads[0].1), change, effect);
}

/// A recorded product of a float tensor on the right and a quantized one hands one gradient on: to
/// the node that was recorded for the float factor, and it is the gradient of that factor.
pub proof fn law_hands_on_q_rhs<B: Backend>(
    value: spec_fn(B::Elem) -> real,
    parent: NodeId,
    state: QMatmulFloatRhs<B>,
    grad: Tensor<B::Elem>,
    grads: Seq<(NodeId, B::FloatTensorPrimitive)>,
    change: Tensor<B::Elem>,
    effect: Tensor<B::Elem>,
)
    requires
        multiplies_exactly::<B>(value),
        (Operation::QMatmulFloatRhs { parent, state }).hands_on(grad, grads),
        change.wf(),
        grad.wf(),
        grads.len() == 1 ==> B::float_view(grads[0].1).wf(),
        matmul_shapes(B::q_view(state.q_lhs).shape, change.shape),
        forall|settings: DeviceSettings| #[trigger]
            B::is_set_to(B::q_location(state.q_lhs), settings) ==> {
                &&& weights(B::q_view(state.q_lhs), settings.float_dtype).wf()
                &&& is_exact_product(
                    value,
                    weights(B::q_view(state.q_lhs), settings.float_dtype),
                    change,
                    effect,
                )
            },
        grad.shape == effect.shape,
    ensures
        grads.len() == 1,
        grads[0].0 == parent,
        inner_product(value, grad, effect) == inner_product(
            value,
            B::float_view(grads[0].1),
            spread(change, B::float_view(grads[0].1).shape),
        ),
        broadcasts(B::q_view(state.q_lhs).shape, change.shape) ==> {
            &&& B::float_view(grads[0].1).shape == change.shape
            &&& inner_product(value, grad, effect) == inner_product(
                value,
                B::float_view(grads[0].1),
                change,
            )
        },
{
    law_backward_rhs::<B>(value, state.q_lhs, grad, B::float_view(grads[0].1), change, effect);
}

/// A recorded product of float tensors hands gradients on to the factors that need them, the left
/// one first, and each is the gradient of its factor.
pub proof fn law_hands_on_matmul<B: Backend>(
    value: spec_fn(B::Elem) -> real,
    lhs: Option<NodeId>,
    rhs: Option<NodeId>,
    state: Matmul<B>,
    grad: Tensor<B::Elem>,
    grads: Seq<(NodeId, B::FloatTensorPrimitive)>,
    change: Tensor<B::Elem>,
    effect: Tensor<B::Elem>,
)
    requires
        multiplies_exactly::<B>(value),
        adds_exactly::<B>(value),
        (Operation::Matmul { lhs, rhs, state }).takes_grad(grad.shape),
        (Operation::Matmul { lhs, rhs, state }).hands_on(grad, grads),
        change.wf(),
        grad.wf(),
        grad.shape == effect.shape,
    ensures
        lhs is None && rhs is None ==> grads.len() == 0,
        lhs is Some && rhs is Some ==> grads.len() == 2,
        (lhs is Some <==> rhs is None) ==> grads.len() == 1,
        lhs matches Some(id) ==> grads[0].0 == id,
        rhs matches Some(id) ==> grads[grads.len() - 1].0 == id,
        lhs is Some && change.shape == as_dims(state.lhs_shape@) && B::float_view(
            state.rhs->0,
        ).wf() && matmul_shapes(change.shape, B::float_view(state.rhs->0).shape)
            && is_exact_product(value, change, B::float_view(state.rhs->0), effect) ==> {
            let out: Tensor<B::Elem> = B::float_view(grads[0].1);
            &&& out.shape == change.shape
            &&& inner_product(value, grad, effect) == inner_product(value, out, change)
        },
        rhs is Some && change.shape == as_dims(state.rhs_shape@) && B::float_view(
            state.lhs->0,
        ).wf() && matmul_shapes(B::float_view(state.lhs->0).shape, change.shape)
            && is_exact_product(value, B::float_view(state.lhs->0), change, effect) ==> {
            let out: Tensor<B::Elem> = B::float_view(grads[grads.len() - 1].1);
            &&& out.shape == change.shape
            &&& inner_product(value, grad, effect) == inner_product(value, out, change)
        },
{
    if lhs is Some && change.shape == as_dims(state.lhs_shape@) && B::float_view(state.rhs->0).wf()
        && matmul_shapes(change.shape, B::float_view(state.rhs->0).shape) && is_exact_product(
        value,
        change,
        B::float_view(state.rhs->0),
        effect,
    ) {
        law_backward_matmul_lhs::<B>(
            value,
            B::float_view(state.rhs->0),
            grad,
            B::float_view(grads[0].1),
            change,
            effect,
        );
    }
    if rhs is Some && change.shape == as_dims(state.rhs_shape@) && B::float_view(state.lhs->0).wf()
        && matmul_shapes(B::float_view(state.lhs->0).shape, change.shape) && is_exact_product(
        value,
        B::float_view(state.lhs->0),
        change,
        effect,
    ) {
        law_backward_matmul_rhs::<B>(
            value,
            B::float_view(state.lhs->0),
            grad,
            B::float_view(grads[grads.len() - 1].1),
            change,
            effect,
        );
    }
}

/// Through two layers with frozen weights, one after the other, the gradient of the output reaches
/// the input: what the second layer hands on is the gradient of what the first layer returned, and
/// what the first hands on is that of the input.
pub proof fn law_two_layers<B: Backend>(
    value: spec_fn(B::Elem) -> real,
    x: NodeId,
    first: QMatmulFloatLhs<B>,
    y: NodeId,
    second: QMatmulFloatLhs<B>,
    grad: Tensor<B::Elem>,
    middle: Seq<(NodeId, B::FloatTensorPrimitive)>,
    last: Seq<(NodeId, B::FloatTensorPrimitive)>,
    change: Tensor<B::Elem>,
    through: Tensor<B::Elem>,
    effect: Tensor<B::Elem>,
)
    requires
        multiplies_exactly::<B>(value),
        (Operation::QMatmulFloatLhs { parent: y, state: second }).hands_on(grad, middle),
        (Operation::QMatmulFloatLhs { parent: x, state: first }).hands_on(
            B::float_view(middle[0].1),
            last,
        ),
        change.wf(),
        through.wf(),
        grad.wf(),
        B::float_view(middle[0].1).wf(),
        B::float_view(last[0].1).wf(),
        matmul_shapes(change.shape, B::q_view(first.q_rhs).shape),
        broadcasts(B::q_view(first.q_rhs).shape, change.shape),
        matmul_shapes(through.shape, B::q_view(second.q_rhs).shape),
        broadcasts(B::q_view(second.q_rhs).shape, through.shape),
        forall|settings: DeviceSettings| #[trigger]
            B::is_set_to(B::q_location(first.q_rhs), settings) ==> {
                let w: Tensor<B::Elem> = weights(B::q_view(first.q_rhs), settings.float_dtype);
                w.wf() && is_exact_product(value, change, w, through)
            },
        forall|settings: DeviceSettings| #[trigger]
            B::is_set_to(B::q_location(second.q_rhs), settings) ==> {
                let w: Tensor<B::Elem> = weights(B::q_view(second.q_rhs), settings.float_dtype);
                w.wf() && is_exact_product(value, through, w, effect)
            },
        grad.shape == effect.shape,
    ensures
        last.len() == 1,
        last[0].0 == x,
        middle[0].0 == y,
        B::float_view(last[0].1).shape == change.shape,
        inner_product(value, grad, effect) == inner_product(
            value,
            B::float_view(last[0].1),
            change,
        ),
{
    law_hands_on_q_lhs::<B>(value, y, second, grad, middle, through, effect);
    law_hands_on_q_lhs::<B>(
        value,
        x,
        first,
        B::float_view(middle[0].1),
        last,
        change,
        through,
    );
}

} // verus!
