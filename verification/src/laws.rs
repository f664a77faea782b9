//! What holds of ranges and quantization parameters taken together.
use vstd::prelude::*;

use crate::backend::{all_numbers, ascending, descending, BackendTypes};
use crate::blocks::{block_of, lemma_block_in_shape, num_blocks};
use crate::params::{
    affine_bias, affine_biases, affine_scale, affine_scales, greatest_abs, is_zipped, num_steps,
    symmetric_scale, symmetric_scales,
};
use crate::range::{block_sides, has_range, is_range_end, range_shape};
use crate::scheme::{BlockSize, QuantLevel, QuantValue};
use crate::shape::{all_positive, in_shape, lemma_ravel_bound, product, ravel};
use crate::tensor::Tensor;

verus! {

/// `value` gives the number that an element stands for: it agrees with the order of the elements.
pub open spec fn is_valuation<B: BackendTypes>(value: spec_fn(B::Elem) -> real) -> bool {
    forall|x: B::Elem, y: B::Elem|
        !B::is_nan(x) && !B::is_nan(y) ==> ((#[trigger] B::order(x) <= #[trigger] B::order(y))
            <==> value(x) <= value(y))
}

/// The greater of the absolute values of two numbers.
pub open spec fn max_abs(x: real, y: real) -> real {
    let a: real = if x < 0real {
        -x
    } else {
        x
    };
    let b: real = if y < 0real {
        -y
    } else {
        y
    };
    if a < b {
        b
    } else {
        a
    }
}

/// The backend takes an absolute value without rounding, and gets a number.
pub open spec fn is_exact_abs<B: BackendTypes>(
    value: spec_fn(B::Elem) -> real,
    x: B::Elem,
) -> bool {
    !B::is_nan(B::abs(x)) && value(B::abs(x)) == max_abs(value(x), value(x))
}

/// The backend multiplies by a whole number without rounding.
pub open spec fn is_exact_times<B: BackendTypes>(
    value: spec_fn(B::Elem) -> real,
    x: B::Elem,
    k: int,
) -> bool {
    value(B::times(x, k)) == value(x) * (k as real)
}

/// The backend divides by a whole number without rounding.
pub open spec fn is_exact_over<B: BackendTypes>(
    value: spec_fn(B::Elem) -> real,
    x: B::Elem,
    k: int,
) -> bool {
    value(B::over(x, k)) == value(x) / (k as real)
}

/// The backend subtracts without rounding.
pub open spec fn is_exact_minus<B: BackendTypes>(
    value: spec_fn(B::Elem) -> real,
    x: B::Elem,
    y: B::Elem,
) -> bool {
    value(B::minus(x, y)) == value(x) - value(y)
}

/// No step on the way to a symmetric scale is rounded.
pub open spec fn is_exact_symmetric<B: BackendTypes>(
    value: spec_fn(B::Elem) -> real,
    quant: QuantValue,
    min: B::Elem,
    max: B::Elem,
) -> bool {
    let greatest: B::Elem = greatest_abs::<B>(min, max);
    &&& is_exact_abs::<B>(value, min)
    &&& is_exact_abs::<B>(value, max)
    &&& is_exact_times::<B>(value, greatest, 2)
    &&& is_exact_over::<B>(value, B::times(greatest, 2), num_steps(quant))
}

/// No step on the way to an affine scale and bias is rounded.
pub open spec fn is_exact_affine<B: BackendTypes>(
    value: spec_fn(B::Elem) -> real,
    quant: QuantValue,
    min: B::Elem,
    max: B::Elem,
) -> bool {
    let scale: B::Elem = affine_scale::<B>(quant, min, max);
    &&& is_exact_minus::<B>(value, max, min)
    &&& is_exact_over::<B>(value, B::minus(max, min), num_steps(quant))
    &&& is_exact_times::<B>(value, scale, quant.low())
    &&& is_exact_minus::<B>(value, min, B::times(scale, quant.low()))
}

/// The number that a quantized value `q` stands for.
pub open spec fn decode(scale: real, bias: real, q: real) -> real {
    scale * q + bias
}

/// A number within the quantized range stands for `x`.
pub open spec fn is_represented(quant: QuantValue, scale: real, bias: real, x: real) -> bool {
    exists|q: real|
        quant.low() as real <= q <= quant.high() as real && #[trigger] decode(scale, bias, q) == x
}

/// Which element of a range belongs to the element `index` of a tensor.
pub open spec fn range_index(level: QuantLevel, index: Seq<int>) -> Seq<int> {
    match level {
        QuantLevel::Tensor => seq![0int],
        QuantLevel::Block(block) => block_of(index, block_sides(block@, index.len() as int)),
    }
}

/// Zero lies inside the quantized range, so it has at least two steps.
pub proof fn law_steps(quant: QuantValue)
    ensures
        quant.low() < 0 < quant.high(),
        num_steps(quant) >= 2,
{
}

/// Of the absolute values of two numbers, the greater one is taken.
pub proof fn law_greatest_abs<B: BackendTypes>(min: B::Elem, max: B::Elem)
    requires
        !B::is_nan(B::abs(min)),
        !B::is_nan(B::abs(max)),
    ensures
        B::order(B::abs(min)) <= B::order(greatest_abs::<B>(min, max)),
        B::order(B::abs(max)) <= B::order(greatest_abs::<B>(min, max)),
        greatest_abs::<B>(min, max) == B::abs(min) || greatest_abs::<B>(min, max) == B::abs(max),
{
}

/// Where an absolute value is not a number, nothing is greater: the first one is taken.
pub proof fn law_greatest_abs_nan<B: BackendTypes>(min: B::Elem, max: B::Elem)
    requires
        B::is_nan(B::abs(min)) || B::is_nan(B::abs(max)),
    ensures
        greatest_abs::<B>(min, max) == B::abs(min),
{
}

/// The quantized values of a whole-number type with `bits` bits: the full ranges hold all of them,
/// and the symmetric ranges leave the least one out. The float types are symmetric.
pub proof fn law_quantized_values(quant: QuantValue)
    ensures
        quant == QuantValue::Q8F ==> quant.low() == -0x80 && quant.high() == 0x7f,
        quant == QuantValue::Q4F ==> quant.low() == -0x8 && quant.high() == 0x7,
        quant == QuantValue::Q2F ==> quant.low() == -0x2 && quant.high() == 0x1,
        quant == QuantValue::Q8S ==> quant.low() == -0x7f && quant.high() == 0x7f,
        quant == QuantValue::Q4S ==> quant.low() == -0x7 && quant.high() == 0x7,
        quant == QuantValue::Q2S ==> quant.low() == -0x1 && quant.high() == 0x1,
        quant == QuantValue::E5M2 || quant == QuantValue::E4M3 || quant == QuantValue::E2M1
            ==> quant.low() == -quant.high(),
        quant == QuantValue::E5M2 ==> quant.high() == 7 * 0x2000,
        quant == QuantValue::E4M3 ==> quant.high() == 7 * 0x40,
        quant == QuantValue::E2M1 ==> quant.high() == 3 * 0x2,
{
}

/// Without rounding, affine parameters map the least quantized value to the least element of the
/// range and the greatest quantized value to the greatest element.
pub proof fn law_affine_ends<B: BackendTypes>(
    value: spec_fn(B::Elem) -> real,
    quant: QuantValue,
    min: B::Elem,
    max: B::Elem,
)
    requires
        is_exact_affine::<B>(value, quant, min, max),
    ensures
        decode(
            value(affine_scale::<B>(quant, min, max)),
            value(affine_bias::<B>(quant, min, max)),
            quant.low() as real,
        ) == value(min),
        decode(
            value(affine_scale::<B>(quant, min, max)),
            value(affine_bias::<B>(quant, min, max)),
            quant.high() as real,
        ) == value(max),
{
    let s: real = value(affine_scale::<B>(quant, min, max));
    let w: real = value(max) - value(min);
    let a: real = quant.low() as real;
    let b: real = quant.high() as real;
    let k: real = num_steps(quant) as real;
    law_steps(quant);
    assert(s * k == w) by (nonlinear_arith)
        requires
            s == w / k,
            k >= 2real,
    ;
    assert(s * b - s * a == s * k) by (nonlinear_arith)
        requires
            k == b - a,
    ;
}

/// A line through two points takes every value between theirs.
proof fn lemma_represented(quant: QuantValue, s: real, c: real, x: real)
    requires
        decode(s, c, quant.low() as real) <= x <= decode(s, c, quant.high() as real),
    ensures
        is_represented(quant, s, c, x),
{
    law_steps(quant);
    let a: real = quant.low() as real;
    let b: real = quant.high() as real;
    if decode(s, c, a) == x {
    } else {
        assert(s > 0real) by (nonlinear_arith)
            requires
                s * a + c < s * b + c,
                a < b,
        ;
        let q: real = (x - c) / s;
        assert(s * q == x - c) by (nonlinear_arith)
            requires
                q == (x - c) / s,
                s > 0real,
        ;
        assert(a <= q <= b) by (nonlinear_arith)
            requires
                s * q == x - c,
                s * a + c <= x <= s * b + c,
                s > 0real,
        ;
        assert(decode(s, c, q) == x);
    }
}

/// Without rounding, affine parameters represent every number between the ends of the range.
pub proof fn law_affine_covers<B: BackendTypes>(
    value: spec_fn(B::Elem) -> real,
    quant: QuantValue,
    min: B::Elem,
    max: B::Elem,
    x: real,
)
    requires
        is_exact_affine::<B>(value, quant, min, max),
        value(min) <= x <= value(max),
    ensures
        is_represented(
            quant,
            value(affine_scale::<B>(quant, min, max)),
            value(affine_bias::<B>(quant, min, max)),
            x,
        ),
{
    law_affine_ends::<B>(value, quant, min, max);
    lemma_represented(
        quant,
        value(affine_scale::<B>(quant, min, max)),
        value(affine_bias::<B>(quant, min, max)),
        x,
    );
}

/// Without rounding, the interval that a symmetric scale gives the quantized range is twice as
/// wide as the greater of the absolute values of both ends.
pub proof fn law_symmetric_width<B: BackendTypes>(
    value: spec_fn(B::Elem) -> real,
    quant: QuantValue,
    min: B::Elem,
    max: B::Elem,
)
    requires
        is_valuation::<B>(value),
        is_exact_symmetric::<B>(value, quant, min, max),
    ensures
        decode(value(symmetric_scale::<B>(quant, min, max)), 0real, quant.high() as real) - decode(
            value(symmetric_scale::<B>(quant, min, max)),
            0real,
            quant.low() as real,
        ) == 2real * max_abs(value(min), value(max)),
{
    let s: real = value(symmetric_scale::<B>(quant, min, max));
    let w: real = 2real * max_abs(value(min), value(max));
    assert(B::order(B::abs(max)) <= B::order(B::abs(min)) <==> value(B::abs(max)) <= value(
        B::abs(min),
    ));
    let alpha: real = value(greatest_abs::<B>(min, max));
    assert(alpha == max_abs(value(min), value(max)));
    assert(alpha * (2int as real) == w) by (nonlinear_arith)
        requires
            w == 2real * alpha,
    ;
    let a: real = quant.low() as real;
    let b: real = quant.high() as real;
    let k: real = num_steps(quant) as real;
    law_steps(quant);
    assert(s * k == w) by (nonlinear_arith)
        requires
            s == w / k,
            k >= 2real,
    ;
    assert(s * b - s * a == s * k) by (nonlinear_arith)
        requires
            k == b - a,
    ;
}

/// Without rounding, a symmetric scale represents every number that is no further from zero than
/// one of the ends of the range, where the quantized range reaches as far to both sides of zero.
pub proof fn law_symmetric_covers<B: BackendTypes>(
    value: spec_fn(B::Elem) -> real,
    quant: QuantValue,
    min: B::Elem,
    max: B::Elem,
    x: real,
)
    requires
        is_valuation::<B>(value),
        is_exact_symmetric::<B>(value, quant, min, max),
        quant.low() == -quant.high(),
        -max_abs(value(min), value(max)) <= x <= max_abs(value(min), value(max)),
    ensures
        is_represented(quant, value(symmetric_scale::<B>(quant, min, max)), 0real, x),
{
    law_symmetric_width::<B>(value, quant, min, max);
    let s: real = value(symmetric_scale::<B>(quant, min, max));
    let a: real = quant.low() as real;
    let b: real = quant.high() as real;
    assert(s * a == -(s * b)) by (nonlinear_arith)
        requires
            a == -b,
    ;
    lemma_represented(quant, s, 0real, x);
}

/// A dimension that is no longer than the side of a block is one block.
pub proof fn law_small_dimension(shape: Seq<int>, sides: Seq<int>, index: Seq<int>, k: int)
    requires
        shape.len() == sides.len(),
        0 <= k < shape.len(),
        1 <= shape[k] <= sides[k],
        in_shape(shape, index),
    ensures
        num_blocks(shape, sides)[k] == 1,
        block_of(index, sides)[k] == 0,
{
    let size: int = shape[k];
    let side: int = sides[k];
    assert(0 <= index[k] < size);
    vstd::arithmetic::div_mod::lemma_fundamental_div_mod_converse(
        size + side - 1,
        side,
        1,
        size - 1,
    );
    vstd::arithmetic::div_mod::lemma_basic_div(index[k], side);
}

/// The elements of a range belong to the elements of the tensor.
proof fn lemma_range_index(level: QuantLevel, shape: Seq<int>, index: Seq<int>)
    requires
        has_range(level, shape),
        in_shape(shape, index),
    ensures
        in_shape(range_shape(level, shape), range_index(level, index)),
{
    match level {
        QuantLevel::Tensor => {},
        QuantLevel::Block(block) => {
            let sides: Seq<int> = block_sides(block@, shape.len() as int);
            lemma_block_in_shape(shape, sides, 0, index);
            assert(shape.skip(0) =~= shape);
            assert(sides.skip(0) =~= sides);
            assert(num_blocks(shape, sides).skip(0) =~= num_blocks(shape, sides));
        },
    }
}

/// Every element of a tensor of numbers lies within the range that belongs to it.
pub proof fn law_range_holds<B: BackendTypes>(
    level: QuantLevel,
    t: Tensor<B::Elem>,
    min: Tensor<B::Elem>,
    max: Tensor<B::Elem>,
    index: Seq<int>,
)
    requires
        t.wf(),
        has_range(level, t.shape),
        min.shape == range_shape(level, t.shape),
        max.shape == range_shape(level, t.shape),
        is_range_end(ascending::<B>(), level, t, min),
        is_range_end(descending::<B>(), level, t, max),
        in_shape(t.shape, index),
    ensures
        in_shape(range_shape(level, t.shape), range_index(level, index)),
        B::order(min.at(range_index(level, index))) <= B::order(t.at(index)),
        B::order(t.at(index)) <= B::order(max.at(range_index(level, index))),
{
    lemma_range_index(level, t.shape, index);
    lemma_ravel_bound(t.shape, index);
    match level {
        QuantLevel::Tensor => {
            lemma_ravel_bound(seq![1int], seq![0int]);
            assert(ravel(seq![1int], seq![0int]) == 0);
            let low: spec_fn(B::Elem) -> int = ascending::<B>();
            let high: spec_fn(B::Elem) -> int = descending::<B>();
            let i: int = ravel(t.shape, index);
            assert(low(min.data[0]) <= low(t.data[i]));
            assert(high(max.data[0]) <= high(t.data[i]));
        },
        QuantLevel::Block(block) => {
            let low: spec_fn(B::Elem) -> int = ascending::<B>();
            let high: spec_fn(B::Elem) -> int = descending::<B>();
            let p: Seq<int> = range_index(level, index);
            assert(low(min.at(p)) <= low(t.at(index)));
            assert(high(max.at(p)) <= high(t.at(index)));
        },
    }
}

/// In every range of a tensor of numbers, the least element is not greater than the greatest.
pub proof fn law_range_ordered<B: BackendTypes>(
    level: QuantLevel,
    t: Tensor<B::Elem>,
    min: Tensor<B::Elem>,
    max: Tensor<B::Elem>,
    position: Seq<int>,
)
    requires
        t.wf(),
        has_range(level, t.shape),
        min.shape == range_shape(level, t.shape),
        max.shape == range_shape(level, t.shape),
        is_range_end(ascending::<B>(), level, t, min),
        is_range_end(descending::<B>(), level, t, max),
        in_shape(range_shape(level, t.shape), position),
    ensures
        B::order(min.at(position)) <= B::order(max.at(position)),
{
    let low: spec_fn(B::Elem) -> int = ascending::<B>();
    let high: spec_fn(B::Elem) -> int = descending::<B>();
    match level {
        QuantLevel::Tensor => {
            lemma_ravel_bound(seq![1int], position);
            lemma_one_position(position);
            let i: int = choose|i: int| 0 <= i < t.data.len() && t.data[i] == min.data[0];
            assert(high(max.data[0]) <= high(t.data[i]));
        },
        QuantLevel::Block(block) => {
            let sides: Seq<int> = block_sides(block@, t.shape.len() as int);
            let index: Seq<int> = choose|index: Seq<int>|
                in_shape(t.shape, index) && block_of(index, sides) == position && #[trigger] t.at(
                    index,
                ) == min.at(position);
            assert(high(max.at(block_of(index, sides))) <= high(t.at(index)));
        },
    }
}

/// The only element of a tensor with one element.
proof fn lemma_one_position(position: Seq<int>)
    requires
        in_shape(seq![1int], position),
    ensures
        ravel(seq![1int], position) == 0,
{
    let rest: Seq<int> = seq![1int].skip(1);
    assert(0 <= position[0] < 1);
    assert(position[0] * product(rest) == 0) by (nonlinear_arith)
        requires
            position[0] == 0,
    ;
    assert(ravel(rest, position.skip(1)) == 0);
}

/// Without rounding, the affine parameters computed from the range of a tensor of numbers
/// represent every element of it.
pub proof fn law_affine_represents<B: BackendTypes>(
    value: spec_fn(B::Elem) -> real,
    quant: QuantValue,
    level: QuantLevel,
    t: Tensor<B::Elem>,
    min: Tensor<B::Elem>,
    max: Tensor<B::Elem>,
    scales: Tensor<B::Elem>,
    biases: Tensor<B::Elem>,
    index: Seq<int>,
)
    requires
        is_valuation::<B>(value),
        t.wf(),
        all_numbers::<B>(t),
        has_range(level, t.shape),
        min.wf(),
        min.shape == range_shape(level, t.shape),
        max.shape == range_shape(level, t.shape),
        is_range_end(ascending::<B>(), level, t, min),
        is_range_end(descending::<B>(), level, t, max),
        is_zipped(affine_scales::<B>(quant), min, max, scales),
        is_zipped(affine_biases::<B>(quant), min, max, biases),
        in_shape(t.shape, index),
        is_exact_affine::<B>(
            value,
            quant,
            min.at(range_index(level, index)),
            max.at(range_index(level, index)),
        ),
    ensures
        is_represented(
            quant,
            value(scales.at(range_index(level, index))),
            value(biases.at(range_index(level, index))),
            value(t.at(index)),
        ),
{
    let p: Seq<int> = range_index(level, index);
    lemma_within::<B>(value, level, t, min, max, index);
    lemma_ravel_bound(min.shape, p);
    let i: int = ravel(min.shape, p);
    assert(scales.data[i] == affine_scale::<B>(quant, min.data[i], max.data[i]));
    assert(biases.data[i] == affine_bias::<B>(quant, min.data[i], max.data[i]));
    law_affine_covers::<B>(value, quant, min.at(p), max.at(p), value(t.at(index)));
}

/// Without rounding, the symmetric scales computed from the range of a tensor of numbers represent
/// every element of it, where the quantized range reaches as far to both sides of zero.
pub proof fn law_symmetric_represents<B: BackendTypes>(
    value: spec_fn(B::Elem) -> real,
    quant: QuantValue,
    level: QuantLevel,
    t: Tensor<B::Elem>,
    min: Tensor<B::Elem>,
    max: Tensor<B::Elem>,
    scales: Tensor<B::Elem>,
    index: Seq<int>,
)
    requires
        is_valuation::<B>(value),
        quant.low() == -quant.high(),
        t.wf(),
        all_numbers::<B>(t),
        has_range(level, t.shape),
        min.wf(),
        min.shape == range_shape(level, t.shape),
        max.shape == range_shape(level, t.shape),
        is_range_end(ascending::<B>(), level, t, min),
        is_range_end(descending::<B>(), level, t, max),
        is_zipped(symmetric_scales::<B>(quant), min, max, scales),
        in_shape(t.shape, index),
        is_exact_symmetric::<B>(
            value,
            quant,
            min.at(range_index(level, index)),
            max.at(range_index(level, index)),
        ),
    ensures
        is_represented(
            quant,
            value(scales.at(range_index(level, index))),
            0real,
            value(t.at(index)),
        ),
{
    let p: Seq<int> = range_index(level, index);
    lemma_within::<B>(value, level, t, min, max, index);
    lemma_ravel_bound(min.shape, p);
    let i: int = ravel(min.shape, p);
    assert(scales.data[i] == symmetric_scale::<B>(quant, min.data[i], max.data[i]));
    law_symmetric_covers::<B>(value, quant, min.at(p), max.at(p), value(t.at(index)));
}

/// The ends of a range are elements of the tensor, so they are numbers, and what an element stands
/// for lies between what they stand for.
proof fn lemma_within<B: BackendTypes>(
    value: spec_fn(B::Elem) -> real,
    level: QuantLevel,
    t: Tensor<B::Elem>,
    min: Tensor<B::Elem>,
    max: Tensor<B::Elem>,
    index: Seq<int>,
)
    requires
        is_valuation::<B>(value),
        t.wf(),
        all_numbers::<B>(t),
        has_range(level, t.shape),
        min.shape == range_shape(level, t.shape),
        max.shape == range_shape(level, t.shape),
        is_range_end(ascending::<B>(), level, t, min),
        is_range_end(descending::<B>(), level, t, max),
        in_shape(t.shape, index),
    ensures
        in_shape(range_shape(level, t.shape), range_index(level, index)),
        value(min.at(range_index(level, index))) <= value(t.at(index)),
        value(t.at(index)) <= value(max.at(range_index(level, index))),
{
    law_range_holds::<B>(level, t, min, max, index);
    lemma_ravel_bound(t.shape, index);
    let p: Seq<int> = range_index(level, index);
    assert(!B::is_nan(t.at(index)));
    assert(!B::is_nan(min.at(p)) && !B::is_nan(max.at(p))) by {
        match level {
            QuantLevel::Tensor => {
                lemma_one_position(p);
                let i: int = choose|i: int| 0 <= i < t.data.len() && t.data[i] == min.data[0];
                let j: int = choose|j: int| 0 <= j < t.data.len() && t.data[j] == max.data[0];
                assert(!B::is_nan(t.data[i]) && !B::is_nan(t.data[j]));
            },
            QuantLevel::Block(block) => {
                let sides: Seq<int> = block_sides(block@, t.shape.len() as int);
                let i: Seq<int> = choose|i: Seq<int>|
                    in_shape(t.shape, i) && block_of(i, sides) == p && #[trigger] t.at(i) == min.at(
                        p,
                    );
                let j: Seq<int> = choose|j: Seq<int>|
                    in_shape(t.shape, j) && block_of(j, sides) == p && #[trigger] t.at(j) == max.at(
                        p,
                    );
                lemma_ravel_bound(t.shape, i);
                lemma_ravel_bound(t.shape, j);
                assert(!B::is_nan(t.at(i)) && !B::is_nan(t.at(j)));
            },
        }
    }
}

/// The quantized values of this type are whole numbers.
pub open spec fn is_integer(quant: QuantValue) -> bool {
    match quant {
        QuantValue::E5M2 | QuantValue::E4M3 | QuantValue::E2M1 => false,
        _ => true,
    }
}

/// What the quantized value `q` stands for is at most half a scale away from `x`.
pub open spec fn is_near(scale: real, bias: real, q: int, x: real) -> bool {
    -scale <= 2real * (decode(scale, bias, q as real) - x) <= scale
}

/// Some whole number of the quantized range stands for a number at most half a scale away from
/// `x`.
pub open spec fn is_approximated(quant: QuantValue, scale: real, bias: real, x: real) -> bool {
    exists|q: int| quant.low() <= q <= quant.high() && #[trigger] is_near(scale, bias, q, x)
}

/// The whole number next to `x`, between two whole numbers that enclose it.
proof fn lemma_nearest(low: int, high: int, x: real) -> (q: int)
    requires
        low as real <= x <= high as real,
    ensures
        low <= q <= high,
        -1real <= 2real * (q as real - x) <= 1real,
    decreases high - low,
{
    if 2real * x <= 2real * (low as real) + 1real {
        low
    } else {
        lemma_nearest_above(low, high, x)
    }
}

/// The whole number next to `x`, where the lower bound is not it.
proof fn lemma_nearest_above(low: int, high: int, x: real) -> (q: int)
    requires
        low as real <= x <= high as real,
        2real * x > 2real * (low as real) + 1real,
    ensures
        low <= q <= high,
        -1real <= 2real * (q as real - x) <= 1real,
    decreases high - low,
{
    assert(low < high);
    if x <= (low + 1) as real {
        low + 1
    } else if 2real * x <= 2real * ((low + 1) as real) + 1real {
        low + 1
    } else {
        lemma_nearest_above(low + 1, high, x)
    }
}

/// What is represented is also approximated by a whole number.
proof fn lemma_approximated(quant: QuantValue, scale: real, bias: real, x: real)
    requires
        scale >= 0real,
        is_represented(quant, scale, bias, x),
    ensures
        is_approximated(quant, scale, bias, x),
{
    let q: real = choose|q: real|
        quant.low() as real <= q <= quant.high() as real && #[trigger] decode(scale, bias, q) == x;
    let n: int = lemma_nearest(quant.low(), quant.high(), q);
    let d: real = n as real - q;
    assert(2real * (scale * (n as real) + bias - (scale * q + bias)) == scale * (2real * d))
        by (nonlinear_arith)
        requires
            d == n as real - q,
    ;
    assert(-scale <= scale * (2real * d) <= scale) by (nonlinear_arith)
        requires
            scale >= 0real,
            -1real <= 2real * d <= 1real,
    ;
    assert(is_near(scale, bias, n, x));
}

/// Where no step on the way to the parameters is rounded, every element of a tensor of numbers is
/// at most half an affine scale away from what some quantized value stands for.
pub proof fn law_affine_half_step<B: BackendTypes>(
    value: spec_fn(B::Elem) -> real,
    quant: QuantValue,
    level: QuantLevel,
    t: Tensor<B::Elem>,
    min: Tensor<B::Elem>,
    max: Tensor<B::Elem>,
    scales: Tensor<B::Elem>,
    biases: Tensor<B::Elem>,
    index: Seq<int>,
)
    requires
        is_integer(quant),
        is_valuation::<B>(value),
        t.wf(),
        all_numbers::<B>(t),
        has_range(level, t.shape),
        min.wf(),
        min.shape == range_shape(level, t.shape),
        max.shape == range_shape(level, t.shape),
        is_range_end(ascending::<B>(), level, t, min),
        is_range_end(descending::<B>(), level, t, max),
        is_zipped(affine_scales::<B>(quant), min, max, scales),
        is_zipped(affine_biases::<B>(quant), min, max, biases),
        in_shape(t.shape, index),
        is_exact_affine::<B>(
            value,
            quant,
            min.at(range_index(level, index)),
            max.at(range_index(level, index)),
        ),
    ensures
        is_approximated(
            quant,
            value(scales.at(range_index(level, index))),
            value(biases.at(range_index(level, index))),
            value(t.at(index)),
        ),
{
    let p: Seq<int> = range_index(level, index);
    law_affine_represents::<B>(value, quant, level, t, min, max, scales, biases, index);
    lemma_within::<B>(value, level, t, min, max, index);
    lemma_ravel_bound(min.shape, p);
    let i: int = ravel(min.shape, p);
    assert(scales.data[i] == affine_scale::<B>(quant, min.data[i], max.data[i]));
    law_steps(quant);
    let w: real = value(max.at(p)) - value(min.at(p));
    let k: real = num_steps(quant) as real;
    let s: real = value(scales.at(p));
    assert(s >= 0real) by (nonlinear_arith)
        requires
            s == w / k,
            w >= 0real,
            k >= 2real,
    ;
    lemma_approximated(quant, s, value(biases.at(p)), value(t.at(index)));
}

/// Where no step on the way to the parameters is rounded, every element of a tensor of numbers is
/// at most half a symmetric scale away from what some quantized value stands for. This holds also
/// where the quantized range reaches one value further below zero than above.
pub proof fn law_symmetric_half_step<B: BackendTypes>(
    value: spec_fn(B::Elem) -> real,
    quant: QuantValue,
    level: QuantLevel,
    t: Tensor<B::Elem>,
    min: Tensor<B::Elem>,
    max: Tensor<B::Elem>,
    scales: Tensor<B::Elem>,
    index: Seq<int>,
)
    requires
        is_integer(quant),
        is_valuation::<B>(value),
        t.wf(),
        all_numbers::<B>(t),
        has_range(level, t.shape),
        min.wf(),
        min.shape == range_shape(level, t.shape),
        max.shape == range_shape(level, t.shape),
        is_range_end(ascending::<B>(), level, t, min),
        is_range_end(descending::<B>(), level, t, max),
        is_zipped(symmetric_scales::<B>(quant), min, max, scales),
        in_shape(t.shape, index),
        is_exact_symmetric::<B>(
            value,
            quant,
            min.at(range_index(level, index)),
            max.at(range_index(level, index)),
        ),
    ensures
        is_approximated(
            quant,
            value(scales.at(range_index(level, index))),
            0real,
            value(t.at(index)),
        ),
{
    let p: Seq<int> = range_index(level, index);
    let x: real = value(t.at(index));
    lemma_within::<B>(value, level, t, min, max, index);
    lemma_ravel_bound(min.shape, p);
    let i: int = ravel(min.shape, p);
    assert(scales.data[i] == symmetric_scale::<B>(quant, min.data[i], max.data[i]));
    law_symmetric_width::<B>(value, quant, min.at(p), max.at(p));
    law_steps(quant);
    let s: real = value(scales.at(p));
    let a: real = quant.low() as real;
    let b: real = quant.high() as real;
    let alpha: real = max_abs(value(min.at(p)), value(max.at(p)));
    assert(-alpha <= x <= alpha);
    assert(-1real <= a + b <= 0real);
    assert(s >= 0real) by (nonlinear_arith)
        requires
            s * b - s * a >= 0real,
            b > a,
    ;
    assert(-s <= s * a + s * b <= 0real) by (nonlinear_arith)
        requires
            s >= 0real,
            -1real <= a + b <= 0real,
    ;
    if x <= decode(s, 0real, b) {
        lemma_represented(quant, s, 0real, x);
        lemma_approximated(quant, s, 0real, x);
    } else {
        assert(is_near(s, 0real, quant.high(), x));
    }
}

/// How far what the quantized value `q` stands for is from `x`.
pub open spec fn distance(scale: real, bias: real, q: int, x: real) -> real {
    let y: real = decode(scale, bias, q as real);
    if y < x {
        x - y
    } else {
        y - x
    }
}

/// `q` lies in the quantized range, and no value of the range stands for a number nearer to `x`.
pub open spec fn is_nearest(
    quant: QuantValue,
    scale: real,
    bias: real,
    q: int,
    x: real,
) -> bool {
    &&& quant.low() <= q <= quant.high()
    &&& forall|r: int|
        quant.low() <= r <= quant.high() ==> distance(scale, bias, q, x) <= #[trigger] distance(
            scale,
            bias,
            r,
            x,
        )
}

/// A nearest value is as near as any that is near enough.
proof fn lemma_nearest_is_near(quant: QuantValue, scale: real, bias: real, q: int, x: real)
    requires
        is_approximated(quant, scale, bias, x),
        is_nearest(quant, scale, bias, q, x),
    ensures
        is_near(scale, bias, q, x),
{
    let r: int = choose|r: int|
        quant.low() <= r <= quant.high() && #[trigger] is_near(scale, bias, r, x);
    assert(distance(scale, bias, q, x) <= distance(scale, bias, r, x));
}

/// Where no step on the way to the parameters is rounded, an element of a tensor of numbers that is
/// quantized to a nearest value of the range comes back at most half an affine scale away.
pub proof fn law_affine_nearest<B: BackendTypes>(
    value: spec_fn(B::Elem) -> real,
    quant: QuantValue,
    level: QuantLevel,
    t: Tensor<B::Elem>,
    min: Tensor<B::Elem>,
    max: Tensor<B::Elem>,
    scales: Tensor<B::Elem>,
    biases: Tensor<B::Elem>,
    index: Seq<int>,
    q: int,
)
    requires
        is_integer(quant),
        is_valuation::<B>(value),
        t.wf(),
        all_numbers::<B>(t),
        has_range(level, t.shape),
        min.wf(),
        min.shape == range_shape(level, t.shape),
        max.shape == range_shape(level, t.shape),
        is_range_end(ascending::<B>(), level, t, min),
        is_range_end(descending::<B>(), level, t, max),
        is_zipped(affine_scales::<B>(quant), min, max, scales),
        is_zipped(affine_biases::<B>(quant), min, max, biases),
        in_shape(t.shape, index),
        is_exact_affine::<B>(
            value,
            quant,
            min.at(range_index(level, index)),
            max.at(range_index(level, index)),
        ),
        is_nearest(
            quant,
            value(scales.at(range_index(level, index))),
            value(biases.at(range_index(level, index))),
            q,
            value(t.at(index)),
        ),
    ensures
        is_near(
            value(scales.at(range_index(level, index))),
            value(biases.at(range_index(level, index))),
            q,
            value(t.at(index)),
        ),
{
    law_affine_half_step::<B>(value, quant, level, t, min, max, scales, biases, index);
    lemma_nearest_is_near(
        quant,
        value(scales.at(range_index(level, index))),
        value(biases.at(range_index(level, index))),
        q,
        value(t.at(index)),
    );
}

/// Where no step on the way to the parameters is rounded, an element of a tensor of numbers that is
/// quantized to a nearest value of the range comes back at most half a symmetric scale away.
pub proof fn law_symmetric_nearest<B: BackendTypes>(
    value: spec_fn(B::Elem) -> real,
    quant: QuantValue,
    level: QuantLevel,
    t: Tensor<B::Elem>,
    min: Tensor<B::Elem>,
    max: Tensor<B::Elem>,
    scales: Tensor<B::Elem>,
    index: Seq<int>,
    q: int,
)
    requires
        is_integer(quant),
        is_valuation::<B>(value),
        t.wf(),
        all_numbers::<B>(t),
        has_range(level, t.shape),
        min.wf(),
        min.shape == range_shape(level, t.shape),
        max.shape == range_shape(level, t.shape),
        is_range_end(ascending::<B>(), level, t, min),
        is_range_end(descending::<B>(), level, t, max),
        is_zipped(symmetric_scales::<B>(quant), min, max, scales),
        in_shape(t.shape, index),
        is_exact_symmetric::<B>(
            value,
            quant,
            min.at(range_index(level, index)),
            max.at(range_index(level, index)),
        ),
        is_nearest(
            quant,
            value(scales.at(range_index(level, index))),
            0real,
            q,
            value(t.at(index)),
        ),
    ensures
        is_near(
            value(scales.at(range_index(level, index))),
            0real,
            q,
            value(t.at(index)),
        ),
{
    law_symmetric_half_step::<B>(value, quant, level, t, min, max, scales, index);
    lemma_nearest_is_near(
        quant,
        value(scales.at(range_index(level, index))),
        0real,
        q,
        value(t.at(index)),
    );
}

/// `negated` negates numbers as the backend does: it keeps absolute values, and the difference of
/// two negated numbers is that of the numbers in the other order.
pub open spec fn is_negation<B: BackendTypes>(negated: spec_fn(B::Elem) -> B::Elem) -> bool {
    &&& forall|x: B::Elem| !B::is_nan(x) ==> #[trigger] B::abs(negated(x)) == B::abs(x)
    &&& forall|x: B::Elem, y: B::Elem|
        !B::is_nan(x) && !B::is_nan(y) ==> #[trigger] B::minus(negated(x), negated(y)) == B::minus(
            y,
            x,
        )
}

/// Both ends of a range and their absolute values are numbers, and absolute values that are equal
/// numbers are the same element.
pub open spec fn has_absolute_values<B: BackendTypes>(min: B::Elem, max: B::Elem) -> bool {
    &&& !B::is_nan(min)
    &&& !B::is_nan(max)
    &&& !B::is_nan(B::abs(min))
    &&& !B::is_nan(B::abs(max))
    &&& B::order(B::abs(min)) == B::order(B::abs(max)) ==> B::abs(min) == B::abs(max)
}

/// The range from the negated greatest to the negated least element has the same scales as the
/// range.
pub proof fn law_negated_range<B: BackendTypes>(
    negated: spec_fn(B::Elem) -> B::Elem,
    quant: QuantValue,
    min: B::Elem,
    max: B::Elem,
)
    requires
        is_negation::<B>(negated),
        has_absolute_values::<B>(min, max),
    ensures
        affine_scale::<B>(quant, negated(max), negated(min)) == affine_scale::<B>(quant, min, max),
        symmetric_scale::<B>(quant, negated(max), negated(min)) == symmetric_scale::<B>(
            quant,
            min,
            max,
        ),
{
}

/// A tensor with each element negated.
pub open spec fn negated_tensor<E>(negated: spec_fn(E) -> E, t: Tensor<E>) -> Tensor<E> {
    Tensor { shape: t.shape, data: t.data.map_values(negated) }
}

/// The scales computed from negated ranges are those computed from the ranges, in both modes.
pub proof fn law_negated_scales<B: BackendTypes>(
    negated: spec_fn(B::Elem) -> B::Elem,
    quant: QuantValue,
    min: Tensor<B::Elem>,
    max: Tensor<B::Elem>,
    scales: Tensor<B::Elem>,
    mirrored: Tensor<B::Elem>,
)
    requires
        is_negation::<B>(negated),
        min.shape == max.shape,
        min.data.len() == max.data.len(),
        forall|i: int|
            0 <= i < min.data.len() ==> has_absolute_values::<B>(
                #[trigger] min.data[i],
                max.data[i],
            ),
        ({
            ||| {
                &&& is_zipped(symmetric_scales::<B>(quant), min, max, scales)
                &&& is_zipped(
                    symmetric_scales::<B>(quant),
                    negated_tensor(negated, max),
                    negated_tensor(negated, min),
                    mirrored,
                )
            }
            ||| {
                &&& is_zipped(affine_scales::<B>(quant), min, max, scales)
                &&& is_zipped(
                    affine_scales::<B>(quant),
                    negated_tensor(negated, max),
                    negated_tensor(negated, min),
                    mirrored,
                )
            }
        }),
    ensures
        mirrored == scales,
{
    assert forall|i: int| 0 <= i < min.data.len() implies mirrored.data[i] == scales.data[i] by {
        law_negated_range::<B>(negated, quant, min.data[i], max.data[i]);
    }
    assert(mirrored.data =~= scales.data);
}

/// The element `index` of a tensor belongs to the entry `position` of the ranges of its blocks:
/// along each dimension it lies in the block with that number. The sides of a block are those of
/// the innermost dimensions; a dimension that the block does not name is cut at every element.
pub open spec fn belongs(block: Seq<u8>, index: Seq<int>, position: Seq<int>) -> bool {
    &&& index.len() == position.len()
    &&& forall|k: int|
        0 <= k < index.len() ==> {
            let side: int = if k < index.len() - block.len() {
                1
            } else if block.len() <= index.len() {
                block[k - (index.len() - block.len())] as int
            } else {
                block[k] as int
            };
            position[k] * side <= #[trigger] index[k] < (position[k] + 1) * side
        }
}

/// Which tensors have a range: those with elements and, for blocks, those each of whose dimensions
/// is a multiple of the side of the block there or smaller than it.
pub proof fn law_has_range(level: QuantLevel, shape: Seq<int>)
    requires
        forall|k: int| 0 <= k < shape.len() ==> #[trigger] shape[k] >= 1,
        level matches QuantLevel::Block(block) ==> forall|k: int|
            0 <= k < shape.len() ==> {
                let side: int = if k < shape.len() - block@.len() {
                1
            } else if block@.len() <= shape.len() {
                block@[k - (shape.len() - block@.len())] as int
            } else {
                block@[k] as int
            };
                side >= 1 && (#[trigger] shape[k] % side == 0 || shape[k] < side)
            },
    ensures
        has_range(level, shape),
{
    match level {
        QuantLevel::Tensor => {},
        QuantLevel::Block(block) => {
            let sides: Seq<int> = block_sides(block@, shape.len() as int);
            assert forall|k: int| 0 <= k < sides.len() implies #[trigger] sides[k] >= 1 by {
                assert(shape[k] >= 1);
            }
            assert forall|k: int| 0 <= k < shape.len() implies (#[trigger] shape[k] % sides[k] == 0
                || shape[k] < sides[k]) by {
                assert(shape[k] >= 1);
            }
        },
    }
}

/// The ranges of a whole tensor have one entry. Those of blocks have, along each dimension, as many
/// entries as it takes blocks to cover it: one block less would not reach the end.
pub proof fn law_range_entries(level: QuantLevel, shape: Seq<int>, k: int)
    requires
        has_range(level, shape),
        0 <= k < shape.len(),
    ensures
        level is Tensor ==> range_shape(level, shape) == seq![1int],
        level matches QuantLevel::Block(block) ==> {
            let side: int = if k < shape.len() - block@.len() {
                1
            } else if block@.len() <= shape.len() {
                block@[k - (shape.len() - block@.len())] as int
            } else {
                block@[k] as int
            };
            let entries: int = range_shape(level, shape)[k];
            &&& range_shape(level, shape).len() == shape.len()
            &&& side >= 1
            &&& (entries - 1) * side < shape[k] <= entries * side
        },
{
    match level {
        QuantLevel::Tensor => {},
        QuantLevel::Block(block) => {
            let sides: Seq<int> = block_sides(block@, shape.len() as int);
            let side: int = sides[k];
            let size: int = shape[k];
            assert(side >= 1);
            vstd::arithmetic::div_mod::lemma_fundamental_div_mod(size + side - 1, side);
            vstd::arithmetic::div_mod::lemma_mod_bound(size + side - 1, side);
            let n: int = (size + side - 1) / side;
            let r: int = (size + side - 1) % side;
            assert((n - 1) * side < size <= n * side) by (nonlinear_arith)
                requires
                    size + side - 1 == side * n + r,
                    0 <= r < side,
            ;
        },
    }
}

/// A number within a block is in the block that dividing by the side gives.
proof fn lemma_in_block(x: int, side: int, n: int)
    requires
        side >= 1,
    ensures
        x / side == n <==> n * side <= x < (n + 1) * side,
{
    vstd::arithmetic::div_mod::lemma_fundamental_div_mod(x, side);
    vstd::arithmetic::div_mod::lemma_mod_bound(x, side);
    let q: int = x / side;
    let r: int = x % side;
    if q == n {
        assert(n * side <= x < (n + 1) * side) by (nonlinear_arith)
            requires
                x == side * n + r,
                0 <= r < side,
        ;
    }
    if n * side <= x < (n + 1) * side {
        assert(q == n) by (nonlinear_arith)
            requires
                x == side * q + r,
                0 <= r < side,
                n * side <= x < (n + 1) * side,
        ;
    }
}

/// Belonging to an entry is being in that block.
proof fn lemma_belongs(block: Seq<u8>, index: Seq<int>, position: Seq<int>)
    requires
        all_positive(block_sides(block, index.len() as int)),
        index.len() == position.len(),
    ensures
        belongs(block, index, position) <==> block_of(
            index,
            block_sides(block, index.len() as int),
        ) == position,
{
    let sides: Seq<int> = block_sides(block, index.len() as int);
    assert forall|k: int| 0 <= k < index.len() implies (#[trigger] index[k] / sides[k]
        == position[k] <==> position[k] * sides[k] <= index[k] < (position[k] + 1) * sides[k]) by {
        assert(sides[k] >= 1);
        lemma_in_block(index[k], sides[k], position[k]);
    }
    if belongs(block, index, position) {
        assert forall|k: int| 0 <= k < index.len() implies block_of(index, sides)[k]
            == position[k] by {
            assert(position[k] * sides[k] <= index[k] < (position[k] + 1) * sides[k]);
        }
        assert(block_of(index, sides) =~= position);
    }
    if block_of(index, sides) == position {
        assert forall|k: int| 0 <= k < index.len() implies ({
            let side: int = if k < index.len() - block.len() {
                1
            } else if block.len() <= index.len() {
                block[k - (index.len() - block.len())] as int
            } else {
                block[k] as int
            };
            position[k] * side <= #[trigger] index[k] < (position[k] + 1) * side
        }) by {
            assert(block_of(index, sides)[k] == index[k] / sides[k]);
        }
    }
}

/// Two elements share an entry of the ranges of blocks just where they lie in the same block along
/// every dimension.
pub proof fn law_same_entry(block: BlockSize, i: Seq<int>, j: Seq<int>)
    requires
        i.len() == j.len(),
    ensures
        range_index(QuantLevel::Block(block), i) == range_index(QuantLevel::Block(block), j) <==> (
        forall|k: int|
            0 <= k < i.len() ==> {
                let side: int = if k < i.len() - block@.len() {
                1
            } else if block@.len() <= i.len() {
                block@[k - (i.len() - block@.len())] as int
            } else {
                block@[k] as int
            };
                #[trigger] i[k] / side == j[k] / side
            }),
{
    let sides: Seq<int> = block_sides(block@, i.len() as int);
    let a: Seq<int> = range_index(QuantLevel::Block(block), i);
    let b: Seq<int> = range_index(QuantLevel::Block(block), j);
    if a == b {
        assert forall|k: int| 0 <= k < i.len() implies ({
            let side: int = if k < i.len() - block@.len() {
                1
            } else if block@.len() <= i.len() {
                block@[k - (i.len() - block@.len())] as int
            } else {
                block@[k] as int
            };
            #[trigger] i[k] / side == j[k] / side
        }) by {
            assert(a[k] == b[k]);
        }
    }
    if forall|k: int|
        0 <= k < i.len() ==> {
            let side: int = if k < i.len() - block@.len() {
                1
            } else if block@.len() <= i.len() {
                block@[k - (i.len() - block@.len())] as int
            } else {
                block@[k] as int
            };
            #[trigger] i[k] / side == j[k] / side
        } {
        assert forall|k: int| 0 <= k < i.len() implies a[k] == b[k] by {
            assert(i[k] / sides[k] == j[k] / sides[k]);
        }
        assert(a =~= b);
    }
}

/// Each entry of the ranges of blocks holds the least and the greatest of the elements that belong
/// to it: they are among these elements, and no other of them lies outside.
pub proof fn law_block_range<B: BackendTypes>(
    block: BlockSize,
    t: Tensor<B::Elem>,
    min: Tensor<B::Elem>,
    max: Tensor<B::Elem>,
    position: Seq<int>,
)
    requires
        t.wf(),
        has_range(QuantLevel::Block(block), t.shape),
        min.shape == range_shape(QuantLevel::Block(block), t.shape),
        max.shape == range_shape(QuantLevel::Block(block), t.shape),
        is_range_end(ascending::<B>(), QuantLevel::Block(block), t, min),
        is_range_end(descending::<B>(), QuantLevel::Block(block), t, max),
        in_shape(min.shape, position),
    ensures
        forall|index: Seq<int>|
            in_shape(t.shape, index) && belongs(block@, index, position) ==> B::order(
                min.at(position),
            ) <= B::order(#[trigger] t.at(index)) <= B::order(max.at(position)),
        exists|index: Seq<int>|
            in_shape(t.shape, index) && belongs(block@, index, position) && #[trigger] t.at(index)
                == min.at(position),
        exists|index: Seq<int>|
            in_shape(t.shape, index) && belongs(block@, index, position) && #[trigger] t.at(index)
                == max.at(position),
{
    let sides: Seq<int> = block_sides(block@, t.shape.len() as int);
    let low: spec_fn(B::Elem) -> int = ascending::<B>();
    let high: spec_fn(B::Elem) -> int = descending::<B>();
    assert forall|index: Seq<int>|
        in_shape(t.shape, index) && belongs(block@, index, position) implies B::order(
        min.at(position),
    ) <= B::order(#[trigger] t.at(index)) <= B::order(max.at(position)) by {
        lemma_belongs(block@, index, position);
        assert(low(min.at(position)) <= low(t.at(index)));
        assert(high(max.at(position)) <= high(t.at(index)));
    }
    let i: Seq<int> = choose|i: Seq<int>|
        in_shape(t.shape, i) && block_of(i, sides) == position && #[trigger] t.at(i) == min.at(
            position,
        );
    lemma_belongs(block@, i, position);
    assert(t.at(i) == min.at(position));
    let j: Seq<int> = choose|j: Seq<int>|
        in_shape(t.shape, j) && block_of(j, sides) == position && #[trigger] t.at(j) == max.at(
            position,
        );
    lemma_belongs(block@, j, position);
    assert(t.at(j) == max.at(position));
}

/// The range of a whole tensor holds the least and the greatest of its elements.
pub proof fn law_tensor_range<B: BackendTypes>(
    t: Tensor<B::Elem>,
    min: Tensor<B::Elem>,
    max: Tensor<B::Elem>,
)
    requires
        is_range_end(ascending::<B>(), QuantLevel::Tensor, t, min),
        is_range_end(descending::<B>(), QuantLevel::Tensor, t, max),
    ensures
        forall|i: int|
            0 <= i < t.data.len() ==> B::order(min.data[0]) <= B::order(#[trigger] t.data[i])
                <= B::order(max.data[0]),
        exists|i: int| 0 <= i < t.data.len() && #[trigger] t.data[i] == min.data[0],
        exists|i: int| 0 <= i < t.data.len() && #[trigger] t.data[i] == max.data[0],
{
    let low: spec_fn(B::Elem) -> int = ascending::<B>();
    let high: spec_fn(B::Elem) -> int = descending::<B>();
    assert forall|i: int| 0 <= i < t.data.len() implies B::order(min.data[0]) <= B::order(
        #[trigger] t.data[i],
    ) <= B::order(max.data[0]) by {
        assert(low(min.data[0]) <= low(t.data[i]));
        assert(high(max.data[0]) <= high(t.data[i]));
    }
}

} // verus!
