//! Quantization schemes: what is stored, at which granularity, and how it maps to floats.
use vstd::prelude::*;
use vstd::slice::slice_subrange;

verus! {

/// Largest number of dimensions that a block size can name.
pub const MAX_BLOCK_DIMS: usize = 5;

/// Describes how the values of a tensor are quantized.
#[derive(Clone, Copy, Debug)]
pub struct QuantScheme {
    /// The logical type of the quantized values.
    pub value: QuantValue,
    /// Precision of the quantization parameters.
    pub param: QuantParam,
    /// How the quantized values are stored.
    pub store: QuantStore,
    /// Granularity of the quantization parameters.
    pub level: QuantLevel,
    /// How quantized values map to floats.
    pub mode: QuantMode,
}

/// Data type of quantized values.
#[derive(Clone, Copy, Debug, PartialEq, Eq, Structural)]
pub enum QuantValue {
    /// 8 bits, full range.
    Q8F,
    /// 8-bit float with 5 exponent bits.
    E5M2,
    /// 8-bit float with 4 exponent bits.
    E4M3,
    /// 4 bits, full range.
    Q4F,
    /// 4-bit float with 2 exponent bits.
    E2M1,
    /// 2 bits, full range.
    Q2F,
    /// 8 bits, symmetric range.
    Q8S,
    /// 4 bits, symmetric range.
    Q4S,
    /// 2 bits, symmetric range.
    Q2S,
}

/// Precision of quantization parameters.
#[derive(Clone, Copy, Debug, PartialEq, Eq, Structural)]
pub enum QuantParam {
    F32,
    F16,
    BF16,
    UE8M0,
    UE4M3,
}

/// Storage of quantized values. The packed forms name the packed dimension, counted from the
/// innermost one.
#[derive(Clone, Copy, Debug, PartialEq, Eq, Structural)]
pub enum QuantStore {
    Native,
    PackedNative(usize),
    PackedU32(usize),
}

/// Granularity of quantization parameters.
#[derive(Clone, Copy, Debug)]
pub enum QuantLevel {
    /// One set of parameters for the whole tensor.
    Tensor,
    /// One set of parameters for each block of the given size.
    Block(BlockSize),
}

/// How quantized values map to floats.
#[derive(Clone, Copy, Debug, PartialEq, Eq, Structural)]
pub enum QuantMode {
    /// A scale alone.
    Symmetric,
    /// A scale and a bias.
    Affine,
}

/// How the range of a tensor is found.
#[derive(Clone, Copy, Debug, PartialEq, Eq, Structural)]
pub enum Calibration {
    /// The smallest and the largest value.
    MinMax,
}

/// What an operation on quantized tensors hands on.
#[derive(Clone, Copy, Debug, PartialEq, Eq, Structural)]
pub enum QuantPropagation {
    /// The result is quantized too.
    Propagate,
    /// The result is a float tensor.
    Inhibit,
}

/// The sides of a block, innermost dimension last; at most [`MAX_BLOCK_DIMS`] of them.
#[derive(Clone, Copy, Debug)]
pub struct BlockSize {
    storage: [u8; 5],
    len: usize,
}

impl BlockSize {
    #[verifier::type_invariant]
    spec fn fits(self) -> bool {
        self.len <= 5
    }

    /// The sides of the block.
    pub closed spec fn view(&self) -> Seq<u8> {
        self.storage@.take(self.len as int)
    }

    /// A block with the given sides.
    pub fn new(values: &[u8]) -> (block: BlockSize)
        requires
            values@.len() <= MAX_BLOCK_DIMS,
        ensures
            block@ == values@,
    {
        let mut storage: [u8; 5] = [1, 1, 1, 1, 1];
        let mut i: usize = 0;
        while i < values.len()
            invariant
                values@.len() <= 5,
                i <= values@.len(),
                storage@.len() == 5,
                forall|j: int| 0 <= j < i ==> storage@[j] == values@[j],
            decreases values@.len() - i,
        {
            storage[i] = values[i];
            i = i + 1;
        }
        let block = BlockSize { storage, len: values.len() };
        assert(block@ =~= values@);
        block
    }

    /// The sides of the block, innermost dimension last.
    pub fn as_slice(&self) -> (values: &[u8])
        ensures
            values@ == self@,
            values@.len() <= MAX_BLOCK_DIMS,
    {
        proof {
            use_type_invariant(self);
        }
        let all: &[u8] = self.storage.as_slice();
        assert(self@ =~= all@.subrange(0, self.len as int));
        slice_subrange(all, 0, self.len)
    }

    /// The sides of the block in each of `rank` dimensions.
    pub fn to_dim_vec(&self, rank: usize) -> (dims: Vec<u8>)
        ensures
            dims@ == dim_vec(self@, rank as int),
            dims@.len() == rank,
            forall|k: int|
                0 <= k < rank ==> #[trigger] dims@[k] == if k < rank - self@.len() {
                    1u8
                } else if self@.len() <= rank {
                    self@[k - (rank - self@.len())]
                } else {
                    self@[k]
                },
    {
        cube_dim_vec(self.as_slice(), rank)
    }
}

/// A block with the sides `values` seen from `rank` dimensions: sides of one are added in front
/// where the block names fewer dimensions, and only its first `rank` sides count where it names
/// more.
pub open spec fn dim_vec(values: Seq<u8>, rank: int) -> Seq<u8> {
    let kept: int = if values.len() < rank {
        values.len() as int
    } else {
        rank
    };
    Seq::new(
        rank as nat,
        |i: int|
            if i < rank - kept {
                1u8
            } else {
                values[i - (rank - kept)]
            },
    )
}

/// Calls `cubecl::quant::scheme::BlockSize::to_dim_vec` on a block with the given sides. Claimed
/// of it: the result has `rank` entries; it ends in the first sides of the block, as many as fit,
/// and every entry before them is one.
#[verifier::external_body]
fn cube_dim_vec(values: &[u8], rank: usize) -> (dims: Vec<u8>)
    requires
        values@.len() <= MAX_BLOCK_DIMS,
    ensures
        dims@ == dim_vec(values@, rank as int),
{
    cubecl::quant::scheme::BlockSize::new(values).to_dim_vec(rank)
}

impl QuantValue {
    /// The least quantized value.
    pub open spec fn low(self) -> int {
        match self {
            QuantValue::Q8F => -128,
            QuantValue::Q4F => -8,
            QuantValue::Q2F => -2,
            QuantValue::Q8S => -127,
            QuantValue::Q4S => -7,
            QuantValue::Q2S => -1,
            QuantValue::E4M3 => -448,
            QuantValue::E5M2 => -57344,
            QuantValue::E2M1 => -6,
        }
    }

    /// The greatest quantized value.
    pub open spec fn high(self) -> int {
        match self {
            QuantValue::Q8F => 127,
            QuantValue::Q4F => 7,
            QuantValue::Q2F => 1,
            QuantValue::Q8S => 127,
            QuantValue::Q4S => 7,
            QuantValue::Q2S => 1,
            QuantValue::E4M3 => 448,
            QuantValue::E5M2 => 57344,
            QuantValue::E2M1 => 6,
        }
    }

    /// The quantized range `[a, b]`.
    pub fn range(&self) -> (range: (i32, i32))
        ensures
            range.0 == self.low(),
            range.1 == self.high(),
    {
        cube_range(*self)
    }
}

/// Calls `cubecl::quant::scheme::QuantValue::range`. Claimed of it: both ends are whole numbers,
/// those of [`QuantValue::low`] and [`QuantValue::high`].
#[verifier::external_body]
fn cube_range(value: QuantValue) -> (range: (i32, i32))
    ensures
        range.0 == value.low(),
        range.1 == value.high(),
{
    let (low, high) = match value {
        QuantValue::Q8F => cubecl::quant::scheme::QuantValue::Q8F,
        QuantValue::E5M2 => cubecl::quant::scheme::QuantValue::E5M2,
        QuantValue::E4M3 => cubecl::quant::scheme::QuantValue::E4M3,
        QuantValue::Q4F => cubecl::quant::scheme::QuantValue::Q4F,
        QuantValue::E2M1 => cubecl::quant::scheme::QuantValue::E2M1,
        QuantValue::Q2F => cubecl::quant::scheme::QuantValue::Q2F,
        QuantValue::Q8S => cubecl::quant::scheme::QuantValue::Q8S,
        QuantValue::Q4S => cubecl::quant::scheme::QuantValue::Q4S,
        QuantValue::Q2S => cubecl::quant::scheme::QuantValue::Q2S,
    }.range();
    (low as i32, high as i32)
}

} // verus!
