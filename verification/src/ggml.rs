//! The backend for ggml: which tensors and operations it knows, and the kernels it builds for them.

use vstd::prelude::*;

pub mod compute_graph;
pub mod device;
pub mod eltwise;
pub mod walk;

verus! {

/// How the elements of a tensor are stored.
#[allow(non_camel_case_types)]
#[derive(Clone, Copy, Debug, PartialEq, Eq, Structural)]
pub enum GgmlType {
    F32,
    F16,
    Q4_0,
    Q4_1,
    Q5_0,
    Q5_1,
    Q8_0,
    Q8_1,
    Q2_K,
    Q3_K,
    Q4_K,
    Q5_K,
    Q6_K,
    Q8_K,
    IQ2_XXS,
    IQ2_XS,
    IQ3_XXS,
    IQ1_S,
    IQ4_NL,
    IQ3_S,
    IQ2_S,
    IQ4_XS,
    I8,
    I16,
    I32,
    I64,
    F64,
    IQ1_M,
    BF16,
    TQ1_0,
    TQ2_0,
    MXFP4,
    /// Not a type, but how many there are.
    COUNT,
}

/// The operation that gives a tensor, as far as the backend tells operations apart.
#[derive(Clone, Copy, Debug, PartialEq, Eq, Structural)]
pub enum GgmlOp {
    Nothing,
    Add,
    Add1,
    Other,
}

/// A tensor.
pub struct GgmlTensor {
    pub type_: GgmlType,
    /// How many elements each dimension has.
    pub ne: [i64; 4],
    /// How many bytes lie between two elements along each dimension.
    pub nb: [usize; 4],
    pub data: Vec<u8>,
}

} // verus!
