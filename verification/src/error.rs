use vstd::prelude::*;

verus! {

/// Why a filter or a kernel constructor turned its input down.
#[derive(Clone, Copy, Debug, PartialEq, Eq, Structural)]
pub enum FilterError {
    /// A Gaussian kernel was asked for with a sample count or a density
    /// table from which no normalised kernel can be made.
    InvalidKernelParameters,
    /// A caller-supplied kernel is not a well-formed set of coefficients.
    MalformedCustomKernel,
    /// The image, or the extent named by the caller, is smaller than the
    /// span the operator needs.
    DimensionTooSmall,
}

} // verus!
