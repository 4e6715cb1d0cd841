//! Pixel-level image filters in exact integer arithmetic: separable and
//! direct convolution with rational kernels, perceptual luma, Sobel edge
//! magnitude and histogram equalisation.  Every filter carries a contract
//! that states each output pixel as a function of the input grid.

pub mod arith;
pub mod convulutions;
pub mod error;
pub mod gauss;
pub mod histogram;
pub mod kernel;
pub mod luma_operations;
pub mod raster;
