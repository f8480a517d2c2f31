//! Backend-abstraction core of a tensor compute engine.
//!
//! A tensor is described by a [`Shape`] (dimension sizes), a [`Layout`]
//! (shape, per-dimension strides and a base offset over a physical buffer)
//! and a [`DType`] (element type tag). Data lives in a storage owned by a
//! device; the host interchange form is [`CpuStorage`], whose operations are
//! verified against an exact mathematical model. An optional accelerator
//! backend that was not compiled in is still present as a stub
//! ([`MetalDevice`], [`MetalStorage`], [`QMetalStorage`]) whose every
//! data-bearing call is proved to return the one fixed
//! backend-not-available error.

mod conv;
mod cpu;
mod device;
mod dtype;
mod error;
mod layout;
mod metal;
mod op;
mod quantized;
mod shape;

pub use conv::{conv_out_size, conv_out_spec, conv_transpose_out_size, conv_transpose_out_spec, ParamsConv1D, ParamsConv2D, ParamsConvTranspose1D, ParamsConvTranspose2D};
pub use cpu::{grid_offset, index2d, lemma_affine_round_trip, matmul_cell, touches2d, CpuStorage};
pub use device::DeviceLocation;
pub use dtype::{lemma_buffer_round_trip, lemma_dtype_round_trip, lemma_wrap_identity, DType, Scalar, WithDType};
pub use error::{metal_unavailable, BackendKind, Error, MetalError};
pub use layout::{contiguous_stride_of, strided_offset, strided_span, Layout};
pub use metal::{MetalDevice, MetalStorage};
pub use op::{binary_apply, cmp_holds, unary_apply, BinaryOp, CmpOp, Op, ReduceOp, UnaryOp};
pub use quantized::{load_quantized, GgmlDType, GgmlType, QMetalStorage, QStorage};
pub use shape::{dims_product, Shape};
