use vstd::prelude::*;
use crate::dtype::DType;
use crate::op::Op;

verus! {

/// The execution backends a storage or device may belong to.
#[derive(Clone, Copy, Debug, PartialEq, Eq, Structural)]
pub enum BackendKind {
    Cpu,
    Cuda,
    Metal,
}

/// The closed failure taxonomy of the backend contract. Every fallible
/// operation returns exactly one of these; none is swallowed or retried at
/// this layer.
#[derive(Clone, Copy, Debug, PartialEq, Eq, Structural)]
pub enum Error {
    /// The named backend was not compiled into this build.
    BackendNotAvailable(BackendKind),
    /// The operation does not support the given element type.
    UnsupportedDType { op: Op, dtype: DType },
    /// Two shapes that had to agree did not.
    ShapeMismatch,
    /// The operands live on different devices.
    DeviceMismatch,
    /// A dimension index lay outside the shape's rank.
    OutOfBoundsIndex { axis: usize },
    /// Source length, group size or scheme of a quantization call do not fit
    /// together.
    IncompatibleQuantizationParameters,
}

/// The error the absent Metal backend returns from every data-bearing call.
pub open spec fn metal_unavailable() -> Error {
    Error::BackendNotAvailable(BackendKind::Metal)
}

/// Error type reserved for a compiled-in Metal backend; with the backend
/// absent it can still be named and converted, so code above this layer
/// type-checks the same either way.
#[derive(Debug)]
pub enum MetalError {
    Message(String),
}

impl From<String> for MetalError {
    fn from(e: String) -> (r: Self) {
        MetalError::Message(e)
    }
}

impl vstd::std_specs::convert::FromSpecImpl<String> for MetalError {
    open spec fn obeys_from_spec() -> bool {
        true
    }

    open spec fn from_spec(e: String) -> Self {
        MetalError::Message(e)
    }
}

} // verus!
