use vstd::prelude::*;

verus! {

/// Names of the operations that can appear in an unsupported-dtype error.
#[derive(Clone, Copy, Debug, PartialEq, Eq, Structural)]
pub enum Op {
    ConstSet,
    ToDType,
    Matmul,
    Copy,
    Cmp,
    WhereCond,
    Affine,
    Unary,
    Binary,
    Quantize,
    Dequantize,
}

/// Elementwise unary operation tags. A closed tagged enumeration stands in
/// for per-operation dispatch types, as the operation catalogue is fixed.
#[derive(Clone, Copy, Debug, PartialEq, Eq, Structural)]
pub enum UnaryOp {
    Neg,
    Abs,
    Sqr,
}

/// Elementwise binary operation tags.
#[derive(Clone, Copy, Debug, PartialEq, Eq, Structural)]
pub enum BinaryOp {
    Add,
    Sub,
    Mul,
    Min,
    Max,
}

/// Elementwise comparison tags; comparisons produce a boolean-valued storage.
#[derive(Clone, Copy, Debug, PartialEq, Eq, Structural)]
pub enum CmpOp {
    Eq,
    Ne,
    Le,
    Ge,
    Lt,
    Gt,
}

/// What an elementwise unary operation computes on one element value.
pub open spec fn unary_apply(op: UnaryOp, v: int) -> int {
    match op {
        UnaryOp::Neg => -v,
        UnaryOp::Abs => if v < 0 {
            -v
        } else {
            v
        },
        UnaryOp::Sqr => v * v,
    }
}

/// What an elementwise binary operation computes on a pair of element
/// values.
pub open spec fn binary_apply(op: BinaryOp, a: int, b: int) -> int {
    match op {
        BinaryOp::Add => a + b,
        BinaryOp::Sub => a - b,
        BinaryOp::Mul => a * b,
        BinaryOp::Min => if a < b {
            a
        } else {
            b
        },
        BinaryOp::Max => if a < b {
            b
        } else {
            a
        },
    }
}

/// What an elementwise comparison asks of a pair of element values.
pub open spec fn cmp_holds(op: CmpOp, a: int, b: int) -> bool {
    match op {
        CmpOp::Eq => a == b,
        CmpOp::Ne => a != b,
        CmpOp::Le => a <= b,
        CmpOp::Ge => a >= b,
        CmpOp::Lt => a < b,
        CmpOp::Gt => a > b,
    }
}

/// Reduction kinds over an explicit list of axes.
#[derive(Clone, Copy, Debug, PartialEq, Eq, Structural)]
pub enum ReduceOp {
    Sum,
    Min,
    Max,
    ArgMin,
    ArgMax,
}

} // verus!
