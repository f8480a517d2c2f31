use vstd::prelude::*;
use crate::conv::{ParamsConv1D, ParamsConv2D, ParamsConvTranspose1D, ParamsConvTranspose2D};
use crate::cpu::CpuStorage;
use crate::dtype::{DType, Scalar, WithDType};
use crate::error::{metal_unavailable, Error};
use crate::layout::Layout;
use crate::op::{BinaryOp, CmpOp, ReduceOp, UnaryOp};
use crate::shape::Shape;

verus! {

/// Device handle of the Metal backend in a build where that backend was not
/// compiled in. It still type-checks like a real device, but `new` fails, so
/// no value of it is ever handed out by a successful construction; the
/// accessors that have no fallible signature (`location`, `same_device`)
/// live with the unverified shell, where they halt.
#[derive(Clone, Copy, Debug, PartialEq, Eq, Structural)]
pub struct MetalDevice;

/// Storage of the absent Metal backend. Every data-bearing operation
/// returns the one fixed backend-not-available error; none mutates its
/// arguments and none returns a plausible-looking result.
#[derive(Debug)]
pub struct MetalStorage;

impl MetalStorage {
    pub fn try_clone(&self, _layout: &Layout) -> (r: Result<MetalStorage, Error>)
        ensures
            r == Err::<MetalStorage, Error>(metal_unavailable()),
    {
        Err(metal_unavailable_exec())
    }

    pub fn to_cpu_storage(&self) -> (r: Result<CpuStorage, Error>)
        ensures
            r == Err::<CpuStorage, Error>(metal_unavailable()),
    {
        Err(metal_unavailable_exec())
    }

    pub fn const_set(&mut self, _scalar: Scalar, _layout: &Layout) -> (r: Result<(), Error>)
        ensures
            r == Err::<(), Error>(metal_unavailable()),
            *final(self) == *old(self),
    {
        Err(metal_unavailable_exec())
    }

    pub fn affine(&self, _layout: &Layout, _mul: Scalar, _add: Scalar) -> (r: Result<
        MetalStorage,
        Error,
    >)
        ensures
            r == Err::<MetalStorage, Error>(metal_unavailable()),
    {
        Err(metal_unavailable_exec())
    }

    pub fn powf(&self, _layout: &Layout, _exponent: Scalar) -> (r: Result<MetalStorage, Error>)
        ensures
            r == Err::<MetalStorage, Error>(metal_unavailable()),
    {
        Err(metal_unavailable_exec())
    }

    pub fn elu(&self, _layout: &Layout, _alpha: Scalar) -> (r: Result<MetalStorage, Error>)
        ensures
            r == Err::<MetalStorage, Error>(metal_unavailable()),
    {
        Err(metal_unavailable_exec())
    }

    pub fn reduce_op(&self, _op: ReduceOp, _layout: &Layout, _axes: &[usize]) -> (r: Result<
        MetalStorage,
        Error,
    >)
        ensures
            r == Err::<MetalStorage, Error>(metal_unavailable()),
    {
        Err(metal_unavailable_exec())
    }

    pub fn cmp(
        &self,
        _op: CmpOp,
        _rhs: &MetalStorage,
        _lhs_l: &Layout,
        _rhs_l: &Layout,
    ) -> (r: Result<MetalStorage, Error>)
        ensures
            r == Err::<MetalStorage, Error>(metal_unavailable()),
    {
        Err(metal_unavailable_exec())
    }

    pub fn to_dtype(&self, _layout: &Layout, _dtype: DType) -> (r: Result<MetalStorage, Error>)
        ensures
            r == Err::<MetalStorage, Error>(metal_unavailable()),
    {
        Err(metal_unavailable_exec())
    }

    pub fn unary_impl(&self, _op: UnaryOp, _layout: &Layout) -> (r: Result<MetalStorage, Error>)
        ensures
            r == Err::<MetalStorage, Error>(metal_unavailable()),
    {
        Err(metal_unavailable_exec())
    }

    pub fn binary_impl(
        &self,
        _op: BinaryOp,
        _rhs: &MetalStorage,
        _lhs_l: &Layout,
        _rhs_l: &Layout,
    ) -> (r: Result<MetalStorage, Error>)
        ensures
            r == Err::<MetalStorage, Error>(metal_unavailable()),
    {
        Err(metal_unavailable_exec())
    }

    pub fn where_cond(
        &self,
        _layout: &Layout,
        _t: &MetalStorage,
        _t_l: &Layout,
        _f: &MetalStorage,
        _f_l: &Layout,
    ) -> (r: Result<MetalStorage, Error>)
        ensures
            r == Err::<MetalStorage, Error>(metal_unavailable()),
    {
        Err(metal_unavailable_exec())
    }

    pub fn conv1d(
        &self,
        _layout: &Layout,
        _kernel: &MetalStorage,
        _kernel_l: &Layout,
        _params: &ParamsConv1D,
    ) -> (r: Result<MetalStorage, Error>)
        ensures
            r == Err::<MetalStorage, Error>(metal_unavailable()),
    {
        Err(metal_unavailable_exec())
    }

    pub fn conv_transpose1d(
        &self,
        _layout: &Layout,
        _kernel: &MetalStorage,
        _kernel_l: &Layout,
        _params: &ParamsConvTranspose1D,
    ) -> (r: Result<MetalStorage, Error>)
        ensures
            r == Err::<MetalStorage, Error>(metal_unavailable()),
    {
        Err(metal_unavailable_exec())
    }

    pub fn conv2d(
        &self,
        _layout: &Layout,
        _kernel: &MetalStorage,
        _kernel_l: &Layout,
        _params: &ParamsConv2D,
    ) -> (r: Result<MetalStorage, Error>)
        ensures
            r == Err::<MetalStorage, Error>(metal_unavailable()),
    {
        Err(metal_unavailable_exec())
    }

    pub fn conv_transpose2d(
        &self,
        _layout: &Layout,
        _kernel: &MetalStorage,
        _kernel_l: &Layout,
        _params: &ParamsConvTranspose2D,
    ) -> (r: Result<MetalStorage, Error>)
        ensures
            r == Err::<MetalStorage, Error>(metal_unavailable()),
    {
        Err(metal_unavailable_exec())
    }

    pub fn avg_pool2d(
        &self,
        _layout: &Layout,
        _kernel: (usize, usize),
        _stride: (usize, usize),
    ) -> (r: Result<MetalStorage, Error>)
        ensures
            r == Err::<MetalStorage, Error>(metal_unavailable()),
    {
        Err(metal_unavailable_exec())
    }

    pub fn max_pool2d(
        &self,
        _layout: &Layout,
        _kernel: (usize, usize),
        _stride: (usize, usize),
    ) -> (r: Result<MetalStorage, Error>)
        ensures
            r == Err::<MetalStorage, Error>(metal_unavailable()),
    {
        Err(metal_unavailable_exec())
    }

    pub fn upsample_nearest1d(&self, _layout: &Layout, _sz: usize) -> (r: Result<
        MetalStorage,
        Error,
    >)
        ensures
            r == Err::<MetalStorage, Error>(metal_unavailable()),
    {
        Err(metal_unavailable_exec())
    }

    pub fn upsample_nearest2d(&self, _layout: &Layout, _h: usize, _w: usize) -> (r: Result<
        MetalStorage,
        Error,
    >)
        ensures
            r == Err::<MetalStorage, Error>(metal_unavailable()),
    {
        Err(metal_unavailable_exec())
    }

    pub fn upsample_bilinear2d(
        &self,
        _layout: &Layout,
        _h: usize,
        _w: usize,
        _align_corners: bool,
        _scale_h: Option<Scalar>,
        _scale_w: Option<Scalar>,
    ) -> (r: Result<MetalStorage, Error>)
        ensures
            r == Err::<MetalStorage, Error>(metal_unavailable()),
    {
        Err(metal_unavailable_exec())
    }

    pub fn gather(
        &self,
        _layout: &Layout,
        _indexes: &MetalStorage,
        _indexes_l: &Layout,
        _axis: usize,
    ) -> (r: Result<MetalStorage, Error>)
        ensures
            r == Err::<MetalStorage, Error>(metal_unavailable()),
    {
        Err(metal_unavailable_exec())
    }

    pub fn scatter_set(
        &mut self,
        _layout: &Layout,
        _indexes: &MetalStorage,
        _indexes_l: &Layout,
        _source: &MetalStorage,
        _source_l: &Layout,
        _axis: usize,
    ) -> (r: Result<(), Error>)
        ensures
            r == Err::<(), Error>(metal_unavailable()),
            *final(self) == *old(self),
    {
        Err(metal_unavailable_exec())
    }

    pub fn scatter_add_set(
        &mut self,
        _layout: &Layout,
        _indexes: &MetalStorage,
        _indexes_l: &Layout,
        _source: &MetalStorage,
        _source_l: &Layout,
        _axis: usize,
    ) -> (r: Result<(), Error>)
        ensures
            r == Err::<(), Error>(metal_unavailable()),
            *final(self) == *old(self),
    {
        Err(metal_unavailable_exec())
    }

    pub fn index_select(
        &self,
        _indexes: &MetalStorage,
        _layout: &Layout,
        _indexes_l: &Layout,
        _axis: usize,
    ) -> (r: Result<MetalStorage, Error>)
        ensures
            r == Err::<MetalStorage, Error>(metal_unavailable()),
    {
        Err(metal_unavailable_exec())
    }

    pub fn index_add(
        &self,
        _layout: &Layout,
        _indexes: &MetalStorage,
        _indexes_l: &Layout,
        _source: &MetalStorage,
        _source_l: &Layout,
        _axis: usize,
    ) -> (r: Result<MetalStorage, Error>)
        ensures
            r == Err::<MetalStorage, Error>(metal_unavailable()),
    {
        Err(metal_unavailable_exec())
    }

    pub fn matmul(
        &self,
        _rhs: &MetalStorage,
        _bmnk: (usize, usize, usize, usize),
        _lhs_l: &Layout,
        _rhs_l: &Layout,
    ) -> (r: Result<MetalStorage, Error>)
        ensures
            r == Err::<MetalStorage, Error>(metal_unavailable()),
    {
        Err(metal_unavailable_exec())
    }

    pub fn copy_strided_src(&self, _dst: &mut MetalStorage, _dst_offset: usize, _src_l: &Layout) -> (r:
        Result<(), Error>)
        ensures
            r == Err::<(), Error>(metal_unavailable()),
            *final(_dst) == *old(_dst),
    {
        Err(metal_unavailable_exec())
    }

    pub fn copy2d(
        &self,
        _dst: &mut MetalStorage,
        _d1: usize,
        _d2: usize,
        _src_stride1: usize,
        _dst_stride1: usize,
        _src_offset: usize,
        _dst_offset: usize,
    ) -> (r: Result<(), Error>)
        ensures
            r == Err::<(), Error>(metal_unavailable()),
            *final(_dst) == *old(_dst),
    {
        Err(metal_unavailable_exec())
    }
}

impl MetalDevice {
    /// Binding to the n-th Metal unit always fails in a build without the
    /// backend, so nothing downstream of a successful construction is ever
    /// reached.
    pub fn new(_ordinal: usize) -> (r: Result<MetalDevice, Error>)
        ensures
            r == Err::<MetalDevice, Error>(metal_unavailable()),
    {
        Err(metal_unavailable_exec())
    }

    pub fn set_seed(&self, _seed: u64) -> (r: Result<(), Error>)
        ensures
            r == Err::<(), Error>(metal_unavailable()),
    {
        Err(metal_unavailable_exec())
    }

    pub fn get_current_seed(&self) -> (r: Result<u64, Error>)
        ensures
            r == Err::<u64, Error>(metal_unavailable()),
    {
        Err(metal_unavailable_exec())
    }

    pub fn zeros_impl(&self, _shape: &Shape, _dtype: DType) -> (r: Result<MetalStorage, Error>)
        ensures
            r == Err::<MetalStorage, Error>(metal_unavailable()),
    {
        Err(metal_unavailable_exec())
    }

    /// Allocation that leaves the buffer unpopulated; its caller owes every
    /// element a write before any read. The absent backend allocates
    /// nothing.
    pub fn alloc_uninit(&self, _shape: &Shape, _dtype: DType) -> (r: Result<MetalStorage, Error>)
        ensures
            r == Err::<MetalStorage, Error>(metal_unavailable()),
    {
        Err(metal_unavailable_exec())
    }

    pub fn storage_from_slice<T: WithDType>(&self, _data: &[T]) -> (r: Result<MetalStorage, Error>)
        ensures
            r == Err::<MetalStorage, Error>(metal_unavailable()),
    {
        Err(metal_unavailable_exec())
    }

    pub fn storage_from_cpu_storage(&self, _cpu: &CpuStorage) -> (r: Result<MetalStorage, Error>)
        ensures
            r == Err::<MetalStorage, Error>(metal_unavailable()),
    {
        Err(metal_unavailable_exec())
    }

    pub fn storage_from_cpu_storage_owned(&self, _cpu: CpuStorage) -> (r: Result<
        MetalStorage,
        Error,
    >)
        ensures
            r == Err::<MetalStorage, Error>(metal_unavailable()),
    {
        Err(metal_unavailable_exec())
    }

    pub fn rand_uniform(&self, _shape: &Shape, _dtype: DType, _lo: Scalar, _up: Scalar) -> (r:
        Result<MetalStorage, Error>)
        ensures
            r == Err::<MetalStorage, Error>(metal_unavailable()),
    {
        Err(metal_unavailable_exec())
    }

    pub fn rand_normal(&self, _shape: &Shape, _dtype: DType, _mean: Scalar, _std: Scalar) -> (r:
        Result<MetalStorage, Error>)
        ensures
            r == Err::<MetalStorage, Error>(metal_unavailable()),
    {
        Err(metal_unavailable_exec())
    }

    /// With no backend compiled in, no work was ever issued, so there is
    /// nothing to wait for: the one call that succeeds.
    pub fn synchronize(&self) -> (r: Result<(), Error>)
        ensures
            r == Ok::<(), Error>(()),
    {
        Ok(())
    }
}

/// The one error every data-bearing call of the absent backend returns.
fn metal_unavailable_exec() -> (r: Error)
    ensures
        r == metal_unavailable(),
{
    Error::BackendNotAvailable(crate::error::BackendKind::Metal)
}

} // verus!
