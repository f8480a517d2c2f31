use vstd::prelude::*;
use crate::cpu::CpuStorage;
use crate::error::{metal_unavailable, Error};
use crate::layout::Layout;
use crate::metal::{MetalDevice, MetalStorage};
use crate::shape::Shape;

verus! {

/// Quantization scheme tags: block-wise, low-bit compressed weight
/// encodings with per-block scale factors, plus the two dense tags used for
/// unquantized tensors in the same container.
#[derive(Clone, Copy, Debug, PartialEq, Eq, Structural)]
pub enum GgmlDType {
    F32,
    F16,
    Q4_0,
    Q4_1,
    Q8_0,
    Q8_1,
}

impl GgmlDType {
    /// Elements one compressed block stands for.
    pub open spec fn block_size_spec(self) -> usize {
        match self {
            GgmlDType::F32 => 1,
            GgmlDType::F16 => 1,
            GgmlDType::Q4_0 => 32,
            GgmlDType::Q4_1 => 32,
            GgmlDType::Q8_0 => 32,
            GgmlDType::Q8_1 => 32,
        }
    }

    pub fn block_size(&self) -> (r: usize)
        ensures
            r == self.block_size_spec(),
            r >= 1,
    {
        match self {
            GgmlDType::F32 => 1,
            GgmlDType::F16 => 1,
            GgmlDType::Q4_0 => 32,
            GgmlDType::Q4_1 => 32,
            GgmlDType::Q8_0 => 32,
            GgmlDType::Q8_1 => 32,
        }
    }

    /// Bytes one compressed block occupies.
    pub open spec fn type_size_spec(self) -> usize {
        match self {
            GgmlDType::F32 => 4,
            GgmlDType::F16 => 2,
            GgmlDType::Q4_0 => 18,
            GgmlDType::Q4_1 => 20,
            GgmlDType::Q8_0 => 34,
            GgmlDType::Q8_1 => 36,
        }
    }

    pub fn type_size(&self) -> (r: usize)
        ensures
            r == self.type_size_spec(),
            r >= 1,
    {
        match self {
            GgmlDType::F32 => 4,
            GgmlDType::F16 => 2,
            GgmlDType::Q4_0 => 18,
            GgmlDType::Q4_1 => 20,
            GgmlDType::Q8_0 => 34,
            GgmlDType::Q8_1 => 36,
        }
    }

    /// Compressed footprint in bytes of `elem_count` elements under this
    /// scheme. The element count must cover whole blocks, and the footprint
    /// must fit the machine word.
    pub fn storage_size_in_bytes(&self, elem_count: usize) -> (r: Result<usize, Error>)
        ensures
            match r {
                Ok(n) => elem_count as int % self.block_size_spec() as int == 0 && n
                    == elem_count as int / self.block_size_spec() as int
                    * self.type_size_spec() as int,
                Err(e) => e == Error::IncompatibleQuantizationParameters && (elem_count as int
                    % self.block_size_spec() as int != 0 || elem_count as int
                    / self.block_size_spec() as int * self.type_size_spec() as int
                    > usize::MAX),
            },
    {
        let bs = self.block_size();
        let ts = self.type_size();
        if elem_count % bs != 0 {
            return Err(Error::IncompatibleQuantizationParameters);
        }
        let blocks = elem_count / bs;
        match blocks.checked_mul(ts) {
            Some(n) => Ok(n),
            None => Err(Error::IncompatibleQuantizationParameters),
        }
    }
}

/// Plain element types a quantized data blob is made of; each belongs to
/// one quantization scheme.
pub trait GgmlType: Sized {
    fn dtype() -> GgmlDType;
}

/// Quantized storage of the absent Metal backend: the scheme tag and device
/// are carried so that the container type-checks like a real backend's, but
/// `zeros` fails, so no value is ever produced by a successful
/// construction, and every data-bearing call returns the one fixed
/// backend-not-available error.
#[derive(Debug)]
pub struct QMetalStorage {
    dtype: GgmlDType,
    device: MetalDevice,
}

/// Quantized storage of whichever backend a weight was loaded onto.
#[derive(Debug)]
pub enum QStorage {
    Metal(QMetalStorage),
}

impl QMetalStorage {
    pub closed spec fn dtype_spec(self) -> GgmlDType {
        self.dtype
    }

    pub closed spec fn device_spec(self) -> MetalDevice {
        self.device
    }

    pub fn zeros(_device: &MetalDevice, _elem_count: usize, _dtype: GgmlDType) -> (r: Result<
        QMetalStorage,
        Error,
    >)
        ensures
            r == Err::<QMetalStorage, Error>(metal_unavailable()),
    {
        Err(Error::BackendNotAvailable(crate::error::BackendKind::Metal))
    }

    pub fn dtype(&self) -> (r: GgmlDType)
        ensures
            r == self.dtype_spec(),
    {
        self.dtype
    }

    pub fn device(&self) -> (r: &MetalDevice)
        ensures
            r == self.device_spec(),
    {
        &self.device
    }

    pub fn dequantize(&self, _elem_count: usize) -> (r: Result<MetalStorage, Error>)
        ensures
            r == Err::<MetalStorage, Error>(metal_unavailable()),
    {
        Err(Error::BackendNotAvailable(crate::error::BackendKind::Metal))
    }

    pub fn quantize(&mut self, _src: &MetalStorage) -> (r: Result<(), Error>)
        ensures
            r == Err::<(), Error>(metal_unavailable()),
            *final(self) == *old(self),
    {
        Err(Error::BackendNotAvailable(crate::error::BackendKind::Metal))
    }

    /// Quantizing host data onto the absent Metal backend names the Metal
    /// backend in its failure, as every call of this stub does.
    pub fn quantize_onto(&mut self, _src: &CpuStorage) -> (r: Result<(), Error>)
        ensures
            r == Err::<(), Error>(metal_unavailable()),
            *final(self) == *old(self),
    {
        Err(Error::BackendNotAvailable(crate::error::BackendKind::Metal))
    }

    /// Compressed footprint of a storage that was never allocated.
    pub fn storage_size_in_bytes(&self) -> (r: usize)
        ensures
            r == 0,
    {
        0
    }

    pub fn fwd(&self, _self_shape: &Shape, _storage: &MetalStorage, _layout: &Layout) -> (r: Result<
        (MetalStorage, Shape),
        Error,
    >)
        ensures
            r == Err::<(MetalStorage, Shape), Error>(metal_unavailable()),
    {
        Err(Error::BackendNotAvailable(crate::error::BackendKind::Metal))
    }

    pub fn data(&self) -> (r: Result<Vec<u8>, Error>)
        ensures
            r == Err::<Vec<u8>, Error>(metal_unavailable()),
    {
        Err(Error::BackendNotAvailable(crate::error::BackendKind::Metal))
    }

    pub fn indexed_moe_forward(
        &self,
        _self_shape: &Shape,
        _storage: &MetalStorage,
        _layout: &Layout,
        _indexes: &MetalStorage,
        _indexes_l: &Layout,
    ) -> (r: Result<(MetalStorage, Shape), Error>)
        ensures
            r == Err::<(MetalStorage, Shape), Error>(metal_unavailable()),
    {
        Err(Error::BackendNotAvailable(crate::error::BackendKind::Metal))
    }
}

/// Loading a quantized blob onto the absent Metal backend fails like every
/// other data-bearing call.
pub fn load_quantized<T: GgmlType>(_device: &MetalDevice, _data: &[T]) -> (r: Result<
    QStorage,
    Error,
>)
    ensures
        r == Err::<QStorage, Error>(metal_unavailable()),
{
    Err(Error::BackendNotAvailable(crate::error::BackendKind::Metal))
}

} // verus!
