use vstd::prelude::*;

verus! {

/// Element type tag carried by every storage buffer.
///
/// The integer types are fully representable in the host interchange form;
/// the floating-point types exist as tags so that layouts, scalars and
/// backends can speak about them, while their payloads live behind the
/// concrete accelerator backends only.
#[derive(Clone, Copy, Debug, PartialEq, Eq, Structural)]
pub enum DType {
    U8,
    U32,
    I64,
    BF16,
    F16,
    F32,
    F64,
}

impl DType {
    /// Number of bytes one element of this type occupies.
    pub open spec fn size_in_bytes_spec(self) -> usize {
        match self {
            DType::U8 => 1,
            DType::U32 => 4,
            DType::I64 => 8,
            DType::BF16 => 2,
            DType::F16 => 2,
            DType::F32 => 4,
            DType::F64 => 8,
        }
    }

    pub fn size_in_bytes(&self) -> (r: usize)
        ensures
            r == self.size_in_bytes_spec(),
    {
        match self {
            DType::U8 => 1,
            DType::U32 => 4,
            DType::I64 => 8,
            DType::BF16 => 2,
            DType::F16 => 2,
            DType::F32 => 4,
            DType::F64 => 8,
        }
    }

    /// The integer element types, the ones the host interchange form holds.
    pub open spec fn is_int_spec(self) -> bool {
        match self {
            DType::U8 => true,
            DType::U32 => true,
            DType::I64 => true,
            _ => false,
        }
    }

    pub fn is_int(&self) -> (r: bool)
        ensures
            r == self.is_int_spec(),
    {
        match self {
            DType::U8 => true,
            DType::U32 => true,
            DType::I64 => true,
            _ => false,
        }
    }

    pub fn is_float(&self) -> (r: bool)
        ensures
            r == !self.is_int_spec(),
    {
        match self {
            DType::U8 => false,
            DType::U32 => false,
            DType::I64 => false,
            _ => true,
        }
    }

    /// Smallest mathematical value an integer element of this type can hold.
    /// Only meaningful for the integer types.
    pub open spec fn min_value_spec(self) -> int {
        match self {
            DType::U8 => 0,
            DType::U32 => 0,
            DType::I64 => i64::MIN as int,
            _ => 0,
        }
    }

    /// Largest mathematical value an integer element of this type can hold.
    /// Only meaningful for the integer types.
    pub open spec fn max_value_spec(self) -> int {
        match self {
            DType::U8 => u8::MAX as int,
            DType::U32 => u32::MAX as int,
            DType::I64 => i64::MAX as int,
            _ => 0,
        }
    }

    /// Whether the mathematical value `v` is representable in this
    /// integer element type.
    pub open spec fn in_range(self, v: int) -> bool {
        self.min_value_spec() <= v <= self.max_value_spec()
    }

    /// Whether every value of `self` is also a value of `wider`: the
    /// condition under which a widening conversion is exact and a
    /// widen-then-narrow round trip is the identity.
    pub open spec fn range_subset_of(self, wider: DType) -> bool {
        self.is_int_spec() && wider.is_int_spec()
            && wider.min_value_spec() <= self.min_value_spec()
            && self.max_value_spec() <= wider.max_value_spec()
    }

    /// The value stored when the mathematical value `v` is written into
    /// this element type: a value within range is kept exactly (widening is
    /// exact), anything else wraps modulo the type's width (narrowing
    /// truncates). Only meaningful for the integer types.
    pub open spec fn wrap_value(self, v: int) -> int {
        match self {
            DType::U8 => v % 0x100,
            DType::U32 => v % 0x1_0000_0000,
            DType::I64 => {
                let m = v % 0x1_0000_0000_0000_0000;
                if m >= 0x8000_0000_0000_0000 {
                    m - 0x1_0000_0000_0000_0000
                } else {
                    m
                }
            },
            _ => v,
        }
    }
}

/// Writing an in-range value into its own integer element type keeps it
/// exactly.
pub proof fn lemma_wrap_identity(d: DType, v: int)
    requires
        d.is_int_spec(),
        d.in_range(v),
    ensures
        d.wrap_value(v) == v,
{
    match d {
        DType::U8 => {
            vstd::arithmetic::div_mod::lemma_small_mod(v as nat, 0x100);
        },
        DType::U32 => {
            vstd::arithmetic::div_mod::lemma_small_mod(v as nat, 0x1_0000_0000);
        },
        DType::I64 => {
            if v >= 0 {
                vstd::arithmetic::div_mod::lemma_small_mod(v as nat, 0x1_0000_0000_0000_0000);
            } else {
                vstd::arithmetic::div_mod::lemma_mod_multiples_vanish(
                    1,
                    v,
                    0x1_0000_0000_0000_0000,
                );
                vstd::arithmetic::div_mod::lemma_small_mod(
                    (v + 0x1_0000_0000_0000_0000) as nat,
                    0x1_0000_0000_0000_0000,
                );
            }
        },
        _ => {
            assert(false);
        },
    }
}

/// The element-type round-trip law: converting a value into a wider
/// integer type and back into its own type reproduces it exactly, whenever
/// the narrow type's range is contained in the wide type's.
pub proof fn lemma_dtype_round_trip(v: int, d1: DType, d2: DType)
    requires
        d1.range_subset_of(d2),
        d1.in_range(v),
    ensures
        d1.wrap_value(d2.wrap_value(v)) == v,
{
    lemma_wrap_identity(d2, v);
    lemma_wrap_identity(d1, v);
}

/// The round-trip law over a whole buffer of element values: widening
/// every element of a storage of type `d1` into `d2` and narrowing back
/// reproduces the buffer exactly, whenever `d1`'s range is contained in
/// `d2`'s.
pub proof fn lemma_buffer_round_trip(vals: Seq<int>, d1: DType, d2: DType)
    requires
        d1.range_subset_of(d2),
        forall|i: int| 0 <= i < vals.len() ==> d1.in_range(#[trigger] vals[i]),
    ensures
        forall|i: int|
            0 <= i < vals.len() ==> d1.wrap_value(d2.wrap_value(#[trigger] vals[i])) == vals[i],
{
    assert forall|i: int|
        0 <= i < vals.len() implies d1.wrap_value(d2.wrap_value(#[trigger] vals[i]))
        == vals[i] by {
        lemma_dtype_round_trip(vals[i], d1, d2);
    }
}

/// A typed constant value, used by fill operations such as `const_set`.
/// It carries one of the integer element types; floating-point constants
/// belong to the accelerator backends, which are outside the verified host
/// form.
#[derive(Clone, Copy, Debug, PartialEq, Eq, Structural)]
pub enum Scalar {
    U8(u8),
    U32(u32),
    I64(i64),
}

impl Scalar {
    pub open spec fn dtype_spec(self) -> DType {
        match self {
            Scalar::U8(_) => DType::U8,
            Scalar::U32(_) => DType::U32,
            Scalar::I64(_) => DType::I64,
        }
    }

    /// The element type this constant belongs to.
    pub fn dtype(&self) -> (r: DType)
        ensures
            r == self.dtype_spec(),
    {
        match self {
            Scalar::U8(_) => DType::U8,
            Scalar::U32(_) => DType::U32,
            Scalar::I64(_) => DType::I64,
        }
    }

    /// The mathematical value of this constant.
    pub open spec fn to_int(self) -> int {
        match self {
            Scalar::U8(v) => v as int,
            Scalar::U32(v) => v as int,
            Scalar::I64(v) => v as int,
        }
    }
}

/// Plain element types that know their own [`DType`] tag; device ingestion
/// entry points such as `storage_from_slice` are generic over it.
pub trait WithDType: Sized {
    spec fn dtype_spec() -> DType;

    fn dtype() -> (r: DType)
        ensures
            r == Self::dtype_spec(),
    ;
}

impl WithDType for u8 {
    open spec fn dtype_spec() -> DType {
        DType::U8
    }

    fn dtype() -> (r: DType)
        ensures
            r == Self::dtype_spec(),
    {
        DType::U8
    }
}

impl WithDType for u32 {
    open spec fn dtype_spec() -> DType {
        DType::U32
    }

    fn dtype() -> (r: DType)
        ensures
            r == Self::dtype_spec(),
    {
        DType::U32
    }
}

impl WithDType for i64 {
    open spec fn dtype_spec() -> DType {
        DType::I64
    }

    fn dtype() -> (r: DType)
        ensures
            r == Self::dtype_spec(),
    {
        DType::I64
    }
}

} // verus!
