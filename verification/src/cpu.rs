use vstd::prelude::*;
use vstd::arithmetic::div_mod::lemma_fundamental_div_mod_converse;
use vstd::arithmetic::mul::{
    lemma_mul_inequality, lemma_mul_is_associative, lemma_mul_is_distributive_add_other_way,
    lemma_mul_strictly_positive,
};
use crate::dtype::{DType, Scalar};
use crate::error::Error;
use crate::layout::{lemma_positive_count_positive_dims, Layout};
use crate::op::{binary_apply, cmp_holds, unary_apply, BinaryOp, CmpOp, Op, UnaryOp};
use crate::shape::{dims_product, lemma_dims_product_split};

verus! {

/// Entry (bi, i, j) of a batched matrix product after `t` terms of its
/// inner sum: the accumulation over lhs[bi, i, u] * rhs[bi, u, j] for
/// u < t, exactly as a naive triple loop computes it.
pub open spec fn matmul_cell(
    lhs: Seq<int>,
    rhs: Seq<int>,
    lhs_l: Layout,
    rhs_l: Layout,
    bi: int,
    i: int,
    j: int,
    t: int,
) -> int
    decreases t,
{
    if t <= 0 {
        0
    } else {
        matmul_cell(lhs, rhs, lhs_l, rhs_l, bi, i, j, t - 1) + lhs[lhs_l.position3_spec(
            bi,
            i,
            t - 1,
        )] * rhs[rhs_l.position3_spec(bi, t - 1, j)]
    }
}

/// The same entry addressed by its flat offset `q` into a contiguous
/// (batch, m, n) result.
spec fn matmul_flat(
    lhs: Seq<int>,
    rhs: Seq<int>,
    lhs_l: Layout,
    rhs_l: Layout,
    m: int,
    n: int,
    k: int,
    q: int,
) -> int {
    matmul_cell(lhs, rhs, lhs_l, rhs_l, q / (m * n), (q % (m * n)) / n, q % n, k)
}

/// Flat row-major offset of coordinates (a, b, c) in a grid whose last
/// two extents are `bn` and `cn`.
pub open spec fn grid_offset(a: int, b: int, c: int, bn: int, cn: int) -> int {
    (a * bn + b) * cn + c
}

/// Element at flat offset `w` of a gather result, read back through the
/// source layout: the gathered coordinate comes from the index list at the
/// same flat offset.
spec fn gather_flat<T>(
    src: Seq<T>,
    l: Layout,
    ids: Seq<i64>,
    gsize: int,
    asize: int,
    inner: int,
    w: int,
) -> T {
    src[l.position_spec(
        ((w / (gsize * inner)) * asize + ids[w]) * inner + w % inner,
    )]
}

/// Element at flat offset `q` of an axis selection result, read back
/// through the source layout: decode `q` into (outer, picked, inner)
/// coordinates and look the picked slice up in the index list.
spec fn select_flat<T>(
    src: Seq<T>,
    l: Layout,
    ids: Seq<i64>,
    asize: int,
    inner: int,
    q: int,
) -> T {
    src[l.position_spec(
        ((q / (ids.len() * inner)) * asize + ids[(q % (ids.len() * inner)) / inner]) * inner + q
            % inner,
    )]
}

/// Index of element `cc` of row `rr` of a two-dimensional copy whose rows
/// start `stride` elements apart from `off` on.
pub open spec fn index2d(off: int, stride: int, rr: int, cc: int) -> int {
    off + rr * stride + cc
}

/// Whether a two-dimensional copy of `d1` rows of `d2` elements, row `rr`
/// starting at `off + rr * stride`, writes the index `i`.
pub open spec fn touches2d(off: int, stride: int, d1: int, d2: int, i: int) -> bool {
    exists|rr: int, cc: int| 0 <= rr < d1 && 0 <= cc < d2 && i == #[trigger] index2d(off, stride, rr, cc)
}

/// The element count of a rank-3 shape is the product of its three sizes.
proof fn lemma_dims_product3(dims: Seq<usize>)
    requires
        dims.len() == 3,
    ensures
        dims_product(dims) == ((dims[0] as int) * (dims[1] as int)) * (dims[2] as int),
{
    let d2 = dims.drop_last();
    let d1 = d2.drop_last();
    assert(d1.drop_last() =~= Seq::<usize>::empty());
    assert(dims_product(d1.drop_last()) == 1);
    assert(d1.last() == dims[0] && d2.last() == dims[1] && dims.last() == dims[2]);
    assert(dims_product(d1) == 1 * (dims[0] as int));
    assert(dims_product(d2) == dims_product(d1) * (dims[1] as int));
    assert(dims_product(dims) == dims_product(d2) * (dims[2] as int));
}

/// Host-resident storage: the universal interchange form every backend can
/// produce and consume. It owns one contiguous buffer tagged with exactly
/// one element type; the integer element types are held directly.
#[derive(Clone, Debug, PartialEq, Eq)]
pub enum CpuStorage {
    U8(Vec<u8>),
    U32(Vec<u32>),
    I64(Vec<i64>),
}

impl CpuStorage {
    /// The one element type the buffer is tagged with.
    pub open spec fn dtype_spec(self) -> DType {
        match self {
            CpuStorage::U8(_) => DType::U8,
            CpuStorage::U32(_) => DType::U32,
            CpuStorage::I64(_) => DType::I64,
        }
    }

    /// The buffer's elements as mathematical integers: the model every
    /// operation contract is stated over.
    pub open spec fn values(self) -> Seq<int> {
        match self {
            CpuStorage::U8(v) => v@.map_values(|x: u8| x as int),
            CpuStorage::U32(v) => v@.map_values(|x: u32| x as int),
            CpuStorage::I64(v) => v@.map_values(|x: i64| x as int),
        }
    }

    pub open spec fn len_spec(self) -> nat {
        self.values().len()
    }

    pub fn dtype(&self) -> (r: DType)
        ensures
            r == self.dtype_spec(),
    {
        match self {
            CpuStorage::U8(_) => DType::U8,
            CpuStorage::U32(_) => DType::U32,
            CpuStorage::I64(_) => DType::I64,
        }
    }

    /// Number of elements in the physical buffer.
    pub fn len(&self) -> (r: usize)
        ensures
            r == self.len_spec(),
    {
        match self {
            CpuStorage::U8(v) => v.len(),
            CpuStorage::U32(v) => v.len(),
            CpuStorage::I64(v) => v.len(),
        }
    }

    /// Write one typed constant to every position the layout addresses, in
    /// place; positions outside the view keep their old values. The
    /// constant's type must match the storage's element type.
    pub fn const_set(&mut self, value: Scalar, l: &Layout) -> (r: Result<(), Error>)
        requires
            l.wf(),
            l.count() <= usize::MAX,
            l.fits_within(old(self).len_spec() as int),
        ensures
            match r {
                Ok(()) => {
                    &&& value.dtype_spec() == old(self).dtype_spec()
                    &&& final(self).dtype_spec() == old(self).dtype_spec()
                    &&& final(self).len_spec() == old(self).len_spec()
                    &&& forall|i: int|
                        0 <= i < old(self).len_spec() ==> final(self).values()[i] == (if l.touches(
                            i,
                        ) {
                            value.to_int()
                        } else {
                            old(self).values()[i]
                        })
                },
                Err(e) => {
                    &&& e == (Error::UnsupportedDType { op: Op::ConstSet, dtype: value.dtype_spec() })
                    &&& value.dtype_spec() != old(self).dtype_spec()
                    &&& *final(self) == *old(self)
                },
            },
    {
        match (self, value) {
            (CpuStorage::U8(v), Scalar::U8(x)) => {
                set_positions(v, l, x);
                Ok(())
            },
            (CpuStorage::U32(v), Scalar::U32(x)) => {
                set_positions(v, l, x);
                Ok(())
            },
            (CpuStorage::I64(v), Scalar::I64(x)) => {
                set_positions(v, l, x);
                Ok(())
            },
            (_, _) => Err(Error::UnsupportedDType { op: Op::ConstSet, dtype: value.dtype() }),
        }
    }

    /// Copy this storage's logical view under `src_l` into `dst`,
    /// contiguously from `dst_offset` on, preserving the view's row-major
    /// iteration order whatever the source strides are; positions of `dst`
    /// outside the written run keep their old values. The element types
    /// must match.
    pub fn copy_strided_src(&self, dst: &mut CpuStorage, dst_offset: usize, src_l: &Layout) -> (r:
        Result<(), Error>)
        requires
            src_l.wf(),
            src_l.count() <= usize::MAX,
            src_l.fits_within(self.len_spec() as int),
            dst_offset + src_l.count() <= old(dst).len_spec(),
        ensures
            match r {
                Ok(()) => {
                    &&& self.dtype_spec() == old(dst).dtype_spec()
                    &&& final(dst).dtype_spec() == old(dst).dtype_spec()
                    &&& final(dst).len_spec() == old(dst).len_spec()
                    &&& forall|p: int|
                        0 <= p < src_l.count() ==> final(dst).values()[dst_offset + p]
                            == self.values()[src_l.position_spec(p)]
                    &&& forall|i: int|
                        0 <= i < old(dst).len_spec() && !(dst_offset <= i < dst_offset
                            + src_l.count()) ==> final(dst).values()[i] == old(dst).values()[i]
                },
                Err(e) => {
                    &&& e == (Error::UnsupportedDType { op: Op::Copy, dtype: old(dst).dtype_spec() })
                    &&& self.dtype_spec() != old(dst).dtype_spec()
                    &&& *final(dst) == *old(dst)
                },
            },
    {
        proof {
            assert forall|p: int|
                0 <= p < src_l.count() implies 0 <= #[trigger] src_l.position_spec(p)
                < self.len_spec() by {
                src_l.lemma_position_in_span(p);
            }
        }
        match (self, dst) {
            (CpuStorage::U8(s), CpuStorage::U8(d)) => {
                copy_positions(s, d, dst_offset, src_l);
                Ok(())
            },
            (CpuStorage::U32(s), CpuStorage::U32(d)) => {
                copy_positions(s, d, dst_offset, src_l);
                Ok(())
            },
            (CpuStorage::I64(s), CpuStorage::I64(d)) => {
                copy_positions(s, d, dst_offset, src_l);
                Ok(())
            },
            (_, d) => Err(Error::UnsupportedDType { op: Op::Copy, dtype: d.dtype() }),
        }
    }

    /// Batched matrix multiply: `self` viewed as (batch, m, k) under
    /// `lhs_l` and `rhs` viewed as (batch, k, n) under `rhs_l` produce a
    /// new contiguous storage of shape (batch, m, n) whose entry
    /// (bi, i, j) is the inner-product sum over u < k of
    /// lhs[bi, i, u] * rhs[bi, u, j], exactly as a naive triple loop
    /// computes it. Supported on the accumulation-width integer type; the
    /// magnitude bounds keep the fixed-width accumulator exact.
    #[verifier::loop_isolation(false)]
    pub fn matmul(
        &self,
        rhs: &CpuStorage,
        bmnk: (usize, usize, usize, usize),
        lhs_l: &Layout,
        rhs_l: &Layout,
    ) -> (r: Result<CpuStorage, Error>)
        requires
            lhs_l.wf(),
            rhs_l.wf(),
            lhs_l.fits_within(self.len_spec() as int),
            rhs_l.fits_within(rhs.len_spec() as int),
            bmnk.3 <= 0x10_0000,
            (bmnk.0 as int) * (bmnk.1 as int) * (bmnk.2 as int) <= usize::MAX,
            forall|x: int| 0 <= x < self.len_spec() ==> -0x10_0000 <= #[trigger] self.values()[x] <= 0x10_0000,
            forall|x: int| 0 <= x < rhs.len_spec() ==> -0x10_0000 <= #[trigger] rhs.values()[x] <= 0x10_0000,
        ensures
            match r {
                Ok(out) => {
                    &&& lhs_l.has_dims3(bmnk.0 as int, bmnk.1 as int, bmnk.3 as int)
                    &&& rhs_l.has_dims3(bmnk.0 as int, bmnk.3 as int, bmnk.2 as int)
                    &&& self.dtype_spec() == DType::I64
                    &&& rhs.dtype_spec() == DType::I64
                    &&& out.dtype_spec() == DType::I64
                    &&& out.len_spec() == (bmnk.0 as int) * (bmnk.1 as int) * (bmnk.2 as int)
                    &&& forall|bi: int, i: int, j: int|
                        0 <= bi < bmnk.0 && 0 <= i < bmnk.1 && 0 <= j < bmnk.2
                            ==> out.values()[(bi * (bmnk.1 as int) + i) * (bmnk.2 as int) + j]
                            == matmul_cell(
                            self.values(),
                            rhs.values(),
                            *lhs_l,
                            *rhs_l,
                            bi,
                            i,
                            j,
                            bmnk.3 as int,
                        )
                },
                Err(e) => {
                    ||| {
                        &&& e == Error::ShapeMismatch
                        &&& !(lhs_l.has_dims3(bmnk.0 as int, bmnk.1 as int, bmnk.3 as int)
                            && rhs_l.has_dims3(bmnk.0 as int, bmnk.3 as int, bmnk.2 as int))
                    }
                    ||| {
                        &&& e == (Error::UnsupportedDType {
                            op: Op::Matmul,
                            dtype: if self.dtype_spec() != DType::I64 {
                                self.dtype_spec()
                            } else {
                                rhs.dtype_spec()
                            },
                        })
                        &&& lhs_l.has_dims3(bmnk.0 as int, bmnk.1 as int, bmnk.3 as int)
                        &&& rhs_l.has_dims3(bmnk.0 as int, bmnk.3 as int, bmnk.2 as int)
                        &&& !(self.dtype_spec() == DType::I64 && rhs.dtype_spec() == DType::I64)
                    }
                },
            },
    {
        let b = bmnk.0;
        let m = bmnk.1;
        let n = bmnk.2;
        let k = bmnk.3;
        let lhs_dims = lhs_l.shape().dims();
        let rhs_dims = rhs_l.shape().dims();
        if !(lhs_dims.len() == 3 && rhs_dims.len() == 3) {
            return Err(Error::ShapeMismatch);
        }
        if !(lhs_dims[0] == b && lhs_dims[1] == m && lhs_dims[2] == k && rhs_dims[0] == b
            && rhs_dims[1] == k && rhs_dims[2] == n) {
            return Err(Error::ShapeMismatch);
        }
        match (self, rhs) {
            (CpuStorage::I64(xs), CpuStorage::I64(ys)) => {
                let xs_len = xs.len();
                let ys_len = ys.len();
                proof {
                    lemma_dims_product3(lhs_l.shape.dims@);
                    lemma_dims_product3(rhs_l.shape.dims@);
                }
                let ghost lhs_vals = self.values();
                let ghost rhs_vals = rhs.values();
                let mut out: Vec<i64> = Vec::new();
                let mut bi: usize = 0;
                proof {
                    lemma_mul_is_associative(b as int, m as int, n as int);
                }
                while bi < b
                    invariant
                        bi <= b,
                        out@.len() == (bi as int) * ((m as int) * (n as int)),
                        forall|q: int|
                            0 <= q < out@.len() ==> out@[q] as int == matmul_flat(
                                lhs_vals,
                                rhs_vals,
                                *lhs_l,
                                *rhs_l,
                                m as int,
                                n as int,
                                k as int,
                                q,
                            ),
                    decreases b - bi,
                {
                    let mut i: usize = 0;
                    proof {
                        lemma_mul_is_associative(bi as int, m as int, n as int);
                    }
                    while i < m
                        invariant
                            i <= m,
                            out@.len() == ((bi as int) * (m as int) + (i as int)) * (n as int),
                            forall|q: int|
                                0 <= q < out@.len() ==> out@[q] as int == matmul_flat(
                                    lhs_vals,
                                    rhs_vals,
                                    *lhs_l,
                                    *rhs_l,
                                    m as int,
                                    n as int,
                                    k as int,
                                    q,
                                ),
                        decreases m - i,
                    {
                        let mut j: usize = 0;
                        while j < n
                            invariant
                                j <= n,
                                out@.len() == ((bi as int) * (m as int) + (i as int)) * (n as int)
                                    + (j as int),
                                forall|q: int|
                                    0 <= q < out@.len() ==> out@[q] as int == matmul_flat(
                                        lhs_vals,
                                        rhs_vals,
                                        *lhs_l,
                                        *rhs_l,
                                        m as int,
                                        n as int,
                                        k as int,
                                        q,
                                    ),
                            decreases n - j,
                        {
                            let mut acc: i64 = 0;
                            let mut t: usize = 0;
                            proof {
                                lemma_mul_strictly_positive(m as int, k as int);
                                lemma_mul_strictly_positive(b as int, (m as int) * (k as int));
                                lemma_mul_is_associative(b as int, m as int, k as int);
                            }
                            while t < k
                                invariant
                                    t <= k,
                                    acc as int == matmul_cell(
                                        lhs_vals,
                                        rhs_vals,
                                        *lhs_l,
                                        *rhs_l,
                                        bi as int,
                                        i as int,
                                        j as int,
                                        t as int,
                                    ),
                                    -((t as int) * 0x100_0000_0000) <= acc as int <= (t as int)
                                        * 0x100_0000_0000,
                                decreases k - t,
                            {
                                proof {
                                    lemma_mul_strictly_positive(k as int, n as int);
                                    lemma_mul_strictly_positive(b as int, (k as int) * (n as int));
                                    lemma_mul_is_associative(b as int, k as int, n as int);
                                    lhs_l.lemma_position3_in_span(bi as int, i as int, t as int);
                                    rhs_l.lemma_position3_in_span(bi as int, t as int, j as int);
                                }
                                let li = lhs_l.position3(bi, i, t);
                                let ri = rhs_l.position3(bi, t, j);
                                let la = xs[li];
                                let rb = ys[ri];
                                proof {
                                    assert(self == CpuStorage::I64(*xs));
                                    assert(rhs == CpuStorage::I64(*ys));
                                    assert(self.values()[li as int] == xs@[li as int] as int);
                                    assert(rhs.values()[ri as int] == ys@[ri as int] as int);
                                    assert(-0x10_0000 <= la as int <= 0x10_0000);
                                    assert(-0x10_0000 <= rb as int <= 0x10_0000);
                                    assert(-0x100_0000_0000 <= (la as int) * (rb as int)
                                        <= 0x100_0000_0000) by (nonlinear_arith)
                                        requires
                                            -0x10_0000 <= la as int <= 0x10_0000,
                                            -0x10_0000 <= rb as int <= 0x10_0000,
                                    ;
                                    lemma_mul_is_distributive_add_other_way(
                                        t as int,
                                        1,
                                        0x100_0000_0000,
                                    );
                                    lemma_mul_inequality(
                                        t as int + 1,
                                        k as int,
                                        0x100_0000_0000,
                                    );
                                    lemma_mul_inequality(k as int, 0x10_0000, 0x100_0000_0000);
                                }
                                acc = acc + la * rb;
                                t = t + 1;
                            }
                            proof {
                                let bi_i = bi as int;
                                let i_i = i as int;
                                let j_i = j as int;
                                let m_i = m as int;
                                let n_i = n as int;
                                let mn = m_i * n_i;
                                let row = i_i * n_i + j_i;
                                let q = (bi_i * m_i + i_i) * n_i + j_i;
                                assert(0 <= row < mn) by (nonlinear_arith)
                                    requires
                                        row == i_i * n_i + j_i,
                                        mn == m_i * n_i,
                                        0 <= i_i < m_i,
                                        0 <= j_i < n_i,
                                ;
                                assert(q == bi_i * mn + row) by (nonlinear_arith)
                                    requires
                                        q == (bi_i * m_i + i_i) * n_i + j_i,
                                        mn == m_i * n_i,
                                        row == i_i * n_i + j_i,
                                ;
                                lemma_fundamental_div_mod_converse(q, mn, bi_i, row);
                                lemma_fundamental_div_mod_converse(row, n_i, i_i, j_i);
                                lemma_fundamental_div_mod_converse(q, n_i, bi_i * m_i + i_i, j_i);
                                assert(matmul_flat(
                                    lhs_vals,
                                    rhs_vals,
                                    *lhs_l,
                                    *rhs_l,
                                    m_i,
                                    n_i,
                                    k as int,
                                    q,
                                ) == acc as int);
                            }
                            out.push(acc);
                            j = j + 1;
                        }
                        proof {
                            assert(((bi as int) * (m as int) + (i as int)) * (n as int) + (n as int)
                                == ((bi as int) * (m as int) + (i as int) + 1) * (n as int))
                                by (nonlinear_arith);
                        }
                        i = i + 1;
                    }
                    proof {
                        assert(((bi as int) * (m as int) + (m as int)) * (n as int) == ((bi as int)
                            + 1) * ((m as int) * (n as int))) by (nonlinear_arith);
                    }
                    bi = bi + 1;
                }
                proof {
                    lemma_mul_is_associative(b as int, m as int, n as int);
                    assert forall|bi2: int, i2: int, j2: int|
                        0 <= bi2 < b && 0 <= i2 < m && 0 <= j2 < n implies 0 <= (bi2 * (m as int)
                        + i2) * (n as int) + j2 < out@.len() && out@[(bi2 * (m as int)
                        + i2) * (n as int) + j2] as int == matmul_cell(
                        lhs_vals,
                        rhs_vals,
                        *lhs_l,
                        *rhs_l,
                        bi2,
                        i2,
                        j2,
                        k as int,
                    ) by {
                        let m_i = m as int;
                        let n_i = n as int;
                        let mn = m_i * n_i;
                        let row = i2 * n_i + j2;
                        let q = (bi2 * m_i + i2) * n_i + j2;
                        assert(0 <= row < mn) by (nonlinear_arith)
                            requires
                                row == i2 * n_i + j2,
                                mn == m_i * n_i,
                                0 <= i2 < m_i,
                                0 <= j2 < n_i,
                        ;
                        assert(q == bi2 * mn + row) by (nonlinear_arith)
                            requires
                                q == (bi2 * m_i + i2) * n_i + j2,
                                mn == m_i * n_i,
                                row == i2 * n_i + j2,
                        ;
                        assert(0 <= q < (b as int) * mn) by (nonlinear_arith)
                            requires
                                0 <= bi2 < b as int,
                                0 <= row < mn,
                                q == bi2 * mn + row,
                                mn >= 0,
                        ;
                        lemma_fundamental_div_mod_converse(q, mn, bi2, row);
                        lemma_fundamental_div_mod_converse(row, n_i, i2, j2);
                        lemma_fundamental_div_mod_converse(q, n_i, bi2 * m_i + i2, j2);
                    }
                }
                Ok(CpuStorage::I64(out))
            },
            (_, _) => {
                let d1 = self.dtype();
                let d = if d1 != DType::I64 {
                    d1
                } else {
                    rhs.dtype()
                };
                Err(Error::UnsupportedDType { op: Op::Matmul, dtype: d })
            },
        }
    }

    /// Two-dimensional strided copy in element granularity: `d1` rows of
    /// `d2` elements each, row `rr` read from `src_offset +
    /// rr*src_stride1` on and written to `dst_offset + rr*dst_stride1` on;
    /// no element beyond the addressed ones is touched. The destination
    /// rows must not overlap, and the element types must match.
    pub fn copy2d(
        &self,
        dst: &mut CpuStorage,
        d1: usize,
        d2: usize,
        src_stride1: usize,
        dst_stride1: usize,
        src_offset: usize,
        dst_offset: usize,
    ) -> (r: Result<(), Error>)
        requires
            d1 > 0 ==> src_offset + (d1 - 1) * src_stride1 + d2 <= self.len_spec(),
            d1 > 0 ==> dst_offset + (d1 - 1) * dst_stride1 + d2 <= old(dst).len_spec(),
            d1 > 1 ==> d2 <= dst_stride1,
        ensures
            match r {
                Ok(()) => {
                    &&& self.dtype_spec() == old(dst).dtype_spec()
                    &&& final(dst).dtype_spec() == old(dst).dtype_spec()
                    &&& final(dst).len_spec() == old(dst).len_spec()
                    &&& forall|rr: int, cc: int|
                        0 <= rr < d1 && 0 <= cc < d2 ==> final(dst).values()[index2d(
                            dst_offset as int,
                            dst_stride1 as int,
                            rr,
                            cc,
                        )] == self.values()[index2d(src_offset as int, src_stride1 as int, rr, cc)]
                    &&& forall|i: int|
                        0 <= i < old(dst).len_spec() && !touches2d(
                            dst_offset as int,
                            dst_stride1 as int,
                            d1 as int,
                            d2 as int,
                            i,
                        ) ==> final(dst).values()[i] == old(dst).values()[i]
                },
                Err(e) => {
                    &&& e == (Error::UnsupportedDType { op: Op::Copy, dtype: old(dst).dtype_spec() })
                    &&& self.dtype_spec() != old(dst).dtype_spec()
                    &&& *final(dst) == *old(dst)
                },
            },
    {
        proof {
            assert forall|rr: int, cc: int|
                0 <= rr < d1 && 0 <= cc < d2 implies 0 <= #[trigger] index2d(
                src_offset as int,
                src_stride1 as int,
                rr,
                cc,
            ) < self.len_spec() && 0 <= #[trigger] index2d(
                dst_offset as int,
                dst_stride1 as int,
                rr,
                cc,
            ) < dst.len_spec() by {
                lemma_mul_inequality(rr, d1 as int - 1, src_stride1 as int);
                lemma_mul_inequality(rr, d1 as int - 1, dst_stride1 as int);
                vstd::arithmetic::mul::lemma_mul_nonnegative(rr, src_stride1 as int);
                vstd::arithmetic::mul::lemma_mul_nonnegative(rr, dst_stride1 as int);
            }
        }
        match (self, dst) {
            (CpuStorage::U8(s), CpuStorage::U8(d)) => {
                copy2d_rows(s, d, d1, d2, src_stride1, dst_stride1, src_offset, dst_offset);
                Ok(())
            },
            (CpuStorage::U32(s), CpuStorage::U32(d)) => {
                copy2d_rows(s, d, d1, d2, src_stride1, dst_stride1, src_offset, dst_offset);
                Ok(())
            },
            (CpuStorage::I64(s), CpuStorage::I64(d)) => {
                copy2d_rows(s, d, d1, d2, src_stride1, dst_stride1, src_offset, dst_offset);
                Ok(())
            },
            (_, d) => Err(Error::UnsupportedDType { op: Op::Copy, dtype: d.dtype() }),
        }
    }

    /// Select, along one axis, the slices that an integer index storage
    /// names, in the indexes' logical order: entry (o, i, ii) of the
    /// result, in (outer, index, inner) coordinates, is entry
    /// (o, index-list[i], ii) of the view. The result is a new, densely
    /// packed storage of the view's shape with the axis extent replaced by
    /// the number of indexes. Every index must name a slice within the
    /// axis, and the per-axis products must fit the machine word.
    #[verifier::rlimit(50)]
    pub fn index_select(
        &self,
        ids: &CpuStorage,
        l: &Layout,
        ids_l: &Layout,
        axis: usize,
    ) -> (r: Result<CpuStorage, Error>)
        requires
            l.wf(),
            ids_l.wf(),
            l.count() <= usize::MAX,
            ids_l.count() <= usize::MAX,
            l.fits_within(self.len_spec() as int),
            ids_l.fits_within(ids.len_spec() as int),
            axis < l.rank_spec() ==> forall|q: int|
                0 <= q < ids_l.count() ==> 0 <= #[trigger] ids.values()[ids_l.position_spec(q)]
                    < l.shape.dims@[axis as int],
            axis < l.rank_spec() ==> dims_product(l.shape.dims@.subrange(0, axis as int))
                <= usize::MAX,
            axis < l.rank_spec() ==> dims_product(
                l.shape.dims@.subrange(axis as int + 1, l.rank_spec() as int),
            ) <= usize::MAX,
            axis < l.rank_spec() ==> (dims_product(l.shape.dims@.subrange(0, axis as int))
                * ids_l.count()) * dims_product(
                l.shape.dims@.subrange(axis as int + 1, l.rank_spec() as int),
            ) <= usize::MAX,
        ensures
            match r {
                Ok(out) => {
                    &&& axis < l.rank_spec()
                    &&& out.dtype_spec() == self.dtype_spec()
                    &&& out.len_spec() == (dims_product(l.shape.dims@.subrange(0, axis as int))
                        * ids_l.count()) * dims_product(
                        l.shape.dims@.subrange(axis as int + 1, l.rank_spec() as int),
                    )
                    &&& forall|o: int, i: int, ii: int|
                        0 <= o < dims_product(l.shape.dims@.subrange(0, axis as int)) && 0 <= i
                            < ids_l.count() && 0 <= ii < dims_product(
                            l.shape.dims@.subrange(axis as int + 1, l.rank_spec() as int),
                        ) ==> out.values()[#[trigger] grid_offset(
                            o,
                            i,
                            ii,
                            ids_l.count(),
                            dims_product(
                                l.shape.dims@.subrange(axis as int + 1, l.rank_spec() as int),
                            ),
                        )] == self.values()[l.position_spec(
                            grid_offset(
                                o,
                                ids.values()[ids_l.position_spec(i)],
                                ii,
                                l.shape.dims@[axis as int] as int,
                                dims_product(
                                    l.shape.dims@.subrange(axis as int + 1, l.rank_spec() as int),
                                ),
                            ),
                        )]
                },
                Err(e) => {
                    &&& e == (Error::OutOfBoundsIndex { axis })
                    &&& axis >= l.rank_spec()
                },
            },
    {
        let dims = l.shape().dims();
        let n = dims.len();
        if axis >= n {
            return Err(Error::OutOfBoundsIndex { axis });
        }
        let asize = dims[axis];
        let ghost outer_spec = dims_product(l.shape.dims@.subrange(0, axis as int));
        let ghost inner_spec = dims_product(l.shape.dims@.subrange(axis as int + 1, n as int));
        let outer = match range_product(dims, 0, axis) {
            Some(v) => v,
            None => {
                proof {
                    assert(false);
                }
                return Err(Error::OutOfBoundsIndex { axis });
            },
        };
        let inner = match range_product(dims, axis + 1, n) {
            Some(v) => v,
            None => {
                proof {
                    assert(false);
                }
                return Err(Error::OutOfBoundsIndex { axis });
            },
        };
        let ids_vals = ids.logical_values(ids_l);
        let ids_n = ids_vals.len();
        proof {
            lemma_dims_product_split(l.shape.dims@, axis as int);
            let tail = l.shape.dims@.subrange(axis as int, n as int);
            lemma_dims_product_split(tail, 1);
            let single = tail.subrange(0, 1);
            assert(single.drop_last() =~= Seq::<usize>::empty());
            assert(dims_product(single.drop_last()) == 1);
            assert(single.last() == l.shape.dims@[axis as int]);
            assert(dims_product(single) == 1 * (asize as int));
            assert(tail.subrange(1, tail.len() as int) =~= l.shape.dims@.subrange(
                axis as int + 1,
                n as int,
            ));
            assert(l.count() == (outer as int) * ((asize as int) * (inner as int)));
            lemma_mul_is_associative(outer as int, asize as int, inner as int);
            assert forall|q: int|
                0 <= q < ids_n implies 0 <= #[trigger] (ids_vals@[q] as int) < asize by {
                assert(ids_vals@[q] as int == ids.values()[ids_l.position_spec(q)]);
            }
            assert forall|p: int|
                0 <= p < l.count() implies 0 <= #[trigger] l.position_spec(p)
                < self.len_spec() by {
                l.lemma_position_in_span(p);
            }
        }
        match self {
            CpuStorage::U8(v) => {
                let picked = select_axis(v, l, &ids_vals, outer, asize, inner);
                let ghost pv = picked@;
                let out = CpuStorage::U8(picked);
                proof {
                    assert(out.values() == pv.map_values(|x: u8| x as int));
                    assert forall|o: int, i: int, ii: int|
                        0 <= o < outer_spec && 0 <= i < ids_l.count() && 0 <= ii
                        < inner_spec implies out.values()[#[trigger] grid_offset(
                        o,
                        i,
                        ii,
                        ids_l.count(),
                        inner_spec,
                    )] == self.values()[l.position_spec(
                        grid_offset(
                            o,
                            ids.values()[ids_l.position_spec(i)],
                            ii,
                            l.shape.dims@[axis as int] as int,
                            inner_spec,
                        ),
                    )] by {
                        let as_i = asize as int;
                        let in_i = inner as int;
                        let n_i = ids_vals@.len() as int;
                        assert(n_i == ids_l.count());
                        assert(in_i == inner_spec);
                        let g = grid_offset(o, i, ii, n_i, in_i);
                        assert(grid_offset(o, i, ii, ids_l.count(), inner_spec) == g);
                        let idv = ids_vals@[i] as int;
                        assert(0 <= idv < as_i);
                        assert(idv == ids.values()[ids_l.position_spec(i)]);
                        let g2 = grid_offset(o, idv, ii, as_i, in_i);
                        assert(0 <= g < pv.len() && pv[g] == v@[l.position_spec(g2)]);
                        assert(0 <= g2 < ((outer as int) * as_i) * in_i) by (nonlinear_arith)
                            requires
                                g2 == (o * as_i + idv) * in_i + ii,
                                0 <= o < outer as int,
                                0 <= idv < as_i,
                                0 <= ii < in_i,
                        ;
                        assert(0 <= g2 < l.count());
                        assert(0 <= l.position_spec(g2) < self.len_spec());
                    }
                }
                Ok(out)
            },
            CpuStorage::U32(v) => {
                let picked = select_axis(v, l, &ids_vals, outer, asize, inner);
                let ghost pv = picked@;
                let out = CpuStorage::U32(picked);
                proof {
                    assert(out.values() == pv.map_values(|x: u32| x as int));
                    assert forall|o: int, i: int, ii: int|
                        0 <= o < outer_spec && 0 <= i < ids_l.count() && 0 <= ii
                        < inner_spec implies out.values()[#[trigger] grid_offset(
                        o,
                        i,
                        ii,
                        ids_l.count(),
                        inner_spec,
                    )] == self.values()[l.position_spec(
                        grid_offset(
                            o,
                            ids.values()[ids_l.position_spec(i)],
                            ii,
                            l.shape.dims@[axis as int] as int,
                            inner_spec,
                        ),
                    )] by {
                        let as_i = asize as int;
                        let in_i = inner as int;
                        let n_i = ids_vals@.len() as int;
                        assert(n_i == ids_l.count());
                        assert(in_i == inner_spec);
                        let g = grid_offset(o, i, ii, n_i, in_i);
                        assert(grid_offset(o, i, ii, ids_l.count(), inner_spec) == g);
                        let idv = ids_vals@[i] as int;
                        assert(0 <= idv < as_i);
                        assert(idv == ids.values()[ids_l.position_spec(i)]);
                        let g2 = grid_offset(o, idv, ii, as_i, in_i);
                        assert(0 <= g < pv.len() && pv[g] == v@[l.position_spec(g2)]);
                        assert(0 <= g2 < ((outer as int) * as_i) * in_i) by (nonlinear_arith)
                            requires
                                g2 == (o * as_i + idv) * in_i + ii,
                                0 <= o < outer as int,
                                0 <= idv < as_i,
                                0 <= ii < in_i,
                        ;
                        assert(0 <= g2 < l.count());
                        assert(0 <= l.position_spec(g2) < self.len_spec());
                    }
                }
                Ok(out)
            },
            CpuStorage::I64(v) => {
                let picked = select_axis(v, l, &ids_vals, outer, asize, inner);
                let ghost pv = picked@;
                let out = CpuStorage::I64(picked);
                proof {
                    assert(out.values() == pv.map_values(|x: i64| x as int));
                    assert forall|o: int, i: int, ii: int|
                        0 <= o < outer_spec && 0 <= i < ids_l.count() && 0 <= ii
                        < inner_spec implies out.values()[#[trigger] grid_offset(
                        o,
                        i,
                        ii,
                        ids_l.count(),
                        inner_spec,
                    )] == self.values()[l.position_spec(
                        grid_offset(
                            o,
                            ids.values()[ids_l.position_spec(i)],
                            ii,
                            l.shape.dims@[axis as int] as int,
                            inner_spec,
                        ),
                    )] by {
                        let as_i = asize as int;
                        let in_i = inner as int;
                        let n_i = ids_vals@.len() as int;
                        assert(n_i == ids_l.count());
                        assert(in_i == inner_spec);
                        let g = grid_offset(o, i, ii, n_i, in_i);
                        assert(grid_offset(o, i, ii, ids_l.count(), inner_spec) == g);
                        let idv = ids_vals@[i] as int;
                        assert(0 <= idv < as_i);
                        assert(idv == ids.values()[ids_l.position_spec(i)]);
                        let g2 = grid_offset(o, idv, ii, as_i, in_i);
                        assert(0 <= g < pv.len() && pv[g] == v@[l.position_spec(g2)]);
                        assert(0 <= g2 < ((outer as int) * as_i) * in_i) by (nonlinear_arith)
                            requires
                                g2 == (o * as_i + idv) * in_i + ii,
                                0 <= o < outer as int,
                                0 <= idv < as_i,
                                0 <= ii < in_i,
                        ;
                        assert(0 <= g2 < l.count());
                        assert(0 <= l.position_spec(g2) < self.len_spec());
                    }
                }
                Ok(out)
            },
        }
    }

    /// Gather, along one axis, the entries an integer index storage names:
    /// the result has the index view's shape, which must match the source
    /// view's shape on every other axis, and its entry at (o, i, ii), in
    /// (outer, axis, inner) coordinates, is the source view's entry at
    /// (o, index[o, i, ii], ii). Every index must name a slice within the
    /// axis, and the per-axis products must fit the machine word.
    #[verifier::rlimit(50)]
    pub fn gather(
        &self,
        l: &Layout,
        ids: &CpuStorage,
        ids_l: &Layout,
        axis: usize,
    ) -> (r: Result<CpuStorage, Error>)
        requires
            l.wf(),
            ids_l.wf(),
            l.count() <= usize::MAX,
            ids_l.count() <= usize::MAX,
            l.fits_within(self.len_spec() as int),
            ids_l.fits_within(ids.len_spec() as int),
            axis < l.rank_spec() ==> forall|q: int|
                0 <= q < ids_l.count() ==> 0 <= #[trigger] ids.values()[ids_l.position_spec(q)]
                    < l.shape.dims@[axis as int],
            axis < l.rank_spec() ==> dims_product(l.shape.dims@.subrange(0, axis as int))
                <= usize::MAX,
            axis < l.rank_spec() ==> dims_product(
                l.shape.dims@.subrange(axis as int + 1, l.rank_spec() as int),
            ) <= usize::MAX,
        ensures
            match r {
                Ok(out) => {
                    &&& axis < l.rank_spec()
                    &&& ids_l.rank_spec() == l.rank_spec()
                    &&& forall|j: int|
                        0 <= j < l.rank_spec() && j != axis ==> ids_l.shape.dims@[j]
                            == l.shape.dims@[j]
                    &&& out.dtype_spec() == self.dtype_spec()
                    &&& out.len_spec() == ids_l.count()
                    &&& forall|o: int, i: int, ii: int|
                        0 <= o < dims_product(l.shape.dims@.subrange(0, axis as int)) && 0 <= i
                            < ids_l.shape.dims@[axis as int] && 0 <= ii < dims_product(
                            l.shape.dims@.subrange(axis as int + 1, l.rank_spec() as int),
                        ) ==> out.values()[#[trigger] grid_offset(
                            o,
                            i,
                            ii,
                            ids_l.shape.dims@[axis as int] as int,
                            dims_product(
                                l.shape.dims@.subrange(axis as int + 1, l.rank_spec() as int),
                            ),
                        )] == self.values()[l.position_spec(
                            grid_offset(
                                o,
                                ids.values()[ids_l.position_spec(
                                    grid_offset(
                                        o,
                                        i,
                                        ii,
                                        ids_l.shape.dims@[axis as int] as int,
                                        dims_product(
                                            l.shape.dims@.subrange(
                                                axis as int + 1,
                                                l.rank_spec() as int,
                                            ),
                                        ),
                                    ),
                                )],
                                ii,
                                l.shape.dims@[axis as int] as int,
                                dims_product(
                                    l.shape.dims@.subrange(axis as int + 1, l.rank_spec() as int),
                                ),
                            ),
                        )]
                },
                Err(e) => {
                    ||| {
                        &&& e == (Error::OutOfBoundsIndex { axis })
                        &&& axis >= l.rank_spec()
                    }
                    ||| {
                        &&& e == Error::ShapeMismatch
                        &&& axis < l.rank_spec()
                        &&& !(ids_l.rank_spec() == l.rank_spec() && forall|j: int|
                            0 <= j < l.rank_spec() && j != axis ==> ids_l.shape.dims@[j]
                                == l.shape.dims@[j])
                    }
                },
            },
    {
        let dims = l.shape().dims();
        let n = dims.len();
        if axis >= n {
            return Err(Error::OutOfBoundsIndex { axis });
        }
        let ids_dims = ids_l.shape().dims();
        if ids_dims.len() != n {
            return Err(Error::ShapeMismatch);
        }
        let mut j: usize = 0;
        while j < n
            invariant
                j <= n,
                n == dims@.len(),
                n == ids_dims@.len(),
                dims@ == l.shape.dims@,
                ids_dims@ == ids_l.shape.dims@,
                axis < n,
                forall|t: int| 0 <= t < j && t != axis ==> ids_dims@[t] == dims@[t],
            decreases n - j,
        {
            if j != axis && ids_dims[j] != dims[j] {
                return Err(Error::ShapeMismatch);
            }
            j = j + 1;
        }
        let asize = dims[axis];
        let gsize = ids_dims[axis];
        let ghost outer_spec = dims_product(l.shape.dims@.subrange(0, axis as int));
        let ghost inner_spec = dims_product(l.shape.dims@.subrange(axis as int + 1, n as int));
        let outer = match range_product(dims, 0, axis) {
            Some(v) => v,
            None => {
                proof {
                    assert(false);
                }
                return Err(Error::ShapeMismatch);
            },
        };
        let inner = match range_product(dims, axis + 1, n) {
            Some(v) => v,
            None => {
                proof {
                    assert(false);
                }
                return Err(Error::ShapeMismatch);
            },
        };
        let ids_vals = ids.logical_values(ids_l);
        proof {
            lemma_dims_product_split(l.shape.dims@, axis as int);
            let tail = l.shape.dims@.subrange(axis as int, n as int);
            lemma_dims_product_split(tail, 1);
            let single = tail.subrange(0, 1);
            assert(single.drop_last() =~= Seq::<usize>::empty());
            assert(dims_product(single.drop_last()) == 1);
            assert(single.last() == l.shape.dims@[axis as int]);
            assert(dims_product(single) == 1 * (asize as int));
            assert(tail.subrange(1, tail.len() as int) =~= l.shape.dims@.subrange(
                axis as int + 1,
                n as int,
            ));
            assert(l.count() == (outer as int) * ((asize as int) * (inner as int)));
            lemma_mul_is_associative(outer as int, asize as int, inner as int);
            lemma_dims_product_split(ids_l.shape.dims@, axis as int);
            let gtail = ids_l.shape.dims@.subrange(axis as int, n as int);
            lemma_dims_product_split(gtail, 1);
            let gsingle = gtail.subrange(0, 1);
            assert(gsingle.drop_last() =~= Seq::<usize>::empty());
            assert(dims_product(gsingle.drop_last()) == 1);
            assert(gsingle.last() == ids_l.shape.dims@[axis as int]);
            assert(dims_product(gsingle) == 1 * (gsize as int));
            assert(gtail.subrange(1, gtail.len() as int) =~= ids_l.shape.dims@.subrange(
                axis as int + 1,
                n as int,
            ));
            assert(ids_l.shape.dims@.subrange(0, axis as int) =~= l.shape.dims@.subrange(
                0,
                axis as int,
            ));
            assert(ids_l.shape.dims@.subrange(axis as int + 1, n as int) =~= l.shape.dims@.subrange(
                axis as int + 1,
                n as int,
            ));
            assert(ids_l.count() == (outer as int) * ((gsize as int) * (inner as int)));
            lemma_mul_is_associative(outer as int, gsize as int, inner as int);
            assert forall|q: int|
                0 <= q < ids_vals@.len() implies 0 <= #[trigger] (ids_vals@[q] as int)
                < asize by {
                assert(ids_vals@[q] as int == ids.values()[ids_l.position_spec(q)]);
            }
            assert forall|p: int|
                0 <= p < l.count() implies 0 <= #[trigger] l.position_spec(p)
                < self.len_spec() by {
                l.lemma_position_in_span(p);
            }
        }
        match self {
            CpuStorage::U8(v) => {
                let picked = gather_axis(v, l, &ids_vals, outer, gsize, asize, inner);
                let ghost pv = picked@;
                let out = CpuStorage::U8(picked);
                proof {
                    assert(out.values() == pv.map_values(|x: u8| x as int));
                    assert forall|o: int, i: int, ii: int|
                        0 <= o < outer_spec && 0 <= i < ids_l.shape.dims@[axis as int] && 0 <= ii
                        < inner_spec implies out.values()[#[trigger] grid_offset(
                        o,
                        i,
                        ii,
                        ids_l.shape.dims@[axis as int] as int,
                        inner_spec,
                    )] == self.values()[l.position_spec(
                        grid_offset(
                            o,
                            ids.values()[ids_l.position_spec(
                                grid_offset(
                                    o,
                                    i,
                                    ii,
                                    ids_l.shape.dims@[axis as int] as int,
                                    inner_spec,
                                ),
                            )],
                            ii,
                            l.shape.dims@[axis as int] as int,
                            inner_spec,
                        ),
                    )] by {
                        let g_i = gsize as int;
                        let in_i = inner as int;
                        let as_i = asize as int;
                        let g = grid_offset(o, i, ii, g_i, in_i);
                        assert(grid_offset(
                            o,
                            i,
                            ii,
                            ids_l.shape.dims@[axis as int] as int,
                            inner_spec,
                        ) == g);
                        assert(0 <= g < pv.len() && pv[g] == v@[l.position_spec(
                            grid_offset(o, ids_vals@[g] as int, ii, as_i, in_i),
                        )]);
                        assert(0 <= g < ids_l.count());
                        let idv = ids_vals@[g] as int;
                        assert(idv == ids.values()[ids_l.position_spec(g)]);
                        assert(0 <= idv < as_i);
                        let g2 = grid_offset(o, idv, ii, as_i, in_i);
                        assert(0 <= g2 < ((outer as int) * as_i) * in_i) by (nonlinear_arith)
                            requires
                                g2 == (o * as_i + idv) * in_i + ii,
                                0 <= o < outer as int,
                                0 <= idv < as_i,
                                0 <= ii < in_i,
                        ;
                        assert(0 <= g2 < l.count());
                        assert(0 <= l.position_spec(g2) < self.len_spec());
                    }
                }
                Ok(out)
            },
            CpuStorage::U32(v) => {
                let picked = gather_axis(v, l, &ids_vals, outer, gsize, asize, inner);
                let ghost pv = picked@;
                let out = CpuStorage::U32(picked);
                proof {
                    assert(out.values() == pv.map_values(|x: u32| x as int));
                    assert forall|o: int, i: int, ii: int|
                        0 <= o < outer_spec && 0 <= i < ids_l.shape.dims@[axis as int] && 0 <= ii
                        < inner_spec implies out.values()[#[trigger] grid_offset(
                        o,
                        i,
                        ii,
                        ids_l.shape.dims@[axis as int] as int,
                        inner_spec,
                    )] == self.values()[l.position_spec(
                        grid_offset(
                            o,
                            ids.values()[ids_l.position_spec(
                                grid_offset(
                                    o,
                                    i,
                                    ii,
                                    ids_l.shape.dims@[axis as int] as int,
                                    inner_spec,
                                ),
                            )],
                            ii,
                            l.shape.dims@[axis as int] as int,
                            inner_spec,
                        ),
                    )] by {
                        let g_i = gsize as int;
                        let in_i = inner as int;
                        let as_i = asize as int;
                        let g = grid_offset(o, i, ii, g_i, in_i);
                        assert(grid_offset(
                            o,
                            i,
                            ii,
                            ids_l.shape.dims@[axis as int] as int,
                            inner_spec,
                        ) == g);
                        assert(0 <= g < pv.len() && pv[g] == v@[l.position_spec(
                            grid_offset(o, ids_vals@[g] as int, ii, as_i, in_i),
                        )]);
                        assert(0 <= g < ids_l.count());
                        let idv = ids_vals@[g] as int;
                        assert(idv == ids.values()[ids_l.position_spec(g)]);
                        assert(0 <= idv < as_i);
                        let g2 = grid_offset(o, idv, ii, as_i, in_i);
                        assert(0 <= g2 < ((outer as int) * as_i) * in_i) by (nonlinear_arith)
                            requires
                                g2 == (o * as_i + idv) * in_i + ii,
                                0 <= o < outer as int,
                                0 <= idv < as_i,
                                0 <= ii < in_i,
                        ;
                        assert(0 <= g2 < l.count());
                        assert(0 <= l.position_spec(g2) < self.len_spec());
                    }
                }
                Ok(out)
            },
            CpuStorage::I64(v) => {
                let picked = gather_axis(v, l, &ids_vals, outer, gsize, asize, inner);
                let ghost pv = picked@;
                let out = CpuStorage::I64(picked);
                proof {
                    assert(out.values() == pv.map_values(|x: i64| x as int));
                    assert forall|o: int, i: int, ii: int|
                        0 <= o < outer_spec && 0 <= i < ids_l.shape.dims@[axis as int] && 0 <= ii
                        < inner_spec implies out.values()[#[trigger] grid_offset(
                        o,
                        i,
                        ii,
                        ids_l.shape.dims@[axis as int] as int,
                        inner_spec,
                    )] == self.values()[l.position_spec(
                        grid_offset(
                            o,
                            ids.values()[ids_l.position_spec(
                                grid_offset(
                                    o,
                                    i,
                                    ii,
                                    ids_l.shape.dims@[axis as int] as int,
                                    inner_spec,
                                ),
                            )],
                            ii,
                            l.shape.dims@[axis as int] as int,
                            inner_spec,
                        ),
                    )] by {
                        let g_i = gsize as int;
                        let in_i = inner as int;
                        let as_i = asize as int;
                        let g = grid_offset(o, i, ii, g_i, in_i);
                        assert(grid_offset(
                            o,
                            i,
                            ii,
                            ids_l.shape.dims@[axis as int] as int,
                            inner_spec,
                        ) == g);
                        assert(0 <= g < pv.len() && pv[g] == v@[l.position_spec(
                            grid_offset(o, ids_vals@[g] as int, ii, as_i, in_i),
                        )]);
                        assert(0 <= g < ids_l.count());
                        let idv = ids_vals@[g] as int;
                        assert(idv == ids.values()[ids_l.position_spec(g)]);
                        assert(0 <= idv < as_i);
                        let g2 = grid_offset(o, idv, ii, as_i, in_i);
                        assert(0 <= g2 < ((outer as int) * as_i) * in_i) by (nonlinear_arith)
                            requires
                                g2 == (o * as_i + idv) * in_i + ii,
                                0 <= o < outer as int,
                                0 <= idv < as_i,
                                0 <= ii < in_i,
                        ;
                        assert(0 <= g2 < l.count());
                        assert(0 <= l.position_spec(g2) < self.len_spec());
                    }
                }
                Ok(out)
            },
        }
    }

    /// Elementwise affine map `x * mul + add` over the view, into a new,
    /// densely packed storage. Supported on the accumulation-width integer
    /// type; the magnitude bounds keep the fixed-width arithmetic exact.
    pub fn affine(&self, l: &Layout, mul: Scalar, add: Scalar) -> (r: Result<CpuStorage, Error>)
        requires
            l.wf(),
            l.count() <= usize::MAX,
            l.fits_within(self.len_spec() as int),
            -0x10_0000 <= mul.to_int() <= 0x10_0000,
            -0x100_0000_0000 <= add.to_int() <= 0x100_0000_0000,
            forall|x: int| 0 <= x < self.len_spec() ==> -0x10_0000 <= #[trigger] self.values()[x] <= 0x10_0000,
        ensures
            match r {
                Ok(out) => {
                    &&& self.dtype_spec() == DType::I64
                    &&& out.dtype_spec() == DType::I64
                    &&& out.len_spec() == l.count()
                    &&& forall|p: int|
                        0 <= p < l.count() ==> out.values()[p] == mul.to_int()
                            * self.values()[l.position_spec(p)] + add.to_int()
                },
                Err(e) => {
                    &&& e == (Error::UnsupportedDType { op: Op::Affine, dtype: self.dtype_spec() })
                    &&& self.dtype_spec() != DType::I64
                },
            },
    {
        if !matches!(self, CpuStorage::I64(_)) {
            return Err(Error::UnsupportedDType { op: Op::Affine, dtype: self.dtype() });
        }
        let wide = self.logical_values(l);
        let count = wide.len();
        let m = match mul {
            Scalar::U8(x) => x as i64,
            Scalar::U32(x) => x as i64,
            Scalar::I64(x) => x,
        };
        let a = match add {
            Scalar::U8(x) => x as i64,
            Scalar::U32(x) => x as i64,
            Scalar::I64(x) => x,
        };
        proof {
            assert forall|p: int|
                0 <= p < l.count() implies 0 <= #[trigger] l.position_spec(p)
                < self.len_spec() by {
                l.lemma_position_in_span(p);
            }
        }
        let mut out: Vec<i64> = Vec::new();
        let mut p: usize = 0;
        while p < count
            invariant
                count == l.count(),
                count == wide@.len(),
                p <= count,
                out@.len() == p,
                m as int == mul.to_int(),
                a as int == add.to_int(),
                -0x10_0000 <= m <= 0x10_0000,
                -0x100_0000_0000 <= a <= 0x100_0000_0000,
                forall|q: int|
                    0 <= q < count ==> -0x10_0000 <= #[trigger] (wide@[q] as int) <= 0x10_0000,
                forall|q: int|
                    0 <= q < p ==> out@[q] as int == mul.to_int() * (wide@[q] as int)
                        + add.to_int(),
            decreases count - p,
        {
            let x = wide[p];
            proof {
                assert(-0x100_0000_0000 <= (m as int) * (x as int) <= 0x100_0000_0000)
                    by (nonlinear_arith)
                    requires
                        -0x10_0000 <= m as int <= 0x10_0000,
                        -0x10_0000 <= x as int <= 0x10_0000,
                ;
            }
            out.push(m * x + a);
            p = p + 1;
        }
        Ok(CpuStorage::I64(out))
    }

    /// Elementwise unary operation over the view, into a new, densely
    /// packed storage. Supported on the accumulation-width integer type;
    /// the magnitude bound keeps the fixed-width arithmetic exact.
    pub fn unary_impl(&self, op: UnaryOp, l: &Layout) -> (r: Result<CpuStorage, Error>)
        requires
            l.wf(),
            l.count() <= usize::MAX,
            l.fits_within(self.len_spec() as int),
            forall|x: int| 0 <= x < self.len_spec() ==> -0x10_0000 <= #[trigger] self.values()[x] <= 0x10_0000,
        ensures
            match r {
                Ok(out) => {
                    &&& self.dtype_spec() == DType::I64
                    &&& out.dtype_spec() == DType::I64
                    &&& out.len_spec() == l.count()
                    &&& forall|p: int|
                        0 <= p < l.count() ==> out.values()[p] == unary_apply(
                            op,
                            self.values()[l.position_spec(p)],
                        )
                },
                Err(e) => {
                    &&& e == (Error::UnsupportedDType { op: Op::Unary, dtype: self.dtype_spec() })
                    &&& self.dtype_spec() != DType::I64
                },
            },
    {
        if !matches!(self, CpuStorage::I64(_)) {
            return Err(Error::UnsupportedDType { op: Op::Unary, dtype: self.dtype() });
        }
        let wide = self.logical_values(l);
        let count = wide.len();
        proof {
            assert forall|p: int|
                0 <= p < l.count() implies 0 <= #[trigger] l.position_spec(p)
                < self.len_spec() by {
                l.lemma_position_in_span(p);
            }
        }
        let mut out: Vec<i64> = Vec::new();
        let mut p: usize = 0;
        while p < count
            invariant
                count == l.count(),
                count == wide@.len(),
                p <= count,
                out@.len() == p,
                forall|q: int|
                    0 <= q < count ==> -0x10_0000 <= #[trigger] (wide@[q] as int) <= 0x10_0000,
                forall|q: int| 0 <= q < p ==> out@[q] as int == unary_apply(op, wide@[q] as int),
            decreases count - p,
        {
            let x = wide[p];
            let y = match op {
                UnaryOp::Neg => -x,
                UnaryOp::Abs => if x < 0 {
                    -x
                } else {
                    x
                },
                UnaryOp::Sqr => {
                    proof {
                        assert(0 <= (x as int) * (x as int) <= 0x100_0000_0000)
                            by (nonlinear_arith)
                            requires
                                -0x10_0000 <= x as int <= 0x10_0000,
                        ;
                    }
                    x * x
                },
            };
            out.push(y);
            p = p + 1;
        }
        Ok(CpuStorage::I64(out))
    }

    /// Elementwise binary operation between this storage's view and
    /// another's of the same shape, into a new, densely packed storage.
    /// Supported on the accumulation-width integer type; the magnitude
    /// bounds keep the fixed-width arithmetic exact.
    pub fn binary_impl(&self, op: BinaryOp, rhs: &CpuStorage, lhs_l: &Layout, rhs_l: &Layout) -> (r:
        Result<CpuStorage, Error>)
        requires
            lhs_l.wf(),
            rhs_l.wf(),
            lhs_l.count() <= usize::MAX,
            lhs_l.fits_within(self.len_spec() as int),
            rhs_l.fits_within(rhs.len_spec() as int),
            forall|x: int| 0 <= x < self.len_spec() ==> -0x10_0000 <= #[trigger] self.values()[x] <= 0x10_0000,
            forall|x: int| 0 <= x < rhs.len_spec() ==> -0x10_0000 <= #[trigger] rhs.values()[x] <= 0x10_0000,
        ensures
            match r {
                Ok(out) => {
                    &&& lhs_l.shape.dims@ == rhs_l.shape.dims@
                    &&& self.dtype_spec() == DType::I64
                    &&& rhs.dtype_spec() == DType::I64
                    &&& out.dtype_spec() == DType::I64
                    &&& out.len_spec() == lhs_l.count()
                    &&& forall|p: int|
                        0 <= p < lhs_l.count() ==> out.values()[p] == binary_apply(
                            op,
                            self.values()[lhs_l.position_spec(p)],
                            rhs.values()[rhs_l.position_spec(p)],
                        )
                },
                Err(e) => {
                    ||| {
                        &&& e == Error::ShapeMismatch
                        &&& lhs_l.shape.dims@ != rhs_l.shape.dims@
                    }
                    ||| {
                        &&& e == (Error::UnsupportedDType {
                            op: Op::Binary,
                            dtype: if self.dtype_spec() != DType::I64 {
                                self.dtype_spec()
                            } else {
                                rhs.dtype_spec()
                            },
                        })
                        &&& lhs_l.shape.dims@ == rhs_l.shape.dims@
                        &&& !(self.dtype_spec() == DType::I64 && rhs.dtype_spec() == DType::I64)
                    }
                },
            },
    {
        if !lhs_l.shape().same_dims(rhs_l.shape()) {
            return Err(Error::ShapeMismatch);
        }
        if !matches!(self, CpuStorage::I64(_)) {
            return Err(Error::UnsupportedDType { op: Op::Binary, dtype: self.dtype() });
        }
        if !matches!(rhs, CpuStorage::I64(_)) {
            return Err(Error::UnsupportedDType { op: Op::Binary, dtype: rhs.dtype() });
        }
        let a = self.logical_values(lhs_l);
        let b = rhs.logical_values(rhs_l);
        let count = a.len();
        proof {
            assert forall|p: int|
                0 <= p < lhs_l.count() implies 0 <= #[trigger] lhs_l.position_spec(p)
                < self.len_spec() by {
                lhs_l.lemma_position_in_span(p);
            }
            assert forall|p: int|
                0 <= p < rhs_l.count() implies 0 <= #[trigger] rhs_l.position_spec(p)
                < rhs.len_spec() by {
                rhs_l.lemma_position_in_span(p);
            }
        }
        let mut out: Vec<i64> = Vec::new();
        let mut p: usize = 0;
        while p < count
            invariant
                count == lhs_l.count(),
                count == a@.len(),
                count == b@.len(),
                p <= count,
                out@.len() == p,
                forall|q: int|
                    0 <= q < count ==> -0x10_0000 <= #[trigger] (a@[q] as int) <= 0x10_0000,
                forall|q: int|
                    0 <= q < count ==> -0x10_0000 <= #[trigger] (b@[q] as int) <= 0x10_0000,
                forall|q: int|
                    0 <= q < p ==> out@[q] as int == binary_apply(op, a@[q] as int, b@[q] as int),
            decreases count - p,
        {
            let x = a[p];
            let y = b[p];
            let z = match op {
                BinaryOp::Add => x + y,
                BinaryOp::Sub => x - y,
                BinaryOp::Mul => {
                    proof {
                        assert(-0x100_0000_0000 <= (x as int) * (y as int) <= 0x100_0000_0000)
                            by (nonlinear_arith)
                            requires
                                -0x10_0000 <= x as int <= 0x10_0000,
                                -0x10_0000 <= y as int <= 0x10_0000,
                        ;
                    }
                    x * y
                },
                BinaryOp::Min => if x < y {
                    x
                } else {
                    y
                },
                BinaryOp::Max => if x < y {
                    y
                } else {
                    x
                },
            };
            out.push(z);
            p = p + 1;
        }
        Ok(CpuStorage::I64(out))
    }

    /// Elementwise comparison of this storage's view with another's of
    /// the same shape and element type: a new, densely packed byte storage
    /// holding 1 where the comparison holds and 0 where it does not.
    pub fn cmp(&self, op: CmpOp, rhs: &CpuStorage, lhs_l: &Layout, rhs_l: &Layout) -> (r: Result<
        CpuStorage,
        Error,
    >)
        requires
            lhs_l.wf(),
            rhs_l.wf(),
            lhs_l.count() <= usize::MAX,
            lhs_l.fits_within(self.len_spec() as int),
            rhs_l.fits_within(rhs.len_spec() as int),
        ensures
            match r {
                Ok(out) => {
                    &&& lhs_l.shape.dims@ == rhs_l.shape.dims@
                    &&& self.dtype_spec() == rhs.dtype_spec()
                    &&& out.dtype_spec() == DType::U8
                    &&& out.len_spec() == lhs_l.count()
                    &&& forall|p: int|
                        0 <= p < lhs_l.count() ==> out.values()[p] == (if cmp_holds(
                            op,
                            self.values()[lhs_l.position_spec(p)],
                            rhs.values()[rhs_l.position_spec(p)],
                        ) {
                            1int
                        } else {
                            0int
                        })
                },
                Err(e) => {
                    ||| {
                        &&& e == Error::ShapeMismatch
                        &&& lhs_l.shape.dims@ != rhs_l.shape.dims@
                    }
                    ||| {
                        &&& e == (Error::UnsupportedDType { op: Op::Cmp, dtype: rhs.dtype_spec() })
                        &&& lhs_l.shape.dims@ == rhs_l.shape.dims@
                        &&& self.dtype_spec() != rhs.dtype_spec()
                    }
                },
            },
    {
        if !lhs_l.shape().same_dims(rhs_l.shape()) {
            return Err(Error::ShapeMismatch);
        }
        if self.dtype() != rhs.dtype() {
            return Err(Error::UnsupportedDType { op: Op::Cmp, dtype: rhs.dtype() });
        }
        let a = self.logical_values(lhs_l);
        let b = rhs.logical_values(rhs_l);
        let count = a.len();
        let mut out: Vec<u8> = Vec::new();
        let mut p: usize = 0;
        while p < count
            invariant
                count == lhs_l.count(),
                count == a@.len(),
                count == b@.len(),
                p <= count,
                out@.len() == p,
                forall|q: int|
                    0 <= q < p ==> out@[q] as int == (if cmp_holds(
                        op,
                        a@[q] as int,
                        b@[q] as int,
                    ) {
                        1int
                    } else {
                        0int
                    }),
            decreases count - p,
        {
            let holds = cmp_decide(op, a[p], b[p]);
            out.push(if holds { 1 } else { 0 });
            p = p + 1;
        }
        Ok(CpuStorage::U8(out))
    }

    /// Elementwise conditional select: where this storage's view holds a
    /// non-zero element the result takes the on-true operand's element,
    /// elsewhere the on-false operand's. All three views have the same
    /// shape; the two value operands have the same element type, which the
    /// new, densely packed result keeps.
    pub fn where_cond(
        &self,
        layout: &Layout,
        t: &CpuStorage,
        t_l: &Layout,
        f: &CpuStorage,
        f_l: &Layout,
    ) -> (r: Result<CpuStorage, Error>)
        requires
            layout.wf(),
            t_l.wf(),
            f_l.wf(),
            layout.count() <= usize::MAX,
            layout.fits_within(self.len_spec() as int),
            t_l.fits_within(t.len_spec() as int),
            f_l.fits_within(f.len_spec() as int),
        ensures
            match r {
                Ok(out) => {
                    &&& layout.shape.dims@ == t_l.shape.dims@
                    &&& layout.shape.dims@ == f_l.shape.dims@
                    &&& t.dtype_spec() == f.dtype_spec()
                    &&& out.dtype_spec() == t.dtype_spec()
                    &&& out.len_spec() == layout.count()
                    &&& forall|p: int|
                        0 <= p < layout.count() ==> out.values()[p] == (if self.values()[layout.position_spec(p)] != 0 {
                            t.values()[t_l.position_spec(p)]
                        } else {
                            f.values()[f_l.position_spec(p)]
                        })
                },
                Err(e) => {
                    ||| {
                        &&& e == Error::ShapeMismatch
                        &&& !(layout.shape.dims@ == t_l.shape.dims@ && layout.shape.dims@
                            == f_l.shape.dims@)
                    }
                    ||| {
                        &&& e == (Error::UnsupportedDType { op: Op::WhereCond, dtype: f.dtype_spec() })
                        &&& layout.shape.dims@ == t_l.shape.dims@
                        &&& layout.shape.dims@ == f_l.shape.dims@
                        &&& t.dtype_spec() != f.dtype_spec()
                    }
                },
            },
    {
        if !(layout.shape().same_dims(t_l.shape()) && layout.shape().same_dims(f_l.shape())) {
            return Err(Error::ShapeMismatch);
        }
        let pred = self.logical_values(layout);
        proof {
            assert forall|p: int|
                0 <= p < t_l.count() implies 0 <= #[trigger] t_l.position_spec(p)
                < t.len_spec() by {
                t_l.lemma_position_in_span(p);
            }
            assert forall|p: int|
                0 <= p < f_l.count() implies 0 <= #[trigger] f_l.position_spec(p)
                < f.len_spec() by {
                f_l.lemma_position_in_span(p);
            }
        }
        match (t, f) {
            (CpuStorage::U8(tv), CpuStorage::U8(fv)) => {
                let tg = gather_logical(tv, t_l);
                let fg = gather_logical(fv, f_l);
                let out = CpuStorage::U8(select_by(&pred, &tg, &fg));
                proof {
                    assert forall|p: int|
                        0 <= p < layout.count() implies out.values()[p] == (if self.values()[layout.position_spec(p)] != 0 {
                        t.values()[t_l.position_spec(p)]
                    } else {
                        f.values()[f_l.position_spec(p)]
                    }) by {
                        assert(pred@[p] as int == self.values()[layout.position_spec(p)]);
                        assert(tg@[p] == tv@[t_l.position_spec(p)]);
                        assert(fg@[p] == fv@[f_l.position_spec(p)]);
                    }
                }
                Ok(out)
            },
            (CpuStorage::U32(tv), CpuStorage::U32(fv)) => {
                let tg = gather_logical(tv, t_l);
                let fg = gather_logical(fv, f_l);
                let out = CpuStorage::U32(select_by(&pred, &tg, &fg));
                proof {
                    assert forall|p: int|
                        0 <= p < layout.count() implies out.values()[p] == (if self.values()[layout.position_spec(p)] != 0 {
                        t.values()[t_l.position_spec(p)]
                    } else {
                        f.values()[f_l.position_spec(p)]
                    }) by {
                        assert(pred@[p] as int == self.values()[layout.position_spec(p)]);
                        assert(tg@[p] == tv@[t_l.position_spec(p)]);
                        assert(fg@[p] == fv@[f_l.position_spec(p)]);
                    }
                }
                Ok(out)
            },
            (CpuStorage::I64(tv), CpuStorage::I64(fv)) => {
                let tg = gather_logical(tv, t_l);
                let fg = gather_logical(fv, f_l);
                let out = CpuStorage::I64(select_by(&pred, &tg, &fg));
                proof {
                    assert forall|p: int|
                        0 <= p < layout.count() implies out.values()[p] == (if self.values()[layout.position_spec(p)] != 0 {
                        t.values()[t_l.position_spec(p)]
                    } else {
                        f.values()[f_l.position_spec(p)]
                    }) by {
                        assert(pred@[p] as int == self.values()[layout.position_spec(p)]);
                        assert(tg@[p] == tv@[t_l.position_spec(p)]);
                        assert(fg@[p] == fv@[f_l.position_spec(p)]);
                    }
                }
                Ok(out)
            },
            (_, f2) => Err(Error::UnsupportedDType { op: Op::WhereCond, dtype: f2.dtype() }),
        }
    }

    /// The elements the layout addresses, in row-major order, widened
    /// exactly into the accumulation-width integer type.
    fn logical_values(&self, l: &Layout) -> (r: Vec<i64>)
        requires
            l.wf(),
            l.count() <= usize::MAX,
            l.fits_within(self.len_spec() as int),
        ensures
            r@.len() == l.count(),
            forall|p: int| 0 <= p < l.count() ==> r@[p] as int == self.values()[l.position_spec(p)],
    {
        proof {
            assert forall|p: int|
                0 <= p < l.count() implies 0 <= #[trigger] l.position_spec(p)
                < self.len_spec() by {
                l.lemma_position_in_span(p);
            }
        }
        let count = l.shape().elem_count();
        let mut out: Vec<i64> = Vec::new();
        match self {
            CpuStorage::U8(v) => {
                let v_len = v.len();
                let mut p: usize = 0;
                while p < count
                    invariant
                        count == l.count(),
                        p <= count,
                        l.wf(),
                        l.fits_within(v@.len() as int),
                        v_len == v@.len(),
                        self == CpuStorage::U8(*v),
                        out@.len() == p,
                        forall|q: int|
                            0 <= q < p ==> out@[q] as int == self.values()[l.position_spec(q)],
                    decreases count - p,
                {
                    proof {
                        l.lemma_position_in_span(p as int);
                    }
                    let idx = l.position(p);
                    out.push(v[idx] as i64);
                    p = p + 1;
                }
            },
            CpuStorage::U32(v) => {
                let v_len = v.len();
                let mut p: usize = 0;
                while p < count
                    invariant
                        count == l.count(),
                        p <= count,
                        l.wf(),
                        l.fits_within(v@.len() as int),
                        v_len == v@.len(),
                        self == CpuStorage::U32(*v),
                        out@.len() == p,
                        forall|q: int|
                            0 <= q < p ==> out@[q] as int == self.values()[l.position_spec(q)],
                    decreases count - p,
                {
                    proof {
                        l.lemma_position_in_span(p as int);
                    }
                    let idx = l.position(p);
                    out.push(v[idx] as i64);
                    p = p + 1;
                }
            },
            CpuStorage::I64(v) => {
                let v_len = v.len();
                let mut p: usize = 0;
                while p < count
                    invariant
                        count == l.count(),
                        p <= count,
                        l.wf(),
                        l.fits_within(v@.len() as int),
                        v_len == v@.len(),
                        self == CpuStorage::I64(*v),
                        out@.len() == p,
                        forall|q: int|
                            0 <= q < p ==> out@[q] as int == self.values()[l.position_spec(q)],
                    decreases count - p,
                {
                    proof {
                        l.lemma_position_in_span(p as int);
                    }
                    let idx = l.position(p);
                    out.push(v[idx]);
                    p = p + 1;
                }
            },
        }
        out
    }

    /// Convert the elements the layout addresses, in row-major order, into
    /// a new densely packed storage of the requested element type: widening
    /// is exact, narrowing truncates modulo the target's width. The host
    /// form holds the integer element types, so a floating-point target is
    /// unsupported here.
    pub fn to_dtype(&self, l: &Layout, dtype: DType) -> (r: Result<CpuStorage, Error>)
        requires
            l.wf(),
            l.count() <= usize::MAX,
            l.fits_within(self.len_spec() as int),
        ensures
            match r {
                Ok(out) => {
                    &&& dtype.is_int_spec()
                    &&& out.dtype_spec() == dtype
                    &&& out.len_spec() == l.count()
                    &&& forall|p: int|
                        0 <= p < l.count() ==> out.values()[p] == dtype.wrap_value(
                            self.values()[l.position_spec(p)],
                        )
                },
                Err(e) => {
                    &&& e == (Error::UnsupportedDType { op: Op::ToDType, dtype })
                    &&& !dtype.is_int_spec()
                },
            },
    {
        if dtype.is_float() {
            return Err(Error::UnsupportedDType { op: Op::ToDType, dtype });
        }
        let wide = self.logical_values(l);
        let count = wide.len();
        match dtype {
            DType::U8 => {
                let mut out: Vec<u8> = Vec::new();
                let mut p: usize = 0;
                while p < count
                    invariant
                        count == wide@.len(),
                        p <= count,
                        out@.len() == p,
                        forall|q: int|
                            0 <= q < p ==> out@[q] as int == DType::U8.wrap_value(
                                wide@[q] as int,
                            ),
                    decreases count - p,
                {
                    out.push(wrap_to_u8(wide[p]));
                    p = p + 1;
                }
                Ok(CpuStorage::U8(out))
            },
            DType::U32 => {
                let mut out: Vec<u32> = Vec::new();
                let mut p: usize = 0;
                while p < count
                    invariant
                        count == wide@.len(),
                        p <= count,
                        out@.len() == p,
                        forall|q: int|
                            0 <= q < p ==> out@[q] as int == DType::U32.wrap_value(
                                wide@[q] as int,
                            ),
                    decreases count - p,
                {
                    out.push(wrap_to_u32(wide[p]));
                    p = p + 1;
                }
                Ok(CpuStorage::U32(out))
            },
            DType::I64 => {
                proof {
                    assert forall|p: int|
                        0 <= p < l.count() implies wide@[p] as int == DType::I64.wrap_value(
                        wide@[p] as int,
                    ) by {
                        crate::dtype::lemma_wrap_identity(DType::I64, wide@[p] as int);
                    }
                }
                Ok(CpuStorage::I64(wide))
            },
            _ => {
                proof {
                    assert(false);
                }
                Err(Error::UnsupportedDType { op: Op::ToDType, dtype })
            },
        }
    }

    /// Read one element back as a typed constant.
    pub fn get(&self, i: usize) -> (r: Scalar)
        requires
            i < self.len_spec(),
        ensures
            r.dtype_spec() == self.dtype_spec(),
            r.to_int() == self.values()[i as int],
    {
        match self {
            CpuStorage::U8(v) => Scalar::U8(v[i]),
            CpuStorage::U32(v) => Scalar::U32(v[i]),
            CpuStorage::I64(v) => Scalar::I64(v[i]),
        }
    }
}

/// The value an accumulation-width element takes when stored as `u8`:
/// truncation modulo the type's width.
fn wrap_to_u8(x: i64) -> (r: u8)
    ensures
        r as int == DType::U8.wrap_value(x as int),
{
    let shifted: u128 = (x as i128 + 0x1_0000_0000_0000_0000_i128) as u128;
    proof {
        assert(shifted as int == x as int + 0x1_0000_0000_0000_0000);
        vstd::arithmetic::div_mod::lemma_mod_multiples_vanish(
            0x100_0000_0000_0000,
            x as int,
            0x100,
        );
        assert(0x100 * 0x100_0000_0000_0000 + x as int == shifted as int);
    }
    (shifted % 0x100) as u8
}

/// The value an accumulation-width element takes when stored as `u32`:
/// truncation modulo the type's width.
fn wrap_to_u32(x: i64) -> (r: u32)
    ensures
        r as int == DType::U32.wrap_value(x as int),
{
    let shifted: u128 = (x as i128 + 0x1_0000_0000_0000_0000_i128) as u128;
    proof {
        assert(shifted as int == x as int + 0x1_0000_0000_0000_0000);
        vstd::arithmetic::div_mod::lemma_mod_multiples_vanish(
            0x1_0000_0000,
            x as int,
            0x1_0000_0000,
        );
        assert(0x1_0000_0000 * 0x1_0000_0000 + x as int == shifted as int);
    }
    (shifted % 0x1_0000_0000) as u32
}

/// The affine inverse law, on the integer scales that have an exact
/// integer reciprocal: after `x * m + a`, applying the affine map with
/// scale `1/m` (which equals `m` here) and bias `-(a/m)` (which equals
/// `-(a * m)`) reproduces the original value, for `m` equal to 1 or -1.
pub proof fn lemma_affine_round_trip(v: int, m: int, a: int)
    requires
        m == 1 || m == -1,
    ensures
        m * (m * v + a) + (-(a * m)) == v,
{
    assert(m * (m * v + a) + (-(a * m)) == v) by (nonlinear_arith)
        requires
            m == 1 || m == -1,
    ;
}

/// Product of the dimension sizes in `[from, to)`, or `None` where it
/// does not fit the machine word.
fn range_product(dims: &Vec<usize>, from: usize, to: usize) -> (r: Option<usize>)
    requires
        from <= to <= dims@.len(),
    ensures
        match r {
            Some(n) => n == dims_product(dims@.subrange(from as int, to as int)),
            None => dims_product(dims@.subrange(from as int, to as int)) > usize::MAX,
        },
{
    let ghost whole = dims@.subrange(from as int, to as int);
    let mut i: usize = from;
    while i < to
        invariant
            from <= i <= to,
            to <= dims@.len(),
            whole == dims@.subrange(from as int, to as int),
            forall|j: int| from <= j < i ==> dims@[j] > 0,
        decreases to - i,
    {
        if dims[i] == 0 {
            proof {
                crate::shape::lemma_dims_product_zero(whole, i - from);
            }
            return Some(0);
        }
        i = i + 1;
    }
    let mut acc: usize = 1;
    let mut k: usize = from;
    proof {
        assert(dims@.subrange(from as int, from as int) =~= Seq::<usize>::empty());
    }
    while k < to
        invariant
            from <= k <= to,
            to <= dims@.len(),
            whole == dims@.subrange(from as int, to as int),
            forall|j: int| from <= j < to ==> dims@[j] > 0,
            acc == dims_product(dims@.subrange(from as int, k as int)),
        decreases to - k,
    {
        let d = dims[k];
        proof {
            assert(dims@.subrange(from as int, k + 1).drop_last() =~= dims@.subrange(
                from as int,
                k as int,
            ));
            assert(dims@.subrange(from as int, k + 1).last() == dims@[k as int]);
        }
        match acc.checked_mul(d) {
            Some(next) => {
                acc = next;
            },
            None => {
                proof {
                    lemma_dims_product_split(whole, k + 1 - from);
                    assert(whole.subrange(0, k + 1 - from) =~= dims@.subrange(
                        from as int,
                        k + 1,
                    ));
                    let back = whole.subrange(k + 1 - from, whole.len() as int);
                    assert(back =~= dims@.subrange(k + 1, to as int));
                    assert(forall|j: int| 0 <= j < back.len() ==> back[j] > 0);
                    crate::shape::lemma_dims_product_positive(back);
                    lemma_mul_inequality(1, dims_product(back), acc * d as int);
                    vstd::arithmetic::mul::lemma_mul_is_commutative(
                        dims_product(back),
                        acc * d as int,
                    );
                }
                return None;
            },
        }
        k = k + 1;
    }
    proof {
        assert(dims@.subrange(from as int, to as int) =~= whole);
    }
    Some(acc)
}

/// Decide one elementwise comparison on accumulation-width values.
fn cmp_decide(op: CmpOp, a: i64, b: i64) -> (r: bool)
    ensures
        r == cmp_holds(op, a as int, b as int),
{
    match op {
        CmpOp::Eq => a == b,
        CmpOp::Ne => a != b,
        CmpOp::Le => a <= b,
        CmpOp::Ge => a >= b,
        CmpOp::Lt => a < b,
        CmpOp::Gt => a > b,
    }
}

/// The elements the layout addresses, read out in row-major order.
fn gather_logical<T: Copy>(v: &Vec<T>, l: &Layout) -> (r: Vec<T>)
    requires
        l.wf(),
        l.count() <= usize::MAX,
        l.fits_within(v@.len() as int),
    ensures
        r@.len() == l.count(),
        forall|p: int| 0 <= p < l.count() ==> r@[p] == v@[l.position_spec(p)],
{
    let count = l.shape().elem_count();
    let v_len = v.len();
    let mut out: Vec<T> = Vec::new();
    let mut p: usize = 0;
    while p < count
        invariant
            count == l.count(),
            p <= count,
            l.wf(),
            l.fits_within(v@.len() as int),
            v_len == v@.len(),
            out@.len() == p,
            forall|q: int| 0 <= q < p ==> out@[q] == v@[l.position_spec(q)],
        decreases count - p,
    {
        proof {
            l.lemma_position_in_span(p as int);
        }
        let idx = l.position(p);
        out.push(v[idx]);
        p = p + 1;
    }
    out
}

/// Pick, position by position, the on-true or the on-false element,
/// depending on whether the predicate there is non-zero.
fn select_by<T: Copy>(pred: &Vec<i64>, tv: &Vec<T>, fv: &Vec<T>) -> (r: Vec<T>)
    requires
        pred@.len() == tv@.len(),
        pred@.len() == fv@.len(),
    ensures
        r@.len() == pred@.len(),
        forall|p: int|
            0 <= p < pred@.len() ==> r@[p] == (if pred@[p] as int != 0 {
                tv@[p]
            } else {
                fv@[p]
            }),
{
    let count = pred.len();
    let mut out: Vec<T> = Vec::new();
    let mut p: usize = 0;
    while p < count
        invariant
            count == pred@.len(),
            count == tv@.len(),
            count == fv@.len(),
            p <= count,
            out@.len() == p,
            forall|q: int|
                0 <= q < p ==> out@[q] == (if pred@[q] as int != 0 {
                    tv@[q]
                } else {
                    fv@[q]
                }),
        decreases count - p,
    {
        let chosen = if pred[p] != 0 {
            tv[p]
        } else {
            fv[p]
        };
        out.push(chosen);
        p = p + 1;
    }
    out
}

/// Gather, element by element along one axis, the entries the index list
/// names, in row-major order over (outer, picked, inner) coordinates; the
/// index list is flat in the same order as the result.
#[verifier::loop_isolation(false)]
fn gather_axis<T: Copy>(
    src: &Vec<T>,
    l: &Layout,
    ids: &Vec<i64>,
    outer: usize,
    gsize: usize,
    asize: usize,
    inner: usize,
) -> (r: Vec<T>)
    requires
        l.wf(),
        l.count() == ((outer as int) * (asize as int)) * (inner as int),
        l.count() <= usize::MAX,
        l.fits_within(src@.len() as int),
        ids@.len() == ((outer as int) * (gsize as int)) * (inner as int),
        forall|q: int| 0 <= q < ids@.len() ==> 0 <= #[trigger] (ids@[q] as int) < asize,
    ensures
        r@.len() == ids@.len(),
        forall|o: int, i: int, ii: int|
            0 <= o < outer && 0 <= i < gsize && 0 <= ii < inner ==> 0 <= #[trigger] grid_offset(
                o,
                i,
                ii,
                gsize as int,
                inner as int,
            ) < r@.len() && r@[grid_offset(o, i, ii, gsize as int, inner as int)] == src@[
                l.position_spec(
                grid_offset(
                    o,
                    ids@[grid_offset(o, i, ii, gsize as int, inner as int)] as int,
                    ii,
                    asize as int,
                    inner as int,
                ),
            )],
{
    let ids_n = ids.len();
    let src_len = src.len();
    let mut out: Vec<T> = Vec::new();
    let mut o: usize = 0;
    proof {
        assert(((0int) * (gsize as int)) * (inner as int) == 0) by (nonlinear_arith);
    }
    while o < outer
        invariant
            o <= outer,
            out@.len() == ((o as int) * (gsize as int)) * (inner as int),
            forall|w: int|
                0 <= w < out@.len() ==> out@[w] == gather_flat(
                    src@,
                    *l,
                    ids@,
                    gsize as int,
                    asize as int,
                    inner as int,
                    w,
                ),
        decreases outer - o,
    {
        let mut i: usize = 0;
        proof {
            lemma_mul_is_associative(o as int, gsize as int, inner as int);
        }
        while i < gsize
            invariant
                i <= gsize,
                out@.len() == ((o as int) * (gsize as int) + (i as int)) * (inner as int),
                forall|w: int|
                    0 <= w < out@.len() ==> out@[w] == gather_flat(
                        src@,
                        *l,
                        ids@,
                        gsize as int,
                        asize as int,
                        inner as int,
                        w,
                    ),
            decreases gsize - i,
        {
            let mut ii: usize = 0;
            while ii < inner
                invariant
                    ii <= inner,
                    out@.len() == ((o as int) * (gsize as int) + (i as int)) * (inner as int) + (
                    ii as int),
                    forall|w: int|
                        0 <= w < out@.len() ==> out@[w] == gather_flat(
                            src@,
                            *l,
                            ids@,
                            gsize as int,
                            asize as int,
                            inner as int,
                            w,
                        ),
                decreases inner - ii,
            {
                proof {
                    assert(0 <= ((o as int) * (gsize as int) + i) * (inner as int) + ii < ((outer
                        as int) * (gsize as int)) * (inner as int)) by (nonlinear_arith)
                        requires
                            0 <= o < outer,
                            0 <= i < gsize,
                            0 <= ii < inner,
                    ;
                }
                let q = out.len();
                let idv = ids[q] as usize;
                proof {
                    assert(0 <= (o as int) * (asize as int) + idv && ((o as int) * (asize as int)
                        + idv) * (inner as int) + ii < ((outer as int) * (asize as int)) * (
                    inner as int)) by (nonlinear_arith)
                        requires
                            0 <= o < outer,
                            0 <= idv < asize,
                            0 <= ii < inner,
                    ;
                    assert(l.count() > 0);
                    lemma_positive_count_positive_dims(l.shape.dims@);
                    assert(((o as int) * (asize as int) + idv) * (inner as int) + ii
                        <= usize::MAX);
                    assert((o as int) * (asize as int) + idv <= usize::MAX) by (nonlinear_arith)
                        requires
                            0 <= (o as int) * (asize as int) + idv,
                            0 <= ii < inner,
                            ((o as int) * (asize as int) + idv) * (inner as int) + ii
                                <= usize::MAX,
                    ;
                    assert((o as int) * (asize as int) <= (o as int) * (asize as int) + idv);
                }
                let p = (o * asize + idv) * inner + ii;
                proof {
                    l.lemma_position_in_span(p as int);
                }
                let idx = l.position(p);
                out.push(src[idx]);
                proof {
                    let o_i = o as int;
                    let i_i = i as int;
                    let ii_i = ii as int;
                    let g_i = gsize as int;
                    let in_i = inner as int;
                    let mn = g_i * in_i;
                    let row = i_i * in_i + ii_i;
                    let w = (o_i * g_i + i_i) * in_i + ii_i;
                    assert(0 <= row < mn) by (nonlinear_arith)
                        requires
                            row == i_i * in_i + ii_i,
                            mn == g_i * in_i,
                            0 <= i_i < g_i,
                            0 <= ii_i < in_i,
                    ;
                    assert(w == o_i * mn + row) by (nonlinear_arith)
                        requires
                            w == (o_i * g_i + i_i) * in_i + ii_i,
                            mn == g_i * in_i,
                            row == i_i * in_i + ii_i,
                    ;
                    lemma_fundamental_div_mod_converse(w, mn, o_i, row);
                    lemma_fundamental_div_mod_converse(row, in_i, i_i, ii_i);
                    lemma_fundamental_div_mod_converse(w, in_i, o_i * g_i + i_i, ii_i);
                    assert(gather_flat(src@, *l, ids@, g_i, asize as int, in_i, w) == src@[
                        l.position_spec((o_i * (asize as int) + ids@[w] as int) * in_i
                            + ii_i)]);
                }
                ii = ii + 1;
            }
            proof {
                assert(((o as int) * (gsize as int) + (i as int)) * (inner as int) + (inner as int)
                    == ((o as int) * (gsize as int) + (i as int) + 1) * (inner as int))
                    by (nonlinear_arith);
            }
            i = i + 1;
        }
        proof {
            assert(((o as int) * (gsize as int) + (gsize as int)) * (inner as int) == ((o as int)
                + 1) * ((gsize as int) * (inner as int))) by (nonlinear_arith);
            lemma_mul_is_associative(o as int + 1, gsize as int, inner as int);
        }
        o = o + 1;
    }
    proof {
        lemma_mul_is_associative(outer as int, gsize as int, inner as int);
        assert forall|o2: int, i2: int, ii2: int|
            0 <= o2 < outer && 0 <= i2 < gsize && 0 <= ii2 < inner implies 0 <= #[trigger] grid_offset(
            o2,
            i2,
            ii2,
            gsize as int,
            inner as int,
        ) < out@.len() && out@[grid_offset(o2, i2, ii2, gsize as int, inner as int)] == src@[
        l.position_spec(
            grid_offset(
                o2,
                ids@[grid_offset(o2, i2, ii2, gsize as int, inner as int)] as int,
                ii2,
                asize as int,
                inner as int,
            ),
        )] by {
            let g_i = gsize as int;
            let in_i = inner as int;
            let mn = g_i * in_i;
            let row = i2 * in_i + ii2;
            let w = (o2 * g_i + i2) * in_i + ii2;
            assert(0 <= row < mn) by (nonlinear_arith)
                requires
                    row == i2 * in_i + ii2,
                    mn == g_i * in_i,
                    0 <= i2 < g_i,
                    0 <= ii2 < in_i,
            ;
            assert(w == o2 * mn + row) by (nonlinear_arith)
                requires
                    w == (o2 * g_i + i2) * in_i + ii2,
                    mn == g_i * in_i,
                    row == i2 * in_i + ii2,
            ;
            assert(0 <= w < (outer as int) * mn) by (nonlinear_arith)
                requires
                    0 <= o2 < outer as int,
                    0 <= row < mn,
                    w == o2 * mn + row,
                    mn >= 0,
            ;
            lemma_fundamental_div_mod_converse(w, mn, o2, row);
            lemma_fundamental_div_mod_converse(row, in_i, i2, ii2);
            lemma_fundamental_div_mod_converse(w, in_i, o2 * g_i + i2, ii2);
        }
    }
    out
}

/// Gather, slice by slice along one axis, the slices the index list
/// names, in row-major order over (outer, index, inner) coordinates.
#[verifier::loop_isolation(false)]
fn select_axis<T: Copy>(
    src: &Vec<T>,
    l: &Layout,
    ids: &Vec<i64>,
    outer: usize,
    asize: usize,
    inner: usize,
) -> (r: Vec<T>)
    requires
        l.wf(),
        l.count() == ((outer as int) * (asize as int)) * (inner as int),
        l.count() <= usize::MAX,
        l.fits_within(src@.len() as int),
        ((outer as int) * (ids@.len() as int)) * (inner as int) <= usize::MAX,
        forall|q: int| 0 <= q < ids@.len() ==> 0 <= #[trigger] (ids@[q] as int) < asize,
    ensures
        r@.len() == ((outer as int) * (ids@.len() as int)) * (inner as int),
        forall|o: int, i: int, ii: int|
            0 <= o < outer && 0 <= i < ids@.len() && 0 <= ii < inner ==> 0 <= #[trigger] grid_offset(
                o,
                i,
                ii,
                ids@.len() as int,
                inner as int,
            ) < r@.len() && r@[grid_offset(o, i, ii, ids@.len() as int, inner as int)] == src@[
                l.position_spec(
                grid_offset(o, ids@[i] as int, ii, asize as int, inner as int),
            )],
{
    let ids_n = ids.len();
    let src_len = src.len();
    let mut out: Vec<T> = Vec::new();
    let mut o: usize = 0;
    proof {
        assert(((0int) * (ids_n as int)) * (inner as int) == 0) by (nonlinear_arith);
    }
    while o < outer
        invariant
            o <= outer,
            out@.len() == ((o as int) * (ids_n as int)) * (inner as int),
            forall|q: int|
                0 <= q < out@.len() ==> out@[q] == select_flat(
                    src@,
                    *l,
                    ids@,
                    asize as int,
                    inner as int,
                    q,
                ),
        decreases outer - o,
    {
        let mut i: usize = 0;
        proof {
            lemma_mul_is_associative(o as int, ids_n as int, inner as int);
        }
        while i < ids_n
            invariant
                i <= ids_n,
                out@.len() == ((o as int) * (ids_n as int) + (i as int)) * (inner as int),
                forall|q: int|
                    0 <= q < out@.len() ==> out@[q] == select_flat(
                        src@,
                        *l,
                        ids@,
                        asize as int,
                        inner as int,
                        q,
                    ),
            decreases ids_n - i,
        {
            let idv = ids[i] as usize;
            let mut ii: usize = 0;
            while ii < inner
                invariant
                    ii <= inner,
                    idv == ids@[i as int] as usize,
                    out@.len() == ((o as int) * (ids_n as int) + (i as int)) * (inner as int) + (
                    ii as int),
                    forall|q: int|
                        0 <= q < out@.len() ==> out@[q] == select_flat(
                            src@,
                            *l,
                            ids@,
                            asize as int,
                            inner as int,
                            q,
                        ),
                decreases inner - ii,
            {
                proof {
                    assert(0 <= (o as int) * (asize as int) + idv && ((o as int) * (asize as int)
                        + idv) * (inner as int) + ii < ((outer as int) * (asize as int)) * (
                    inner as int)) by (nonlinear_arith)
                        requires
                            0 <= o < outer,
                            0 <= idv < asize,
                            0 <= ii < inner,
                    ;
                    assert(l.count() > 0);
                    lemma_positive_count_positive_dims(l.shape.dims@);
                    assert(((o as int) * (asize as int) + idv) * (inner as int) + ii
                        <= usize::MAX);
                    assert((o as int) * (asize as int) + idv <= usize::MAX) by (nonlinear_arith)
                        requires
                            0 <= (o as int) * (asize as int) + idv,
                            0 <= ii < inner,
                            ((o as int) * (asize as int) + idv) * (inner as int) + ii
                                <= usize::MAX,
                    ;
                    assert((o as int) * (asize as int) <= (o as int) * (asize as int) + idv);
                }
                let p = (o * asize + idv) * inner + ii;
                proof {
                    l.lemma_position_in_span(p as int);
                }
                let idx = l.position(p);
                out.push(src[idx]);
                proof {
                    let o_i = o as int;
                    let i_i = i as int;
                    let ii_i = ii as int;
                    let n_i = ids_n as int;
                    let in_i = inner as int;
                    let mn = n_i * in_i;
                    let row = i_i * in_i + ii_i;
                    let q = (o_i * n_i + i_i) * in_i + ii_i;
                    assert(0 <= row < mn) by (nonlinear_arith)
                        requires
                            row == i_i * in_i + ii_i,
                            mn == n_i * in_i,
                            0 <= i_i < n_i,
                            0 <= ii_i < in_i,
                    ;
                    assert(q == o_i * mn + row) by (nonlinear_arith)
                        requires
                            q == (o_i * n_i + i_i) * in_i + ii_i,
                            mn == n_i * in_i,
                            row == i_i * in_i + ii_i,
                    ;
                    lemma_fundamental_div_mod_converse(q, mn, o_i, row);
                    lemma_fundamental_div_mod_converse(row, in_i, i_i, ii_i);
                    lemma_fundamental_div_mod_converse(q, in_i, o_i * n_i + i_i, ii_i);
                    assert(select_flat(src@, *l, ids@, asize as int, in_i, q) == src@[
                        l.position_spec((o_i * (asize as int) + ids@[i_i] as int) * in_i
                            + ii_i)]);
                }
                ii = ii + 1;
            }
            proof {
                assert(((o as int) * (ids_n as int) + (i as int)) * (inner as int) + (inner as int)
                    == ((o as int) * (ids_n as int) + (i as int) + 1) * (inner as int))
                    by (nonlinear_arith);
            }
            i = i + 1;
        }
        proof {
            assert(((o as int) * (ids_n as int) + (ids_n as int)) * (inner as int) == ((o as int)
                + 1) * ((ids_n as int) * (inner as int))) by (nonlinear_arith);
            lemma_mul_is_associative(o as int + 1, ids_n as int, inner as int);
        }
        o = o + 1;
    }
    proof {
        lemma_mul_is_associative(outer as int, ids_n as int, inner as int);
        assert forall|o2: int, i2: int, ii2: int|
            0 <= o2 < outer && 0 <= i2 < ids_n && 0 <= ii2 < inner implies 0 <= #[trigger] grid_offset(
            o2,
            i2,
            ii2,
            ids_n as int,
            inner as int,
        ) < out@.len() && out@[grid_offset(o2, i2, ii2, ids_n as int, inner as int)] == src@[
        l.position_spec(
            grid_offset(o2, ids@[i2] as int, ii2, asize as int, inner as int),
        )] by {
            let n_i = ids_n as int;
            let in_i = inner as int;
            let mn = n_i * in_i;
            let row = i2 * in_i + ii2;
            let q = (o2 * n_i + i2) * in_i + ii2;
            assert(0 <= row < mn) by (nonlinear_arith)
                requires
                    row == i2 * in_i + ii2,
                    mn == n_i * in_i,
                    0 <= i2 < n_i,
                    0 <= ii2 < in_i,
            ;
            assert(q == o2 * mn + row) by (nonlinear_arith)
                requires
                    q == (o2 * n_i + i2) * in_i + ii2,
                    mn == n_i * in_i,
                    row == i2 * in_i + ii2,
            ;
            assert(0 <= q < (outer as int) * mn) by (nonlinear_arith)
                requires
                    0 <= o2 < outer as int,
                    0 <= row < mn,
                    q == o2 * mn + row,
                    mn >= 0,
            ;
            lemma_fundamental_div_mod_converse(q, mn, o2, row);
            lemma_fundamental_div_mod_converse(row, in_i, i2, ii2);
            lemma_fundamental_div_mod_converse(q, in_i, o2 * n_i + i2, ii2);
        }
    }
    out
}

/// Write `value` at every physical index the layout addresses, leaving
/// every other position unchanged.
fn set_positions<T: Copy>(data: &mut Vec<T>, l: &Layout, value: T)
    requires
        l.wf(),
        l.count() <= usize::MAX,
        l.fits_within(old(data)@.len() as int),
    ensures
        final(data)@.len() == old(data)@.len(),
        forall|i: int|
            0 <= i < old(data)@.len() ==> final(data)@[i] == (if l.touches(i) {
                value
            } else {
                old(data)@[i]
            }),
{
    let count = l.shape().elem_count();
    let data_len = data.len();
    let mut p: usize = 0;
    while p < count
        invariant
            count == l.count(),
            p <= count,
            l.wf(),
            l.fits_within(old(data)@.len() as int),
            data@.len() == old(data)@.len(),
            data_len == old(data)@.len(),
            forall|i: int|
                0 <= i < old(data)@.len() ==> data@[i] == (if l.touched_before(p as int, i) {
                    value
                } else {
                    old(data)@[i]
                }),
        decreases count - p,
    {
        proof {
            l.lemma_position_in_span(p as int);
        }
        let idx = l.position(p);
        data[idx] = value;
        proof {
            assert(l.position_spec(p as int) == idx);
            assert(l.touched_before(p + 1, idx as int));
            assert forall|i: int|
                0 <= i < old(data)@.len() implies data@[i] == (if l.touched_before(p + 1, i) {
                value
            } else {
                old(data)@[i]
            }) by {
                if l.touched_before(p + 1, i) {
                    if i != idx {
                        let w = choose|q: int| 0 <= q < p + 1 && l.position_spec(q) == i;
                        assert(w != p);
                        assert(l.touched_before(p as int, i));
                    }
                } else {
                    assert(i != idx);
                    assert(!l.touched_before(p as int, i)) by {
                        if l.touched_before(p as int, i) {
                            let w = choose|q: int| 0 <= q < p && l.position_spec(q) == i;
                            assert(0 <= w < p + 1 && l.position_spec(w) == i);
                        }
                    }
                }
            }
        }
        p = p + 1;
    }
}

/// Row-by-row two-dimensional copy over raw buffers; the destination rows
/// are disjoint, so earlier rows survive later ones.
#[verifier::loop_isolation(false)]
fn copy2d_rows<T: Copy>(
    src: &Vec<T>,
    dst: &mut Vec<T>,
    d1: usize,
    d2: usize,
    ss: usize,
    ds: usize,
    so: usize,
    do0: usize,
)
    requires
        d1 > 0 ==> so + (d1 - 1) * ss + d2 <= src@.len(),
        d1 > 0 ==> do0 + (d1 - 1) * ds + d2 <= old(dst)@.len(),
        d1 > 1 ==> d2 <= ds,
    ensures
        final(dst)@.len() == old(dst)@.len(),
        forall|rr: int, cc: int|
            0 <= rr < d1 && 0 <= cc < d2 ==> final(dst)@[index2d(do0 as int, ds as int, rr, cc)]
                == src@[index2d(so as int, ss as int, rr, cc)],
        forall|i: int|
            0 <= i < old(dst)@.len() && !touches2d(
                do0 as int,
                ds as int,
                d1 as int,
                d2 as int,
                i,
            ) ==> final(dst)@[i] == old(dst)@[i],
{
    let src_len = src.len();
    let dst_len = dst.len();
    let mut r: usize = 0;
    while r < d1
        invariant
            r <= d1,
            dst@.len() == old(dst)@.len(),
            forall|rr: int, cc: int|
                0 <= rr < r && 0 <= cc < d2 ==> dst@[index2d(do0 as int, ds as int, rr, cc)]
                    == src@[index2d(so as int, ss as int, rr, cc)],
            forall|i: int|
                0 <= i < old(dst)@.len() && !touches2d(
                    do0 as int,
                    ds as int,
                    r as int,
                    d2 as int,
                    i,
                ) ==> dst@[i] == old(dst)@[i],
        decreases d1 - r,
    {
        proof {
            lemma_mul_inequality(r as int, d1 as int - 1, ss as int);
            lemma_mul_inequality(r as int, d1 as int - 1, ds as int);
            vstd::arithmetic::mul::lemma_mul_nonnegative(r as int, ss as int);
            vstd::arithmetic::mul::lemma_mul_nonnegative(r as int, ds as int);
        }
        let src_row = so + r * ss;
        let dst_row = do0 + r * ds;
        let mut c: usize = 0;
        while c < d2
            invariant
                c <= d2,
                dst@.len() == old(dst)@.len(),
                src_row == so + (r as int) * (ss as int),
                dst_row == do0 + (r as int) * (ds as int),
                forall|rr: int, cc: int|
                    0 <= rr < r && 0 <= cc < d2 ==> dst@[index2d(do0 as int, ds as int, rr, cc)]
                        == src@[index2d(so as int, ss as int, rr, cc)],
                forall|cc: int|
                    0 <= cc < c ==> dst@[#[trigger] index2d(do0 as int, ds as int, r as int, cc)]
                        == src@[index2d(so as int, ss as int, r as int, cc)],
                forall|i: int|
                    0 <= i < old(dst)@.len() && !touches2d(
                        do0 as int,
                        ds as int,
                        r as int,
                        d2 as int,
                        i,
                    ) && !(dst_row <= i < dst_row + c) ==> dst@[i] == old(dst)@[i],
            decreases d2 - c,
        {
            let val = src[src_row + c];
            dst[dst_row + c] = val;
            proof {
                assert forall|rr: int, cc: int|
                    0 <= rr < r && 0 <= cc < d2 implies dst@[#[trigger] index2d(
                    do0 as int,
                    ds as int,
                    rr,
                    cc,
                )] == src@[index2d(so as int, ss as int, rr, cc)] by {
                    assert(cc < ds);
                    assert(rr * (ds as int) + cc < (r as int) * (ds as int))
                        by (nonlinear_arith)
                        requires
                            0 <= rr,
                            rr + 1 <= r as int,
                            0 <= cc,
                            cc < ds as int,
                    ;
                    assert(index2d(do0 as int, ds as int, rr, cc) != dst_row + c);
                }
            }
            c = c + 1;
        }
        proof {
            assert forall|i: int|
                0 <= i < old(dst)@.len() && !touches2d(
                    do0 as int,
                    ds as int,
                    r as int + 1,
                    d2 as int,
                    i,
                ) implies dst@[i] == old(dst)@[i] by {
                assert(!touches2d(do0 as int, ds as int, r as int, d2 as int, i)) by {
                    if touches2d(do0 as int, ds as int, r as int, d2 as int, i) {
                        let (rr, cc) = choose|rr: int, cc: int|
                            0 <= rr < r && 0 <= cc < d2 && i == #[trigger] index2d(
                                do0 as int,
                                ds as int,
                                rr,
                                cc,
                            );
                        assert(0 <= rr < r as int + 1 && 0 <= cc < d2 && i == index2d(
                            do0 as int,
                            ds as int,
                            rr,
                            cc,
                        ));
                        assert(touches2d(do0 as int, ds as int, r as int + 1, d2 as int, i));
                    }
                }
                assert(!(dst_row <= i < dst_row + d2)) by {
                    if dst_row <= i < dst_row + d2 {
                        let cc = i - dst_row;
                        assert(0 <= (r as int) < r as int + 1 && 0 <= cc < d2 && i == index2d(
                            do0 as int,
                            ds as int,
                            r as int,
                            cc,
                        ));
                        assert(touches2d(do0 as int, ds as int, r as int + 1, d2 as int, i));
                    }
                }
            }
            assert forall|rr: int, cc: int|
                0 <= rr < r as int + 1 && 0 <= cc < d2 implies dst@[index2d(
                do0 as int,
                ds as int,
                rr,
                cc,
            )] == src@[index2d(so as int, ss as int, rr, cc)] by {
            }
        }
        r = r + 1;
    }
}

/// Copy the layout's logical view, in row-major order, into a contiguous
/// run of the destination starting at `dst_offset`; the rest of the
/// destination keeps its old values.
fn copy_positions<T: Copy>(src: &Vec<T>, dst: &mut Vec<T>, dst_offset: usize, l: &Layout)
    requires
        l.wf(),
        l.count() <= usize::MAX,
        l.fits_within(src@.len() as int),
        dst_offset + l.count() <= old(dst)@.len(),
    ensures
        final(dst)@.len() == old(dst)@.len(),
        forall|p: int|
            0 <= p < l.count() ==> final(dst)@[dst_offset + p] == src@[l.position_spec(p)],
        forall|i: int|
            0 <= i < old(dst)@.len() && !(dst_offset <= i < dst_offset + l.count()) ==> final(dst)@[i] == old(dst)@[i],
{
    let count = l.shape().elem_count();
    let src_len = src.len();
    let dst_len = dst.len();
    let mut p: usize = 0;
    while p < count
        invariant
            count == l.count(),
            p <= count,
            l.wf(),
            l.fits_within(src@.len() as int),
            src_len == src@.len(),
            dst_len == old(dst)@.len(),
            dst_offset + count <= old(dst)@.len(),
            dst@.len() == old(dst)@.len(),
            forall|q: int| 0 <= q < p ==> dst@[dst_offset + q] == src@[l.position_spec(q)],
            forall|i: int|
                0 <= i < old(dst)@.len() && !(dst_offset <= i < dst_offset + p) ==> dst@[i] == old(dst)@[i],
        decreases count - p,
    {
        proof {
            l.lemma_position_in_span(p as int);
        }
        let idx = l.position(p);
        let val = src[idx];
        dst[dst_offset + p] = val;
        p = p + 1;
    }
}

} // verus!
