use vstd::prelude::*;
use vstd::arithmetic::div_mod::lemma_mod_bound;
use vstd::arithmetic::mul::{lemma_mul_inequality, lemma_mul_nonnegative};
use crate::shape::{dims_product, lemma_dims_product_split, lemma_dims_product_zero, Shape};

verus! {

/// Physical element offset, relative to a layout's base offset, of the
/// logical position `p` under row-major iteration order: the last dimension
/// varies fastest.
pub open spec fn strided_offset(dims: Seq<usize>, strides: Seq<usize>, p: int) -> int
    decreases dims.len(),
{
    if dims.len() == 0 {
        0
    } else {
        (p % (dims.last() as int)) * (strides.last() as int) + strided_offset(
            dims.drop_last(),
            strides.drop_last(),
            p / (dims.last() as int),
        )
    }
}

/// Largest offset, relative to the base, that any in-range logical position
/// can reach: the sum over the dimensions of `(size - 1) * stride`.
pub open spec fn strided_span(dims: Seq<usize>, strides: Seq<usize>) -> int
    decreases dims.len(),
{
    if dims.len() == 0 {
        0
    } else {
        (dims.last() - 1) * (strides.last() as int) + strided_span(
            dims.drop_last(),
            strides.drop_last(),
        )
    }
}

/// Row-major stride of dimension `j`: the product of the dimension sizes
/// after it.
pub open spec fn contiguous_stride_of(dims: Seq<usize>, j: int) -> int {
    dims_product(dims.subrange(j + 1, dims.len() as int))
}

/// On a view whose strides are a common factor `c` times the row-major
/// strides, the physical offset of logical position `p` is `c * p`.
proof fn lemma_scaled_offset_identity(dims: Seq<usize>, strides: Seq<usize>, p: int, c: int)
    requires
        dims.len() == strides.len(),
        c >= 0,
        forall|j: int|
            0 <= j < dims.len() ==> strides[j] as int == c * contiguous_stride_of(dims, j),
        0 <= p < dims_product(dims),
    ensures
        strided_offset(dims, strides, p) == c * p,
    decreases dims.len(),
{
    let n = dims.len() as int;
    if n == 0 {
        assert(p == 0);
        vstd::arithmetic::mul::lemma_mul_by_zero_is_zero(c);
    } else {
        let d = dims.last() as int;
        let s = strides.last() as int;
        let front = dims.drop_last();
        let front_s = strides.drop_last();
        assert(dims.subrange(n, n) =~= Seq::<usize>::empty());
        assert(s == c * 1);
        lemma_positive_count_positive_dims(dims);
        lemma_mod_bound(p, d);
        assert forall|j: int|
            0 <= j < front.len() implies front_s[j] as int == (c * d) * contiguous_stride_of(
            front,
            j,
        ) by {
            assert(front_s[j] == strides[j]);
            assert(dims.subrange(j + 1, n).drop_last() =~= front.subrange(j + 1, n - 1));
            assert(dims.subrange(j + 1, n).last() == dims.last());
            assert(dims_product(dims.subrange(j + 1, n)) == dims_product(
                front.subrange(j + 1, n - 1),
            ) * d);
            assert(c * (dims_product(front.subrange(j + 1, n - 1)) * d) == (c * d) * dims_product(
                front.subrange(j + 1, n - 1),
            )) by (nonlinear_arith);
        }
        assert((p / d) < dims_product(front) && p / d >= 0) by (nonlinear_arith)
            requires
                p >= 0,
                d > 0,
                p < dims_product(front) * d,
        ;
        vstd::arithmetic::mul::lemma_mul_nonnegative(c, d);
        lemma_scaled_offset_identity(front, front_s, p / d, c * d);
        assert(strided_offset(dims, strides, p) == (p % d) * (c * 1) + (c * d) * (p / d));
        vstd::arithmetic::div_mod::lemma_fundamental_div_mod(p, d);
        assert((p % d) * (c * 1) + (c * d) * (p / d) == c * p) by (nonlinear_arith)
            requires
                d > 0,
                p == d * (p / d) + p % d,
        ;
    }
}

/// A positive element count forces every dimension to be positive.
pub proof fn lemma_positive_count_positive_dims(dims: Seq<usize>)
    requires
        dims_product(dims) > 0,
    ensures
        forall|j: int| 0 <= j < dims.len() ==> dims[j] > 0,
{
    assert forall|j: int| 0 <= j < dims.len() implies dims[j] > 0 by {
        if dims[j] == 0 {
            lemma_dims_product_zero(dims, j);
        }
    }
}

/// The span is the sum of per-dimension non-negative terms, so any prefix of
/// it is non-negative.
pub proof fn lemma_strided_span_nonneg(dims: Seq<usize>, strides: Seq<usize>)
    requires
        dims.len() == strides.len(),
        forall|j: int| 0 <= j < dims.len() ==> dims[j] > 0,
    ensures
        strided_span(dims, strides) >= 0,
    decreases dims.len(),
{
    if dims.len() > 0 {
        lemma_strided_span_nonneg(dims.drop_last(), strides.drop_last());
        lemma_mul_nonnegative(dims.last() - 1, strides.last() as int);
    }
}

/// The span splits at any cut point into the spans of the front and the back
/// dimensions.
pub proof fn lemma_strided_span_split(dims: Seq<usize>, strides: Seq<usize>, k: int)
    requires
        dims.len() == strides.len(),
        0 <= k <= dims.len(),
    ensures
        strided_span(dims, strides) == strided_span(
            dims.subrange(0, k),
            strides.subrange(0, k),
        ) + strided_span(
            dims.subrange(k, dims.len() as int),
            strides.subrange(k, strides.len() as int),
        ),
    decreases dims.len(),
{
    let n = dims.len() as int;
    if k == n {
        assert(dims.subrange(0, k) =~= dims);
        assert(strides.subrange(0, k) =~= strides);
    } else {
        lemma_strided_span_split(dims.drop_last(), strides.drop_last(), k);
        assert(dims.subrange(0, k) =~= dims.drop_last().subrange(0, k));
        assert(strides.subrange(0, k) =~= strides.drop_last().subrange(0, k));
        assert(dims.subrange(k, n).drop_last() =~= dims.drop_last().subrange(k, n - 1));
        assert(strides.subrange(k, n).drop_last() =~= strides.drop_last().subrange(k, n - 1));
        assert(dims.subrange(k, n).last() == dims.last());
        assert(strides.subrange(k, n).last() == strides.last());
    }
}

/// Every in-range logical position lands between the base offset and the
/// span.
pub proof fn lemma_strided_offset_in_span(dims: Seq<usize>, strides: Seq<usize>, p: int)
    requires
        dims.len() == strides.len(),
        forall|j: int| 0 <= j < dims.len() ==> dims[j] > 0,
        0 <= p < dims_product(dims),
    ensures
        0 <= strided_offset(dims, strides, p) <= strided_span(dims, strides),
    decreases dims.len(),
{
    if dims.len() == 0 {
    } else {
        let d = dims.last() as int;
        let s = strides.last() as int;
        let front_dims = dims.drop_last();
        let front_strides = strides.drop_last();
        lemma_mod_bound(p, d);
        lemma_mul_nonnegative(p % d, s);
        lemma_mul_inequality(p % d, d - 1, s);
        assert(p / d < dims_product(front_dims)) by {
            let fp = dims_product(front_dims);
            assert(dims_product(dims) == fp * d);
            assert(p < fp * d);
            assert(p / d < fp) by (nonlinear_arith)
                requires
                    p >= 0,
                    d > 0,
                    p < fp * d,
            ;
        }
        assert(p / d >= 0) by (nonlinear_arith)
            requires
                p >= 0,
                d > 0,
        ;
        lemma_strided_offset_in_span(front_dims, front_strides, p / d);
    }
}

/// A logical view over a storage's physical buffer: a shape, one stride per
/// dimension and a base element offset, all in elements. Several layouts may
/// alias one storage.
#[derive(Clone, Debug, PartialEq, Eq)]
pub struct Layout {
    pub shape: Shape,
    pub strides: Vec<usize>,
    pub start_offset: usize,
}

impl Layout {
    /// One stride per dimension.
    pub open spec fn wf(self) -> bool {
        self.strides@.len() == self.shape.dims@.len()
    }

    pub open spec fn rank_spec(self) -> nat {
        self.shape.dims@.len()
    }

    /// Number of logical positions the view addresses.
    pub open spec fn count(self) -> int {
        dims_product(self.shape.dims@)
    }

    /// Physical index of the logical position `p` under row-major iteration
    /// of the view.
    pub open spec fn position_spec(self, p: int) -> int {
        self.start_offset + strided_offset(self.shape.dims@, self.strides@, p)
    }

    /// One past the largest physical index the view can address; only
    /// meaningful when the view addresses at least one position.
    pub open spec fn span(self) -> int {
        self.start_offset + strided_span(self.shape.dims@, self.strides@)
    }

    /// Every index reachable under (shape, strides, offset) addresses a
    /// valid element of a buffer of length `len`: the layout invariant
    /// relative to its storage.
    pub open spec fn fits_within(self, len: int) -> bool {
        self.wf() && (self.count() == 0 || self.span() < len)
    }

    /// Whether one of the first `n` logical positions lands on the physical
    /// index `i`.
    pub open spec fn touched_before(self, n: int, i: int) -> bool {
        exists|p: int| 0 <= p < n && self.position_spec(p) == i
    }

    /// Whether a position is one the view addresses: the layout touches the
    /// physical index `i` iff some in-range logical position lands on it.
    pub open spec fn touches(self, i: int) -> bool {
        self.touched_before(self.count(), i)
    }

    pub fn new(shape: Shape, strides: Vec<usize>, start_offset: usize) -> (r: Layout)
        ensures
            r.shape == shape,
            r.strides@ == strides@,
            r.start_offset == start_offset,
    {
        Layout { shape, strides, start_offset }
    }

    pub fn shape(&self) -> (r: &Shape)
        ensures
            r == self.shape,
    {
        &self.shape
    }

    pub fn stride(&self) -> (r: &Vec<usize>)
        ensures
            r@ == self.strides@,
    {
        &self.strides
    }

    pub fn start_offset(&self) -> (r: usize)
        ensures
            r == self.start_offset,
    {
        self.start_offset
    }

    /// In-range logical positions land within the span.
    pub proof fn lemma_position_in_span(self, p: int)
        requires
            self.wf(),
            0 <= p < self.count(),
        ensures
            self.start_offset <= self.position_spec(p) <= self.span(),
    {
        lemma_positive_count_positive_dims(self.shape.dims@);
        lemma_strided_offset_in_span(self.shape.dims@, self.strides@, p);
    }

    /// Whether the view is the canonical dense one: row-major strides,
    /// each dimension's stride the product of the dimension sizes after
    /// it.
    pub open spec fn is_contiguous(self) -> bool {
        self.wf() && forall|j: int|
            0 <= j < self.rank_spec() ==> self.strides@[j] as int == contiguous_stride_of(
                self.shape.dims@,
                j,
            )
    }

    /// On a contiguous view with base offset zero, logical position and
    /// physical index coincide: dense iteration is the identity.
    pub proof fn lemma_contiguous_position_is_identity(self, p: int)
        requires
            self.is_contiguous(),
            self.start_offset == 0,
            0 <= p < self.count(),
        ensures
            self.position_spec(p) == p,
    {
        assert forall|j: int|
            0 <= j < self.rank_spec() implies self.strides@[j] as int == 1
            * contiguous_stride_of(self.shape.dims@, j) by {
        }
        lemma_scaled_offset_identity(self.shape.dims@, self.strides@, p, 1);
    }

    /// The canonical dense view of a shape: row-major strides and base
    /// offset zero, or `None` where a stride would not fit the machine
    /// word.
    pub fn contiguous(shape: Shape) -> (r: Option<Layout>)
        ensures
            match r {
                Some(l) => {
                    &&& l.shape == shape
                    &&& l.start_offset == 0
                    &&& l.is_contiguous()
                },
                None => exists|j: int|
                    0 <= j < shape.dims@.len() && dims_product(
                        #[trigger] shape.dims@.subrange(j, shape.dims@.len() as int),
                    ) > usize::MAX,
            },
    {
        let n = shape.rank();
        let mut strides: Vec<usize> = Vec::new();
        let mut q: usize = 0;
        while q < n
            invariant
                q <= n,
                strides@.len() == q,
            decreases n - q,
        {
            strides.push(0);
            q = q + 1;
        }
        let mut acc: usize = 1;
        let mut j: usize = n;
        proof {
            assert(shape.dims@.subrange(n as int, n as int) =~= Seq::<usize>::empty());
        }
        while j > 0
            invariant
                j <= n,
                n == shape.dims@.len(),
                strides@.len() == n,
                acc as int == dims_product(shape.dims@.subrange(j as int, n as int)),
                forall|t: int|
                    j <= t < n ==> strides@[t] as int == contiguous_stride_of(shape.dims@, t),
            decreases j,
        {
            j = j - 1;
            strides[j] = acc;
            let ghost tail = shape.dims@.subrange(j as int, n as int);
            let ghost single = tail.subrange(0, 1);
            proof {
                lemma_dims_product_split(tail, 1);
                assert(tail.subrange(1, (n - j) as int) =~= shape.dims@.subrange(
                    j as int + 1,
                    n as int,
                ));
                assert(single.drop_last() =~= Seq::<usize>::empty());
                assert(dims_product(single.drop_last()) == 1);
                assert(dims_product(single) == 1 * (single.last() as int));
                assert(single.last() == shape.dims@[j as int]);
            }
            let ghost acc0 = acc as int;
            let d = shape.dims()[j];
            acc = match acc.checked_mul(d) {
                Some(a) => {
                    proof {
                        vstd::arithmetic::mul::lemma_mul_is_commutative(acc0, d as int);
                    }
                    a
                },
                None => {
                    proof {
                        vstd::arithmetic::mul::lemma_mul_is_commutative(acc0, d as int);
                        assert(dims_product(tail) > usize::MAX);
                    }
                    return None;
                },
            };
        }
        Some(Layout { shape, strides, start_offset: 0 })
    }

    /// Decide the layout invariant against a buffer of length `len`: true
    /// iff every index reachable under (shape, strides, offset) addresses
    /// a valid element.
    pub fn fits(&self, len: usize) -> (r: bool)
        ensures
            r == self.fits_within(len as int),
    {
        let n = self.strides.len();
        if n != self.shape.rank() {
            return false;
        }
        match self.shape.checked_elem_count() {
            Some(count) => {
                if count == 0 {
                    return true;
                }
            },
            None => {},
        }
        proof {
            lemma_positive_count_positive_dims(self.shape.dims@);
            assert(self.shape.dims@.subrange(0, 0) =~= Seq::<usize>::empty());
            assert(self.strides@.subrange(0, 0) =~= Seq::<usize>::empty());
        }
        let dims = self.shape.dims();
        let mut acc: usize = self.start_offset;
        let mut j: usize = 0;
        while j < n
            invariant
                j <= n,
                n == dims@.len(),
                n == self.strides@.len(),
                dims@ == self.shape.dims@,
                self.count() > 0,
                forall|t: int| 0 <= t < n ==> dims@[t] > 0,
                acc == self.start_offset + strided_span(
                    dims@.subrange(0, j as int),
                    self.strides@.subrange(0, j as int),
                ),
            decreases n - j,
        {
            let ghost pre_dims = dims@.subrange(0, j as int);
            let ghost pre_strides = self.strides@.subrange(0, j as int);
            let d = dims[j];
            let s = self.strides[j];
            proof {
                assert(dims@.subrange(0, j + 1).drop_last() =~= pre_dims);
                assert(self.strides@.subrange(0, j + 1).drop_last() =~= pre_strides);
                assert(dims@.subrange(0, j + 1).last() == d);
                assert(self.strides@.subrange(0, j + 1).last() == s);
                lemma_strided_span_nonneg(pre_dims, pre_strides);
                lemma_mul_nonnegative(d - 1, s as int);
                lemma_strided_span_split(dims@, self.strides@, j + 1);
                lemma_strided_span_nonneg(
                    dims@.subrange(j + 1, n as int),
                    self.strides@.subrange(j + 1, n as int),
                );
            }
            let term = match (d - 1).checked_mul(s) {
                Some(t) => t,
                None => {
                    return false;
                },
            };
            acc = match acc.checked_add(term) {
                Some(a) => a,
                None => {
                    return false;
                },
            };
            j = j + 1;
        }
        proof {
            assert(dims@.subrange(0, n as int) =~= dims@);
            assert(self.strides@.subrange(0, n as int) =~= self.strides@);
        }
        acc < len
    }

    /// Whether this is a rank-3 view with the given dimension sizes.
    pub open spec fn has_dims3(self, a: int, b: int, c: int) -> bool {
        self.rank_spec() == 3 && self.shape.dims@[0] == a && self.shape.dims@[1] == b
            && self.shape.dims@[2] == c
    }

    /// Physical index of the element at multi-index (a, b, c) of a rank-3
    /// view.
    pub open spec fn position3_spec(self, a: int, b: int, c: int) -> int {
        self.start_offset + a * (self.strides@[0] as int) + b * (self.strides@[1] as int) + c * (
        self.strides@[2] as int)
    }

    /// Multi-index addressing of a rank-3 view stays within the span.
    pub proof fn lemma_position3_in_span(self, a: int, b: int, c: int)
        requires
            self.wf(),
            self.rank_spec() == 3,
            0 <= a < self.shape.dims@[0],
            0 <= b < self.shape.dims@[1],
            0 <= c < self.shape.dims@[2],
        ensures
            self.start_offset <= self.position3_spec(a, b, c) <= self.span(),
            a * (self.strides@[0] as int) >= 0,
            b * (self.strides@[1] as int) >= 0,
            c * (self.strides@[2] as int) >= 0,
    {
        let dims = self.shape.dims@;
        let strides = self.strides@;
        let d2 = dims.drop_last();
        let s2 = strides.drop_last();
        let d1 = d2.drop_last();
        let s1 = s2.drop_last();
        assert(d1.drop_last() =~= Seq::<usize>::empty());
        assert(dims.last() == dims[2] && strides.last() == strides[2]);
        assert(d2.last() == dims[1] && s2.last() == strides[1]);
        assert(d1.last() == dims[0] && s1.last() == strides[0]);
        assert(strided_span(d1.drop_last(), s1.drop_last()) == 0);
        assert(strided_span(d1, s1) == (dims[0] - 1) * (strides[0] as int));
        assert(strided_span(d2, s2) == (dims[1] - 1) * (strides[1] as int) + strided_span(d1, s1));
        assert(strided_span(dims, strides) == (dims[2] - 1) * (strides[2] as int) + strided_span(
            d2,
            s2,
        ));
        lemma_mul_nonnegative(a, strides[0] as int);
        lemma_mul_nonnegative(b, strides[1] as int);
        lemma_mul_nonnegative(c, strides[2] as int);
        lemma_mul_inequality(a, dims[0] - 1, strides[0] as int);
        lemma_mul_inequality(b, dims[1] - 1, strides[1] as int);
        lemma_mul_inequality(c, dims[2] - 1, strides[2] as int);
    }

    /// Physical index of the element at multi-index (a, b, c) of a rank-3
    /// view.
    pub fn position3(&self, a: usize, b: usize, c: usize) -> (r: usize)
        requires
            self.wf(),
            self.rank_spec() == 3,
            a < self.shape.dims@[0],
            b < self.shape.dims@[1],
            c < self.shape.dims@[2],
            self.span() <= usize::MAX,
        ensures
            r == self.position3_spec(a as int, b as int, c as int),
            self.start_offset <= r <= self.span(),
    {
        proof {
            self.lemma_position3_in_span(a as int, b as int, c as int);
        }
        self.start_offset + a * self.strides[0] + b * self.strides[1] + c * self.strides[2]
    }

    /// Physical index of the logical position `p`.
    pub fn position(&self, p: usize) -> (r: usize)
        requires
            self.wf(),
            p < self.count(),
            self.span() <= usize::MAX,
        ensures
            r == self.position_spec(p as int),
            self.start_offset <= r <= self.span(),
    {
        proof {
            self.lemma_position_in_span(p as int);
            lemma_positive_count_positive_dims(self.shape.dims@);
        }
        let dims = self.shape.dims();
        let n = self.strides.len();
        let mut j: usize = n;
        let mut rem: usize = p;
        let mut acc: usize = self.start_offset;
        proof {
            assert(dims@.subrange(0, n as int) =~= dims@);
            assert(self.strides@.subrange(0, n as int) =~= self.strides@);
        }
        while j > 0
            invariant
                j <= n,
                n == dims@.len(),
                n == self.strides@.len(),
                dims@ == self.shape.dims@,
                forall|t: int| 0 <= t < n ==> dims@[t] > 0,
                0 <= rem < dims_product(dims@.subrange(0, j as int)),
                acc + strided_offset(
                    dims@.subrange(0, j as int),
                    self.strides@.subrange(0, j as int),
                    rem as int,
                ) == self.position_spec(p as int),
                self.position_spec(p as int) <= self.span() <= usize::MAX,
            decreases j,
        {
            let ghost old_j = j as int;
            let ghost sub_dims = dims@.subrange(0, old_j);
            let ghost sub_strides = self.strides@.subrange(0, old_j);
            j = j - 1;
            let d = dims[j];
            let s = self.strides[j];
            let idx = rem % d;
            proof {
                assert(sub_dims.last() == d);
                assert(sub_strides.last() == s);
                assert(sub_dims.drop_last() =~= dims@.subrange(0, j as int));
                assert(sub_strides.drop_last() =~= self.strides@.subrange(0, j as int));
                lemma_mod_bound(rem as int, d as int);
                assert((rem as int / d as int) < dims_product(dims@.subrange(0, j as int))) by {
                    let fp = dims_product(dims@.subrange(0, j as int));
                    assert(dims_product(sub_dims) == fp * d);
                    assert((rem as int / d as int) < fp) by (nonlinear_arith)
                        requires
                            rem >= 0,
                            d > 0,
                            (rem as int) < fp * d,
                    ;
                }
                assert(rem as int / d as int >= 0) by (nonlinear_arith)
                    requires
                        rem >= 0,
                        d > 0,
                ;
                lemma_strided_offset_in_span(
                    dims@.subrange(0, j as int),
                    self.strides@.subrange(0, j as int),
                    rem as int / d as int,
                );
                lemma_mul_nonnegative(rem as int % d as int, s as int);
                assert((rem % d) as int == rem as int % d as int);
                assert((rem / d) as int == rem as int / d as int);
            }
            acc = acc + idx * s;
            rem = rem / d;
        }
        proof {
            assert(dims@.subrange(0, 0) =~= Seq::<usize>::empty());
        }
        acc
    }
}

} // verus!
