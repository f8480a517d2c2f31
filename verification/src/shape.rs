use vstd::prelude::*;
use vstd::arithmetic::mul::{
    lemma_mul_inequality, lemma_mul_is_associative, lemma_mul_strictly_positive,
};
use crate::error::Error;

verus! {

/// Product of a sequence of dimension sizes: the element count of the shape
/// they describe.
pub open spec fn dims_product(dims: Seq<usize>) -> int
    decreases dims.len(),
{
    if dims.len() == 0 {
        1
    } else {
        dims_product(dims.drop_last()) * (dims.last() as int)
    }
}

/// A shape whose every dimension is positive describes at least one element.
pub proof fn lemma_dims_product_positive(dims: Seq<usize>)
    requires
        forall|j: int| 0 <= j < dims.len() ==> dims[j] > 0,
    ensures
        dims_product(dims) >= 1,
    decreases dims.len(),
{
    if dims.len() > 0 {
        lemma_dims_product_positive(dims.drop_last());
        lemma_mul_strictly_positive(dims_product(dims.drop_last()), dims.last() as int);
    }
}

/// A zero anywhere among the dimensions makes the element count zero.
pub proof fn lemma_dims_product_zero(dims: Seq<usize>, j: int)
    requires
        0 <= j < dims.len(),
        dims[j] == 0,
    ensures
        dims_product(dims) == 0,
    decreases dims.len(),
{
    if j == dims.len() - 1 {
        assert(dims.last() == dims[j]);
        assert(dims_product(dims) == dims_product(dims.drop_last()) * 0);
        vstd::arithmetic::mul::lemma_mul_by_zero_is_zero(dims_product(dims.drop_last()));
    } else {
        lemma_dims_product_zero(dims.drop_last(), j);
    }
}

/// The element count splits at any cut point into the product of the front
/// dimensions times the product of the back dimensions.
pub proof fn lemma_dims_product_split(dims: Seq<usize>, k: int)
    requires
        0 <= k <= dims.len(),
    ensures
        dims_product(dims) == dims_product(dims.subrange(0, k))
            * dims_product(dims.subrange(k, dims.len() as int)),
    decreases dims.len(),
{
    let n = dims.len() as int;
    if k == n {
        assert(dims.subrange(0, k) =~= dims);
        assert(dims_product(dims.subrange(k, n)) == 1);
    } else {
        let front = dims.drop_last();
        lemma_dims_product_split(front, k);
        assert(dims.subrange(0, k) =~= front.subrange(0, k));
        assert(dims.subrange(k, n).drop_last() =~= front.subrange(k, n - 1));
        assert(dims.subrange(k, n).last() == dims.last());
        lemma_mul_is_associative(
            dims_product(dims.subrange(0, k)),
            dims_product(front.subrange(k, n - 1)),
            dims.last() as int,
        );
    }
}

/// Ordered sequence of dimension sizes; the total element count is their
/// product.
#[derive(Clone, Debug, PartialEq, Eq)]
pub struct Shape {
    pub dims: Vec<usize>,
}

impl Shape {
    pub open spec fn dims_spec(self) -> Seq<usize> {
        self.dims@
    }

    /// Total number of elements the shape describes.
    pub open spec fn count(self) -> int {
        dims_product(self.dims@)
    }

    pub fn from_dims(dims: Vec<usize>) -> (r: Shape)
        ensures
            r.dims_spec() == dims@,
    {
        Shape { dims }
    }

    pub fn rank(&self) -> (r: usize)
        ensures
            r == self.dims_spec().len(),
    {
        self.dims.len()
    }

    pub fn dims(&self) -> (r: &Vec<usize>)
        ensures
            r@ == self.dims_spec(),
    {
        &self.dims
    }

    /// The size of one dimension; the axis must name one of the shape's
    /// dimensions.
    pub fn dim(&self, axis: usize) -> (r: Result<usize, Error>)
        ensures
            axis < self.dims_spec().len() ==> r == Ok::<usize, Error>(self.dims_spec()[axis as int]),
            axis >= self.dims_spec().len() ==> r == Err::<usize, Error>(
                Error::OutOfBoundsIndex { axis },
            ),
    {
        if axis < self.dims.len() {
            Ok(self.dims[axis])
        } else {
            Err(Error::OutOfBoundsIndex { axis })
        }
    }

    /// Element count, or `None` where the mathematical product does not fit
    /// the machine word.
    pub fn checked_elem_count(&self) -> (r: Option<usize>)
        ensures
            match r {
                Some(n) => n == self.count(),
                None => self.count() > usize::MAX,
            },
    {
        let n = self.dims.len();
        let mut i: usize = 0;
        while i < n
            invariant
                i <= n,
                n == self.dims@.len(),
                forall|j: int| 0 <= j < i ==> self.dims@[j] > 0,
            decreases n - i,
        {
            if self.dims[i] == 0 {
                proof {
                    lemma_dims_product_zero(self.dims@, i as int);
                }
                return Some(0);
            }
            i = i + 1;
        }
        let mut acc: usize = 1;
        let mut k: usize = 0;
        proof {
            assert(self.dims@.subrange(0, 0) =~= Seq::<usize>::empty());
        }
        while k < n
            invariant
                k <= n,
                n == self.dims@.len(),
                forall|j: int| 0 <= j < n ==> self.dims@[j] > 0,
                acc == dims_product(self.dims@.subrange(0, k as int)),
            decreases n - k,
        {
            let d = self.dims[k];
            proof {
                assert(self.dims@.subrange(0, k + 1).drop_last()
                    =~= self.dims@.subrange(0, k as int));
                assert(self.dims@.subrange(0, k + 1).last() == self.dims@[k as int]);
            }
            match acc.checked_mul(d) {
                Some(next) => {
                    acc = next;
                }
                None => {
                    proof {
                        let whole = self.dims@;
                        lemma_dims_product_split(whole, k + 1);
                        let back = whole.subrange(k + 1, whole.len() as int);
                        assert(forall|j: int| 0 <= j < back.len() ==> back[j] > 0);
                        lemma_dims_product_positive(back);
                        lemma_mul_inequality(1, dims_product(back), acc * d as int);
                        vstd::arithmetic::mul::lemma_mul_is_commutative(
                            dims_product(back), acc * d as int);
                    }
                    return None;
                }
            }
            k = k + 1;
        }
        proof {
            assert(self.dims@.subrange(0, n as int) =~= self.dims@);
        }
        Some(acc)
    }

    /// Whether two shapes list the same dimension sizes.
    pub fn same_dims(&self, other: &Shape) -> (r: bool)
        ensures
            r == (self.dims@ == other.dims@),
    {
        let n = self.dims.len();
        if n != other.dims.len() {
            return false;
        }
        let mut i: usize = 0;
        while i < n
            invariant
                i <= n,
                n == self.dims@.len(),
                n == other.dims@.len(),
                forall|j: int| 0 <= j < i ==> self.dims@[j] == other.dims@[j],
            decreases n - i,
        {
            if self.dims[i] != other.dims[i] {
                return false;
            }
            i = i + 1;
        }
        proof {
            assert(self.dims@ =~= other.dims@);
        }
        true
    }

    /// Element count; the caller already knows it fits the machine word.
    pub fn elem_count(&self) -> (r: usize)
        requires
            self.count() <= usize::MAX,
        ensures
            r == self.count(),
    {
        match self.checked_elem_count() {
            Some(n) => n,
            None => {
                proof {
                    assert(false);
                }
                0
            }
        }
    }
}

} // verus!
