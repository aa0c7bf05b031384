use vstd::prelude::*;

use crate::errors::MultiplyError;

verus! {

/// A one-dimensional sequence of matrix elements: a row or a column copied
/// out of a matrix by value, so a worker that receives one shares no state
/// with the source matrix.
pub struct Vector {
    pub(crate) data: Vec<i64>,
}

impl View for Vector {
    type V = Seq<i64>;

    closed spec fn view(&self) -> Seq<i64> {
        self.data@
    }
}

impl Vector {
    pub fn new(data: Vec<i64>) -> (r: Vector)
        ensures
            r@ == data@,
    {
        Vector { data }
    }

    pub fn len(&self) -> (n: usize)
        ensures
            n == self@.len(),
    {
        self.data.len()
    }
}

/// The sum of the pairwise products of the first `n` elements of `x` and `y`.
pub open spec fn dot_partial(x: Seq<i64>, y: Seq<i64>, n: int) -> int
    decreases n,
{
    if n <= 0 {
        0
    } else {
        dot_partial(x, y, n - 1) + x[n - 1] * y[n - 1]
    }
}

/// The dot product of two equal-length sequences: the sum of the pairwise
/// products, starting from the additive identity (so it is 0 when empty).
pub open spec fn dot_spec(x: Seq<i64>, y: Seq<i64>) -> int {
    dot_partial(x, y, x.len() as int)
}

/// Every pairwise product and every partial sum of the dot product stays
/// within the element type. The machine computes the reduction stepwise,
/// so this is exactly what keeps each step representable.
pub open spec fn dot_in_bounds(x: Seq<i64>, y: Seq<i64>) -> bool {
    &&& forall|k: int|
        0 <= k < x.len() ==> i64::MIN <= #[trigger] x[k] * y[k] <= i64::MAX
    &&& forall|n: int|
        0 <= n <= x.len() ==> i64::MIN <= #[trigger] dot_partial(x, y, n) <= i64::MAX
}

/// Decides `dot_in_bounds` by running the reduction with checked
/// arithmetic, so an unverified caller can test it before asking for the
/// dot product itself.
pub fn dot_within_bounds(x: &Vector, y: &Vector) -> (r: bool)
    requires
        x@.len() == y@.len(),
    ensures
        r == dot_in_bounds(x@, y@),
{
    let n = x.data.len();
    let mut sum: i64 = 0;
    let mut i: usize = 0;
    while i < n
        invariant
            n == x@.len(),
            n == y@.len(),
            i <= n,
            forall|k: int| 0 <= k < i ==> i64::MIN <= #[trigger] x@[k] * y@[k] <= i64::MAX,
            forall|m: int|
                0 <= m <= i ==> i64::MIN <= #[trigger] dot_partial(x@, y@, m) <= i64::MAX,
            sum == dot_partial(x@, y@, i as int),
        decreases n - i,
    {
        match x.data[i].checked_mul(y.data[i]) {
            Some(p) => {
                match sum.checked_add(p) {
                    Some(next) => {
                        proof {
                            assert(dot_partial(x@, y@, i as int + 1) == dot_partial(
                                x@,
                                y@,
                                i as int,
                            ) + x@[i as int] * y@[i as int]);
                        }
                        sum = next;
                    },
                    None => {
                        proof {
                            assert(dot_partial(x@, y@, i as int + 1) == dot_partial(
                                x@,
                                y@,
                                i as int,
                            ) + x@[i as int] * y@[i as int]);
                            assert(!(i64::MIN <= dot_partial(x@, y@, i as int + 1) <= i64::MAX));
                            assert(!dot_in_bounds(x@, y@));
                        }
                        return false;
                    },
                }
            },
            None => {
                proof {
                    assert(!(i64::MIN <= x@[i as int] * y@[i as int] <= i64::MAX));
                    assert(!dot_in_bounds(x@, y@));
                }
                return false;
            },
        }
        i = i + 1;
    }
    true
}

/// The pure reduction at the heart of the kernel: fails exactly on a length
/// mismatch, and otherwise returns the exact sum of pairwise products, with
/// the empty pair of sequences summing to zero.
pub fn dot_product(a: Vector, b: Vector) -> (r: Result<i64, MultiplyError>)
    requires
        a@.len() == b@.len() ==> dot_in_bounds(a@, b@),
    ensures
        a@.len() != b@.len() ==> r == Err::<i64, MultiplyError>(MultiplyError::LengthMismatch),
        a@.len() == b@.len() ==> (r matches Ok(v) && v == dot_spec(a@, b@)),
{
    if a.data.len() != b.data.len() {
        return Err(MultiplyError::LengthMismatch);
    }
    let n = a.data.len();
    let mut sum: i64 = 0;
    let mut i: usize = 0;
    while i < n
        invariant
            n == a@.len(),
            n == b@.len(),
            i <= n,
            dot_in_bounds(a@, b@),
            sum == dot_partial(a@, b@, i as int),
        decreases n - i,
    {
        proof {
            assert(i64::MIN <= a@[i as int] * b@[i as int] <= i64::MAX);
            assert(dot_partial(a@, b@, i as int + 1) == dot_partial(a@, b@, i as int) + a@[i as int]
                * b@[i as int]);
            assert(i64::MIN <= dot_partial(a@, b@, i as int + 1) <= i64::MAX);
        }
        let p: i64 = a.data[i] * b.data[i];
        sum = sum + p;
        i = i + 1;
    }
    Ok(sum)
}

} // verus!
