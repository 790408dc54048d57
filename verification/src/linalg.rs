//! A small fixed-size integer vector with a verified dot product.

use vstd::prelude::*;

verus! {

/// A vector of integers of a fixed size.
#[derive(Debug)]
pub struct Vector {
    inner: Vec<i64>,
}

impl View for Vector {
    type V = Seq<i64>;

    closed spec fn view(&self) -> Seq<i64> {
        self.inner@
    }
}

/// The dot product of the first `n` entries of `a` and `b`.
pub open spec fn dot_prefix(a: Seq<i64>, b: Seq<i64>, n: int) -> int
    decreases n,
{
    if n <= 0 {
        0
    } else {
        dot_prefix(a, b, n - 1) + a[n - 1] * b[n - 1]
    }
}

impl Vector {
    /// A vector of `size` copies of `item`.
    pub fn new(size: usize, item: i64) -> (v: Vector)
        ensures
            v@.len() == size,
            forall|i: int| 0 <= i < size ==> v@[i] == item,
    {
        let mut inner: Vec<i64> = Vec::new();
        let mut i: usize = 0;
        while i < size
            invariant
                0 <= i <= size,
                inner@.len() == i,
                forall|k: int| 0 <= k < i ==> inner@[k] == item,
            decreases size - i,
        {
            inner.push(item);
            i = i + 1;
        }
        Vector { inner }
    }

    /// The dot product over this vector's length; `rhs` may be longer,
    /// and its extra entries play no part.
    pub fn dot(&self, rhs: &Vector) -> (r: i64)
        requires
            self@.len() <= rhs@.len(),
            forall|i: int|
                0 <= i < self@.len() ==> i64::MIN <= #[trigger] (self@[i] * rhs@[i]) <= i64::MAX,
            forall|n: int|
                0 <= n <= self@.len() ==> i64::MIN <= #[trigger] dot_prefix(self@, rhs@, n)
                    <= i64::MAX,
        ensures
            r == dot_prefix(self@, rhs@, self@.len() as int),
    {
        let mut sum: i64 = 0;
        let mut i: usize = 0;
        while i < self.inner.len()
            invariant
                self@.len() <= rhs@.len(),
                forall|k: int|
                    0 <= k < self@.len() ==> i64::MIN <= #[trigger] (self@[k] * rhs@[k])
                        <= i64::MAX,
                forall|n: int|
                    0 <= n <= self@.len() ==> i64::MIN <= #[trigger] dot_prefix(self@, rhs@, n)
                        <= i64::MAX,
                0 <= i <= self@.len(),
                sum == dot_prefix(self@, rhs@, i as int),
            decreases self@.len() - i,
        {
            let p = self.inner[i] * rhs.inner[i];
            proof {
                assert(p == self@[i as int] * rhs@[i as int]);
                assert(dot_prefix(self@, rhs@, i + 1 as int) == dot_prefix(self@, rhs@, i as int)
                    + self@[i as int] * rhs@[i as int]);
            }
            sum = sum + p;
            i = i + 1;
        }
        sum
    }
}

} // verus!
