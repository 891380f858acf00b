//! Vectors and their dot product.
use vstd::prelude::*;

use crate::error::{Error, Result};

verus! {

/// A vector of elements, read as the sequence of its elements.
#[derive(Debug)]
pub struct Vector<T> {
    data: Vec<T>,
}

impl<T> View for Vector<T> {
    type V = Seq<T>;

    closed spec fn view(&self) -> Seq<T> {
        self.data@
    }
}

impl<T> Vector<T> {
    /// A vector holding `data`.
    pub fn new(data: Vec<T>) -> (v: Self)
        ensures
            v@ == data@,
    {
        Vector { data }
    }
}

impl<T> core::ops::Deref for Vector<T> {
    type Target = Vec<T>;

    /// The elements, as a vector of the standard library.
    fn deref(&self) -> (v: &Vec<T>)
        ensures
            v@ == self@,
    {
        &self.data
    }
}

/// The sum of `a[k] * b[k]` over the first `n` positions.
pub open spec fn dot(a: Seq<i64>, b: Seq<i64>, n: nat) -> int
    decreases n,
{
    if n == 0 {
        0
    } else {
        dot(a, b, (n - 1) as nat) + a[n - 1] * b[n - 1]
    }
}

/// Every product and every running sum of the dot product of `a` and `b`
/// fits in an `i64`, so that computing it does not overflow.
pub open spec fn dot_fits(a: Seq<i64>, b: Seq<i64>) -> bool {
    forall|k: int|
        0 <= k < a.len() ==> {
            &&& i64::MIN <= #[trigger] (a[k] * b[k]) <= i64::MAX
            &&& i64::MIN <= dot(a, b, (k + 1) as nat) <= i64::MAX
        }
}

/// The dot product of two vectors of equal length.
///
/// Vectors of different lengths give `DotProductLengthMismatch` with both lengths.
pub fn dot_product(a: Vector<i64>, b: Vector<i64>) -> (r: Result<i64>)
    requires
        a@.len() == b@.len() ==> dot_fits(a@, b@),
    ensures
        a@.len() != b@.len() ==> r == Err::<i64, Error>(
            Error::DotProductLengthMismatch { a: a@.len() as usize, b: b@.len() as usize },
        ),
        a@.len() == b@.len() ==> r == Ok::<i64, Error>(dot(a@, b@, a@.len()) as i64),
{
    let n = a.len();
    if n != b.len() {
        return Err(Error::DotProductLengthMismatch { a: a.len(), b: b.len() });
    }
    let mut sum: i64 = 0;
    let mut i: usize = 0;
    while i < n
        invariant
            n == a@.len(),
            n == b@.len(),
            dot_fits(a@, b@),
            i <= n,
            sum == dot(a@, b@, i as nat),
        decreases n - i,
    {
        let x = a.data[i];
        let y = b.data[i];
        assert(i64::MIN <= x * y <= i64::MAX);
        assert(i64::MIN <= dot(a@, b@, (i + 1) as nat) <= i64::MAX);
        sum = sum + x * y;
        i = i + 1;
    }
    Ok(sum)
}

/// Whether computing the dot product of `a` and `b`, of equal length,
/// stays inside `i64` at every step.
pub fn dot_product_fits(a: &Vector<i64>, b: &Vector<i64>) -> (r: bool)
    requires
        a@.len() == b@.len(),
    ensures
        r == dot_fits(a@, b@),
{
    let n = a.data.len();
    let mut sum: i64 = 0;
    let mut i: usize = 0;
    while i < n
        invariant
            n == a@.len(),
            n == b@.len(),
            i <= n,
            sum == dot(a@, b@, i as nat),
            forall|k: int|
                0 <= k < i ==> {
                    &&& i64::MIN <= #[trigger] (a@[k] * b@[k]) <= i64::MAX
                    &&& i64::MIN <= dot(a@, b@, (k + 1) as nat) <= i64::MAX
                },
        decreases n - i,
    {
        let x = a.data[i];
        let y = b.data[i];
        match x.checked_mul(y) {
            None => {
                return false;
            },
            Some(p) => match sum.checked_add(p) {
                None => {
                    return false;
                },
                Some(t) => {
                    sum = t;
                },
            },
        }
        i = i + 1;
    }
    true
}

/// The dot product does not depend on the order of its two vectors.
pub proof fn lemma_dot_symmetric(a: Seq<i64>, b: Seq<i64>, n: nat)
    ensures
        dot(a, b, n) == dot(b, a, n),
    decreases n,
{
    if n > 0 {
        lemma_dot_symmetric(a, b, (n - 1) as nat);
        assert(a[n - 1] * b[n - 1] == b[n - 1] * a[n - 1]) by (nonlinear_arith);
    }
}

} // verus!
