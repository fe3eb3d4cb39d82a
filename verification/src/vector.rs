//! The dense vector container.
//!
//! A `Vector<T>` owns a flat sequence of scalars. Its model is the
//! sequence of the integers its elements stand for; elementwise
//! arithmetic, the dot product, and the consuming conversions to
//! one-row and one-column matrices are stated over that model.

use vstd::prelude::*;
use vstd::pervasive::VecAdditionalExecFns;

use crate::matrix::MatError;
use crate::matrix::Matrix;
use crate::model::dot;
use crate::model::lemma_dot_step;
use crate::model::lemma_take_all;
use crate::traits::Scalar;
use crate::traits::Zero;

verus! {

/// A dense vector of scalars.
pub struct Vector<T> {
    v: Vec<T>,
}

impl<T: Scalar> View for Vector<T> {
    type V = Seq<int>;

    closed spec fn view(&self) -> Seq<int> {
        self.v@.map_values(|x: T| x.as_int())
    }
}

impl<T: Scalar> Vector<T> {
    /// Builds a vector from the given values, copied in order.
    pub fn new(values: &Vec<T>) -> (r: Vector<T>)
        ensures
            r@ == values@.map_values(|x: T| x.as_int()),
    {
        let n = values.len();
        let mut v: Vec<T> = Vec::new();
        let mut k: usize = 0;
        while k < n
            invariant
                k <= n,
                n == values@.len(),
                v@.len() == k,
                forall|x: int| 0 <= x < k ==> v@[x] == values@[x],
            decreases n - k,
        {
            v.push(values[k]);
            k = k + 1;
        }
        assert(v@ =~= values@);
        let r = Vector { v };
        assert(r@ =~= values@.map_values(|x: T| x.as_int()));
        r
    }

    /// A vector of `count` additive identities.
    pub fn new_zero(count: usize) -> (r: Vector<T>) where T: Zero
        ensures
            r@.len() == count,
            forall|k: int| 0 <= k < count ==> r@[k] == 0,
    {
        let mut v: Vec<T> = Vec::new();
        let mut k: usize = 0;
        while k < count
            invariant
                k <= count,
                v@.len() == k,
                forall|x: int| 0 <= x < k ==> v@[x].as_int() == 0,
            decreases count - k,
        {
            v.push(T::zero());
            k = k + 1;
        }
        Vector { v }
    }

    /// The element count.
    pub fn len(&self) -> (r: usize)
        ensures
            r == self@.len(),
    {
        self.v.len()
    }

    /// The element count, as the original container family names it.
    pub fn size(&self) -> (r: usize)
        ensures
            r == self@.len(),
    {
        self.v.len()
    }

    /// Reads the element at `i`; a position past the end is an index
    /// fault.
    pub fn get(&self, i: usize) -> (res: Result<T, MatError>)
        ensures
            match res {
                Ok(x) => {
                    &&& i < self@.len()
                    &&& x.as_int() == self@[i as int]
                },
                Err(e) => {
                    &&& e == MatError::IndexOutOfBounds
                    &&& i >= self@.len()
                },
            },
    {
        if i < self.v.len() {
            Ok(self.v[i])
        } else {
            Err(MatError::IndexOutOfBounds)
        }
    }

    /// Writes the element at `i`; a position past the end is an index
    /// fault and leaves the vector unchanged.
    pub fn set(&mut self, i: usize, value: T) -> (res: Result<(), MatError>)
        ensures
            match res {
                Ok(_) => {
                    &&& i < old(self)@.len()
                    &&& final(self)@ == old(self)@.update(i as int, value.as_int())
                },
                Err(e) => {
                    &&& e == MatError::IndexOutOfBounds
                    &&& i >= old(self)@.len()
                    &&& final(self)@ == old(self)@
                },
            },
    {
        if i < self.v.len() {
            self.v.set(i, value);
            proof {
                assert(self@ =~= old(self)@.update(i as int, value.as_int()));
            }
            Ok(())
        } else {
            Err(MatError::IndexOutOfBounds)
        }
    }

    /// Reads the element at `i` without the bounds test; for the
    /// containers of this crate, which establish the bound themselves.
    pub(crate) fn get_unchecked(&self, i: usize) -> (r: T)
        requires
            i < self@.len(),
        ensures
            r.as_int() == self@[i as int],
    {
        self.v[i]
    }

    /// Adds `other` elementwise in place. Differing lengths are a shape
    /// mismatch and leave the vector unchanged.
    #[verifier::loop_isolation(false)]
    pub fn add(&mut self, other: &Vector<T>) -> (res: Result<(), MatError>)
        requires
            old(self)@.len() == other@.len() ==> forall|k: int|
                0 <= k < old(self)@.len() ==> T::in_range(old(self)@[k] + other@[k]),
        ensures
            old(self)@.len() == other@.len() ==> {
                &&& res == Ok::<(), MatError>(())
                &&& final(self)@.len() == old(self)@.len()
                &&& forall|k: int| 0 <= k < old(self)@.len() ==> final(self)@[k] == old(self)@[k]
                    + other@[k]
            },
            old(self)@.len() != other@.len() ==> (res == Err::<(), MatError>(
                MatError::ShapeMismatch,
            ) && final(self)@ == old(self)@),
    {
        if self.v.len() == other.v.len() {
            let n = self.v.len();
            let mut nv: Vec<T> = Vec::new();
            let mut k: usize = 0;
            while k < n
                invariant
                    k <= n,
                    nv@.len() == k,
                    forall|x: int| 0 <= x < k ==> nv@[x].as_int() == old(self)@[x] + other@[x],
                decreases n - k,
            {
                proof {
                    assert(old(self)@[k as int] == self.v@[k as int].as_int());
                    assert(other@[k as int] == other.v@[k as int].as_int());
                }
                nv.push(self.v[k].add_val(other.v[k]));
                k = k + 1;
            }
            self.v = nv;
            Ok(())
        } else {
            Err(MatError::ShapeMismatch)
        }
    }

    /// Subtracts `other` elementwise in place. Differing lengths are a
    /// shape mismatch and leave the vector unchanged.
    #[verifier::loop_isolation(false)]
    pub fn sub(&mut self, other: &Vector<T>) -> (res: Result<(), MatError>)
        requires
            old(self)@.len() == other@.len() ==> forall|k: int|
                0 <= k < old(self)@.len() ==> T::in_range(old(self)@[k] - other@[k]),
        ensures
            old(self)@.len() == other@.len() ==> {
                &&& res == Ok::<(), MatError>(())
                &&& final(self)@.len() == old(self)@.len()
                &&& forall|k: int| 0 <= k < old(self)@.len() ==> final(self)@[k] == old(self)@[k]
                    - other@[k]
            },
            old(self)@.len() != other@.len() ==> (res == Err::<(), MatError>(
                MatError::ShapeMismatch,
            ) && final(self)@ == old(self)@),
    {
        if self.v.len() == other.v.len() {
            let n = self.v.len();
            let mut nv: Vec<T> = Vec::new();
            let mut k: usize = 0;
            while k < n
                invariant
                    k <= n,
                    nv@.len() == k,
                    forall|x: int| 0 <= x < k ==> nv@[x].as_int() == old(self)@[x] - other@[x],
                decreases n - k,
            {
                proof {
                    assert(old(self)@[k as int] == self.v@[k as int].as_int());
                    assert(other@[k as int] == other.v@[k as int].as_int());
                }
                nv.push(self.v[k].sub_val(other.v[k]));
                k = k + 1;
            }
            self.v = nv;
            Ok(())
        } else {
            Err(MatError::ShapeMismatch)
        }
    }

    /// Multiplies every element by `c` in place.
    #[verifier::loop_isolation(false)]
    pub fn scalar(&mut self, c: T)
        requires
            forall|k: int| 0 <= k < old(self)@.len() ==> T::in_range(old(self)@[k] * c.as_int()),
        ensures
            final(self)@.len() == old(self)@.len(),
            forall|k: int| 0 <= k < old(self)@.len() ==> final(self)@[k] == old(self)@[k]
                * c.as_int(),
    {
        let n = self.v.len();
        let mut nv: Vec<T> = Vec::new();
        let mut k: usize = 0;
        while k < n
            invariant
                k <= n,
                nv@.len() == k,
                forall|x: int| 0 <= x < k ==> nv@[x].as_int() == old(self)@[x] * c.as_int(),
            decreases n - k,
        {
            proof {
                assert(old(self)@[k as int] == self.v@[k as int].as_int());
            }
            nv.push(self.v[k].mul_val(c));
            k = k + 1;
        }
        self.v = nv;
    }

    /// The dot product of two equal-length vectors: the sum of the
    /// elementwise products, accumulated left to right from the additive
    /// identity. Differing lengths are a shape mismatch.
    #[verifier::loop_isolation(false)]
    pub fn dot(&self, other: &Vector<T>) -> (res: Result<T, MatError>) where T: Zero
        requires
            self@.len() == other@.len() ==> forall|k: int|
                0 <= k < self@.len() ==> T::in_range(self@[k] * other@[k]),
            self@.len() == other@.len() ==> forall|k: int|
                #![trigger self@.take(k), other@.take(k)]
                0 <= k <= self@.len() ==> T::in_range(dot(self@.take(k), other@.take(k))),
        ensures
            match res {
                Ok(x) => {
                    &&& self@.len() == other@.len()
                    &&& x.as_int() == dot(self@, other@)
                },
                Err(e) => {
                    &&& e == MatError::ShapeMismatch
                    &&& self@.len() != other@.len()
                },
            },
    {
        if self.v.len() != other.v.len() {
            return Err(MatError::ShapeMismatch);
        }
        let n = self.v.len();
        proof {
            assert(self@.take(0) =~= Seq::<int>::empty());
            assert(other@.take(0) =~= Seq::<int>::empty());
        }
        let mut acc: T = T::zero();
        let mut k: usize = 0;
        while k < n
            invariant
                k <= n,
                acc.as_int() == dot(self@.take(k as int), other@.take(k as int)),
            decreases n - k,
        {
            proof {
                lemma_dot_step(self@, other@, k as int);
                assert(T::in_range(self@[k as int] * other@[k as int]));
                assert(T::in_range(dot(self@.take(k as int + 1), other@.take(k as int + 1))));
            }
            let p = self.v[k].mul_val(other.v[k]);
            acc = acc.add_val(p);
            k = k + 1;
        }
        proof {
            lemma_take_all(self@);
            lemma_take_all(other@);
        }
        Ok(acc)
    }

    /// Structural equality: true exactly when the lengths match and every
    /// pair of corresponding elements stands for the same integer.
    pub fn equals(&self, other: &Vector<T>) -> (r: bool)
        ensures
            r <==> self@ == other@,
    {
        if self.v.len() != other.v.len() {
            assert(self@.len() != other@.len());
            return false;
        }
        let n = self.v.len();
        let mut k: usize = 0;
        while k < n
            invariant
                k <= n,
                n == self.v@.len(),
                n == other.v@.len(),
                forall|x: int| 0 <= x < k ==> self@[x] == other@[x],
            decreases n - k,
        {
            if !self.v[k].eq_val(other.v[k]) {
                assert(self@[k as int] != other@[k as int]);
                return false;
            }
            k = k + 1;
        }
        proof {
            assert(self@ =~= other@);
        }
        true
    }

    /// The row-major contents, copied out as a vector of scalars.
    pub fn iter(&self) -> (r: Vec<T>)
        ensures
            r@.map_values(|x: T| x.as_int()) == self@,
    {
        let n = self.v.len();
        let mut r: Vec<T> = Vec::new();
        let mut k: usize = 0;
        while k < n
            invariant
                k <= n,
                n == self.v@.len(),
                r@.len() == k,
                forall|x: int| 0 <= x < k ==> r@[x] == self.v@[x],
            decreases n - k,
        {
            r.push(self.v[k]);
            k = k + 1;
        }
        assert(r@.map_values(|x: T| x.as_int()) =~= self@);
        r
    }

    /// A deep copy: fresh storage holding the same model.
    pub fn duplicate(&self) -> (r: Vector<T>)
        ensures
            r@ == self@,
    {
        let n = self.v.len();
        let mut nv: Vec<T> = Vec::new();
        let mut k: usize = 0;
        while k < n
            invariant
                k <= n,
                n == self.v@.len(),
                nv@.len() == k,
                forall|x: int| 0 <= x < k ==> nv@[x] == self.v@[x],
            decreases n - k,
        {
            nv.push(self.v[k]);
            k = k + 1;
        }
        let r = Vector { v: nv };
        proof {
            assert(r@ =~= self@);
        }
        r
    }

    /// Consumes the vector into a `1 x n` matrix that reuses its storage.
    pub fn to_row_matrix(self) -> (m: Matrix<T>)
        ensures
            m.wf(),
            m@.rows == 1,
            m@.cols == self@.len(),
            m@.data == self@,
    {
        let n = self.v.len();
        Matrix::from_raw(1, n, self.v)
    }

    /// Consumes the vector into an `n x 1` matrix that reuses its storage.
    pub fn to_col_matrix(self) -> (m: Matrix<T>)
        ensures
            m.wf(),
            m@.rows == self@.len(),
            m@.cols == 1,
            m@.data == self@,
    {
        let n = self.v.len();
        Matrix::from_raw(n, 1, self.v)
    }
}

} // verus!
