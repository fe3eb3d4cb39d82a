//! The dense row-major matrix container.
//!
//! A `Matrix<T>` owns its storage: a flat vector of `nrows * ncols`
//! scalars, the entry at `(i, j)` sitting at offset `i * ncols + j`.
//! Every operation's contract equates the result's model with the
//! corresponding [`crate::model`] operation.

use vstd::prelude::*;
use vstd::pervasive::VecAdditionalExecFns;

use crate::model::Mat;
use crate::model::dot;
use crate::model::lemma_dot_step;
use crate::model::lemma_rm_index_bound;
use crate::model::lemma_rm_index_recover;
use crate::model::lemma_rm_index_split;
use crate::model::lemma_take_all;
use crate::model::lemma_transpose_wf;
use crate::model::mat_add;
use crate::model::mat_col;
use crate::model::mat_hadamard;
use crate::model::mat_horcat;
use crate::model::mat_identity;
use crate::model::mat_kron;
use crate::model::mat_mul;
use crate::model::mat_row;
use crate::model::mat_row_scale;
use crate::model::mat_scale;
use crate::model::mat_sub;
use crate::model::mat_transpose;
use crate::model::mat_vercat;
use crate::model::mat_zero;
use crate::traits::One;
use crate::traits::Scalar;
use crate::traits::Zero;
use crate::vector::Vector;

verus! {

/// The fault a shape-checked operation signals instead of completing.
#[derive(Clone, Copy, Debug, PartialEq, Eq, Structural)]
pub enum MatError {
    /// The operands' shapes are incompatible, or a constructor was handed
    /// a number of values that does not match the requested shape.
    ShapeMismatch,
    /// The addressed position lies outside the container.
    IndexOutOfBounds,
}

/// A dense matrix stored row-major.
pub struct Matrix<T> {
    nrows: usize,
    ncols: usize,
    v: Vec<T>,
}

impl<T: Scalar> View for Matrix<T> {
    type V = Mat;

    closed spec fn view(&self) -> Mat {
        Mat {
            rows: self.nrows as int,
            cols: self.ncols as int,
            data: self.v@.map_values(|x: T| x.as_int()),
        }
    }
}

impl<T: Scalar> Matrix<T> {
    /// The stored shape agrees with the storage: the model is well-formed.
    pub open spec fn wf(self) -> bool {
        self@.wf()
    }

    /// Wraps storage already laid out row-major, without copying.
    pub(crate) fn from_raw(nrows: usize, ncols: usize, v: Vec<T>) -> (r: Matrix<T>)
        requires
            v@.len() == nrows * ncols,
        ensures
            r.wf(),
            r@.rows == nrows,
            r@.cols == ncols,
            r@.data == v@.map_values(|x: T| x.as_int()),
    {
        // The storage length is a machine word, so the shape's product fits one.
        let n = v.len();
        assert(n == nrows * ncols);
        Matrix { nrows, ncols, v }
    }

    /// Builds a matrix of the given shape from its row-major values.
    /// The values are copied; a count other than `nrows * ncols` is a
    /// shape mismatch.
    pub fn new(nrows: usize, ncols: usize, values: &Vec<T>) -> (res: Result<Matrix<T>, MatError>)
        ensures
            match res {
                Ok(m) => {
                    &&& values@.len() == nrows * ncols
                    &&& m.wf()
                    &&& m@.rows == nrows
                    &&& m@.cols == ncols
                    &&& m@.data == values@.map_values(|x: T| x.as_int())
                },
                Err(e) => {
                    &&& e == MatError::ShapeMismatch
                    &&& values@.len() != nrows * ncols
                },
            },
    {
        let n = values.len();
        let total = match nrows.checked_mul(ncols) {
            Some(t) => t,
            None => {
                return Err(MatError::ShapeMismatch);
            },
        };
        if n != total {
            return Err(MatError::ShapeMismatch);
        }
        let mut v: Vec<T> = Vec::new();
        let mut k: usize = 0;
        while k < n
            invariant
                k <= n,
                n == values@.len(),
                v@.len() == k,
                forall|x: int| 0 <= x < k ==> v@[x] == values@[x],
            decreases n - k,
        {
            v.push(values[k]);
            k = k + 1;
        }
        assert(v@ =~= values@);
        Ok(Matrix { nrows, ncols, v })
    }

    /// Builds a matrix from a sequence of rows, copied row-major. A row
    /// whose length differs from the first row's, or a total entry count
    /// beyond the machine word, is a shape mismatch.
    #[verifier::loop_isolation(false)]
    pub fn from_rows(rows: &Vec<Vec<T>>) -> (res: Result<Matrix<T>, MatError>)
        ensures
            match res {
                Ok(m) => {
                    &&& m.wf()
                    &&& m@.rows == rows@.len()
                    &&& (rows@.len() == 0 ==> m@.cols == 0)
                    &&& (rows@.len() > 0 ==> m@.cols == rows@[0]@.len())
                    &&& forall|i: int| 0 <= i < rows@.len() ==> rows@[i]@.len() == m@.cols
                    &&& forall|i: int, j: int|
                        0 <= i < m@.rows && 0 <= j < m@.cols ==> m@.ent(i, j)
                            == rows@[i]@[j].as_int()
                },
                Err(e) => {
                    &&& e == MatError::ShapeMismatch
                    &&& ((exists|i: int|
                        0 <= i < rows@.len() && #[trigger] rows@[i]@.len() != rows@[0]@.len())
                        || rows@.len() * rows@[0]@.len() > usize::MAX)
                },
            },
    {
        let r = rows.len();
        let c = if r == 0 {
            0
        } else {
            rows[0].len()
        };
        let mut i: usize = 0;
        while i < r
            invariant
                i <= r,
                forall|x: int| 0 <= x < i ==> rows@[x]@.len() == c,
            decreases r - i,
        {
            if rows[i].len() != c {
                return Err(MatError::ShapeMismatch);
            }
            i = i + 1;
        }
        let total = match r.checked_mul(c) {
            Some(t) => t,
            None => {
                return Err(MatError::ShapeMismatch);
            },
        };
        assert(total == r * c);
        let mut v: Vec<T> = Vec::new();
        let mut i2: usize = 0;
        while i2 < r
            invariant
                i2 <= r,
                v@.len() == i2 as int * c as int,
                forall|x: int| 0 <= x < i2 ==> rows@[x]@.len() == c,
                forall|x: int, y: int|
                    0 <= x < i2 && 0 <= y < c ==> v@[x * c + y].as_int() == rows@[x]@[y].as_int(),
            decreases r - i2,
        {
            let row = &rows[i2];
            let mut j: usize = 0;
            while j < c
                invariant
                    i2 < r,
                    j <= c,
                    v@.len() == i2 as int * c as int + j as int,
                    forall|x: int, y: int|
                        0 <= x < i2 && 0 <= y < c ==> v@[x * c + y].as_int() == rows@[x]@[
                            y
                        ].as_int(),
                    forall|y: int| 0 <= y < j ==> v@[i2 as int * c as int + y].as_int() == rows@[
                        i2 as int
                    ]@[y].as_int(),
                decreases c - j,
            {
                proof {
                    lemma_rm_index_bound(i2 as int, j as int, r as int, c as int);
                }
                v.push(row[j]);
                proof {
                    assert forall|x: int, y: int| 0 <= x < i2 && 0 <= y < c implies v@[x * c
                        + y].as_int() == rows@[x]@[y].as_int() by {
                        lemma_rm_index_bound(x, y, i2 as int, c as int);
                    }
                }
                j = j + 1;
            }
            proof {
                assert((i2 as int + 1) * c as int == i2 as int * c as int + c as int)
                    by (nonlinear_arith);
                assert forall|x: int, y: int| 0 <= x < i2 as int + 1 && 0 <= y < c implies v@[x * c
                    + y].as_int() == rows@[x]@[y].as_int() by {
                    lemma_rm_index_bound(x, y, i2 as int + 1, c as int);
                }
            }
            i2 = i2 + 1;
        }
        let m = Matrix { nrows: r, ncols: c, v };
        proof {
            assert forall|x: int, y: int| 0 <= x < m@.rows && 0 <= y < m@.cols implies m@.ent(x, y)
                == rows@[x]@[y].as_int() by {
                lemma_rm_index_bound(x, y, r as int, c as int);
            }
        }
        Ok(m)
    }

    /// The matrix of the given shape filled with the additive identity.
    pub fn new_zero(nrows: usize, ncols: usize) -> (r: Matrix<T>) where T: Zero
        requires
            nrows * ncols <= usize::MAX,
        ensures
            r.wf(),
            r@ == mat_zero(nrows as int, ncols as int),
    {
        let total = nrows * ncols;
        let mut v: Vec<T> = Vec::new();
        let mut k: usize = 0;
        while k < total
            invariant
                k <= total,
                v@.len() == k,
                forall|x: int| 0 <= x < k ==> v@[x].as_int() == 0,
            decreases total - k,
        {
            v.push(T::zero());
            k = k + 1;
        }
        let r = Matrix { nrows, ncols, v };
        proof {
            assert(r@.data =~= mat_zero(nrows as int, ncols as int).data);
            assert(r@ =~= mat_zero(nrows as int, ncols as int));
        }
        r
    }

    /// The identity matrix of order `n`: the multiplicative identity on
    /// the diagonal, the additive identity elsewhere.
    pub fn new_identity(n: usize) -> (r: Matrix<T>) where T: Zero + One
        requires
            n * n <= usize::MAX,
        ensures
            r.wf(),
            r@ == mat_identity(n as int),
    {
        let mut v: Vec<T> = Vec::new();
        let mut i: usize = 0;
        while i < n
            invariant
                i <= n,
                n * n <= usize::MAX,
                v@.len() == i * n,
                forall|x: int| 0 <= x < v@.len() ==> v@[x].as_int() == mat_identity(n as int).data[x],
            decreases n - i,
        {
            let mut j: usize = 0;
            while j < n
                invariant
                    i < n,
                    j <= n,
                    n * n <= usize::MAX,
                    v@.len() == i * n + j,
                    forall|x: int| 0 <= x < v@.len() ==> v@[x].as_int() == mat_identity(
                        n as int,
                    ).data[x],
                decreases n - j,
            {
                proof {
                    lemma_rm_index_bound(i as int, j as int, n as int, n as int);
                    lemma_rm_index_split(i as int, j as int, n as int);
                }
                if i == j {
                    v.push(T::one());
                } else {
                    v.push(T::zero());
                }
                j = j + 1;
            }
            proof {
                assert((i as int + 1) * (n as int) == i as int * (n as int) + n as int)
                    by (nonlinear_arith);
            }
            i = i + 1;
        }
        let r = Matrix { nrows: n, ncols: n, v };
        proof {
            assert(r@.data =~= mat_identity(n as int).data);
            assert(r@ =~= mat_identity(n as int));
        }
        r
    }

    /// The shape, as `(rows, cols)`.
    pub fn size(&self) -> (r: (usize, usize))
        ensures
            r.0 == self@.rows,
            r.1 == self@.cols,
    {
        (self.nrows, self.ncols)
    }

    /// The row count.
    pub fn nrows(&self) -> (r: usize)
        ensures
            r == self@.rows,
    {
        self.nrows
    }

    /// The column count.
    pub fn ncols(&self) -> (r: usize)
        ensures
            r == self@.cols,
    {
        self.ncols
    }

    /// Whether the matrix has as many rows as columns.
    pub fn is_square(&self) -> (r: bool)
        ensures
            r <==> self@.rows == self@.cols,
    {
        self.nrows == self.ncols
    }

    /// Reads the entry at `(i, j)`; a position outside the shape is an
    /// index fault.
    pub fn get(&self, i: usize, j: usize) -> (res: Result<T, MatError>)
        requires
            self.wf(),
        ensures
            match res {
                Ok(x) => {
                    &&& i < self@.rows
                    &&& j < self@.cols
                    &&& x.as_int() == self@.ent(i as int, j as int)
                },
                Err(e) => {
                    &&& e == MatError::IndexOutOfBounds
                    &&& !(i < self@.rows && j < self@.cols)
                },
            },
    {
        if i < self.nrows && j < self.ncols {
            proof {
                lemma_rm_index_bound(i as int, j as int, self@.rows, self@.cols);
            }
            Ok(self.v[i * self.ncols + j])
        } else {
            Err(MatError::IndexOutOfBounds)
        }
    }

    /// Writes the entry at `(i, j)`; a position outside the shape is an
    /// index fault and leaves the matrix unchanged.
    pub fn set(&mut self, i: usize, j: usize, value: T) -> (res: Result<(), MatError>)
        requires
            old(self).wf(),
        ensures
            final(self).wf(),
            final(self)@.rows == old(self)@.rows,
            final(self)@.cols == old(self)@.cols,
            match res {
                Ok(_) => {
                    &&& i < old(self)@.rows
                    &&& j < old(self)@.cols
                    &&& final(self)@.data == old(self)@.data.update(
                        i * old(self)@.cols + j,
                        value.as_int(),
                    )
                },
                Err(e) => {
                    &&& e == MatError::IndexOutOfBounds
                    &&& !(i < old(self)@.rows && j < old(self)@.cols)
                    &&& final(self)@ == old(self)@
                },
            },
    {
        if i < self.nrows && j < self.ncols {
            proof {
                lemma_rm_index_bound(i as int, j as int, self@.rows, self@.cols);
            }
            self.v.set(i * self.ncols + j, value);
            proof {
                let idx = i as int * old(self)@.cols + j;
                assert(self@.data =~= old(self)@.data.update(idx, value.as_int()));
            }
            Ok(())
        } else {
            Err(MatError::IndexOutOfBounds)
        }
    }

    /// Structural equality: true exactly when the shapes match and every
    /// pair of corresponding entries stands for the same integer.
    pub fn equals(&self, other: &Matrix<T>) -> (r: bool)
        requires
            self.wf(),
            other.wf(),
        ensures
            r <==> self@ == other@,
    {
        if self.nrows != other.nrows || self.ncols != other.ncols {
            return false;
        }
        let n = self.v.len();
        assert(other.v@.len() == n);
        let mut k: usize = 0;
        while k < n
            invariant
                k <= n,
                n == self.v@.len(),
                n == other.v@.len(),
                self@.rows == other@.rows,
                self@.cols == other@.cols,
                forall|x: int| 0 <= x < k ==> self@.data[x] == other@.data[x],
            decreases n - k,
        {
            if !self.v[k].eq_val(other.v[k]) {
                assert(self@.data[k as int] != other@.data[k as int]);
                return false;
            }
            k = k + 1;
        }
        proof {
            assert(self@.data =~= other@.data);
            assert(self@ =~= other@);
        }
        true
    }

    /// The row-major contents, copied out as a vector.
    pub fn iter(&self) -> (r: Vec<T>)
        requires
            self.wf(),
        ensures
            r@.map_values(|x: T| x.as_int()) == self@.data,
    {
        let n = self.v.len();
        let mut r: Vec<T> = Vec::new();
        let mut k: usize = 0;
        while k < n
            invariant
                k <= n,
                n == self.v@.len(),
                r@.len() == k,
                forall|x: int| 0 <= x < k ==> r@[x] == self.v@[x],
            decreases n - k,
        {
            r.push(self.v[k]);
            k = k + 1;
        }
        assert(r@.map_values(|x: T| x.as_int()) =~= self@.data);
        r
    }

    /// A deep copy: fresh storage holding the same model.
    pub fn duplicate(&self) -> (r: Matrix<T>)
        requires
            self.wf(),
        ensures
            r.wf(),
            r@ == self@,
    {
        let n = self.v.len();
        let mut nv: Vec<T> = Vec::new();
        let mut k: usize = 0;
        while k < n
            invariant
                k <= n,
                n == self.v@.len(),
                nv@.len() == k,
                forall|x: int| 0 <= x < k ==> nv@[x] == self.v@[x],
            decreases n - k,
        {
            nv.push(self.v[k]);
            k = k + 1;
        }
        let m = Matrix { nrows: self.nrows, ncols: self.ncols, v: nv };
        proof {
            assert(m@.data =~= self@.data);
            assert(m@ =~= self@);
        }
        m
    }

    /// Adds `other` elementwise in place. Differing shapes are a shape
    /// mismatch and leave the matrix unchanged.
    pub fn add(&mut self, other: &Matrix<T>) -> (res: Result<(), MatError>)
        requires
            old(self).wf(),
            other.wf(),
            (old(self)@.rows == other@.rows && old(self)@.cols == other@.cols) ==> forall|k: int|
                0 <= k < old(self)@.data.len() ==> T::in_range(
                    old(self)@.data[k] + other@.data[k],
                ),
        ensures
            final(self).wf(),
            (old(self)@.rows == other@.rows && old(self)@.cols == other@.cols) ==> (res == Ok::<
                (),
                MatError,
            >(()) && final(self)@ == mat_add(old(self)@, other@)),
            !(old(self)@.rows == other@.rows && old(self)@.cols == other@.cols) ==> (res == Err::<
                (),
                MatError,
            >(MatError::ShapeMismatch) && final(self)@ == old(self)@),
    {
        if self.nrows == other.nrows && self.ncols == other.ncols {
            proof {
                assert forall|k: int| 0 <= k < self.v@.len() implies T::in_range(
                    self.v@[k].as_int() + other.v@[k].as_int(),
                ) by {
                    assert(self@.data[k] == self.v@[k].as_int());
                    assert(other@.data[k] == other.v@[k].as_int());
                }
            }
            let nv = add_data(&self.v, &other.v);
            self.v = nv;
            proof {
                assert(self@.data =~= mat_add(old(self)@, other@).data);
                assert(self@ =~= mat_add(old(self)@, other@));
            }
            Ok(())
        } else {
            Err(MatError::ShapeMismatch)
        }
    }

    /// Subtracts `other` elementwise in place. Differing shapes are a
    /// shape mismatch and leave the matrix unchanged.
    pub fn sub(&mut self, other: &Matrix<T>) -> (res: Result<(), MatError>)
        requires
            old(self).wf(),
            other.wf(),
            (old(self)@.rows == other@.rows && old(self)@.cols == other@.cols) ==> forall|k: int|
                0 <= k < old(self)@.data.len() ==> T::in_range(
                    old(self)@.data[k] - other@.data[k],
                ),
        ensures
            final(self).wf(),
            (old(self)@.rows == other@.rows && old(self)@.cols == other@.cols) ==> (res == Ok::<
                (),
                MatError,
            >(()) && final(self)@ == mat_sub(old(self)@, other@)),
            !(old(self)@.rows == other@.rows && old(self)@.cols == other@.cols) ==> (res == Err::<
                (),
                MatError,
            >(MatError::ShapeMismatch) && final(self)@ == old(self)@),
    {
        if self.nrows == other.nrows && self.ncols == other.ncols {
            proof {
                assert forall|k: int| 0 <= k < self.v@.len() implies T::in_range(
                    self.v@[k].as_int() - other.v@[k].as_int(),
                ) by {
                    assert(self@.data[k] == self.v@[k].as_int());
                    assert(other@.data[k] == other.v@[k].as_int());
                }
            }
            let nv = sub_data(&self.v, &other.v);
            self.v = nv;
            proof {
                assert(self@.data =~= mat_sub(old(self)@, other@).data);
                assert(self@ =~= mat_sub(old(self)@, other@));
            }
            Ok(())
        } else {
            Err(MatError::ShapeMismatch)
        }
    }

    /// Multiplies by `other` elementwise (the Hadamard product) in place.
    /// Differing shapes are a shape mismatch and leave the matrix
    /// unchanged.
    pub fn hadamard(&mut self, other: &Matrix<T>) -> (res: Result<(), MatError>)
        requires
            old(self).wf(),
            other.wf(),
            (old(self)@.rows == other@.rows && old(self)@.cols == other@.cols) ==> forall|k: int|
                0 <= k < old(self)@.data.len() ==> T::in_range(
                    old(self)@.data[k] * other@.data[k],
                ),
        ensures
            final(self).wf(),
            (old(self)@.rows == other@.rows && old(self)@.cols == other@.cols) ==> (res == Ok::<
                (),
                MatError,
            >(()) && final(self)@ == mat_hadamard(old(self)@, other@)),
            !(old(self)@.rows == other@.rows && old(self)@.cols == other@.cols) ==> (res == Err::<
                (),
                MatError,
            >(MatError::ShapeMismatch) && final(self)@ == old(self)@),
    {
        if self.nrows == other.nrows && self.ncols == other.ncols {
            proof {
                assert forall|k: int| 0 <= k < self.v@.len() implies T::in_range(
                    self.v@[k].as_int() * other.v@[k].as_int(),
                ) by {
                    assert(self@.data[k] == self.v@[k].as_int());
                    assert(other@.data[k] == other.v@[k].as_int());
                }
            }
            let nv = mul_data(&self.v, &other.v);
            self.v = nv;
            proof {
                assert(self@.data =~= mat_hadamard(old(self)@, other@).data);
                assert(self@ =~= mat_hadamard(old(self)@, other@));
            }
            Ok(())
        } else {
            Err(MatError::ShapeMismatch)
        }
    }

    /// Multiplies every entry by `c` in place.
    pub fn scalar(&mut self, c: T)
        requires
            old(self).wf(),
            forall|k: int| 0 <= k < old(self)@.data.len() ==> T::in_range(
                old(self)@.data[k] * c.as_int(),
            ),
        ensures
            final(self).wf(),
            final(self)@ == mat_scale(old(self)@, c.as_int()),
    {
        proof {
            assert forall|k: int| 0 <= k < self.v@.len() implies T::in_range(
                self.v@[k].as_int() * c.as_int(),
            ) by {
                assert(self@.data[k] == self.v@[k].as_int());
            }
        }
        let nv = scale_data(&self.v, c);
        self.v = nv;
        proof {
            assert(self@.data =~= mat_scale(old(self)@, c.as_int()).data);
            assert(self@ =~= mat_scale(old(self)@, c.as_int()));
        }
    }

    /// The elementwise sum of `self` and `other`, as a new matrix.
    /// Differing shapes are a shape mismatch.
    pub fn plus(&self, other: &Matrix<T>) -> (res: Result<Matrix<T>, MatError>)
        requires
            self.wf(),
            other.wf(),
            (self@.rows == other@.rows && self@.cols == other@.cols) ==> forall|k: int|
                0 <= k < self@.data.len() ==> T::in_range(self@.data[k] + other@.data[k]),
        ensures
            match res {
                Ok(m) => {
                    &&& self@.rows == other@.rows
                    &&& self@.cols == other@.cols
                    &&& m.wf()
                    &&& m@ == mat_add(self@, other@)
                },
                Err(e) => {
                    &&& e == MatError::ShapeMismatch
                    &&& !(self@.rows == other@.rows && self@.cols == other@.cols)
                },
            },
    {
        if self.nrows == other.nrows && self.ncols == other.ncols {
            proof {
                assert forall|k: int| 0 <= k < self.v@.len() implies T::in_range(
                    self.v@[k].as_int() + other.v@[k].as_int(),
                ) by {
                    assert(self@.data[k] == self.v@[k].as_int());
                    assert(other@.data[k] == other.v@[k].as_int());
                }
            }
            let nv = add_data(&self.v, &other.v);
            let m = Matrix { nrows: self.nrows, ncols: self.ncols, v: nv };
            proof {
                assert(m@.data =~= mat_add(self@, other@).data);
                assert(m@ =~= mat_add(self@, other@));
            }
            Ok(m)
        } else {
            Err(MatError::ShapeMismatch)
        }
    }

    /// The elementwise difference of `self` and `other`, as a new matrix.
    /// Differing shapes are a shape mismatch.
    pub fn minus(&self, other: &Matrix<T>) -> (res: Result<Matrix<T>, MatError>)
        requires
            self.wf(),
            other.wf(),
            (self@.rows == other@.rows && self@.cols == other@.cols) ==> forall|k: int|
                0 <= k < self@.data.len() ==> T::in_range(self@.data[k] - other@.data[k]),
        ensures
            match res {
                Ok(m) => {
                    &&& self@.rows == other@.rows
                    &&& self@.cols == other@.cols
                    &&& m.wf()
                    &&& m@ == mat_sub(self@, other@)
                },
                Err(e) => {
                    &&& e == MatError::ShapeMismatch
                    &&& !(self@.rows == other@.rows && self@.cols == other@.cols)
                },
            },
    {
        if self.nrows == other.nrows && self.ncols == other.ncols {
            proof {
                assert forall|k: int| 0 <= k < self.v@.len() implies T::in_range(
                    self.v@[k].as_int() - other.v@[k].as_int(),
                ) by {
                    assert(self@.data[k] == self.v@[k].as_int());
                    assert(other@.data[k] == other.v@[k].as_int());
                }
            }
            let nv = sub_data(&self.v, &other.v);
            let m = Matrix { nrows: self.nrows, ncols: self.ncols, v: nv };
            proof {
                assert(m@.data =~= mat_sub(self@, other@).data);
                assert(m@ =~= mat_sub(self@, other@));
            }
            Ok(m)
        } else {
            Err(MatError::ShapeMismatch)
        }
    }

    /// Every entry multiplied by `c`, as a new matrix.
    pub fn scaled(&self, c: T) -> (r: Matrix<T>)
        requires
            self.wf(),
            forall|k: int| 0 <= k < self@.data.len() ==> T::in_range(self@.data[k] * c.as_int()),
        ensures
            r.wf(),
            r@ == mat_scale(self@, c.as_int()),
    {
        proof {
            assert forall|k: int| 0 <= k < self.v@.len() implies T::in_range(
                self.v@[k].as_int() * c.as_int(),
            ) by {
                assert(self@.data[k] == self.v@[k].as_int());
            }
        }
        let nv = scale_data(&self.v, c);
        let m = Matrix { nrows: self.nrows, ncols: self.ncols, v: nv };
        proof {
            assert(m@.data =~= mat_scale(self@, c.as_int()).data);
            assert(m@ =~= mat_scale(self@, c.as_int()));
        }
        m
    }

    /// Transposes in place: the entry at `(i, j)` becomes the old entry
    /// at `(j, i)`, and the shape swaps.
    #[verifier::loop_isolation(false)]
    pub fn transpose(&mut self)
        requires
            old(self).wf(),
        ensures
            final(self).wf(),
            final(self)@ == mat_transpose(old(self)@),
    {
        let nrows = self.nrows;
        let ncols = self.ncols;
        let ghost t = mat_transpose(old(self)@);
        let mut nv: Vec<T> = Vec::new();
        let mut col: usize = 0;
        while col < ncols
            invariant
                col <= ncols,
                nv@.len() == col as int * nrows as int,
                forall|x: int| 0 <= x < nv@.len() ==> nv@[x].as_int() == t.data[x],
            decreases ncols - col,
        {
            let mut row: usize = 0;
            while row < nrows
                invariant
                    row <= nrows,
                    col < ncols,
                    nv@.len() == col as int * nrows as int + row as int,
                    forall|x: int| 0 <= x < nv@.len() ==> nv@[x].as_int() == t.data[x],
                decreases nrows - row,
            {
                proof {
                    lemma_rm_index_bound(row as int, col as int, nrows as int, ncols as int);
                    lemma_rm_index_bound(col as int, row as int, ncols as int, nrows as int);
                    lemma_rm_index_split(col as int, row as int, nrows as int);
                }
                nv.push(self.v[row * ncols + col]);
                row = row + 1;
            }
            proof {
                assert((col as int + 1) * nrows as int == col as int * nrows as int + nrows as int)
                    by (nonlinear_arith);
            }
            col = col + 1;
        }
        self.v = nv;
        self.nrows = ncols;
        self.ncols = nrows;
        proof {
            lemma_transpose_wf(old(self)@);
            assert(self@.data =~= t.data);
            assert(self@ =~= t);
        }
    }

    /// Appends the rows of `other` below the rows of `self`, in place.
    /// Differing column counts are a shape mismatch and leave the matrix
    /// unchanged.
    #[verifier::loop_isolation(false)]
    pub fn vercat(&mut self, other: &Matrix<T>) -> (res: Result<(), MatError>)
        requires
            old(self).wf(),
            other.wf(),
            old(self)@.cols == other@.cols ==> old(self)@.rows + other@.rows <= usize::MAX,
            old(self)@.cols == other@.cols ==> (old(self)@.rows + other@.rows) * old(self)@.cols
                <= usize::MAX,
        ensures
            final(self).wf(),
            old(self)@.cols == other@.cols ==> (res == Ok::<(), MatError>(()) && final(self)@
                == mat_vercat(old(self)@, other@)),
            old(self)@.cols != other@.cols ==> (res == Err::<(), MatError>(
                MatError::ShapeMismatch,
            ) && final(self)@ == old(self)@),
    {
        if self.ncols == other.ncols {
            let n = other.v.len();
            let ghost l1 = old(self).v@.len() as int;
            let mut k: usize = 0;
            while k < n
                invariant
                    k <= n,
                    self.nrows == old(self).nrows,
                    self.ncols == old(self).ncols,
                    self.v@.len() == l1 + k,
                    forall|x: int| 0 <= x < l1 ==> self.v@[x] == old(self).v@[x],
                    forall|x: int| 0 <= x < k ==> self.v@[l1 + x] == other.v@[x],
                decreases n - k,
            {
                self.v.push(other.v[k]);
                k = k + 1;
            }
            self.nrows = self.nrows + other.nrows;
            proof {
                let r1 = old(self)@.rows;
                let r2 = other@.rows;
                let c = old(self)@.cols;
                assert((r1 + r2) * c == r1 * c + r2 * c) by (nonlinear_arith);
                assert(self@.data =~= mat_vercat(old(self)@, other@).data);
                assert(self@ =~= mat_vercat(old(self)@, other@));
            }
            Ok(())
        } else {
            Err(MatError::ShapeMismatch)
        }
    }

    /// Appends the columns of `other` to the right of the columns of
    /// `self`, row by row, in place. Differing row counts are a shape
    /// mismatch and leave the matrix unchanged.
    #[verifier::loop_isolation(false)]
    pub fn horcat(&mut self, other: &Matrix<T>) -> (res: Result<(), MatError>)
        requires
            old(self).wf(),
            other.wf(),
            old(self)@.rows == other@.rows ==> old(self)@.cols + other@.cols <= usize::MAX,
            old(self)@.rows == other@.rows ==> old(self)@.rows * (old(self)@.cols + other@.cols)
                <= usize::MAX,
        ensures
            final(self).wf(),
            old(self)@.rows == other@.rows ==> (res == Ok::<(), MatError>(()) && final(self)@
                == mat_horcat(old(self)@, other@)),
            old(self)@.rows != other@.rows ==> (res == Err::<(), MatError>(
                MatError::ShapeMismatch,
            ) && final(self)@ == old(self)@),
    {
        if self.nrows == other.nrows {
            let nrows = self.nrows;
            let c1 = self.ncols;
            let c2 = other.ncols;
            let cboth = c1 + c2;
            let ghost t = mat_horcat(old(self)@, other@);
            let mut nv: Vec<T> = Vec::new();
            let mut i: usize = 0;
            while i < nrows
                invariant
                    i <= nrows,
                    nv@.len() == i as int * cboth as int,
                    forall|x: int| 0 <= x < nv@.len() ==> nv@[x].as_int() == t.data[x],
                decreases nrows - i,
            {
                let mut j: usize = 0;
                while j < c1
                    invariant
                        i < nrows,
                        j <= c1,
                        nv@.len() == i as int * cboth as int + j as int,
                        forall|x: int| 0 <= x < nv@.len() ==> nv@[x].as_int() == t.data[x],
                    decreases c1 - j,
                {
                    proof {
                        lemma_rm_index_bound(i as int, j as int, nrows as int, c1 as int);
                        lemma_rm_index_bound(i as int, j as int, nrows as int, cboth as int);
                        lemma_rm_index_split(i as int, j as int, cboth as int);
                    }
                    nv.push(self.v[i * c1 + j]);
                    j = j + 1;
                }
                let mut j2: usize = 0;
                while j2 < c2
                    invariant
                        i < nrows,
                        j2 <= c2,
                        nv@.len() == i as int * cboth as int + c1 as int + j2 as int,
                        forall|x: int| 0 <= x < nv@.len() ==> nv@[x].as_int() == t.data[x],
                    decreases c2 - j2,
                {
                    proof {
                        lemma_rm_index_bound(i as int, j2 as int, nrows as int, c2 as int);
                        lemma_rm_index_bound(i as int, c1 as int + j2 as int, nrows as int, cboth as int);
                        lemma_rm_index_split(i as int, c1 as int + j2 as int, cboth as int);
                    }
                    nv.push(other.v[i * c2 + j2]);
                    j2 = j2 + 1;
                }
                proof {
                    assert((i as int + 1) * cboth as int == i as int * cboth as int
                        + cboth as int) by (nonlinear_arith);
                }
                i = i + 1;
            }
            self.v = nv;
            self.ncols = cboth;
            proof {
                assert(self@.data =~= t.data);
                assert(self@ =~= t);
            }
            Ok(())
        } else {
            Err(MatError::ShapeMismatch)
        }
    }

    /// The matrix product `self * other`, as a new matrix: entry `(i, j)`
    /// is the dot product of row `i` of `self` and column `j` of `other`,
    /// summed left to right from the additive identity. A column count of
    /// `self` that differs from the row count of `other` is a shape
    /// mismatch.
    #[verifier::loop_isolation(false)]
    pub fn matmul(&self, other: &Matrix<T>) -> (res: Result<Matrix<T>, MatError>) where T: Zero
        requires
            self.wf(),
            other.wf(),
            self@.cols == other@.rows ==> self@.rows * other@.cols <= usize::MAX,
            self@.cols == other@.rows ==> forall|i: int, j: int, k: int|
                #![trigger self@.ent(i, k), other@.ent(k, j)]
                0 <= i < self@.rows && 0 <= j < other@.cols && 0 <= k < self@.cols ==> T::in_range(
                    self@.ent(i, k) * other@.ent(k, j),
                ),
            self@.cols == other@.rows ==> forall|i: int, j: int, k: int|
                #![trigger mat_row(self@, i).take(k), mat_col(other@, j).take(k)]
                0 <= i < self@.rows && 0 <= j < other@.cols && 0 <= k <= self@.cols
                    ==> T::in_range(dot(mat_row(self@, i).take(k), mat_col(other@, j).take(k))),
        ensures
            match res {
                Ok(m) => {
                    &&& self@.cols == other@.rows
                    &&& m.wf()
                    &&& m@ == mat_mul(self@, other@)
                },
                Err(e) => {
                    &&& e == MatError::ShapeMismatch
                    &&& self@.cols != other@.rows
                },
            },
    {
        if self.ncols != other.nrows {
            return Err(MatError::ShapeMismatch);
        }
        let r1 = self.nrows;
        let c1 = self.ncols;
        let c2 = other.ncols;
        let ghost t = mat_mul(self@, other@);
        let mut nv: Vec<T> = Vec::new();
        let mut i: usize = 0;
        while i < r1
            invariant
                i <= r1,
                nv@.len() == i as int * c2 as int,
                forall|x: int| 0 <= x < nv@.len() ==> nv@[x].as_int() == t.data[x],
            decreases r1 - i,
        {
            let mut j: usize = 0;
            while j < c2
                invariant
                    i < r1,
                    j <= c2,
                    nv@.len() == i as int * c2 as int + j as int,
                    forall|x: int| 0 <= x < nv@.len() ==> nv@[x].as_int() == t.data[x],
                decreases c2 - j,
            {
                let ghost row = mat_row(self@, i as int);
                let ghost colv = mat_col(other@, j as int);
                proof {
                    assert(row.take(0) =~= Seq::<int>::empty());
                    assert(colv.take(0) =~= Seq::<int>::empty());
                }
                let mut acc: T = T::zero();
                let mut k: usize = 0;
                while k < c1
                    invariant
                        i < r1,
                        j < c2,
                        k <= c1,
                        acc.as_int() == dot(row.take(k as int), colv.take(k as int)),
                    decreases c1 - k,
                {
                    proof {
                        lemma_rm_index_bound(i as int, k as int, r1 as int, c1 as int);
                        lemma_rm_index_bound(k as int, j as int, c1 as int, c2 as int);
                    }
                    let a = self.v[i * c1 + k];
                    let b = other.v[k * c2 + j];
                    proof {
                        assert(a.as_int() == self@.ent(i as int, k as int));
                        assert(b.as_int() == other@.ent(k as int, j as int));
                        assert(row[k as int] == self@.ent(i as int, k as int));
                        assert(colv[k as int] == other@.ent(k as int, j as int));
                        lemma_dot_step(row, colv, k as int);
                        assert(T::in_range(
                            self@.ent(i as int, k as int) * other@.ent(k as int, j as int),
                        ));
                        assert(T::in_range(dot(row.take(k as int + 1), colv.take(k as int + 1))));
                    }
                    let p = a.mul_val(b);
                    acc = acc.add_val(p);
                    k = k + 1;
                }
                proof {
                    lemma_take_all(row);
                    lemma_take_all(colv);
                    lemma_rm_index_bound(i as int, j as int, r1 as int, c2 as int);
                    lemma_rm_index_split(i as int, j as int, c2 as int);
                }
                nv.push(acc);
                j = j + 1;
            }
            proof {
                assert((i as int + 1) * c2 as int == i as int * c2 as int + c2 as int)
                    by (nonlinear_arith);
            }
            i = i + 1;
        }
        let m = Matrix { nrows: r1, ncols: c2, v: nv };
        proof {
            assert(m@.data =~= t.data);
            assert(m@ =~= t);
        }
        Ok(m)
    }

    /// The Kronecker product of `self` and `other`: a new matrix of shape
    /// `(rows1 * rows2, cols1 * cols2)` whose entry at
    /// `(sr * rows2 + p, sc * cols2 + q)` is the product of the entries
    /// of `self` at `(sr, sc)` and of `other` at `(p, q)`, each output
    /// cell written exactly once.
    #[verifier::loop_isolation(false)]
    pub fn kronecker(&self, other: &Matrix<T>) -> (r: Matrix<T>)
        requires
            self.wf(),
            other.wf(),
            self@.rows * other@.rows <= usize::MAX,
            self@.cols * other@.cols <= usize::MAX,
            (self@.rows * other@.rows) * (self@.cols * other@.cols) <= usize::MAX,
            forall|sr: int, sc: int, p: int, q: int|
                #![trigger self@.ent(sr, sc), other@.ent(p, q)]
                0 <= sr < self@.rows && 0 <= sc < self@.cols && 0 <= p < other@.rows && 0 <= q
                    < other@.cols ==> T::in_range(self@.ent(sr, sc) * other@.ent(p, q)),
        ensures
            r.wf(),
            r@ == mat_kron(self@, other@),
    {
        let r2 = other.nrows;
        let c2 = other.ncols;
        let rout = self.nrows * r2;
        let cout = self.ncols * c2;
        let ghost t = mat_kron(self@, other@);
        let mut nv: Vec<T> = Vec::new();
        let mut i: usize = 0;
        while i < rout
            invariant
                i <= rout,
                nv@.len() == i as int * cout as int,
                forall|x: int| 0 <= x < nv@.len() ==> nv@[x].as_int() == t.data[x],
            decreases rout - i,
        {
            let mut j: usize = 0;
            while j < cout
                invariant
                    i < rout,
                    j <= cout,
                    nv@.len() == i as int * cout as int + j as int,
                    forall|x: int| 0 <= x < nv@.len() ==> nv@[x].as_int() == t.data[x],
                decreases cout - j,
            {
                proof {
                    assert(r2 as int > 0 && c2 as int > 0) by (nonlinear_arith)
                        requires
                            (i as int) < (rout as int),
                            (j as int) < (cout as int),
                            rout as int == self@.rows * r2 as int,
                            cout as int == self@.cols * c2 as int,
                            self@.rows >= 0,
                            r2 as int >= 0,
                            self@.cols >= 0,
                            c2 as int >= 0,
                    ;
                    lemma_rm_index_recover(i as int, self@.rows, r2 as int);
                    lemma_rm_index_recover(j as int, self@.cols, c2 as int);
                }
                let sr = i / r2;
                let p = i % r2;
                let sc = j / c2;
                let q = j % c2;
                proof {
                    lemma_rm_index_bound(sr as int, sc as int, self@.rows, self@.cols);
                    lemma_rm_index_bound(p as int, q as int, r2 as int, c2 as int);
                    lemma_rm_index_bound(i as int, j as int, rout as int, cout as int);
                    lemma_rm_index_split(i as int, j as int, cout as int);
                }
                let a = self.v[sr * self.ncols + sc];
                let b = other.v[p * c2 + q];
                proof {
                    assert(a.as_int() == self@.ent(sr as int, sc as int));
                    assert(b.as_int() == other@.ent(p as int, q as int));
                    assert(T::in_range(self@.ent(sr as int, sc as int) * other@.ent(p as int, q as int)));
                }
                let val = a.mul_val(b);
                nv.push(val);
                j = j + 1;
            }
            proof {
                assert((i as int + 1) * cout as int == i as int * cout as int + cout as int)
                    by (nonlinear_arith);
            }
            i = i + 1;
        }
        let m = Matrix { nrows: rout, ncols: cout, v: nv };
        proof {
            assert(m@.data =~= t.data);
            assert(m@ =~= t);
        }
        m
    }

    /// Scales every entry of row `i` by element `i` of `other`, for each
    /// row: a per-row broadcast, not a matrix-vector product. A vector
    /// length that differs from the row count is a shape mismatch and
    /// leaves the matrix unchanged.
    #[verifier::loop_isolation(false)]
    pub fn mul_vector(&mut self, other: &Vector<T>) -> (res: Result<(), MatError>)
        requires
            old(self).wf(),
            old(self)@.rows == other@.len() ==> forall|i: int, j: int|
                #![trigger old(self)@.ent(i, j)]
                0 <= i < old(self)@.rows && 0 <= j < old(self)@.cols ==> T::in_range(
                    old(self)@.ent(i, j) * other@[i],
                ),
        ensures
            final(self).wf(),
            old(self)@.rows == other@.len() ==> (res == Ok::<(), MatError>(()) && final(self)@
                == mat_row_scale(old(self)@, other@)),
            old(self)@.rows != other@.len() ==> (res == Err::<(), MatError>(
                MatError::ShapeMismatch,
            ) && final(self)@ == old(self)@),
    {
        if self.nrows == other.len() {
            let nrows = self.nrows;
            let ncols = self.ncols;
            let ghost t = mat_row_scale(old(self)@, other@);
            let mut nv: Vec<T> = Vec::new();
            let mut i: usize = 0;
            while i < nrows
                invariant
                    i <= nrows,
                    nv@.len() == i as int * ncols as int,
                    forall|x: int| 0 <= x < nv@.len() ==> nv@[x].as_int() == t.data[x],
                decreases nrows - i,
            {
                let w = other.get_unchecked(i);
                let mut j: usize = 0;
                while j < ncols
                    invariant
                        i < nrows,
                        j <= ncols,
                        w.as_int() == other@[i as int],
                        nv@.len() == i as int * ncols as int + j as int,
                        forall|x: int| 0 <= x < nv@.len() ==> nv@[x].as_int() == t.data[x],
                    decreases ncols - j,
                {
                    proof {
                        lemma_rm_index_bound(i as int, j as int, nrows as int, ncols as int);
                        lemma_rm_index_split(i as int, j as int, ncols as int);
                        assert(self.v@[i as int * ncols as int + j as int].as_int() == old(
                            self,
                        )@.ent(i as int, j as int));
                        assert(T::in_range(old(self)@.ent(i as int, j as int) * other@[i as int]));
                    }
                    let a = self.v[i * ncols + j];
                    nv.push(a.mul_val(w));
                    j = j + 1;
                }
                proof {
                    assert((i as int + 1) * ncols as int == i as int * ncols as int
                        + ncols as int) by (nonlinear_arith);
                }
                i = i + 1;
            }
            self.v = nv;
            proof {
                assert(self@.data =~= t.data);
                assert(self@ =~= t);
            }
            Ok(())
        } else {
            Err(MatError::ShapeMismatch)
        }
    }
}

/// Elementwise sums of two equal-length vectors of scalars.
fn add_data<T: Scalar>(a: &Vec<T>, b: &Vec<T>) -> (r: Vec<T>)
    requires
        a@.len() == b@.len(),
        forall|k: int| 0 <= k < a@.len() ==> T::in_range(a@[k].as_int() + b@[k].as_int()),
    ensures
        r@.len() == a@.len(),
        forall|k: int| 0 <= k < a@.len() ==> r@[k].as_int() == a@[k].as_int() + b@[k].as_int(),
{
    let n = a.len();
    let mut r: Vec<T> = Vec::new();
    let mut k: usize = 0;
    while k < n
        invariant
            k <= n,
            n == a@.len(),
            n == b@.len(),
            forall|x: int| 0 <= x < n ==> T::in_range(a@[x].as_int() + b@[x].as_int()),
            r@.len() == k,
            forall|x: int| 0 <= x < k ==> r@[x].as_int() == a@[x].as_int() + b@[x].as_int(),
        decreases n - k,
    {
        r.push(a[k].add_val(b[k]));
        k = k + 1;
    }
    r
}

/// Elementwise differences of two equal-length vectors of scalars.
fn sub_data<T: Scalar>(a: &Vec<T>, b: &Vec<T>) -> (r: Vec<T>)
    requires
        a@.len() == b@.len(),
        forall|k: int| 0 <= k < a@.len() ==> T::in_range(a@[k].as_int() - b@[k].as_int()),
    ensures
        r@.len() == a@.len(),
        forall|k: int| 0 <= k < a@.len() ==> r@[k].as_int() == a@[k].as_int() - b@[k].as_int(),
{
    let n = a.len();
    let mut r: Vec<T> = Vec::new();
    let mut k: usize = 0;
    while k < n
        invariant
            k <= n,
            n == a@.len(),
            n == b@.len(),
            forall|x: int| 0 <= x < n ==> T::in_range(a@[x].as_int() - b@[x].as_int()),
            r@.len() == k,
            forall|x: int| 0 <= x < k ==> r@[x].as_int() == a@[x].as_int() - b@[x].as_int(),
        decreases n - k,
    {
        r.push(a[k].sub_val(b[k]));
        k = k + 1;
    }
    r
}

/// Elementwise products of two equal-length vectors of scalars.
fn mul_data<T: Scalar>(a: &Vec<T>, b: &Vec<T>) -> (r: Vec<T>)
    requires
        a@.len() == b@.len(),
        forall|k: int| 0 <= k < a@.len() ==> T::in_range(a@[k].as_int() * b@[k].as_int()),
    ensures
        r@.len() == a@.len(),
        forall|k: int| 0 <= k < a@.len() ==> r@[k].as_int() == a@[k].as_int() * b@[k].as_int(),
{
    let n = a.len();
    let mut r: Vec<T> = Vec::new();
    let mut k: usize = 0;
    while k < n
        invariant
            k <= n,
            n == a@.len(),
            n == b@.len(),
            forall|x: int| 0 <= x < n ==> T::in_range(a@[x].as_int() * b@[x].as_int()),
            r@.len() == k,
            forall|x: int| 0 <= x < k ==> r@[x].as_int() == a@[x].as_int() * b@[x].as_int(),
        decreases n - k,
    {
        r.push(a[k].mul_val(b[k]));
        k = k + 1;
    }
    r
}

/// Every element of a vector of scalars multiplied by `c`.
fn scale_data<T: Scalar>(a: &Vec<T>, c: T) -> (r: Vec<T>)
    requires
        forall|k: int| 0 <= k < a@.len() ==> T::in_range(a@[k].as_int() * c.as_int()),
    ensures
        r@.len() == a@.len(),
        forall|k: int| 0 <= k < a@.len() ==> r@[k].as_int() == a@[k].as_int() * c.as_int(),
{
    let n = a.len();
    let mut r: Vec<T> = Vec::new();
    let mut k: usize = 0;
    while k < n
        invariant
            k <= n,
            n == a@.len(),
            forall|x: int| 0 <= x < n ==> T::in_range(a@[x].as_int() * c.as_int()),
            r@.len() == k,
            forall|x: int| 0 <= x < k ==> r@[x].as_int() == a@[x].as_int() * c.as_int(),
        decreases n - k,
    {
        r.push(a[k].mul_val(c));
        k = k + 1;
    }
    r
}

} // verus!
