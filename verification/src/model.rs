//! The mathematical model of dense row-major matrices.
//!
//! A [`Mat`] is a shape together with a flat row-major sequence of
//! mathematical integers. The executable containers state their contracts
//! as equalities between such models, and the algebraic laws of the
//! library are proved here once, over the model alone.

use vstd::prelude::*;
use vstd::arithmetic::div_mod::lemma_fundamental_div_mod;
use vstd::arithmetic::div_mod::lemma_fundamental_div_mod_converse;
use vstd::arithmetic::div_mod::lemma_mod_bound;
use vstd::arithmetic::mul::lemma_mul_inequality;

verus! {

/// The model of a dense matrix: a shape and the row-major sequence of the
/// integers its entries stand for.
#[verifier::ext_equal]
pub ghost struct Mat {
    pub rows: int,
    pub cols: int,
    pub data: Seq<int>,
}

impl Mat {
    /// Well-formed: non-negative shape whose flat storage holds exactly
    /// `rows * cols` entries, a count that fits the machine word.
    pub open spec fn wf(self) -> bool {
        &&& self.rows >= 0
        &&& self.cols >= 0
        &&& self.data.len() == self.rows * self.cols
        &&& self.rows * self.cols <= usize::MAX
    }

    /// The entry in row `i`, column `j`.
    pub open spec fn ent(self, i: int, j: int) -> int {
        self.data[i * self.cols + j]
    }
}

/// Row-major flattening keeps in-shape positions inside the storage.
pub proof fn lemma_rm_index_bound(i: int, j: int, rows: int, cols: int)
    requires
        0 <= i < rows,
        0 <= j < cols,
    ensures
        0 <= i * cols + j < rows * cols,
{
    assert(0 <= i * cols + j < rows * cols) by (nonlinear_arith)
        requires
            0 <= i < rows,
            0 <= j < cols,
    ;
}

/// Division and remainder by the column count invert row-major flattening.
pub proof fn lemma_rm_index_split(i: int, j: int, cols: int)
    requires
        0 <= i,
        0 <= j < cols,
    ensures
        (i * cols + j) / cols == i,
        (i * cols + j) % cols == j,
{
    lemma_fundamental_div_mod_converse(i * cols + j, cols, i, j);
}

/// Every flat index of a `rows * cols` storage names the in-shape position
/// `(idx / cols, idx % cols)`.
pub proof fn lemma_rm_index_recover(idx: int, rows: int, cols: int)
    requires
        0 < cols,
        0 <= idx < rows * cols,
    ensures
        0 <= idx / cols < rows,
        0 <= idx % cols < cols,
        (idx / cols) * cols + (idx % cols) == idx,
{
    lemma_fundamental_div_mod(idx, cols);
    lemma_mod_bound(idx, cols);
    let q = idx / cols;
    assert(cols * q == q * cols) by (nonlinear_arith);
    if q < 0 {
        lemma_mul_inequality(q, -1, cols);
        assert(false);
    }
    if q >= rows {
        lemma_mul_inequality(rows, q, cols);
        assert(false);
    }
}

/// The matrix of shape `rows x cols` whose entry at `(i, j)` is `f(i, j)`,
/// flattened row-major.
pub open spec fn grid(rows: int, cols: int, f: spec_fn(int, int) -> int) -> Mat {
    Mat {
        rows,
        cols,
        data: Seq::new((rows * cols) as nat, |idx: int| f(idx / cols, idx % cols)),
    }
}

/// A grid over a non-negative shape that fits the machine word is well-formed.
pub proof fn lemma_grid_wf(rows: int, cols: int, f: spec_fn(int, int) -> int)
    requires
        0 <= rows,
        0 <= cols,
        rows * cols <= usize::MAX,
    ensures
        grid(rows, cols, f).wf(),
{
    assert(0 <= rows * cols) by (nonlinear_arith)
        requires
            0 <= rows,
            0 <= cols,
    ;
}

/// A grid holds exactly the entries its function gives.
pub proof fn lemma_grid_ent(rows: int, cols: int, f: spec_fn(int, int) -> int, i: int, j: int)
    requires
        0 <= i < rows,
        0 <= j < cols,
    ensures
        grid(rows, cols, f).ent(i, j) == f(i, j),
{
    lemma_rm_index_bound(i, j, rows, cols);
    lemma_rm_index_split(i, j, cols);
}

/// Well-formed matrices of one shape with equal entries are equal.
pub proof fn lemma_mat_ext(a: Mat, b: Mat)
    requires
        a.wf(),
        b.wf(),
        a.rows == b.rows,
        a.cols == b.cols,
        forall|i: int, j: int|
            0 <= i < a.rows && 0 <= j < a.cols ==> a.ent(i, j) == b.ent(i, j),
    ensures
        a == b,
{
    if a.cols > 0 {
        assert forall|idx: int| 0 <= idx < a.data.len() implies a.data[idx] == b.data[idx] by {
            lemma_rm_index_recover(idx, a.rows, a.cols);
            let i = idx / a.cols;
            let j = idx % a.cols;
            assert(a.ent(i, j) == b.ent(i, j));
        }
    } else {
        assert(a.rows * a.cols == 0) by (nonlinear_arith)
            requires
                a.cols == 0,
        ;
    }
    assert(a.data =~= b.data);
    assert(a =~= b);
}

/// Left-to-right sum of the elementwise products of two sequences.
pub open spec fn dot(a: Seq<int>, b: Seq<int>) -> int
    decreases a.len(),
{
    if a.len() == 0 || b.len() == 0 {
        0
    } else {
        dot(a.drop_last(), b.drop_last()) + a.last() * b.last()
    }
}

/// Extending both sequences by one position adds one product to the sum.
pub proof fn lemma_dot_step(a: Seq<int>, b: Seq<int>, k: int)
    requires
        0 <= k < a.len(),
        k < b.len(),
    ensures
        dot(a.take(k + 1), b.take(k + 1)) == dot(a.take(k), b.take(k)) + a[k] * b[k],
{
    assert(a.take(k + 1).drop_last() =~= a.take(k));
    assert(b.take(k + 1).drop_last() =~= b.take(k));
    assert(a.take(k + 1).last() == a[k]);
    assert(b.take(k + 1).last() == b[k]);
}

/// Taking every position of a sequence changes nothing.
pub proof fn lemma_take_all(a: Seq<int>)
    ensures
        a.take(a.len() as int) == a,
{
    assert(a.take(a.len() as int) =~= a);
}

/// A dot product against an all-zero sequence is zero.
pub proof fn lemma_dot_zero_left(a: Seq<int>, b: Seq<int>)
    requires
        forall|k: int| 0 <= k < a.len() ==> a[k] == 0,
    ensures
        dot(a, b) == 0,
    decreases a.len(),
{
    if a.len() == 0 || b.len() == 0 {
    } else {
        assert(a.last() == a[a.len() - 1]);
        lemma_dot_zero_left(a.drop_last(), b.drop_last());
    }
}

/// The sequence of length `n` that is one at position `i` and zero elsewhere.
pub open spec fn unit_seq(n: int, i: int) -> Seq<int> {
    Seq::new(n as nat, |k: int| if k == i { 1 } else { 0 })
}

/// A dot product with a unit sequence on the left picks one position.
pub proof fn lemma_dot_unit_left(n: int, i: int, b: Seq<int>)
    requires
        0 <= i < n,
        b.len() == n,
    ensures
        dot(unit_seq(n, i), b) == b[i],
    decreases n,
{
    let u = unit_seq(n, i);
    if i == n - 1 {
        lemma_dot_zero_left(u.drop_last(), b.drop_last());
        assert(u.last() == 1);
    } else {
        assert(u.drop_last() =~= unit_seq(n - 1, i));
        lemma_dot_unit_left(n - 1, i, b.drop_last());
        assert(b.drop_last()[i] == b[i]);
        assert(u.last() == 0);
    }
}

/// A dot product with a unit sequence on the right picks one position.
pub proof fn lemma_dot_unit_right(a: Seq<int>, n: int, i: int)
    requires
        0 <= i < n,
        a.len() == n,
    ensures
        dot(a, unit_seq(n, i)) == a[i],
    decreases n,
{
    let u = unit_seq(n, i);
    if i == n - 1 {
        lemma_dot_zero_right(a.drop_last(), u.drop_last());
        assert(u.last() == 1);
    } else {
        assert(u.drop_last() =~= unit_seq(n - 1, i));
        lemma_dot_unit_right(a.drop_last(), n - 1, i);
        assert(a.drop_last()[i] == a[i]);
        assert(u.last() == 0);
    }
}

/// A dot product against an all-zero sequence on the right is zero.
pub proof fn lemma_dot_zero_right(a: Seq<int>, b: Seq<int>)
    requires
        forall|k: int| 0 <= k < b.len() ==> b[k] == 0,
    ensures
        dot(a, b) == 0,
    decreases a.len(),
{
    if a.len() == 0 || b.len() == 0 {
    } else {
        assert(b.last() == b[b.len() - 1]);
        lemma_dot_zero_right(a.drop_last(), b.drop_last());
    }
}

/// The elementwise sum of two equal-shape matrices.
pub open spec fn mat_add(a: Mat, b: Mat) -> Mat {
    Mat {
        rows: a.rows,
        cols: a.cols,
        data: Seq::new(a.data.len(), |k: int| a.data[k] + b.data[k]),
    }
}

/// The elementwise difference of two equal-shape matrices.
pub open spec fn mat_sub(a: Mat, b: Mat) -> Mat {
    Mat {
        rows: a.rows,
        cols: a.cols,
        data: Seq::new(a.data.len(), |k: int| a.data[k] - b.data[k]),
    }
}

/// The elementwise (Hadamard) product of two equal-shape matrices.
pub open spec fn mat_hadamard(a: Mat, b: Mat) -> Mat {
    Mat {
        rows: a.rows,
        cols: a.cols,
        data: Seq::new(a.data.len(), |k: int| a.data[k] * b.data[k]),
    }
}

/// Every entry of `a` multiplied by `c`.
pub open spec fn mat_scale(a: Mat, c: int) -> Mat {
    Mat {
        rows: a.rows,
        cols: a.cols,
        data: Seq::new(a.data.len(), |k: int| a.data[k] * c),
    }
}

/// Row `i` of `a` scaled by `w[i]`, for every row.
pub open spec fn mat_row_scale(a: Mat, w: Seq<int>) -> Mat {
    grid(a.rows, a.cols, |i: int, j: int| a.ent(i, j) * w[i])
}

/// The all-zero matrix of the given shape.
pub open spec fn mat_zero(rows: int, cols: int) -> Mat {
    grid(rows, cols, |i: int, j: int| 0)
}

/// The identity matrix of order `n`.
pub open spec fn mat_identity(n: int) -> Mat {
    grid(n, n, |i: int, j: int| if i == j { 1 } else { 0 })
}

/// The transpose of `a`.
pub open spec fn mat_transpose(a: Mat) -> Mat {
    grid(a.cols, a.rows, |i: int, j: int| a.ent(j, i))
}

/// Row `i` of `a` as a sequence.
pub open spec fn mat_row(a: Mat, i: int) -> Seq<int> {
    Seq::new(a.cols as nat, |k: int| a.ent(i, k))
}

/// Column `j` of `a` as a sequence.
pub open spec fn mat_col(a: Mat, j: int) -> Seq<int> {
    Seq::new(a.rows as nat, |k: int| a.ent(k, j))
}

/// The matrix product of `a` and `b`.
pub open spec fn mat_mul(a: Mat, b: Mat) -> Mat {
    grid(a.rows, b.cols, |i: int, j: int| dot(mat_row(a, i), mat_col(b, j)))
}

/// The rows of `b` appended below the rows of `a`.
pub open spec fn mat_vercat(a: Mat, b: Mat) -> Mat {
    Mat { rows: a.rows + b.rows, cols: a.cols, data: a.data + b.data }
}

/// The columns of `b` appended to the right of the columns of `a`.
pub open spec fn mat_horcat(a: Mat, b: Mat) -> Mat {
    grid(
        a.rows,
        a.cols + b.cols,
        |i: int, j: int| if j < a.cols { a.ent(i, j) } else { b.ent(i, j - a.cols) },
    )
}

/// The Kronecker product of `a` and `b`.
pub open spec fn mat_kron(a: Mat, b: Mat) -> Mat {
    grid(
        a.rows * b.rows,
        a.cols * b.cols,
        |i: int, j: int| a.ent(i / b.rows, j / b.cols) * b.ent(i % b.rows, j % b.cols),
    )
}

/// The transpose of a well-formed matrix is well-formed.
pub proof fn lemma_transpose_wf(a: Mat)
    requires
        a.wf(),
    ensures
        mat_transpose(a).wf(),
{
    assert(a.cols * a.rows == a.rows * a.cols) by (nonlinear_arith);
    lemma_grid_wf(a.cols, a.rows, |i: int, j: int| a.ent(j, i));
}

/// The transpose holds each entry at its mirrored position.
pub proof fn lemma_transpose_ent(a: Mat, i: int, j: int)
    requires
        0 <= i < a.cols,
        0 <= j < a.rows,
    ensures
        mat_transpose(a).ent(i, j) == a.ent(j, i),
{
    lemma_grid_ent(a.cols, a.rows, |x: int, y: int| a.ent(y, x), i, j);
}

/// The identity matrix is one on the diagonal and zero elsewhere.
pub proof fn lemma_identity_ent(n: int, i: int, j: int)
    requires
        0 <= i < n,
        0 <= j < n,
    ensures
        mat_identity(n).ent(i, j) == if i == j { 1int } else { 0int },
{
    lemma_grid_ent(n, n, |x: int, y: int| if x == y { 1int } else { 0int }, i, j);
}

/// The matrix product holds the dot product of row `i` and column `j`.
pub proof fn lemma_mul_ent(a: Mat, b: Mat, i: int, j: int)
    requires
        0 <= i < a.rows,
        0 <= j < b.cols,
    ensures
        mat_mul(a, b).ent(i, j) == dot(mat_row(a, i), mat_col(b, j)),
{
    lemma_grid_ent(a.rows, b.cols, |x: int, y: int| dot(mat_row(a, x), mat_col(b, y)), i, j);
}

/// Adding a matrix and then subtracting it again restores every entry:
/// for equal shapes, `(a + b) - b == a`.
pub proof fn lemma_add_sub_roundtrip(a: Mat, b: Mat)
    requires
        a.rows == b.rows,
        a.cols == b.cols,
        a.data.len() == b.data.len(),
    ensures
        mat_sub(mat_add(a, b), b) == a,
{
    let s = mat_sub(mat_add(a, b), b);
    assert(s.data =~= a.data);
    assert(s =~= a);
}

/// Multiplying by the identity on the left leaves a matrix unchanged:
/// `mat_identity(n) * m == m` whenever `m` has `n` rows.
pub proof fn lemma_identity_mul_left(m: Mat, n: int)
    requires
        m.wf(),
        m.rows == n,
    ensures
        mat_mul(mat_identity(n), m) == m,
{
    let id = mat_identity(n);
    let p = mat_mul(id, m);
    assert(p.data.len() == (n * m.cols) as nat);
    assert forall|i: int, j: int| 0 <= i < n && 0 <= j < m.cols implies p.ent(i, j) == m.ent(
        i,
        j,
    ) by {
        lemma_mul_ent(id, m, i, j);
        let r = mat_row(id, i);
        let c = mat_col(m, j);
        assert forall|k: int| 0 <= k < n implies r[k] == unit_seq(n, i)[k] by {
            lemma_identity_ent(n, i, k);
        }
        assert(r =~= unit_seq(n, i));
        lemma_dot_unit_left(n, i, c);
        assert(c[i] == m.ent(i, j));
    }
    lemma_grid_wf(n, m.cols, |x: int, y: int| dot(mat_row(id, x), mat_col(m, y)));
    lemma_mat_ext(p, m);
}

/// Multiplying by the identity on the right leaves a matrix unchanged:
/// `m * mat_identity(n) == m` whenever `m` has `n` columns.
pub proof fn lemma_identity_mul_right(m: Mat, n: int)
    requires
        m.wf(),
        m.cols == n,
    ensures
        mat_mul(m, mat_identity(n)) == m,
{
    let id = mat_identity(n);
    let p = mat_mul(m, id);
    assert forall|i: int, j: int| 0 <= i < m.rows && 0 <= j < n implies p.ent(i, j) == m.ent(
        i,
        j,
    ) by {
        lemma_mul_ent(m, id, i, j);
        let r = mat_row(m, i);
        let c = mat_col(id, j);
        assert forall|k: int| 0 <= k < n implies c[k] == unit_seq(n, j)[k] by {
            lemma_identity_ent(n, k, j);
        }
        assert(c =~= unit_seq(n, j));
        lemma_dot_unit_right(r, n, j);
        assert(r[j] == m.ent(i, j));
    }
    lemma_grid_wf(m.rows, n, |x: int, y: int| dot(mat_row(m, x), mat_col(id, y)));
    lemma_mat_ext(p, m);
}

/// Transposing twice restores the matrix, shape included.
pub proof fn lemma_transpose_involutive(a: Mat)
    requires
        a.wf(),
    ensures
        mat_transpose(mat_transpose(a)) == a,
{
    let t = mat_transpose(a);
    let tt = mat_transpose(t);
    lemma_transpose_wf(a);
    lemma_transpose_wf(t);
    assert forall|i: int, j: int| 0 <= i < a.rows && 0 <= j < a.cols implies tt.ent(i, j)
        == a.ent(i, j) by {
        lemma_transpose_ent(t, i, j);
        lemma_transpose_ent(a, j, i);
    }
    lemma_mat_ext(tt, a);
}

/// Each Kronecker entry is the product of exactly one pair of input
/// entries, at the block position the index mapping gives.
pub proof fn lemma_kron_ent(a: Mat, b: Mat, sr: int, sc: int, or_: int, oc: int)
    requires
        0 <= sr < a.rows,
        0 <= sc < a.cols,
        0 <= or_ < b.rows,
        0 <= oc < b.cols,
    ensures
        mat_kron(a, b).ent(sr * b.rows + or_, sc * b.cols + oc) == a.ent(sr, sc) * b.ent(or_, oc),
{
    let i = sr * b.rows + or_;
    let j = sc * b.cols + oc;
    lemma_rm_index_bound(sr, or_, a.rows, b.rows);
    lemma_rm_index_bound(sc, oc, a.cols, b.cols);
    lemma_rm_index_split(sr, or_, b.rows);
    lemma_rm_index_split(sc, oc, b.cols);
    lemma_grid_ent(
        a.rows * b.rows,
        a.cols * b.cols,
        |x: int, y: int| a.ent(x / b.rows, y / b.cols) * b.ent(x % b.rows, y % b.cols),
        i,
        j,
    );
}

/// Scaling by the multiplicative identity changes nothing.
pub proof fn lemma_scale_one(a: Mat)
    ensures
        mat_scale(a, 1) == a,
{
    assert(mat_scale(a, 1).data =~= a.data);
    assert(mat_scale(a, 1) =~= a);
}

/// Scaling by the additive identity yields the zero matrix of the same shape.
pub proof fn lemma_scale_zero(a: Mat)
    requires
        a.wf(),
    ensures
        mat_scale(a, 0) == mat_zero(a.rows, a.cols),
{
    let s = mat_scale(a, 0);
    let z = mat_zero(a.rows, a.cols);
    assert(z.data.len() == (a.rows * a.cols) as nat);
    assert forall|k: int| 0 <= k < s.data.len() implies s.data[k] == z.data[k] by {
        assert(s.data[k] == a.data[k] * 0);
        assert(a.data[k] * 0 == 0) by (nonlinear_arith);
    }
    assert(s.data =~= z.data);
    assert(s =~= z);
}

} // verus!
