//! A square matrix stored as a flat row-major buffer plus its size.
//!
//! Storage and the structural transforms (transpose, conjugate) are generic
//! over any [`Scalar`]; the arithmetic, determinant and inversion are provided
//! for matrices of exact fractions, where every contract is stated against
//! the rational value of each cell.

use vstd::prelude::*;
use vstd::arithmetic::div_mod::{
    lemma_fundamental_div_mod_converse_div, lemma_fundamental_div_mod_converse_mod,
};
use vstd::pervasive::VecAdditionalExecFns;
use crate::scalar::{
    add_fits, div_fits, eq_fits, mul_fits, neg_fits, rat_add, rat_div, rat_eq,
    rat_is_zero, rat_mul, rat_neg, rat_of_int, rat_sub, rat_wf, sub_fits, Frac, Rat,
    Scalar,
};

verus! {

/// The failures a matrix operation can surface.
#[derive(Clone, Copy, Debug, PartialEq, Eq, Structural)]
pub enum MatrixError {
    /// Arithmetic was attempted between matrices of unequal size.
    DimensionMismatch,
    /// Inversion was attempted on a matrix whose determinant is zero.
    SingularMatrix,
}

/// The transpose of a row-major buffer of `n` rows of `n` cells: cell
/// `(x, y)` of the result is cell `(y, x)` of `s`.
pub open spec fn transpose_seq<T>(s: Seq<T>, n: int) -> Seq<T> {
    Seq::new((n * n) as nat, |i: int| s[(i % n) * n + i / n])
}

/// A square matrix: a flat row-major buffer of `size * size` cells.
#[derive(Clone, Debug)]
pub struct SquareMatrix<T> {
    size: usize,
    data: Vec<T>,
}

impl<T: Scalar> SquareMatrix<T> {
    /// The number of rows (and columns).
    pub closed spec fn sz(self) -> int {
        self.size as int
    }

    /// The row-major cells.
    pub closed spec fn cells(self) -> Seq<T> {
        self.data@
    }

    /// The cell in column `x` of row `y`.
    pub open spec fn at(self, x: int, y: int) -> T {
        self.cells()[y * self.sz() + x]
    }

    /// The buffer holds exactly `size * size` well-formed cells.
    pub open spec fn wf(self) -> bool {
        &&& self.cells().len() == self.sz() * self.sz()
        &&& forall|i: int|
            0 <= i < self.cells().len() ==> (#[trigger] self.cells()[i]).wf()
    }

    /// Creates an empty matrix of size zero.
    pub fn new() -> (r: SquareMatrix<T>)
        ensures
            r.wf(),
            r.sz() == 0,
            r.cells() == Seq::<T>::empty(),
    {
        let r = SquareMatrix { size: 0, data: Vec::new() };
        proof {
            assert(r.cells() =~= Seq::<T>::empty());
        }
        r
    }

    /// Creates a zero-filled matrix of the given size.
    pub fn with_size(size: usize) -> (r: SquareMatrix<T>)
        requires
            size * size <= usize::MAX,
        ensures
            r.wf(),
            r.sz() == size,
            r.cells().len() == size * size,
            forall|i: int| 0 <= i < r.cells().len() ==> r.cells()[i] == T::zero_spec(),
    {
        let mut mat = SquareMatrix::new();
        mat.resize(size);
        mat
    }

    /// Replaces the buffer with a zero-filled buffer of `size * size` cells,
    /// discarding all prior contents, and returns the previous size. The
    /// reset is always destructive, even when the size does not change.
    #[verifier::loop_isolation(false)]
    pub fn resize(&mut self, size: usize) -> (r: Option<usize>)
        requires
            size * size <= usize::MAX,
        ensures
            final(self).wf(),
            final(self).sz() == size,
            final(self).cells().len() == size * size,
            forall|i: int|
                0 <= i < final(self).cells().len() ==> final(self).cells()[i]
                    == T::zero_spec(),
            r == Some((old(self).sz()) as usize),
    {
        let old_size = self.size;
        let n = size * size;
        let mut data: Vec<T> = Vec::new();
        while data.len() < n
            invariant
                data@.len() <= n,
                forall|i: int| 0 <= i < data@.len() ==> data@[i] == T::zero_spec(),
                forall|i: int| 0 <= i < data@.len() ==> (#[trigger] data@[i]).wf(),
            decreases n - data.len(),
        {
            data.push(T::zero());
        }
        self.size = size;
        self.data = data;
        Some(old_size)
    }

    /// Returns the cell in column `x` of row `y`, or nothing if either
    /// coordinate is outside the matrix.
    pub fn get(&self, x: usize, y: usize) -> (r: Option<T>)
        requires
            self.wf(),
        ensures
            x < self.sz() && y < self.sz() ==> r == Some(self.at(x as int, y as int)),
            !(x < self.sz() && y < self.sz()) ==> r is None,
    {
        if x < self.size && y < self.size {
            let l = self.data.len();
            proof {
                assert(y * self.sz() + x < self.sz() * self.sz()) by (nonlinear_arith)
                    requires 0 <= x < self.sz() && 0 <= y < self.sz();
            }
            Some(self.data[y * self.size + x])
        } else {
            None
        }
    }

    /// Writes `value` at column `x` of row `y` and returns the previous cell,
    /// or nothing, writing nothing, if the linear index `y * size + x` falls
    /// outside the buffer.
    pub fn set(&mut self, x: usize, y: usize, value: T) -> (r: Option<T>)
        requires
            old(self).wf(),
            value.wf(),
            y * old(self).sz() + x <= usize::MAX,
        ensures
            y * old(self).sz() + x < old(self).cells().len() ==> {
                &&& r == Some(old(self).cells()[y * old(self).sz() + x])
                &&& final(self).cells() == old(self).cells().update(
                    y * old(self).sz() + x,
                    value,
                )
                &&& final(self).sz() == old(self).sz()
                &&& final(self).wf()
            },
            y * old(self).sz() + x >= old(self).cells().len() ==> {
                &&& r is None
                &&& *final(self) == *old(self)
            },
    {
        let index = y * self.size + x;
        if index >= self.data.len() {
            return None;
        }
        let old_v = self.data[index];
        self.data.set(index, value);
        Some(old_v)
    }

    /// Returns a new matrix whose cell `(x, y)` holds this matrix's cell
    /// `(y, x)`.
    #[verifier::loop_isolation(false)]
    pub fn transposed(&self) -> (r: SquareMatrix<T>)
        requires
            self.wf(),
        ensures
            r.wf(),
            r.sz() == self.sz(),
            r.cells() == transpose_seq(self.cells(), self.sz()),
            forall|x: int, y: int|
                0 <= x < self.sz() && 0 <= y < self.sz() ==> r.at(x, y) == self.at(y, x),
    {
        let n = self.size;
        let l = self.data.len();
        let ghost nn = self.sz();
        let mut data: Vec<T> = Vec::new();
        let mut y: usize = 0;
        while y < n
            invariant
                0 <= y <= n,
                data@.len() == y * nn,
                forall|i: int|
                    0 <= i < data@.len() ==> #[trigger] data@[i] == self.cells()[(i % nn)
                        * nn + i / nn],
                forall|i: int| 0 <= i < data@.len() ==> (#[trigger] data@[i]).wf(),
            decreases n - y,
        {
            let mut x: usize = 0;
            proof {
                assert(y * nn <= nn * nn) by (nonlinear_arith)
                    requires 0 <= y <= nn;
            }
            while x < n
                invariant
                    0 <= x <= n,
                    y < n,
                    data@.len() == y * nn + x,
                    forall|i: int|
                        0 <= i < data@.len() ==> #[trigger] data@[i] == self.cells()[(i
                            % nn) * nn + i / nn],
                    forall|i: int| 0 <= i < data@.len() ==> (#[trigger] data@[i]).wf(),
                decreases n - x,
            {
                proof {
                    assert(x * nn + y < nn * nn) by (nonlinear_arith)
                        requires 0 <= x < nn && 0 <= y < nn;
                    assert(y * nn + x < nn * nn) by (nonlinear_arith)
                        requires 0 <= x < nn && 0 <= y < nn;
                    lemma_fundamental_div_mod_converse_div(y * nn + x, nn, y as int, x as int);
                    lemma_fundamental_div_mod_converse_mod(y * nn + x, nn, y as int, x as int);
                }
                data.push(self.data[x * n + y]);
                x = x + 1;
            }
            y = y + 1;
            proof {
                assert((y - 1) * nn + nn == y * nn) by (nonlinear_arith);
            }
        }
        let r = SquareMatrix { size: n, data };
        proof {
            assert(n * nn == nn * nn);
            assert(r.cells() =~= transpose_seq(self.cells(), self.sz()));
            assert forall|x: int, y: int|
                0 <= x < self.sz() && 0 <= y < self.sz() implies r.at(x, y) == self.at(
                y,
                x,
            ) by {
                assert(y * nn + x < nn * nn) by (nonlinear_arith)
                    requires 0 <= x < nn && 0 <= y < nn;
                lemma_fundamental_div_mod_converse_div(y * nn + x, nn, y as int, x as int);
                lemma_fundamental_div_mod_converse_mod(y * nn + x, nn, y as int, x as int);
            }
        }
        r
    }

    /// Returns a new matrix with every cell replaced by its conjugate.
    #[verifier::loop_isolation(false)]
    pub fn conjugate(&self) -> (r: SquareMatrix<T>)
        requires
            self.wf(),
        ensures
            r.wf(),
            r.sz() == self.sz(),
            r.cells() == self.cells().map_values(|t: T| t.conj_spec()),
    {
        let mut data: Vec<T> = Vec::new();
        let mut i: usize = 0;
        while i < self.data.len()
            invariant
                0 <= i <= self.data.len(),
                data@.len() == i,
                forall|j: int|
                    0 <= j < i ==> #[trigger] data@[j] == self.cells()[j].conj_spec(),
                forall|j: int| 0 <= j < i ==> (#[trigger] data@[j]).wf(),
            decreases self.data.len() - i,
        {
            data.push(self.data[i].conj());
            i = i + 1;
        }
        let r = SquareMatrix { size: self.size, data };
        proof {
            assert(r.cells() =~= self.cells().map_values(|t: T| t.conj_spec()));
        }
        r
    }

    /// Replaces every cell with its conjugate, in place.
    #[verifier::loop_isolation(false)]
    pub fn conjugate_self(&mut self)
        requires
            old(self).wf(),
        ensures
            final(self).wf(),
            final(self).sz() == old(self).sz(),
            final(self).cells() == old(self).cells().map_values(|t: T| t.conj_spec()),
    {
        let mut i: usize = 0;
        while i < self.data.len()
            invariant
                0 <= i <= self.data.len(),
                self.size == old(self).size,
                self.data@.len() == old(self).data@.len(),
                forall|j: int|
                    0 <= j < i ==> #[trigger] self.cells()[j] == old(self).cells()[
                        j].conj_spec(),
                forall|j: int|
                    i <= j < self.data@.len() ==> #[trigger] self.cells()[j] == old(
                        self,
                    ).cells()[j],
                forall|j: int| 0 <= j < i ==> (#[trigger] self.cells()[j]).wf(),
            decreases self.data.len() - i,
        {
            proof {
                assert(self.cells()[i as int] == old(self).cells()[i as int]);
            }
            let c = self.data[i].conj();
            self.data.set(i, c);
            i = i + 1;
        }
        proof {
            assert(self.cells() =~= old(self).cells().map_values(|t: T| t.conj_spec()));
        }
    }
}

/// Transposing twice gives back the original buffer: cell `(x, y)` moves to
/// `(y, x)` and back.
pub proof fn lemma_transpose_involution<T>(s: Seq<T>, n: int)
    requires
        0 <= n,
        s.len() == n * n,
    ensures
        transpose_seq(transpose_seq(s, n), n) == s,
{
    let t = transpose_seq(s, n);
    let u = transpose_seq(t, n);
    assert forall|i: int| 0 <= i < n * n implies u[i] == s[i] by {
        assert(n != 0) by (nonlinear_arith)
            requires 0 <= n && 0 <= i < n * n;
        let q = i / n;
        let r = i % n;
        vstd::arithmetic::div_mod::lemma_fundamental_div_mod(i, n);
        assert(0 <= r < n && 0 <= q < n) by (nonlinear_arith)
            requires n > 0 && 0 <= i < n * n && q == i / n && r == i % n && i == q * n + r;
        assert(u[i] == t[r * n + q]);
        assert(r * n + q < n * n) by (nonlinear_arith)
            requires 0 <= r < n && 0 <= q < n;
        lemma_fundamental_div_mod_converse_div(r * n + q, n, r, q);
        lemma_fundamental_div_mod_converse_mod(r * n + q, n, r, q);
        assert(t[r * n + q] == s[q * n + r]);
        assert(i == q * n + r);
    }
    assert(u =~= s);
}

} // verus!

verus! {

/// Whether `{p, q}` is an off-diagonal pair already swapped when the in-place
/// transpose stands at row `y`, column `x` of its sweep.
pub open spec fn tr_done(y: int, x: int, p: int, q: int) -> bool {
    let a = if p <= q { p } else { q };
    let b = if p <= q { q } else { p };
    a != b && (a < y || (a == y && b < x))
}

impl<T: Scalar> SquareMatrix<T> {
    /// Transposes the matrix in place via paired cell swaps across the
    /// diagonal; diagonal cells stay put.
    #[verifier::loop_isolation(false)]
    pub fn transpose(&mut self)
        requires
            old(self).wf(),
        ensures
            final(self).wf(),
            final(self).sz() == old(self).sz(),
            final(self).cells() == transpose_seq(old(self).cells(), old(self).sz()),
            forall|x: int, y: int|
                0 <= x < old(self).sz() && 0 <= y < old(self).sz() ==> final(self).at(
                    x,
                    y,
                ) == old(self).at(y, x),
    {
        let n = self.size;
        let l = self.data.len();
        let ghost nn = self.sz();
        let mut y: usize = 0;
        while y < n
            invariant
                0 <= y <= n,
                self.size == old(self).size,
                self.data@.len() == old(self).data@.len(),
                forall|p: int, q: int|
                    0 <= p < nn && 0 <= q < nn ==> #[trigger] self.cells()[p * nn + q]
                        == (if tr_done(y as int, y as int + 1, p, q) {
                        old(self).cells()[q * nn + p]
                    } else {
                        old(self).cells()[p * nn + q]
                    }),
            decreases n - y,
        {
            let mut x: usize = y + 1;
            while x < n
                invariant
                    y < n,
                    y + 1 <= x <= n,
                    self.size == old(self).size,
                    self.data@.len() == old(self).data@.len(),
                    forall|p: int, q: int|
                        0 <= p < nn && 0 <= q < nn ==> #[trigger] self.cells()[p * nn
                            + q] == (if tr_done(y as int, x as int, p, q) {
                            old(self).cells()[q * nn + p]
                        } else {
                            old(self).cells()[p * nn + q]
                        }),
                decreases n - x,
            {
                proof {
                    assert(y * nn + x < nn * nn && x * nn + y < nn * nn)
                        by (nonlinear_arith)
                        requires 0 <= y < nn && 0 <= x < nn;
                }
                let ghost pre = self.cells();
                let a = self.data[y * n + x];
                let b = self.data[x * n + y];
                self.data.set(y * n + x, b);
                self.data.set(x * n + y, a);
                proof {
                    assert(pre[x * nn + y] == old(self).cells()[x * nn + y]);
                    assert(pre[y * nn + x] == old(self).cells()[y * nn + x]);
                    assert forall|p: int, q: int|
                        0 <= p < nn && 0 <= q < nn implies #[trigger] self.cells()[p * nn
                        + q] == (if tr_done(y as int, x as int + 1, p, q) {
                        old(self).cells()[q * nn + p]
                    } else {
                        old(self).cells()[p * nn + q]
                    }) by {
                        assert(p * nn + q < nn * nn) by (nonlinear_arith)
                            requires 0 <= p < nn && 0 <= q < nn;
                        assert(pre[p * nn + q] == (if tr_done(y as int, x as int, p, q) {
                            old(self).cells()[q * nn + p]
                        } else {
                            old(self).cells()[p * nn + q]
                        }));
                        if p * nn + q == y * nn + x {
                            lemma_fundamental_div_mod_converse_div(p * nn + q, nn, p, q);
                            lemma_fundamental_div_mod_converse_mod(p * nn + q, nn, p, q);
                            lemma_fundamental_div_mod_converse_div(
                                y * nn + x,
                                nn,
                                y as int,
                                x as int,
                            );
                            lemma_fundamental_div_mod_converse_mod(
                                y * nn + x,
                                nn,
                                y as int,
                                x as int,
                            );
                            assert(p == y && q == x);
                            assert(self.cells()[p * nn + q] == b);
                            assert(b == pre[x * nn + y]);
                        } else if p * nn + q == x * nn + y {
                            lemma_fundamental_div_mod_converse_div(p * nn + q, nn, p, q);
                            lemma_fundamental_div_mod_converse_mod(p * nn + q, nn, p, q);
                            lemma_fundamental_div_mod_converse_div(
                                x * nn + y,
                                nn,
                                x as int,
                                y as int,
                            );
                            lemma_fundamental_div_mod_converse_mod(
                                x * nn + y,
                                nn,
                                x as int,
                                y as int,
                            );
                            assert(p == x && q == y);
                            assert(self.cells()[p * nn + q] == a);
                            assert(a == pre[y * nn + x]);
                        } else {
                            assert(self.cells()[p * nn + q] == pre[p * nn + q]);
                        }
                    }
                }
                x = x + 1;
            }
            y = y + 1;
        }
        proof {
            assert forall|i: int| 0 <= i < nn * nn implies self.cells()[i]
                == transpose_seq(old(self).cells(), nn)[i] by {
                assert(nn != 0) by (nonlinear_arith)
                    requires 0 <= nn && 0 <= i < nn * nn;
                let p = i / nn;
                let q = i % nn;
                vstd::arithmetic::div_mod::lemma_fundamental_div_mod(i, nn);
                assert(0 <= q < nn && 0 <= p < nn) by (nonlinear_arith)
                    requires nn > 0 && 0 <= i < nn * nn && p == i / nn && q == i % nn
                        && i == p * nn + q;
                assert(self.cells()[p * nn + q] == old(self).cells()[q * nn + p]);
                assert(q * nn + p < nn * nn) by (nonlinear_arith)
                    requires 0 <= q < nn && 0 <= p < nn;
            }
            assert(self.cells() =~= transpose_seq(old(self).cells(), nn));
            assert forall|x: int, y: int|
                0 <= x < nn && 0 <= y < nn implies self.at(x, y) == old(self).at(
                y,
                x,
            ) by {
                assert(y * nn + x < nn * nn) by (nonlinear_arith)
                    requires 0 <= x < nn && 0 <= y < nn;
            }
            assert forall|i: int| 0 <= i < self.cells().len() implies (
            #[trigger] self.cells()[i]).wf() by {
                assert(nn != 0) by (nonlinear_arith)
                    requires 0 <= nn && 0 <= i < nn * nn;
                let p = i / nn;
                let q = i % nn;
                vstd::arithmetic::div_mod::lemma_fundamental_div_mod(i, nn);
                assert(0 <= q < nn && 0 <= p < nn) by (nonlinear_arith)
                    requires nn > 0 && 0 <= i < nn * nn && p == i / nn && q == i % nn
                        && i == p * nn + q;
                assert(q * nn + p < nn * nn) by (nonlinear_arith)
                    requires 0 <= q < nn && 0 <= p < nn;
                assert(self.cells()[i] == old(self).cells()[q * nn + p]
                    || self.cells()[i] == old(self).cells()[p * nn + q]);
            }
        }
    }
}

} // verus!

verus! {

/// The machine bounds under which two cell buffers can be added cell by cell.
pub open spec fn add_all_fits(a: Seq<Rat>, b: Seq<Rat>) -> bool {
    forall|i: int| 0 <= i < a.len() ==> add_fits(#[trigger] a[i], b[i])
}

/// The machine bounds under which two cell buffers can be subtracted cell by
/// cell.
pub open spec fn sub_all_fits(a: Seq<Rat>, b: Seq<Rat>) -> bool {
    forall|i: int| 0 <= i < a.len() ==> sub_fits(#[trigger] a[i], b[i])
}

/// The machine bounds under which a cell buffer can be negated cell by cell.
pub open spec fn neg_all_fits(a: Seq<Rat>) -> bool {
    forall|i: int| 0 <= i < a.len() ==> neg_fits(#[trigger] a[i])
}

/// The sum of the first `k` products `a(k, y) * b(x, k)` of a row of `a`
/// against a column of `b`: the prefix of a matrix-product cell.
pub open spec fn dot_prefix(a: Seq<Rat>, b: Seq<Rat>, n: int, x: int, y: int, k: int) -> Rat
    decreases k,
{
    if k <= 0 {
        rat_of_int(0)
    } else {
        rat_add(dot_prefix(a, b, n, x, y, k - 1), rat_mul(a[y * n + (k - 1)], b[(k - 1) * n + x]))
    }
}

/// The machine bounds under which the first `k` steps of a matrix-product
/// cell compute `dot_prefix` exactly.
pub open spec fn dot_fits(a: Seq<Rat>, b: Seq<Rat>, n: int, x: int, y: int, k: int) -> bool
    decreases k,
{
    if k <= 0 {
        true
    } else {
        &&& dot_fits(a, b, n, x, y, k - 1)
        &&& mul_fits(a[y * n + (k - 1)], b[(k - 1) * n + x])
        &&& add_fits(dot_prefix(a, b, n, x, y, k - 1), rat_mul(a[y * n + (k - 1)], b[(k - 1) * n + x]))
    }
}

/// The machine bounds under which the whole matrix product of `a` and `b`
/// computes exactly.
pub open spec fn mul_all_fits(a: Seq<Rat>, b: Seq<Rat>, n: int) -> bool {
    forall|x: int, y: int| 0 <= x < n && 0 <= y < n ==> #[trigger] dot_fits(a, b, n, x, y, n)
}

/// A prefix of the product-fitting bounds follows from the whole.
pub proof fn lemma_dot_fits_prefix(a: Seq<Rat>, b: Seq<Rat>, n: int, x: int, y: int, k: int, m: int)
    requires
        dot_fits(a, b, n, x, y, m),
        0 <= k <= m,
    ensures
        dot_fits(a, b, n, x, y, k),
    decreases m,
{
    if k < m {
        lemma_dot_fits_prefix(a, b, n, x, y, k, m - 1);
    }
}

impl SquareMatrix<Frac> {
    /// The rational value of each cell, row-major.
    pub open spec fn reps(self) -> Seq<Rat> {
        self.cells().map_values(|f: Frac| f@)
    }

    /// Elementwise sum; the operands must have equal size.
    #[verifier::loop_isolation(false)]
    pub fn add(&self, o: &SquareMatrix<Frac>) -> (r: Result<SquareMatrix<Frac>, MatrixError>)
        requires
            self.wf(),
            o.wf(),
            self.sz() == o.sz() ==> add_all_fits(self.reps(), o.reps()),
        ensures
            match r {
                Ok(m) => {
                    &&& self.sz() == o.sz()
                    &&& m.wf()
                    &&& m.sz() == self.sz()
                    &&& forall|i: int|
                        0 <= i < m.cells().len() ==> #[trigger] m.reps()[i] == rat_add(
                            self.reps()[i],
                            o.reps()[i],
                        )
                },
                Err(e) => e == MatrixError::DimensionMismatch && self.sz() != o.sz(),
            },
    {
        if self.size != o.size {
            return Err(MatrixError::DimensionMismatch);
        }
        let mut data: Vec<Frac> = Vec::new();
        let mut i: usize = 0;
        while i < self.data.len()
            invariant
                0 <= i <= self.data.len(),
                data@.len() == i,
                forall|j: int|
                    0 <= j < i ==> #[trigger] data@[j]@ == rat_add(self.reps()[j], o.reps()[j]),
                forall|j: int| 0 <= j < i ==> rat_wf((#[trigger] data@[j])@),
            decreases self.data.len() - i,
        {
            proof {
                assert(add_fits(self.reps()[i as int], o.reps()[i as int]));
                assert(self.reps()[i as int] == self.cells()[i as int]@);
                assert(o.reps()[i as int] == o.cells()[i as int]@);
            }
            let c = self.data[i].add(o.data[i]);
            data.push(c);
            i = i + 1;
        }
        let m = SquareMatrix { size: self.size, data };
        proof {
            assert forall|j: int| 0 <= j < m.cells().len() implies (#[trigger] m.cells()[j]).wf() by {
                assert(m.reps()[j] == m.cells()[j]@);
            }
        }
        Ok(m)
    }

    /// Elementwise difference; the operands must have equal size.
    #[verifier::loop_isolation(false)]
    pub fn sub(&self, o: &SquareMatrix<Frac>) -> (r: Result<SquareMatrix<Frac>, MatrixError>)
        requires
            self.wf(),
            o.wf(),
            self.sz() == o.sz() ==> sub_all_fits(self.reps(), o.reps()),
        ensures
            match r {
                Ok(m) => {
                    &&& self.sz() == o.sz()
                    &&& m.wf()
                    &&& m.sz() == self.sz()
                    &&& forall|i: int|
                        0 <= i < m.cells().len() ==> #[trigger] m.reps()[i] == rat_sub(
                            self.reps()[i],
                            o.reps()[i],
                        )
                },
                Err(e) => e == MatrixError::DimensionMismatch && self.sz() != o.sz(),
            },
    {
        if self.size != o.size {
            return Err(MatrixError::DimensionMismatch);
        }
        let mut data: Vec<Frac> = Vec::new();
        let mut i: usize = 0;
        while i < self.data.len()
            invariant
                0 <= i <= self.data.len(),
                data@.len() == i,
                forall|j: int|
                    0 <= j < i ==> #[trigger] data@[j]@ == rat_sub(self.reps()[j], o.reps()[j]),
                forall|j: int| 0 <= j < i ==> rat_wf((#[trigger] data@[j])@),
            decreases self.data.len() - i,
        {
            proof {
                assert(sub_fits(self.reps()[i as int], o.reps()[i as int]));
                assert(self.reps()[i as int] == self.cells()[i as int]@);
                assert(o.reps()[i as int] == o.cells()[i as int]@);
            }
            let c = self.data[i].sub(o.data[i]);
            data.push(c);
            i = i + 1;
        }
        let m = SquareMatrix { size: self.size, data };
        proof {
            assert forall|j: int| 0 <= j < m.cells().len() implies (#[trigger] m.cells()[j]).wf() by {
                assert(m.reps()[j] == m.cells()[j]@);
            }
        }
        Ok(m)
    }

    /// Elementwise additive inverse; always succeeds.
    #[verifier::loop_isolation(false)]
    pub fn neg(&self) -> (r: SquareMatrix<Frac>)
        requires
            self.wf(),
            neg_all_fits(self.reps()),
        ensures
            r.wf(),
            r.sz() == self.sz(),
            forall|i: int|
                0 <= i < r.cells().len() ==> #[trigger] r.reps()[i] == rat_neg(self.reps()[i]),
    {
        let mut data: Vec<Frac> = Vec::new();
        let mut i: usize = 0;
        while i < self.data.len()
            invariant
                0 <= i <= self.data.len(),
                data@.len() == i,
                forall|j: int| 0 <= j < i ==> #[trigger] data@[j]@ == rat_neg(self.reps()[j]),
                forall|j: int| 0 <= j < i ==> rat_wf((#[trigger] data@[j])@),
            decreases self.data.len() - i,
        {
            proof {
                assert(neg_fits(self.reps()[i as int]));
                assert(self.reps()[i as int] == self.cells()[i as int]@);
            }
            let c = self.data[i].neg();
            data.push(c);
            i = i + 1;
        }
        let m = SquareMatrix { size: self.size, data };
        proof {
            assert forall|j: int| 0 <= j < m.cells().len() implies (#[trigger] m.cells()[j]).wf() by {
                assert(m.reps()[j] == m.cells()[j]@);
            }
        }
        m
    }

    /// Matrix product: cell `(x, y)` of the result is the sum over `k` of
    /// `self(k, y) * o(x, k)`. The operands must have equal size.
    #[verifier::loop_isolation(false)]
    pub fn mul(&self, o: &SquareMatrix<Frac>) -> (r: Result<SquareMatrix<Frac>, MatrixError>)
        requires
            self.wf(),
            o.wf(),
            self.sz() == o.sz() ==> mul_all_fits(self.reps(), o.reps(), self.sz()),
        ensures
            match r {
                Ok(m) => {
                    &&& self.sz() == o.sz()
                    &&& m.wf()
                    &&& m.sz() == self.sz()
                    &&& forall|x: int, y: int|
                        0 <= x < m.sz() && 0 <= y < m.sz() ==> #[trigger] m.reps()[y * m.sz() + x]
                            == dot_prefix(self.reps(), o.reps(), m.sz(), x, y, m.sz())
                },
                Err(e) => e == MatrixError::DimensionMismatch && self.sz() != o.sz(),
            },
    {
        if self.size != o.size {
            return Err(MatrixError::DimensionMismatch);
        }
        let n = self.size;
        let l = self.data.len();
        let ghost nn = self.sz();
        let ghost ar = self.reps();
        let ghost br = o.reps();
        let mut data: Vec<Frac> = Vec::new();
        let mut y: usize = 0;
        while y < n
            invariant
                0 <= y <= n,
                data@.len() == y * nn,
                forall|j: int|
                    0 <= j < data@.len() ==> #[trigger] data@[j]@ == dot_prefix(
                        ar,
                        br,
                        nn,
                        j % nn,
                        j / nn,
                        nn,
                    ),
                forall|j: int| 0 <= j < data@.len() ==> rat_wf((#[trigger] data@[j])@),
            decreases n - y,
        {
            proof {
                assert(y * nn <= nn * nn) by (nonlinear_arith)
                    requires 0 <= y <= nn;
            }
            let mut x: usize = 0;
            while x < n
                invariant
                    0 <= x <= n,
                    y < n,
                    data@.len() == y * nn + x,
                    forall|j: int|
                        0 <= j < data@.len() ==> #[trigger] data@[j]@ == dot_prefix(
                            ar,
                            br,
                            nn,
                            j % nn,
                            j / nn,
                            nn,
                        ),
                    forall|j: int| 0 <= j < data@.len() ==> rat_wf((#[trigger] data@[j])@),
                decreases n - x,
            {
                let mut acc = Frac::from_int(0);
                let mut k: usize = 0;
                proof {
                    assert(dot_fits(ar, br, nn, x as int, y as int, nn));
                }
                while k < n
                    invariant
                        0 <= k <= n,
                        x < n,
                        y < n,
                        acc@ == dot_prefix(ar, br, nn, x as int, y as int, k as int),
                        rat_wf(acc@),
                    decreases n - k,
                {
                    proof {
                        assert(y * nn + k < nn * nn && k * nn + x < nn * nn)
                            by (nonlinear_arith)
                            requires 0 <= y < nn && 0 <= x < nn && 0 <= k < nn;
                        lemma_dot_fits_prefix(ar, br, nn, x as int, y as int, k + 1, nn);
                        assert(ar[y * nn + k] == self.cells()[y * nn + k]@);
                        assert(br[k * nn + x] == o.cells()[k * nn + x]@);
                    }
                    let t = self.data[y * n + k].mul(o.data[k * n + x]);
                    acc = acc.add(t);
                    k = k + 1;
                }
                data.push(acc);
                proof {
                    assert(y * nn + x < nn * nn) by (nonlinear_arith)
                        requires 0 <= y < nn && 0 <= x < nn;
                    lemma_fundamental_div_mod_converse_div(y * nn + x, nn, y as int, x as int);
                    lemma_fundamental_div_mod_converse_mod(y * nn + x, nn, y as int, x as int);
                }
                x = x + 1;
            }
            y = y + 1;
            proof {
                assert((y - 1) * nn + nn == y * nn) by (nonlinear_arith);
            }
        }
        let m = SquareMatrix { size: n, data };
        proof {
            assert(n * nn == nn * nn);
            assert(m.cells().len() == nn * nn);
            assert forall|j: int| 0 <= j < m.cells().len() implies (#[trigger] m.cells()[j]).wf() by {
                assert(m.reps()[j] == m.cells()[j]@);
            }
            assert forall|x: int, y: int|
                0 <= x < m.sz() && 0 <= y < m.sz() implies #[trigger] m.reps()[y * m.sz() + x]
                == dot_prefix(ar, br, nn, x, y, nn) by {
                assert(y * nn + x < nn * nn) by (nonlinear_arith)
                    requires 0 <= x < nn && 0 <= y < nn;
                lemma_fundamental_div_mod_converse_div(y * nn + x, nn, y, x);
                lemma_fundamental_div_mod_converse_mod(y * nn + x, nn, y, x);
            }
        }
        Ok(m)
    }
}

/// Adding a matrix cell and then subtracting it again gives back the first
/// operand's value: over the rational cell values, `(a + b) - b` equals `a`.
pub proof fn lemma_add_sub_cancel(a: Seq<Rat>, b: Seq<Rat>, ab: Seq<Rat>, r: Seq<Rat>)
    requires
        a.len() == b.len(),
        ab.len() == a.len(),
        r.len() == a.len(),
        forall|i: int| 0 <= i < a.len() ==> rat_wf(#[trigger] a[i]),
        forall|i: int| 0 <= i < b.len() ==> rat_wf(#[trigger] b[i]),
        forall|i: int| 0 <= i < ab.len() ==> #[trigger] ab[i] == rat_add(a[i], b[i]),
        forall|i: int| 0 <= i < r.len() ==> #[trigger] r[i] == rat_sub(ab[i], b[i]),
    ensures
        forall|i: int| 0 <= i < r.len() ==> rat_eq(#[trigger] r[i], a[i]),
{
    assert forall|i: int| 0 <= i < r.len() implies rat_eq(#[trigger] r[i], a[i]) by {
        let x = a[i];
        let y = b[i];
        assert(rat_eq(rat_sub(rat_add(x, y), y), x)) by (nonlinear_arith)
            requires rat_wf(x) && rat_wf(y);
    }
}

} // verus!

verus! {

/// The minor of a row-major buffer of size `n`: the buffer of size `n - 1`
/// with row `r` and column `c` removed.
pub open spec fn minor_seq(m: Seq<Rat>, n: int, r: int, c: int) -> Seq<Rat> {
    Seq::new((((n - 1) * (n - 1)) as nat), |i: int|
        {
            let row = i / (n - 1);
            let col = i % (n - 1);
            m[(if row < r {
                row
            } else {
                row + 1
            }) * n + (if col < c {
                col
            } else {
                col + 1
            })]
        },
    )
}

/// The determinant of a row-major buffer of size `n`, by cofactor expansion
/// along the first row. The determinant of the empty matrix is one.
pub open spec fn rat_det(m: Seq<Rat>, n: int) -> Rat
    decreases n, 1int, 0int,
{
    if n <= 0 {
        rat_of_int(1)
    } else {
        det_expand(m, n, n)
    }
}

/// The sum of the first `k` cofactor terms of the expansion of `rat_det`
/// along the first row.
pub open spec fn det_expand(m: Seq<Rat>, n: int, k: int) -> Rat
    decreases n, 0int, k,
{
    if k <= 0 || n <= 0 {
        rat_of_int(0)
    } else {
        let j = k - 1;
        let term0 = rat_mul(m[j], rat_det(minor_seq(m, n, 0, j), n - 1));
        let term = if j % 2 == 0 {
            term0
        } else {
            rat_neg(term0)
        };
        rat_add(det_expand(m, n, j), term)
    }
}

/// The machine bounds under which the determinant of `m` computes exactly.
pub open spec fn det_fits(m: Seq<Rat>, n: int) -> bool
    decreases n, 1int, 0int,
{
    if n <= 0 {
        true
    } else {
        det_expand_fits(m, n, n)
    }
}

/// The machine bounds under which the first `k` cofactor terms compute
/// exactly.
pub open spec fn det_expand_fits(m: Seq<Rat>, n: int, k: int) -> bool
    decreases n, 0int, k,
{
    if k <= 0 || n <= 0 {
        true
    } else {
        let j = k - 1;
        let sub = rat_det(minor_seq(m, n, 0, j), n - 1);
        let term0 = rat_mul(m[j], sub);
        &&& det_expand_fits(m, n, j)
        &&& det_fits(minor_seq(m, n, 0, j), n - 1)
        &&& mul_fits(m[j], sub)
        &&& (j % 2 == 1 ==> neg_fits(term0))
        &&& add_fits(
            det_expand(m, n, j),
            if j % 2 == 0 {
                term0
            } else {
                rat_neg(term0)
            },
        )
    }
}

/// A prefix of the determinant-fitting bounds follows from the whole.
pub proof fn lemma_det_expand_fits_prefix(m: Seq<Rat>, n: int, k: int, j: int)
    requires
        det_expand_fits(m, n, j),
        0 <= k <= j,
    ensures
        det_expand_fits(m, n, k),
    decreases j,
{
    if k < j {
        lemma_det_expand_fits_prefix(m, n, k, j - 1);
    }
}

/// Cell `(x, y)` of the inverse: the cofactor of cell `(y, x)` divided by the
/// determinant.
pub open spec fn inv_cell(m: Seq<Rat>, n: int, x: int, y: int) -> Rat {
    let cof = rat_det(minor_seq(m, n, x, y), n - 1);
    let signed = if (x + y) % 2 == 0 {
        cof
    } else {
        rat_neg(cof)
    };
    rat_div(signed, rat_det(m, n))
}

/// The machine bounds under which every cell of the inverse computes exactly.
pub open spec fn inv_fits(m: Seq<Rat>, n: int) -> bool {
    forall|x: int, y: int|
        0 <= x < n && 0 <= y < n ==> {
            let cof = rat_det(minor_seq(m, n, x, y), n - 1);
            let signed = if (x + y) % 2 == 0 {
                cof
            } else {
                rat_neg(cof)
            };
            &&& #[trigger] det_fits(minor_seq(m, n, x, y), n - 1)
            &&& ((x + y) % 2 == 1 ==> neg_fits(cof))
            &&& div_fits(signed, rat_det(m, n))
        }
}

impl SquareMatrix<Frac> {
    /// The matrix of size `size - 1` with row `r` and column `c` removed.
    #[verifier::loop_isolation(false)]
    fn minor_of(&self, r: usize, c: usize) -> (m: SquareMatrix<Frac>)
        requires
            self.wf(),
            self.sz() >= 1,
            r < self.sz(),
            c < self.sz(),
        ensures
            m.wf(),
            m.sz() == self.sz() - 1,
            m.reps() == minor_seq(self.reps(), self.sz(), r as int, c as int),
    {
        let n = self.size;
        let l = self.data.len();
        let nm = n - 1;
        let ghost nn = self.sz();
        let ghost nnm = nn - 1;
        let mut data: Vec<Frac> = Vec::new();
        let mut row: usize = 0;
        while row < nm
            invariant
                0 <= row <= nm,
                data@.len() == row * nnm,
                forall|j: int|
                    0 <= j < data@.len() ==> #[trigger] data@[j]@ == minor_seq(
                        self.reps(),
                        nn,
                        r as int,
                        c as int,
                    )[j],
                forall|j: int| 0 <= j < data@.len() ==> (#[trigger] data@[j]).wf(),
            decreases nm - row,
        {
            proof {
                assert(row * nnm <= nnm * nnm) by (nonlinear_arith)
                    requires 0 <= row <= nnm;
            }
            let mut col: usize = 0;
            while col < nm
                invariant
                    0 <= col <= nm,
                    row < nm,
                    data@.len() == row * nnm + col,
                    forall|j: int|
                        0 <= j < data@.len() ==> #[trigger] data@[j]@ == minor_seq(
                            self.reps(),
                            nn,
                            r as int,
                            c as int,
                        )[j],
                    forall|j: int| 0 <= j < data@.len() ==> (#[trigger] data@[j]).wf(),
                decreases nm - col,
            {
                let sr = if row < r {
                    row
                } else {
                    row + 1
                };
                let sc = if col < c {
                    col
                } else {
                    col + 1
                };
                proof {
                    assert(sr * nn + sc < nn * nn) by (nonlinear_arith)
                        requires 0 <= sr < nn && 0 <= sc < nn;
                    assert(row * nnm + col < nnm * nnm) by (nonlinear_arith)
                        requires 0 <= row < nnm && 0 <= col < nnm;
                    lemma_fundamental_div_mod_converse_div(
                        row * nnm + col,
                        nnm,
                        row as int,
                        col as int,
                    );
                    lemma_fundamental_div_mod_converse_mod(
                        row * nnm + col,
                        nnm,
                        row as int,
                        col as int,
                    );
                }
                data.push(self.data[sr * n + sc]);
                col = col + 1;
            }
            row = row + 1;
            proof {
                assert((row - 1) * nnm + nnm == row * nnm) by (nonlinear_arith);
            }
        }
        let m = SquareMatrix { size: nm, data };
        proof {
            assert(nm * nnm == nnm * nnm);
            assert(m.reps() =~= minor_seq(self.reps(), nn, r as int, c as int));
        }
        m
    }

    /// The determinant, by cofactor expansion along the first row; the
    /// determinant of the empty matrix is one, and a singular matrix has
    /// determinant zero rather than an error.
    #[verifier::loop_isolation(false)]
    pub fn determinant(&self) -> (r: Frac)
        requires
            self.wf(),
            det_fits(self.reps(), self.sz()),
        ensures
            r@ == rat_det(self.reps(), self.sz()),
            rat_wf(r@),
        decreases self.sz(),
    {
        let n = self.size;
        let ghost nn = self.sz();
        if n == 0 {
            return Frac::from_int(1);
        }
        let mut acc = Frac::from_int(0);
        let mut k: usize = 0;
        while k < n
            invariant
                0 <= k <= n,
                acc@ == det_expand(self.reps(), nn, k as int),
                rat_wf(acc@),
            decreases n - k,
        {
            proof {
                lemma_det_expand_fits_prefix(self.reps(), nn, k + 1, nn);
                assert(k < nn * nn) by (nonlinear_arith)
                    requires 0 <= k && k < nn;
                assert(self.reps()[k as int] == self.cells()[k as int]@);
            }
            let sub = self.minor_of(0, k);
            let d = sub.determinant();
            let mut t = self.data[k].mul(d);
            if k % 2 == 1 {
                t = t.neg();
            }
            acc = acc.add(t);
            k = k + 1;
        }
        acc
    }
}

} // verus!

verus! {

impl SquareMatrix<Frac> {
    /// The inverse, computed non-mutatingly from the adjugate: cell `(x, y)`
    /// is the cofactor of cell `(y, x)` divided by the determinant. Fails
    /// with `SingularMatrix` exactly when the determinant is zero.
    #[verifier::loop_isolation(false)]
    pub fn inverse(&self) -> (r: Result<SquareMatrix<Frac>, MatrixError>)
        requires
            self.wf(),
            det_fits(self.reps(), self.sz()),
            inv_fits(self.reps(), self.sz()),
        ensures
            match r {
                Ok(m) => {
                    &&& !rat_is_zero(rat_det(self.reps(), self.sz()))
                    &&& m.wf()
                    &&& m.sz() == self.sz()
                    &&& forall|x: int, y: int|
                        0 <= x < m.sz() && 0 <= y < m.sz() ==> #[trigger] m.reps()[y
                            * m.sz() + x] == inv_cell(self.reps(), self.sz(), x, y)
                },
                Err(e) => {
                    &&& e == MatrixError::SingularMatrix
                    &&& rat_is_zero(rat_det(self.reps(), self.sz()))
                },
            },
    {
        let n = self.size;
        let l = self.data.len();
        let ghost nn = self.sz();
        let d = self.determinant();
        if d.is_zero() {
            return Err(MatrixError::SingularMatrix);
        }
        let mut data: Vec<Frac> = Vec::new();
        let mut y: usize = 0;
        while y < n
            invariant
                0 <= y <= n,
                data@.len() == y * nn,
                forall|j: int|
                    0 <= j < data@.len() ==> #[trigger] data@[j]@ == inv_cell(
                        self.reps(),
                        nn,
                        j % nn,
                        j / nn,
                    ),
                forall|j: int| 0 <= j < data@.len() ==> (#[trigger] data@[j]).wf(),
            decreases n - y,
        {
            proof {
                assert(y * nn <= nn * nn) by (nonlinear_arith)
                    requires 0 <= y <= nn;
            }
            let mut x: usize = 0;
            while x < n
                invariant
                    0 <= x <= n,
                    y < n,
                    data@.len() == y * nn + x,
                    forall|j: int|
                        0 <= j < data@.len() ==> #[trigger] data@[j]@ == inv_cell(
                            self.reps(),
                            nn,
                            j % nn,
                            j / nn,
                        ),
                    forall|j: int| 0 <= j < data@.len() ==> (#[trigger] data@[j]).wf(),
                decreases n - x,
            {
                proof {
                    assert(det_fits(minor_seq(self.reps(), nn, x as int, y as int), nn
                        - 1));
                    assert(x + y <= usize::MAX) by (nonlinear_arith)
                        requires 0 <= x < nn && 0 <= y < nn && nn * nn <= usize::MAX;
                }
                let sub = self.minor_of(x, y);
                let mut c = sub.determinant();
                if (x + y) % 2 == 1 {
                    c = c.neg();
                }
                let cell = c.div(d);
                data.push(cell);
                proof {
                    assert(y * nn + x < nn * nn) by (nonlinear_arith)
                        requires 0 <= y < nn && 0 <= x < nn;
                    lemma_fundamental_div_mod_converse_div(y * nn + x, nn, y as int, x as int);
                    lemma_fundamental_div_mod_converse_mod(y * nn + x, nn, y as int, x as int);
                }
                x = x + 1;
            }
            y = y + 1;
            proof {
                assert((y - 1) * nn + nn == y * nn) by (nonlinear_arith);
            }
        }
        let m = SquareMatrix { size: n, data };
        proof {
            assert(n * nn == nn * nn);
            assert forall|x: int, y: int|
                0 <= x < m.sz() && 0 <= y < m.sz() implies #[trigger] m.reps()[y * m.sz()
                + x] == inv_cell(self.reps(), nn, x, y) by {
                assert(y * nn + x < nn * nn) by (nonlinear_arith)
                    requires 0 <= x < nn && 0 <= y < nn;
                lemma_fundamental_div_mod_converse_div(y * nn + x, nn, y, x);
                lemma_fundamental_div_mod_converse_mod(y * nn + x, nn, y, x);
            }
        }
        Ok(m)
    }

    /// Replaces the matrix with its inverse; fails with `SingularMatrix`,
    /// leaving the matrix unchanged, exactly when the determinant is zero.
    pub fn invert(&mut self) -> (r: Result<(), MatrixError>)
        requires
            old(self).wf(),
            det_fits(old(self).reps(), old(self).sz()),
            inv_fits(old(self).reps(), old(self).sz()),
        ensures
            match r {
                Ok(u) => {
                    &&& !rat_is_zero(rat_det(old(self).reps(), old(self).sz()))
                    &&& final(self).wf()
                    &&& final(self).sz() == old(self).sz()
                    &&& forall|x: int, y: int|
                        0 <= x < old(self).sz() && 0 <= y < old(self).sz()
                            ==> #[trigger] final(self).reps()[y * old(self).sz() + x]
                            == inv_cell(old(self).reps(), old(self).sz(), x, y)
                },
                Err(e) => {
                    &&& e == MatrixError::SingularMatrix
                    &&& rat_is_zero(rat_det(old(self).reps(), old(self).sz()))
                    &&& *final(self) == *old(self)
                },
            },
    {
        match self.inverse() {
            Ok(m) => {
                *self = m;
                Ok(())
            },
            Err(e) => Err(e),
        }
    }

    /// Elementwise sum in place; on a size mismatch the receiver is left
    /// unchanged.
    pub fn add_assign(&mut self, o: &SquareMatrix<Frac>) -> (r: Result<(), MatrixError>)
        requires
            old(self).wf(),
            o.wf(),
            old(self).sz() == o.sz() ==> add_all_fits(old(self).reps(), o.reps()),
        ensures
            match r {
                Ok(u) => {
                    &&& old(self).sz() == o.sz()
                    &&& final(self).wf()
                    &&& final(self).sz() == old(self).sz()
                    &&& forall|i: int|
                        0 <= i < final(self).cells().len()
                            ==> #[trigger] final(self).reps()[i]
                            == rat_add(old(self).reps()[i], o.reps()[i])
                },
                Err(e) => {
                    &&& e == MatrixError::DimensionMismatch
                    &&& old(self).sz() != o.sz()
                    &&& *final(self) == *old(self)
                },
            },
    {
        match self.add(o) {
            Ok(m) => {
                *self = m;
                Ok(())
            },
            Err(e) => Err(e),
        }
    }

    /// Elementwise difference in place; on a size mismatch the receiver is
    /// left unchanged.
    pub fn sub_assign(&mut self, o: &SquareMatrix<Frac>) -> (r: Result<(), MatrixError>)
        requires
            old(self).wf(),
            o.wf(),
            old(self).sz() == o.sz() ==> sub_all_fits(old(self).reps(), o.reps()),
        ensures
            match r {
                Ok(u) => {
                    &&& old(self).sz() == o.sz()
                    &&& final(self).wf()
                    &&& final(self).sz() == old(self).sz()
                    &&& forall|i: int|
                        0 <= i < final(self).cells().len()
                            ==> #[trigger] final(self).reps()[i]
                            == rat_sub(old(self).reps()[i], o.reps()[i])
                },
                Err(e) => {
                    &&& e == MatrixError::DimensionMismatch
                    &&& old(self).sz() != o.sz()
                    &&& *final(self) == *old(self)
                },
            },
    {
        match self.sub(o) {
            Ok(m) => {
                *self = m;
                Ok(())
            },
            Err(e) => Err(e),
        }
    }

    /// Matrix product in place, computed into a fresh buffer before the
    /// receiver is overwritten; on a size mismatch the receiver is left
    /// unchanged.
    pub fn mul_assign(&mut self, o: &SquareMatrix<Frac>) -> (r: Result<(), MatrixError>)
        requires
            old(self).wf(),
            o.wf(),
            old(self).sz() == o.sz() ==> mul_all_fits(old(self).reps(), o.reps(), old(self).sz()),
        ensures
            match r {
                Ok(u) => {
                    &&& old(self).sz() == o.sz()
                    &&& final(self).wf()
                    &&& final(self).sz() == old(self).sz()
                    &&& forall|x: int, y: int|
                        0 <= x < old(self).sz() && 0 <= y < old(self).sz()
                            ==> #[trigger] final(self).reps()[y * old(self).sz() + x]
                            == dot_prefix(
                            old(self).reps(),
                            o.reps(),
                            old(self).sz(),
                            x,
                            y,
                            old(self).sz(),
                        )
                },
                Err(e) => {
                    &&& e == MatrixError::DimensionMismatch
                    &&& old(self).sz() != o.sz()
                    &&& *final(self) == *old(self)
                },
            },
    {
        match self.mul(o) {
            Ok(m) => {
                *self = m;
                Ok(())
            },
            Err(e) => Err(e),
        }
    }
}

} // verus!

verus! {

/// For matrices of size at most two, the determinant of the transpose equals
/// the determinant: both reduce to the same products of cell values.
pub proof fn lemma_det_transpose_small(m: Seq<Rat>, n: int)
    requires
        0 <= n <= 2,
        m.len() == n * n,
        forall|i: int| 0 <= i < m.len() ==> rat_wf(#[trigger] m[i]),
    ensures
        rat_eq(rat_det(transpose_seq(m, n), n), rat_det(m, n)),
{
    let t = transpose_seq(m, n);
    if n == 0 {
        assert(rat_det(t, 0) == rat_of_int(1));
        assert(rat_det(m, 0) == rat_of_int(1));
    } else if n == 1 {
        assert(t[0] == m[0]);
        assert(rat_det(t, 1) == det_expand(t, 1, 1));
        assert(det_expand(t, 1, 1) == rat_add(
            det_expand(t, 1, 0),
            rat_mul(t[0], rat_det(minor_seq(t, 1, 0, 0), 0)),
        ));
        assert(rat_det(m, 1) == rat_add(
            det_expand(m, 1, 0),
            rat_mul(m[0], rat_det(minor_seq(m, 1, 0, 0), 0)),
        ));
        assert(rat_det(t, 1) == rat_det(m, 1));
    } else {
        let a = m[0];
        let b = m[1];
        let c = m[2];
        let d = m[3];
        assert(t[0] == a && t[1] == c && t[2] == b && t[3] == d);
        lemma_det_two(m);
        lemma_det_two(t);
        assert(rat_eq(rat_det(t, 2), rat_det(m, 2))) by (nonlinear_arith)
            requires
                rat_det(m, 2) == two_by_two_det(a, b, c, d),
                rat_det(t, 2) == two_by_two_det(a, c, b, d),
                rat_wf(a) && rat_wf(b) && rat_wf(c) && rat_wf(d);
    }
}

/// The determinant of a two-by-two buffer `[a, b, c, d]` written out:
/// `a*d - b*c` over a common denominator, as the cofactor expansion builds it.
pub open spec fn two_by_two_det(a: Rat, b: Rat, c: Rat, d: Rat) -> Rat {
    rat_add(
        rat_add(rat_of_int(0), rat_mul(a, rat_add(rat_of_int(0), rat_mul(d, rat_of_int(1))))),
        rat_neg(rat_mul(b, rat_add(rat_of_int(0), rat_mul(c, rat_of_int(1))))),
    )
}

/// Unfolds the cofactor expansion of a two-by-two determinant into
/// `two_by_two_det` of its four cells.
pub proof fn lemma_det_two(m: Seq<Rat>)
    requires
        m.len() == 4,
    ensures
        rat_det(m, 2) == two_by_two_det(m[0], m[1], m[2], m[3]),
{
    let m00 = minor_seq(m, 2, 0, 0);
    let m01 = minor_seq(m, 2, 0, 1);
    assert(m00.len() == 1 && m00[0] == m[3]);
    assert(m01.len() == 1 && m01[0] == m[2]);
    assert(rat_det(m00, 1) == rat_add(
        det_expand(m00, 1, 0),
        rat_mul(m00[0], rat_det(minor_seq(m00, 1, 0, 0), 0)),
    ));
    assert(rat_det(m00, 1) == rat_add(rat_of_int(0), rat_mul(m[3], rat_of_int(1))));
    assert(rat_det(m01, 1) == rat_add(
        det_expand(m01, 1, 0),
        rat_mul(m01[0], rat_det(minor_seq(m01, 1, 0, 0), 0)),
    ));
    assert(rat_det(m01, 1) == rat_add(rat_of_int(0), rat_mul(m[2], rat_of_int(1))));
    assert(det_expand(m, 2, 1) == rat_add(det_expand(m, 2, 0), rat_mul(m[0], rat_det(m00, 1))));
    assert(rat_det(m, 2) == det_expand(m, 2, 2));
    assert(det_expand(m, 2, 2) == rat_add(
        det_expand(m, 2, 1),
        rat_neg(rat_mul(m[1], rat_det(m01, 1))),
    ));
}

} // verus!

verus! {

/// Unfolds the cofactor expansion of a one-by-one determinant.
pub proof fn lemma_det_one(m: Seq<Rat>)
    requires
        m.len() == 1,
    ensures
        rat_det(m, 1) == rat_add(rat_of_int(0), rat_mul(m[0], rat_of_int(1))),
{
    assert(rat_det(m, 1) == det_expand(m, 1, 1));
    assert(det_expand(m, 1, 1) == rat_add(
        det_expand(m, 1, 0),
        rat_mul(m[0], rat_det(minor_seq(m, 1, 0, 0), 0)),
    ));
}

/// For invertible matrices of size at most one, the product of the matrix
/// with its inverse is the identity: over the rational cell values, cell
/// `(0, 0)` of the product equals one. The arithmetic being exact, the
/// tolerance is zero.
pub proof fn lemma_mul_inverse_identity_small(m: Seq<Rat>, v: Seq<Rat>, n: int)
    requires
        0 <= n <= 1,
        m.len() == n * n,
        v.len() == n * n,
        forall|i: int| 0 <= i < m.len() ==> rat_wf(#[trigger] m[i]),
        !rat_is_zero(rat_det(m, n)),
        forall|x: int, y: int|
            0 <= x < n && 0 <= y < n ==> #[trigger] v[y * n + x] == inv_cell(m, n, x, y),
    ensures
        forall|x: int, y: int|
            0 <= x < n && 0 <= y < n ==> rat_eq(
                #[trigger] dot_prefix(m, v, n, x, y, n),
                if x == y {
                    rat_of_int(1)
                } else {
                    rat_of_int(0)
                },
            ),
{
    if n == 1 {
        let a = m[0];
        let dm = rat_det(m, 1);
        lemma_det_one(m);
        let x0: int = 0;
        let y0: int = 0;
        assert(v[y0 * n + x0] == inv_cell(m, n, x0, y0));
        assert(v[0] == inv_cell(m, 1, 0, 0));
        assert(rat_det(minor_seq(m, 1, 0, 0), 0) == rat_of_int(1));
        assert(v[0] == rat_div(rat_of_int(1), dm));
        assert(dot_prefix(m, v, 1, 0, 0, 1) == rat_add(
            dot_prefix(m, v, 1, 0, 0, 0),
            rat_mul(m[0], v[0]),
        ));
        assert(rat_eq(dot_prefix(m, v, 1, 0, 0, 1), rat_of_int(1))) by (nonlinear_arith)
            requires
                dot_prefix(m, v, 1, 0, 0, 1) == rat_add(
                    rat_of_int(0),
                    rat_mul(m[0], rat_div(rat_of_int(1), rat_det(m, 1))),
                ),
                rat_det(m, 1) == rat_add(rat_of_int(0), rat_mul(m[0], rat_of_int(1))),
                rat_wf(m[0]),
                !rat_is_zero(rat_det(m, 1));
    }
}

} // verus!

verus! {

/// The text of the first `x` cells of row `y`: each cell's text followed by a
/// space, except the last cell of the row, which is followed by a newline.
pub open spec fn row_text<T: Scalar>(s: Seq<T>, n: int, y: int, x: int) -> Seq<char>
    decreases x,
{
    if x <= 0 {
        Seq::empty()
    } else {
        row_text(s, n, y, x - 1) + s[y * n + (x - 1)].text_spec() + (if x == n {
            seq!['\n']
        } else {
            seq![' ']
        })
    }
}

/// The text of the first `y` rows: one line per row.
pub open spec fn grid_text<T: Scalar>(s: Seq<T>, n: int, y: int) -> Seq<char>
    decreases y,
{
    if y <= 0 {
        Seq::empty()
    } else {
        grid_text(s, n, y - 1) + row_text(s, n, y - 1, n)
    }
}

impl<T: Scalar> SquareMatrix<T> {
    /// Renders the matrix as rows of space-separated cell texts, one row per
    /// line, each line closed by a newline.
    #[verifier::loop_isolation(false)]
    pub fn to_text(&self) -> (r: String)
        requires
            self.wf(),
        ensures
            r@ == grid_text(self.cells(), self.sz(), self.sz()),
    {
        let n = self.size;
        let l = self.data.len();
        let ghost nn = self.sz();
        let mut out = String::new();
        let mut y: usize = 0;
        while y < n
            invariant
                0 <= y <= n,
                out@ == grid_text(self.cells(), nn, y as int),
            decreases n - y,
        {
            let mut x: usize = 0;
            while x < n
                invariant
                    0 <= x <= n,
                    y < n,
                    out@ == grid_text(self.cells(), nn, y as int) + row_text(
                        self.cells(),
                        nn,
                        y as int,
                        x as int,
                    ),
                decreases n - x,
            {
                proof {
                    assert(y * nn + x < nn * nn) by (nonlinear_arith)
                        requires 0 <= x < nn && 0 <= y < nn;
                }
                let cell = self.data[y * n + x];
                let t = cell.text();
                out.append(t.as_str());
                proof {
                    reveal_strlit("\n");
                    reveal_strlit(" ");
                }
                if x == n - 1 {
                    out.append("\n");
                } else {
                    out.append(" ");
                }
                proof {
                    assert(("\n")@ =~= seq!['\n']);
                    assert((" ")@ =~= seq![' ']);
                    assert(out@ =~= grid_text(self.cells(), nn, y as int) + row_text(
                        self.cells(),
                        nn,
                        y as int,
                        x as int + 1,
                    ));
                }
                x = x + 1;
            }
            y = y + 1;
            proof {
                assert(out@ =~= grid_text(self.cells(), nn, y as int));
            }
        }
        proof {
            assert(out@ == grid_text(self.cells(), nn, nn));
        }
        out
    }
}

} // verus!

verus! {

impl<T: Scalar> Default for SquareMatrix<T> {
    /// The default matrix is the empty matrix of size zero.
    fn default() -> (r: SquareMatrix<T>)
        ensures
            r.wf(),
            r.sz() == 0,
            r.cells() == Seq::<T>::empty(),
    {
        SquareMatrix::new()
    }
}

} // verus!

