//! The dense matrix value type and its structural operations.
use vstd::prelude::*;

verus! {

/// True when every row of `rows` has exactly `n` entries.
pub open spec fn is_rectangular<T>(rows: Seq<Seq<T>>, n: nat) -> bool {
    forall|i: int| 0 <= i < rows.len() ==> #[trigger] rows[i].len() == n
}

/// The rows and columns of `rows` exchanged: `n` rows, where row `j` holds
/// the `j`-th entry of each row of `rows`.
pub open spec fn transposed<T>(rows: Seq<Seq<T>>, n: nat) -> Seq<Seq<T>> {
    Seq::new(n, |j: int| Seq::new(rows.len(), |i: int| rows[i][j]))
}

/// `m` rows of `n` entries: `one` where the row index equals the column
/// index, `zero` elsewhere.
pub open spec fn identity_rows<T>(m: nat, n: nat, zero: T, one: T) -> Seq<Seq<T>> {
    Seq::new(m, |i: int| Seq::new(n, |j: int| if i == j { one } else { zero }))
}

/// `s` without its element at index `k`.
pub open spec fn drop_at<T>(s: Seq<T>, k: int) -> Seq<T> {
    s.subrange(0, k) + s.subrange(k + 1, s.len() as int)
}

/// `rows` without row `i`, and without entry `j` of each remaining row.
pub open spec fn minor_of<T>(rows: Seq<Seq<T>>, i: int, j: int) -> Seq<Seq<T>> {
    drop_at(rows, i).map_values(|r: Seq<T>| drop_at(r, j))
}

/// A dense `m`-by-`n` matrix, stored row by row.
///
/// `aug` is a display hint: the first column of a block that was appended
/// by [`Matrix::augment`].
pub struct Matrix<T> {
    v: Vec<Vec<T>>,
    m: usize,
    n: usize,
    aug: Option<usize>,
}

impl<T> View for Matrix<T> {
    type V = Seq<Seq<T>>;

    closed spec fn view(&self) -> Seq<Seq<T>> {
        self.v@.map_values(|r: Vec<T>| r@)
    }
}

impl<T: Copy> Matrix<T> {
    /// Number of rows.
    pub closed spec fn num_rows(&self) -> nat {
        self.m as nat
    }

    /// Number of columns.
    pub closed spec fn num_cols(&self) -> nat {
        self.n as nat
    }

    /// The column at which an appended block begins, if any.
    pub closed spec fn boundary(&self) -> Option<usize> {
        self.aug
    }

    /// The shape invariant: `num_rows` rows of `num_cols` entries each.
    pub open spec fn wf(&self) -> bool {
        &&& self@.len() == self.num_rows()
        &&& is_rectangular(self@, self.num_cols())
    }

    /// Number of rows.
    pub fn rows(&self) -> (r: usize)
        ensures
            r == self.num_rows(),
    {
        self.m
    }

    /// Number of columns.
    pub fn cols(&self) -> (r: usize)
        ensures
            r == self.num_cols(),
    {
        self.n
    }

    /// The column at which an appended block begins, if any.
    pub fn augment_boundary(&self) -> (r: Option<usize>)
        ensures
            r == self.boundary(),
    {
        self.aug
    }

    /// The entry in row `i`, column `j`.
    pub fn get(&self, i: usize, j: usize) -> (r: T)
        requires
            self.wf(),
            i < self.num_rows(),
            j < self.num_cols(),
        ensures
            r == self@[i as int][j as int],
    {
        assert(self.v@[i as int]@ == self@[i as int]);
        self.v[i][j]
    }

    /// Replaces the entry in row `i`, column `j` with `x`.
    pub fn set(&mut self, i: usize, j: usize, x: T)
        requires
            old(self).wf(),
            i < old(self).num_rows(),
            j < old(self).num_cols(),
        ensures
            final(self).wf(),
            final(self).num_rows() == old(self).num_rows(),
            final(self).num_cols() == old(self).num_cols(),
            final(self).boundary() == old(self).boundary(),
            final(self)@ == old(self)@.update(i as int, old(self)@[i as int].update(j as int, x)),
    {
        let ghost rows = self.v@;
        assert(rows[i as int]@ == old(self)@[i as int]);
        let row = &mut self.v[i];
        row.set(j, x);
        assert(self.v@[i as int]@ == rows[i as int]@.update(j as int, x));
        assert(self@ =~= old(self)@.update(i as int, old(self)@[i as int].update(j as int, x)));
    }

    /// Builds a matrix from a non-empty sequence of rows of equal length.
    pub fn from_rows(v: Vec<Vec<T>>) -> (r: Matrix<T>)
        requires
            v@.len() > 0,
            forall|i: int| 0 <= i < v@.len() ==> #[trigger] v@[i]@.len() == v@[0]@.len(),
        ensures
            r.wf(),
            r@ == v@.map_values(|row: Vec<T>| row@),
            r.num_rows() == v@.len(),
            r.num_cols() == v@[0]@.len(),
            r.boundary() is None,
    {
        let m = v.len();
        let n = v[0].len();
        Matrix { v, m, n, aug: None }
    }

    /// An `m`-by-`n` matrix with `one` where the row index equals the column
    /// index and `zero` everywhere else.
    pub fn identity(m: usize, n: usize, zero: T, one: T) -> (r: Matrix<T>)
        ensures
            r.wf(),
            r.num_rows() == m,
            r.num_cols() == n,
            r.boundary() is None,
            r@ == identity_rows(m as nat, n as nat, zero, one),
    {
        let mut v: Vec<Vec<T>> = Vec::with_capacity(m);
        let mut i: usize = 0;
        while i < m
            invariant
                i <= m,
                v@.len() == i,
                forall|a: int| 0 <= a < i ==> #[trigger] v@[a]@.len() == n,
                forall|a: int, b: int|
                    0 <= a < i && 0 <= b < n ==> #[trigger] v@[a]@[b] == if a == b {
                        one
                    } else {
                        zero
                    },
            decreases m - i,
        {
            let mut row: Vec<T> = Vec::with_capacity(n);
            let mut j: usize = 0;
            while j < n
                invariant
                    j <= n,
                    i < m,
                    row@.len() == j,
                    forall|b: int| 0 <= b < j ==> #[trigger] row@[b] == if i == b {
                        one
                    } else {
                        zero
                    },
                decreases n - j,
            {
                if i == j {
                    row.push(one);
                } else {
                    row.push(zero);
                }
                j += 1;
            }
            v.push(row);
            i += 1;
        }
        let r = Matrix { v, m, n, aug: None };
        assert forall|a: int| 0 <= a < m implies #[trigger] r@[a] =~= identity_rows(
            m as nat,
            n as nat,
            zero,
            one,
        )[a] by {
            assert(r@[a] == v@[a]@);
        }
        assert(r@ =~= identity_rows(m as nat, n as nat, zero, one));
        r
    }

    /// The `n`-by-`m` matrix whose entry at `(j, i)` is this matrix's entry
    /// at `(i, j)`.
    pub fn transpose(&self) -> (r: Matrix<T>)
        requires
            self.wf(),
        ensures
            r.wf(),
            r.num_rows() == self.num_cols(),
            r.num_cols() == self.num_rows(),
            r.boundary() is None,
            r@ == transposed(self@, self.num_cols()),
    {
        let m = self.n;
        let n = self.m;
        let mut v: Vec<Vec<T>> = Vec::with_capacity(m);
        let mut j: usize = 0;
        while j < m
            invariant
                self.wf(),
                m == self.n,
                n == self.m,
                j <= m,
                v@.len() == j,
                forall|a: int| 0 <= a < j ==> #[trigger] v@[a]@.len() == n,
                forall|a: int, b: int|
                    0 <= a < j && 0 <= b < n ==> #[trigger] v@[a]@[b] == self@[b][a],
            decreases m - j,
        {
            let mut row: Vec<T> = Vec::with_capacity(n);
            let mut i: usize = 0;
            while i < n
                invariant
                    self.wf(),
                    m == self.n,
                    n == self.m,
                    j < m,
                    i <= n,
                    row@.len() == i,
                    forall|b: int| 0 <= b < i ==> #[trigger] row@[b] == self@[b][j as int],
                decreases n - i,
            {
                assert(self.v@[i as int]@ == self@[i as int]);
                row.push(self.v[i][j]);
                i += 1;
            }
            v.push(row);
            j += 1;
        }
        let r = Matrix { v, m, n, aug: None };
        assert forall|a: int| 0 <= a < m implies #[trigger] r@[a] =~= transposed(
            self@,
            self.num_cols(),
        )[a] by {
            assert(r@[a] == v@[a]@);
        }
        assert(r@ =~= transposed(self@, self.num_cols()));
        r
    }

    /// The matrix left after deleting row `i` and column `j`.
    pub fn minor(&self, i: usize, j: usize) -> (r: Matrix<T>)
        requires
            self.wf(),
            self.num_rows() > 1,
            self.num_cols() > 1,
            i < self.num_rows(),
            j < self.num_cols(),
        ensures
            r.wf(),
            r.num_rows() == self.num_rows() - 1,
            r.num_cols() == self.num_cols() - 1,
            r.boundary() is None,
            r@ == minor_of(self@, i as int, j as int),
    {
        let m = self.m - 1;
        let n = self.n - 1;
        let mut v: Vec<Vec<T>> = Vec::with_capacity(m);
        let mut a: usize = 0;
        while a < self.m
            invariant
                self.wf(),
                m == self.m - 1,
                n == self.n - 1,
                i < self.m,
                j < self.n,
                a <= self.m,
                v@.len() == if a <= i { a as int } else { a - 1 },
                forall|x: int| 0 <= x < v@.len() ==> #[trigger] v@[x]@.len() == n,
                forall|x: int| 0 <= x < v@.len() ==> #[trigger] v@[x]@ == drop_at(
                    self@[if x < i { x } else { x + 1 }],
                    j as int,
                ),
            decreases self.m - a,
        {
            if a != i {
                let ghost src = self@[a as int];
                assert(self.v@[a as int]@ == src);
                let mut row: Vec<T> = Vec::with_capacity(n);
                let mut b: usize = 0;
                while b < self.n
                    invariant
                        self.wf(),
                        n == self.n - 1,
                        j < self.n,
                        a < self.m,
                        src == self@[a as int],
                        self.v@[a as int]@ == src,
                        b <= self.n,
                        row@.len() == if b <= j { b as int } else { b - 1 },
                        forall|y: int| 0 <= y < row@.len() ==> #[trigger] row@[y] == src[
                            if y < j { y } else { y + 1 }
                        ],
                    decreases self.n - b,
                {
                    if b != j {
                        row.push(self.v[a][b]);
                    }
                    b += 1;
                }
                assert(row@ =~= drop_at(src, j as int));
                v.push(row);
            }
            a += 1;
        }
        let r = Matrix { v, m, n, aug: None };
        assert(r@ =~= minor_of(self@, i as int, j as int));
        r
    }

    /// Places the columns of `other` to the right of this matrix's columns,
    /// row by row; the result remembers where `other`'s columns begin.
    pub fn augment(&self, other: Matrix<T>) -> (r: Matrix<T>)
        requires
            self.wf(),
            other.wf(),
            other.num_rows() == self.num_rows(),
            self.num_cols() + other.num_cols() <= usize::MAX,
        ensures
            r.wf(),
            r.num_rows() == self.num_rows(),
            r.num_cols() == self.num_cols() + other.num_cols(),
            r.boundary() == Some(self.num_cols() as usize),
            forall|i: int| 0 <= i < r.num_rows() ==> #[trigger] r@[i] == self@[i] + other@[i],
    {
        let m = other.m;
        let n = self.n + other.n;
        let mut v: Vec<Vec<T>> = Vec::with_capacity(m);
        let mut i: usize = 0;
        while i < m
            invariant
                self.wf(),
                other.wf(),
                m == self.m,
                m == other.m,
                n == self.n + other.n,
                i <= m,
                v@.len() == i,
                forall|x: int| 0 <= x < i ==> #[trigger] v@[x]@ == self@[x] + other@[x],
            decreases m - i,
        {
            let mut row: Vec<T> = Vec::with_capacity(n);
            let mut j: usize = 0;
            while j < self.n
                invariant
                    self.wf(),
                    i < self.m,
                    j <= self.n,
                    row@ == self@[i as int].subrange(0, j as int),
                decreases self.n - j,
            {
                assert(self.v@[i as int]@ == self@[i as int]);
                row.push(self.v[i][j]);
                j += 1;
                assert(row@ =~= self@[i as int].subrange(0, j as int));
            }
            let mut j: usize = 0;
            while j < other.n
                invariant
                    self.wf(),
                    other.wf(),
                    i < self.m,
                    i < other.m,
                    j <= other.n,
                    row@ == self@[i as int] + other@[i as int].subrange(0, j as int),
                decreases other.n - j,
            {
                assert(other.v@[i as int]@ == other@[i as int]);
                row.push(other.v[i][j]);
                j += 1;
                assert(row@ =~= self@[i as int] + other@[i as int].subrange(0, j as int));
            }
            assert(other@[i as int].subrange(0, other.n as int) =~= other@[i as int]);
            v.push(row);
            i += 1;
        }
        let r = Matrix { v, m, n, aug: Some(self.n) };
        assert forall|x: int| 0 <= x < r@.len() implies #[trigger] r@[x].len() == n by {
            assert(r@[x] == self@[x] + other@[x]);
        }
        r
    }

    /// Exchanges rows `i` and `j`.
    pub fn swap_rows(&mut self, i: usize, j: usize)
        requires
            old(self).wf(),
            i < old(self).num_rows(),
            j < old(self).num_rows(),
        ensures
            final(self).wf(),
            final(self).num_rows() == old(self).num_rows(),
            final(self).num_cols() == old(self).num_cols(),
            final(self).boundary() == old(self).boundary(),
            final(self)@ == old(self)@.update(i as int, old(self)@[j as int]).update(
                j as int,
                old(self)@[i as int],
            ),
    {
        let ghost rows = self.v@;
        if i != j {
            let mut tmp: Vec<T> = Vec::new();
            std::mem::swap(&mut tmp, &mut self.v[i]);
            std::mem::swap(&mut tmp, &mut self.v[j]);
            std::mem::swap(&mut tmp, &mut self.v[i]);
        }
        assert(self.v@ =~= rows.update(i as int, rows[j as int]).update(j as int, rows[i as int]));
        assert(self@ =~= old(self)@.update(i as int, old(self)@[j as int]).update(
            j as int,
            old(self)@[i as int],
        ));
    }
}

/// Transposing twice gives back the original rows.
pub proof fn lemma_transpose_involution<T>(rows: Seq<Seq<T>>, n: nat)
    requires
        is_rectangular(rows, n),
    ensures
        transposed(transposed(rows, n), rows.len()) == rows,
{
    let t = transposed(transposed(rows, n), rows.len());
    assert forall|i: int| 0 <= i < rows.len() implies #[trigger] t[i] =~= rows[i] by {}
    assert(t =~= rows);
}

} // verus!
