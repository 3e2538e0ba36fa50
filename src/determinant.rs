//! Determinant by cofactor expansion along the first row.
use crate::matrix::identity_rows;
use crate::matrix::is_rectangular;
use crate::matrix::minor_of;
use crate::matrix::Matrix;
use core::ops::Add;
use core::ops::Mul;
use core::ops::Neg;
use vstd::prelude::*;
use vstd::std_specs::ops::AddSpec;
use vstd::std_specs::ops::MulSpec;
use vstd::std_specs::ops::NegSpec;

verus! {

/// `+`, `*` and unary `-` of `T` accept every operand.
pub open spec fn total_ring_ops<T: Add<Output = T> + Mul<Output = T> + Neg<Output = T>>() -> bool {
    &&& forall|x: T, y: T| #[trigger] x.add_req(y)
    &&& forall|x: T, y: T| #[trigger] x.mul_req(y)
    &&& forall|x: T| #[trigger] x.neg_req()
}

/// `+`, `*` and unary `-` of `T` compute `add_spec`, `mul_spec` and `neg_spec`.
pub open spec fn exact_ring_ops<T: Add<Output = T> + Mul<Output = T> + Neg<Output = T>>() -> bool {
    &&& T::obeys_add_spec()
    &&& T::obeys_mul_spec()
    &&& T::obeys_neg_spec()
}

/// The signed cofactor of entry `(0, j)`: the determinant of the minor,
/// negated for odd `j`.
pub open spec fn cofactor<T: Add<Output = T> + Mul<Output = T> + Neg<Output = T>>(
    rows: Seq<Seq<T>>,
    j: int,
) -> T
    decreases rows.len(), 0nat,
{
    if rows.len() <= 1 || j < 0 {
        rows[0][0]
    } else {
        let d = det_of(minor_of(rows, 0, j));
        if j % 2 == 0 {
            d
        } else {
            d.neg_spec()
        }
    }
}

/// The sum, from the left, of the first `k` terms `rows[0][j] * cofactor(j)`.
pub open spec fn expansion<T: Add<Output = T> + Mul<Output = T> + Neg<Output = T>>(
    rows: Seq<Seq<T>>,
    k: int,
) -> T
    decreases rows.len(), 1nat, k,
{
    if k <= 1 {
        rows[0][0].mul_spec(cofactor(rows, 0))
    } else {
        expansion(rows, k - 1).add_spec(rows[0][k - 1].mul_spec(cofactor(rows, k - 1)))
    }
}

/// The determinant of a square matrix given by its rows: the sole entry of a
/// 1-by-1 matrix, otherwise the cofactor expansion along the first row.
pub open spec fn det_of<T: Add<Output = T> + Mul<Output = T> + Neg<Output = T>>(
    rows: Seq<Seq<T>>,
) -> T
    decreases rows.len(), 2nat,
{
    if rows.len() <= 1 {
        rows[0][0]
    } else {
        expansion(rows, rows.len() as int)
    }
}

impl<T: Copy + Add<Output = T> + Mul<Output = T> + Neg<Output = T>> Matrix<T> {
    /// The determinant, by cofactor expansion along the first row, with the
    /// terms summed from left to right.
    pub fn determinant(&self) -> (r: T)
        requires
            self.wf(),
            self.num_rows() == self.num_cols(),
            self.num_cols() > 0,
            total_ring_ops::<T>(),
        ensures
            self.num_rows() == 1 ==> r == self@[0][0],
            exact_ring_ops::<T>() ==> r == det_of(self@),
        decreases self.num_rows(),
    {
        let n = self.cols();
        if n == 1 {
            return self.get(0, 0);
        }
        let mut acc = self.get(0, 0);
        let mut j: usize = 0;
        while j < n
            invariant
                self.wf(),
                self.num_rows() == self.num_cols(),
                n == self.num_cols(),
                n > 1,
                total_ring_ops::<T>(),
                j <= n,
                j > 0 && exact_ring_ops::<T>() ==> acc == expansion(self@, j as int),
            decreases n - j,
        {
            let d = self.minor(0, j).determinant();
            let c = if j % 2 == 0 {
                d
            } else {
                d.neg()
            };
            let t = self.get(0, j) * c;
            if j == 0 {
                acc = t;
            } else {
                acc = acc + t;
            }
            proof {
                if exact_ring_ops::<T>() {
                    assert(c == cofactor(self@, j as int));
                    assert(t == self@[0][j as int].mul_spec(cofactor(self@, j as int)));
                    assert(acc == expansion(self@, j + 1));
                }
            }
            j += 1;
        }
        acc
    }
}

/// Deleting the first row and column of an identity leaves a smaller identity.
proof fn lemma_identity_minor<T>(n: nat, zero: T, one: T)
    requires
        n >= 2,
    ensures
        minor_of(identity_rows(n, n, zero, one), 0, 0) == identity_rows(
            (n - 1) as nat,
            (n - 1) as nat,
            zero,
            one,
        ),
{
    let rows = identity_rows(n, n, zero, one);
    let small = identity_rows((n - 1) as nat, (n - 1) as nat, zero, one);
    let mn = minor_of(rows, 0, 0);
    assert forall|i: int| 0 <= i < n - 1 implies #[trigger] mn[i] =~= small[i] by {}
    assert(mn =~= small);
}

/// Along the first row of an identity whose leading minor has determinant
/// `one`, every partial sum of the expansion is `one`.
proof fn lemma_identity_expansion<T: Add<Output = T> + Mul<Output = T> + Neg<Output = T>>(
    n: nat,
    zero: T,
    one: T,
    k: int,
)
    requires
        n >= 2,
        1 <= k <= n,
        det_of(minor_of(identity_rows(n, n, zero, one), 0, 0)) == one,
        forall|x: T| #[trigger] zero.mul_spec(x) == zero,
        one.mul_spec(one) == one,
        one.add_spec(zero) == one,
    ensures
        expansion(identity_rows(n, n, zero, one), k) == one,
    decreases k,
{
    let rows = identity_rows(n, n, zero, one);
    if k > 1 {
        lemma_identity_expansion(n, zero, one, k - 1);
        assert(rows[0][k - 1] == zero);
        assert(zero.mul_spec(cofactor(rows, k - 1)) == zero);
    } else {
        assert(rows[0][0] == one);
        assert(cofactor(rows, 0) == det_of(minor_of(rows, 0, 0)));
    }
}

/// The determinant of an identity is one, for any scalar type in which
/// `0 * x == 0`, `1 * 1 == 1` and `1 + 0 == 1`.
pub proof fn lemma_identity_determinant<T: Add<Output = T> + Mul<Output = T> + Neg<Output = T>>(
    n: nat,
    zero: T,
    one: T,
)
    requires
        n >= 1,
        forall|x: T| #[trigger] zero.mul_spec(x) == zero,
        one.mul_spec(one) == one,
        one.add_spec(zero) == one,
    ensures
        det_of(identity_rows(n, n, zero, one)) == one,
    decreases n,
{
    if n >= 2 {
        lemma_identity_minor(n, zero, one);
        lemma_identity_determinant((n - 1) as nat, zero, one);
        lemma_identity_expansion(n, zero, one, n as int);
    }
}

/// `rows` with every entry of row `i` multiplied by `s`.
pub open spec fn scaled_rows<T: Mul<Output = T>>(rows: Seq<Seq<T>>, i: int, s: T) -> Seq<Seq<T>> {
    rows.update(i, Seq::new(rows[i].len(), |j: int| rows[i][j].mul_spec(s)))
}

/// The laws of a commutative ring that scaling a row relies on.
pub open spec fn ring_laws<T: Add<Output = T> + Mul<Output = T> + Neg<Output = T>>() -> bool {
    &&& forall|x: T, y: T, z: T| #[trigger] x.add_spec(y).mul_spec(z) == x.mul_spec(z).add_spec(y.mul_spec(z))
    &&& forall|x: T, y: T, z: T| #[trigger] x.mul_spec(y.mul_spec(z)) == x.mul_spec(y).mul_spec(z)
    &&& forall|x: T, y: T| #[trigger] x.mul_spec(y) == y.mul_spec(x)
    &&& forall|x: T, y: T| #[trigger] x.mul_spec(y).neg_spec() == x.neg_spec().mul_spec(y)
}

/// Deleting the first row and column `j` commutes with scaling a later row.
proof fn lemma_minor_of_scaled<T: Mul<Output = T>>(rows: Seq<Seq<T>>, n: nat, i: int, j: int, s: T)
    requires
        rows.len() == n,
        n >= 2,
        is_rectangular(rows, n),
        1 <= i < n,
        0 <= j < n,
    ensures
        minor_of(scaled_rows(rows, i, s), 0, j) == scaled_rows(minor_of(rows, 0, j), i - 1, s),
{
    let left = minor_of(scaled_rows(rows, i, s), 0, j);
    let right = scaled_rows(minor_of(rows, 0, j), i - 1, s);
    assert forall|r: int| 0 <= r < n - 1 implies #[trigger] left[r] =~= right[r] by {
        assert(rows[r + 1].len() == n);
    }
    assert(left =~= right);
}

/// Each term of the expansion of the scaled matrix is the original term
/// times `s`, given the claim for the minors.
proof fn lemma_scaled_expansion<T: Add<Output = T> + Mul<Output = T> + Neg<Output = T>>(
    rows: Seq<Seq<T>>,
    n: nat,
    i: int,
    s: T,
    k: int,
)
    requires
        rows.len() == n,
        n >= 2,
        is_rectangular(rows, n),
        0 <= i < n,
        1 <= k <= n,
        ring_laws::<T>(),
        forall|j: int|
            0 <= j < n ==> #[trigger] scaled_rows(rows, i, s)[0][j].mul_spec(
                cofactor(scaled_rows(rows, i, s), j),
            ) == rows[0][j].mul_spec(cofactor(rows, j)).mul_spec(s),
    ensures
        expansion(scaled_rows(rows, i, s), k) == expansion(rows, k).mul_spec(s),
    decreases k,
{
    let sr = scaled_rows(rows, i, s);
    if k > 1 {
        lemma_scaled_expansion(rows, n, i, s, k - 1);
        let e = expansion(rows, k - 1);
        let t = rows[0][k - 1].mul_spec(cofactor(rows, k - 1));
        assert(sr[0][k - 1].mul_spec(cofactor(sr, k - 1)) == t.mul_spec(s));
        assert(e.add_spec(t).mul_spec(s) == e.mul_spec(s).add_spec(t.mul_spec(s)));
    } else {
        assert(sr[0][0].mul_spec(cofactor(sr, 0)) == rows[0][0].mul_spec(cofactor(rows, 0)).mul_spec(s));
    }
}

/// Scaling one row of a square matrix by `s` scales its determinant by `s`,
/// in any scalar type that obeys the laws of a commutative ring.
pub proof fn lemma_scale_row_determinant<T: Add<Output = T> + Mul<Output = T> + Neg<Output = T>>(
    rows: Seq<Seq<T>>,
    i: int,
    s: T,
)
    requires
        rows.len() >= 1,
        is_rectangular(rows, rows.len()),
        0 <= i < rows.len(),
        ring_laws::<T>(),
    ensures
        det_of(scaled_rows(rows, i, s)) == det_of(rows).mul_spec(s),
    decreases rows.len(),
{
    let n = rows.len();
    let sr = scaled_rows(rows, i, s);
    if n == 1 {
        assert(sr[0][0] == rows[0][0].mul_spec(s));
    } else {
        assert forall|j: int| 0 <= j < n implies #[trigger] sr[0][j].mul_spec(cofactor(sr, j))
            == rows[0][j].mul_spec(cofactor(rows, j)).mul_spec(s) by {
            let a = rows[0][j];
            let c = cofactor(rows, j);
            assert(rows[0].len() == n);
            if i == 0 {
                assert(minor_of(sr, 0, j) =~= minor_of(rows, 0, j));
                assert(cofactor(sr, j) == c);
                assert(sr[0][j] == a.mul_spec(s));
                assert(a.mul_spec(s).mul_spec(c) == c.mul_spec(a.mul_spec(s)));
                assert(c.mul_spec(a.mul_spec(s)) == c.mul_spec(a).mul_spec(s));
                assert(c.mul_spec(a) == a.mul_spec(c));
            } else {
                let mn = minor_of(rows, 0, j);
                lemma_minor_of_scaled(rows, n, i, j, s);
                assert forall|r: int| 0 <= r < mn.len() implies #[trigger] mn[r].len() == n - 1 by {
                    assert(rows[r + 1].len() == n);
                }
                lemma_scale_row_determinant(mn, i - 1, s);
                let d = det_of(mn);
                assert(det_of(minor_of(sr, 0, j)) == d.mul_spec(s));
                if j % 2 == 0 {
                    assert(cofactor(sr, j) == c.mul_spec(s));
                } else {
                    assert(cofactor(sr, j) == d.mul_spec(s).neg_spec());
                    assert(d.mul_spec(s).neg_spec() == d.neg_spec().mul_spec(s));
                    assert(cofactor(sr, j) == c.mul_spec(s));
                }
                assert(sr[0][j] == a);
                assert(a.mul_spec(c.mul_spec(s)) == a.mul_spec(c).mul_spec(s));
            }
        }
        lemma_scaled_expansion(rows, n, i, s, n as int);
    }
}

} // verus!
