//! Elementary row operations and row reduction to echelon form.
use crate::determinant::scaled_rows;
use crate::matrix::is_rectangular;
use crate::matrix::Matrix;
use core::ops::Add;
use core::ops::Div;
use core::ops::Mul;
use core::ops::Neg;
use core::ops::Sub;
use vstd::prelude::*;
use vstd::std_specs::cmp::PartialEqSpec;
use vstd::std_specs::cmp::PartialOrdSpec;
use vstd::std_specs::ops::AddSpec;
use vstd::std_specs::ops::NegSpec;
use vstd::std_specs::ops::DivSpec;
use vstd::std_specs::ops::MulSpec;
use vstd::std_specs::ops::SubSpec;

verus! {

/// `x` is a value that `T::default()` returns (`0.0` for floats, `0` for
/// integers).
pub open spec fn is_default_value<T: Default>(x: T) -> bool {
    call_ensures(T::default, (), x)
}

/// Row `target` plus `scalar` times row `source`, entry by entry.
pub open spec fn added_scaled<T: Add<Output = T> + Mul<Output = T>>(
    target: Seq<T>,
    source: Seq<T>,
    scalar: T,
) -> Seq<T> {
    Seq::new(target.len(), |j: int| target[j].add_spec(scalar.mul_spec(source[j])))
}

/// Pivot columns `ks` of `rows`, one for each of the first `ks.len()` rows:
/// they increase strictly, and below row `a` every entry of column `ks[a]`
/// is `z`.
pub open spec fn zeros_below_pivots<T>(rows: Seq<Seq<T>>, ks: Seq<int>, z: T) -> bool {
    &&& ks.len() <= rows.len()
    &&& forall|a: int, b: int| 0 <= a < b < ks.len() ==> ks[a] < ks[b]
    &&& forall|a: int| 0 <= a < ks.len() ==> 0 <= #[trigger] ks[a]
    &&& forall|a: int, r: int|
        0 <= a < ks.len() && a < r < rows.len() ==> #[trigger] rows[r][ks[a]] == z
}

/// `a < b` as `T`'s comparison specifies it.
pub open spec fn less_than<T: PartialOrd>(a: T, b: T) -> bool {
    a.partial_cmp_spec(&b) == Some(core::cmp::Ordering::Less)
}

/// The absolute value of `x`: `-x` where `x < z`, else `x`.
pub open spec fn magnitude_of<T: PartialOrd + Neg<Output = T>>(x: T, z: T) -> T {
    if less_than(x, z) {
        x.neg_spec()
    } else {
        x
    }
}

/// Among rows `h .. i` (with `h < i`), the row whose entry in column `k` is
/// largest in magnitude; the last one on ties.
pub open spec fn pivot_upto<T: PartialOrd + Neg<Output = T>>(
    rows: Seq<Seq<T>>,
    h: int,
    k: int,
    z: T,
    i: int,
) -> int
    decreases i - h,
{
    if i <= h + 1 {
        h
    } else {
        let b = pivot_upto(rows, h, k, z, i - 1);
        if !less_than(magnitude_of(rows[i - 1][k], z), magnitude_of(rows[b][k], z)) {
            i - 1
        } else {
            b
        }
    }
}

/// `rows` with rows `a` and `b` exchanged.
pub open spec fn swapped<T>(rows: Seq<Seq<T>>, a: int, b: int) -> Seq<Seq<T>> {
    rows.update(a, rows[b]).update(b, rows[a])
}

/// `row` after elimination against `pivot` in column `k`: unchanged to the
/// left, `z` in column `k`, and `row[c] - pivot[c] * f` to the right, where
/// `f = row[k] / pivot[k]`.
pub open spec fn eliminated_row<T: Sub<Output = T> + Mul<Output = T> + Div<Output = T>>(
    pivot: Seq<T>,
    row: Seq<T>,
    k: int,
    z: T,
) -> Seq<T> {
    let f = row[k].div_spec(pivot[k]);
    Seq::new(
        row.len(),
        |c: int|
            if c < k {
                row[c]
            } else if c == k {
                z
            } else {
                row[c].sub_spec(pivot[c].mul_spec(f))
            },
    )
}

/// Every row below row `h` eliminated against row `h` in column `k`.
pub open spec fn eliminate_below<T: Sub<Output = T> + Mul<Output = T> + Div<Output = T>>(
    rows: Seq<Seq<T>>,
    h: int,
    k: int,
    z: T,
) -> Seq<Seq<T>> {
    Seq::new(
        rows.len(),
        |r: int|
            if r > h {
                eliminated_row(rows[h], rows[r], k, z)
            } else {
                rows[r]
            },
    )
}

/// Row reduction of a matrix with `n` columns, continued from pivot row `h`
/// and column `k`: while both are in range, pick the pivot at or below `h` in
/// column `k`; if its magnitude is above `z`, swap it into row `h`,
/// eliminate below it and advance `h`; advance `k` in any case.
pub open spec fn reduce_from<
    T: PartialOrd + Sub<Output = T> + Mul<Output = T> + Div<Output = T> + Neg<Output = T>,
>(rows: Seq<Seq<T>>, n: int, h: int, k: int, z: T) -> Seq<Seq<T>>
    decreases n - k,
{
    if 0 <= h < rows.len() && 0 <= k < n {
        let b = pivot_upto(rows, h, k, z, rows.len() as int);
        if less_than(z, magnitude_of(rows[b][k], z)) {
            reduce_from(eliminate_below(swapped(rows, h, b), h, k, z), n, h + 1, k + 1, z)
        } else {
            reduce_from(rows, n, h, k + 1, z)
        }
    } else {
        rows
    }
}

/// The row-echelon form that Gaussian elimination with partial pivoting
/// gives for the square matrix `rows`, with `z` as zero.
pub open spec fn row_reduced<
    T: PartialOrd + Sub<Output = T> + Mul<Output = T> + Div<Output = T> + Neg<Output = T>,
>(rows: Seq<Seq<T>>, z: T) -> Seq<Seq<T>> {
    reduce_from(rows, rows.len() as int, 0, 0, z)
}

/// The operators and the comparison that row reduction uses compute their
/// specifications.
pub open spec fn exact_elimination_ops<
    T: PartialOrd + Sub<Output = T> + Mul<Output = T> + Div<Output = T> + Neg<Output = T>,
>() -> bool {
    &&& T::obeys_partial_cmp_spec()
    &&& T::obeys_neg_spec()
    &&& T::obeys_sub_spec()
    &&& T::obeys_mul_spec()
    &&& T::obeys_div_spec()
}

impl<T: Copy + Default> Matrix<T> {
    /// Multiplies every entry of row `i` by `scalar` and returns `true`,
    /// unless `scalar` compares equal to zero (`T::default()`) under `T`'s
    /// own `==`: that is no invertible row operation, so the matrix is left
    /// as it is and `false` comes back.
    pub fn scale_row(&mut self, i: usize, scalar: T) -> (applied: bool)
        where T: PartialEq + Mul<Output = T>,
        requires
            old(self).wf(),
            i < old(self).num_rows(),
            forall|x: T, y: T| #[trigger] x.mul_req(y),
        ensures
            final(self).wf(),
            final(self).num_rows() == old(self).num_rows(),
            final(self).num_cols() == old(self).num_cols(),
            final(self).boundary() == old(self).boundary(),
            exists|z: T|
                #[trigger] is_default_value(z) && (T::obeys_eq_spec() ==> (applied <==> !scalar.eq_spec(&z))),
            !applied ==> final(self)@ == old(self)@,
            forall|r: int| 0 <= r < old(self)@.len() && r != i ==> #[trigger] final(self)@[r] == old(self)@[r],
            applied && T::obeys_mul_spec() ==> final(self)@ == scaled_rows(old(self)@, i as int, scalar),
    {
        let zero = T::default();
        let refused = scalar.eq(&zero);
        assert(is_default_value(zero));
        if refused {
            return false;
        }
        let ghost orig = self@;
        let n = self.cols();
        let mut j: usize = 0;
        while j < n
            invariant
                self.wf(),
                orig == old(self)@,
                orig.len() == self@.len(),
                is_rectangular(orig, n as nat),
                self.num_rows() == old(self).num_rows(),
                n == self.num_cols(),
                n == old(self).num_cols(),
                self.boundary() == old(self).boundary(),
                i < self.num_rows(),
                forall|x: T, y: T| #[trigger] x.mul_req(y),
                j <= n,
                forall|r: int| 0 <= r < orig.len() && r != i ==> #[trigger] self@[r] == orig[r],
                forall|c: int| j <= c < n ==> #[trigger] self@[i as int][c] == orig[i as int][c],
                T::obeys_mul_spec() ==> forall|c: int|
                    0 <= c < j ==> #[trigger] self@[i as int][c] == orig[i as int][c].mul_spec(scalar),
            decreases n - j,
        {
            let ghost prev = self@;
            let x = self.get(i, j) * scalar;
            self.set(i, j, x);
            assert(forall|r: int| 0 <= r < prev.len() && r != i ==> #[trigger] self@[r] == prev[r]);
            assert(forall|c: int| 0 <= c < n && c != j ==> #[trigger] self@[i as int][c] == prev[i as int][c]);
            j += 1;
        }
        assert(T::obeys_mul_spec() ==> self@[i as int] =~= scaled_rows(old(self)@, i as int, scalar)[i as int]);
        assert(T::obeys_mul_spec() ==> self@ =~= scaled_rows(old(self)@, i as int, scalar));
        true
    }

    /// Adds `scalar` times row `source` to row `target`, entry by entry, and
    /// returns `true`; the two rows are distinct. Where `scalar` compares
    /// equal to zero (`T::default()`) under `T`'s own `==`, the call would be
    /// a no-op and is refused: the matrix is left as it is and `false` comes
    /// back.
    pub fn add_scaled_row(&mut self, target: usize, source: usize, scalar: T) -> (applied: bool)
        where T: PartialEq + Add<Output = T> + Mul<Output = T>,
        requires
            old(self).wf(),
            target < old(self).num_rows(),
            source < old(self).num_rows(),
            target != source,
            forall|x: T, y: T| #[trigger] x.mul_req(y),
            forall|x: T, y: T| #[trigger] x.add_req(y),
        ensures
            final(self).wf(),
            final(self).num_rows() == old(self).num_rows(),
            final(self).num_cols() == old(self).num_cols(),
            final(self).boundary() == old(self).boundary(),
            exists|z: T|
                #[trigger] is_default_value(z) && (T::obeys_eq_spec() ==> (applied <==> !scalar.eq_spec(&z))),
            !applied ==> final(self)@ == old(self)@,
            forall|r: int|
                0 <= r < old(self)@.len() && r != target ==> #[trigger] final(self)@[r] == old(self)@[r],
            applied && T::obeys_mul_spec() && T::obeys_add_spec() ==> final(self)@[target as int] == added_scaled(
                old(self)@[target as int],
                old(self)@[source as int],
                scalar,
            ),
    {
        let zero = T::default();
        let refused = scalar.eq(&zero);
        assert(is_default_value(zero));
        if refused {
            return false;
        }
        let ghost orig = self@;
        let n = self.cols();
        let mut j: usize = 0;
        while j < n
            invariant
                self.wf(),
                orig == old(self)@,
                orig.len() == self@.len(),
                is_rectangular(orig, n as nat),
                self.num_rows() == old(self).num_rows(),
                n == self.num_cols(),
                n == old(self).num_cols(),
                self.boundary() == old(self).boundary(),
                target < self.num_rows(),
                source < self.num_rows(),
                target != source,
                forall|x: T, y: T| #[trigger] x.mul_req(y),
                forall|x: T, y: T| #[trigger] x.add_req(y),
                j <= n,
                forall|r: int|
                    0 <= r < orig.len() && r != target ==> #[trigger] self@[r] == orig[r],
                forall|c: int| j <= c < n ==> #[trigger] self@[target as int][c] == orig[target as int][c],
                T::obeys_mul_spec() && T::obeys_add_spec() ==> forall|c: int|
                    0 <= c < j ==> #[trigger] self@[target as int][c] == added_scaled(
                        orig[target as int],
                        orig[source as int],
                        scalar,
                    )[c],
            decreases n - j,
        {
            let ghost prev = self@;
            let x = self.get(target, j) + scalar * self.get(source, j);
            self.set(target, j, x);
            assert(forall|r: int| 0 <= r < prev.len() && r != target ==> #[trigger] self@[r] == prev[r]);
            assert(forall|c: int|
                0 <= c < n && c != j ==> #[trigger] self@[target as int][c] == prev[target as int][c]);
            j += 1;
        }
        assert(T::obeys_mul_spec() && T::obeys_add_spec() ==> self@[target as int] =~= added_scaled(
            old(self)@[target as int],
            old(self)@[source as int],
            scalar,
        ));
        true
    }

    /// The absolute value of `x`: `-x` where `x < zero`, else `x`.
    fn magnitude(x: T, zero: T) -> (r: T)
        where T: PartialOrd + Neg<Output = T>,
        requires
            forall|y: T| #[trigger] y.neg_req(),
        ensures
            T::obeys_partial_cmp_spec() && T::obeys_neg_spec() ==> r == magnitude_of(x, zero),
    {
        if x < zero {
            x.neg()
        } else {
            x
        }
    }

    /// Brings the square matrix to row-echelon form by Gaussian elimination
    /// with partial pivoting, as `row_reduced` describes step by step.
    ///
    /// Column by column, from pivot row `h = 0`: the row at or below `h`
    /// whose entry in the column is largest in magnitude (the last such row
    /// on ties) becomes the pivot. When that magnitude is above zero, the
    /// pivot row is swapped into row `h`; each row below it gets zero in the
    /// column and, to the right, its entries less `f` times the pivot row's,
    /// `f` being its entry in the column divided by the pivot's; and `h`
    /// advances.
    ///
    /// What is proved of the result: where `T`'s operators and comparison
    /// compute their specifications, it is exactly `row_reduced` of the
    /// input, and each pivot entry is above zero in magnitude. Whatever they
    /// compute, the pivots' columns increase strictly and, below each pivot
    /// row, its column holds exactly `T::default()`.
    pub fn row_reduce(&mut self)
        where T: PartialOrd + Sub<Output = T> + Mul<Output = T> + Div<Output = T> + Neg<Output = T>,
        requires
            old(self).wf(),
            old(self).num_rows() == old(self).num_cols(),
            old(self).num_cols() > 0,
            forall|x: T| #[trigger] x.neg_req(),
            forall|x: T, y: T| #[trigger] x.sub_req(y),
            forall|x: T, y: T| #[trigger] x.mul_req(y),
            forall|x: T, y: T| #[trigger] x.div_req(y),
        ensures
            final(self).wf(),
            final(self).num_rows() == old(self).num_rows(),
            final(self).num_cols() == old(self).num_cols(),
            final(self).boundary() == old(self).boundary(),
            exists|z: T|
                #[trigger] is_default_value(z) && (exact_elimination_ops::<T>() ==> final(self)@
                    == row_reduced(old(self)@, z)),
            exists|ks: Seq<int>, z: T|
                is_default_value(z) && #[trigger] zeros_below_pivots(final(self)@, ks, z)
                    && (forall|a: int| 0 <= a < ks.len() ==> #[trigger] ks[a] < final(self).num_cols())
                    && (exact_elimination_ops::<T>() ==> forall|a: int|
                    0 <= a < ks.len() ==> less_than(z, magnitude_of(#[trigger] final(self)@[a][ks[a]], z))),
    {
        let zero = T::default();
        let m = self.rows();
        let n = self.cols();
        let mut h: usize = 0;
        let mut k: usize = 0;
        let ghost mut ks: Seq<int> = Seq::empty();
        while h < m && k < n
            invariant
                self.wf(),
                self.num_rows() == m,
                self.num_cols() == n,
                m == n,
                self.boundary() == old(self).boundary(),
                m == old(self).num_rows(),
                n == old(self).num_cols(),
                is_default_value(zero),
                forall|x: T| #[trigger] x.neg_req(),
                forall|x: T, y: T| #[trigger] x.sub_req(y),
                forall|x: T, y: T| #[trigger] x.mul_req(y),
                forall|x: T, y: T| #[trigger] x.div_req(y),
                h <= m,
                k <= n,
                ks.len() == h,
                forall|a: int| 0 <= a < ks.len() ==> #[trigger] ks[a] < k,
                zeros_below_pivots(self@, ks, zero),
                exact_elimination_ops::<T>() ==> forall|a: int|
                    0 <= a < ks.len() ==> less_than(zero, magnitude_of(#[trigger] self@[a][ks[a]], zero)),
                exact_elimination_ops::<T>() ==> reduce_from(self@, n as int, h as int, k as int, zero)
                    == row_reduced(old(self)@, zero),
            decreases n - k,
        {
            let ghost cur = self@;
            let mut best_i: usize = h;
            let mut best = Self::magnitude(self.get(h, k), zero);
            let mut i: usize = h + 1;
            while i < m
                invariant
                    self.wf(),
                    self@ == cur,
                    self.num_rows() == m,
                    self.num_cols() == n,
                    h < m,
                    k < n,
                    forall|x: T| #[trigger] x.neg_req(),
                    h <= best_i < m,
                    h < i <= m,
                    exact_elimination_ops::<T>() ==> best_i == pivot_upto(cur, h as int, k as int, zero, i as int)
                        && best == magnitude_of(cur[best_i as int][k as int], zero),
                decreases m - i,
            {
                let a = Self::magnitude(self.get(i, k), zero);
                if !(a < best) {
                    best = a;
                    best_i = i;
                }
                i += 1;
            }
            if zero < best {
                self.swap_rows(h, best_i);
                let ghost s = self@;
                proof {
                    assert(s =~= swapped(cur, h as int, best_i as int));
                    assert forall|a: int, r: int|
                        0 <= a < ks.len() && a < r < self@.len() implies #[trigger] self@[r][ks[a]]
                        == zero by {
                        assert(a < h);
                    }
                }
                let p = self.get(h, k);
                let mut i: usize = h + 1;
                while i < m
                    invariant
                        self.wf(),
                        self.num_rows() == m,
                        self.num_cols() == n,
                        self.boundary() == old(self).boundary(),
                        s.len() == m,
                        is_rectangular(s, n as nat),
                        p == s[h as int][k as int],
                        h < m,
                        k < n,
                        forall|x: T, y: T| #[trigger] x.sub_req(y),
                        forall|x: T, y: T| #[trigger] x.mul_req(y),
                        forall|x: T, y: T| #[trigger] x.div_req(y),
                        h < i <= m,
                        ks.len() == h,
                        forall|a: int| 0 <= a < ks.len() ==> #[trigger] ks[a] < k,
                        zeros_below_pivots(self@, ks, zero),
                        forall|r: int| h < r < i ==> #[trigger] self@[r][k as int] == zero,
                        forall|r: int| 0 <= r < m && (r <= h || r >= i) ==> #[trigger] self@[r] == s[r],
                        exact_elimination_ops::<T>() ==> forall|r: int|
                            h < r < i ==> #[trigger] self@[r] == eliminated_row(
                                s[h as int],
                                s[r],
                                k as int,
                                zero,
                            ),
                    decreases m - i,
                {
                    let f = self.get(i, k) / p;
                    let ghost before = self@;
                    self.set(i, k, zero);
                    let mut j: usize = k + 1;
                    while j < n
                        invariant
                            self.wf(),
                            self.num_rows() == m,
                            self.num_cols() == n,
                            self.boundary() == old(self).boundary(),
                            h < i < m,
                            k < j <= n,
                            forall|x: T, y: T| #[trigger] x.sub_req(y),
                            forall|x: T, y: T| #[trigger] x.mul_req(y),
                            forall|r: int| 0 <= r < m && r != i ==> #[trigger] self@[r] == before[r],
                            self@[i as int][k as int] == zero,
                            forall|c: int|
                                0 <= c < n && (c < k || c >= j) ==> #[trigger] self@[i as int][c]
                                    == before[i as int][c],
                            exact_elimination_ops::<T>() ==> forall|c: int|
                                k < c < j ==> #[trigger] self@[i as int][c] == before[i as int][c].sub_spec(
                                    before[h as int][c].mul_spec(f),
                                ),
                        decreases n - j,
                    {
                        let ghost prev = self@;
                        let x = self.get(i, j) - self.get(h, j) * f;
                        self.set(i, j, x);
                        assert forall|r: int| 0 <= r < m && r != i implies #[trigger] self@[r] == before[r] by {
                            assert(self@[r] == prev[r]);
                        }
                        j += 1;
                    }
                    proof {
                        assert(before[i as int] == s[i as int]);
                        assert(before[h as int] == s[h as int]);
                        if exact_elimination_ops::<T>() {
                            assert(self@[i as int] =~= eliminated_row(s[h as int], s[i as int], k as int, zero));
                        }
                        assert forall|a: int, r: int|
                            0 <= a < ks.len() && a < r < self@.len() implies #[trigger] self@[r][ks[a]]
                            == zero by {
                            if r == i {
                                assert(ks[a] < k);
                            } else {
                                assert(self@[r] == before[r]);
                            }
                        }
                        assert forall|r: int| h < r < i + 1 implies #[trigger] self@[r][k as int] == zero by {
                            if r != i {
                                assert(self@[r] == before[r]);
                            }
                        }
                        assert forall|r: int| 0 <= r < m && (r <= h || r >= i + 1) implies #[trigger] self@[r]
                            == s[r] by {
                            assert(self@[r] == before[r]);
                        }
                        if exact_elimination_ops::<T>() {
                            assert forall|r: int| h < r < i + 1 implies #[trigger] self@[r] == eliminated_row(
                                s[h as int],
                                s[r],
                                k as int,
                                zero,
                            ) by {
                                if r != i {
                                    assert(self@[r] == before[r]);
                                }
                            }
                        }
                    }
                    i += 1;
                }
                proof {
                    if exact_elimination_ops::<T>() {
                        assert(self@ =~= eliminate_below(s, h as int, k as int, zero));
                    }
                    let ks2 = ks.push(k as int);
                    if exact_elimination_ops::<T>() {
                        assert(self@[h as int] == s[h as int]);
                        assert(s[h as int] == cur[best_i as int]);
                        assert(less_than(zero, best));
                        assert forall|a: int| 0 <= a < ks2.len() implies less_than(
                            zero,
                            magnitude_of(#[trigger] self@[a][ks2[a]], zero),
                        ) by {
                            if a < ks.len() {
                                assert(ks2[a] == ks[a]);
                                assert(self@[a] == s[a]);
                                assert(s[a] == cur[a]);
                            }
                        }
                    }
                    assert forall|a: int, r: int|
                        0 <= a < ks2.len() && a < r < self@.len() implies #[trigger] self@[r][ks2[a]]
                        == zero by {
                        if a < ks.len() {
                            assert(ks2[a] == ks[a]);
                        }
                    }
                    assert(zeros_below_pivots(self@, ks2, zero));
                    ks = ks2;
                }
                h += 1;
            }
            k += 1;
        }
        assert(forall|a: int| 0 <= a < ks.len() ==> #[trigger] ks[a] < self.num_cols());
    }
}

} // verus!
