//! Row-echelon form of the result of row reduction.
use crate::elimination::eliminate_below;
use crate::elimination::eliminated_row;
use crate::elimination::less_than;
use crate::elimination::magnitude_of;
use crate::elimination::pivot_upto;
use crate::elimination::reduce_from;
use crate::elimination::row_reduced;
use crate::elimination::swapped;
use crate::matrix::is_rectangular;
use core::ops::Div;
use core::ops::Mul;
use core::ops::Neg;
use core::ops::Sub;
use vstd::prelude::*;
use vstd::std_specs::ops::NegSpec;

verus! {

/// `less_than` is a strict total order, and negating a value below `z`
/// gives a value above `z`.
pub open spec fn ordered_around<T: PartialOrd + Neg<Output = T>>(z: T) -> bool {
    &&& forall|x: T| !#[trigger] less_than(x, x)
    &&& forall|x: T, y: T, w: T| #[trigger] less_than(x, y) && #[trigger] less_than(y, w) ==> less_than(x, w)
    &&& forall|x: T, y: T| less_than(x, y) || less_than(y, x) || x == y
    &&& forall|x: T| #[trigger] less_than(x, z) ==> less_than(z, x.neg_spec())
}

/// Rows `0 .. ks.len()` lead with a non-`z` entry at column `ks[a]`, with
/// only `z` to its left; the leading columns increase strictly; below each
/// leading entry its column holds `z`; and every later row is all `z`.
pub open spec fn echelon_with<T>(rows: Seq<Seq<T>>, n: int, ks: Seq<int>, z: T) -> bool {
    &&& ks.len() <= rows.len()
    &&& forall|a: int, b: int| 0 <= a < b < ks.len() ==> ks[a] < ks[b]
    &&& forall|a: int| 0 <= a < ks.len() ==> 0 <= #[trigger] ks[a] < n
    &&& forall|a: int| 0 <= a < ks.len() ==> #[trigger] rows[a][ks[a]] != z
    &&& forall|a: int, c: int| 0 <= a < ks.len() && 0 <= c < ks[a] ==> #[trigger] rows[a][c] == z
    &&& forall|a: int, r: int| 0 <= a < ks.len() && a < r < rows.len() ==> #[trigger] rows[r][ks[a]] == z
    &&& forall|r: int, c: int| ks.len() <= r < rows.len() && 0 <= c < n ==> #[trigger] rows[r][c] == z
}

/// The state between steps of row reduction at pivot row `h` and column
/// `k`: the first `h` rows are finished, and below them every column left of
/// `k` holds `z`.
spec fn partly_reduced<T>(rows: Seq<Seq<T>>, n: int, h: int, k: int, ks: Seq<int>, z: T) -> bool {
    &&& ks.len() == h
    &&& 0 <= h <= rows.len()
    &&& 0 <= k <= n
    &&& is_rectangular(rows, n as nat)
    &&& forall|a: int, b: int| 0 <= a < b < ks.len() ==> ks[a] < ks[b]
    &&& forall|a: int| 0 <= a < ks.len() ==> 0 <= #[trigger] ks[a] < k
    &&& forall|a: int| 0 <= a < ks.len() ==> #[trigger] rows[a][ks[a]] != z
    &&& forall|a: int, c: int| 0 <= a < ks.len() && 0 <= c < ks[a] ==> #[trigger] rows[a][c] == z
    &&& forall|r: int, c: int| h <= r < rows.len() && 0 <= c < k ==> #[trigger] rows[r][c] == z
}

/// The pivot lies among the rows searched.
proof fn lemma_pivot_range<T: PartialOrd + Neg<Output = T>>(rows: Seq<Seq<T>>, h: int, k: int, z: T, i: int)
    requires
        h < i,
    ensures
        h <= pivot_upto(rows, h, k, z, i) < i,
    decreases i - h,
{
    if i > h + 1 {
        lemma_pivot_range(rows, h, k, z, i - 1);
    }
}

/// When the pivot's magnitude is not above `z`, no searched row's is.
proof fn lemma_pivot_dominates<T: PartialOrd + Neg<Output = T>>(
    rows: Seq<Seq<T>>,
    h: int,
    k: int,
    z: T,
    i: int,
    r: int,
)
    requires
        h <= r < i,
        ordered_around(z),
        !less_than(z, magnitude_of(rows[pivot_upto(rows, h, k, z, i)][k], z)),
    ensures
        !less_than(z, magnitude_of(rows[r][k], z)),
    decreases i - h,
{
    if i > h + 1 {
        let b = pivot_upto(rows, h, k, z, i - 1);
        let mb = magnitude_of(rows[b][k], z);
        let mi = magnitude_of(rows[i - 1][k], z);
        if !less_than(mi, mb) {
            if less_than(z, mb) {
                if mi != mb {
                    assert(less_than(mb, mi));
                    assert(less_than(z, mi));
                }
            }
        } else {
            if less_than(z, mi) {
                assert(less_than(z, mb));
            }
        }
        if r < i - 1 {
            lemma_pivot_dominates(rows, h, k, z, i - 1, r);
        }
    }
}

/// A magnitude above `z` belongs to an entry other than `z`, and one not
/// above `z` to `z` itself.
proof fn lemma_magnitude_zero<T: PartialOrd + Neg<Output = T>>(x: T, z: T)
    requires
        ordered_around(z),
    ensures
        less_than(z, magnitude_of(x, z)) <==> x != z,
{
    if x == z {
        assert(!less_than(z, z));
    } else if less_than(x, z) {
        assert(less_than(z, x.neg_spec()));
    } else {
        assert(less_than(z, x));
    }
}

/// Each step of row reduction keeps `partly_reduced`, and what is left once
/// the pivot row or the column runs out is in echelon form.
proof fn lemma_reduce_from_echelon<
    T: PartialOrd + Sub<Output = T> + Mul<Output = T> + Div<Output = T> + Neg<Output = T>,
>(rows: Seq<Seq<T>>, n: int, h: int, k: int, ks: Seq<int>, z: T) -> (kf: Seq<int>)
    requires
        partly_reduced(rows, n, h, k, ks, z),
        ordered_around(z),
    ensures
        echelon_with(reduce_from(rows, n, h, k, z), n, kf, z),
    decreases n - k,
{
    let m = rows.len() as int;
    if 0 <= h < m && 0 <= k < n {
        let b = pivot_upto(rows, h, k, z, m);
        lemma_pivot_range(rows, h, k, z, m);
        lemma_magnitude_zero(rows[b][k], z);
        if less_than(z, magnitude_of(rows[b][k], z)) {
            let s = swapped(rows, h, b);
            let e = eliminate_below(s, h, k, z);
            let ks2 = ks.push(k);
            assert forall|r: int| 0 <= r < m implies #[trigger] e[r].len() == n by {
                assert(s[r].len() == n);
            }
            assert forall|r: int, c: int| h + 1 <= r < m && 0 <= c < k + 1 implies #[trigger] e[r][c] == z by {
                assert(e[r] == eliminated_row(s[h], s[r], k, z));
                if c < k {
                    assert(s[r][c] == z);
                }
            }
            assert forall|a: int| 0 <= a < ks2.len() implies #[trigger] e[a][ks2[a]] != z by {
                if a < h {
                    assert(e[a] == rows[a]);
                    assert(ks2[a] == ks[a]);
                }
            }
            assert forall|a: int, c: int| 0 <= a < ks2.len() && 0 <= c < ks2[a] implies #[trigger] e[a][c]
                == z by {
                if a < h {
                    assert(e[a] == rows[a]);
                    assert(ks2[a] == ks[a]);
                } else {
                    assert(e[a] == rows[b]);
                }
            }
            assert(partly_reduced(e, n, h + 1, k + 1, ks2, z));
            lemma_reduce_from_echelon(e, n, h + 1, k + 1, ks2, z)
        } else {
            assert forall|r: int, c: int| h <= r < m && 0 <= c < k + 1 implies #[trigger] rows[r][c] == z by {
                if c == k {
                    lemma_pivot_dominates(rows, h, k, z, m, r);
                    lemma_magnitude_zero(rows[r][k], z);
                }
            }
            lemma_reduce_from_echelon(rows, n, h, k + 1, ks, z)
        }
    } else {
        assert forall|a: int, r: int| 0 <= a < ks.len() && a < r < m implies #[trigger] rows[r][ks[a]] == z by {
            if r < h {
                assert(ks[a] < ks[r]);
            }
        }
        ks
    }
}

/// Row reduction leaves a square matrix in row-echelon form, for any entry
/// type whose comparison is a strict total order in which negating a value
/// below zero gives one above it: some rows lead with a non-zero entry that
/// has only zeros to its left and below it, their leading columns increase
/// strictly, and all rows after them are zero.
pub proof fn lemma_row_reduced_is_echelon<
    T: PartialOrd + Sub<Output = T> + Mul<Output = T> + Div<Output = T> + Neg<Output = T>,
>(rows: Seq<Seq<T>>, z: T)
    requires
        is_rectangular(rows, rows.len()),
        ordered_around(z),
    ensures
        exists|ks: Seq<int>| #[trigger] echelon_with(row_reduced(rows, z), rows.len() as int, ks, z),
{
    let ks = lemma_reduce_from_echelon(rows, rows.len() as int, 0, 0, Seq::empty(), z);
    assert(echelon_with(row_reduced(rows, z), rows.len() as int, ks, z));
}

} // verus!
