//! Column-aligned text layout of a grid of already formatted entries.
use vstd::prelude::*;
use vstd::string::StrSliceExecFns;
use vstd::string::StringExecFns;

verus! {

/// The character view of a grid of strings.
pub open spec fn grid_view(cells: Seq<Vec<String>>) -> Seq<Seq<Seq<char>>> {
    cells.map_values(|row: Vec<String>| row@.map_values(|s: String| s@))
}

/// `k` spaces.
pub open spec fn spaces(k: nat) -> Seq<char> {
    Seq::new(k, |i: int| ' ')
}

/// `s` right-aligned in a field of `w` characters.
pub open spec fn pad_left(s: Seq<char>, w: nat) -> Seq<char> {
    if s.len() >= w {
        s
    } else {
        spaces((w - s.len()) as nat) + s
    }
}

/// The widest entry of column `j` among the first `k` rows.
pub open spec fn column_width(cells: Seq<Seq<Seq<char>>>, j: int, k: int) -> nat
    decreases k,
{
    if k <= 0 {
        0
    } else {
        let w = column_width(cells, j, k - 1);
        let c = cells[k - 1][j].len();
        if c > w {
            c
        } else {
            w
        }
    }
}

/// The width of each of the `n` columns: its widest entry.
pub open spec fn column_widths(cells: Seq<Seq<Seq<char>>>, n: nat) -> Seq<nat> {
    Seq::new(n, |j: int| column_width(cells, j, cells.len() as int))
}

/// The first `k` entries of `row`, separated by single spaces.
pub open spec fn plain_row(row: Seq<Seq<char>>, k: int) -> Seq<char>
    decreases k,
{
    if k <= 0 {
        Seq::empty()
    } else if k == 1 {
        row[0]
    } else {
        plain_row(row, k - 1) + seq![' '] + row[k - 1]
    }
}

/// What stands before column `j` (for `j > 0`): a bar between spaces where
/// the appended block begins, a single space elsewhere.
pub open spec fn gap(boundary: Option<usize>, j: int) -> Seq<char> {
    if boundary == Some(j as usize) {
        seq![' ', '│', ' ']
    } else {
        seq![' ']
    }
}

/// The first `k` entries of `row`, each right-aligned to its column's width,
/// with the gaps between them.
pub open spec fn aligned_row(
    row: Seq<Seq<char>>,
    widths: Seq<nat>,
    boundary: Option<usize>,
    k: int,
) -> Seq<char>
    decreases k,
{
    if k <= 0 {
        Seq::empty()
    } else if k == 1 {
        pad_left(row[0], widths[0])
    } else {
        aligned_row(row, widths, boundary, k - 1) + gap(boundary, k - 1) + pad_left(
            row[k - 1],
            widths[k - 1],
        )
    }
}

/// The left edge of line `i` out of `m`: top corner, bottom corner or side.
pub open spec fn left_edge(i: int, m: int) -> char {
    if i == 0 {
        '┌'
    } else if i == m - 1 {
        '└'
    } else {
        '│'
    }
}

/// The right edge of line `i` out of `m`.
pub open spec fn right_edge(i: int, m: int) -> char {
    if i == 0 {
        '┐'
    } else if i == m - 1 {
        '┘'
    } else {
        '│'
    }
}

/// Line `i` of the boxed layout, newline included.
pub open spec fn boxed_line(
    cells: Seq<Seq<Seq<char>>>,
    widths: Seq<nat>,
    boundary: Option<usize>,
    i: int,
) -> Seq<char> {
    seq![left_edge(i, cells.len() as int)] + aligned_row(
        cells[i],
        widths,
        boundary,
        cells[i].len() as int,
    ) + seq![right_edge(i, cells.len() as int), '\n']
}

/// The first `k` lines of the boxed layout.
pub open spec fn boxed_lines(
    cells: Seq<Seq<Seq<char>>>,
    widths: Seq<nat>,
    boundary: Option<usize>,
    k: int,
) -> Seq<char>
    decreases k,
{
    if k <= 0 {
        Seq::empty()
    } else {
        boxed_lines(cells, widths, boundary, k - 1) + boxed_line(cells, widths, boundary, k - 1)
    }
}

/// The text of a grid: `[]` with no rows; `[a b c]` with one row; otherwise
/// one boxed line per row, each column right-aligned to its widest entry.
pub open spec fn layout(cells: Seq<Seq<Seq<char>>>, boundary: Option<usize>) -> Seq<char> {
    if cells.len() == 0 {
        seq!['[', ']']
    } else if cells.len() == 1 {
        seq!['['] + plain_row(cells[0], cells[0].len() as int) + seq![']']
    } else {
        boxed_lines(cells, column_widths(cells, cells[0].len()), boundary, cells.len() as int)
    }
}

/// True when every row of `cells` has `n` entries.
pub open spec fn grid_has_width(cells: Seq<Vec<String>>, n: nat) -> bool {
    forall|i: int| 0 <= i < cells.len() ==> #[trigger] cells[i]@.len() == n
}

/// The width of each of the `n` columns of `cells`.
fn widths_of(cells: &Vec<Vec<String>>, n: usize) -> (r: Vec<usize>)
    requires
        grid_has_width(cells@, n as nat),
    ensures
        r@.len() == n,
        forall|j: int|
            0 <= j < n ==> #[trigger] r@[j] as nat == column_widths(grid_view(cells@), n as nat)[j],
{
    let ghost g = grid_view(cells@);
    let mut r: Vec<usize> = Vec::with_capacity(n);
    let mut j: usize = 0;
    while j < n
        invariant
            g == grid_view(cells@),
            grid_has_width(cells@, n as nat),
            j <= n,
            r@.len() == j,
            forall|c: int| 0 <= c < j ==> #[trigger] r@[c] as nat == column_width(g, c, g.len() as int),
        decreases n - j,
    {
        let mut w: usize = 0;
        let mut i: usize = 0;
        while i < cells.len()
            invariant
                g == grid_view(cells@),
                grid_has_width(cells@, n as nat),
                j < n,
                i <= cells@.len(),
                w as nat == column_width(g, j as int, i as int),
            decreases cells@.len() - i,
        {
            assert(cells@[i as int]@.len() == n);
            let c = cells[i][j].as_str().unicode_len();
            assert(g[i as int][j as int] == cells@[i as int]@[j as int]@);
            if c > w {
                w = c;
            }
            i += 1;
        }
        r.push(w);
        j += 1;
    }
    r
}

/// Appends `s` to `out`, right-aligned in a field of `w` characters.
fn push_padded(out: &mut String, s: &String, w: usize)
    ensures
        final(out)@ == old(out)@ + pad_left(s@, w as nat),
{
    let len = s.as_str().unicode_len();
    if len < w {
        let mut k: usize = 0;
        while k < w - len
            invariant
                len < w,
                k <= w - len,
                out@ == old(out)@ + spaces(k as nat),
            decreases w - len - k,
        {
            proof {
                reveal_strlit(" ");
            }
            out.append(" ");
            k += 1;
            assert(out@ =~= old(out)@ + spaces(k as nat));
        }
    }
    out.append(s.as_str());
    assert(out@ =~= old(out)@ + pad_left(s@, w as nat));
}

/// Appends the entries of `row`, separated by single spaces.
fn push_plain_row(out: &mut String, row: &Vec<String>)
    ensures
        final(out)@ == old(out)@ + plain_row(row@.map_values(|s: String| s@), row@.len() as int),
{
    let ghost rv = row@.map_values(|s: String| s@);
    let mut j: usize = 0;
    while j < row.len()
        invariant
            rv == row@.map_values(|s: String| s@),
            j <= row@.len(),
            out@ == old(out)@ + plain_row(rv, j as int),
        decreases row@.len() - j,
    {
        if j != 0 {
            proof {
                reveal_strlit(" ");
            }
            out.append(" ");
        }
        out.append(row[j].as_str());
        assert(out@ =~= old(out)@ + plain_row(rv, j + 1));
        j += 1;
    }
}

/// Appends the entries of `row`, each right-aligned to its column's width,
/// with the gaps between them.
fn push_aligned_row(
    out: &mut String,
    row: &Vec<String>,
    widths: &Vec<usize>,
    boundary: Option<usize>,
    Ghost(ws): Ghost<Seq<nat>>,
)
    requires
        widths@.len() == row@.len(),
        ws.len() == row@.len(),
        forall|j: int| 0 <= j < ws.len() ==> #[trigger] ws[j] == widths@[j] as nat,
    ensures
        final(out)@ == old(out)@ + aligned_row(
            row@.map_values(|s: String| s@),
            ws,
            boundary,
            row@.len() as int,
        ),
{
    let ghost rv = row@.map_values(|s: String| s@);
    let mut j: usize = 0;
    while j < row.len()
        invariant
            rv == row@.map_values(|s: String| s@),
            widths@.len() == row@.len(),
            ws.len() == row@.len(),
            forall|c: int| 0 <= c < ws.len() ==> #[trigger] ws[c] == widths@[c] as nat,
            j <= row@.len(),
            out@ == old(out)@ + aligned_row(rv, ws, boundary, j as int),
        decreases row@.len() - j,
    {
        if j != 0 {
            if boundary == Some(j) {
                proof {
                    reveal_strlit(" │ ");
                }
                out.append(" │ ");
            } else {
                proof {
                    reveal_strlit(" ");
                }
                out.append(" ");
            }
        }
        push_padded(out, &row[j], widths[j]);
        assert(out@ =~= old(out)@ + aligned_row(rv, ws, boundary, j + 1));
        j += 1;
    }
}

/// Lays out a grid of formatted entries as text: `[]` when it has no rows,
/// `[a b c]` when it has one, and otherwise a box with one line per row,
/// each column right-aligned to its widest entry and, where `boundary` names
/// a column, a bar before that column.
pub fn render(cells: &Vec<Vec<String>>, boundary: Option<usize>) -> (r: String)
    requires
        cells@.len() > 0 ==> grid_has_width(cells@, cells@[0]@.len()),
    ensures
        r@ == layout(grid_view(cells@), boundary),
{
    let mut out = String::new();
    let m = cells.len();
    if m == 0 {
        proof {
            reveal_strlit("[]");
        }
        out.append("[]");
        assert(out@ =~= layout(grid_view(cells@), boundary));
        return out;
    }
    if m == 1 {
        proof {
            reveal_strlit("[");
            reveal_strlit("]");
        }
        out.append("[");
        push_plain_row(&mut out, &cells[0]);
        out.append("]");
        assert(out@ =~= layout(grid_view(cells@), boundary));
        return out;
    }
    let ghost g = grid_view(cells@);
    let n = cells[0].len();
    let widths = widths_of(cells, n);
    let ghost ws = column_widths(g, n as nat);
    let mut i: usize = 0;
    while i < m
        invariant
            g == grid_view(cells@),
            m == cells@.len(),
            m > 1,
            n == cells@[0]@.len(),
            grid_has_width(cells@, n as nat),
            ws == column_widths(g, n as nat),
            widths@.len() == n,
            forall|j: int| 0 <= j < n ==> #[trigger] widths@[j] as nat == ws[j],
            i <= m,
            out@ == boxed_lines(g, ws, boundary, i as int),
        decreases m - i,
    {
        let left = if i == 0 {
            "┌"
        } else if i == m - 1 {
            "└"
        } else {
            "│"
        };
        let right = if i == 0 {
            "┐\n"
        } else if i == m - 1 {
            "┘\n"
        } else {
            "│\n"
        };
        proof {
            reveal_strlit("┌");
            reveal_strlit("└");
            reveal_strlit("│");
            reveal_strlit("┐\n");
            reveal_strlit("┘\n");
            reveal_strlit("│\n");
        }
        let ghost before = out@;
        out.append(left);
        assert(cells@[i as int]@.len() == n);
        assert(g[i as int] == cells@[i as int]@.map_values(|s: String| s@));
        push_aligned_row(&mut out, &cells[i], &widths, boundary, Ghost(ws));
        out.append(right);
        assert(out@ =~= before + boxed_line(g, ws, boundary, i as int));
        i += 1;
    }
    out
}

} // verus!
