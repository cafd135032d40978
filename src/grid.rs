//! A mathematical model of a Chomp position: a grid of cells, each either
//! still on the board (`true`) or already eaten (`false`), with row `i`
//! holding the cells `(i, 0)`, `(i, 1)`, ...
use vstd::prelude::*;

verus! {

/// Whether `(row, col)` lies on the grid and is still uneaten.
pub open spec fn occupied(g: Seq<Seq<bool>>, row: int, col: int) -> bool {
    0 <= row < g.len() && 0 <= col < g[row].len() && g[row][col]
}

/// `(a, b)` comes before `(row, col)` in row-major order: rows upward and,
/// within a row, columns upward.
pub open spec fn precedes(a: int, b: int, row: int, col: int) -> bool {
    a < row || (a == row && b < col)
}

/// Every row of `g` has length `height`.
pub open spec fn has_shape(g: Seq<Seq<bool>>, width: nat, height: nat) -> bool {
    &&& g.len() == width
    &&& forall|i: int| 0 <= i < g.len() ==> (#[trigger] g[i]).len() == height
}

/// The grid after a bite at `(row, col)`: every cell `(i, j)` with
/// `i >= row` and `j >= col` is eaten, every other cell is unchanged.
pub open spec fn chomped(g: Seq<Seq<bool>>, row: int, col: int) -> Seq<Seq<bool>> {
    Seq::new(
        g.len(),
        |i: int| Seq::new(g[i].len(), |j: int| g[i][j] && !(i >= row && j >= col)),
    )
}

/// No uneaten cell lies at or beyond an eaten one toward the high-index
/// corner: the only shapes that bites out of a full grid can leave.
pub open spec fn is_staircase(g: Seq<Seq<bool>>) -> bool {
    forall|r: int, c: int, r2: int, c2: int|
        0 <= r <= r2 && 0 <= c <= c2 && #[trigger] occupied(g, r2, c2) ==> #[trigger] occupied(g, r, c)
}

/// The number of uneaten cells in one row.
pub open spec fn row_count(row: Seq<bool>) -> nat
    decreases row.len(),
{
    if row.len() == 0 {
        0
    } else {
        row_count(row.drop_last()) + if row.last() { 1nat } else { 0nat }
    }
}

/// The number of uneaten cells on the grid.
pub open spec fn grid_count(g: Seq<Seq<bool>>) -> nat
    decreases g.len(),
{
    if g.len() == 0 {
        0
    } else {
        grid_count(g.drop_last()) + row_count(g.last())
    }
}

/// Eating cells of a row never adds to its count, and eating one that was
/// there takes at least one away.
pub proof fn lemma_row_count_sub(a: Seq<bool>, b: Seq<bool>)
    requires
        a.len() == b.len(),
        forall|j: int| 0 <= j < a.len() && #[trigger] a[j] ==> b[j],
    ensures
        row_count(a) <= row_count(b),
        (exists|j: int| 0 <= j < a.len() && !a[j] && #[trigger] b[j]) ==> row_count(a) < row_count(b),
    decreases a.len(),
{
    if a.len() > 0 {
        let a0 = a.drop_last();
        let b0 = b.drop_last();
        assert forall|j: int| 0 <= j < a0.len() && #[trigger] a0[j] implies b0[j] by {
            assert(a[j]);
        }
        lemma_row_count_sub(a0, b0);
        if exists|j: int| 0 <= j < a.len() && !a[j] && #[trigger] b[j] {
            let j = choose|j: int| 0 <= j < a.len() && !a[j] && #[trigger] b[j];
            if j < a.len() - 1 {
                assert(!a0[j] && b0[j]);
            }
        }
    }
}

/// The grid form of `lemma_row_count_sub`.
pub proof fn lemma_grid_count_sub(a: Seq<Seq<bool>>, b: Seq<Seq<bool>>)
    requires
        a.len() == b.len(),
        forall|i: int| 0 <= i < a.len() ==> (#[trigger] a[i]).len() == b[i].len(),
        forall|i: int, j: int| #[trigger] occupied(a, i, j) ==> occupied(b, i, j),
    ensures
        grid_count(a) <= grid_count(b),
        (exists|i: int, j: int| !occupied(a, i, j) && #[trigger] occupied(b, i, j))
            ==> grid_count(a) < grid_count(b),
    decreases a.len(),
{
    if a.len() > 0 {
        let n = a.len() - 1;
        let a0 = a.drop_last();
        let b0 = b.drop_last();
        assert forall|i: int, j: int| #[trigger] occupied(a0, i, j) implies occupied(b0, i, j) by {
            assert(occupied(a, i, j));
        }
        lemma_grid_count_sub(a0, b0);
        assert forall|j: int| 0 <= j < a[n].len() && #[trigger] a[n][j] implies b[n][j] by {
            assert(occupied(a, n, j));
        }
        lemma_row_count_sub(a[n], b[n]);
        if exists|i: int, j: int| !occupied(a, i, j) && #[trigger] occupied(b, i, j) {
            let (i, j) = choose|i: int, j: int| !occupied(a, i, j) && #[trigger] occupied(b, i, j);
            if i < n {
                assert(!occupied(a0, i, j) && occupied(b0, i, j));
            } else {
                assert(!a[n][j] && b[n][j]);
            }
        }
    }
}

/// A row that loses one uneaten cell counts one less.
pub proof fn lemma_row_count_clear(r: Seq<bool>, j: int)
    requires
        0 <= j < r.len(),
        r[j],
    ensures
        row_count(r.update(j, false)) + 1 == row_count(r),
    decreases r.len(),
{
    let s = r.update(j, false);
    if j < r.len() - 1 {
        assert(s.drop_last() =~= r.drop_last().update(j, false));
        lemma_row_count_clear(r.drop_last(), j);
    } else {
        assert(s.drop_last() =~= r.drop_last());
    }
}

/// A row with every cell uneaten counts its length.
pub proof fn lemma_row_count_full(r: Seq<bool>)
    requires
        forall|j: int| 0 <= j < r.len() ==> #[trigger] r[j],
    ensures
        row_count(r) == r.len(),
    decreases r.len(),
{
    if r.len() > 0 {
        lemma_row_count_full(r.drop_last());
    }
}

/// Appending a row adds its count.
pub proof fn lemma_grid_count_push(g: Seq<Seq<bool>>, r: Seq<bool>)
    ensures
        grid_count(g.push(r)) == grid_count(g) + row_count(r),
{
    assert(g.push(r).drop_last() =~= g);
}

/// Replacing a row changes the count by the difference of the two rows.
pub proof fn lemma_grid_count_replace(g: Seq<Seq<bool>>, i: int, r: Seq<bool>)
    requires
        0 <= i < g.len(),
    ensures
        grid_count(g.update(i, r)) + row_count(g[i]) == grid_count(g) + row_count(r),
    decreases g.len(),
{
    let h = g.update(i, r);
    if i < g.len() - 1 {
        assert(h.drop_last() =~= g.drop_last().update(i, r));
        lemma_grid_count_replace(g.drop_last(), i, r);
    } else {
        assert(h.drop_last() =~= g.drop_last());
    }
}

/// A grid with no uneaten cell counts zero.
pub proof fn lemma_grid_count_empty(g: Seq<Seq<bool>>)
    requires
        forall|i: int, j: int| !#[trigger] occupied(g, i, j),
    ensures
        grid_count(g) == 0,
    decreases g.len(),
{
    if g.len() > 0 {
        let n = g.len() - 1;
        let g0 = g.drop_last();
        assert forall|i: int, j: int| !#[trigger] occupied(g0, i, j) by {
            assert(!occupied(g, i, j));
        }
        lemma_grid_count_empty(g0);
        assert forall|j: int| 0 <= j < g[n].len() implies !#[trigger] g[n][j] by {
            assert(!occupied(g, n, j));
        }
        lemma_row_count_empty(g[n]);
    }
}

/// A row with no uneaten cell counts zero.
pub proof fn lemma_row_count_empty(r: Seq<bool>)
    requires
        forall|j: int| 0 <= j < r.len() ==> !#[trigger] r[j],
    ensures
        row_count(r) == 0,
    decreases r.len(),
{
    if r.len() > 0 {
        lemma_row_count_empty(r.drop_last());
    }
}

/// A bite at an uneaten cell eats at least that cell.
pub proof fn lemma_chomped_decreases(g: Seq<Seq<bool>>, row: int, col: int)
    requires
        occupied(g, row, col),
    ensures
        grid_count(chomped(g, row, col)) < grid_count(g),
{
    let a = chomped(g, row, col);
    assert(!occupied(a, row, col));
    lemma_grid_count_sub(a, g);
}

/// A bite keeps a staircase a staircase.
pub proof fn lemma_chomped_staircase(g: Seq<Seq<bool>>, row: int, col: int)
    requires
        is_staircase(g),
    ensures
        is_staircase(chomped(g, row, col)),
{
    let a = chomped(g, row, col);
    assert forall|r: int, c: int, r2: int, c2: int|
        0 <= r <= r2 && 0 <= c <= c2 && #[trigger] occupied(a, r2, c2) implies #[trigger] occupied(a, r, c) by {
        assert(occupied(g, r2, c2));
        assert(occupied(g, r, c));
    }
}

/// A grid with an uneaten cell counts at least one.
pub proof fn lemma_occupied_counts(g: Seq<Seq<bool>>, row: int, col: int)
    requires
        occupied(g, row, col),
    ensures
        grid_count(g) > 0,
{
    let e = Seq::new(g.len(), |i: int| Seq::new(g[i].len(), |j: int| false));
    assert(!occupied(e, row, col));
    lemma_grid_count_sub(e, g);
}

} // verus!
