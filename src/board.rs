//! The board: which squares of a `width` by `height` grid are still uneaten.
use vstd::prelude::*;

use crate::grid::{
    chomped, grid_count, has_shape, is_staircase, lemma_chomped_decreases,
    lemma_chomped_staircase, lemma_grid_count_push, lemma_grid_count_replace,
    lemma_row_count_clear, lemma_row_count_full, occupied, row_count,
};

verus! {

/// A Chomp board. Square `(row, col)` has `0 <= row < width` and
/// `0 <= col < height`; the square `(0, 0)` is the poison square.
#[derive(Clone)]
pub struct Board {
    width: usize,
    height: usize,
    /// `cells[row][col]` holds whether that square is still uneaten.
    cells: Vec<Vec<bool>>,
    /// The number of uneaten squares.
    count: usize,
}

impl View for Board {
    type V = Seq<Seq<bool>>;

    closed spec fn view(&self) -> Seq<Seq<bool>> {
        Seq::new(self.cells@.len(), |i: int| self.cells@[i]@)
    }
}

impl Board {
    /// The number of rows.
    pub closed spec fn spec_width(&self) -> nat {
        self.width as nat
    }

    /// The number of columns.
    pub closed spec fn spec_height(&self) -> nat {
        self.height as nat
    }

    /// The grid has the board's shape, the stored count is the number of
    /// uneaten squares, and those squares form a staircase.
    pub closed spec fn wf(&self) -> bool {
        &&& has_shape(self@, self.width as nat, self.height as nat)
        &&& self.count == grid_count(self@)
        &&& is_staircase(self@)
    }

    /// What a well-formed board guarantees of its grid.
    pub proof fn lemma_wf(&self)
        requires
            self.wf(),
        ensures
            has_shape(self@, self.spec_width(), self.spec_height()),
            is_staircase(self@),
    {
    }

    /// A `width` by `height` board with every square uneaten.
    pub fn new(width: usize, height: usize) -> (b: Board)
        requires
            width * height <= usize::MAX,
        ensures
            b.wf(),
            b.spec_width() == width,
            b.spec_height() == height,
            has_shape(b@, width as nat, height as nat),
            forall|i: int, j: int| 0 <= i < width && 0 <= j < height ==> #[trigger] b@[i][j],
            grid_count(b@) == width * height,
            is_staircase(b@),
    {
        let mut cells: Vec<Vec<bool>> = Vec::new();
        let mut i: usize = 0;
        while i < width
            invariant
                i <= width,
                width * height <= usize::MAX,
                cells@.len() == i,
                forall|k: int| 0 <= k < i ==> (#[trigger] cells@[k])@.len() == height,
                forall|k: int, j: int| 0 <= k < i && 0 <= j < height ==> #[trigger] cells@[k]@[j],
                grid_count(Seq::new(cells@.len(), |k: int| cells@[k]@)) == i * height,
            decreases width - i,
        {
            let mut row: Vec<bool> = Vec::new();
            let mut j: usize = 0;
            while j < height
                invariant
                    j <= height,
                    row@.len() == j,
                    forall|k: int| 0 <= k < j ==> #[trigger] row@[k],
                decreases height - j,
            {
                row.push(true);
                j = j + 1;
            }
            proof {
                let before = Seq::new(cells@.len(), |k: int| cells@[k]@);
                lemma_row_count_full(row@);
                lemma_grid_count_push(before, row@);
                assert(before.push(row@) =~= Seq::new(cells@.len() + 1, |k: int| cells@.push(row)[k]@));
                assert((i + 1) * height == i * height + height) by (nonlinear_arith);
            }
            cells.push(row);
            i = i + 1;
        }
        Board { width, height, cells, count: width * height }
    }

    /// The number of rows.
    pub fn width(&self) -> (w: usize)
        ensures
            w == self.spec_width(),
    {
        self.width
    }

    /// The number of columns.
    pub fn height(&self) -> (h: usize)
        ensures
            h == self.spec_height(),
    {
        self.height
    }

    /// The number of squares not yet eaten.
    pub fn remaining_count(&self) -> (n: usize)
        requires
            self.wf(),
        ensures
            n == grid_count(self@),
    {
        self.count
    }

    /// Whether `(row, col)` is on the board and not yet eaten.
    pub fn is_occupied(&self, row: usize, col: usize) -> (b: bool)
        requires
            self.wf(),
        ensures
            b == occupied(self@, row as int, col as int),
    {
        if row < self.width && col < self.height {
            assert(self@[row as int] == self.cells@[row as int]@);
            self.cells[row][col]
        } else {
            false
        }
    }

    /// An independent copy of the board.
    pub fn duplicate(&self) -> (d: Board)
        requires
            self.wf(),
        ensures
            d.wf(),
            d@ == self@,
            d.spec_width() == self.spec_width(),
            d.spec_height() == self.spec_height(),
    {
        let cells = self.cells.clone();
        let d = Board { width: self.width, height: self.height, cells, count: self.count };
        assert(d@ =~= self@);
        d
    }

    /// Eats the square `(row, col)` and every square `(r, c)` with `r >= row`
    /// and `c >= col`; a square off the board eats nothing.
    pub fn chomp(&mut self, row: usize, col: usize)
        requires
            old(self).wf(),
        ensures
            final(self).wf(),
            final(self).spec_width() == old(self).spec_width(),
            final(self).spec_height() == old(self).spec_height(),
            final(self)@ == chomped(old(self)@, row as int, col as int),
            is_staircase(final(self)@),
            occupied(old(self)@, row as int, col as int) ==> grid_count(final(self)@) < grid_count(old(self)@),
    {
        let ghost g0 = self@;
        let ghost target = chomped(g0, row as int, col as int);
        let mut i: usize = row;
        while i < self.width
            invariant
                row <= i,
                self.width == old(self).width,
                self.height == old(self).height,
                self.cells@.len() == self.width,
                has_shape(self@, self.width as nat, self.height as nat),
                g0 == old(self)@,
                has_shape(g0, self.width as nat, self.height as nat),
                target == chomped(g0, row as int, col as int),
                self.count == grid_count(self@),
                forall|k: int| 0 <= k < self.width ==> #[trigger] self@[k] == if row <= k < i {
                    target[k]
                } else {
                    g0[k]
                },
            decreases self.width - i,
        {
            let mut r = self.cells[i].clone();
            assert(r@ =~= self@[i as int]);
            let removed = clear_from(&mut r, col);
            assert(r@ =~= target[i as int]);
            let ghost before = self@;
            proof {
                lemma_grid_count_replace(before, i as int, r@);
            }
            self.cells.set(i, r);
            assert(self@ =~= before.update(i as int, r@));
            self.count = self.count - removed;
            i = i + 1;
        }
        assert forall|k: int| 0 <= k < self.width implies #[trigger] self@[k] == target[k] by {
            if k < row {
                assert(g0[k] =~= target[k]);
            }
        }
        assert(self@ =~= target);
        proof {
            lemma_chomped_staircase(g0, row as int, col as int);
            if occupied(g0, row as int, col as int) {
                lemma_chomped_decreases(g0, row as int, col as int);
            }
        }
    }
}

/// Eats every cell of `r` from `col` on and returns how many were uneaten.
fn clear_from(r: &mut Vec<bool>, col: usize) -> (removed: usize)
    ensures
        final(r)@ == Seq::new(old(r)@.len(), |j: int| old(r)@[j] && !(j >= col)),
        removed + row_count(final(r)@) == row_count(old(r)@),
{
    let ghost r0 = r@;
    let mut removed: usize = 0;
    let mut j: usize = col;
    while j < r.len()
        invariant
            col <= j,
            r@.len() == r0.len(),
            removed <= j,
            removed + row_count(r@) == row_count(r0),
            forall|k: int| 0 <= k < r0.len() ==> #[trigger] r@[k] == if col <= k < j {
                false
            } else {
                r0[k]
            },
        decreases r0.len() - j,
    {
        if r[j] {
            proof {
                lemma_row_count_clear(r@, j as int);
            }
            r.set(j, false);
            removed = removed + 1;
        }
        j = j + 1;
    }
    assert(r@ =~= Seq::new(r0.len(), |k: int| r0[k] && !(k >= col)));
    removed
}

} // verus!
