//! The computer's reply in a game: the winning move when there is one, else
//! a move that eats as little as possible, the last uneaten square.
use vstd::prelude::*;

use crate::board::Board;
use crate::grid::{
    grid_count, has_shape, lemma_grid_count_empty, lemma_grid_count_replace,
    lemma_row_count_clear, occupied, precedes,
};
use crate::search::{is_losing, is_move, is_search_answer};

verus! {

/// `(row, col)` is uneaten and no uneaten square comes after it in
/// row-major order.
pub open spec fn is_last_occupied(g: Seq<Seq<bool>>, row: int, col: int) -> bool {
    &&& occupied(g, row, col)
    &&& forall|a: int, b: int| #[trigger] precedes(row, col, a, b) ==> !occupied(g, a, b)
}

/// While more than one square is left, the last uneaten square is never the
/// poison square, so playing it is always a legal move.
pub proof fn lemma_last_occupied_is_move(g: Seq<Seq<bool>>, row: int, col: int)
    requires
        grid_count(g) > 1,
        is_last_occupied(g, row, col),
    ensures
        is_move(g, row, col),
{
    if row == 0 && col == 0 {
        let r = g[0].update(0, false);
        let h = g.update(0, r);
        lemma_row_count_clear(g[0], 0);
        lemma_grid_count_replace(g, 0, r);
        assert forall|a: int, b: int| !#[trigger] occupied(h, a, b) by {
            if a == 0 && b == 0 {
            } else if a >= 0 && b >= 0 {
                assert(precedes(0, 0, a, b));
                assert(!occupied(g, a, b));
            }
        }
        lemma_grid_count_empty(h);
    }
}

impl Board {
    /// The last uneaten square in row-major order: the highest row that has
    /// one, and in it the highest column; `None` when the board is empty.
    pub fn last_occupied(&self) -> (m: Option<(usize, usize)>)
        requires
            self.wf(),
        ensures
            match m {
                None => grid_count(self@) == 0,
                Some((row, col)) => is_last_occupied(self@, row as int, col as int),
            },
    {
        let ghost g = self@;
        proof {
            self.lemma_wf();
        }
        let mut i: usize = self.width();
        while i > 0
            invariant
                self.wf(),
                g == self@,
                has_shape(g, self.spec_width(), self.spec_height()),
                i <= self.spec_width(),
                forall|a: int, b: int| a >= i ==> !#[trigger] occupied(g, a, b),
            decreases i,
        {
            i = i - 1;
            let mut j: usize = self.height();
            while j > 0
                invariant
                    self.wf(),
                    g == self@,
                    has_shape(g, self.spec_width(), self.spec_height()),
                    i < self.spec_width(),
                    j <= self.spec_height(),
                    forall|a: int, b: int| a > i ==> !#[trigger] occupied(g, a, b),
                    forall|b: int| b >= j ==> !#[trigger] occupied(g, i as int, b),
                decreases j,
            {
                j = j - 1;
                if self.is_occupied(i, j) {
                    return Some((i, j));
                }
            }
        }
        proof {
            lemma_grid_count_empty(g);
        }
        None
    }

    /// The computer's move: the first winning move when there is one, else
    /// the last uneaten square; `None` only on an empty board.
    pub fn computer_move(&self) -> (m: Option<(usize, usize)>)
        requires
            self.wf(),
        ensures
            !is_losing(self@) ==> is_search_answer(self@, m),
            is_losing(self@) ==> match m {
                None => grid_count(self@) == 0,
                Some((row, col)) => is_last_occupied(self@, row as int, col as int),
            },
            grid_count(self@) > 1 ==> match m {
                None => false,
                Some((row, col)) => is_move(self@, row as int, col as int),
            },
    {
        match self.winning_move() {
            Some(mv) => Some(mv),
            None => {
                let m = self.last_occupied();
                proof {
                    if let Some((row, col)) = m {
                        if grid_count(self@) > 1 {
                            lemma_last_occupied_is_move(self@, row as int, col as int);
                        }
                    }
                }
                m
            },
        }
    }
}

} // verus!
