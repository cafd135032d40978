//! The search for a winning move: a position is lost for the player to move
//! when every move leaves the opponent a position that is not lost.
use vstd::prelude::*;

use crate::board::Board;
use crate::grid::{chomped, grid_count, has_shape, precedes, lemma_chomped_decreases, lemma_occupied_counts, occupied};

verus! {

/// `(row, col)` is a move on `g`: an uneaten square other than the poison
/// square `(0, 0)`.
pub open spec fn is_move(g: Seq<Seq<bool>>, row: int, col: int) -> bool {
    occupied(g, row, col) && !(row == 0 && col == 0)
}

/// The player to move from `g` loses against best play: no move leaves the
/// opponent in a lost position. A position whose only square is the poison
/// square is lost, since the player must take it.
pub open spec fn is_losing(g: Seq<Seq<bool>>) -> bool
    decreases grid_count(g),
    via is_losing_decreases
{
    !exists|row: int, col: int| is_move(g, row, col) && is_losing(chomped(g, row, col))
}

#[via_fn]
proof fn is_losing_decreases(g: Seq<Seq<bool>>) {
    assert forall|row: int, col: int| is_move(g, row, col) implies grid_count(
        chomped(g, row, col),
    ) < grid_count(g) by {
        lemma_chomped_decreases(g, row, col);
    }
}

/// `(row, col)` is a move that leaves the opponent in a lost position.
pub open spec fn is_winning_move(g: Seq<Seq<bool>>, row: int, col: int) -> bool {
    is_move(g, row, col) && is_losing(chomped(g, row, col))
}

/// `(row, col)` is the first winning move in row-major order.
pub open spec fn is_first_winning_move(g: Seq<Seq<bool>>, row: int, col: int) -> bool {
    &&& is_winning_move(g, row, col)
    &&& forall|a: int, b: int| #[trigger] precedes(a, b, row, col) ==> !is_winning_move(g, a, b)
}

/// What the search answers on `g`: no move where the position is lost, else
/// the first winning move.
pub open spec fn is_search_answer(g: Seq<Seq<bool>>, m: Option<(usize, usize)>) -> bool {
    match m {
        None => is_losing(g),
        Some((row, col)) => is_first_winning_move(g, row as int, col as int),
    }
}

/// A position with a winning move is not lost.
pub proof fn lemma_winning_move_refutes(g: Seq<Seq<bool>>, row: int, col: int)
    requires
        is_winning_move(g, row, col),
    ensures
        !is_losing(g),
{
}

/// The search's answer is determined by the position alone: two answers
/// that both meet its contract on the same grid are the same answer, so
/// asking twice on an unchanged board gives the same move.
pub proof fn lemma_search_answer_unique(
    g: Seq<Seq<bool>>,
    m1: Option<(usize, usize)>,
    m2: Option<(usize, usize)>,
)
    requires
        is_search_answer(g, m1),
        is_search_answer(g, m2),
    ensures
        m1 == m2,
{
    match (m1, m2) {
        (Some((a, b)), Some((c, d))) => {
            if precedes(a as int, b as int, c as int, d as int) {
                assert(!is_winning_move(g, a as int, b as int));
            } else if precedes(c as int, d as int, a as int, b as int) {
                assert(!is_winning_move(g, c as int, d as int));
            }
        },
        (Some((a, b)), None) => {
            lemma_winning_move_refutes(g, a as int, b as int);
        },
        (None, Some((c, d))) => {
            lemma_winning_move_refutes(g, c as int, d as int);
        },
        (None, None) => {},
    }
}

impl Board {
    /// A move that leaves the opponent in a lost position, the first such in
    /// row-major order, or `None` when the player to move has lost.
    pub fn winning_move(&self) -> (m: Option<(usize, usize)>)
        requires
            self.wf(),
        ensures
            is_search_answer(self@, m),
        decreases grid_count(self@),
    {
        if self.remaining_count() == 1 && self.is_occupied(0, 0) {
            proof {
                let g = self@;
                assert forall|row: int, col: int| is_move(g, row, col) implies !is_losing(
                    chomped(g, row, col),
                ) by {
                    lemma_chomped_decreases(g, row, col);
                    assert(occupied(chomped(g, row, col), 0, 0));
                    lemma_occupied_counts(chomped(g, row, col), 0, 0);
                }
            }
            return None;
        }
        let ghost g = self@;
        proof {
            self.lemma_wf();
        }
        let mut i: usize = 0;
        while i < self.width()
            invariant
                self.wf(),
                g == self@,
                has_shape(g, self.spec_width(), self.spec_height()),
                forall|a: int, b: int| a < i ==> !#[trigger] is_winning_move(g, a, b),
            decreases self.spec_width() - i,
        {
            let mut j: usize = 0;
            while j < self.height()
                invariant
                    self.wf(),
                    g == self@,
                    has_shape(g, self.spec_width(), self.spec_height()),
                    i < self.spec_width(),
                    j <= self.spec_height(),
                    forall|a: int, b: int|
                        precedes(a, b, i as int, j as int) ==> !#[trigger] is_winning_move(g, a, b),
                decreases self.spec_height() - j,
            {
                if !(i == 0 && j == 0) && self.is_occupied(i, j) {
                    let mut next = self.duplicate();
                    next.chomp(i, j);
                    match next.winning_move() {
                        None => {
                            return Some((i, j));
                        },
                        Some((a, b)) => {
                            proof {
                                lemma_winning_move_refutes(next@, a as int, b as int);
                            }
                        },
                    }
                }
                j = j + 1;
            }
            assert forall|a: int, b: int| a < i + 1 implies !#[trigger] is_winning_move(g, a, b) by {
                if a == i && b >= j {
                    assert(!occupied(g, a, b));
                }
            }
            i = i + 1;
        }
        assert forall|a: int, b: int| !(is_move(g, a, b) && is_losing(#[trigger] chomped(g, a, b))) by {
            if a >= i {
                assert(!occupied(g, a, b));
            }
            assert(!is_winning_move(g, a, b));
        }
        None
    }
}

} // verus!
