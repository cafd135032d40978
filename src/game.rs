//! One game between a person and the computer: whose bite was the last
//! one that did not take the poison square, and which bites are allowed.
use vstd::prelude::*;

use crate::board::Board;
use crate::grid::{chomped, grid_count, occupied};
use crate::play::is_last_occupied;
use crate::search::{is_losing, is_move, is_search_answer};

verus! {

/// Why a person's move was refused.
#[derive(Debug, PartialEq, Eq, Structural)]
pub enum MoveError {
    /// The row is not below the width, or the column not below the height.
    OutOfRange,
    /// The square has already been eaten.
    AlreadyEaten,
}

/// A game in progress. The player who made the last move that did not take
/// the poison square wins once one square or none is left.
pub struct Game {
    board: Board,
    person_moved_last: bool,
}

impl Game {
    /// The board of the game.
    pub closed spec fn spec_board(&self) -> Board {
        self.board
    }

    /// Whether the person made the last move that did not take the poison
    /// square.
    pub closed spec fn spec_person_moved_last(&self) -> bool {
        self.person_moved_last
    }

    /// A game on `board`, the computer counted as the last to have moved.
    pub fn new(board: Board) -> (g: Game)
        requires
            board.wf(),
        ensures
            g.spec_board() == board,
            !g.spec_person_moved_last(),
    {
        Game { board, person_moved_last: false }
    }

    /// The board as it stands.
    pub fn board(&self) -> (b: &Board)
        ensures
            b == self.spec_board(),
    {
        &self.board
    }

    /// The game is over once at most one square is left.
    pub fn is_over(&self) -> (b: bool)
        requires
            self.spec_board().wf(),
        ensures
            b == (grid_count(self.spec_board()@) <= 1),
    {
        self.board.remaining_count() <= 1
    }

    /// Whether the person has won; meaningful once the game is over.
    pub fn person_won(&self) -> (b: bool)
        ensures
            b == self.spec_person_moved_last(),
    {
        self.person_moved_last
    }

    /// The person bites at `(row, col)`. A square off the board, or one
    /// already eaten, is refused and nothing changes. Taking the poison
    /// square leaves the win to the other side.
    pub fn play_person(&mut self, row: usize, col: usize) -> (r: Result<(), MoveError>)
        requires
            old(self).spec_board().wf(),
        ensures
            final(self).spec_board().wf(),
            final(self).spec_board().spec_width() == old(self).spec_board().spec_width(),
            final(self).spec_board().spec_height() == old(self).spec_board().spec_height(),
            row >= old(self).spec_board().spec_width() || col >= old(self).spec_board().spec_height()
                ==> r == Err::<(), MoveError>(MoveError::OutOfRange),
            row < old(self).spec_board().spec_width() && col < old(self).spec_board().spec_height()
                && !occupied(old(self).spec_board()@, row as int, col as int)
                ==> r == Err::<(), MoveError>(MoveError::AlreadyEaten),
            r is Err ==> *final(self) == *old(self),
            occupied(old(self).spec_board()@, row as int, col as int) ==> {
                &&& r is Ok
                &&& final(self).spec_board()@ == chomped(old(self).spec_board()@, row as int, col as int)
                &&& final(self).spec_person_moved_last() == (old(self).spec_person_moved_last()
                    || is_move(old(self).spec_board()@, row as int, col as int))
            },
    {
        proof {
            self.board.lemma_wf();
        }
        if row >= self.board.width() || col >= self.board.height() {
            return Err(MoveError::OutOfRange);
        }
        if !self.board.is_occupied(row, col) {
            return Err(MoveError::AlreadyEaten);
        }
        self.board.chomp(row, col);
        if !(row == 0 && col == 0) {
            self.person_moved_last = true;
        }
        Ok(())
    }

    /// The computer replies with `Board::computer_move` and plays it.
    pub fn play_computer(&mut self) -> (m: Option<(usize, usize)>)
        requires
            old(self).spec_board().wf(),
        ensures
            final(self).spec_board().wf(),
            final(self).spec_board().spec_width() == old(self).spec_board().spec_width(),
            final(self).spec_board().spec_height() == old(self).spec_board().spec_height(),
            !is_losing(old(self).spec_board()@) ==> is_search_answer(old(self).spec_board()@, m),
            is_losing(old(self).spec_board()@) ==> match m {
                None => grid_count(old(self).spec_board()@) == 0,
                Some((row, col)) => is_last_occupied(old(self).spec_board()@, row as int, col as int),
            },
            match m {
                None => *final(self) == *old(self),
                Some((row, col)) => {
                    &&& final(self).spec_board()@ == chomped(old(self).spec_board()@, row as int, col as int)
                    &&& final(self).spec_person_moved_last() == (old(self).spec_person_moved_last()
                        && !is_move(old(self).spec_board()@, row as int, col as int))
                },
            },
            grid_count(old(self).spec_board()@) > 1 ==> match m {
                None => false,
                Some((row, col)) => is_move(old(self).spec_board()@, row as int, col as int),
            },
    {
        let m = self.board.computer_move();
        if let Some((row, col)) = m {
            self.board.chomp(row, col);
            if !(row == 0 && col == 0) {
                self.person_moved_last = false;
            }
        }
        m
    }
}

} // verus!
