//! One match between the human player and the computer.

use vstd::prelude::*;

use crate::board::{AIConfiguration, Board, PossibleMove};
use crate::model::{lemma_cell_of_index, BoardModel, MAX_CELLS};
pub use crate::model::{AI_ID, PLAYER_ID};
use crate::records::{GameType, MatchResult};
use crate::slot::{slot_text, Letter, Slot};

verus! {

/// Outcome of a match so far; `Win` holds the winner's owner value.
#[derive(Debug, Clone, Copy, PartialEq, Eq, Structural)]
pub enum GameState {
    Running,
    Win(u32),
    Tie,
}

/// Result to record for a finished match, seen from the human player; none
/// while it runs, or for a win of an unknown owner.
pub fn match_result(state: GameState) -> (r: Option<MatchResult>)
    ensures
        state == GameState::Win(PLAYER_ID) ==> r == Some(MatchResult::Win),
        state == GameState::Win(AI_ID) ==> r == Some(MatchResult::Loss),
        state == GameState::Tie ==> r == Some(MatchResult::Tie),
        state == GameState::Running ==> r is None,
        (state is Win && state != GameState::Win(PLAYER_ID) && state != GameState::Win(AI_ID)) ==> r is None,
{
    match state {
        GameState::Win(p) => {
            if p == PLAYER_ID {
                Some(MatchResult::Win)
            } else if p == AI_ID {
                Some(MatchResult::Loss)
            } else {
                None
            }
        },
        GameState::Tie => Some(MatchResult::Tie),
        GameState::Running => None,
    }
}

/// Moves made by the human player when `plies` pieces were played in all,
/// the human moving first: half of them, rounded up.
pub fn human_move_count(plies: u32) -> (r: u32)
    ensures
        r == (plies as int + 1) / 2,
{
    plies / 2 + plies % 2
}

/// A match: the board, and the outcome last observed on it.
pub struct Game {
    game_type: GameType,
    board: Board,
    state: GameState,
}

impl Game {
    pub closed spec fn board_view(&self) -> BoardModel {
        self.board@
    }

    pub closed spec fn state_view(&self) -> GameState {
        self.state
    }

    pub closed spec fn wf(&self) -> bool {
        self.board@.wf() && self.board@.game_type == self.game_type
    }

    /// A match on an empty board, running; `seed` starts the random source of
    /// the computer player.
    pub fn new(rows: usize, columns: usize, game_type: GameType, ai: AIConfiguration, seed: u64) -> (r: Self)
        requires
            rows * columns <= MAX_CELLS,
            ai.wf(),
        ensures
            r.wf(),
            r.state_view() == GameState::Running,
            r.board_view().rows == rows,
            r.board_view().columns == columns,
            r.board_view().game_type == game_type,
            r.board_view().ai == ai,
            r.board_view().moves == 0,
            r.board_view().player_turn,
            forall|i: int| 0 <= i < r.board_view().grid.len() ==> #[trigger] r.board_view().grid[i] == Slot::empty(),
    {
        let board = Board::new(rows, columns, game_type, ai, seed);
        Game { game_type, board, state: GameState::Running }
    }

    /// The outcome last computed by `check_state`.
    pub fn get_state(&self) -> (r: GameState)
        ensures
            r == self.state_view(),
    {
        self.state
    }

    /// The board, for reading.
    pub fn get_board(&self) -> (r: &Board)
        ensures
            r@ == self.board_view(),
    {
        &self.board
    }

    /// One entry per cell, row by row from the top: the owner, and the text
    /// of the cell.
    pub fn get_board_state(&self) -> (r: Vec<(i32, String)>)
        requires
            self.wf(),
        ensures
            r@.len() == self.board_view().grid.len(),
            forall|i: int|
                0 <= i < r@.len() ==> {
                    &&& (#[trigger] r@[i]).0 == self.board_view().grid[i].player as i32
                    &&& r@[i].1@ == slot_text(self.board_view().grid[i], self.board_view().game_type)
                },
    {
        let n = self.board.get_rows() * self.board.get_columns();
        let mut result: Vec<(i32, String)> = Vec::new();
        let mut i: usize = 0;
        while i < n
            invariant
                self.wf(),
                n == self.board_view().grid.len(),
                i <= n,
                result@.len() == i,
                forall|j: int|
                    0 <= j < i ==> {
                        &&& (#[trigger] result@[j]).0 == self.board_view().grid[j].player as i32
                        &&& result@[j].1@ == slot_text(self.board_view().grid[j], self.board_view().game_type)
                    },
            decreases n - i,
        {
            let row = i / self.board.get_columns();
            let column = i % self.board.get_columns();
            proof {
                lemma_cell_of_index(self.board_view(), i as int);
            }
            let slot = self.board.get_slot(row, column);
            result.push((slot.get_player() as i32, slot.to_string(self.game_type)));
            i += 1;
        }
        result
    }

    /// Computes the outcome on the board (human win, computer win, tie,
    /// running, checked in that order), stores it and returns it.
    pub fn check_state(&mut self) -> (r: GameState)
        requires
            old(self).wf(),
        ensures
            final(self).wf(),
            r == old(self).board_view().outcome(),
            final(self).state_view() == r,
            final(self).board_view() == old(self).board_view(),
    {
        if self.board.check_if_won(PLAYER_ID) {
            self.state = GameState::Win(PLAYER_ID);
        } else if self.board.check_if_won(AI_ID) {
            self.state = GameState::Win(AI_ID);
        } else if self.board.check_if_no_more_moves() {
            self.state = GameState::Tie;
        } else {
            self.state = GameState::Running;
        }
        self.state
    }

    /// The human player drops a piece (with `letter` in the letter game) into
    /// `column`; false, and nothing changes, when the column is not open.
    pub fn player_turn(&mut self, column: usize, letter: Option<Letter>) -> (r: bool)
        requires
            old(self).wf(),
        ensures
            final(self).wf(),
            r == old(self).board_view().column_valid(column as int),
            r ==> final(self).board_view() == old(self).board_view().place(
                PossibleMove { column, letter },
                PLAYER_ID,
            ),
            !r ==> final(self).board_view() == old(self).board_view(),
            final(self).state_view() == old(self).state_view(),
    {
        if column < self.board.get_columns() && self.board.get_height(column) < self.board.get_rows() {
            let possible_move = PossibleMove { column, letter };
            self.board.place_at_column(possible_move, PLAYER_ID);
            return true;
        }
        false
    }

    /// The computer chooses a legal move and plays it.
    pub fn ai_turn(&mut self)
        requires
            old(self).wf(),
            !old(self).board_view().full(),
            old(self).board_view().cells() >= 2,
        ensures
            final(self).wf(),
            final(self).state_view() == old(self).state_view(),
            exists|m: PossibleMove|
                {
                    &&& old(self).board_view().legal(m)
                    &&& old(self).board_view().possible_moves().contains(m)
                    &&& old(self).board_view().ai_choice(m)
                    &&& final(self).board_view() == #[trigger] old(self).board_view().place(m, AI_ID)
                },
    {
        let possible_move = self.board.get_ai_move();
        self.board.place_at_column(possible_move, AI_ID);
    }

    /// Number of pieces played so far, by both sides.
    pub fn get_num_moves(&self) -> (r: u32)
        ensures
            r == self.board_view().moves,
    {
        self.board.get_moves()
    }
}

} // verus!
