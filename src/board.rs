//! The board: cells, moves and the search for the computer's move.

use vstd::prelude::*;

use rand::rngs::StdRng;

use crate::model::{
    best_index, dir_col, dir_row, lemma_best_index, lemma_column_moves_legal, lemma_full_moves, lemma_index,
    lemma_legal_prefix, lemma_natural_prefix, lemma_order, lemma_place_all_wf, lemma_place_undo, lemma_place_wf, lemma_playout_step,
    lemma_possible_moves, lemma_sum_bound, lemma_undo_inverse, lemma_undo_prefix, lemma_undo_wf, lemma_upto_legal,
    is_playout, legal_all, negamax_scan, playout_state, playout_value, playouts_total, negamax_value, order_at, place_all, undo_n, win_letter, BoardModel, AI_ID, MAX_CELLS,
    PLAYER_ID,
};
use crate::game::GameState;
use crate::random::{random_below, seeded_rng};
use crate::records::{CpuLevel, GameType};
use crate::slot::{Letter, Slot};

verus! {

/// A candidate move: a column, and a letter in the letter game.
#[derive(Debug, Clone, Copy)]
pub struct PossibleMove {
    pub column: usize,
    pub letter: Option<Letter>,
}

/// A played move, kept so that it can be taken back.
#[derive(Debug, Clone, Copy)]
pub struct Move {
    pub row: usize,
    pub column: usize,
}

/// What a column offers to the next piece.
#[derive(Debug, Clone, Copy, PartialEq, Eq, Structural)]
pub enum ColumnSelectionResult {
    Valid,
    ColumnFull,
    ColumnDoesNotExist,
}

/// Largest rollout count of a search configuration: one less than the scale
/// that puts exact search scores above rollout scores.
pub const MAX_ROLLOUTS: u32 = 16383;

/// Factor that lifts an exact search score above any rollout total.
pub const EXACT_SCORE_SCALE: i32 = 16384;

/// Strength of the computer player: how deep the exact search goes and how
/// many random games are played when it finds nothing.
#[derive(Debug, Clone, Copy)]
pub struct AIConfiguration {
    search_depth: u32,
    rollout_iterations: u32,
}

impl AIConfiguration {
    pub closed spec fn depth(self) -> u32 {
        self.search_depth
    }

    pub closed spec fn rollouts(self) -> u32 {
        self.rollout_iterations
    }

    pub open spec fn wf(self) -> bool {
        self.rollouts() <= MAX_ROLLOUTS
    }

    /// Shallow search and a couple of rollouts.
    pub fn easy() -> (r: Self)
        ensures
            r.wf(),
            r.depth() == 2,
            r.rollouts() == 2,
    {
        AIConfiguration { search_depth: 2, rollout_iterations: 2 }
    }

    /// Shallow search and many rollouts.
    pub fn medium() -> (r: Self)
        ensures
            r.wf(),
            r.depth() == 2,
            r.rollouts() == 250,
    {
        AIConfiguration { search_depth: 2, rollout_iterations: 250 }
    }

    /// Deeper search and the most rollouts.
    pub fn hard() -> (r: Self)
        ensures
            r.wf(),
            r.depth() == 3,
            r.rollouts() == 500,
    {
        AIConfiguration { search_depth: 3, rollout_iterations: 500 }
    }

    /// The preset of a difficulty level.
    pub fn for_level(level: CpuLevel) -> (r: Self)
        ensures
            r.wf(),
            level == CpuLevel::Easy ==> r.depth() == 2 && r.rollouts() == 2,
            level == CpuLevel::Medium ==> r.depth() == 2 && r.rollouts() == 250,
            level == CpuLevel::Hard ==> r.depth() == 3 && r.rollouts() == 500,
    {
        match level {
            CpuLevel::Easy => AIConfiguration::easy(),
            CpuLevel::Medium => AIConfiguration::medium(),
            CpuLevel::Hard => AIConfiguration::hard(),
        }
    }

    pub fn get_search_depth(&self) -> (r: u32)
        ensures
            r == self.depth(),
    {
        self.search_depth
    }

    pub fn get_rollout_iterations(&self) -> (r: u32)
        ensures
            r == self.rollouts(),
    {
        self.rollout_iterations
    }
}

/// Letter at position `k` of the sequence that wins the letter game for
/// `player`.
fn winning_letter(player: u32, k: usize) -> (r: Letter)
    ensures
        r == win_letter(player, k as int),
{
    if player == PLAYER_ID {
        if k == 0 || k == 3 {
            Letter::T
        } else {
            Letter::O
        }
    } else {
        if k == 0 || k == 3 {
            Letter::O
        } else {
            Letter::T
        }
    }
}

/// A board of `rows` by `columns` cells, filled from the bottom, with the
/// stack of moves played on it.
pub struct Board {
    rows: usize,
    columns: usize,
    game_type: GameType,
    storage: Vec<Slot>,
    player_turn: bool,
    heights: Vec<usize>,
    moves: u32,
    move_history: Vec<Move>,
    column_order: Vec<usize>,
    ai: AIConfiguration,
    rng: StdRng,
}

impl View for Board {
    type V = BoardModel;

    closed spec fn view(&self) -> BoardModel {
        BoardModel {
            rows: self.rows,
            columns: self.columns,
            game_type: self.game_type,
            grid: self.storage@,
            heights: self.heights@,
            moves: self.moves,
            history: self.move_history@,
            order: self.column_order@,
            player_turn: self.player_turn,
            ai: self.ai,
        }
    }
}

impl Board {
    /// An empty board; `seed` starts the random source of the rollouts.
    pub fn new(rows: usize, columns: usize, game_type: GameType, ai: AIConfiguration, seed: u64) -> (r: Self)
        requires
            rows * columns <= MAX_CELLS,
            ai.wf(),
        ensures
            r@.wf(),
            r@.rows == rows,
            r@.columns == columns,
            r@.game_type == game_type,
            r@.ai == ai,
            forall|i: int| 0 <= i < r@.grid.len() ==> #[trigger] r@.grid[i] == Slot::empty(),
            forall|c: int| 0 <= c < columns ==> #[trigger] r@.heights[c] == 0,
            r@.moves == 0,
            r@.history.len() == 0,
            r@.player_turn,
    {
        let n = rows * columns;
        let mut storage: Vec<Slot> = Vec::new();
        let mut i: usize = 0;
        while i < n
            invariant
                i <= n,
                storage@.len() == i,
                forall|j: int| 0 <= j < i ==> #[trigger] storage@[j] == Slot::empty(),
            decreases n - i,
        {
            storage.push(Slot::new());
            i += 1;
        }
        let mut heights: Vec<usize> = Vec::new();
        let mut column_order: Vec<usize> = Vec::new();
        let mut c: usize = 0;
        while c < columns
            invariant
                c <= columns,
                heights@.len() == c,
                column_order@.len() == c,
                forall|j: int| 0 <= j < c ==> #[trigger] heights@[j] == 0,
                forall|j: int| 0 <= j < c ==> #[trigger] column_order@[j] == order_at(columns as int, j),
            decreases columns - c,
        {
            heights.push(0);
            proof {
                lemma_order(columns as int, c as int);
            }
            let order = if c % 2 == 0 {
                columns / 2 + (c + 1) / 2
            } else {
                columns / 2 - (c + 1) / 2
            };
            column_order.push(order);
            c += 1;
        }
        let r = Board {
            rows,
            columns,
            game_type,
            storage,
            player_turn: true,
            heights,
            moves: 0,
            move_history: Vec::new(),
            column_order,
            ai,
            rng: seeded_rng(seed),
        };
        proof {
            let m = r@;
            lemma_sum_bound(m.heights, 0);
            assert forall|rr: int, cc: int| #![trigger m.cell(rr, cc)] m.in_bounds(rr, cc) implies {
                &&& (m.cell(rr, cc).occupied <==> rr >= m.rows - m.heights[cc])
                &&& (!m.cell(rr, cc).occupied ==> m.cell(rr, cc) == Slot::empty())
            } by {
                lemma_index(m, rr, cc, rr, cc);
            }
        }
        r
    }

    /// Number of pieces played so far.
    pub fn get_moves(&self) -> (r: u32)
        ensures
            r == self@.moves,
    {
        self.moves
    }

    /// The last move played, if any.
    pub fn last_move(&self) -> (r: Option<Move>)
        ensures
            self@.history.len() == 0 ==> r is None,
            self@.history.len() > 0 ==> r == Some(self@.history.last()),
    {
        if self.move_history.len() == 0 {
            None
        } else {
            Some(self.move_history[self.move_history.len() - 1])
        }
    }

    /// Whether the human player moves next.
    pub fn get_player_turn(&self) -> (r: bool)
        ensures
            r == self@.player_turn,
    {
        self.player_turn
    }

    pub fn get_rows(&self) -> (r: usize)
        ensures
            r == self@.rows,
    {
        self.rows
    }

    pub fn get_columns(&self) -> (r: usize)
        ensures
            r == self@.columns,
    {
        self.columns
    }

    pub fn get_game_type(&self) -> (r: GameType)
        ensures
            r == self@.game_type,
    {
        self.game_type
    }

    /// Number of pieces in `column`.
    pub fn get_height(&self, column: usize) -> (r: usize)
        requires
            self@.wf(),
            column < self@.columns,
        ensures
            r == self@.heights[column as int],
    {
        self.heights[column]
    }

    /// The cell at `row`, `column`; row 0 is the top.
    pub fn get_slot(&self, row: usize, column: usize) -> (r: &Slot)
        requires
            self@.wf(),
            row < self@.rows,
            column < self@.columns,
        ensures
            *r == self@.cell(row as int, column as int),
    {
        proof {
            lemma_index(self@, row as int, column as int, row as int, column as int);
        }
        &self.storage[row * self.columns + column]
    }

    /// Whether a piece can go into `column`.
    pub fn check_column_selection(&self, column: isize) -> (r: ColumnSelectionResult)
        requires
            self@.wf(),
        ensures
            r == self@.selection(column as int),
    {
        if column < 0 || column as usize >= self.columns {
            return ColumnSelectionResult::ColumnDoesNotExist;
        }
        if self.heights[column as usize] >= self.rows {
            ColumnSelectionResult::ColumnFull
        } else {
            ColumnSelectionResult::Valid
        }
    }

    /// Candidate moves of one column.
    fn column_candidates(&self, column: usize) -> (r: Vec<PossibleMove>)
        requires
            self@.wf(),
        ensures
            r@ == self@.column_moves(column as int),
    {
        let mut r: Vec<PossibleMove> = Vec::new();
        if column < self.columns && self.heights[column] < self.rows {
            match self.game_type {
                GameType::Connect4 => {
                    r.push(PossibleMove { column, letter: None });
                },
                GameType::OttoToot => {
                    r.push(PossibleMove { column, letter: Some(Letter::T) });
                    r.push(PossibleMove { column, letter: Some(Letter::O) });
                },
            }
        }
        proof {
            assert(r@ =~= self@.column_moves(column as int));
        }
        r
    }

    /// All candidate moves, column by column in search order; in the letter
    /// game a T and an O for each open column.
    pub fn get_possible_moves(&self) -> (r: Vec<PossibleMove>)
        requires
            self@.wf(),
        ensures
            r@ == self@.possible_moves(),
    {
        let mut r: Vec<PossibleMove> = Vec::new();
        let mut i: usize = 0;
        while i < self.columns
            invariant
                self@.wf(),
                i <= self@.columns,
                r@ == self@.moves_upto(i as int),
            decreases self@.columns - i,
        {
            let column = self.column_order[i];
            let more = self.column_candidates(column);
            let mut k: usize = 0;
            let ghost before = r@;
            while k < more.len()
                invariant
                    k <= more@.len(),
                    r@ == before + more@.take(k as int),
                decreases more@.len() - k,
            {
                r.push(more[k]);
                k += 1;
                proof {
                    assert(more@.take(k as int) =~= more@.take(k - 1) .push(more@[k - 1]));
                }
            }
            proof {
                assert(more@.take(k as int) =~= more@);
            }
            i += 1;
        }
        r
    }

    /// Drop a piece of `player` into the move's column; it lands on the
    /// lowest free row, and the move goes on the stack.
    pub fn place_at_column(&mut self, possible_move: PossibleMove, player: u32)
        requires
            old(self)@.wf(),
            old(self)@.column_valid(possible_move.column as int),
        ensures
            final(self)@ == old(self)@.place(possible_move, player),
            final(self)@.wf(),
    {
        proof {
            lemma_place_wf(self@, possible_move, player);
        }
        let column = possible_move.column;
        let lowest_row = self.rows - self.heights[column] - 1;
        proof {
            lemma_index(self@, lowest_row as int, column as int, lowest_row as int, column as int);
        }
        let index = lowest_row * self.columns + column;
        let mut slot = self.storage[index];
        slot.place(player, possible_move.letter);
        self.storage.set(index, slot);
        let height = self.heights[column];
        self.heights.set(column, height + 1);
        self.moves = self.moves + 1;
        self.move_history.push(Move { row: lowest_row, column });
        self.player_turn = !self.player_turn;
    }

    /// Take back the last move: its cell is emptied and its column lowered.
    pub fn undo_move(&mut self)
        requires
            old(self)@.wf(),
            old(self)@.history.len() > 0,
        ensures
            final(self)@ == old(self)@.undo(),
            final(self)@.wf(),
    {
        proof {
            lemma_undo_wf(self@);
        }
        let last_move = self.move_history.pop().unwrap();
        proof {
            lemma_index(old(self)@, last_move.row as int, last_move.column as int, last_move.row as int, last_move.column as int);
        }
        let index = last_move.row * self.columns + last_move.column;
        let mut slot = self.storage[index];
        slot.clear();
        self.storage.set(index, slot);
        let height = self.heights[last_move.column];
        self.heights.set(last_move.column, height - 1);
        self.moves = self.moves - 1;
        self.player_turn = !self.player_turn;
    }

    /// Whether the cell at (`row`, `column`) fits position `k` of a winning
    /// window for `player`.
    fn cell_fits(&self, player: u32, k: usize, row: usize, column: usize) -> (r: bool)
        requires
            self@.wf(),
            row < self@.rows,
            column < self@.columns,
        ensures
            r == self@.cell_fits(player, k as int, row as int, column as int),
    {
        let slot = self.get_slot(row, column);
        match self.game_type {
            GameType::Connect4 => slot.owned_by(player),
            GameType::OttoToot => slot.matches_letter(winning_letter(player, k)),
        }
    }

    /// Whether the four cells from (`row`, `column`) along direction `d` win
    /// for `player`.
    fn window_at(&self, player: u32, row: usize, column: usize, d: usize) -> (r: bool)
        requires
            self@.wf(),
            row < self@.rows,
            column < self@.columns,
            d < 4,
        ensures
            r == self@.window(player, row as int, column as int, d as int),
    {
        let m = Ghost(self@);
        if d == 0 {
            if self.columns - column <= 3 {
                assert(!m@.in_bounds(row + 3 * dir_row(0), column + 3 * dir_col(0)));
                return false;
            }
            self.cell_fits(player, 0, row, column) && self.cell_fits(player, 1, row, column + 1)
                && self.cell_fits(player, 2, row, column + 2) && self.cell_fits(player, 3, row, column + 3)
        } else if d == 1 {
            if self.rows - row <= 3 {
                assert(!m@.in_bounds(row + 3 * dir_row(1), column + 3 * dir_col(1)));
                return false;
            }
            self.cell_fits(player, 0, row, column) && self.cell_fits(player, 1, row + 1, column)
                && self.cell_fits(player, 2, row + 2, column) && self.cell_fits(player, 3, row + 3, column)
        } else if d == 2 {
            if row < 3 || self.columns - column <= 3 {
                assert(!m@.in_bounds(row + 3 * dir_row(2), column + 3 * dir_col(2)));
                return false;
            }
            self.cell_fits(player, 0, row, column) && self.cell_fits(player, 1, row - 1, column + 1)
                && self.cell_fits(player, 2, row - 2, column + 2) && self.cell_fits(player, 3, row - 3, column + 3)
        } else {
            if row < 3 || column < 3 {
                assert(!m@.in_bounds(row + 3 * dir_row(3), column + 3 * dir_col(3)));
                return false;
            }
            self.cell_fits(player, 0, row, column) && self.cell_fits(player, 1, row - 1, column - 1)
                && self.cell_fits(player, 2, row - 2, column - 2) && self.cell_fits(player, 3, row - 3, column - 3)
        }
    }

    /// Whether `player` has won: four owned cells in a line in the discs game,
    /// the player's letter sequence in a line in the letter game, whoever
    /// placed those letters.
    pub fn check_if_won(&self, player: u32) -> (r: bool)
        requires
            self@.wf(),
        ensures
            r == self@.won(player),
            self@.game_type == GameType::Connect4 ==> (r <==> exists|row: int, column: int, d: int|
                0 <= d < 4 && #[trigger] self@.run_owned(player, row, column, d)),
    {
        let mut row: usize = 0;
        while row < self.rows
            invariant
                self@.wf(),
                row <= self@.rows,
                forall|r: int, c: int, d: int|
                    0 <= r < row && 0 <= d < 4 ==> !#[trigger] self@.window(player, r, c, d),
            decreases self@.rows - row,
        {
            let mut column: usize = 0;
            while column < self.columns
                invariant
                    self@.wf(),
                    row < self@.rows,
                    column <= self@.columns,
                    forall|r: int, c: int, d: int|
                        0 <= r < row && 0 <= d < 4 ==> !#[trigger] self@.window(player, r, c, d),
                    forall|c: int, d: int|
                        0 <= c < column && 0 <= d < 4 ==> !#[trigger] self@.window(player, row as int, c, d),
                    forall|c: int, d: int|
                        (c < 0 || c >= self@.columns) ==> !#[trigger] self@.window(player, row as int, c, d),
                decreases self@.columns - column,
            {
                let mut d: usize = 0;
                while d < 4
                    invariant
                        self@.wf(),
                        row < self@.rows,
                        column < self@.columns,
                        d <= 4,
                        forall|dd: int| 0 <= dd < d ==> !#[trigger] self@.window(player, row as int, column as int, dd),
                    decreases 4 - d,
                {
                    if self.window_at(player, row, column, d) {
                        proof {
                            self@.lemma_won_witness(player, row as int, column as int, d as int);
                            if self@.game_type == GameType::Connect4 {
                                self@.lemma_won_runs(player);
                            }
                        }
                        return true;
                    }
                    d += 1;
                }
                column += 1;
            }
            row += 1;
        }
        proof {
            assert forall|r: int, c: int, d: int| 0 <= d < 4 implies !#[trigger] self@.window(player, r, c, d) by {
                if 0 <= r < self@.rows {
                } else {
                    assert(!self@.in_bounds(r, c));
                }
            }
            if self@.game_type == GameType::Connect4 {
                self@.lemma_won_runs(player);
            }
        }
        false
    }

    /// Whether every column is filled to the top.
    pub fn check_if_no_more_moves(&self) -> (r: bool)
        requires
            self@.wf(),
        ensures
            r == self@.full(),
    {
        let mut column: usize = 0;
        while column < self.columns
            invariant
                self@.wf(),
                column <= self@.columns,
                forall|c: int| 0 <= c < column ==> #[trigger] self@.heights[c] == self@.rows,
            decreases self@.columns - column,
        {
            if self.heights[column] < self.rows {
                return false;
            }
            column += 1;
        }
        true
    }

    /// Whether dropping the move for `player` would win for `player`; the
    /// board is left as it was.
    pub fn check_if_winning_move(&mut self, possible_move: PossibleMove, player: u32) -> (r: bool)
        requires
            old(self)@.wf(),
        ensures
            final(self)@ == old(self)@,
            r == old(self)@.wins_with(possible_move, player),
    {
        let column = possible_move.column;
        if column < self.columns && self.heights[column] < self.rows {
            self.place_at_column(possible_move, player);
            let won = self.check_if_won(player);
            self.undo_move();
            proof {
                lemma_place_undo(old(self)@, possible_move, player);
            }
            return won;
        }
        false
    }

    /// Score of the position for the side to move, by depth-limited negamax
    /// with fail-soft alpha-beta pruning: 0 when the depth is used up or the
    /// board is full, `(cells + 1 - moves) / 2` when a move wins at once,
    /// else the best score of the moves in search order. The board is left
    /// as it was.
    pub fn negamax(&mut self, depth: u32, alpha: i32, beta: i32) -> (r: i32)
        requires
            old(self)@.wf(),
            i32::MIN < alpha < beta,
        ensures
            final(self)@ == old(self)@,
            r == negamax_value(old(self)@, depth as nat, alpha as int, beta as int),
            depth == 0 ==> r == 0,
            old(self)@.moves == old(self)@.cells() ==> r == 0,
            old(self)@.full() ==> r == 0,
            depth > 0 && old(self)@.moves < old(self)@.cells() && old(self)@.can_win_now() ==> r == (
            old(self)@.cells() + 1 - old(self)@.moves) / 2,
            r == alpha || r == beta || -((old(self)@.cells() + 1) / 2) <= r <= (old(self)@.cells() + 1) / 2,
        decreases depth,
    {
        proof {
            lemma_full_moves(self@);
        }
        if depth == 0 {
            return 0;
        }
        let ghost m0 = self@;
        let n = (self.rows * self.columns) as i32;
        let moves = self.moves as i32;
        let player = if self.player_turn {
            PLAYER_ID
        } else {
            AI_ID
        };
        if self.moves as usize == self.rows * self.columns {
            return 0;
        }
        assert(n == m0.cells() && moves == m0.moves && m0.moves < m0.cells());
        let candidates = self.get_possible_moves();
        let mut i: usize = 0;
        while i < candidates.len()
            invariant
                self@ == m0,
                m0 == old(self)@,
                m0.wf(),
                depth > 0,
                n == m0.cells(),
                moves == m0.moves,
                m0.moves < m0.cells(),
                candidates@ == m0.possible_moves(),
                player == m0.to_move(),
                i <= candidates@.len(),
                forall|j: int| 0 <= j < i ==> !m0.wins_with(#[trigger] candidates@[j], player),
            decreases candidates@.len() - i,
        {
            if self.check_if_winning_move(candidates[i], player) {
                return (n + 1 - moves) / 2;
            }
            i += 1;
        }
        assert(!m0.can_win_now());
        let max = (n - 1 - moves) / 2;
        let mut low = alpha;
        let mut high = beta;
        if high > max {
            high = max;
            if low >= high {
                return high;
            }
        }
        proof {
            lemma_upto_legal(m0, m0.columns as int);
        }
        let ghost bound = (m0.cells() + 1) / 2;
        let mut i: usize = 0;
        while i < candidates.len()
            invariant
                self@ == m0,
                m0 == old(self)@,
                m0.wf(),
                m0.moves < m0.cells(),
                player == m0.to_move(),
                !m0.can_win_now(),
                negamax_value(m0, depth as nat, alpha as int, beta as int) == negamax_scan(
                    m0,
                    depth as nat,
                    low as int,
                    high as int,
                    i as nat,
                ),
                candidates@ == m0.possible_moves(),
                forall|j: int| 0 <= j < candidates@.len() ==> m0.legal(#[trigger] candidates@[j]),
                i <= candidates@.len(),
                depth > 0,
                low < high,
                0 <= max <= bound,
                high <= max,
                bound == (m0.cells() + 1) / 2,
                low == alpha || -bound <= low <= bound,
                high == beta || 0 <= high <= bound,
                alpha > i32::MIN,
            decreases candidates@.len() - i,
        {
            let candidate = candidates[i];
            self.place_at_column(candidate, player);
            let score = -self.negamax(depth - 1, -high, -low);
            self.undo_move();
            proof {
                lemma_place_undo(m0, candidate, player);
            }
            if score >= high {
                return score;
            }
            if score > low {
                low = score;
            }
            i += 1;
        }
        low
    }

    /// Outcome reached by a rollout right after `player` moved: in the discs
    /// game only the mover can have won; in the letter game either sequence
    /// may have appeared, the human player's checked first.
    fn rollout_outcome(&self, player: u32) -> (r: GameState)
        requires
            self@.wf(),
        ensures
            r == self@.rollout_state(player),
    {
        match self.game_type {
            GameType::Connect4 => {
                if self.check_if_won(player) {
                    GameState::Win(player)
                } else if self.check_if_no_more_moves() {
                    GameState::Tie
                } else {
                    GameState::Running
                }
            },
            GameType::OttoToot => {
                if self.check_if_won(PLAYER_ID) {
                    GameState::Win(PLAYER_ID)
                } else if self.check_if_won(AI_ID) {
                    GameState::Win(AI_ID)
                } else if self.check_if_no_more_moves() {
                    GameState::Tie
                } else {
                    GameState::Running
                }
            },
        }
    }

    /// Plays the configured number of random games from the current board,
    /// each taken back in full before the next; counts +1 for each game the
    /// computer wins and -1 for each the human player wins. The board is
    /// left as it was.
    #[verifier::rlimit(30)]
    pub fn random_search(&mut self) -> (r: i32)
        requires
            old(self)@.wf(),
        ensures
            final(self)@ == old(self)@,
            -(old(self)@.ai.rollouts() as int) <= r <= old(self)@.ai.rollouts(),
            exists|games: Seq<Seq<(PossibleMove, u32)>>|
                {
                    &&& games.len() == old(self)@.ai.rollouts()
                    &&& forall|k: int| 0 <= k < games.len() ==> is_playout(old(self)@, #[trigger] games[k])
                    &&& r == playouts_total(old(self)@, games)
                },
    {
        let ghost start = self@;
        let ghost mut games: Seq<Seq<(PossibleMove, u32)>> = Seq::empty();
        let iterations = self.ai.rollout_iterations;
        let mut score: i32 = 0;
        let mut iteration: u32 = 0;
        while iteration < iterations
            invariant
                self@ == start,
                start == old(self)@,
                start.wf(),
                iterations == start.ai.rollouts(),
                iterations <= MAX_ROLLOUTS,
                iteration <= iterations,
                -(iteration as int) <= score <= iteration,
                games.len() == iteration,
                forall|k: int| 0 <= k < games.len() ==> is_playout(start, #[trigger] games[k]),
                score == playouts_total(start, games),
            decreases iterations - iteration,
        {
            let ghost mut played: Seq<(PossibleMove, u32)> = Seq::empty();
            proof {
                lemma_full_moves(self@);
            }
            let mut moves: u32 = 0;
            let mut scout_state = GameState::Running;
            while scout_state == GameState::Running
                invariant
                    start.wf(),
                    legal_all(start, played),
                    self@ == place_all(start, played),
                    moves == played.len(),
                    self@.wf(),
                    self@.moves == start.moves + moves,
                    self@.moves <= self@.cells(),
                    self@.cells() == start.cells(),
                    scout_state == playout_state(start, played),
                    forall|i: int|
                        0 <= i < played.len() ==> {
                            &&& place_all(start, played.take(i)).legal(#[trigger] played[i].0)
                            &&& played[i].1 == place_all(start, played.take(i)).to_move()
                        },
                    forall|i: int|
                        0 <= i < played.len() - 1 ==> place_all(start, played.take(i + 1)).rollout_state(
                            #[trigger] played[i].1,
                        ) == GameState::Running,
                ensures
                    scout_state != GameState::Running || self@.possible_moves().len() == 0,
                decreases self@.cells() - self@.moves + if scout_state == GameState::Running { 1int } else { 0int },
            {
                let possible_moves = self.get_possible_moves();
                if possible_moves.len() == 0 {
                    break;
                }
                let choice = random_below(&mut self.rng, possible_moves.len());
                let rand_choice = possible_moves[choice];
                let player = if self.player_turn {
                    PLAYER_ID
                } else {
                    AI_ID
                };
                let ghost before = self@;
                proof {
                    lemma_upto_legal(self@, self@.columns as int);
                    assert(self@.legal(possible_moves@[choice as int]));
                    lemma_place_wf(self@, rand_choice, player);
                }
                self.place_at_column(rand_choice, player);
                proof {
                    lemma_playout_step(start, played, rand_choice, player);
                    played = played.push((rand_choice, player));
                    lemma_place_all_wf(start, played);
                    lemma_full_moves(self@);
                }
                scout_state = self.rollout_outcome(player);
                moves += 1;
            }
            match scout_state {
                GameState::Win(player) => {
                    if player == AI_ID {
                        score += 1;
                    } else {
                        score -= 1;
                    }
                },
                _ => {},
            }
            proof {
                let old_games = games;
                games = games.push(played);
                assert(games.drop_last() =~= old_games);
                assert(is_playout(start, played));
                assert forall|k: int| 0 <= k < games.len() implies is_playout(start, #[trigger] games[k]) by {
                    if k < old_games.len() {
                        assert(games[k] == old_games[k]);
                    }
                }
            }
            let mut undone: u32 = 0;
            while undone < moves
                invariant
                    start.wf(),
                    legal_all(start, played),
                    moves == played.len(),
                    undone <= moves,
                    self@ == undo_n(place_all(start, played), undone as nat),
                decreases moves - undone,
            {
                proof {
                    lemma_undo_prefix(start, played, undone as nat);
                    lemma_legal_prefix(start, played, played.len() - undone);
                    lemma_place_all_wf(start, played.take(played.len() - undone));
                }
                self.undo_move();
                undone += 1;
            }
            proof {
                lemma_undo_inverse(start, played);
            }
            iteration += 1;
        }
        score
    }

    /// The computer's move: each legal move, column by column from the left
    /// (T before O in the letter game), is scored by an exact search scaled
    /// by `EXACT_SCORE_SCALE`, or by rollouts when the search finds nothing;
    /// the first move with the highest score is chosen. The board is left as
    /// it was.
    pub fn get_ai_move(&mut self) -> (r: PossibleMove)
        requires
            old(self)@.wf(),
            !old(self)@.full(),
            old(self)@.cells() >= 2,
        ensures
            final(self)@ == old(self)@,
            old(self)@.legal(r),
            old(self)@.possible_moves().contains(r),
            old(self)@.ai_choice(r),
    {
        let ghost m0 = self@;
        let n = (self.rows * self.columns) as i32;
        let depth = self.ai.search_depth;
        let mut highest_score = i32::MIN;
        let mut choice = PossibleMove { column: 0, letter: None };
        let ghost mut scores: Seq<int> = Seq::empty();
        let mut column: usize = 0;
        while column < self.columns
            invariant
                self@ == m0,
                m0 == old(self)@,
                m0.wf(),
                n == m0.cells(),
                n >= 2,
                depth == m0.ai.depth(),
                column <= m0.columns,
                highest_score > i32::MIN ==> m0.legal(choice),
                (exists|c: int| 0 <= c < column && m0.column_valid(c)) ==> highest_score > i32::MIN,
                scores.len() == m0.natural_upto(column as int).len(),
                forall|j: int|
                    0 <= j < scores.len() ==> m0.score_fits(#[trigger] m0.natural_moves()[j], scores[j]),
                scores.len() == 0 ==> highest_score == i32::MIN,
                scores.len() > 0 ==> {
                    &&& 0 <= best_index(scores) < scores.len()
                    &&& highest_score == scores[best_index(scores)]
                    &&& choice == m0.natural_moves()[best_index(scores)]
                },
            decreases m0.columns - column,
        {
            let candidates = self.column_candidates(column);
            proof {
                lemma_column_moves_legal(m0, column as int);
                lemma_natural_prefix(m0, column as int + 1, m0.columns as int);
            }
            let ghost base = scores.len();
            let mut k: usize = 0;
            while k < candidates.len()
                invariant
                    self@ == m0,
                    m0.wf(),
                    n == m0.cells(),
                    n >= 2,
                    depth == m0.ai.depth(),
                    column < m0.columns,
                    candidates@ == m0.column_moves(column as int),
                    forall|j: int| 0 <= j < candidates@.len() ==> m0.legal(#[trigger] candidates@[j]),
                    k <= candidates@.len(),
                    highest_score > i32::MIN ==> m0.legal(choice),
                    k > 0 ==> highest_score > i32::MIN,
                    (exists|c: int| 0 <= c < column && m0.column_valid(c)) ==> highest_score > i32::MIN,
                    base == m0.natural_upto(column as int).len(),
                    m0.natural_upto(column as int + 1) == m0.natural_upto(column as int) + candidates@,
                    forall|j: int|
                        0 <= j < m0.natural_upto(column as int + 1).len() ==> #[trigger] m0.natural_moves()[j]
                            == m0.natural_upto(column as int + 1)[j],
                    scores.len() == base + k,
                    forall|j: int|
                        0 <= j < scores.len() ==> m0.score_fits(#[trigger] m0.natural_moves()[j], scores[j]),
                    scores.len() == 0 ==> highest_score == i32::MIN,
                    scores.len() > 0 ==> {
                        &&& 0 <= best_index(scores) < scores.len()
                        &&& highest_score == scores[best_index(scores)]
                        &&& choice == m0.natural_moves()[best_index(scores)]
                    },
                decreases candidates@.len() - k,
            {
                let candidate = candidates[k];
                proof {
                    assert(m0.natural_moves()[base + k] == candidate);
                }
                self.place_at_column(candidate, AI_ID);
                let exact = self.negamax(depth, -(n / 2), n / 2);
                let mut score = -exact * EXACT_SCORE_SCALE;
                if score == 0 {
                    score = self.random_search();
                }
                proof {
                    let old_scores = scores;
                    scores = scores.push(score as int);
                    assert(scores.drop_last() =~= old_scores);
                    lemma_best_index(scores);
                    assert forall|j: int| 0 <= j < scores.len() implies m0.score_fits(
                        #[trigger] m0.natural_moves()[j],
                        scores[j],
                    ) by {
                        if j < old_scores.len() {
                            assert(scores[j] == old_scores[j]);
                        }
                    }
                    if old_scores.len() > 0 {
                        assert(scores[best_index(old_scores)] == old_scores[best_index(old_scores)]);
                    }
                }
                if score > highest_score {
                    highest_score = score;
                    choice = candidate;
                }
                self.undo_move();
                proof {
                    lemma_place_undo(m0, candidate, AI_ID);
                }
                k += 1;
            }
            proof {
                if exists|c: int| 0 <= c < column + 1 && m0.column_valid(c) {
                    let c = choose|c: int| 0 <= c < column + 1 && m0.column_valid(c);
                    if c == column {
                        assert(candidates@.len() > 0);
                    } else {
                        assert(0 <= c < column && m0.column_valid(c));
                    }
                }
            }
            column += 1;
        }
        proof {
            let c = choose|c: int| 0 <= c < m0.columns && m0.heights[c] != m0.rows;
            assert(m0.column_valid(c));
            lemma_possible_moves(m0, choice);
            assert(m0.ai_choice(choice));
        }
        choice
    }
}

} // verus!
