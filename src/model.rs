//! Mathematical model of a board: its cells, column heights and move stack,
//! and what placing, undoing and winning mean on it.

use vstd::prelude::*;

use crate::board::{AIConfiguration, ColumnSelectionResult, Move, PossibleMove, EXACT_SCORE_SCALE};
use crate::game::GameState;
use crate::records::GameType;
use crate::slot::{Letter, Slot};

verus! {

/// Owner value of the human player.
pub const PLAYER_ID: u32 = 1;

/// Owner value of the computer player.
pub const AI_ID: u32 = 2;

/// Largest number of cells a board may have; it keeps every score, scaled
/// by the search, inside `i32`.
pub const MAX_CELLS: usize = 131072;

/// Column visited at position `i` of the search order: center first, then
/// alternating outward.
pub open spec fn order_at(columns: int, i: int) -> int {
    columns / 2 + (1 - 2 * (i % 2)) * (i + 1) / 2
}

/// Number of entries of `h` that lie in column `c`.
pub open spec fn count_in_column(h: Seq<Move>, c: int) -> nat
    decreases h.len(),
{
    if h.len() == 0 {
        0
    } else {
        count_in_column(h.drop_last(), c) + if h.last().column == c {
            1nat
        } else {
            0nat
        }
    }
}

/// Position `i` of the grid is the cell at row `i / columns`, column `i % columns`.
pub proof fn lemma_cell_of_index(m: BoardModel, i: int)
    requires
        0 <= i < m.cells(),
    ensures
        m.in_bounds(i / m.columns as int, i % m.columns as int),
        m.index(i / m.columns as int, i % m.columns as int) == i,
{
    let w = m.columns as int;
    let h = m.rows as int;
    assert(w > 0) by (nonlinear_arith)
        requires
            0 <= i < h * w,
            h >= 0,
    ;
    assert(i == (i / w) * w + i % w) by (nonlinear_arith)
        requires
            w > 0,
    ;
    assert(i / w < h) by (nonlinear_arith)
        requires
            w > 0,
            0 <= i < h * w,
    ;
}

/// Sum of the column heights.
pub open spec fn sum_heights(s: Seq<usize>) -> int
    decreases s.len(),
{
    if s.len() == 0 {
        0
    } else {
        sum_heights(s.drop_last()) + s.last()
    }
}

/// Letter at position `k` of the sequence that wins the letter game for
/// `player`: T,O,O,T for the human player, O,T,T,O for anyone else.
pub open spec fn win_letter(player: u32, k: int) -> Letter {
    if player == PLAYER_ID {
        if k == 0 || k == 3 {
            Letter::T
        } else {
            Letter::O
        }
    } else {
        if k == 0 || k == 3 {
            Letter::O
        } else {
            Letter::T
        }
    }
}

/// Row step of scan direction `d`: along a row, down a column, up-right, up-left.
pub open spec fn dir_row(d: int) -> int {
    if d == 0 {
        0
    } else if d == 1 {
        1
    } else {
        -1
    }
}

/// Column step of scan direction `d`.
pub open spec fn dir_col(d: int) -> int {
    if d == 0 || d == 2 {
        1
    } else if d == 1 {
        0
    } else {
        -1
    }
}

/// Everything a board holds but its random source.
pub struct BoardModel {
    pub rows: usize,
    pub columns: usize,
    pub game_type: GameType,
    pub grid: Seq<Slot>,
    pub heights: Seq<usize>,
    pub moves: u32,
    pub history: Seq<Move>,
    pub order: Seq<usize>,
    pub player_turn: bool,
    pub ai: AIConfiguration,
}

impl BoardModel {
    pub open spec fn cells(self) -> int {
        self.rows * self.columns
    }

    pub open spec fn in_bounds(self, r: int, c: int) -> bool {
        0 <= r < self.rows && 0 <= c < self.columns
    }

    pub open spec fn index(self, r: int, c: int) -> int {
        r * self.columns + c
    }

    pub open spec fn cell(self, r: int, c: int) -> Slot {
        self.grid[self.index(r, c)]
    }

    /// The invariant of a board.
    pub open spec fn wf(self) -> bool {
        &&& self.rows * self.columns <= MAX_CELLS
        &&& self.grid.len() == self.rows * self.columns
        &&& self.heights.len() == self.columns
        &&& self.order.len() == self.columns
        &&& forall|i: int| 0 <= i < self.columns ==> #[trigger] self.order[i] == order_at(self.columns as int, i)
        &&& self.ai.wf()
        &&& forall|c: int| 0 <= c < self.columns ==> #[trigger] self.heights[c] <= self.rows
        &&& forall|r: int, c: int|
            #![trigger self.cell(r, c)]
            self.in_bounds(r, c) ==> {
                &&& (self.cell(r, c).occupied <==> r >= self.rows - self.heights[c])
                &&& (!self.cell(r, c).occupied ==> self.cell(r, c) == Slot::empty())
            }
        &&& self.moves == self.history.len()
        &&& self.moves == sum_heights(self.heights)
        &&& forall|k: int|
            0 <= k < self.history.len() ==> {
                &&& #[trigger] self.history[k].column < self.columns
                &&& self.history[k].row == self.rows - 1 - count_in_column(self.history.take(k), self.history[k].column as int)
            }
        &&& forall|c: int| 0 <= c < self.columns ==> #[trigger] count_in_column(self.history, c) == self.heights[c]
    }

    /// What checking a column reports.
    pub open spec fn selection(self, column: int) -> ColumnSelectionResult {
        if column < 0 || column >= self.columns {
            ColumnSelectionResult::ColumnDoesNotExist
        } else if self.heights[column] >= self.rows {
            ColumnSelectionResult::ColumnFull
        } else {
            ColumnSelectionResult::Valid
        }
    }

    pub open spec fn column_valid(self, column: int) -> bool {
        self.selection(column) == ColumnSelectionResult::Valid
    }

    /// Every column is filled up to the top.
    pub open spec fn full(self) -> bool {
        forall|c: int| 0 <= c < self.columns ==> #[trigger] self.heights[c] == self.rows
    }

    /// The board after `player` drops a piece into the move's column: it lands
    /// on the lowest free row.
    pub open spec fn place(self, m: PossibleMove, player: u32) -> BoardModel {
        let c = m.column as int;
        let row = self.rows - self.heights[c] - 1;
        BoardModel {
            grid: self.grid.update(self.index(row, c), self.cell(row, c).with_piece(player, m.letter)),
            heights: self.heights.update(c, (self.heights[c] + 1) as usize),
            moves: (self.moves + 1) as u32,
            history: self.history.push(Move { row: row as usize, column: m.column }),
            player_turn: !self.player_turn,
            ..self
        }
    }

    /// The board after the last move is taken back.
    pub open spec fn undo(self) -> BoardModel {
        let last = self.history.last();
        let c = last.column as int;
        BoardModel {
            grid: self.grid.update(self.index(last.row as int, c), Slot::empty()),
            heights: self.heights.update(c, (self.heights[c] - 1) as usize),
            moves: (self.moves - 1) as u32,
            history: self.history.drop_last(),
            player_turn: !self.player_turn,
            ..self
        }
    }

    /// The cell at (r, c) is in the board and fits position `k` of a winning
    /// window for `player`: owned by `player` in the discs game, holding the
    /// `k`-th letter of the player's sequence in the letter game.
    pub open spec fn cell_fits(self, player: u32, k: int, r: int, c: int) -> bool {
        &&& self.in_bounds(r, c)
        &&& self.cell(r, c).occupied
        &&& match self.game_type {
            GameType::Connect4 => self.cell(r, c).player == player,
            GameType::OttoToot => self.cell(r, c).letter == win_letter(player, k),
        }
    }

    /// The four cells from (r, c) along direction `d` make a win for `player`.
    pub open spec fn window(self, player: u32, r: int, c: int, d: int) -> bool {
        &&& self.cell_fits(player, 0, r, c)
        &&& self.cell_fits(player, 1, r + dir_row(d), c + dir_col(d))
        &&& self.cell_fits(player, 2, r + 2 * dir_row(d), c + 2 * dir_col(d))
        &&& self.cell_fits(player, 3, r + 3 * dir_row(d), c + 3 * dir_col(d))
    }

    pub open spec fn won(self, player: u32) -> bool {
        exists|r: int, c: int, d: int| 0 <= d < 4 && #[trigger] self.window(player, r, c, d)
    }

    /// The cell at (r, c) is in the board and holds a piece of `player`.
    pub open spec fn owns(self, player: u32, r: int, c: int) -> bool {
        self.in_bounds(r, c) && self.cell(r, c).occupied && self.cell(r, c).player == player
    }

    /// Four cells in a line from (r, c) along direction `d`, all owned by `player`.
    pub open spec fn run_owned(self, player: u32, r: int, c: int, d: int) -> bool {
        &&& self.owns(player, r, c)
        &&& self.owns(player, r + dir_row(d), c + dir_col(d))
        &&& self.owns(player, r + 2 * dir_row(d), c + 2 * dir_col(d))
        &&& self.owns(player, r + 3 * dir_row(d), c + 3 * dir_col(d))
    }

    /// Candidate moves of one column: none if it is not open, else one disc,
    /// or a T and an O in the letter game.
    pub open spec fn column_moves(self, column: int) -> Seq<PossibleMove> {
        if !self.column_valid(column) {
            Seq::empty()
        } else {
            match self.game_type {
                GameType::Connect4 => seq![PossibleMove { column: column as usize, letter: None }],
                GameType::OttoToot => seq![
                    PossibleMove { column: column as usize, letter: Some(Letter::T) },
                    PossibleMove { column: column as usize, letter: Some(Letter::O) },
                ],
            }
        }
    }

    /// Candidate moves of the first `n` columns of the search order.
    pub open spec fn moves_upto(self, n: int) -> Seq<PossibleMove>
        decreases n,
    {
        if n <= 0 {
            Seq::empty()
        } else {
            self.moves_upto(n - 1) + self.column_moves(self.order[n - 1] as int)
        }
    }

    /// All candidate moves, column by column in search order.
    pub open spec fn possible_moves(self) -> Seq<PossibleMove> {
        self.moves_upto(self.columns as int)
    }

    /// A move that may be played: its column is open, and it carries a letter
    /// exactly in the letter game.
    pub open spec fn legal(self, m: PossibleMove) -> bool {
        &&& self.column_valid(m.column as int)
        &&& match self.game_type {
            GameType::Connect4 => m.letter is None,
            GameType::OttoToot => m.letter is Some,
        }
    }

    /// Dropping `m` for `player` is possible and wins for `player`.
    pub open spec fn wins_with(self, m: PossibleMove, player: u32) -> bool {
        self.column_valid(m.column as int) && self.place(m, player).won(player)
    }

    /// The side to move has a candidate move that wins at once.
    pub open spec fn can_win_now(self) -> bool {
        exists|j: int| 0 <= j < self.possible_moves().len() && self.wins_with(#[trigger] self.possible_moves()[j], self.to_move())
    }

    /// Candidate moves of the first `n` columns from the left.
    pub open spec fn natural_upto(self, n: int) -> Seq<PossibleMove>
        decreases n,
    {
        if n <= 0 {
            Seq::empty()
        } else {
            self.natural_upto(n - 1) + self.column_moves(n - 1)
        }
    }

    /// All candidate moves, columns from the left.
    pub open spec fn natural_moves(self) -> Seq<PossibleMove> {
        self.natural_upto(self.columns as int)
    }

    /// Exact score of the computer playing `m`: the negated search value of
    /// the board after it, over the window (-cells/2, cells/2), scaled.
    pub open spec fn exact_score(self, m: PossibleMove) -> int {
        -negamax_value(self.place(m, AI_ID), self.ai.depth() as nat, -(self.cells() / 2), self.cells() / 2)
            * EXACT_SCORE_SCALE
    }

    /// `s` may be the score of the computer's move `m`: its exact score when
    /// that is not 0, else the total of as many rollouts from the board after
    /// `m` as the configuration asks for.
    pub open spec fn score_fits(self, m: PossibleMove, s: int) -> bool {
        if self.exact_score(m) != 0 {
            s == self.exact_score(m)
        } else {
            exists|games: Seq<Seq<(PossibleMove, u32)>>|
                {
                    &&& games.len() == self.ai.rollouts()
                    &&& forall|k: int| 0 <= k < games.len() ==> is_playout(self.place(m, AI_ID), #[trigger] games[k])
                    &&& s == playouts_total(self.place(m, AI_ID), games)
                }
        }
    }

    /// `r` may be the computer's choice on this board: with some admissible
    /// score for each candidate, columns from the left, it is the first
    /// candidate with the highest score.
    pub open spec fn ai_choice(self, r: PossibleMove) -> bool {
        exists|scores: Seq<int>|
            {
                &&& scores.len() == self.natural_moves().len()
                &&& forall|j: int|
                    0 <= j < scores.len() ==> self.score_fits(#[trigger] self.natural_moves()[j], scores[j])
                &&& r == self.natural_moves()[best_index(scores)]
            }
    }

    /// Outcome of the match on this board: a win of the human player, checked
    /// first, then a win of the computer, then a full board.
    pub open spec fn outcome(self) -> GameState {
        if self.won(PLAYER_ID) {
            GameState::Win(PLAYER_ID)
        } else if self.won(AI_ID) {
            GameState::Win(AI_ID)
        } else if self.full() {
            GameState::Tie
        } else {
            GameState::Running
        }
    }

    /// Outcome a rollout reads right after `player` moved: in the discs game
    /// only the mover can have won; in the letter game either sequence may
    /// have appeared, the human player's checked first.
    pub open spec fn rollout_state(self, player: u32) -> GameState {
        match self.game_type {
            GameType::Connect4 => if self.won(player) {
                GameState::Win(player)
            } else if self.full() {
                GameState::Tie
            } else {
                GameState::Running
            },
            GameType::OttoToot => if self.won(PLAYER_ID) {
                GameState::Win(PLAYER_ID)
            } else if self.won(AI_ID) {
                GameState::Win(AI_ID)
            } else if self.full() {
                GameState::Tie
            } else {
                GameState::Running
            },
        }
    }

    /// Owner of the next piece.
    pub open spec fn to_move(self) -> u32 {
        if self.player_turn {
            PLAYER_ID
        } else {
            AI_ID
        }
    }
}

impl BoardModel {
    pub proof fn lemma_won_witness(self, player: u32, r: int, c: int, d: int)
        requires
            0 <= d < 4,
            self.window(player, r, c, d),
        ensures
            self.won(player),
    {
    }

    /// In the discs game a winning window is a run of four owned cells.
    pub proof fn lemma_won_runs(self, player: u32)
        requires
            self.game_type == GameType::Connect4,
        ensures
            forall|r: int, c: int, d: int| #[trigger] self.window(player, r, c, d) <==> self.run_owned(player, r, c, d),
            self.won(player) <==> exists|r: int, c: int, d: int| 0 <= d < 4 && #[trigger] self.run_owned(player, r, c, d),
    {
        if self.won(player) {
            let (r, c, d) = choose|r: int, c: int, d: int| 0 <= d < 4 && #[trigger] self.window(player, r, c, d);
            assert(self.run_owned(player, r, c, d));
        }
        if exists|r: int, c: int, d: int| 0 <= d < 4 && #[trigger] self.run_owned(player, r, c, d) {
            let (r, c, d) = choose|r: int, c: int, d: int| 0 <= d < 4 && #[trigger] self.run_owned(player, r, c, d);
            assert(self.window(player, r, c, d));
        }
    }
}

/// Score of depth-limited negamax with fail-soft alpha-beta pruning, for the
/// side to move, within the window (`alpha`, `beta`): 0 when the depth is used
/// up or the board is full; `(cells + 1 - moves) / 2` when a move wins at once;
/// else `beta` is lowered to `(cells - 1 - moves) / 2`, the best score still
/// possible, and the moves are scanned in search order.
pub open spec fn negamax_value(m: BoardModel, depth: nat, alpha: int, beta: int) -> int
    decreases depth, 1nat, 0nat,
{
    if depth == 0 {
        0
    } else if m.moves == m.cells() {
        0
    } else if m.can_win_now() {
        (m.cells() + 1 - m.moves) / 2
    } else {
        let max = (m.cells() - 1 - m.moves) / 2;
        if beta > max && alpha >= max {
            max
        } else {
            negamax_scan(m, depth, alpha, if beta > max { max } else { beta }, 0)
        }
    }
}

/// The scan of the candidate moves from position `i` on: each is scored by
/// the negated value of the board after it, with the window swapped and
/// negated; a score at or above `high` is returned at once, a score above
/// `low` raises it, and `low` is returned at the end.
pub open spec fn negamax_scan(m: BoardModel, depth: nat, low: int, high: int, i: nat) -> int
    decreases depth, 0nat, m.possible_moves().len() - i,
{
    if depth == 0 || i >= m.possible_moves().len() {
        low
    } else {
        let score = -negamax_value(m.place(m.possible_moves()[i as int], m.to_move()), (depth - 1) as nat, -high, -low);
        if score >= high {
            score
        } else {
            negamax_scan(m, depth, if score > low { score } else { low }, high, i + 1)
        }
    }
}

/// Position of the first highest score.
pub open spec fn best_index(scores: Seq<int>) -> int
    decreases scores.len(),
{
    if scores.len() <= 1 {
        0
    } else {
        let b = best_index(scores.drop_last());
        if scores.last() > scores[b] {
            scores.len() - 1
        } else {
            b
        }
    }
}

pub proof fn lemma_best_index(scores: Seq<int>)
    requires
        scores.len() > 0,
    ensures
        0 <= best_index(scores) < scores.len(),
    decreases scores.len(),
{
    if scores.len() > 1 {
        lemma_best_index(scores.drop_last());
    }
}

/// The candidates of the first `n` columns from the left come first in
/// those of the first `n2` columns.
pub proof fn lemma_natural_prefix(m: BoardModel, n: int, n2: int)
    requires
        0 <= n <= n2,
    ensures
        m.natural_upto(n).len() <= m.natural_upto(n2).len(),
        forall|j: int| 0 <= j < m.natural_upto(n).len() ==> #[trigger] m.natural_upto(n2)[j] == m.natural_upto(n)[j],
    decreases n2 - n,
{
    if n < n2 {
        lemma_natural_prefix(m, n, n2 - 1);
    }
}

/// Outcome a rollout reads at the end of game `g` played from `m`.
pub open spec fn playout_state(m: BoardModel, g: Seq<(PossibleMove, u32)>) -> GameState {
    if g.len() == 0 {
        GameState::Running
    } else {
        place_all(m, g).rollout_state(g.last().1)
    }
}

/// `g` is a game a rollout may play from `m`: every move is a candidate of
/// the board it is played on, made by the side to move; play goes on while no
/// outcome is reached, and stops at an outcome or when no move is left.
pub open spec fn is_playout(m: BoardModel, g: Seq<(PossibleMove, u32)>) -> bool {
    &&& legal_all(m, g)
    &&& forall|i: int|
        0 <= i < g.len() ==> {
            &&& place_all(m, g.take(i)).legal(#[trigger] g[i].0)
            &&& g[i].1 == place_all(m, g.take(i)).to_move()
        }
    &&& forall|i: int|
        0 <= i < g.len() - 1 ==> place_all(m, g.take(i + 1)).rollout_state(#[trigger] g[i].1)
            == GameState::Running
    &&& (playout_state(m, g) != GameState::Running || place_all(m, g).possible_moves().len() == 0)
}

/// Playing one more candidate move, by the side to move, on a game that is
/// still going extends it as a rollout plays it.
#[verifier::rlimit(30)]
pub proof fn lemma_playout_step(m: BoardModel, g: Seq<(PossibleMove, u32)>, mv: PossibleMove, player: u32)
    requires
        forall|i: int|
            0 <= i < g.len() ==> {
                &&& place_all(m, g.take(i)).legal(#[trigger] g[i].0)
                &&& g[i].1 == place_all(m, g.take(i)).to_move()
            },
        forall|i: int|
            0 <= i < g.len() - 1 ==> place_all(m, g.take(i + 1)).rollout_state(#[trigger] g[i].1)
                == GameState::Running,
        playout_state(m, g) == GameState::Running,
        legal_all(m, g),
        place_all(m, g).legal(mv),
        player == place_all(m, g).to_move(),
    ensures
        ({
            let h = g.push((mv, player));
            &&& place_all(m, h) == place_all(m, g).place(mv, player)
            &&& legal_all(m, h)
            &&& forall|i: int|
                0 <= i < h.len() ==> {
                    &&& place_all(m, h.take(i)).legal(#[trigger] h[i].0)
                    &&& h[i].1 == place_all(m, h.take(i)).to_move()
                }
            &&& forall|i: int|
                0 <= i < h.len() - 1 ==> place_all(m, h.take(i + 1)).rollout_state(#[trigger] h[i].1)
                    == GameState::Running
        }),
{
    let h = g.push((mv, player));
    assert(h.drop_last() =~= g);
    assert(h.take(g.len() as int) =~= g);
    assert forall|i: int| 0 <= i < h.len() implies {
        &&& place_all(m, h.take(i)).legal(#[trigger] h[i].0)
        &&& h[i].1 == place_all(m, h.take(i)).to_move()
    } by {
        if i < g.len() {
            assert(h.take(i) =~= g.take(i));
        }
    }
    assert forall|i: int| 0 <= i < h.len() - 1 implies place_all(m, h.take(i + 1)).rollout_state(
        #[trigger] h[i].1,
    ) == GameState::Running by {
        if i + 1 < g.len() {
            assert(h.take(i + 1) =~= g.take(i + 1));
        } else {
            assert(g.take(i + 1) =~= g);
            assert(g.last() == g[i]);
        }
    }
}

/// What a game counts: +1 when the computer wins it, -1 when anyone else
/// does, 0 otherwise.
pub open spec fn playout_value(m: BoardModel, g: Seq<(PossibleMove, u32)>) -> int {
    match playout_state(m, g) {
        GameState::Win(p) => if p == AI_ID {
            1
        } else {
            -1
        },
        _ => 0,
    }
}

/// Sum of what the games count.
pub open spec fn playouts_total(m: BoardModel, games: Seq<Seq<(PossibleMove, u32)>>) -> int
    decreases games.len(),
{
    if games.len() == 0 {
        0
    } else {
        playouts_total(m, games.drop_last()) + playout_value(m, games.last())
    }
}

/// The board after the moves of `s` are played in order.
pub open spec fn place_all(m: BoardModel, s: Seq<(PossibleMove, u32)>) -> BoardModel
    decreases s.len(),
{
    if s.len() == 0 {
        m
    } else {
        place_all(m, s.drop_last()).place(s.last().0, s.last().1)
    }
}

/// Each move of `s` goes into an open column when its turn comes.
pub open spec fn legal_all(m: BoardModel, s: Seq<(PossibleMove, u32)>) -> bool
    decreases s.len(),
{
    if s.len() == 0 {
        true
    } else {
        legal_all(m, s.drop_last()) && place_all(m, s.drop_last()).column_valid(s.last().0.column as int)
    }
}

/// The board after `n` moves are taken back.
pub open spec fn undo_n(m: BoardModel, n: nat) -> BoardModel
    decreases n,
{
    if n == 0 {
        m
    } else {
        undo_n(m, (n - 1) as nat).undo()
    }
}

/// The search order visits columns `columns/2 + (i+1)/2` at even positions
/// and `columns/2 - (i+1)/2` at odd ones, all inside the board.
pub proof fn lemma_order(columns: int, i: int)
    requires
        0 <= i < columns,
    ensures
        i % 2 == 0 ==> order_at(columns, i) == columns / 2 + (i + 1) / 2,
        i % 2 == 1 ==> order_at(columns, i) == columns / 2 - (i + 1) / 2,
        0 <= order_at(columns, i) < columns,
{
    let q = (i + 1) / 2;
    let s = i % 2;
    if s == 0 {
        assert((1 - 2 * s) * (i + 1) == i + 1) by (nonlinear_arith)
            requires
                s == 0,
        ;
    } else {
        assert(i + 1 == 2 * q);
        assert((1 - 2 * s) * (i + 1) == -2 * q) by (nonlinear_arith)
            requires
                s == 1,
                i + 1 == 2 * q,
        ;
        assert((-2 * q) / 2 == -q);
    }
}

/// Each column is visited somewhere in the search order.
pub proof fn lemma_order_onto(columns: int, c: int)
    requires
        0 <= c < columns,
    ensures
        exists|i: int| 0 <= i < columns && order_at(columns, i) == c,
{
    let h = columns / 2;
    let i = if c >= h {
        2 * (c - h)
    } else {
        2 * (h - c) - 1
    };
    lemma_order(columns, i);
    assert(order_at(columns, i) == c);
}

/// Distinct cells have distinct storage positions, inside the grid.
pub proof fn lemma_index(m: BoardModel, r1: int, c1: int, r2: int, c2: int)
    requires
        m.in_bounds(r1, c1),
        m.in_bounds(r2, c2),
    ensures
        0 <= m.index(r1, c1) < m.cells(),
        (r1 != r2 || c1 != c2) ==> m.index(r1, c1) != m.index(r2, c2),
{
    let w = m.columns as int;
    let h = m.rows as int;
    assert(0 <= r1 * w + c1 < h * w) by (nonlinear_arith)
        requires
            0 <= r1 < h,
            0 <= c1 < w,
    ;
    if r1 < r2 {
        assert(r1 * w + c1 < r2 * w + c2) by (nonlinear_arith)
            requires
                r1 < r2,
                0 <= c1 < w,
                0 <= c2,
        ;
    } else if r2 < r1 {
        assert(r2 * w + c2 < r1 * w + c1) by (nonlinear_arith)
            requires
                r2 < r1,
                0 <= c2 < w,
                0 <= c1,
        ;
    }
}

pub proof fn lemma_sum_update(s: Seq<usize>, c: int, v: usize)
    requires
        0 <= c < s.len(),
    ensures
        sum_heights(s.update(c, v)) == sum_heights(s) - s[c] + v,
    decreases s.len(),
{
    let t = s.update(c, v);
    if c == s.len() - 1 {
        assert(t.drop_last() =~= s.drop_last());
    } else {
        assert(t.drop_last() =~= s.drop_last().update(c, v));
        lemma_sum_update(s.drop_last(), c, v);
    }
}

/// Heights of at most `rows` sum to at most `len * rows`; strictly less when
/// one of them is below `rows`, exactly that when all reach it.
pub proof fn lemma_sum_bound(s: Seq<usize>, rows: int)
    requires
        forall|c: int| 0 <= c < s.len() ==> #[trigger] s[c] <= rows,
    ensures
        sum_heights(s) <= s.len() * rows,
        (exists|c: int| 0 <= c < s.len() && #[trigger] s[c] < rows) ==> sum_heights(s) < s.len() * rows,
        (forall|c: int| 0 <= c < s.len() ==> #[trigger] s[c] == rows) ==> sum_heights(s) == s.len() * rows,
    decreases s.len(),
{
    if s.len() > 0 {
        let t = s.drop_last();
        assert forall|c: int| 0 <= c < t.len() implies #[trigger] t[c] <= rows by {
            assert(t[c] == s[c]);
        }
        lemma_sum_bound(t, rows);
        assert(s.len() * rows == t.len() * rows + rows) by (nonlinear_arith)
            requires
                s.len() == t.len() + 1,
        ;
        if exists|c: int| 0 <= c < s.len() && #[trigger] s[c] < rows {
            let c = choose|c: int| 0 <= c < s.len() && #[trigger] s[c] < rows;
            if c < t.len() {
                assert(t[c] < rows);
            }
        }
        if forall|c: int| 0 <= c < s.len() ==> #[trigger] s[c] == rows {
            assert forall|c: int| 0 <= c < t.len() implies #[trigger] t[c] == rows by {
                assert(t[c] == s[c]);
            }
        }
    }
}

/// A board whose columns are all at the top holds one piece per cell.
pub proof fn lemma_full_moves(m: BoardModel)
    requires
        m.wf(),
    ensures
        m.full() <==> m.moves == m.cells(),
        m.moves <= m.cells(),
{
    lemma_sum_bound(m.heights, m.rows as int);
    assert(m.heights.len() * m.rows == m.cells()) by (nonlinear_arith)
        requires
            m.heights.len() == m.columns,
    ;
    if !m.full() {
        let c = choose|c: int| 0 <= c < m.columns && #[trigger] m.heights[c] != m.rows;
        assert(m.heights[c] < m.rows);
    }
}

/// The candidates of the first `n` columns in search order come first in
/// those of the first `n2` columns.
pub proof fn lemma_upto_prefix(m: BoardModel, n: int, n2: int)
    requires
        0 <= n <= n2,
    ensures
        m.moves_upto(n).len() <= m.moves_upto(n2).len(),
        forall|j: int| 0 <= j < m.moves_upto(n).len() ==> #[trigger] m.moves_upto(n2)[j] == m.moves_upto(n)[j],
    decreases n2 - n,
{
    if n < n2 {
        lemma_upto_prefix(m, n, n2 - 1);
    }
}

/// The candidates of one column are legal.
pub proof fn lemma_column_moves_legal(m: BoardModel, c: int)
    ensures
        forall|j: int| 0 <= j < m.column_moves(c).len() ==> m.legal(#[trigger] m.column_moves(c)[j]),
        m.column_valid(c) ==> m.column_moves(c).len() > 0,
{
}

/// Every candidate is legal.
pub proof fn lemma_upto_legal(m: BoardModel, n: int)
    ensures
        forall|j: int| 0 <= j < m.moves_upto(n).len() ==> m.legal(#[trigger] m.moves_upto(n)[j]),
    decreases n,
{
    if n > 0 {
        lemma_upto_legal(m, n - 1);
        let a = m.moves_upto(n - 1);
        let b = m.column_moves(m.order[n - 1] as int);
        assert forall|j: int| 0 <= j < m.moves_upto(n).len() implies m.legal(#[trigger] m.moves_upto(n)[j]) by {
            if j >= a.len() {
                assert(m.moves_upto(n)[j] == b[j - a.len()]);
            } else {
                assert(m.moves_upto(n)[j] == a[j]);
            }
        }
    }
}

/// The candidate moves are exactly the legal moves.
pub proof fn lemma_possible_moves(m: BoardModel, mv: PossibleMove)
    requires
        m.wf(),
    ensures
        m.possible_moves().contains(mv) <==> m.legal(mv),
{
    lemma_upto_legal(m, m.columns as int);
    if m.possible_moves().contains(mv) {
        let j = choose|j: int| 0 <= j < m.possible_moves().len() && m.possible_moves()[j] == mv;
        assert(m.legal(m.possible_moves()[j]));
    }
    if m.legal(mv) {
        let c = mv.column as int;
        lemma_order_onto(m.columns as int, c);
        let i = choose|i: int| 0 <= i < m.columns && order_at(m.columns as int, i) == c;
        assert(m.order[i] == c);
        let a = m.moves_upto(i);
        let b = m.column_moves(c);
        let k: int = if mv.letter == Some(Letter::O) { 1 } else { 0 };
        match m.game_type {
            GameType::Connect4 => {
                assert(b[k] == mv);
            },
            GameType::OttoToot => {
                match mv.letter {
                    Some(Letter::T) => assert(b[k] == mv),
                    Some(Letter::O) => assert(b[k] == mv),
                    None => {},
                }
            },
        }
        assert(m.moves_upto(i + 1)[a.len() + k] == mv);
        lemma_upto_prefix(m, i + 1, m.columns as int);
        assert(m.possible_moves()[a.len() + k] == mv);
    }
}

/// On a board filled to the top there is nothing to play, every cell holds
/// a piece, and the search scores it 0 at any depth and in any window.
pub proof fn lemma_full_board(m: BoardModel)
    requires
        m.wf(),
        m.full(),
    ensures
        m.possible_moves().len() == 0,
        m.moves == m.cells(),
        forall|c: int| !m.column_valid(c),
        forall|depth: nat, alpha: int, beta: int| #[trigger] negamax_value(m, depth, alpha, beta) == 0,
{
    lemma_full_moves(m);
    if m.possible_moves().len() > 0 {
        lemma_upto_legal(m, m.columns as int);
        assert(m.legal(m.possible_moves()[0]));
    }
}

/// On a board with rows and no piece yet, every column is open: there is one
/// candidate per column in the discs game and two in the letter game.
pub proof fn lemma_empty_board_moves(m: BoardModel)
    requires
        m.wf(),
        m.rows > 0,
        forall|c: int| 0 <= c < m.columns ==> #[trigger] m.heights[c] == 0,
    ensures
        m.game_type == GameType::Connect4 ==> m.possible_moves().len() == m.columns,
        m.game_type == GameType::OttoToot ==> m.possible_moves().len() == 2 * m.columns,
{
    lemma_empty_upto(m, m.columns as int);
}

proof fn lemma_empty_upto(m: BoardModel, n: int)
    requires
        m.wf(),
        m.rows > 0,
        forall|c: int| 0 <= c < m.columns ==> #[trigger] m.heights[c] == 0,
        0 <= n <= m.columns,
    ensures
        m.game_type == GameType::Connect4 ==> m.moves_upto(n).len() == n,
        m.game_type == GameType::OttoToot ==> m.moves_upto(n).len() == 2 * n,
    decreases n,
{
    if n > 0 {
        lemma_empty_upto(m, n - 1);
        lemma_order(m.columns as int, n - 1);
        assert(m.column_valid(m.order[n - 1] as int));
    }
}

/// In the letter game, T,O,O,T read left to right in a row wins for the
/// human player and O,T,T,O wins for the computer, whoever placed the pieces.
pub proof fn lemma_letter_row_wins(m: BoardModel, r: int, c: int)
    requires
        m.game_type == GameType::OttoToot,
        m.in_bounds(r, c),
        m.in_bounds(r, c + 3),
        forall|k: int| 0 <= k < 4 ==> #[trigger] m.cell(r, c + k).occupied,
    ensures
        (m.cell(r, c).letter == Letter::T && m.cell(r, c + 1).letter == Letter::O && m.cell(r, c + 2).letter
            == Letter::O && m.cell(r, c + 3).letter == Letter::T) ==> m.won(PLAYER_ID),
        (m.cell(r, c).letter == Letter::O && m.cell(r, c + 1).letter == Letter::T && m.cell(r, c + 2).letter
            == Letter::T && m.cell(r, c + 3).letter == Letter::O) ==> m.won(AI_ID),
{
    assert(m.cell(r, c + 0).occupied);
    assert(m.cell(r, c + 1).occupied);
    assert(m.cell(r, c + 2).occupied);
    assert(m.cell(r, c + 3).occupied);
    assert(c + 0 == c);
    if m.cell(r, c).letter == Letter::T && m.cell(r, c + 1).letter == Letter::O && m.cell(r, c + 2).letter
        == Letter::O && m.cell(r, c + 3).letter == Letter::T {
        assert(m.window(PLAYER_ID, r, c, 0));
    }
    if m.cell(r, c).letter == Letter::O && m.cell(r, c + 1).letter == Letter::T && m.cell(r, c + 2).letter
        == Letter::T && m.cell(r, c + 3).letter == Letter::O {
        assert(m.window(AI_ID, r, c, 0));
    }
}

/// In the letter game, a board whose only pieces read T,O,O,T left to right
/// in one row is a win for the human player and not for the computer.
pub proof fn lemma_lone_toot(m: BoardModel, r: int, c: int)
    requires
        m.game_type == GameType::OttoToot,
        m.in_bounds(r, c),
        m.in_bounds(r, c + 3),
        forall|k: int| 0 <= k < 4 ==> #[trigger] m.cell(r, c + k).occupied,
        m.cell(r, c).letter == Letter::T,
        m.cell(r, c + 1).letter == Letter::O,
        m.cell(r, c + 2).letter == Letter::O,
        m.cell(r, c + 3).letter == Letter::T,
        forall|r2: int, c2: int|
            m.in_bounds(r2, c2) && #[trigger] m.cell(r2, c2).occupied ==> r2 == r && c <= c2 <= c + 3,
    ensures
        m.won(PLAYER_ID),
        !m.won(AI_ID),
{
    lemma_letter_row_wins(m, r, c);
    if m.won(AI_ID) {
        let (r0, c0, d) = choose|r0: int, c0: int, d: int| 0 <= d < 4 && #[trigger] m.window(AI_ID, r0, c0, d);
        assert(m.cell(r0, c0).occupied);
        assert(m.cell(r0 + dir_row(d), c0 + dir_col(d)).occupied);
        assert(m.cell(r0 + 3 * dir_row(d), c0 + 3 * dir_col(d)).occupied);
        assert(d == 0);
        assert(c0 == c);
        assert(m.cell(r, c).letter == Letter::O);
    }
}

/// Placing into an open column keeps the invariant.
pub proof fn lemma_place_wf(m: BoardModel, mv: PossibleMove, player: u32)
    requires
        m.wf(),
        m.column_valid(mv.column as int),
    ensures
        m.place(mv, player).wf(),
        m.place(mv, player).moves == m.moves + 1,
        m.moves < m.cells(),
{
    let n = m.place(mv, player);
    let c = mv.column as int;
    let row = m.rows - m.heights[c] - 1;
    lemma_sum_bound(m.heights, m.rows as int);
    assert(m.heights[c] < m.rows);
    assert(m.heights.len() * m.rows == m.cells()) by (nonlinear_arith)
        requires
            m.heights.len() == m.columns,
    ;
    lemma_sum_update(m.heights, c, (m.heights[c] + 1) as usize);
    lemma_index(m, row, c, row, c);
    assert forall|r: int, c2: int| #![trigger n.cell(r, c2)] n.in_bounds(r, c2) implies {
        &&& (n.cell(r, c2).occupied <==> r >= n.rows - n.heights[c2])
        &&& (!n.cell(r, c2).occupied ==> n.cell(r, c2) == Slot::empty())
    } by {
        lemma_index(m, r, c2, row, c);
        assert(m.cell(r, c2) == m.grid[m.index(r, c2)]);
    }
    assert forall|k: int| 0 <= k < n.history.len() implies {
        &&& #[trigger] n.history[k].column < n.columns
        &&& n.history[k].row == n.rows - 1 - count_in_column(n.history.take(k), n.history[k].column as int)
    } by {
        if k < m.history.len() {
            assert(n.history.take(k) =~= m.history.take(k));
        } else {
            assert(n.history.take(k) =~= m.history);
        }
    }
    assert forall|c2: int| 0 <= c2 < n.columns implies #[trigger] count_in_column(n.history, c2) == n.heights[c2] by {
        assert(n.history.drop_last() =~= m.history);
        assert(count_in_column(m.history, c2) == m.heights[c2]);
        if c2 == c {
            assert(count_in_column(n.history, c2) == count_in_column(m.history, c2) + 1);
        } else {
            assert(count_in_column(n.history, c2) == count_in_column(m.history, c2));
        }
    }
    assert forall|c2: int| 0 <= c2 < n.columns implies #[trigger] n.heights[c2] <= n.rows by {}
}

/// Taking back the last move keeps the invariant; the cell it clears holds a
/// piece and tops its column.
pub proof fn lemma_undo_wf(m: BoardModel)
    requires
        m.wf(),
        m.history.len() > 0,
    ensures
        m.undo().wf(),
        m.undo().moves == m.moves - 1,
        m.heights[m.history.last().column as int] > 0,
        m.history.last().row == m.rows - m.heights[m.history.last().column as int],
        m.in_bounds(m.history.last().row as int, m.history.last().column as int),
        m.cell(m.history.last().row as int, m.history.last().column as int).occupied,
{
    let n = m.undo();
    let k = m.history.len() - 1;
    let last = m.history.last();
    let c = last.column as int;
    assert(m.history[k] == last);
    assert(m.history.take(k) =~= m.history.drop_last());
    assert(count_in_column(m.history, c) == count_in_column(m.history.drop_last(), c) + 1);
    let row = last.row as int;
    assert(m.heights[c] > 0);
    assert(row == m.rows - m.heights[c]);
    assert(m.in_bounds(row, c));
    assert(m.cell(row, c).occupied);
    lemma_sum_update(m.heights, c, (m.heights[c] - 1) as usize);
    lemma_index(m, row, c, row, c);
    assert forall|r: int, c2: int| #![trigger n.cell(r, c2)] n.in_bounds(r, c2) implies {
        &&& (n.cell(r, c2).occupied <==> r >= n.rows - n.heights[c2])
        &&& (!n.cell(r, c2).occupied ==> n.cell(r, c2) == Slot::empty())
    } by {
        lemma_index(m, r, c2, row, c);
        assert(m.cell(r, c2) == m.grid[m.index(r, c2)]);
    }
    assert forall|j: int| 0 <= j < n.history.len() implies {
        &&& #[trigger] n.history[j].column < n.columns
        &&& n.history[j].row == n.rows - 1 - count_in_column(n.history.take(j), n.history[j].column as int)
    } by {
        assert(n.history.take(j) =~= m.history.take(j));
        assert(n.history[j] == m.history[j]);
    }
    assert forall|c2: int| 0 <= c2 < n.columns implies #[trigger] count_in_column(n.history, c2) == n.heights[c2] by {
        assert(n.history == m.history.drop_last());
        assert(count_in_column(m.history, c2) == m.heights[c2]);
        if c2 == c {
            assert(count_in_column(m.history, c2) == count_in_column(n.history, c2) + 1);
            assert(n.heights[c2] == m.heights[c2] - 1);
        } else {
            assert(n.heights[c2] == m.heights[c2]);
            assert(count_in_column(m.history, c2) == count_in_column(n.history, c2));
        }
    }
    assert forall|c2: int| 0 <= c2 < n.columns implies #[trigger] n.heights[c2] <= n.rows by {}
}

/// Taking back a move just played gives the board as it was.
pub proof fn lemma_place_undo(m: BoardModel, mv: PossibleMove, player: u32)
    requires
        m.wf(),
        m.column_valid(mv.column as int),
    ensures
        m.place(mv, player).undo() == m,
{
    lemma_place_wf(m, mv, player);
    let n = m.place(mv, player);
    let u = n.undo();
    let c = mv.column as int;
    let row = m.rows - m.heights[c] - 1;
    lemma_index(m, row, c, row, c);
    assert(!m.cell(row, c).occupied);
    assert(m.grid[m.index(row, c)] == Slot::empty());
    assert(n.history.last() == Move { row: row as usize, column: mv.column });
    assert(u.grid =~= m.grid);
    assert(u.heights =~= m.heights);
    assert(u.history =~= m.history);
    assert(u.moves == m.moves);
    assert(u.rows == m.rows);
    assert(u.order == m.order);
    assert(u.ai == m.ai);
    assert(u.player_turn == m.player_turn);
}

/// Playing a sequence of legal moves keeps the invariant.
pub proof fn lemma_place_all_wf(m: BoardModel, s: Seq<(PossibleMove, u32)>)
    requires
        m.wf(),
        legal_all(m, s),
    ensures
        place_all(m, s).wf(),
        place_all(m, s).history.len() == m.history.len() + s.len(),
    decreases s.len(),
{
    if s.len() > 0 {
        lemma_place_all_wf(m, s.drop_last());
        lemma_place_wf(place_all(m, s.drop_last()), s.last().0, s.last().1);
    }
}

/// Every prefix of a legal sequence is legal.
pub proof fn lemma_legal_prefix(m: BoardModel, s: Seq<(PossibleMove, u32)>, i: int)
    requires
        legal_all(m, s),
        0 <= i <= s.len(),
    ensures
        legal_all(m, s.take(i)),
    decreases s.len(),
{
    if i == s.len() {
        assert(s.take(i) =~= s);
    } else {
        assert(s.drop_last().take(i) =~= s.take(i));
        lemma_legal_prefix(m, s.drop_last(), i);
    }
}

/// Taking back `j` of the moves of a legal sequence leaves the board that
/// the other moves give.
pub proof fn lemma_undo_prefix(m: BoardModel, s: Seq<(PossibleMove, u32)>, j: nat)
    requires
        m.wf(),
        legal_all(m, s),
        j <= s.len(),
    ensures
        undo_n(place_all(m, s), j) == place_all(m, s.take(s.len() - j)),
    decreases j,
{
    if j == 0 {
        assert(s.take(s.len() as int) =~= s);
    } else {
        lemma_undo_prefix(m, s, (j - 1) as nat);
        let t = s.take(s.len() - (j - 1));
        let i = s.len() - j;
        lemma_legal_prefix(m, s, s.len() - (j - 1));
        assert(t.drop_last() =~= s.take(i));
        lemma_place_all_wf(m, t.drop_last());
        lemma_place_undo(place_all(m, t.drop_last()), t.last().0, t.last().1);
    }
}

/// Taking back as many moves as were played, after any sequence of legal
/// moves, restores the board exactly: cells, heights, move count, move
/// stack and whose turn it is.
pub proof fn lemma_undo_inverse(m: BoardModel, s: Seq<(PossibleMove, u32)>)
    requires
        m.wf(),
        legal_all(m, s),
    ensures
        undo_n(place_all(m, s), s.len()) == m,
{
    lemma_undo_prefix(m, s, s.len());
    assert(s.take(0) =~= Seq::<(PossibleMove, u32)>::empty());
}

} // verus!
