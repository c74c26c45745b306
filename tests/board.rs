use four_in_a_row::board::{AIConfiguration, Board, ColumnSelectionResult, PossibleMove};
use four_in_a_row::model::{AI_ID, PLAYER_ID};
use four_in_a_row::records::GameType;
use four_in_a_row::slot::Letter;

fn disc(column: usize) -> PossibleMove {
    PossibleMove { column, letter: None }
}

fn letter(column: usize, l: Letter) -> PossibleMove {
    PossibleMove { column, letter: Some(l) }
}

fn discs_board(rows: usize, columns: usize) -> Board {
    Board::new(rows, columns, GameType::Connect4, AIConfiguration::easy(), 7)
}

fn letters_board(rows: usize, columns: usize) -> Board {
    Board::new(rows, columns, GameType::OttoToot, AIConfiguration::easy(), 7)
}

fn snapshot(b: &Board) -> (Vec<(bool, u32, Letter)>, Vec<usize>, u32, bool) {
    let mut cells = Vec::new();
    for r in 0..b.get_rows() {
        for c in 0..b.get_columns() {
            let s = b.get_slot(r, c);
            cells.push((s.occupied, s.player, s.letter));
        }
    }
    let heights = (0..b.get_columns()).map(|c| b.get_height(c)).collect();
    (cells, heights, b.get_moves(), b.get_player_turn())
}

#[test]
fn scenario_vertical_ai_win_in_column_two() {
    // five columns, four rows
    let mut b = discs_board(4, 5);
    for expected_row in [3usize, 2, 1] {
        b.place_at_column(disc(2), AI_ID);
        assert!(b.get_slot(expected_row, 2).owned_by(AI_ID));
    }
    assert!(!b.check_if_won(AI_ID));
    assert!(b.check_if_winning_move(disc(2), AI_ID));
    assert_eq!(b.get_height(2), 3);
    b.place_at_column(disc(2), AI_ID);
    assert!(b.get_slot(0, 2).owned_by(AI_ID));
    assert!(b.check_if_won(AI_ID));
    assert!(!b.check_if_won(PLAYER_ID));
}

#[test]
fn undo_restores_board_exactly() {
    let mut b = letters_board(4, 5);
    b.place_at_column(letter(0, Letter::O), PLAYER_ID);
    let before = snapshot(&b);
    let moves = [
        (letter(1, Letter::O), AI_ID),
        (letter(1, Letter::T), PLAYER_ID),
        (letter(4, Letter::O), AI_ID),
        (letter(0, Letter::T), PLAYER_ID),
        (letter(1, Letter::O), AI_ID),
    ];
    for (m, p) in moves {
        b.place_at_column(m, p);
    }
    assert_ne!(snapshot(&b), before);
    for _ in 0..moves.len() {
        b.undo_move();
    }
    assert_eq!(snapshot(&b), before);
}

#[test]
fn undo_after_one_move_gives_empty_board() {
    let mut b = discs_board(6, 7);
    let before = snapshot(&b);
    b.place_at_column(disc(3), PLAYER_ID);
    assert_eq!(b.get_moves(), 1);
    assert!(!b.get_player_turn());
    b.undo_move();
    assert_eq!(snapshot(&b), before);
    assert!(b.get_player_turn());
}

#[test]
fn discs_win_in_every_direction() {
    // along a row
    let mut b = discs_board(6, 7);
    for c in 1..5 {
        b.place_at_column(disc(c), PLAYER_ID);
    }
    assert!(b.check_if_won(PLAYER_ID));
    assert!(!b.check_if_won(AI_ID));

    // down a column
    let mut b = discs_board(6, 7);
    for _ in 0..4 {
        b.place_at_column(disc(6), AI_ID);
    }
    assert!(b.check_if_won(AI_ID));
    assert!(!b.check_if_won(PLAYER_ID));

    // rising to the right
    let mut b = discs_board(6, 7);
    for c in 0..4 {
        for _ in 0..c {
            b.place_at_column(disc(c), AI_ID);
        }
        b.place_at_column(disc(c), PLAYER_ID);
    }
    assert!(b.check_if_won(PLAYER_ID));
    assert!(!b.check_if_won(AI_ID));

    // rising to the left
    let mut b = discs_board(6, 7);
    for c in 3..7 {
        for _ in 0..(6 - c) {
            b.place_at_column(disc(c), AI_ID);
        }
        b.place_at_column(disc(c), PLAYER_ID);
    }
    assert!(b.check_if_won(PLAYER_ID));
}

#[test]
fn discs_three_or_mixed_is_no_win() {
    let mut b = discs_board(6, 7);
    for c in 0..3 {
        b.place_at_column(disc(c), PLAYER_ID);
    }
    assert!(!b.check_if_won(PLAYER_ID));
    b.place_at_column(disc(3), AI_ID);
    assert!(!b.check_if_won(PLAYER_ID));
    assert!(!b.check_if_won(AI_ID));
    b.place_at_column(disc(4), PLAYER_ID);
    assert!(!b.check_if_won(PLAYER_ID));
}

#[test]
fn small_boards_have_no_win() {
    let mut b = discs_board(3, 3);
    for c in 0..3 {
        for _ in 0..3 {
            b.place_at_column(disc(c), PLAYER_ID);
        }
    }
    assert!(!b.check_if_won(PLAYER_ID));
    assert!(b.check_if_no_more_moves());
}

#[test]
fn letters_toot_wins_for_human_whoever_placed() {
    let mut b = letters_board(4, 6);
    b.place_at_column(letter(1, Letter::T), AI_ID);
    b.place_at_column(letter(2, Letter::O), PLAYER_ID);
    b.place_at_column(letter(3, Letter::O), AI_ID);
    assert!(!b.check_if_won(PLAYER_ID));
    b.place_at_column(letter(4, Letter::T), AI_ID);
    assert!(b.check_if_won(PLAYER_ID));
    assert!(!b.check_if_won(AI_ID));
}

#[test]
fn letters_otto_wins_for_ai_only() {
    let mut b = letters_board(4, 6);
    b.place_at_column(letter(0, Letter::O), PLAYER_ID);
    b.place_at_column(letter(1, Letter::T), PLAYER_ID);
    b.place_at_column(letter(2, Letter::T), PLAYER_ID);
    b.place_at_column(letter(3, Letter::O), PLAYER_ID);
    assert!(b.check_if_won(AI_ID));
    assert!(!b.check_if_won(PLAYER_ID));
}

#[test]
fn letters_vertical_and_diagonal_sequences() {
    let mut b = letters_board(4, 4);
    for l in [Letter::T, Letter::O, Letter::O, Letter::T] {
        b.place_at_column(letter(0, l), AI_ID);
    }
    assert!(b.check_if_won(PLAYER_ID));

    let mut b = letters_board(4, 4);
    let fill = [Letter::T, Letter::T, Letter::T];
    for c in 0..4 {
        for k in 0..c {
            b.place_at_column(letter(c, fill[k]), PLAYER_ID);
        }
        let top = if c == 0 || c == 3 { Letter::O } else { Letter::T };
        b.place_at_column(letter(c, top), PLAYER_ID);
    }
    assert!(b.check_if_won(AI_ID));
}

#[test]
fn empty_board_move_counts() {
    let b = discs_board(6, 7);
    assert_eq!(b.get_possible_moves().len(), 7);
    let b = letters_board(6, 7);
    assert_eq!(b.get_possible_moves().len(), 14);
    let b = discs_board(0, 5);
    assert_eq!(b.get_possible_moves().len(), 0);
}

#[test]
fn moves_follow_center_out_order() {
    let b = discs_board(6, 7);
    let columns: Vec<usize> = b.get_possible_moves().iter().map(|m| m.column).collect();
    assert_eq!(columns, vec![3, 2, 4, 1, 5, 0, 6]);
    assert!(b.get_possible_moves().iter().all(|m| m.letter.is_none()));

    let b = discs_board(4, 4);
    let columns: Vec<usize> = b.get_possible_moves().iter().map(|m| m.column).collect();
    assert_eq!(columns, vec![2, 1, 3, 0]);

    let b = letters_board(4, 3);
    let moves: Vec<(usize, Option<Letter>)> = b.get_possible_moves().iter().map(|m| (m.column, m.letter)).collect();
    assert_eq!(
        moves,
        vec![
            (1, Some(Letter::T)),
            (1, Some(Letter::O)),
            (0, Some(Letter::T)),
            (0, Some(Letter::O)),
            (2, Some(Letter::T)),
            (2, Some(Letter::O)),
        ]
    );
}

#[test]
fn full_columns_are_left_out() {
    let mut b = discs_board(2, 3);
    b.place_at_column(disc(1), PLAYER_ID);
    b.place_at_column(disc(1), AI_ID);
    let columns: Vec<usize> = b.get_possible_moves().iter().map(|m| m.column).collect();
    assert_eq!(columns, vec![0, 2]);
}

#[test]
fn column_selection_results() {
    let mut b = discs_board(2, 3);
    assert_eq!(b.check_column_selection(-1), ColumnSelectionResult::ColumnDoesNotExist);
    assert_eq!(b.check_column_selection(3), ColumnSelectionResult::ColumnDoesNotExist);
    assert_eq!(b.check_column_selection(0), ColumnSelectionResult::Valid);
    b.place_at_column(disc(0), PLAYER_ID);
    assert_eq!(b.check_column_selection(0), ColumnSelectionResult::Valid);
    b.place_at_column(disc(0), AI_ID);
    assert_eq!(b.check_column_selection(0), ColumnSelectionResult::ColumnFull);
}

#[test]
fn winning_move_check_leaves_board_unchanged() {
    let mut b = discs_board(6, 7);
    for c in 0..3 {
        b.place_at_column(disc(c), PLAYER_ID);
    }
    let before = snapshot(&b);
    assert!(b.check_if_winning_move(disc(3), PLAYER_ID));
    assert_eq!(snapshot(&b), before);
    assert!(!b.check_if_winning_move(disc(5), PLAYER_ID));
    assert_eq!(snapshot(&b), before);
    assert!(!b.check_if_winning_move(disc(3), AI_ID));
    assert_eq!(snapshot(&b), before);
    assert!(!b.check_if_winning_move(disc(9), PLAYER_ID));
    assert_eq!(snapshot(&b), before);
}

#[test]
fn full_board_is_terminal() {
    let mut b = discs_board(2, 3);
    let mut p = PLAYER_ID;
    for c in 0..3 {
        for _ in 0..2 {
            b.place_at_column(disc(c), p);
            p = if p == PLAYER_ID { AI_ID } else { PLAYER_ID };
        }
    }
    assert!(b.check_if_no_more_moves());
    assert!(b.get_possible_moves().is_empty());
    assert_eq!(b.get_moves(), 6);
    let before = snapshot(&b);
    assert_eq!(b.negamax(3, -5, 5), 0);
    assert_eq!(b.negamax(1, -1, 0), 0);
    assert_eq!(b.negamax(0, 2, 3), 0);
    assert_eq!(snapshot(&b), before);
}

#[test]
fn negamax_depth_zero_is_zero() {
    let mut b = discs_board(6, 7);
    assert_eq!(b.negamax(0, -21, 21), 0);
}

#[test]
fn negamax_scores_an_immediate_win() {
    // four rows, five columns: 20 cells
    let mut b = discs_board(4, 5);
    b.place_at_column(disc(0), PLAYER_ID);
    b.place_at_column(disc(4), AI_ID);
    b.place_at_column(disc(0), PLAYER_ID);
    b.place_at_column(disc(4), AI_ID);
    b.place_at_column(disc(0), PLAYER_ID);
    b.place_at_column(disc(3), AI_ID);
    // human to move with three in column 0, six pieces played
    assert!(b.get_player_turn());
    let before = snapshot(&b);
    assert_eq!(b.negamax(1, -10, 10), (20 + 1 - 6) / 2);
    assert_eq!(snapshot(&b), before);
}

#[test]
fn negamax_sees_a_forced_loss() {
    // AI to move; the human threatens in two columns at once
    let mut b = discs_board(4, 7);
    b.place_at_column(disc(1), PLAYER_ID);
    b.place_at_column(disc(1), AI_ID);
    b.place_at_column(disc(2), PLAYER_ID);
    b.place_at_column(disc(2), AI_ID);
    b.place_at_column(disc(3), PLAYER_ID);
    assert!(!b.get_player_turn());
    // after any AI move the human wins at once
    let score = b.negamax(2, -14, 14);
    assert!(score < 0);
}

#[test]
fn rollouts_stay_in_range_and_restore_the_board() {
    let mut b = Board::new(4, 5, GameType::Connect4, AIConfiguration::medium(), 11);
    b.place_at_column(disc(2), PLAYER_ID);
    let before = snapshot(&b);
    let score = b.random_search();
    assert!(-250 <= score && score <= 250);
    assert_eq!(snapshot(&b), before);

    let mut b = Board::new(4, 5, GameType::OttoToot, AIConfiguration::medium(), 12);
    b.place_at_column(letter(2, Letter::T), PLAYER_ID);
    let before = snapshot(&b);
    let score = b.random_search();
    assert!(-250 <= score && score <= 250);
    assert_eq!(snapshot(&b), before);
}

#[test]
fn rollouts_are_reproducible_from_a_seed() {
    let mut a = Board::new(4, 5, GameType::Connect4, AIConfiguration::medium(), 99);
    let mut b = Board::new(4, 5, GameType::Connect4, AIConfiguration::medium(), 99);
    assert_eq!(a.random_search(), b.random_search());
}

#[test]
fn ai_move_is_legal_and_board_restored() {
    for seed in 0..4u64 {
        let mut b = Board::new(4, 5, GameType::Connect4, AIConfiguration::easy(), seed);
        b.place_at_column(disc(1), PLAYER_ID);
        b.place_at_column(disc(1), AI_ID);
        b.place_at_column(disc(1), PLAYER_ID);
        let legal: Vec<(usize, Option<Letter>)> = b.get_possible_moves().iter().map(|m| (m.column, m.letter)).collect();
        let before = snapshot(&b);
        let m = b.get_ai_move();
        assert!(legal.contains(&(m.column, m.letter)));
        assert_eq!(snapshot(&b), before);
    }
    let mut b = Board::new(4, 4, GameType::OttoToot, AIConfiguration::easy(), 3);
    b.place_at_column(letter(0, Letter::T), PLAYER_ID);
    let legal: Vec<(usize, Option<Letter>)> = b.get_possible_moves().iter().map(|m| (m.column, m.letter)).collect();
    let m = b.get_ai_move();
    assert!(legal.contains(&(m.column, m.letter)));
}

#[test]
fn ai_takes_an_immediate_win() {
    let mut b = Board::new(4, 5, GameType::Connect4, AIConfiguration::easy(), 5);
    b.place_at_column(disc(0), PLAYER_ID);
    b.place_at_column(disc(4), AI_ID);
    b.place_at_column(disc(1), PLAYER_ID);
    b.place_at_column(disc(4), AI_ID);
    b.place_at_column(disc(0), PLAYER_ID);
    b.place_at_column(disc(4), AI_ID);
    b.place_at_column(disc(1), PLAYER_ID);
    let m = b.get_ai_move();
    assert_eq!(m.column, 4);
}

#[test]
fn ai_blocks_an_immediate_loss() {
    let mut b = Board::new(4, 5, GameType::Connect4, AIConfiguration::easy(), 5);
    b.place_at_column(disc(0), PLAYER_ID);
    b.place_at_column(disc(4), AI_ID);
    b.place_at_column(disc(0), PLAYER_ID);
    b.place_at_column(disc(3), AI_ID);
    b.place_at_column(disc(0), PLAYER_ID);
    let m = b.get_ai_move();
    assert_eq!(m.column, 0);
}

#[test]
fn ai_on_the_last_open_cell() {
    let mut b = discs_board(2, 2);
    b.place_at_column(disc(0), PLAYER_ID);
    b.place_at_column(disc(0), AI_ID);
    b.place_at_column(disc(1), PLAYER_ID);
    let m = b.get_ai_move();
    assert_eq!(m.column, 1);
    assert!(m.letter.is_none());
}
