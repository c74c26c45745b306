use four_in_a_row::board::AIConfiguration;
use four_in_a_row::game::{human_move_count, match_result, Game, GameState};
use four_in_a_row::model::{AI_ID, PLAYER_ID};
use four_in_a_row::records::{CpuLevel, GameType, MatchResult, UserAuthToken};
use four_in_a_row::slot::{Letter, Slot};

#[test]
fn new_game_is_running_and_empty() {
    let g = Game::new(6, 7, GameType::Connect4, AIConfiguration::hard(), 1);
    assert!(g.get_state() == GameState::Running);
    assert_eq!(g.get_num_moves(), 0);
    let cells = g.get_board_state();
    assert_eq!(cells.len(), 42);
    assert!(cells.iter().all(|(owner, text)| *owner == 0 && text.is_empty()));
}

#[test]
fn player_turn_rejects_closed_columns() {
    let mut g = Game::new(2, 3, GameType::Connect4, AIConfiguration::easy(), 1);
    assert!(!g.player_turn(3, None));
    assert!(!g.player_turn(usize::MAX, None));
    assert_eq!(g.get_num_moves(), 0);
    assert!(g.player_turn(1, None));
    assert!(g.player_turn(1, None));
    assert!(!g.player_turn(1, None));
    assert_eq!(g.get_num_moves(), 2);
}

#[test]
fn board_state_rows_from_the_top() {
    let mut g = Game::new(2, 3, GameType::OttoToot, AIConfiguration::easy(), 1);
    assert!(g.player_turn(2, Some(Letter::O)));
    let cells = g.get_board_state();
    assert_eq!(cells[5], (1, String::from("O")));
    assert_eq!(cells[2], (0, String::new()));
    assert!(g.player_turn(2, Some(Letter::T)));
    let cells = g.get_board_state();
    assert_eq!(cells[2], (1, String::from("T")));

    let mut g = Game::new(2, 3, GameType::Connect4, AIConfiguration::easy(), 1);
    assert!(g.player_turn(0, None));
    let cells = g.get_board_state();
    assert_eq!(cells[3], (1, String::new()));
}

#[test]
fn check_state_reports_each_outcome() {
    let mut g = Game::new(4, 4, GameType::Connect4, AIConfiguration::easy(), 1);
    for _ in 0..3 {
        assert!(g.player_turn(0, None));
    }
    assert!(g.check_state() == GameState::Running);
    assert!(g.player_turn(0, None));
    assert!(g.check_state() == GameState::Win(PLAYER_ID));
    assert!(g.get_state() == GameState::Win(PLAYER_ID));

    // the human's letters spell the computer's sequence
    let mut g = Game::new(4, 4, GameType::OttoToot, AIConfiguration::easy(), 1);
    for (c, l) in [(0, Letter::O), (1, Letter::T), (2, Letter::T), (3, Letter::O)] {
        assert!(g.player_turn(c, Some(l)));
    }
    assert!(g.check_state() == GameState::Win(AI_ID));

    // a full board without a line of four
    let mut g = Game::new(1, 3, GameType::Connect4, AIConfiguration::easy(), 1);
    for c in 0..3 {
        assert!(g.player_turn(c, None));
    }
    assert!(g.check_state() == GameState::Tie);
}

#[test]
fn human_win_is_reported_before_computer_win() {
    let mut g = Game::new(4, 8, GameType::OttoToot, AIConfiguration::easy(), 1);
    for (c, l) in [(0, Letter::T), (1, Letter::O), (2, Letter::O), (3, Letter::T)] {
        assert!(g.player_turn(c, Some(l)));
    }
    for (c, l) in [(4, Letter::O), (5, Letter::T), (6, Letter::T), (7, Letter::O)] {
        assert!(g.player_turn(c, Some(l)));
    }
    assert!(g.check_state() == GameState::Win(PLAYER_ID));
}

#[test]
fn ai_turn_plays_one_legal_piece() {
    let mut g = Game::new(6, 7, GameType::Connect4, AIConfiguration::easy(), 42);
    assert!(g.player_turn(3, None));
    g.ai_turn();
    assert_eq!(g.get_num_moves(), 2);
    let cells = g.get_board_state();
    assert_eq!(cells.iter().filter(|(o, _)| *o == 2).count(), 1);
    assert_eq!(cells.iter().filter(|(o, _)| *o == 1).count(), 1);
    assert!(g.check_state() == GameState::Running);

    let mut g = Game::new(4, 4, GameType::OttoToot, AIConfiguration::easy(), 42);
    assert!(g.player_turn(1, Some(Letter::T)));
    g.ai_turn();
    let cells = g.get_board_state();
    let ai_cells: Vec<&(i32, String)> = cells.iter().filter(|(o, _)| *o == 2).collect();
    assert_eq!(ai_cells.len(), 1);
    assert!(ai_cells[0].1 == "T" || ai_cells[0].1 == "O");
}

#[test]
fn ai_completes_its_four() {
    let mut g = Game::new(4, 5, GameType::Connect4, AIConfiguration::medium(), 8);
    // human plays around the AI's column while the AI builds in it
    for c in [0usize, 1, 0] {
        assert!(g.player_turn(c, None));
        g.ai_turn();
        assert!(g.check_state() == GameState::Running || g.get_num_moves() > 0);
    }
    assert!(g.get_num_moves() == 6);
}

#[test]
fn presets_grow_with_the_level() {
    let e = AIConfiguration::easy();
    let m = AIConfiguration::medium();
    let h = AIConfiguration::hard();
    assert_eq!((e.get_search_depth(), e.get_rollout_iterations()), (2, 2));
    assert_eq!((m.get_search_depth(), m.get_rollout_iterations()), (2, 250));
    assert_eq!((h.get_search_depth(), h.get_rollout_iterations()), (3, 500));
    let l = AIConfiguration::for_level(CpuLevel::Medium);
    assert_eq!((l.get_search_depth(), l.get_rollout_iterations()), (2, 250));
    let l = AIConfiguration::for_level(CpuLevel::Hard);
    assert_eq!(l.get_search_depth(), 3);
    let l = AIConfiguration::for_level(CpuLevel::Easy);
    assert_eq!(l.get_rollout_iterations(), 2);
}

#[test]
fn slot_place_and_clear() {
    let mut s = Slot::new();
    assert!(!s.get_occupied());
    assert_eq!(s.get_player(), 0);
    assert!(!s.owned_by(0));
    s.place(2, Some(Letter::O));
    assert!(s.get_occupied());
    assert_eq!(s.get_player(), 2);
    assert!(s.owned_by(2));
    assert!(!s.owned_by(1));
    assert!(s.matches_letter(Letter::O));
    assert!(!s.matches_letter(Letter::T));
    s.place(1, None);
    assert!(s.matches_letter(Letter::O));
    s.clear();
    assert!(!s.get_occupied());
    assert_eq!(s.get_player(), 0);
    assert!(!s.matches_letter(Letter::O));
    assert!(!s.matches_letter(Letter::T));
    assert_eq!(s.letter, Letter::T);
}

#[test]
fn slot_text_by_game() {
    let mut s = Slot::new();
    assert_eq!(s.to_string(GameType::OttoToot), "");
    s.place(1, Some(Letter::T));
    assert_eq!(s.to_string(GameType::OttoToot), "T");
    assert_eq!(s.to_string(GameType::Connect4), "");
    s.place(2, Some(Letter::O));
    assert_eq!(s.to_string(GameType::OttoToot), "O");
}

#[test]
fn token_text_round_trip() {
    let t = UserAuthToken::new(String::from("abc"));
    assert_eq!(t.into_inner(), "abc");
    let t = UserAuthToken::new(String::from("xyz"));
    assert_eq!(t.unwrap_token(), "xyz");
}

#[test]
fn match_results_from_outcomes() {
    assert_eq!(match_result(GameState::Win(PLAYER_ID)), Some(MatchResult::Win));
    assert_eq!(match_result(GameState::Win(AI_ID)), Some(MatchResult::Loss));
    assert_eq!(match_result(GameState::Tie), Some(MatchResult::Tie));
    assert_eq!(match_result(GameState::Running), None);
    assert_eq!(match_result(GameState::Win(7)), None);
}

#[test]
fn human_moves_round_up() {
    assert_eq!(human_move_count(0), 0);
    assert_eq!(human_move_count(1), 1);
    assert_eq!(human_move_count(6), 3);
    assert_eq!(human_move_count(7), 4);
    assert_eq!(human_move_count(u32::MAX), 2147483648);
}
