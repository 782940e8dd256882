use gomoku::algorithms::alpha_beta_pruning::{_alpha_beta_pruning, alpha_beta_pruning};
use gomoku::game::board::Board;
use gomoku::handle_capture::{check_winner_in_direction, handle_capture};
use gomoku::player::PlayerColor;
use gomoku::game::Game;
use gomoku::heuristics::Heuristic;
use gomoku::player::Player;

fn won_by_black() -> Game {
    let mut game = Game::new(Player::Human, Player::Human);
    for i in 0..4 {
        game.do_move(5 + i, 5);
        game.do_move(5 + i, 12);
    }
    game.do_move(9, 5);
    game
}

#[test]
fn close_moves_surround_the_stones() {
    let mut game = Game::new(Player::Human, Player::Human);
    assert!(game.get_close_moves(1, false).is_empty());
    game.do_move(9, 9);
    let close = game.get_close_moves(1, false);
    assert_eq!(
        close,
        vec![(8, 8), (9, 8), (10, 8), (8, 9), (10, 9), (8, 10), (9, 10), (10, 10)]
    );
    let mut shuffled = game.get_close_moves(1, true);
    shuffled.sort();
    let mut sorted = close.clone();
    sorted.sort();
    assert_eq!(shuffled, sorted);
    assert_eq!(game.get_close_moves(2, false).len(), 24);
}

#[test]
fn close_moves_stay_on_the_board() {
    let mut game = Game::new(Player::Human, Player::Human);
    game.do_move(0, 0);
    assert_eq!(game.get_close_moves(1, false), vec![(1, 0), (0, 1), (1, 1)]);
}

#[test]
fn search_of_a_won_game() {
    let mut game = won_by_black();
    let before = game.clone();
    assert_eq!(_alpha_beta_pruning(&mut game, &Heuristic::zero(), 0, i64::MIN, i64::MAX), i64::MIN);
    assert_eq!(_alpha_beta_pruning(&mut game, &Heuristic::zero(), 1, i64::MIN, i64::MAX), i64::MAX);
    assert_eq!(game, before);
}

#[test]
fn search_at_the_horizon_is_the_heuristic_for_the_player_to_move() {
    let mut game = Game::new(Player::Human, Player::Human);
    game.do_move(9, 9);
    // White is to move; the heuristic counts for black.
    let h = Heuristic::manual();
    let v = gomoku::heuristics::evaluate(&h, &game);
    assert_eq!(_alpha_beta_pruning(&mut game, &h, 4, i64::MIN, i64::MAX), -v);
}

#[test]
fn search_value_does_not_depend_on_a_window_around_it() {
    let mut game = Game::new(Player::Human, Player::Human);
    game.do_move(9, 9);
    game.do_move(10, 10);
    let h = Heuristic::manual();
    let v = _alpha_beta_pruning(&mut game, &h, 2, i64::MIN, i64::MAX);
    assert!(v > i64::MIN && v < i64::MAX);
    assert_eq!(_alpha_beta_pruning(&mut game, &h, 2, v - 1, v + 1), v);
    let high = _alpha_beta_pruning(&mut game, &h, 2, v + 1, v + 2);
    assert!(high <= v + 1);
    let low = _alpha_beta_pruning(&mut game, &h, 2, v - 2, v - 1);
    assert!(low >= v - 1);
}

#[test]
fn alpha_beta_pruning_plays_the_center_then_near_the_stones() {
    let mut game = Game::new(Player::Human, Player::Human);
    assert_eq!(alpha_beta_pruning(&game, &Heuristic::zero()), (9, 9));
    game.do_move(9, 9);
    let m = alpha_beta_pruning(&game, &Heuristic::zero());
    assert!(game.get_close_moves(1, false).contains(&m));
}

#[test]
fn five_in_a_direction() {
    let mut board: Board = [[None; 19]; 19];
    for x in 3..8 {
        board[4][x] = Some(PlayerColor::Black);
    }
    assert!(check_winner_in_direction(&board, PlayerColor::Black, 5, 4, 1, 0));
    assert!(check_winner_in_direction(&board, PlayerColor::Black, 3, 4, -1, 0));
    assert!(!check_winner_in_direction(&board, PlayerColor::Black, 5, 4, 0, 1));
    assert!(!check_winner_in_direction(&board, PlayerColor::White, 5, 4, 1, 0));
    board[4][7] = None;
    assert!(!check_winner_in_direction(&board, PlayerColor::Black, 5, 4, 1, 0));
    handle_capture(&board, PlayerColor::Black, 5, 4);
    assert_eq!(board[4][6], Some(PlayerColor::Black));
}
