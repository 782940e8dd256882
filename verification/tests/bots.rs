use gomoku::bots::idabp_new::{idabp_new, update_cache_key_at};
use gomoku::bots::cache::Cache;
use gomoku::bots::idabp::sort_by_cached_value;
use gomoku::bots::alpha_beta_pruning::alpha_beta_pruning_helper;
use gomoku::bots::idabp::{deepening_move, idabp, update_cache_key};
use gomoku::bots::idabp_old::idabp_old;
use gomoku::bots::random_mover::{get_bot_move, random_mover, BotRandom};
use gomoku::bots::{bot_move, negate, parse_bot, Bot};
use gomoku::game::Game;
use gomoku::heuristics::Heuristic;
use gomoku::player::Player;

#[test]
fn parse_bots() {
    assert_eq!(parse_bot("random"), Ok(Bot::RandomMover));
    assert_eq!(parse_bot("random_mover"), Ok(Bot::RandomMover));
    assert_eq!(parse_bot("minimax"), Ok(Bot::Minimax));
    assert_eq!(parse_bot("negamax"), Ok(Bot::Negamax));
    assert_eq!(parse_bot("abp"), Ok(Bot::AlphaBetaPruning));
    assert_eq!(parse_bot("alpha_beta_pruning"), Ok(Bot::AlphaBetaPruning));
    assert_eq!(parse_bot("idabp"), Ok(Bot::Idabp));
    assert_eq!(parse_bot("mcts"), Err("Invalid bot: `mcts`".to_string()));
}

#[test]
fn first_legal_move_bots() {
    let mut game = Game::new(Player::Human, Player::Human);
    assert_eq!(get_bot_move(&game), (0, 0));
    game.do_move(0, 0);
    assert_eq!(get_bot_move(&game), (1, 0));
    assert_eq!(BotRandom::get_move(&game), (1, 0));
}

#[test]
fn random_mover_plays_on_an_empty_cell() {
    let mut game = Game::new(Player::Human, Player::Human);
    game.do_move(9, 9);
    for _ in 0..20 {
        let (x, y) = random_mover(&game, &Heuristic::zero());
        assert!(game.board[y][x].is_none());
    }
}

#[test]
fn idabp_plays_near_the_stones() {
    let mut game = Game::new(Player::Human, Player::Human);
    game.do_move(9, 9);
    let close = game.get_legal_moves(Some(2), false);
    let m = idabp(&game, &Heuristic::zero());
    assert!(m == (usize::MAX, usize::MAX) || close.contains(&m));
    let m = bot_move(Bot::Idabp, &game, &Heuristic::manual());
    assert!(m == (usize::MAX, usize::MAX) || close.contains(&m));
}

#[test]
fn idabp_with_a_deadline_plays_a_legal_move() {
    let mut game = Game::new(Player::Human, Player::Human);
    assert_eq!(idabp_new(&game, &Heuristic::zero(), 20), (9, 9));
    game.do_move(9, 9);
    let legal = game.get_legal_moves(None, false);
    for h in [Heuristic::zero(), Heuristic::manual()] {
        let m = idabp_new(&game, &h, 20);
        assert!(legal.contains(&m));
    }
    assert_eq!(update_cache_key_at(0, 0, (0, 0)), 1);
    assert_eq!(update_cache_key_at(1, 1, (2, 1)), 1 | (22 << 9));
    assert_eq!(update_cache_key_at(0, 15, (0, 0)), 1 << 7);
}

#[test]
fn cache_keys_and_negation() {
    assert_eq!(update_cache_key(0, (0, 0)), 1);
    assert_eq!(update_cache_key(0, (18, 18)), 361);
    assert_eq!(update_cache_key(1, (2, 1)), 512 + 19 + 2 + 1);
    assert_eq!(update_cache_key(u128::MAX, (0, 0)), (u128::MAX << 9) | 1);
    assert_eq!(negate(5), -5);
    assert_eq!(negate(i64::MIN), i64::MIN);
}

#[test]
fn sorting_by_cached_value_is_stable() {
    let moves = vec![(3, 3), (1, 1), (2, 2)];
    let mut cache = Cache::default();
    let sorted = sort_by_cached_value(&moves, &cache, 0, 7);
    assert_eq!(sorted, moves);
    cache.insert(update_cache_key(0, (2, 2)), -5);
    cache.insert(update_cache_key(0, (3, 3)), 10);
    let sorted = sort_by_cached_value(&moves, &cache, 0, 7);
    assert_eq!(sorted, vec![(2, 2), (1, 1), (3, 3)]);
}

#[test]
fn alpha_beta_value_of_a_won_game() {
    let mut game = Game::new(Player::Human, Player::Human);
    for i in 0..4 {
        game.do_move(5 + i, 5);
        game.do_move(5 + i, 12);
    }
    game.do_move(9, 5);
    let before = game.clone();
    let mut best_move = (usize::MAX, usize::MAX);
    let v = alpha_beta_pruning_helper(&mut game, &Heuristic::zero(), 0, -i64::MAX, i64::MAX, &mut best_move);
    // Black won; white is to move.
    assert_eq!(v, -i64::MAX);
    assert_eq!(best_move, (usize::MAX, usize::MAX));
    assert_eq!(game, before);
    assert_eq!(bot_move(Bot::AlphaBetaPruning, &game, &Heuristic::zero()), (usize::MAX, usize::MAX));
}

#[test]
fn deepening_keeps_the_deepest_search_in_time() {
    let none = (usize::MAX, usize::MAX);
    let choices = vec![none, (3, 3), (4, 4), (5, 5)];
    assert_eq!(deepening_move(&choices, &vec![true, true, true, false], (0, 0)), (4, 4));
    assert_eq!(deepening_move(&choices, &vec![true, true, true, true], (0, 0)), (5, 5));
    // The search to depth 1 ran late: its choice is still played.
    assert_eq!(deepening_move(&vec![none, (3, 3)], &vec![true, false], (0, 0)), (3, 3));
    // No search chose a move.
    assert_eq!(deepening_move(&vec![none], &vec![false], (7, 7)), (7, 7));
}

#[test]
fn idabp_always_plays_a_close_move() {
    let mut game = Game::new(Player::Human, Player::Human);
    game.do_move(9, 9);
    game.do_move(10, 10);
    let close = game.get_legal_moves(Some(2), false);
    let m = idabp(&game, &Heuristic::manual());
    assert!(close.contains(&m));
}

#[test]
fn idabp_old_plays_a_legal_move() {
    let mut game = Game::new(Player::Human, Player::Human);
    assert_eq!(idabp_old(&game, &Heuristic::zero(), 20), (9, 9));
    game.do_move(9, 9);
    game.do_move(10, 10);
    let legal = game.get_legal_moves(None, false);
    let m = idabp_old(&game, &Heuristic::manual(), 30);
    assert!(legal.contains(&m));
    let m = bot_move(Bot::IdabpOld { time_limit_ms: 30 }, &game, &Heuristic::manual());
    assert!(legal.contains(&m));
}
