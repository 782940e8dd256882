use gomoku::bots::random_mover::random_mover;
use gomoku::bots::Bot;
use gomoku::game::board::BOARD_CENTER;
use gomoku::game::state::GameState;
use gomoku::game::Game;
use gomoku::heuristics::Heuristic;
use gomoku::player::{Player, PlayerColor};
use gomoku::turn::{Model, Turn};

fn random_player() -> Player {
    Player::Bot { bot: Bot::RandomMover, heuristic: Heuristic::zero() }
}

#[test]
fn test_undo_last_move() {
    for _ in 0..10 {
        let mut game = Game::new(random_player(), random_player());
        let mut game_states = Vec::new();

        while game.state.is_playing() {
            game_states.push(game.clone());
            let Player::Bot { bot: _, heuristic } = game.current_player().clone() else { unreachable!() };
            let (x, y) = random_mover(&game, &heuristic);
            game.do_move(x, y);
        }

        while let Some(game_state) = game_states.pop() {
            game.undo_last_move();
            assert_eq!(game_state, game);
        }
    }
}

#[test]
fn new_game_is_empty() {
    let game = Game::new(Player::Human, random_player());
    assert_eq!(game.state, GameState::Playing(Vec::new()));
    assert!(game.board.iter().all(|row| row.iter().all(|c| c.is_none())));
    assert_eq!(game.current_color, PlayerColor::Black);
    assert_eq!(game.ply, 0);
    assert_eq!(game.current_player(), &Player::Human);
    assert_eq!(game.get_legal_moves(None, false).len(), 361);
    assert!(game.get_legal_moves(Some(2), false).is_empty());
}

#[test]
fn move_places_stone_and_switches_color() {
    let mut game = Game::new(Player::Human, Player::Human);
    game.do_move(9, 9);
    assert_eq!(game.board[9][9], Some(PlayerColor::Black));
    assert_eq!(game.current_color, PlayerColor::White);
    assert_eq!(game.ply, 1);
    assert_eq!(game.moves, vec![(9, 9)]);
    assert_eq!(game.black_dist_to_center, 0);
    let close = game.get_legal_moves(Some(2), false);
    assert_eq!(close.len(), 12);
    assert!(close.contains(&(9, 7)) && close.contains(&(10, 10)) && !close.contains(&(11, 11)));
}

#[test]
fn capture_removes_pair_and_undo_restores_it() {
    let mut game = Game::new(Player::Human, Player::Human);
    game.do_move(0, 0); // black
    game.do_move(1, 0); // white
    game.do_move(9, 9); // black
    game.do_move(2, 0); // white
    let before = game.clone();
    game.do_move(3, 0); // black captures (1, 0) and (2, 0)
    assert_eq!(game.black_captures, 1);
    assert_eq!(game.board[0][1], None);
    assert_eq!(game.board[0][2], None);
    assert_eq!(game.captures, vec![(5, (2, 0), (1, 0))]);
    game.undo_last_move();
    assert_eq!(game, before);
}

#[test]
fn five_in_a_row_wins() {
    let mut game = Game::new(Player::Human, Player::Human);
    for i in 0..4 {
        game.do_move(5 + i, 5);
        game.do_move(5 + i, 12);
    }
    game.do_move(9, 5);
    match &game.state {
        GameState::Won(PlayerColor::Black, way) => {
            assert!(!way.win_by_captures);
            assert_eq!(way.winning_alignments, vec![vec![(5, 5), (6, 5), (7, 5), (8, 5), (9, 5)]]);
        },
        other => panic!("unexpected state {other:?}"),
    }
}

#[test]
fn double_three_is_not_a_legal_move() {
    let mut game = Game::new(Player::Human, Player::Human);
    // Black: (9, 8), (9, 7) and (8, 9), (7, 9); white far away.
    game.do_move(9, 8);
    game.do_move(0, 0);
    game.do_move(9, 7);
    game.do_move(0, 2);
    game.do_move(8, 9);
    game.do_move(0, 4);
    game.do_move(7, 9);
    game.do_move(0, 6);
    assert!(game.creates_double_three((9, 9)));
    assert!(!game.get_legal_moves(None, false).contains(&(9, 9)));
    assert!(game.get_legal_moves(None, false).contains(&(10, 10)));
}

#[test]
fn random_games_end() {
    let mut game = Game::new(random_player(), random_player());
    game.play_random_moves(4, 5);
    assert_eq!(game.ply, 4);
    assert!(game.moves.iter().all(|&(x, y)| x.abs_diff(9) + y.abs_diff(9) <= 5));
    game.play_game();
    assert!(!game.state.is_playing());
}

#[test]
fn first_bot_move_is_the_center() {
    let game = Game::new(random_player(), random_player());
    let h = Heuristic::zero();
    for bot in [Bot::Minimax, Bot::Negamax, Bot::AlphaBetaPruning, Bot::Idabp] {
        assert_eq!(gomoku::bots::bot_move(bot, &game, &h), BOARD_CENTER);
    }
}

#[test]
fn model_and_turns() {
    let mut model = Model::new(Player::Human, random_player());
    assert_eq!(model.game.ply, 0);
    assert!(model.hover.is_none());
    assert_eq!(Turn::Black.opponent(), Turn::White);
    assert_eq!(Turn::White.opponent(), Turn::Black);
    Turn::White.increment_captures(&mut model.game, 2);
    assert_eq!(Turn::White.captures(&model.game), 2);
    assert_eq!(Turn::Black.captures(&model.game), 0);
}

#[test]
fn one_turn_of_a_bot() {
    let mut game = Game::new(random_player(), random_player());
    assert!(game.play_turn());
    assert_eq!(game.ply, 1);
    let mut human = Game::new(Player::Human, Player::Human);
    human.do_move(9, 9);
    human.undo_last_move();
    assert_eq!(human, Game::new(Player::Human, Player::Human));
}

#[test]
fn cells_near_the_center() {
    let mut game = Game::new(Player::Human, Player::Human);
    assert_eq!(game.cells_near_center(0), vec![BOARD_CENTER]);
    assert_eq!(game.cells_near_center(1).len(), 5);
    game.do_move(9, 9);
    assert_eq!(game.cells_near_center(1), vec![(9, 8), (8, 9), (10, 9), (9, 10)]);
}

#[test]
fn a_three_held_by_the_edge_and_an_opponent_is_not_open() {
    let mut g = Game::new(Player::Human, Player::Human);
    g.do_move(2, 9);
    g.do_move(5, 9);
    g.do_move(3, 9);
    g.do_move(0, 0);
    assert!(!g.is_open_three((1, 9), (1, 0)));
    assert!(!g.is_open_three((1, 9), (-1, 0)));
    // With room on the right, the same three is open.
    let mut g = Game::new(Player::Human, Player::Human);
    g.do_move(2, 9);
    g.do_move(7, 9);
    g.do_move(3, 9);
    g.do_move(0, 0);
    assert!(g.is_open_three((1, 9), (1, 0)));
}

#[test]
fn an_opponent_one_capture_from_winning_answers_a_five() {
    let mut g = Game::new(Player::Human, Player::Human);
    for x in 5..10 {
        g.board[9][x] = Some(PlayerColor::Black);
    }
    g.board[0][0] = Some(PlayerColor::White);
    g.board[0][1] = Some(PlayerColor::Black);
    g.board[0][2] = Some(PlayerColor::Black);
    g.ply = 13;
    g.white_captures = 3;
    assert!(matches!(g.update_state((9, 9)), GameState::Won(PlayerColor::Black, _)));
    g.white_captures = 4;
    match g.update_state((9, 9)) {
        GameState::Playing(forced) => assert_eq!(forced, vec![(3, 0)]),
        _ => panic!("the opponent can still win by capturing a fifth pair"),
    }
}

#[test]
fn captures_on_a_board_set_by_hand() {
    let mut g = Game::new(Player::Human, Player::Human);
    for (x, y) in [(12, 9), (10, 9), (9, 12), (11, 9), (0, 0), (9, 10), (18, 18), (9, 11)] {
        g.do_move(x, y);
    }
    g.board[9][9] = Some(PlayerColor::Black);
    g.handle_captures((9, 9));
    assert_eq!(g.board[9][10], None);
    assert_eq!(g.board[9][11], None);
    assert_eq!(g.board[10][9], None);
    assert_eq!(g.board[11][9], None);
    assert_eq!(g.black_captures, 2);
    assert_eq!(g.white_captures, 0);
    assert_eq!(g.captures, vec![(8, (9, 10), (9, 11)), (8, (10, 9), (11, 9))]);
    for (x, y) in [(12, 9), (9, 12), (9, 9), (0, 0), (18, 18)] {
        assert_eq!(g.board[y][x], Some(PlayerColor::Black));
    }
}
