use gomoku::heuristics::coeffistic::{coeffs_are_valid, MAX_COEFF_VALUE};
use gomoku::game::bitboard::{bitboard_set, bitboard_set_captures, BitBoard};
use gomoku::game::five::{check_five_in_a_row, check_winner};
use gomoku::game::zobrist::{zobrist_capture, zobrist_move};
use gomoku::game::Game;
use gomoku::heuristics::coeff_heuristic::{coeff_heuristic, genetic};
use gomoku::heuristics::coeffistic::coeffistic;
use gomoku::heuristics::new::new;
use gomoku::heuristics::old_manual::old_manual;
use gomoku::heuristics::{evaluate, parse_heuristic, Heuristic, HeuristicFn};
use gomoku::player::{Player, PlayerColor};

fn small_game() -> Game {
    let mut game = Game::new(Player::Human, Player::Human);
    game.do_move(9, 9); // black
    game.do_move(0, 0); // white
    game.do_move(10, 9); // black
    game
}

#[test]
fn hand_written_heuristics_on_empty_board() {
    let game = Game::new(Player::Human, Player::Human);
    assert_eq!(new(&game), 0);
    assert_eq!(old_manual(&game), 0);
    assert_eq!(genetic(&game), 0);
}

#[test]
fn hand_written_heuristic_counts_an_open_two() {
    let game = small_game();
    // (18 - 1) / 8 for the distances, and an open run of two black stones.
    assert_eq!(new(&game), 2 + 96);
    assert_eq!(old_manual(&game), 2 + 16 * 3);
    assert_eq!(evaluate(&Heuristic::manual(), &game), 98);
}

#[test]
fn hand_written_heuristic_counts_capture_threats() {
    let mut game = Game::new(Player::Human, Player::Human);
    game.do_move(9, 9); // black
    game.do_move(10, 9); // white
    game.do_move(0, 18); // black
    game.do_move(11, 9); // white: black threatens the pair (10, 9), (11, 9)
    // distances: black 0 + 18 = 18, white 1 + 2 = 3; (3 - 18) / 8 rounds toward zero.
    // one black capture threat (200), one open white run of two on row 9 closed on the left (32).
    assert_eq!(new(&game), -1 + 200 - 32);
}

#[test]
fn genetic_is_zero_everywhere() {
    assert_eq!(genetic(&small_game()), 0);
}

#[test]
fn coefficient_heuristics_use_their_coefficients() {
    let game = small_game();
    let zeros = vec![0i64; 738];
    assert_eq!(coeffistic(&game, Some(&zeros)), 0);
    assert_eq!(coeff_heuristic(&game, &zeros), 0);
    let mut ones = vec![1i64; 738];
    for c in ones.iter_mut().skip(729) {
        *c = 0;
    }
    // Every 6-cell window of every line counts once.
    let windows: i64 = (0..112usize)
        .map(|i| {
            let len = if i < 38 { 19 } else if (i - 38) % 37 <= 18 { (i - 38) % 37 + 1 } else { 37 - (i - 38) % 37 };
            (len as i64 - 5).max(0)
        })
        .sum();
    assert_eq!(coeffistic(&game, Some(&ones)), windows);
    assert_eq!(coeff_heuristic(&game, &ones), windows);
}

#[test]
fn parse_heuristics() {
    let coeffs = vec![0i64; 738];
    assert_eq!(parse_heuristic("zero", &coeffs).unwrap().fun, HeuristicFn::Zero);
    assert_eq!(parse_heuristic("capturophile", &coeffs).unwrap().fun, HeuristicFn::Capturophile);
    assert_eq!(parse_heuristic("manual", &coeffs).unwrap().fun, HeuristicFn::Manual);
    let h = parse_heuristic("coeffistic", &coeffs).unwrap();
    assert_eq!(h.fun, HeuristicFn::Coeffistic);
    assert_eq!(h.coeffs, Some(coeffs.clone()));
    assert_eq!(parse_heuristic("nope", &coeffs).unwrap_err(), "Invalid heuristic: `nope`");
}

#[test]
fn capturophile_counts_captures() {
    let mut game = Game::new(Player::Human, Player::Human);
    game.do_move(0, 0);
    game.do_move(1, 0);
    game.do_move(9, 9);
    game.do_move(2, 0);
    game.do_move(3, 0);
    assert_eq!(evaluate(&Heuristic::capturophile(), &game), 1);
    assert_eq!(evaluate(&Heuristic::zero(), &game), 0);
}

#[test]
fn zobrist_move_twice_is_no_move() {
    let z = 0x1234_5678_9abc_def0u64;
    let once = zobrist_move(z, PlayerColor::White, (3, 4));
    assert_ne!(once, z);
    assert_eq!(zobrist_move(once, PlayerColor::White, (3, 4)), z);
    assert_ne!(zobrist_move(z, PlayerColor::Black, (3, 4)), once);
    // The first capture count has zero values, so leaving it only adds the second one.
    let c = zobrist_capture(z, PlayerColor::Black, 0);
    assert_eq!(zobrist_capture(c, PlayerColor::Black, 0), z);
}

#[test]
fn bitboard_cells_and_captures() {
    let mut bb: BitBoard = [0; 12];
    bitboard_set(&mut bb, (0, 0), Some(PlayerColor::Black));
    assert_eq!(bb[0], 0b10);
    bitboard_set(&mut bb, (1, 0), Some(PlayerColor::White));
    assert_eq!(bb[0], 0b11_10);
    bitboard_set(&mut bb, (0, 0), None);
    assert_eq!(bb[0], 0b11_00);
    bitboard_set(&mut bb, (18, 18), Some(PlayerColor::White));
    assert_eq!(bb[11], 0b11 << 16);
    bitboard_set_captures(&mut bb, 2, 1);
    assert_eq!(bb[11], (0b11 << 16) | (2 << 18) | (1 << 21));
    assert_eq!(bb[0], 0b11_00);
}

#[test]
fn five_in_a_row_rule() {
    let mut game = Game::new(Player::Human, Player::Human);
    for i in 0..4 {
        game.do_move(3 + i, 3 + i);
        game.do_move(15, 2 * i);
    }
    assert!(!check_five_in_a_row(&game.board, PlayerColor::Black, (6, 6), (1, 1)));
    game.do_move(7, 7);
    assert!(check_five_in_a_row(&game.board, PlayerColor::Black, (7, 7), (1, 1)));
    assert!(!check_five_in_a_row(&game.board, PlayerColor::Black, (7, 7), (1, 0)));
    assert!(check_winner(&game.board, PlayerColor::Black, 0, (7, 7)));
    assert!(!check_winner(&game.board, PlayerColor::White, 0, (15, 0)));
    assert!(check_winner(&game.board, PlayerColor::White, 5, (15, 0)));
}

#[test]
fn coefficient_validity() {
    assert!(coeffs_are_valid(&vec![0; 738]));
    assert!(!coeffs_are_valid(&vec![0; 737]));
    let mut c = vec![MAX_COEFF_VALUE; 738];
    assert!(coeffs_are_valid(&c));
    c[700] = MAX_COEFF_VALUE + 1;
    assert!(!coeffs_are_valid(&c));
}

#[test]
fn new_heuristic_changes_sign_with_the_colors() {
    let mut g = Game::new(Player::Human, Player::Human);
    for (x, y) in [(9, 9), (10, 10), (9, 10), (8, 8), (9, 11), (12, 12), (11, 9)] {
        g.do_move(x, y);
    }
    let mut swapped = g.clone();
    for y in 0..19 {
        for x in 0..19 {
            swapped.board[y][x] = match g.board[y][x] {
                Some(PlayerColor::Black) => Some(PlayerColor::White),
                Some(PlayerColor::White) => Some(PlayerColor::Black),
                None => None,
            };
        }
    }
    swapped.black_captures = g.white_captures;
    swapped.white_captures = g.black_captures;
    swapped.black_dist_to_center = g.white_dist_to_center;
    swapped.white_dist_to_center = g.black_dist_to_center;
    assert_eq!(new(&swapped), -new(&g));
    assert_ne!(new(&g), 0);
    assert_eq!(new(&Game::new(Player::Human, Player::Human)), 0);
}

#[test]
fn coeffistic_adds_up_with_its_coefficients() {
    let mut g = Game::new(Player::Human, Player::Human);
    for (x, y) in [(9, 9), (10, 10), (9, 10), (8, 8), (9, 11)] {
        g.do_move(x, y);
    }
    let a: Vec<i64> = (0..738).map(|i| (i % 5) as i64 - 2).collect();
    let b: Vec<i64> = (0..738).map(|i| (i % 3) as i64).collect();
    let c: Vec<i64> = a.iter().zip(&b).map(|(x, y)| x + y).collect();
    assert_eq!(coeffistic(&g, Some(&c)), coeffistic(&g, Some(&a)) + coeffistic(&g, Some(&b)));
}

#[test]
fn capture_hashes_fold_back() {
    let z = 0x1234_5678_9abc_def0u64;
    let mut h = z;
    for k in 0..4 {
        h = zobrist_capture(h, PlayerColor::White, k);
    }
    assert_ne!(h, z);
    for k in (0..4).rev() {
        h = zobrist_capture(h, PlayerColor::White, k);
    }
    assert_eq!(h, z);
    assert_eq!(zobrist_capture(zobrist_capture(z, PlayerColor::Black, 2), PlayerColor::Black, 2), z);
}
