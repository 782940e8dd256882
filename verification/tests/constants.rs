use gomoku::args::games_to_play;
use gomoku::constants::{
    coeffs_file, coeffs_set, old_coeffs_file, CoeffsSet, DOT_SPACING, MARKER_DOTS_SPACING,
    MAX_MULTIPLICATIVE_MUTATION_PERCENT, MIN_MULTIPLICATIVE_MUTATION_PERCENT, N_MUTATIONS, REQUIRED_WINS,
};
use gomoku::game::board::{BOARD_SIZE, DIRECTIONS4, DIRECTIONS8, HALF_BOARD_SIZE};

#[test]
fn constants_board_size() {
    assert!(BOARD_SIZE % 2 == 1);
    assert!(BOARD_SIZE >= 3);
}

#[test]
fn dot_spacing() {
    assert!(DOT_SPACING > 0);
    assert!(DOT_SPACING < HALF_BOARD_SIZE);
}

#[test]
fn board_directions() {
    assert!(DIRECTIONS8[..4] == DIRECTIONS4);
    assert!(DIRECTIONS8[4..].iter().zip(DIRECTIONS4).all(|(&(x1, y1), (x2, y2))| x1 == -x2 && y1 == -y2));
}

#[test]
fn mod_board_size() {
    assert!(BOARD_SIZE % 2 == 1);
    assert!(BOARD_SIZE >= 3);
}

#[test]
fn mod_directions() {
    assert!(DIRECTIONS8[..4] == DIRECTIONS4);
    assert!(DIRECTIONS8[4..].iter().zip(DIRECTIONS4).all(|(&(x1, y1), (x2, y2))| x1 == -x2 && y1 == -y2));
}

#[test]
fn marker_dots_spacing() {
    assert!(MARKER_DOTS_SPACING > 0);
    assert!(MARKER_DOTS_SPACING < HALF_BOARD_SIZE);
}

#[test]
fn required_wins() {
    assert!(REQUIRED_WINS > 2u32.pow(N_MUTATIONS as u32 - 1));
    assert!(REQUIRED_WINS <= 2u32.pow(N_MUTATIONS as u32));
}

#[test]
fn multiplicative_bias_towards_zero() {
    let min = MIN_MULTIPLICATIVE_MUTATION_PERCENT as f64 / 100.;
    let max = MAX_MULTIPLICATIVE_MUTATION_PERCENT as f64 / 100.;
    assert!(min > 0.);
    assert!(min < 1.);
    assert!(max > 1.);
    assert!(max < 2.);
    let mean = (min + max) / 2.;
    assert!(mean > 0.95);
    assert!(mean < 1.00);
}

#[test]
fn coeffs_set_by_time_limit() {
    assert_eq!(coeffs_set(0), CoeffsSet::Ms2);
    assert_eq!(coeffs_set(4), CoeffsSet::Ms2);
    assert_eq!(coeffs_set(5), CoeffsSet::Ms8);
    assert_eq!(coeffs_set(16), CoeffsSet::Ms8);
    assert_eq!(coeffs_set(17), CoeffsSet::Ms32);
    assert_eq!(coeffs_set(500), CoeffsSet::Ms32);
    assert_eq!(coeffs_file(CoeffsSet::Ms8), "./coeffs/coeffs_008ms_new.rs");
    assert_eq!(old_coeffs_file(CoeffsSet::Ms32), "./coeffs/coeffs_032ms_old.rs");
}

#[test]
fn games_of_a_match() {
    assert_eq!(games_to_play(1), None);
    assert_eq!(games_to_play(2), Some(2));
    assert_eq!(games_to_play(7), Some(6));
}
