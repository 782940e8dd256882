use crate::game::board::Board;
use crate::game::lines::{lemma_line_on_board, line_spec, line_values, N_LINES};
use crate::game::logic::GameView;
use crate::heuristics::coeff_heuristic::{coeff_heuristic_spec, digit_sum_index, digit_sum_score, digit_sum_totals};
use crate::heuristics::coeffistic::{
    capture_polynomial, coeffistic_spec, lemma_term_bound, lines_totals, pattern_score, threats, valid_coeffs,
    window_index, MAX_COEFF_VALUE, N_STENCIL_COEFFS,
};
use crate::heuristics::new::{base_value, board_combos, counted_diff, evaluable, new_spec, shape_diff, weighted_combos};
use crate::heuristics::old_manual::{old_combos_upto, old_manual_spec};
use crate::heuristics::patterns::{board_shapes, board_threats, shapes_before, Shape};
use crate::heuristics::runs::{board_runs, lemma_runs_bound, Combos};
use crate::heuristics::{heuristic_value, valid_heuristic, HeuristicFn, HeuristicView, HEURISTIC_BOUND};
use crate::player::PlayerColor;
use vstd::prelude::*;

verus! {

/// Every line has between 1 and 19 cells.
proof fn lemma_line_len(board: Board, i: int)
    requires
        0 <= i < N_LINES,
    ensures
        1 <= line_values(board, line_spec(i)).len() <= 19,
{
    lemma_line_on_board(i, 0);
}

/// A line scores at most `MAX_COEFF_VALUE` per cell.
proof fn lemma_pattern_score_bound(vals: Seq<Option<PlayerColor>>, coeffs: Seq<i64>, k: int)
    requires
        valid_coeffs(coeffs),
        0 <= k <= vals.len(),
    ensures
        -k * MAX_COEFF_VALUE <= pattern_score(vals, coeffs, k) <= k * MAX_COEFF_VALUE,
    decreases k,
{
    if k > 0 {
        lemma_pattern_score_bound(vals, coeffs, k - 1);
        if k - 1 >= 5 {
            let j = window_index(vals, k - 1);
            assert(0 <= j < N_STENCIL_COEFFS);
            assert(-MAX_COEFF_VALUE <= coeffs[j] <= MAX_COEFF_VALUE);
        }
    }
}

/// The same, with the coefficients looked up by digit sum.
proof fn lemma_digit_sum_score_bound(vals: Seq<Option<PlayerColor>>, coeffs: Seq<i64>, k: int)
    requires
        valid_coeffs(coeffs),
        0 <= k <= vals.len(),
    ensures
        -k * MAX_COEFF_VALUE <= digit_sum_score(vals, coeffs, k) <= k * MAX_COEFF_VALUE,
    decreases k,
{
    if k > 0 {
        lemma_digit_sum_score_bound(vals, coeffs, k - 1);
        if k - 1 >= 5 {
            let j = digit_sum_index(vals, k - 1);
            assert(0 <= j <= 12);
            assert(-MAX_COEFF_VALUE <= coeffs[j] <= MAX_COEFF_VALUE);
        }
    }
}

/// A line holds at most one capture threat per cell.
proof fn lemma_threats_bound(vals: Seq<Option<PlayerColor>>, black: bool, k: int)
    requires
        0 <= k,
    ensures
        0 <= threats(vals, black, k) <= k,
    decreases k,
{
    if k > 0 {
        lemma_threats_bound(vals, black, k - 1);
    }
}

/// The totals of the first `n` lines.
proof fn lemma_lines_totals_bound(board: Board, coeffs: Seq<i64>, n: int)
    requires
        valid_coeffs(coeffs),
        0 <= n <= N_LINES,
    ensures
        -19 * n * MAX_COEFF_VALUE <= lines_totals(board, coeffs, n).0 <= 19 * n * MAX_COEFF_VALUE,
        0 <= lines_totals(board, coeffs, n).1 <= 19 * n,
        0 <= lines_totals(board, coeffs, n).2 <= 19 * n,
        -19 * n * MAX_COEFF_VALUE <= digit_sum_totals(board, coeffs, n).0 <= 19 * n * MAX_COEFF_VALUE,
        0 <= digit_sum_totals(board, coeffs, n).1 <= 19 * n,
        0 <= digit_sum_totals(board, coeffs, n).2 <= 19 * n,
    decreases n,
{
    if n > 0 {
        lemma_lines_totals_bound(board, coeffs, n - 1);
        lemma_line_len(board, n - 1);
        let vals = line_values(board, line_spec(n - 1));
        let len = vals.len() as int;
        lemma_pattern_score_bound(vals, coeffs, len);
        lemma_digit_sum_score_bound(vals, coeffs, len);
        lemma_threats_bound(vals, true, len);
        lemma_threats_bound(vals, false, len);
        assert(len * MAX_COEFF_VALUE <= 19 * MAX_COEFF_VALUE) by (nonlinear_arith)
            requires
                len <= 19,
        ;
    }
}

/// The capture polynomial of a color with at most 12 captures and 2128 threats.
proof fn lemma_polynomial_bound(coeffs: Seq<i64>, c: int, t: int)
    requires
        valid_coeffs(coeffs),
        0 <= c <= 12,
        0 <= t <= 2128,
    ensures
        -9 * (MAX_COEFF_VALUE * (5000 * 5000 * 5000)) <= capture_polynomial(coeffs, c, t)
            <= 9 * (MAX_COEFF_VALUE * (5000 * 5000 * 5000)),
{
    let k = |j: int| coeffs[N_STENCIL_COEFFS + j] as int;
    assert forall|j: int| 0 <= j < 9 implies -MAX_COEFF_VALUE <= #[trigger] k(j) <= MAX_COEFF_VALUE by {
        assert(-MAX_COEFF_VALUE <= coeffs[N_STENCIL_COEFFS + j] <= MAX_COEFF_VALUE);
    }
    let m = MAX_COEFF_VALUE as int;
    let b = 5000int;
    lemma_term_bound(k(0), c, c, c, b);
    lemma_term_bound(k(1), c, c, 1, b);
    lemma_term_bound(k(2), c, 1, 1, b);
    lemma_term_bound(k(3), t, t, t, b);
    lemma_term_bound(k(4), t, t, 1, b);
    lemma_term_bound(k(5), t, 1, 1, b);
    lemma_term_bound(k(6), c, t, 1, b);
    lemma_term_bound(k(7), c, t, c, b);
    lemma_term_bound(k(8), c, t, t, b);
    assert(k(1) * c * c * 1 == k(1) * c * c && k(2) * c * 1 * 1 == k(2) * c && k(4) * t * t * 1 == k(4) * t * t
        && k(5) * t * 1 * 1 == k(5) * t && k(6) * c * t * 1 == k(6) * c * t) by (nonlinear_arith);
    let (k6, k7, k8) = (k(6), k(7), k(8));
    assert(c * t * (k6 + k7 * c + k8 * t) == k6 * c * t + k7 * c * t * c + k8 * c * t * t) by (nonlinear_arith);
    assert(m * (b * b) <= m * (b * b * b) && m * b <= m * (b * b * b)) by (nonlinear_arith)
        requires
            m == MAX_COEFF_VALUE,
            b == 5000,
    ;
}

/// The run counters of a color over the first `n` lines.
proof fn lemma_board_runs_bound(board: Board, c: PlayerColor, l: int, o: int, n: int)
    requires
        0 <= n <= N_LINES,
    ensures
        0 <= board_runs(board, c, l, o, n) <= 19 * n,
    decreases n,
{
    if n > 0 {
        lemma_board_runs_bound(board, c, l, o, n - 1);
        lemma_line_len(board, n - 1);
        let vals = line_values(board, line_spec(n - 1));
        lemma_runs_bound(vals, c, l, o, vals.len() as int);
    }
}

/// A line shows a shape at most once per cell.
proof fn lemma_shapes_before_bound(vals: Seq<Option<PlayerColor>>, shape: Shape, c: PlayerColor, k: int)
    requires
        0 <= k,
    ensures
        0 <= shapes_before(vals, shape, c, k) <= k,
    decreases k,
{
    if k > 0 {
        lemma_shapes_before_bound(vals, shape, c, k - 1);
    }
}

/// The shape and threat counters over the first `n` lines.
proof fn lemma_board_shapes_bound(board: Board, shape: Shape, c: PlayerColor, n: int)
    requires
        0 <= n <= N_LINES,
    ensures
        0 <= board_shapes(board, shape, c, n) <= 19 * n,
        0 <= board_threats(board, true, n) <= 19 * n,
        0 <= board_threats(board, false, n) <= 19 * n,
    decreases n,
{
    if n > 0 {
        lemma_board_shapes_bound(board, shape, c, n - 1);
        lemma_line_len(board, n - 1);
        let vals = line_values(board, line_spec(n - 1));
        lemma_shapes_before_bound(vals, shape, c, vals.len() as int);
        lemma_threats_bound(vals, true, vals.len() as int);
        lemma_threats_bound(vals, false, vals.len() as int);
    }
}

/// The run counters of the board, for both colors.
proof fn lemma_board_combos_bound(g: GameView)
    ensures
        forall|l: int, o: int| 0 <= l < 10 && 0 <= o < 3 ==> -2128 <= #[trigger] counted_diff(
            board_combos(g, PlayerColor::Black), board_combos(g, PlayerColor::White), l, o) <= 2128,
{
    assert forall|l: int, o: int| 0 <= l < 10 && 0 <= o < 3 implies -2128 <= #[trigger] counted_diff(
        board_combos(g, PlayerColor::Black), board_combos(g, PlayerColor::White), l, o) <= 2128 by {
        lemma_board_runs_bound(g.board, PlayerColor::Black, l, o, N_LINES as int);
        lemma_board_runs_bound(g.board, PlayerColor::White, l, o, N_LINES as int);
        let b = board_combos(g, PlayerColor::Black);
        let w = board_combos(g, PlayerColor::White);
        assert(b[l][o] == board_runs(g.board, PlayerColor::Black, l, o, N_LINES as int) as i64);
        assert(w[l][o] == board_runs(g.board, PlayerColor::White, l, o, N_LINES as int) as i64);
    }
}

/// The weighted run counters of the previous hand-written heuristic, over lengths `2 .. n`.
proof fn lemma_old_combos_bound(black: Combos, white: Combos, n: int)
    requires
        forall|l: int, o: int| 0 <= l < 10 && 0 <= o < 3 ==> -2128 <= #[trigger] counted_diff(black, white, l, o) <= 2128,
        0 <= n <= 10,
    ensures
        -n * 100_000_000 <= old_combos_upto(black, white, n) <= n * 100_000_000,
    decreases n,
{
    if n > 2 {
        lemma_old_combos_bound(black, white, n - 1);
        let l = n - 1;
        let d1 = counted_diff(black, white, l, 1);
        let d2 = counted_diff(black, white, l, 2);
        assert(-100_000_000 <= l * l * l * l * (d1 + 3 * d2) <= 100_000_000) by (nonlinear_arith)
            requires
                2 <= l <= 9,
                -2128 <= d1 <= 2128,
                -2128 <= d2 <= 2128,
        {
            assert(0 <= l * l <= 81);
            assert(0 <= l * l * l <= 729);
            assert(0 <= l * l * l * l <= 6561);
        }
    }
}

/// The value of every heuristic is within `HEURISTIC_BOUND` in games that can be evaluated.
pub proof fn lemma_heuristic_value_bound(h: HeuristicView, g: GameView)
    requires
        valid_heuristic(h),
        evaluable(g),
    ensures
        -HEURISTIC_BOUND <= heuristic_value(h, g) <= HEURISTIC_BOUND,
{
    match h.fun {
        HeuristicFn::Coeffistic | HeuristicFn::CoeffHeuristic => {
            let coeffs = h.coeffs.unwrap();
            lemma_lines_totals_bound(g.board, coeffs, N_LINES as int);
            let (h1, bt1, wt1) = lines_totals(g.board, coeffs, N_LINES as int);
            let (h2, bt2, wt2) = digit_sum_totals(g.board, coeffs, N_LINES as int);
            lemma_polynomial_bound(coeffs, g.black_captures as int, bt1);
            lemma_polynomial_bound(coeffs, g.white_captures as int, wt1);
            lemma_polynomial_bound(coeffs, g.black_captures as int, bt2);
            lemma_polynomial_bound(coeffs, g.white_captures as int, wt2);
        },
        HeuristicFn::Manual => {
            lemma_board_combos_bound(g);
            lemma_board_shapes_bound(g.board, Shape::OpenTwoOne, PlayerColor::Black, N_LINES as int);
            lemma_board_shapes_bound(g.board, Shape::OpenTwoOne, PlayerColor::White, N_LINES as int);
            lemma_board_shapes_bound(g.board, Shape::TwoTwo, PlayerColor::Black, N_LINES as int);
            lemma_board_shapes_bound(g.board, Shape::TwoTwo, PlayerColor::White, N_LINES as int);
            lemma_board_shapes_bound(g.board, Shape::OneOneOne, PlayerColor::Black, N_LINES as int);
            lemma_board_shapes_bound(g.board, Shape::OneOneOne, PlayerColor::White, N_LINES as int);
            lemma_board_shapes_bound(g.board, Shape::ThreeOne, PlayerColor::Black, N_LINES as int);
            lemma_board_shapes_bound(g.board, Shape::ThreeOne, PlayerColor::White, N_LINES as int);
            lemma_board_shapes_bound(g.board, Shape::LockedFour, PlayerColor::Black, N_LINES as int);
            lemma_board_shapes_bound(g.board, Shape::LockedFour, PlayerColor::White, N_LINES as int);
            lemma_base_bound(g);
        },
        HeuristicFn::OldManual => {
            lemma_board_combos_bound(g);
            lemma_old_combos_bound(board_combos(g, PlayerColor::Black), board_combos(g, PlayerColor::White), 10);
            lemma_base_bound(g);
        },
        _ => {},
    }
}

/// The part of the hand-written heuristics that does not look at the lines.
proof fn lemma_base_bound(g: GameView)
    requires
        evaluable(g),
    ensures
        -7000 <= base_value(g) <= 7000,
{
    let b = g.black_captures as int;
    let w = g.white_captures as int;
    assert(0 <= b * b * b <= 1728 && 0 <= w * w * w <= 1728) by (nonlinear_arith)
        requires
            0 <= b <= 12,
            0 <= w <= 12,
    ;
}

} // verus!
