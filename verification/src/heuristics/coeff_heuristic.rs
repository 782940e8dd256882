use crate::game::board::{same_cell, Board};
use crate::game::lines::{line, line_spec, line_value, line_values, N_LINES};
use crate::game::Game;
use crate::heuristics::coeffistic::{
    capture_heuristic, capture_polynomial, cell_digit, digit, threats, valid_coeffs, MAX_COEFF_VALUE, N_COEFFS,
    STENCIL_SIZE,
};
use crate::player::PlayerColor;
use vstd::prelude::*;

verus! {

/// The index of the six cells ending at cell `i`: the sum of their digits (0 for empty, 1 for
/// black, 2 for white), so between 0 and 12.
pub open spec fn digit_sum_index(vals: Seq<Option<PlayerColor>>, i: int) -> int {
    digit(vals[i]) + digit(vals[i - 1]) + digit(vals[i - 2]) + digit(vals[i - 3]) + digit(vals[i - 4]) + digit(vals[i - 5])
}

/// Sum, over the cells `i >= 5` among the first `k`, of the coefficient at the digit sum of
/// the six cells ending at `i`.
pub open spec fn digit_sum_score(vals: Seq<Option<PlayerColor>>, coeffs: Seq<i64>, k: int) -> int
    decreases k,
{
    if k <= 0 {
        0
    } else {
        digit_sum_score(vals, coeffs, k - 1) + (if k - 1 >= 5 { coeffs[digit_sum_index(vals, k - 1)] as int } else { 0 })
    }
}

/// The values of the lines `0 .. n`: (summed coefficients, black threats, white threats).
pub open spec fn digit_sum_totals(board: Board, coeffs: Seq<i64>, n: int) -> (int, int, int)
    decreases n,
{
    if n <= 0 {
        (0, 0, 0)
    } else {
        let (h, bt, wt) = digit_sum_totals(board, coeffs, n - 1);
        let vals = line_values(board, line_spec(n - 1));
        (h + digit_sum_score(vals, coeffs, vals.len() as int), bt + threats(vals, true, vals.len() as int),
            wt + threats(vals, false, vals.len() as int))
    }
}

/// The heuristic with coefficients by digit sums: the coefficient of every 6-cell window of
/// every line, plus black's capture polynomial, minus white's.
pub open spec fn coeff_heuristic_spec(board: Board, black_captures: int, white_captures: int, coeffs: Seq<i64>) -> int {
    let (h, bt, wt) = digit_sum_totals(board, coeffs, N_LINES as int);
    h + capture_polynomial(coeffs, black_captures, bt) - capture_polynomial(coeffs, white_captures, wt)
}

/// Whether `v` is the given content.
fn is(v: Option<PlayerColor>, w: Option<PlayerColor>) -> (res: bool)
    ensures
        res == (v == w),
{
    same_cell(v, w)
}

/// Adds to the threat counters the capture threats of line `i`, and returns the sum of the
/// coefficients of its 6-cell windows, looked up by digit sum.
fn evaluate_patterns(
    board: &Board,
    i: usize,
    coeffs: &Vec<i64>,
    black_capture_threats: &mut i64,
    white_capture_threats: &mut i64,
) -> (res: i64)
    requires
        i < N_LINES,
        valid_coeffs(coeffs@),
        0 <= *old(black_capture_threats) <= 1_000_000,
        0 <= *old(white_capture_threats) <= 1_000_000,
    ensures
        ({
            let vals = line_values(*board, line_spec(i as int));
            &&& res == digit_sum_score(vals, coeffs@, vals.len() as int)
            &&& *final(black_capture_threats) == *old(black_capture_threats) + threats(vals, true, vals.len() as int)
            &&& *final(white_capture_threats) == *old(white_capture_threats) + threats(vals, false, vals.len() as int)
        }),
        -19 * MAX_COEFF_VALUE <= res <= 19 * MAX_COEFF_VALUE,
        *old(black_capture_threats) <= *final(black_capture_threats) <= *old(black_capture_threats) + 19,
        *old(white_capture_threats) <= *final(white_capture_threats) <= *old(white_capture_threats) + 19,
{
    let (_, _, len) = line(i);
    let ghost vals = line_values(*board, line_spec(i as int));
    let ghost bt0 = *black_capture_threats;
    let ghost wt0 = *white_capture_threats;
    let black = Some(PlayerColor::Black);
    let white = Some(PlayerColor::White);
    let mut h: i64 = 0;
    let mut p1: Option<PlayerColor> = None;
    let mut p2: Option<PlayerColor> = None;
    let mut p3: Option<PlayerColor> = None;
    let mut p4: Option<PlayerColor> = None;
    let mut p5: Option<PlayerColor> = None;
    let mut k: usize = 0;
    proof {
        crate::game::lines::lemma_line_on_board(i as int, 0);
    }
    while k < len
        invariant
            i < N_LINES,
            len == line_spec(i as int).2,
            len <= 19,
            vals == line_values(*board, line_spec(i as int)),
            vals.len() == len,
            valid_coeffs(coeffs@),
            k <= len,
            black == Some(PlayerColor::Black),
            white == Some(PlayerColor::White),
            k >= 1 ==> p1 == vals[k - 1],
            k >= 2 ==> p2 == vals[k - 2],
            k >= 3 ==> p3 == vals[k - 3],
            k >= 4 ==> p4 == vals[k - 4],
            k >= 5 ==> p5 == vals[k - 5],
            h == digit_sum_score(vals, coeffs@, k as int),
            -(k as int) * MAX_COEFF_VALUE <= h <= (k as int) * MAX_COEFF_VALUE,
            *black_capture_threats == bt0 + threats(vals, true, k as int),
            *white_capture_threats == wt0 + threats(vals, false, k as int),
            bt0 <= *black_capture_threats <= bt0 + k,
            wt0 <= *white_capture_threats <= wt0 + k,
            0 <= bt0 <= 1_000_000,
            0 <= wt0 <= 1_000_000,
        decreases len - k,
    {
        let v = line_value(board, i, k);
        if k >= 3 {
            if (is(p3, white) && is(p2, black) && is(p1, black) && is(v, None))
                || (is(p3, None) && is(p2, black) && is(p1, black) && is(v, white)) {
                *white_capture_threats += 1;
            }
            if (is(p3, black) && is(p2, white) && is(p1, white) && is(v, None))
                || (is(p3, None) && is(p2, white) && is(p1, white) && is(v, black)) {
                *black_capture_threats += 1;
            }
        }
        if k >= STENCIL_SIZE - 1 {
            let index = cell_digit(v) + cell_digit(p1) + cell_digit(p2) + cell_digit(p3) + cell_digit(p4) + cell_digit(p5);
            assert(index == digit_sum_index(vals, k as int));
            let c = coeffs[index];
            assert(-MAX_COEFF_VALUE <= coeffs@[index as int] <= MAX_COEFF_VALUE);
            h = h + c;
        }
        p5 = p4;
        p4 = p3;
        p3 = p2;
        p2 = p1;
        p1 = v;
        k += 1;
    }
    h
}

/// The heuristic with coefficients by digit sums (see `coeff_heuristic_spec`), with the
/// coefficients `coeffs`.
pub fn coeff_heuristic(game: &Game, coeffs: &Vec<i64>) -> (res: i64)
    requires
        valid_coeffs(coeffs@),
        game.black_captures <= 12,
        game.white_captures <= 12,
    ensures
        res == coeff_heuristic_spec(game.board, game.black_captures as int, game.white_captures as int, coeffs@),
        -4_000_000_000_000_000_000 <= res <= 4_000_000_000_000_000_000,
{
    let mut h: i64 = 0;
    let mut black_capture_threats: i64 = 0;
    let mut white_capture_threats: i64 = 0;
    let mut i: usize = 0;
    while i < N_LINES
        invariant
            i <= N_LINES,
            valid_coeffs(coeffs@),
            (h as int, black_capture_threats as int, white_capture_threats as int) == digit_sum_totals(game.board, coeffs@, i as int),
            -18_999_981 * (i as int) <= h <= 18_999_981 * (i as int),
            0 <= black_capture_threats <= 19 * i,
            0 <= white_capture_threats <= 19 * i,
        decreases N_LINES - i,
    {
        let score = evaluate_patterns(&game.board, i, coeffs, &mut black_capture_threats, &mut white_capture_threats);
        h = h + score;
        i += 1;
    }
    let black = capture_heuristic(coeffs, game.black_captures as i64, black_capture_threats);
    let white = capture_heuristic(coeffs, game.white_captures as i64, white_capture_threats);
    h + black - white
}

/// With every coefficient at zero, each line scores zero.
proof fn lemma_zero_score(vals: Seq<Option<PlayerColor>>, coeffs: Seq<i64>, k: int)
    requires
        coeffs.len() == N_COEFFS,
        forall|j: int| 0 <= j < N_COEFFS ==> #[trigger] coeffs[j] == 0,
    ensures
        digit_sum_score(vals, coeffs, k) == 0,
    decreases k,
{
    if k > 0 {
        lemma_zero_score(vals, coeffs, k - 1);
        if k - 1 >= 5 {
            let j = digit_sum_index(vals, k - 1);
            assert(0 <= j <= 12);
            assert(coeffs[j] == 0);
        }
    }
}

/// With every coefficient at zero, the lines add up to zero.
proof fn lemma_zero_totals(board: Board, coeffs: Seq<i64>, n: int)
    requires
        coeffs.len() == N_COEFFS,
        forall|j: int| 0 <= j < N_COEFFS ==> #[trigger] coeffs[j] == 0,
    ensures
        digit_sum_totals(board, coeffs, n).0 == 0,
    decreases n,
{
    if n > 0 {
        lemma_zero_totals(board, coeffs, n - 1);
        let vals = line_values(board, line_spec(n - 1));
        lemma_zero_score(vals, coeffs, vals.len() as int);
    }
}

/// With every coefficient at zero, the capture polynomial is zero.
proof fn lemma_zero_polynomial(coeffs: Seq<i64>, c: int, t: int)
    requires
        coeffs.len() == N_COEFFS,
        forall|j: int| 0 <= j < N_COEFFS ==> #[trigger] coeffs[j] == 0,
    ensures
        capture_polynomial(coeffs, c, t) == 0,
{
    assert(coeffs[729] == 0 && coeffs[730] == 0 && coeffs[731] == 0 && coeffs[732] == 0 && coeffs[733] == 0);
    assert(coeffs[734] == 0 && coeffs[735] == 0 && coeffs[736] == 0 && coeffs[737] == 0);
    assert(0 * c * c * c == 0 && 0 * c * c == 0 && 0 * t * t * t == 0 && 0 * t * t == 0
        && c * t * (0 + 0 * c + 0 * t) == 0) by (nonlinear_arith);
}

/// The genetic heuristic: the heuristic with coefficients by digit sums, with the trained
/// coefficients of the genetic search, which are all zero; so every position is worth 0.
pub fn genetic(game: &Game) -> (res: i64)
    requires
        game.black_captures <= 12,
        game.white_captures <= 12,
    ensures
        res == 0,
{
    let coeffs: Vec<i64> = vec![0; 738];
    proof {
        assert forall|j: int| 0 <= j < N_COEFFS implies #[trigger] coeffs@[j] == 0 by {}
        lemma_zero_totals(game.board, coeffs@, N_LINES as int);
        let (_, bt, wt) = digit_sum_totals(game.board, coeffs@, N_LINES as int);
        lemma_zero_polynomial(coeffs@, game.black_captures as int, bt);
        lemma_zero_polynomial(coeffs@, game.white_captures as int, wt);
    }
    coeff_heuristic(game, &coeffs)
}

} // verus!
