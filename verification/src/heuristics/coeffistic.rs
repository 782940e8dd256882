use crate::game::board::Board;
use crate::game::lines::{line, line_spec, line_value, line_values, N_LINES};
use crate::game::Game;
use crate::player::PlayerColor;
use vstd::prelude::*;

verus! {

/// Number of consecutive cells a pattern coefficient looks at.
pub const STENCIL_SIZE: usize = 6;

/// Number of patterns of `STENCIL_SIZE` cells (each empty, black or white).
pub const N_STENCIL_COEFFS: usize = 729;

/// Number of coefficients: one per pattern, then nine for the capture polynomial.
pub const N_COEFFS: usize = 738;

/// Largest magnitude of a coefficient.
pub const MAX_COEFF_VALUE: i64 = 999_999;

/// The digit of a cell in a pattern index: 0 for empty, 1 for black, 2 for white.
pub open spec fn digit(v: Option<PlayerColor>) -> int {
    match v {
        None => 0,
        Some(PlayerColor::Black) => 1,
        Some(PlayerColor::White) => 2,
    }
}

/// The pattern index of the six cells ending at cell `i`, the newest cell being the most
/// significant base-3 digit.
pub open spec fn window_index(vals: Seq<Option<PlayerColor>>, i: int) -> int {
    243 * digit(vals[i]) + 81 * digit(vals[i - 1]) + 27 * digit(vals[i - 2]) + 9 * digit(vals[i - 3])
        + 3 * digit(vals[i - 4]) + digit(vals[i - 5])
}

/// Sum, over the cells `i >= 5` among the first `k`, of the coefficient of the pattern ending at `i`.
pub open spec fn pattern_score(vals: Seq<Option<PlayerColor>>, coeffs: Seq<i64>, k: int) -> int
    decreases k,
{
    if k <= 0 {
        0
    } else {
        pattern_score(vals, coeffs, k - 1) + (if k - 1 >= 5 { coeffs[window_index(vals, k - 1)] as int } else { 0 })
    }
}

/// Cells `i - 3 .. i` read `a b c d`.
pub open spec fn reads(vals: Seq<Option<PlayerColor>>, i: int, a: Option<PlayerColor>, b: Option<PlayerColor>, c: Option<PlayerColor>, d: Option<PlayerColor>) -> bool {
    vals[i - 3] == a && vals[i - 2] == b && vals[i - 1] == c && vals[i] == d
}

/// Black can capture a white pair ending at cell `i`: `B W W .` or `. W W B`.
pub open spec fn black_threat_at(vals: Seq<Option<PlayerColor>>, i: int) -> bool {
    let b = Some(PlayerColor::Black);
    let w = Some(PlayerColor::White);
    i >= 3 && (reads(vals, i, b, w, w, None) || reads(vals, i, None, w, w, b))
}

/// White can capture a black pair ending at cell `i`: `W B B .` or `. B B W`.
pub open spec fn white_threat_at(vals: Seq<Option<PlayerColor>>, i: int) -> bool {
    let b = Some(PlayerColor::Black);
    let w = Some(PlayerColor::White);
    i >= 3 && (reads(vals, i, w, b, b, None) || reads(vals, i, None, b, b, w))
}

/// Number of capture threats among the first `k` cells (black's when `black`, else white's).
pub open spec fn threats(vals: Seq<Option<PlayerColor>>, black: bool, k: int) -> int
    decreases k,
{
    if k <= 0 {
        0
    } else {
        threats(vals, black, k - 1)
            + (if (black && black_threat_at(vals, k - 1)) || (!black && white_threat_at(vals, k - 1)) { 1int } else { 0 })
    }
}

/// The values of the lines `0 .. n` of the board, as (pattern score, black threats, white threats).
pub open spec fn lines_totals(board: Board, coeffs: Seq<i64>, n: int) -> (int, int, int)
    decreases n,
{
    if n <= 0 {
        (0, 0, 0)
    } else {
        let (h, bt, wt) = lines_totals(board, coeffs, n - 1);
        let vals = line_values(board, line_spec(n - 1));
        (h + pattern_score(vals, coeffs, vals.len() as int), bt + threats(vals, true, vals.len() as int),
            wt + threats(vals, false, vals.len() as int))
    }
}

/// The capture polynomial in the captures `c` and the capture threats `t` of one color.
pub open spec fn capture_polynomial(coeffs: Seq<i64>, c: int, t: int) -> int {
    let k = |j: int| coeffs[N_STENCIL_COEFFS + j] as int;
    k(0) * c * c * c + k(1) * c * c + k(2) * c + k(3) * t * t * t + k(4) * t * t + k(5) * t
        + c * t * (k(6) + k(7) * c + k(8) * t)
}

/// The coefficient heuristic: the coefficients of the 6-cell patterns of every line, plus
/// black's capture polynomial, minus white's.
pub open spec fn coeffistic_spec(board: Board, black_captures: int, white_captures: int, coeffs: Seq<i64>) -> int {
    let (h, bt, wt) = lines_totals(board, coeffs, N_LINES as int);
    h + capture_polynomial(coeffs, black_captures, bt) - capture_polynomial(coeffs, white_captures, wt)
}

/// The coefficients a heuristic accepts: one per pattern and nine for captures, each at most
/// `MAX_COEFF_VALUE` in magnitude.
pub open spec fn valid_coeffs(coeffs: Seq<i64>) -> bool {
    &&& coeffs.len() == N_COEFFS
    &&& forall|i: int| 0 <= i < N_COEFFS ==> -MAX_COEFF_VALUE <= #[trigger] coeffs[i] <= MAX_COEFF_VALUE
}

} // verus!

verus! {

/// Whether `coeffs` are coefficients a heuristic accepts (see `valid_coeffs`).
pub fn coeffs_are_valid(coeffs: &Vec<i64>) -> (res: bool)
    ensures
        res == valid_coeffs(coeffs@),
{
    if coeffs.len() != N_COEFFS {
        return false;
    }
    let mut i: usize = 0;
    while i < N_COEFFS
        invariant
            coeffs.len() == N_COEFFS,
            i <= N_COEFFS,
            forall|j: int| 0 <= j < i ==> -MAX_COEFF_VALUE <= #[trigger] coeffs@[j] <= MAX_COEFF_VALUE,
        decreases N_COEFFS - i,
    {
        if coeffs[i] < -MAX_COEFF_VALUE || coeffs[i] > MAX_COEFF_VALUE {
            return false;
        }
        i += 1;
    }
    true
}

/// The digit of a cell in a pattern index.
pub fn cell_digit(v: Option<PlayerColor>) -> (res: usize)
    ensures
        res == digit(v),
{
    match v {
        None => 0,
        Some(PlayerColor::Black) => 1,
        Some(PlayerColor::White) => 2,
    }
}

/// Whether `v` is the given content.
fn is(v: Option<PlayerColor>, w: Option<PlayerColor>) -> (res: bool)
    ensures
        res == (v == w),
{
    crate::game::board::same_cell(v, w)
}

/// Adds to the threat counters the capture threats of line `i`, and returns the sum of the
/// coefficients of its 6-cell patterns.
pub fn evaluate_patterns(
    board: &Board,
    i: usize,
    coeffs: &Vec<i64>,
    black_capture_threats: &mut i64,
    white_capture_threats: &mut i64,
) -> (res: i64)
    requires
        i < N_LINES,
        valid_coeffs(coeffs@),
        0 <= *old(black_capture_threats) <= 1_000_000,
        0 <= *old(white_capture_threats) <= 1_000_000,
    ensures
        ({
            let vals = line_values(*board, line_spec(i as int));
            &&& res == pattern_score(vals, coeffs@, vals.len() as int)
            &&& *final(black_capture_threats) == *old(black_capture_threats) + threats(vals, true, vals.len() as int)
            &&& *final(white_capture_threats) == *old(white_capture_threats) + threats(vals, false, vals.len() as int)
        }),
        -19 * MAX_COEFF_VALUE <= res <= 19 * MAX_COEFF_VALUE,
        *old(black_capture_threats) <= *final(black_capture_threats) <= *old(black_capture_threats) + 19,
        *old(white_capture_threats) <= *final(white_capture_threats) <= *old(white_capture_threats) + 19,
{
    let (_, _, len) = line(i);
    let ghost vals = line_values(*board, line_spec(i as int));
    let ghost bt0 = *black_capture_threats;
    let ghost wt0 = *white_capture_threats;
    let black = Some(PlayerColor::Black);
    let white = Some(PlayerColor::White);
    let mut h: i64 = 0;
    let mut p1: Option<PlayerColor> = None;
    let mut p2: Option<PlayerColor> = None;
    let mut p3: Option<PlayerColor> = None;
    let mut p4: Option<PlayerColor> = None;
    let mut p5: Option<PlayerColor> = None;
    let mut k: usize = 0;
    proof {
        crate::game::lines::lemma_line_on_board(i as int, 0);
    }
    while k < len
        invariant
            i < N_LINES,
            len == line_spec(i as int).2,
            len <= 19,
            vals == line_values(*board, line_spec(i as int)),
            vals.len() == len,
            valid_coeffs(coeffs@),
            k <= len,
            black == Some(PlayerColor::Black),
            white == Some(PlayerColor::White),
            k >= 1 ==> p1 == vals[k - 1],
            k >= 2 ==> p2 == vals[k - 2],
            k >= 3 ==> p3 == vals[k - 3],
            k >= 4 ==> p4 == vals[k - 4],
            k >= 5 ==> p5 == vals[k - 5],
            h == pattern_score(vals, coeffs@, k as int),
            -(k as int) * MAX_COEFF_VALUE <= h <= (k as int) * MAX_COEFF_VALUE,
            *black_capture_threats == bt0 + threats(vals, true, k as int),
            *white_capture_threats == wt0 + threats(vals, false, k as int),
            bt0 <= *black_capture_threats <= bt0 + k,
            wt0 <= *white_capture_threats <= wt0 + k,
            0 <= bt0 <= 1_000_000,
            0 <= wt0 <= 1_000_000,
        decreases len - k,
    {
        let v = line_value(board, i, k);
        if k >= 3 {
            if (is(p3, black) && is(p2, white) && is(p1, white) && is(v, None))
                || (is(p3, None) && is(p2, white) && is(p1, white) && is(v, black)) {
                *black_capture_threats += 1;
            }
            if (is(p3, white) && is(p2, black) && is(p1, black) && is(v, None))
                || (is(p3, None) && is(p2, black) && is(p1, black) && is(v, white)) {
                *white_capture_threats += 1;
            }
        }
        if k >= STENCIL_SIZE - 1 {
            let index = 243 * cell_digit(v) + 81 * cell_digit(p1) + 27 * cell_digit(p2) + 9 * cell_digit(p3)
                + 3 * cell_digit(p4) + cell_digit(p5);
            assert(index == window_index(vals, k as int));
            let c = coeffs[index];
            assert(-MAX_COEFF_VALUE <= coeffs@[index as int] <= MAX_COEFF_VALUE);
            h = h + c;
        }
        p5 = p4;
        p4 = p3;
        p3 = p2;
        p2 = p1;
        p1 = v;
        k += 1;
    }
    h
}

} // verus!

verus! {

/// Bound on a product of a coefficient and up to three bounded factors.
pub proof fn lemma_term_bound(k: int, a: int, b: int, c: int, bound: int)
    requires
        -MAX_COEFF_VALUE <= k <= MAX_COEFF_VALUE,
        0 <= a <= bound,
        0 <= b <= bound,
        0 <= c <= bound,
        0 <= bound,
    ensures
        -(MAX_COEFF_VALUE * (bound * bound * bound)) <= k * a * b * c <= MAX_COEFF_VALUE * (bound * bound * bound),
        -(MAX_COEFF_VALUE * (bound * bound)) <= k * a * b <= MAX_COEFF_VALUE * (bound * bound),
        -(MAX_COEFF_VALUE * bound) <= k * a <= MAX_COEFF_VALUE * bound,
{
    let m = MAX_COEFF_VALUE as int;
    assert(0 <= a * b <= bound * bound) by (nonlinear_arith)
        requires 0 <= a <= bound, 0 <= b <= bound;
    assert(0 <= a * b * c <= bound * bound * bound) by (nonlinear_arith)
        requires 0 <= a * b <= bound * bound, 0 <= c <= bound, 0 <= bound;
    assert(-(m * (bound * bound * bound)) <= k * (a * b * c) <= m * (bound * bound * bound)) by (nonlinear_arith)
        requires -m <= k <= m, 0 <= a * b * c <= bound * bound * bound;
    assert(-(m * (bound * bound)) <= k * (a * b) <= m * (bound * bound)) by (nonlinear_arith)
        requires -m <= k <= m, 0 <= a * b <= bound * bound;
    assert(-(m * bound) <= k * a <= m * bound) by (nonlinear_arith)
        requires -m <= k <= m, 0 <= a <= bound;
    assert(k * a * b * c == k * (a * b * c)) by (nonlinear_arith);
    assert(k * a * b == k * (a * b)) by (nonlinear_arith);
}

/// The capture polynomial of one color: `c` captured pairs and `t` capture threats.
pub fn capture_heuristic(coeffs: &Vec<i64>, c: i64, t: i64) -> (res: i64)
    requires
        valid_coeffs(coeffs@),
        0 <= c <= 5000,
        0 <= t <= 5000,
    ensures
        res == capture_polynomial(coeffs@, c as int, t as int),
        -9 * (MAX_COEFF_VALUE * 5000 * 5000 * 5000) <= res <= 9 * (MAX_COEFF_VALUE * 5000 * 5000 * 5000),
{
    let i = N_STENCIL_COEFFS;
    let k0 = coeffs[i];
    let k1 = coeffs[i + 1];
    let k2 = coeffs[i + 2];
    let k3 = coeffs[i + 3];
    let k4 = coeffs[i + 4];
    let k5 = coeffs[i + 5];
    let k6 = coeffs[i + 6];
    let k7 = coeffs[i + 7];
    let k8 = coeffs[i + 8];
    proof {
        assert(-MAX_COEFF_VALUE <= coeffs@[i as int] <= MAX_COEFF_VALUE);
        assert(-MAX_COEFF_VALUE <= coeffs@[i + 1] <= MAX_COEFF_VALUE);
        assert(-MAX_COEFF_VALUE <= coeffs@[i + 2] <= MAX_COEFF_VALUE);
        assert(-MAX_COEFF_VALUE <= coeffs@[i + 3] <= MAX_COEFF_VALUE);
        assert(-MAX_COEFF_VALUE <= coeffs@[i + 4] <= MAX_COEFF_VALUE);
        assert(-MAX_COEFF_VALUE <= coeffs@[i + 5] <= MAX_COEFF_VALUE);
        assert(-MAX_COEFF_VALUE <= coeffs@[i + 6] <= MAX_COEFF_VALUE);
        assert(-MAX_COEFF_VALUE <= coeffs@[i + 7] <= MAX_COEFF_VALUE);
        assert(-MAX_COEFF_VALUE <= coeffs@[i + 8] <= MAX_COEFF_VALUE);
        lemma_term_bound(k0 as int, c as int, c as int, c as int, 5000);
        lemma_term_bound(k1 as int, c as int, c as int, c as int, 5000);
        lemma_term_bound(k2 as int, c as int, c as int, c as int, 5000);
        lemma_term_bound(k3 as int, t as int, t as int, t as int, 5000);
        lemma_term_bound(k4 as int, t as int, t as int, t as int, 5000);
        lemma_term_bound(k5 as int, t as int, t as int, t as int, 5000);
        lemma_term_bound(k7 as int, c as int, c as int, c as int, 5000);
        lemma_term_bound(k8 as int, t as int, t as int, t as int, 5000);
        assert(0 <= c * t <= 5000 * 5000) by (nonlinear_arith)
            requires 0 <= c <= 5000, 0 <= t <= 5000;
        let inner = k6 + k7 * c + k8 * t;
        assert(-3 * MAX_COEFF_VALUE * 5000 <= inner <= 3 * MAX_COEFF_VALUE * 5000);
        assert(-(3 * MAX_COEFF_VALUE * 5000) * (5000 * 5000) <= (c * t) * inner <= (3 * MAX_COEFF_VALUE * 5000) * (5000 * 5000))
            by (nonlinear_arith)
            requires 0 <= c * t <= 5000 * 5000, -3 * MAX_COEFF_VALUE * 5000 <= inner <= 3 * MAX_COEFF_VALUE * 5000;
        assert(c * t * inner == (c * t) * inner) by (nonlinear_arith);
    }
    let h_captures = k0 * c * c * c + k1 * c * c + k2 * c;
    let h_threats = k3 * t * t * t + k4 * t * t + k5 * t;
    let cross_terms = c * t * (k6 + k7 * c + k8 * t);
    h_captures + h_threats + cross_terms
}

/// The coefficient heuristic of `game`: the coefficients of the 6-cell patterns of every
/// line, plus black's capture polynomial, minus white's.
pub fn coeffistic(game: &Game, coeffs: Option<&Vec<i64>>) -> (res: i64)
    requires
        coeffs is Some,
        valid_coeffs(coeffs.unwrap()@),
        game.black_captures <= 12,
        game.white_captures <= 12,
    ensures
        res == coeffistic_spec(game.board, game.black_captures as int, game.white_captures as int, coeffs.unwrap()@),
        -4_000_000_000_000_000_000 <= res <= 4_000_000_000_000_000_000,
{
    let coeffs = coeffs.unwrap();
    let mut h: i64 = 0;
    let mut black_capture_threats: i64 = 0;
    let mut white_capture_threats: i64 = 0;
    let mut i: usize = 0;
    while i < N_LINES
        invariant
            i <= N_LINES,
            valid_coeffs(coeffs@),
            (h as int, black_capture_threats as int, white_capture_threats as int) == lines_totals(game.board, coeffs@, i as int),
            -18_999_981 * (i as int) <= h <= 18_999_981 * (i as int),
            0 <= black_capture_threats <= 19 * i,
            0 <= white_capture_threats <= 19 * i,
        decreases N_LINES - i,
    {
        let score = evaluate_patterns(&game.board, i, coeffs, &mut black_capture_threats, &mut white_capture_threats);
        h = h + score;
        i += 1;
    }
    let black = capture_heuristic(coeffs, game.black_captures as i64, black_capture_threats);
    let white = capture_heuristic(coeffs, game.white_captures as i64, white_capture_threats);
    h + black - white
}

/// `c` is `a` plus `b`, coefficient by coefficient.
pub open spec fn sum_of_coeffs(c: Seq<i64>, a: Seq<i64>, b: Seq<i64>) -> bool {
    &&& c.len() == a.len() == b.len() == N_COEFFS
    &&& forall|i: int| 0 <= i < N_COEFFS ==> #[trigger] c[i] == a[i] + b[i]
}

/// The pattern scores of a line add up with the coefficients.
proof fn lemma_pattern_score_linear(vals: Seq<Option<PlayerColor>>, c: Seq<i64>, a: Seq<i64>, b: Seq<i64>, k: int)
    requires
        sum_of_coeffs(c, a, b),
        k <= vals.len(),
    ensures
        pattern_score(vals, c, k) == pattern_score(vals, a, k) + pattern_score(vals, b, k),
    decreases k,
{
    if k > 0 {
        lemma_pattern_score_linear(vals, c, a, b, k - 1);
        if k - 1 >= 5 {
            let i = window_index(vals, k - 1);
            assert(0 <= i < N_COEFFS);
            assert(c[i] == a[i] + b[i]);
        }
    }
}

/// The pattern totals of the lines add up with the coefficients; the threat counts do not
/// depend on them.
proof fn lemma_lines_totals_linear(board: Board, c: Seq<i64>, a: Seq<i64>, b: Seq<i64>, n: int)
    requires
        sum_of_coeffs(c, a, b),
    ensures
        lines_totals(board, c, n).0 == lines_totals(board, a, n).0 + lines_totals(board, b, n).0,
        lines_totals(board, c, n).1 == lines_totals(board, a, n).1,
        lines_totals(board, c, n).2 == lines_totals(board, a, n).2,
        lines_totals(board, b, n).1 == lines_totals(board, a, n).1,
        lines_totals(board, b, n).2 == lines_totals(board, a, n).2,
    decreases n,
{
    if n > 0 {
        lemma_lines_totals_linear(board, c, a, b, n - 1);
        let vals = line_values(board, line_spec(n - 1));
        lemma_pattern_score_linear(vals, c, a, b, vals.len() as int);
    }
}

/// The capture polynomial adds up with the coefficients.
proof fn lemma_capture_polynomial_linear(c: Seq<i64>, a: Seq<i64>, b: Seq<i64>, x: int, t: int)
    requires
        sum_of_coeffs(c, a, b),
    ensures
        capture_polynomial(c, x, t) == capture_polynomial(a, x, t) + capture_polynomial(b, x, t),
{
    let ka = |j: int| a[N_STENCIL_COEFFS + j] as int;
    let kb = |j: int| b[N_STENCIL_COEFFS + j] as int;
    assert forall|j: int| 0 <= j < 9 implies c[N_STENCIL_COEFFS + j] == #[trigger] ka(j) + kb(j) by {
        assert(c[N_STENCIL_COEFFS + j] == a[N_STENCIL_COEFFS + j] + b[N_STENCIL_COEFFS + j]);
    }
    let (a0, a1, a2, a3, a4, a5, a6, a7, a8) = (ka(0), ka(1), ka(2), ka(3), ka(4), ka(5), ka(6), ka(7), ka(8));
    let (b0, b1, b2, b3, b4, b5, b6, b7, b8) = (kb(0), kb(1), kb(2), kb(3), kb(4), kb(5), kb(6), kb(7), kb(8));
    assert((a0 + b0) * x * x * x == a0 * x * x * x + b0 * x * x * x) by (nonlinear_arith);
    assert((a1 + b1) * x * x == a1 * x * x + b1 * x * x) by (nonlinear_arith);
    assert((a2 + b2) * x == a2 * x + b2 * x) by (nonlinear_arith);
    assert((a3 + b3) * t * t * t == a3 * t * t * t + b3 * t * t * t) by (nonlinear_arith);
    assert((a4 + b4) * t * t == a4 * t * t + b4 * t * t) by (nonlinear_arith);
    assert((a5 + b5) * t == a5 * t + b5 * t) by (nonlinear_arith);
    assert((a7 + b7) * x == a7 * x + b7 * x) by (nonlinear_arith);
    assert((a8 + b8) * t == a8 * t + b8 * t) by (nonlinear_arith);
    let u = (a6 + a7 * x + a8 * t);
    let v = (b6 + b7 * x + b8 * t);
    assert(x * t * (u + v) == x * t * u + x * t * v) by (nonlinear_arith);
}

/// The coefficient heuristic is linear in its coefficients: with coefficients that are the
/// sum of two others, a position is worth the sum of what it is worth with each.
pub proof fn lemma_coeffistic_linear(board: Board, black_captures: int, white_captures: int, c: Seq<i64>, a: Seq<i64>, b: Seq<i64>)
    requires
        sum_of_coeffs(c, a, b),
    ensures
        coeffistic_spec(board, black_captures, white_captures, c) == coeffistic_spec(board, black_captures, white_captures, a)
            + coeffistic_spec(board, black_captures, white_captures, b),
{
    lemma_lines_totals_linear(board, c, a, b, N_LINES as int);
    let (h, bt, wt) = lines_totals(board, a, N_LINES as int);
    lemma_capture_polynomial_linear(c, a, b, black_captures, bt);
    lemma_capture_polynomial_linear(c, a, b, white_captures, wt);
}

} // verus!
