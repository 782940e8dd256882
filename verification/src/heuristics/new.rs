use crate::game::lines::N_LINES;
use crate::game::logic::{lemma_dist_sum_bound, valid_game, GameView};
use crate::game::Game;
use crate::heuristics::patterns::{board_shapes, board_threats, fill_patterns, PatternCounts, Shape};
use crate::heuristics::runs::{board_runs, combos_bounded, fill_combos, Combos};
use crate::player::PlayerColor;
use vstd::prelude::*;

verus! {

/// `a / d` rounded toward zero, as integer division does.
pub open spec fn trunc_div(a: int, d: int) -> int {
    if a >= 0 { a / d } else { -((-a) / d) }
}

/// Runs of black stones minus runs of white stones of length `l` and openness `o`, over the
/// whole board.
pub open spec fn combo_diff(g: GameView, l: int, o: int) -> int {
    board_runs(g.board, PlayerColor::Black, l, o, N_LINES as int) - board_runs(g.board, PlayerColor::White, l, o, N_LINES as int)
}

/// Black's occurrences of `shape` minus white's, over the whole board.
pub open spec fn shape_diff(g: GameView, shape: Shape) -> int {
    board_shapes(g.board, shape, PlayerColor::Black, N_LINES as int) - board_shapes(g.board, shape, PlayerColor::White, N_LINES as int)
}

/// The part of the hand-written heuristics that does not look at the lines: the distance of
/// the stones to the center (an eighth, rounded toward zero) and the cubes of the captures.
pub open spec fn base_value(g: GameView) -> int {
    trunc_div(g.white_dist_to_center - g.black_dist_to_center, 8)
        + (g.black_captures * g.black_captures * g.black_captures - g.white_captures * g.white_captures * g.white_captures) * 3
}

/// Black's runs minus white's, of length `l` and openness `o`, as the counters hold them.
pub open spec fn counted_diff(black: Combos, white: Combos, l: int, o: int) -> int {
    black[l][o] - white[l][o]
}

/// The weighted sum of the run counters: a run of five or more counts alike whatever its
/// openness is, shorter runs count more when they are longer and more open.
pub open spec fn weighted_combos(black: Combos, white: Combos) -> int {
    let d = |l: int, o: int| counted_diff(black, white, l, o);
    (d(5, 0) + d(6, 0) + d(7, 0) + d(8, 0) + d(9, 0)) * 32768
        + d(2, 1) * 32 + d(3, 1) * 243 + d(4, 1) * 1024 + d(5, 1) * 6250
        + d(6, 1) * 15552 + d(7, 1) * 33614 + d(8, 1) * 65536 + d(9, 1) * 118098
        + d(2, 2) * 96 + d(3, 2) * 729 + d(4, 2) * 3072 + d(5, 2) * 9375
        + d(6, 2) * 23328 + d(7, 2) * 50421 + d(8, 2) * 98304 + d(9, 2) * 177147
}

/// The runs of stones of the board, black's minus white's, in an array per color.
pub open spec fn board_combos(g: GameView, c: PlayerColor) -> Combos {
    let row = |l: int| [
        board_runs(g.board, c, l, 0, N_LINES as int) as i64,
        board_runs(g.board, c, l, 1, N_LINES as int) as i64,
        board_runs(g.board, c, l, 2, N_LINES as int) as i64,
    ];
    [row(0), row(1), row(2), row(3), row(4), row(5), row(6), row(7), row(8), row(9)]
}

/// The weighted shapes: black's minus white's, except for locked fours, which count for the
/// opponent.
pub open spec fn shapes_score(g: GameView) -> int {
    shape_diff(g, Shape::OpenTwoOne) * 1152
        + shape_diff(g, Shape::TwoTwo) * 512
        + shape_diff(g, Shape::OneOneOne) * 128
        + shape_diff(g, Shape::ThreeOne) * 64
        - shape_diff(g, Shape::LockedFour) * 384
}

/// The hand-written heuristic: `base_value`, capture threats, runs of stones weighted by
/// their length and openness, and the shapes of `Shape`.
pub open spec fn new_spec(g: GameView) -> int {
    base_value(g)
        + (board_threats(g.board, true, N_LINES as int) - board_threats(g.board, false, N_LINES as int)) * 200
        + weighted_combos(board_combos(g, PlayerColor::Black), board_combos(g, PlayerColor::White))
        + shapes_score(g)
}

/// What the hand-written heuristics ask of a game: few captures, and summed distances to the
/// center that a board can have.
pub open spec fn evaluable(g: GameView) -> bool {
    &&& g.black_captures <= 12
    &&& g.white_captures <= 12
    &&& g.black_dist_to_center <= 6498
    &&& g.white_dist_to_center <= 6498
}

/// A well-formed game can be evaluated.
pub proof fn lemma_valid_evaluable(g: GameView)
    requires
        valid_game(g),
    ensures
        evaluable(g),
{
    lemma_dist_sum_bound(g.board, PlayerColor::Black, 361);
    lemma_dist_sum_bound(g.board, PlayerColor::White, 361);
}

/// Counts the runs of stones of every line, by color, length and openness.
pub fn count_combos(game: &Game) -> (res: (Combos, Combos))
    ensures
        forall|l: int, o: int| 0 <= l < 10 && 0 <= o < 3 ==> #[trigger] res.0[l][o]
            == board_runs(game.board, PlayerColor::Black, l, o, N_LINES as int),
        forall|l: int, o: int| 0 <= l < 10 && 0 <= o < 3 ==> #[trigger] res.1[l][o]
            == board_runs(game.board, PlayerColor::White, l, o, N_LINES as int),
        combos_bounded(res.0, 19 * N_LINES),
        combos_bounded(res.1, 19 * N_LINES),
{
    let mut black_combos: Combos = [[0; 3]; 10];
    let mut white_combos: Combos = [[0; 3]; 10];
    let mut i: usize = 0;
    while i < N_LINES
        invariant
            i <= N_LINES,
            forall|l: int, o: int| 0 <= l < 10 && 0 <= o < 3 ==> #[trigger] black_combos[l][o]
                == board_runs(game.board, PlayerColor::Black, l, o, i as int),
            forall|l: int, o: int| 0 <= l < 10 && 0 <= o < 3 ==> #[trigger] white_combos[l][o]
                == board_runs(game.board, PlayerColor::White, l, o, i as int),
            combos_bounded(black_combos, 19 * i),
            combos_bounded(white_combos, 19 * i),
        decreases N_LINES - i,
    {
        fill_combos(&game.board, i, &mut black_combos, &mut white_combos);
        i += 1;
    }
    (black_combos, white_combos)
}

/// Counts the shapes and capture threats of every line.
pub fn count_patterns(game: &Game) -> (res: PatternCounts)
    ensures
        forall|shape: Shape, c: PlayerColor| #[trigger] res.shape_count(shape, c)
            == board_shapes(game.board, shape, c, N_LINES as int),
        res.black_capture_threats == board_threats(game.board, true, N_LINES as int),
        res.white_capture_threats == board_threats(game.board, false, N_LINES as int),
        res.bounded(19 * N_LINES),
{
    let mut counts = PatternCounts::zero();
    let mut i: usize = 0;
    while i < N_LINES
        invariant
            i <= N_LINES,
            forall|shape: Shape, c: PlayerColor| #[trigger] counts.shape_count(shape, c)
                == board_shapes(game.board, shape, c, i as int),
            counts.black_capture_threats == board_threats(game.board, true, i as int),
            counts.white_capture_threats == board_threats(game.board, false, i as int),
            counts.bounded(19 * i),
        decreases N_LINES - i,
    {
        fill_patterns(&game.board, i, &mut counts);
        i += 1;
    }
    counts
}

/// The weighted sum of the run counters (see `weighted_combos`).
pub fn combos_score(black: &Combos, white: &Combos) -> (res: i64)
    requires
        combos_bounded(*black, 19 * N_LINES),
        combos_bounded(*white, 19 * N_LINES),
    ensures
        res == weighted_combos(*black, *white),
        -2_000_000_000 <= res <= 2_000_000_000,
{
    let d = |l: usize, o: usize| -> (r: i64)
        requires
            l < 10,
            o < 3,
        ensures
            r == counted_diff(*black, *white, l as int, o as int),
    { black[l][o] - white[l][o] };
    let mut h: i64 = (d(5, 0) + d(6, 0) + d(7, 0) + d(8, 0) + d(9, 0)) * 32768;
    h = h + d(2, 1) * 32 + d(3, 1) * 243 + d(4, 1) * 1024 + d(5, 1) * 6250;
    h = h + d(6, 1) * 15552 + d(7, 1) * 33614 + d(8, 1) * 65536 + d(9, 1) * 118098;
    h = h + d(2, 2) * 96 + d(3, 2) * 729 + d(4, 2) * 3072 + d(5, 2) * 9375;
    h = h + d(6, 2) * 23328 + d(7, 2) * 50421 + d(8, 2) * 98304 + d(9, 2) * 177147;
    h
}

/// The counters that `count_combos` returns are `board_combos`.
pub proof fn lemma_board_combos(g: GameView, c: PlayerColor, combos: Combos)
    requires
        forall|l: int, o: int| 0 <= l < 10 && 0 <= o < 3 ==> #[trigger] combos[l][o]
            == board_runs(g.board, c, l, o, N_LINES as int),
    ensures
        combos == board_combos(g, c),
{
    let b = board_combos(g, c);
    assert forall|l: int, o: int| 0 <= l < 10 && 0 <= o < 3 implies #[trigger] combos[l][o] == b[l][o] by {
        assert(combos[l][o] == board_runs(g.board, c, l, o, N_LINES as int));
    }
    assert forall|l: int| 0 <= l < 10 implies #[trigger] combos[l] == b[l] by {
        assert(combos[l]@ =~= b[l]@);
    }
    assert(combos@ =~= b@);
}

/// The weighted shapes (see `shapes_score`).
fn shapes_part(counts: &PatternCounts, game: &Game) -> (res: i64)
    requires
        counts.bounded(19 * N_LINES),
        forall|shape: Shape, c: PlayerColor| #[trigger] counts.shape_count(shape, c)
            == board_shapes(game.board, shape, c, N_LINES as int),
    ensures
        res == shapes_score(game@),
        -10_000_000 <= res <= 10_000_000,
{
    proof {
        assert(counts.shape_count(Shape::OpenTwoOne, PlayerColor::Black) == board_shapes(game.board, Shape::OpenTwoOne, PlayerColor::Black, N_LINES as int));
        assert(counts.shape_count(Shape::OpenTwoOne, PlayerColor::White) == board_shapes(game.board, Shape::OpenTwoOne, PlayerColor::White, N_LINES as int));
        assert(counts.shape_count(Shape::TwoTwo, PlayerColor::Black) == board_shapes(game.board, Shape::TwoTwo, PlayerColor::Black, N_LINES as int));
        assert(counts.shape_count(Shape::TwoTwo, PlayerColor::White) == board_shapes(game.board, Shape::TwoTwo, PlayerColor::White, N_LINES as int));
        assert(counts.shape_count(Shape::OneOneOne, PlayerColor::Black) == board_shapes(game.board, Shape::OneOneOne, PlayerColor::Black, N_LINES as int));
        assert(counts.shape_count(Shape::OneOneOne, PlayerColor::White) == board_shapes(game.board, Shape::OneOneOne, PlayerColor::White, N_LINES as int));
        assert(counts.shape_count(Shape::ThreeOne, PlayerColor::Black) == board_shapes(game.board, Shape::ThreeOne, PlayerColor::Black, N_LINES as int));
        assert(counts.shape_count(Shape::ThreeOne, PlayerColor::White) == board_shapes(game.board, Shape::ThreeOne, PlayerColor::White, N_LINES as int));
        assert(counts.shape_count(Shape::LockedFour, PlayerColor::Black) == board_shapes(game.board, Shape::LockedFour, PlayerColor::Black, N_LINES as int));
        assert(counts.shape_count(Shape::LockedFour, PlayerColor::White) == board_shapes(game.board, Shape::LockedFour, PlayerColor::White, N_LINES as int));
    }
    let mut h: i64 = (counts.black_open_xx_x - counts.white_open_xx_x) * 1152;
    h = h + (counts.black_xx_xx - counts.white_xx_xx) * 512;
    h = h + (counts.black_x_x_x - counts.white_x_x_x) * 128;
    h = h + (counts.black_xxx_x - counts.white_xxx_x) * 64;
    h = h + (counts.white_locked_4 - counts.black_locked_4) * 384;
    h
}

/// The part of the hand-written heuristics that does not look at the lines (see `base_value`).
pub fn base_part(game: &Game) -> (res: i64)
    requires
        evaluable(game@),
    ensures
        res == base_value(game@),
        -7000 <= res <= 7000,
{
    let mut h: i64 = (game.white_dist_to_center as i64 - game.black_dist_to_center as i64) / 8;
    let b = game.black_captures as i64;
    let w = game.white_captures as i64;
    assert(0 <= b * b <= 144 && 0 <= w * w <= 144 && 0 <= b * b * b <= 1728 && 0 <= w * w * w <= 1728)
        by (nonlinear_arith)
        requires
            0 <= b <= 12,
            0 <= w <= 12,
    ;
    h = h + (b * b * b - w * w * w) * 3;
    h
}

/// The hand-written heuristic of `game` (see `new_spec`). Runs of ten stones or more are not
/// counted.
pub fn new(game: &Game) -> (res: i64)
    requires
        evaluable(game@),
    ensures
        res == new_spec(game@),
        -100_000_000_000 <= res <= 100_000_000_000,
{
    let ghost g = game@;
    let (black_combos, white_combos) = count_combos(game);
    let counts = count_patterns(game);
    proof {
        lemma_board_combos(g, PlayerColor::Black, black_combos);
        lemma_board_combos(g, PlayerColor::White, white_combos);
    }
    let base = base_part(game);
    let threats = (counts.black_capture_threats - counts.white_capture_threats) * 200;
    let combos = combos_score(&black_combos, &white_combos);
    let shapes = shapes_part(&counts, game);
    base + threats + combos + shapes
}

/// A locked four (a row of four stones shut in by two opponent stones) counts against its
/// owner: of two positions that differ only in that one has one more locked black four, it
/// scores 384 less, and of two that differ only in one more locked white four, 384 more.
pub proof fn lemma_locked_four_counts_for_opponent(g1: GameView, g2: GameView, black: bool)
    requires
        g2.black_captures == g1.black_captures,
        g2.white_captures == g1.white_captures,
        g2.black_dist_to_center == g1.black_dist_to_center,
        g2.white_dist_to_center == g1.white_dist_to_center,
        board_threats(g2.board, true, N_LINES as int) == board_threats(g1.board, true, N_LINES as int),
        board_threats(g2.board, false, N_LINES as int) == board_threats(g1.board, false, N_LINES as int),
        forall|c: PlayerColor, l: int, o: int| #[trigger] board_runs(g2.board, c, l, o, N_LINES as int)
            == board_runs(g1.board, c, l, o, N_LINES as int),
        forall|shape: Shape, c: PlayerColor| shape != Shape::LockedFour
            ==> #[trigger] board_shapes(g2.board, shape, c, N_LINES as int) == board_shapes(g1.board, shape, c, N_LINES as int),
        board_shapes(g2.board, Shape::LockedFour, PlayerColor::Black, N_LINES as int)
            == board_shapes(g1.board, Shape::LockedFour, PlayerColor::Black, N_LINES as int) + (if black { 1int } else { 0int }),
        board_shapes(g2.board, Shape::LockedFour, PlayerColor::White, N_LINES as int)
            == board_shapes(g1.board, Shape::LockedFour, PlayerColor::White, N_LINES as int) + (if black { 0int } else { 1int }),
    ensures
        new_spec(g2) == new_spec(g1) + (if black { -384int } else { 384int }),
{
    lemma_one_more_shape(g1, g2, Shape::LockedFour, black);
}

/// The weight of one shape of `Shape` for its owner in the hand-written heuristic: the
/// broken and split threes and twos count for their owner, a locked four against it.
pub open spec fn shape_weight(shape: Shape) -> int {
    match shape {
        Shape::OpenTwoOne => 1152,
        Shape::TwoTwo => 512,
        Shape::OneOneOne => 128,
        Shape::ThreeOne => 64,
        Shape::LockedFour => -384,
    }
}

/// Each shape moves the heuristic by its weight: of two positions that differ only in one
/// more shape `shape` of black, the second scores `shape_weight(shape)` more; of two that
/// differ only in one more such shape of white, it scores that much less.
pub proof fn lemma_one_more_shape(g1: GameView, g2: GameView, shape: Shape, black: bool)
    requires
        g2.black_captures == g1.black_captures,
        g2.white_captures == g1.white_captures,
        g2.black_dist_to_center == g1.black_dist_to_center,
        g2.white_dist_to_center == g1.white_dist_to_center,
        board_threats(g2.board, true, N_LINES as int) == board_threats(g1.board, true, N_LINES as int),
        board_threats(g2.board, false, N_LINES as int) == board_threats(g1.board, false, N_LINES as int),
        forall|c: PlayerColor, l: int, o: int| #[trigger] board_runs(g2.board, c, l, o, N_LINES as int)
            == board_runs(g1.board, c, l, o, N_LINES as int),
        forall|sh: Shape, c: PlayerColor| sh != shape
            ==> #[trigger] board_shapes(g2.board, sh, c, N_LINES as int) == board_shapes(g1.board, sh, c, N_LINES as int),
        board_shapes(g2.board, shape, PlayerColor::Black, N_LINES as int)
            == board_shapes(g1.board, shape, PlayerColor::Black, N_LINES as int) + (if black { 1int } else { 0int }),
        board_shapes(g2.board, shape, PlayerColor::White, N_LINES as int)
            == board_shapes(g1.board, shape, PlayerColor::White, N_LINES as int) + (if black { 0int } else { 1int }),
    ensures
        new_spec(g2) == new_spec(g1) + (if black { shape_weight(shape) } else { -shape_weight(shape) }),
{
    assert(board_combos(g2, PlayerColor::Black) =~= board_combos(g1, PlayerColor::Black));
    assert(board_combos(g2, PlayerColor::White) =~= board_combos(g1, PlayerColor::White));
    assert(board_shapes(g2.board, Shape::OpenTwoOne, PlayerColor::Black, N_LINES as int) == board_shapes(g1.board, Shape::OpenTwoOne, PlayerColor::Black, N_LINES as int) || shape == Shape::OpenTwoOne);
    assert(board_shapes(g2.board, Shape::OpenTwoOne, PlayerColor::White, N_LINES as int) == board_shapes(g1.board, Shape::OpenTwoOne, PlayerColor::White, N_LINES as int) || shape == Shape::OpenTwoOne);
    assert(board_shapes(g2.board, Shape::TwoTwo, PlayerColor::Black, N_LINES as int) == board_shapes(g1.board, Shape::TwoTwo, PlayerColor::Black, N_LINES as int) || shape == Shape::TwoTwo);
    assert(board_shapes(g2.board, Shape::TwoTwo, PlayerColor::White, N_LINES as int) == board_shapes(g1.board, Shape::TwoTwo, PlayerColor::White, N_LINES as int) || shape == Shape::TwoTwo);
    assert(board_shapes(g2.board, Shape::OneOneOne, PlayerColor::Black, N_LINES as int) == board_shapes(g1.board, Shape::OneOneOne, PlayerColor::Black, N_LINES as int) || shape == Shape::OneOneOne);
    assert(board_shapes(g2.board, Shape::OneOneOne, PlayerColor::White, N_LINES as int) == board_shapes(g1.board, Shape::OneOneOne, PlayerColor::White, N_LINES as int) || shape == Shape::OneOneOne);
    assert(board_shapes(g2.board, Shape::ThreeOne, PlayerColor::Black, N_LINES as int) == board_shapes(g1.board, Shape::ThreeOne, PlayerColor::Black, N_LINES as int) || shape == Shape::ThreeOne);
    assert(board_shapes(g2.board, Shape::ThreeOne, PlayerColor::White, N_LINES as int) == board_shapes(g1.board, Shape::ThreeOne, PlayerColor::White, N_LINES as int) || shape == Shape::ThreeOne);
    assert(board_shapes(g2.board, Shape::LockedFour, PlayerColor::Black, N_LINES as int) == board_shapes(g1.board, Shape::LockedFour, PlayerColor::Black, N_LINES as int) || shape == Shape::LockedFour);
    assert(board_shapes(g2.board, Shape::LockedFour, PlayerColor::White, N_LINES as int) == board_shapes(g1.board, Shape::LockedFour, PlayerColor::White, N_LINES as int) || shape == Shape::LockedFour);
}

/// A capture threat is worth 200: of two positions that differ only in one more capture
/// threat of black, the second scores 200 more; in one more of white, 200 less.
pub proof fn lemma_one_more_threat(g1: GameView, g2: GameView, black: bool)
    requires
        g2.black_captures == g1.black_captures,
        g2.white_captures == g1.white_captures,
        g2.black_dist_to_center == g1.black_dist_to_center,
        g2.white_dist_to_center == g1.white_dist_to_center,
        board_threats(g2.board, true, N_LINES as int) == board_threats(g1.board, true, N_LINES as int) + (if black { 1int } else { 0int }),
        board_threats(g2.board, false, N_LINES as int) == board_threats(g1.board, false, N_LINES as int) + (if black { 0int } else { 1int }),
        forall|c: PlayerColor, l: int, o: int| #[trigger] board_runs(g2.board, c, l, o, N_LINES as int)
            == board_runs(g1.board, c, l, o, N_LINES as int),
        forall|sh: Shape, c: PlayerColor| #[trigger] board_shapes(g2.board, sh, c, N_LINES as int)
            == board_shapes(g1.board, sh, c, N_LINES as int),
    ensures
        new_spec(g2) == new_spec(g1) + (if black { 200int } else { -200int }),
{
    assert(board_combos(g2, PlayerColor::Black) =~= board_combos(g1, PlayerColor::Black));
    assert(board_combos(g2, PlayerColor::White) =~= board_combos(g1, PlayerColor::White));
    assert(shapes_score(g2) == shapes_score(g1));
}

/// The weight of one run of stones of length `l` and openness `o` for its owner: nothing
/// for a run shorter than two or a dead run shorter than five, a fixed weight for any run of
/// five or more that is closed at both ends, and otherwise more the longer and more open.
pub open spec fn run_weight(l: int, o: int) -> int {
    if o == 0 {
        if 5 <= l <= 9 { 32768 } else { 0 }
    } else if o == 1 {
        if l == 2 { 32 } else if l == 3 { 243 } else if l == 4 { 1024 } else if l == 5 { 6250 }
        else if l == 6 { 15552 } else if l == 7 { 33614 } else if l == 8 { 65536 } else if l == 9 { 118098 } else { 0 }
    } else if o == 2 {
        if l == 2 { 96 } else if l == 3 { 729 } else if l == 4 { 3072 } else if l == 5 { 9375 }
        else if l == 6 { 23328 } else if l == 7 { 50421 } else if l == 8 { 98304 } else if l == 9 { 177147 } else { 0 }
    } else {
        0
    }
}

/// Each run moves the weighted counters by its weight: when black's counters minus white's
/// stay the same but for one more run of length `l` and openness `o` on black's side, the
/// weighted sum grows by `run_weight(l, o)`; when it is one more on white's side, it shrinks
/// by it.
pub proof fn lemma_one_more_run(b1: Combos, w1: Combos, b2: Combos, w2: Combos, l: int, o: int, black: bool)
    requires
        0 <= l < 10,
        0 <= o < 3,
        forall|l2: int, o2: int| 0 <= l2 < 10 && 0 <= o2 < 3 && (l2 != l || o2 != o)
            ==> #[trigger] counted_diff(b2, w2, l2, o2) == counted_diff(b1, w1, l2, o2),
        counted_diff(b2, w2, l, o) == counted_diff(b1, w1, l, o) + (if black { 1int } else { -1int }),
    ensures
        weighted_combos(b2, w2) == weighted_combos(b1, w1) + (if black { run_weight(l, o) } else { -run_weight(l, o) }),
{
    assert(counted_diff(b2, w2, 5, 0) == counted_diff(b1, w1, 5, 0) + (if l == 5 && o == 0 { if black { 1int } else { -1int } } else { 0int }));
    assert(counted_diff(b2, w2, 6, 0) == counted_diff(b1, w1, 6, 0) + (if l == 6 && o == 0 { if black { 1int } else { -1int } } else { 0int }));
    assert(counted_diff(b2, w2, 7, 0) == counted_diff(b1, w1, 7, 0) + (if l == 7 && o == 0 { if black { 1int } else { -1int } } else { 0int }));
    assert(counted_diff(b2, w2, 8, 0) == counted_diff(b1, w1, 8, 0) + (if l == 8 && o == 0 { if black { 1int } else { -1int } } else { 0int }));
    assert(counted_diff(b2, w2, 9, 0) == counted_diff(b1, w1, 9, 0) + (if l == 9 && o == 0 { if black { 1int } else { -1int } } else { 0int }));
    assert(counted_diff(b2, w2, 2, 1) == counted_diff(b1, w1, 2, 1) + (if l == 2 && o == 1 { if black { 1int } else { -1int } } else { 0int }));
    assert(counted_diff(b2, w2, 3, 1) == counted_diff(b1, w1, 3, 1) + (if l == 3 && o == 1 { if black { 1int } else { -1int } } else { 0int }));
    assert(counted_diff(b2, w2, 4, 1) == counted_diff(b1, w1, 4, 1) + (if l == 4 && o == 1 { if black { 1int } else { -1int } } else { 0int }));
    assert(counted_diff(b2, w2, 5, 1) == counted_diff(b1, w1, 5, 1) + (if l == 5 && o == 1 { if black { 1int } else { -1int } } else { 0int }));
    assert(counted_diff(b2, w2, 6, 1) == counted_diff(b1, w1, 6, 1) + (if l == 6 && o == 1 { if black { 1int } else { -1int } } else { 0int }));
    assert(counted_diff(b2, w2, 7, 1) == counted_diff(b1, w1, 7, 1) + (if l == 7 && o == 1 { if black { 1int } else { -1int } } else { 0int }));
    assert(counted_diff(b2, w2, 8, 1) == counted_diff(b1, w1, 8, 1) + (if l == 8 && o == 1 { if black { 1int } else { -1int } } else { 0int }));
    assert(counted_diff(b2, w2, 9, 1) == counted_diff(b1, w1, 9, 1) + (if l == 9 && o == 1 { if black { 1int } else { -1int } } else { 0int }));
    assert(counted_diff(b2, w2, 2, 2) == counted_diff(b1, w1, 2, 2) + (if l == 2 && o == 2 { if black { 1int } else { -1int } } else { 0int }));
    assert(counted_diff(b2, w2, 3, 2) == counted_diff(b1, w1, 3, 2) + (if l == 3 && o == 2 { if black { 1int } else { -1int } } else { 0int }));
    assert(counted_diff(b2, w2, 4, 2) == counted_diff(b1, w1, 4, 2) + (if l == 4 && o == 2 { if black { 1int } else { -1int } } else { 0int }));
    assert(counted_diff(b2, w2, 5, 2) == counted_diff(b1, w1, 5, 2) + (if l == 5 && o == 2 { if black { 1int } else { -1int } } else { 0int }));
    assert(counted_diff(b2, w2, 6, 2) == counted_diff(b1, w1, 6, 2) + (if l == 6 && o == 2 { if black { 1int } else { -1int } } else { 0int }));
    assert(counted_diff(b2, w2, 7, 2) == counted_diff(b1, w1, 7, 2) + (if l == 7 && o == 2 { if black { 1int } else { -1int } } else { 0int }));
    assert(counted_diff(b2, w2, 8, 2) == counted_diff(b1, w1, 8, 2) + (if l == 8 && o == 2 { if black { 1int } else { -1int } } else { 0int }));
    assert(counted_diff(b2, w2, 9, 2) == counted_diff(b1, w1, 9, 2) + (if l == 9 && o == 2 { if black { 1int } else { -1int } } else { 0int }));
}

} // verus!
