use crate::game::board::{same_cell, Board};
use crate::game::lines::{line, line_spec, line_value, line_values, N_LINES};
use crate::heuristics::coeffistic::{black_threat_at, threats, white_threat_at};
use crate::player::{opposite, PlayerColor};
use vstd::prelude::*;

verus! {

/// The shapes of stones the hand-written heuristic counts, for one color `x` (`.` is an empty
/// cell, `o` a stone of the opponent).
#[derive(Clone, Copy, PartialEq, Eq)]
pub enum Shape {
    /// `. x x . x .` or `. x . x x .`
    OpenTwoOne,
    /// `o x x x x o`
    LockedFour,
    /// `x x . x x`
    TwoTwo,
    /// `x . x . x`
    OneOneOne,
    /// `x x x . x` or `x . x x x`
    ThreeOne,
}

/// Cells `k - 4 ..= k` read `a b c d e`.
pub open spec fn reads5(
    vals: Seq<Option<PlayerColor>>,
    k: int,
    a: Option<PlayerColor>,
    b: Option<PlayerColor>,
    c: Option<PlayerColor>,
    d: Option<PlayerColor>,
    e: Option<PlayerColor>,
) -> bool {
    4 <= k < vals.len() && vals[k - 4] == a && vals[k - 3] == b && vals[k - 2] == c && vals[k - 1] == d && vals[k] == e
}

/// Cells `k - 5 ..= k` read `a b c d e f`.
pub open spec fn reads6(
    vals: Seq<Option<PlayerColor>>,
    k: int,
    a: Option<PlayerColor>,
    b: Option<PlayerColor>,
    c: Option<PlayerColor>,
    d: Option<PlayerColor>,
    e: Option<PlayerColor>,
    f: Option<PlayerColor>,
) -> bool {
    5 <= k < vals.len() && vals[k - 5] == a && reads5(vals, k, b, c, d, e, f)
}

/// The cells ending at `k` show `shape` for the color `c`.
pub open spec fn shape_at(vals: Seq<Option<PlayerColor>>, k: int, shape: Shape, c: PlayerColor) -> bool {
    let x = Some(c);
    let o = Some(opposite(c));
    let e = None::<PlayerColor>;
    match shape {
        Shape::OpenTwoOne => reads6(vals, k, e, x, x, e, x, e) || reads6(vals, k, e, x, e, x, x, e),
        Shape::LockedFour => reads6(vals, k, o, x, x, x, x, o),
        Shape::TwoTwo => reads5(vals, k, x, x, e, x, x),
        Shape::OneOneOne => reads5(vals, k, x, e, x, e, x),
        Shape::ThreeOne => reads5(vals, k, x, x, x, e, x) || reads5(vals, k, x, e, x, x, x),
    }
}

/// Number of cells before `k` at which `shape` ends, for the color `c`.
pub open spec fn shapes_before(vals: Seq<Option<PlayerColor>>, shape: Shape, c: PlayerColor, k: int) -> int
    decreases k,
{
    if k <= 0 {
        0
    } else {
        shapes_before(vals, shape, c, k - 1) + (if shape_at(vals, k - 1, shape, c) { 1int } else { 0int })
    }
}

/// Number of times `shape` appears for the color `c` in the lines `0 .. n` of the board.
pub open spec fn board_shapes(board: Board, shape: Shape, c: PlayerColor, n: int) -> int
    decreases n,
{
    if n <= 0 {
        0
    } else {
        let vals = line_values(board, line_spec(n - 1));
        board_shapes(board, shape, c, n - 1) + shapes_before(vals, shape, c, vals.len() as int)
    }
}

/// Number of capture threats of black (when `black`) or white in the lines `0 .. n`.
pub open spec fn board_threats(board: Board, black: bool, n: int) -> int
    decreases n,
{
    if n <= 0 {
        0
    } else {
        let vals = line_values(board, line_spec(n - 1));
        board_threats(board, black, n - 1) + threats(vals, black, vals.len() as int)
    }
}

/// The counters of the shapes and capture threats of both colors.
pub struct PatternCounts {
    pub black_open_xx_x: i64,
    pub white_open_xx_x: i64,
    pub black_xx_xx: i64,
    pub white_xx_xx: i64,
    pub black_x_x_x: i64,
    pub white_x_x_x: i64,
    pub black_xxx_x: i64,
    pub white_xxx_x: i64,
    pub black_capture_threats: i64,
    pub white_capture_threats: i64,
    pub black_locked_4: i64,
    pub white_locked_4: i64,
}

impl PatternCounts {
    /// The counter of `shape` for the color `c`.
    pub open spec fn shape_count(self, shape: Shape, c: PlayerColor) -> int {
        match (shape, c) {
            (Shape::OpenTwoOne, PlayerColor::Black) => self.black_open_xx_x as int,
            (Shape::OpenTwoOne, PlayerColor::White) => self.white_open_xx_x as int,
            (Shape::LockedFour, PlayerColor::Black) => self.black_locked_4 as int,
            (Shape::LockedFour, PlayerColor::White) => self.white_locked_4 as int,
            (Shape::TwoTwo, PlayerColor::Black) => self.black_xx_xx as int,
            (Shape::TwoTwo, PlayerColor::White) => self.white_xx_xx as int,
            (Shape::OneOneOne, PlayerColor::Black) => self.black_x_x_x as int,
            (Shape::OneOneOne, PlayerColor::White) => self.white_x_x_x as int,
            (Shape::ThreeOne, PlayerColor::Black) => self.black_xxx_x as int,
            (Shape::ThreeOne, PlayerColor::White) => self.white_xxx_x as int,
        }
    }

    /// Every counter is between 0 and `bound`.
    pub open spec fn bounded(self, bound: int) -> bool {
        &&& 0 <= self.black_open_xx_x <= bound
        &&& 0 <= self.white_open_xx_x <= bound
        &&& 0 <= self.black_xx_xx <= bound
        &&& 0 <= self.white_xx_xx <= bound
        &&& 0 <= self.black_x_x_x <= bound
        &&& 0 <= self.white_x_x_x <= bound
        &&& 0 <= self.black_xxx_x <= bound
        &&& 0 <= self.white_xxx_x <= bound
        &&& 0 <= self.black_capture_threats <= bound
        &&& 0 <= self.white_capture_threats <= bound
        &&& 0 <= self.black_locked_4 <= bound
        &&& 0 <= self.white_locked_4 <= bound
    }

    /// Every counter of `self` is between its value in `before` and that plus `d`.
    pub open spec fn within(self, before: Self, d: int) -> bool {
        &&& before.black_open_xx_x <= self.black_open_xx_x <= before.black_open_xx_x + d
        &&& before.white_open_xx_x <= self.white_open_xx_x <= before.white_open_xx_x + d
        &&& before.black_xx_xx <= self.black_xx_xx <= before.black_xx_xx + d
        &&& before.white_xx_xx <= self.white_xx_xx <= before.white_xx_xx + d
        &&& before.black_x_x_x <= self.black_x_x_x <= before.black_x_x_x + d
        &&& before.white_x_x_x <= self.white_x_x_x <= before.white_x_x_x + d
        &&& before.black_xxx_x <= self.black_xxx_x <= before.black_xxx_x + d
        &&& before.white_xxx_x <= self.white_xxx_x <= before.white_xxx_x + d
        &&& before.black_capture_threats <= self.black_capture_threats <= before.black_capture_threats + d
        &&& before.white_capture_threats <= self.white_capture_threats <= before.white_capture_threats + d
        &&& before.black_locked_4 <= self.black_locked_4 <= before.black_locked_4 + d
        &&& before.white_locked_4 <= self.white_locked_4 <= before.white_locked_4 + d
    }

    /// All counters at zero.
    pub fn zero() -> (res: Self)
        ensures
            res.bounded(0),
            forall|shape: Shape, c: PlayerColor| #[trigger] res.shape_count(shape, c) == 0,
            res.black_capture_threats == 0,
            res.white_capture_threats == 0,
    {
        PatternCounts {
            black_open_xx_x: 0,
            white_open_xx_x: 0,
            black_xx_xx: 0,
            white_xx_xx: 0,
            black_x_x_x: 0,
            white_x_x_x: 0,
            black_xxx_x: 0,
            white_xxx_x: 0,
            black_capture_threats: 0,
            white_capture_threats: 0,
            black_locked_4: 0,
            white_locked_4: 0,
        }
    }
}

/// The counters of `after` are those of `before` plus what the first `k` cells of `vals` show.
pub open spec fn counts_match(after: PatternCounts, before: PatternCounts, vals: Seq<Option<PlayerColor>>, k: int) -> bool {
    &&& forall|shape: Shape, c: PlayerColor| #[trigger] after.shape_count(shape, c)
        == before.shape_count(shape, c) + shapes_before(vals, shape, c, k)
    &&& after.black_capture_threats == before.black_capture_threats + threats(vals, true, k)
    &&& after.white_capture_threats == before.white_capture_threats + threats(vals, false, k)
}

/// Each counter moved by one exactly when its shape or threat ends at cell `k`.
pub open spec fn counts_step(before: PatternCounts, after: PatternCounts, vals: Seq<Option<PlayerColor>>, k: int) -> bool {
    let inc = |b: bool| if b { 1int } else { 0int };
    &&& after.black_open_xx_x == before.black_open_xx_x + inc(shape_at(vals, k, Shape::OpenTwoOne, PlayerColor::Black))
    &&& after.white_open_xx_x == before.white_open_xx_x + inc(shape_at(vals, k, Shape::OpenTwoOne, PlayerColor::White))
    &&& after.black_locked_4 == before.black_locked_4 + inc(shape_at(vals, k, Shape::LockedFour, PlayerColor::Black))
    &&& after.white_locked_4 == before.white_locked_4 + inc(shape_at(vals, k, Shape::LockedFour, PlayerColor::White))
    &&& after.black_xx_xx == before.black_xx_xx + inc(shape_at(vals, k, Shape::TwoTwo, PlayerColor::Black))
    &&& after.white_xx_xx == before.white_xx_xx + inc(shape_at(vals, k, Shape::TwoTwo, PlayerColor::White))
    &&& after.black_x_x_x == before.black_x_x_x + inc(shape_at(vals, k, Shape::OneOneOne, PlayerColor::Black))
    &&& after.white_x_x_x == before.white_x_x_x + inc(shape_at(vals, k, Shape::OneOneOne, PlayerColor::White))
    &&& after.black_xxx_x == before.black_xxx_x + inc(shape_at(vals, k, Shape::ThreeOne, PlayerColor::Black))
    &&& after.white_xxx_x == before.white_xxx_x + inc(shape_at(vals, k, Shape::ThreeOne, PlayerColor::White))
    &&& after.black_capture_threats == before.black_capture_threats + inc(black_threat_at(vals, k))
    &&& after.white_capture_threats == before.white_capture_threats + inc(white_threat_at(vals, k))
}

/// One more cell keeps the counters matching the line.
proof fn lemma_counts_step(before: PatternCounts, after: PatternCounts, base: PatternCounts, vals: Seq<Option<PlayerColor>>, k: int)
    requires
        0 <= k,
        counts_match(before, base, vals, k),
        counts_step(before, after, vals, k),
    ensures
        counts_match(after, base, vals, k + 1),
{
    assert forall|shape: Shape, c: PlayerColor| #[trigger] after.shape_count(shape, c)
        == base.shape_count(shape, c) + shapes_before(vals, shape, c, k + 1) by {
        assert(before.shape_count(shape, c) == base.shape_count(shape, c) + shapes_before(vals, shape, c, k));
        match shape {
            Shape::OpenTwoOne => {},
            Shape::LockedFour => {},
            Shape::TwoTwo => {},
            Shape::OneOneOne => {},
            Shape::ThreeOne => {},
        }
    }
}

/// Whether `v` is the given content.
fn is(v: Option<PlayerColor>, w: Option<PlayerColor>) -> (res: bool)
    ensures
        res == (v == w),
{
    same_cell(v, w)
}

/// Adds to `counts` the shapes and capture threats of line `i`.
pub fn fill_patterns(board: &Board, i: usize, counts: &mut PatternCounts)
    requires
        i < N_LINES,
        old(counts).bounded(1_000_000),
    ensures
        counts_match(*final(counts), *old(counts), line_values(*board, line_spec(i as int)),
            line_values(*board, line_spec(i as int)).len() as int),
        final(counts).within(*old(counts), 19),
{
    let (_, _, len) = line(i);
    let ghost vals = line_values(*board, line_spec(i as int));
    let ghost c0 = *counts;
    let b = Some(PlayerColor::Black);
    let w = Some(PlayerColor::White);
    let e: Option<PlayerColor> = None;
    let mut p1: Option<PlayerColor> = None;
    let mut p2: Option<PlayerColor> = None;
    let mut p3: Option<PlayerColor> = None;
    let mut p4: Option<PlayerColor> = None;
    let mut p5: Option<PlayerColor> = None;
    let mut k: usize = 0;
    proof {
        crate::game::lines::lemma_line_on_board(i as int, 0);
    }
    while k < len
        invariant
            i < N_LINES,
            len == line_spec(i as int).2,
            len <= 19,
            vals == line_values(*board, line_spec(i as int)),
            vals.len() == len,
            k <= len,
            b == Some(PlayerColor::Black),
            w == Some(PlayerColor::White),
            e == None::<PlayerColor>,
            k >= 1 ==> p1 == vals[k - 1],
            k >= 2 ==> p2 == vals[k - 2],
            k >= 3 ==> p3 == vals[k - 3],
            k >= 4 ==> p4 == vals[k - 4],
            k >= 5 ==> p5 == vals[k - 5],
            counts_match(*counts, c0, vals, k as int),
            c0.bounded(1_000_000),
            counts.within(c0, k as int),
        decreases len - k,
    {
        let v = line_value(board, i, k);
        let ghost before = *counts;
        let ghost kk = k as int;
        let b_open = k >= 5 && ((is(p5, e) && is(p4, b) && is(p3, b) && is(p2, e) && is(p1, b) && is(v, e))
            || (is(p5, e) && is(p4, b) && is(p3, e) && is(p2, b) && is(p1, b) && is(v, e)));
        let w_open = k >= 5 && ((is(p5, e) && is(p4, w) && is(p3, w) && is(p2, e) && is(p1, w) && is(v, e))
            || (is(p5, e) && is(p4, w) && is(p3, e) && is(p2, w) && is(p1, w) && is(v, e)));
        let b_locked = k >= 5 && is(p5, w) && is(p4, b) && is(p3, b) && is(p2, b) && is(p1, b) && is(v, w);
        let w_locked = k >= 5 && is(p5, b) && is(p4, w) && is(p3, w) && is(p2, w) && is(p1, w) && is(v, b);
        let b_two_two = k >= 4 && is(p4, b) && is(p3, b) && is(p2, e) && is(p1, b) && is(v, b);
        let w_two_two = k >= 4 && is(p4, w) && is(p3, w) && is(p2, e) && is(p1, w) && is(v, w);
        let b_one_one_one = k >= 4 && is(p4, b) && is(p3, e) && is(p2, b) && is(p1, e) && is(v, b);
        let w_one_one_one = k >= 4 && is(p4, w) && is(p3, e) && is(p2, w) && is(p1, e) && is(v, w);
        let b_three_one = k >= 4 && ((is(p4, b) && is(p3, b) && is(p2, b) && is(p1, e) && is(v, b))
            || (is(p4, b) && is(p3, e) && is(p2, b) && is(p1, b) && is(v, b)));
        let w_three_one = k >= 4 && ((is(p4, w) && is(p3, w) && is(p2, w) && is(p1, e) && is(v, w))
            || (is(p4, w) && is(p3, e) && is(p2, w) && is(p1, w) && is(v, w)));
        let w_threat = k >= 3 && ((is(p3, w) && is(p2, b) && is(p1, b) && is(v, e))
            || (is(p3, e) && is(p2, b) && is(p1, b) && is(v, w)));
        let b_threat = k >= 3 && ((is(p3, b) && is(p2, w) && is(p1, w) && is(v, e))
            || (is(p3, e) && is(p2, w) && is(p1, w) && is(v, b)));
        proof {
            assert(vals[kk] == v);
            assert(b_open == shape_at(vals, kk, Shape::OpenTwoOne, PlayerColor::Black));
            assert(w_open == shape_at(vals, kk, Shape::OpenTwoOne, PlayerColor::White));
            assert(b_locked == shape_at(vals, kk, Shape::LockedFour, PlayerColor::Black));
            assert(w_locked == shape_at(vals, kk, Shape::LockedFour, PlayerColor::White));
            assert(b_two_two == shape_at(vals, kk, Shape::TwoTwo, PlayerColor::Black));
            assert(w_two_two == shape_at(vals, kk, Shape::TwoTwo, PlayerColor::White));
            assert(b_one_one_one == shape_at(vals, kk, Shape::OneOneOne, PlayerColor::Black));
            assert(w_one_one_one == shape_at(vals, kk, Shape::OneOneOne, PlayerColor::White));
            assert(b_three_one == shape_at(vals, kk, Shape::ThreeOne, PlayerColor::Black));
            assert(w_three_one == shape_at(vals, kk, Shape::ThreeOne, PlayerColor::White));
            assert(b_threat == black_threat_at(vals, kk));
            assert(w_threat == white_threat_at(vals, kk));
        }
        if b_open {
            counts.black_open_xx_x = counts.black_open_xx_x + 1;
        }
        if w_open {
            counts.white_open_xx_x = counts.white_open_xx_x + 1;
        }
        if b_locked {
            counts.black_locked_4 = counts.black_locked_4 + 1;
        }
        if w_locked {
            counts.white_locked_4 = counts.white_locked_4 + 1;
        }
        if b_two_two {
            counts.black_xx_xx = counts.black_xx_xx + 1;
        }
        if w_two_two {
            counts.white_xx_xx = counts.white_xx_xx + 1;
        }
        if b_one_one_one {
            counts.black_x_x_x = counts.black_x_x_x + 1;
        }
        if w_one_one_one {
            counts.white_x_x_x = counts.white_x_x_x + 1;
        }
        if b_three_one {
            counts.black_xxx_x = counts.black_xxx_x + 1;
        }
        if w_three_one {
            counts.white_xxx_x = counts.white_xxx_x + 1;
        }
        if w_threat {
            counts.white_capture_threats = counts.white_capture_threats + 1;
        }
        if b_threat {
            counts.black_capture_threats = counts.black_capture_threats + 1;
        }
        proof {
            lemma_counts_step(before, *counts, c0, vals, kk);
        }
        p5 = p4;
        p4 = p3;
        p3 = p2;
        p2 = p1;
        p1 = v;
        k += 1;
    }
}

} // verus!
