use crate::game::board::{captures_in_dir, directions4, directions8, grid_set, holds, on_board, Board, Direction, Position};
use crate::game::five::{five_in_dir, simple_win};
use crate::game::creates_double_three::{double_three_spec, open_three_count, open_three_spec};
use crate::game::legal_moves::{legal_candidate, legal_moves_spec};
use crate::game::state::{StateView, REQUIRED_CAPTURES, STONES_IN_A_ROW};
use crate::game::logic::{
    alignments_spec, all_cells, breaks, breaks_dir, can_play, capture_step, captured1, captured2, captures_upto, do_spec,
    alignments_upto, capture_cell, forced_seq, in_break_possibilities, is_forced, lemma_cell_index, lemma_grid_set_other, lemma_run_len,
    neg_dir, opponent_near_win, place_spec, row_spec, run_len, step_mul, update_state_spec, GameView,
};
use crate::player::{opposite, PlayerColor};
use vstd::prelude::*;

verus! {

/// One capture step leaves every cell as it was, but the two cells it captures, which it
/// empties.
#[verifier::spinoff_prover]
proof fn lemma_capture_step_cell(h: GameView, x: int, y: int, i: int, qx: int, qy: int)
    requires
        0 <= i < 8,
        on_board(qx, qy),
    ensures
        capture_step(h, x, y, directions8(i)).board[qy][qx] == (if captures_in_dir(h.board, h.current_color, x, y, directions8(i))
            && ((qx, qy) == captured1(x, y, directions8(i)) || (qx, qy) == captured2(x, y, directions8(i))) {
            None
        } else {
            h.board[qy][qx]
        }),
        capture_step(h, x, y, directions8(i)).current_color == h.current_color,
{
    let d = directions8(i);
    if captures_in_dir(h.board, h.current_color, x, y, d) {
        let (x1, y1) = captured1(x, y, d);
        let (x2, y2) = captured2(x, y, d);
        let b1 = grid_set(h.board, x1, y1, None);
        lemma_grid_set_other(h.board, x1, y1, None, qx, qy);
        lemma_grid_set_other(b1, x2, y2, None, qx, qy);
    }
}

/// The cells `k` steps from `(x, y)` in two different directions of `directions8`, one or
/// two steps along the first and one to three along the second, are different cells.
#[verifier::spinoff_prover]
proof fn lemma_distinct_rays(x: int, y: int, i: int, j: int, a: int, b: int)
    requires
        0 <= i < 8,
        0 <= j < 8,
        i != j,
        1 <= a <= 2,
        1 <= b <= 3,
    ensures
        (x + a * directions8(i).0, y + a * directions8(i).1) != (x + b * directions8(j).0, y + b * directions8(j).1),
{
    let di = directions8(i);
    let dj = directions8(j);
    assert(-1 <= di.0 <= 1 && -1 <= di.1 <= 1 && (di.0 != 0 || di.1 != 0));
    assert(-1 <= dj.0 <= 1 && -1 <= dj.1 <= 1 && (dj.0 != 0 || dj.1 != 0));
    assert(di != dj);
    if a == 1 {
        assert(a * di.0 == di.0 && a * di.1 == di.1);
    } else {
        assert(a * di.0 == 2 * di.0 && a * di.1 == 2 * di.1);
    }
    if b == 1 {
        assert(b * dj.0 == dj.0 && b * dj.1 == dj.1);
    } else if b == 2 {
        assert(b * dj.0 == 2 * dj.0 && b * dj.1 == 2 * dj.1);
    } else {
        assert(b * dj.0 == 3 * dj.0 && b * dj.1 == 3 * dj.1);
    }
}

/// The capture steps keep the player to move.
#[verifier::spinoff_prover]
proof fn lemma_captures_upto_color(h: GameView, x: int, y: int, k: nat)
    requires
        k <= 8,
    ensures
        captures_upto(h, x, y, k).current_color == h.current_color,
    decreases k,
{
    if k > 0 {
        lemma_captures_upto_color(h, x, y, (k - 1) as nat);
        lemma_capture_step_cell(captures_upto(h, x, y, (k - 1) as nat), x, y, k - 1, 0, 0);
    }
}

/// The first `k <= i` capture steps leave the cell `a` steps from `(x, y)` in direction `i`
/// as it was.
#[verifier::spinoff_prover]
proof fn lemma_ray_cell_kept(h: GameView, x: int, y: int, i: int, k: nat, a: int)
    requires
        0 <= i < 8,
        k <= i,
        1 <= a <= 3,
        on_board(x + a * directions8(i).0, y + a * directions8(i).1),
    ensures
        captures_upto(h, x, y, k).board[y + a * directions8(i).1][x + a * directions8(i).0]
            == h.board[y + a * directions8(i).1][x + a * directions8(i).0],
    decreases k,
{
    if k > 0 {
        let j = k - 1;
        let d = directions8(i);
        lemma_ray_cell_kept(h, x, y, i, j as nat, a);
        lemma_capture_step_cell(captures_upto(h, x, y, j as nat), x, y, j, x + a * d.0, y + a * d.1);
        lemma_distinct_rays(x, y, j, i, 1, a);
        lemma_distinct_rays(x, y, j, i, 2, a);
    }
}

/// The two cells that step `i` captures stay empty after every later step.
#[verifier::spinoff_prover]
proof fn lemma_captured_stay_empty(h: GameView, x: int, y: int, i: int, k: nat)
    requires
        0 <= i < k <= 8,
        captures_in_dir(captures_upto(h, x, y, i as nat).board, h.current_color, x, y, directions8(i)),
    ensures
        captures_upto(h, x, y, k).board[captured1(x, y, directions8(i)).1][captured1(x, y, directions8(i)).0] == None::<PlayerColor>,
        captures_upto(h, x, y, k).board[captured2(x, y, directions8(i)).1][captured2(x, y, directions8(i)).0] == None::<PlayerColor>,
    decreases k,
{
    let j = k - 1;
    let d = directions8(i);
    let (x1, y1) = captured1(x, y, d);
    let (x2, y2) = captured2(x, y, d);
    let prev = captures_upto(h, x, y, j as nat);
    assert(on_board(x1, y1) && on_board(x2, y2));
    lemma_captures_upto_color(h, x, y, j as nat);
    if j > i {
        lemma_captured_stay_empty(h, x, y, i, j as nat);
    }
    lemma_capture_step_cell(prev, x, y, j, x1, y1);
    lemma_capture_step_cell(prev, x, y, j, x2, y2);
}

/// The cells in direction `i` from `(x, y)`, one to three steps away, are as they were
/// before the first `k <= i` capture steps, and the cells that step `i` captures are empty
/// after any later step.
#[verifier::spinoff_prover]
proof fn lemma_captures_upto_ray(h: GameView, x: int, y: int, i: int, k: nat)
    requires
        0 <= i < 8,
        k <= 8,
    ensures
        captures_upto(h, x, y, k).current_color == h.current_color,
        k <= i ==> forall|a: int| 1 <= a <= 3 && on_board(x + a * directions8(i).0, y + a * directions8(i).1)
            ==> #[trigger] captures_upto(h, x, y, k).board[y + a * directions8(i).1][x + a * directions8(i).0]
            == h.board[y + a * directions8(i).1][x + a * directions8(i).0],
        k > i && captures_in_dir(captures_upto(h, x, y, i as nat).board, h.current_color, x, y, directions8(i)) ==> {
            let (x1, y1) = captured1(x, y, directions8(i));
            let (x2, y2) = captured2(x, y, directions8(i));
            captures_upto(h, x, y, k).board[y1][x1] == None::<PlayerColor>
                && captures_upto(h, x, y, k).board[y2][x2] == None::<PlayerColor>
        },
{
    lemma_captures_upto_color(h, x, y, k);
    if k <= i {
        let d = directions8(i);
        assert forall|a: int| 1 <= a <= 3 && on_board(x + a * d.0, y + a * d.1) implies #[trigger] captures_upto(h, x, y, k).board[y + a * d.1][x + a * d.0]
            == h.board[y + a * d.1][x + a * d.0] by {
            lemma_ray_cell_kept(h, x, y, i, k, a);
        }
    }
    if k > i && captures_in_dir(captures_upto(h, x, y, i as nat).board, h.current_color, x, y, directions8(i)) {
        lemma_captured_stay_empty(h, x, y, i, k);
    }
}

/// Captures go in all eight directions, diagonals included: when the stone played on
/// `(x, y)` brackets two opponent stones against a stone of its own along any direction,
/// those two stones are gone after the move.
#[verifier::spinoff_prover]
pub proof fn lemma_move_captures_every_direction(g: GameView, x: int, y: int, i: int)
    requires
        can_play(g, x, y),
        0 <= i < 8,
        holds(g.board, Some(opposite(g.current_color)), x + directions8(i).0, y + directions8(i).1),
        holds(g.board, Some(opposite(g.current_color)), x + 2 * directions8(i).0, y + 2 * directions8(i).1),
        holds(g.board, Some(g.current_color), x + 3 * directions8(i).0, y + 3 * directions8(i).1),
    ensures
        holds(do_spec(g, x, y).board, None, x + directions8(i).0, y + directions8(i).1),
        holds(do_spec(g, x, y).board, None, x + 2 * directions8(i).0, y + 2 * directions8(i).1),
{
    lemma_step_captures_iff_flanked(g, x, y, i);
    lemma_captures_upto_ray(place_spec(g, x, y), x, y, i, 8);
}

/// The opponent of `color`, playing on `p`, captures the pair of stones of `color` on `s`
/// and `s + d`: `p` is empty and lies just before the pair with an opponent stone just after
/// it, or just after the pair with an opponent stone just before it.
pub open spec fn captures_pair(board: Board, color: PlayerColor, s: (int, int), d: Direction, p: Position) -> bool {
    let o = opposite(color);
    let (sx, sy) = s;
    &&& holds(board, Some(color), sx, sy)
    &&& holds(board, Some(color), sx + d.0, sy + d.1)
    &&& holds(board, None, p.0 as int, p.1 as int)
    &&& (((p.0 as int, p.1 as int) == (sx - d.0, sy - d.1) && holds(board, Some(o), sx + 2 * d.0, sy + 2 * d.1))
        || ((p.0 as int, p.1 as int) == (sx + 2 * d.0, sy + 2 * d.1) && holds(board, Some(o), sx - d.0, sy - d.1)))
}

/// Playing on `p` captures, from either side and in some direction, a pair holding a stone
/// of `row` that every five-in-a-row inside `row` uses.
pub open spec fn breakable_row(board: Board, color: PlayerColor, row: Seq<Position>, p: Position) -> bool {
    exists|j: int, i: int|
        row.len() - STONES_IN_A_ROW <= j < STONES_IN_A_ROW && 0 <= i < 8
            && #[trigger] captures_pair(board, color, (row[j].0 as int, row[j].1 as int), directions8(i), p)
}

/// A five that the opponent can break by a capture does not win: when, for every row of five
/// or more stones the move on `(x, y)` makes, playing on `p` captures (from either side, in
/// any direction) a pair holding a stone that every five inside the row uses, the game is not
/// won by that row, and `p` is among the moves the opponent must choose from.
#[verifier::spinoff_prover]
pub proof fn lemma_breakable_five_does_not_win(g: GameView, x: int, y: int, p: Position)
    requires
        g.captures_of(g.current_color) < REQUIRED_CAPTURES,
        on_board(p.0 as int, p.1 as int),
        alignments_spec(g.board, g.current_color, x, y).len() > 0,
        forall|a: int| 0 <= a < alignments_spec(g.board, g.current_color, x, y).len()
            ==> #[trigger] breakable_row(g.board, g.current_color, alignments_spec(g.board, g.current_color, x, y)[a], p),
    ensures
        !(update_state_spec(g, x, y) is Won),
        update_state_spec(g, x, y) is Playing ==> update_state_spec(g, x, y)->Playing_0.contains(p),
{
    let c = g.current_color;
    let als = alignments_spec(g.board, c, x, y);
    let near_win = opponent_near_win(g);
    assert forall|a: int| 0 <= a < als.len() implies #[trigger] in_break_possibilities(g.board, c, als[a], p) by {
        let row = als[a];
        assert(breakable_row(g.board, c, row, p));
        let (j, i) = choose|j: int, i: int|
            row.len() - STONES_IN_A_ROW <= j < STONES_IN_A_ROW && 0 <= i < 8
                && #[trigger] captures_pair(g.board, c, (row[j].0 as int, row[j].1 as int), directions8(i), p);
        let s = (row[j].0 as int, row[j].1 as int);
        assert(breaks_dir(g.board, c, s, directions8(i), p));
        assert(breaks(g.board, c, s, p));
    }
    let pred = |q: Position| is_forced(g.board, c, als, near_win, q);
    assert(pred(p));
    let k = p.1 as int * 19 + p.0 as int;
    lemma_cell_index(k, p.0 as int, p.1 as int);
    assert(all_cells()[k] == p);
    all_cells().lemma_filter_contains(pred, k);
    assert(forced_seq(g.board, c, als, near_win) == all_cells().filter(pred));
    assert(forced_seq(g.board, c, als, near_win).contains(p));
}

/// The four shapes of a free three, read along a line: `.X.XX.`, `.XX.X.`, `.XXX..` and
/// `..XXX.`, where `X` is a stone of `color` and `.` an empty cell.
pub open spec fn free_three_shape(color: PlayerColor, n: int) -> Seq<Option<PlayerColor>> {
    let x = Some(color);
    let e = None::<PlayerColor>;
    if n == 0 {
        seq![e, x, e, x, x, e]
    } else if n == 1 {
        seq![e, x, x, e, x, e]
    } else if n == 2 {
        seq![e, x, x, x, e, e]
    } else {
        seq![e, e, x, x, x, e]
    }
}

/// The cells of the line through `(x, y)` in direction `d`, from `s` steps before `(x, y)`
/// on, hold `pat`, but for `(x, y)` itself, the cell of the stone being played.
pub open spec fn line_reads(board: Board, x: int, y: int, d: Direction, s: int, pat: Seq<Option<PlayerColor>>) -> bool {
    forall|k: int| 0 <= k < pat.len() && k != s ==> holds(board, #[trigger] pat[k], x + step_mul(k - s, d.0), y + step_mul(k - s, d.1))
}

/// A stone that completes a free three makes an open three in that line: when the line
/// through `(x, y)` reads one of the shapes of `free_three_shape` with `(x, y)` one of its
/// stones, `(x, y)` makes an open three in direction `d` or in the opposite one.
#[verifier::spinoff_prover]
#[verifier::rlimit(40)]
pub proof fn lemma_free_three_is_open_three(board: Board, color: PlayerColor, x: int, y: int, d: Direction, n: int, s: int)
    requires
        -1 <= d.0 <= 1,
        -1 <= d.1 <= 1,
        0 <= n < 4,
        0 <= s < 6,
        free_three_shape(color, n)[s] == Some(color),
        line_reads(board, x, y, d, s, free_three_shape(color, n)),
    ensures
        open_three_spec(board, color, x, y, d) || open_three_spec(board, color, x, y, neg_dir(d)),
{
    let pat = free_three_shape(color, n);
    assert(pat.len() == 6);
    assert(s == 0 || holds(board, pat[0], x + step_mul(0 - s, d.0), y + step_mul(0 - s, d.1)));
    assert(s == 1 || holds(board, pat[1], x + step_mul(1 - s, d.0), y + step_mul(1 - s, d.1)));
    assert(s == 2 || holds(board, pat[2], x + step_mul(2 - s, d.0), y + step_mul(2 - s, d.1)));
    assert(s == 3 || holds(board, pat[3], x + step_mul(3 - s, d.0), y + step_mul(3 - s, d.1)));
    assert(s == 4 || holds(board, pat[4], x + step_mul(4 - s, d.0), y + step_mul(4 - s, d.1)));
    assert(s == 5 || holds(board, pat[5], x + step_mul(5 - s, d.0), y + step_mul(5 - s, d.1)));
    let nd = neg_dir(d);
    assert(nd.0 == -d.0 && nd.1 == -d.1);
    if n == 0 {
        assert(pat == seq![None, Some(color), None, Some(color), Some(color), None]);
    } else if n == 1 {
        assert(pat == seq![None, Some(color), Some(color), None, Some(color), None]);
    } else if n == 2 {
        assert(pat == seq![None, Some(color), Some(color), Some(color), None, None]);
    } else {
        assert(pat == seq![None, None, Some(color), Some(color), Some(color), None]);
    }
}

/// Six cells of a line, given one by one, read `pat` (see `line_reads`).
#[verifier::spinoff_prover]
proof fn lemma_reads_six(board: Board, x: int, y: int, d: Direction, s: int, pat: Seq<Option<PlayerColor>>)
    requires
        -1 <= d.0 <= 1,
        -1 <= d.1 <= 1,
        pat.len() == 6,
        0 <= s < 6,
        s == 0 || holds(board, pat[0], x + (0 - s) * d.0, y + (0 - s) * d.1),
        s == 1 || holds(board, pat[1], x + (1 - s) * d.0, y + (1 - s) * d.1),
        s == 2 || holds(board, pat[2], x + (2 - s) * d.0, y + (2 - s) * d.1),
        s == 3 || holds(board, pat[3], x + (3 - s) * d.0, y + (3 - s) * d.1),
        s == 4 || holds(board, pat[4], x + (4 - s) * d.0, y + (4 - s) * d.1),
        s == 5 || holds(board, pat[5], x + (5 - s) * d.0, y + (5 - s) * d.1),
    ensures
        line_reads(board, x, y, d, s, pat),
{
    assert forall|k: int| 0 <= k < pat.len() && k != s implies holds(board, #[trigger] pat[k], x + step_mul(k - s, d.0), y + step_mul(k - s, d.1)) by {
        let j = k - s;
        assert(step_mul(j, d.0) == j * d.0 && step_mul(j, d.1) == j * d.1) by (nonlinear_arith)
            requires -1 <= d.0 <= 1, -1 <= d.1 <= 1;
    }
}

/// An open three is a free three: when `(x, y)` makes an open three in direction `d`, the
/// line through it in that direction reads one of the shapes of `free_three_shape`, with
/// `(x, y)` one of its stones.
#[verifier::spinoff_prover]
pub proof fn lemma_open_three_is_free_three(board: Board, color: PlayerColor, x: int, y: int, d: Direction)
    requires
        -1 <= d.0 <= 1,
        -1 <= d.1 <= 1,
        open_three_spec(board, color, x, y, d),
    ensures
        exists|n: int, s: int| 0 <= n < 4 && 0 <= s < 6 && free_three_shape(color, n)[s] == Some(color)
            && #[trigger] line_reads(board, x, y, d, s, free_three_shape(color, n)),
{
    let at = |k: int, v: Option<PlayerColor>| holds(board, v, x + k * d.0, y + k * d.1);
    let me = Some(color);
    let empty = None::<PlayerColor>;
    let p0 = free_three_shape(color, 0);
    let p1 = free_three_shape(color, 1);
    let p2 = free_three_shape(color, 2);
    let p3 = free_three_shape(color, 3);
    assert(p0 == seq![empty, me, empty, me, me, empty]);
    assert(p1 == seq![empty, me, me, empty, me, empty]);
    assert(p2 == seq![empty, me, me, me, empty, empty]);
    assert(p3 == seq![empty, empty, me, me, me, empty]);
    if at(1, me) && at(2, me) && at(3, empty) && at(-1, empty) && at(4, empty) {
        lemma_reads_six(board, x, y, d, 1, p2);
    } else if at(1, me) && at(2, me) && at(3, empty) && at(-1, empty) && at(-2, empty) {
        lemma_reads_six(board, x, y, d, 2, p3);
    } else if at(1, me) && at(-1, me) && at(2, empty) && at(-2, empty) && at(3, empty) {
        lemma_reads_six(board, x, y, d, 2, p2);
    } else if at(1, me) && at(-1, me) && at(2, empty) && at(-2, empty) && at(-3, empty) {
        lemma_reads_six(board, x, y, d, 3, p3);
    } else if at(2, me) && at(3, me) && at(-1, empty) && at(1, empty) && at(4, empty) {
        lemma_reads_six(board, x, y, d, 1, p0);
    } else if at(-1, me) && at(2, me) && at(-2, empty) && at(1, empty) && at(3, empty) {
        lemma_reads_six(board, x, y, d, 2, p1);
    } else {
        lemma_reads_six(board, x, y, d, 1, p1);
    }
}

/// Two open threes make a double three: a move that makes an open three in two different
/// lines without capturing is a double three, and so it is not among the moves of the player
/// to move when no move is forced.
#[verifier::spinoff_prover]
pub proof fn lemma_two_open_threes_forbidden(g: GameView, x: int, y: int, i1: int, i2: int, near_only: bool)
    requires
        on_board(x, y),
        0 <= i1 < i2 < 4,
        open_three_spec(g.board, g.current_color, x, y, directions4(i1))
            || open_three_spec(g.board, g.current_color, x, y, neg_dir(directions4(i1))),
        open_three_spec(g.board, g.current_color, x, y, directions4(i2))
            || open_three_spec(g.board, g.current_color, x, y, neg_dir(directions4(i2))),
        forall|i: int| 0 <= i < 8 ==> !#[trigger] captures_in_dir(g.board, g.current_color, x, y, directions8(i)),
    ensures
        double_three_spec(g.board, g.current_color, x, y),
        !(g.state is Playing && g.state->Playing_0.len() > 0)
            ==> !legal_moves_spec(g, near_only).contains((x as usize, y as usize)),
{
    let c = g.current_color;
    assert forall|k: nat| k <= 4 implies #[trigger] open_three_count(g.board, c, x, y, k)
        >= (if i1 < k { 1nat } else { 0nat }) + (if i2 < k { 1nat } else { 0nat }) by {
        lemma_open_three_count_at_least(g.board, c, x, y, i1, i2, k);
    }
    assert(open_three_count(g.board, c, x, y, 4) >= 2);
    if !(g.state is Playing && g.state->Playing_0.len() > 0) {
        let pred = |p: Position| legal_candidate(g, p, near_only);
        let ms = all_cells().filter(pred);
        assert(legal_moves_spec(g, near_only) == ms);
        if ms.contains((x as usize, y as usize)) {
            let j = choose|j: int| 0 <= j < ms.len() && ms[j] == (x as usize, y as usize);
            all_cells().lemma_filter_pred(pred, j);
            assert(legal_candidate(g, (x as usize, y as usize), near_only));
        }
    }
}

#[verifier::spinoff_prover]
proof fn lemma_open_three_count_at_least(board: Board, c: PlayerColor, x: int, y: int, i1: int, i2: int, k: nat)
    requires
        k <= 4,
        0 <= i1 < i2 < 4,
        open_three_spec(board, c, x, y, directions4(i1)) || open_three_spec(board, c, x, y, neg_dir(directions4(i1))),
        open_three_spec(board, c, x, y, directions4(i2)) || open_three_spec(board, c, x, y, neg_dir(directions4(i2))),
    ensures
        open_three_count(board, c, x, y, k) >= (if i1 < k { 1nat } else { 0nat }) + (if i2 < k { 1nat } else { 0nat }),
    decreases k,
{
    if k > 0 {
        lemma_open_three_count_at_least(board, c, x, y, i1, i2, (k - 1) as nat);
    }
}

/// A capture lifts the ban on double threes: a move that captures a pair is never a double
/// three, so on an empty cell (close to the stones, when only those are asked for) it is
/// among the moves of the player to move when no move is forced.
#[verifier::spinoff_prover]
pub proof fn lemma_capture_allows_double_three(g: GameView, x: int, y: int, i: int, near_only: bool)
    requires
        on_board(x, y),
        0 <= i < 8,
        captures_in_dir(g.board, g.current_color, x, y, directions8(i)),
    ensures
        !double_three_spec(g.board, g.current_color, x, y),
        holds(g.board, None, x, y) && (!near_only || g.close_moves[y][x] > 0)
            && !(g.state is Playing && g.state->Playing_0.len() > 0)
            ==> legal_moves_spec(g, near_only).contains((x as usize, y as usize)),
{
    let p = (x as usize, y as usize);
    if holds(g.board, None, x, y) && (!near_only || g.close_moves[y][x] > 0)
        && !(g.state is Playing && g.state->Playing_0.len() > 0) {
        let pred = |q: Position| legal_candidate(g, q, near_only);
        assert(pred(p));
        let k = y * 19 + x;
        lemma_cell_index(k, x, y);
        assert(all_cells()[k] == p);
        all_cells().lemma_filter_contains(pred, k);
    }
}

/// Five stones of `color` in a row.
pub open spec fn five_stones(color: PlayerColor) -> Seq<Option<PlayerColor>> {
    seq![Some(color), Some(color), Some(color), Some(color), Some(color)]
}

/// `run_len` counts at least up to `n` when the stones are there.
#[verifier::spinoff_prover]
proof fn lemma_run_len_at_least(board: Board, color: PlayerColor, x: int, y: int, d: Direction, k: nat, n: int)
    requires
        k <= n <= 4,
        forall|t: int| k < t <= n ==> #[trigger] holds(board, Some(color), x + step_mul(t, d.0), y + step_mul(t, d.1)),
    ensures
        run_len(board, color, x, y, d, k) >= n,
    decreases 4 - k,
{
    if k < n {
        assert(holds(board, Some(color), x + step_mul(k + 1 as int, d.0), y + step_mul(k + 1 as int, d.1)));
        lemma_run_len_at_least(board, color, x, y, d, k + 1, n);
    } else {
        lemma_run_len(board, color, x, y, d, k);
    }
}

/// The rows found among the first `k` directions include every row of five or more.
#[verifier::spinoff_prover]
proof fn lemma_alignments_upto_found(board: Board, color: PlayerColor, x: int, y: int, k: nat, i: int)
    requires
        0 <= i < k <= 4,
        row_spec(board, color, x, y, directions4(i)).len() >= STONES_IN_A_ROW,
    ensures
        alignments_upto(board, color, x, y, k).len() > 0,
    decreases k,
{
    if i < k - 1 {
        lemma_alignments_upto_found(board, color, x, y, (k - 1) as nat, i);
    }
}

/// Five in a row is an alignment: when a stone of `color` on `(x, y)` completes five stones
/// of `color` in a row along one of the four lines, the move on `(x, y)` makes an alignment,
/// and it wins under the simple rule whatever the count of captured pairs.
#[verifier::spinoff_prover]
pub proof fn lemma_five_in_a_row_aligns(board: Board, color: PlayerColor, x: int, y: int, i: int, s: int)
    requires
        on_board(x, y),
        0 <= i < 4,
        0 <= s < 5,
        line_reads(board, x, y, directions4(i), s, five_stones(color)),
    ensures
        alignments_spec(board, color, x, y).len() > 0,
        forall|n: int| #[trigger] simple_win(board, color, n, (x as usize, y as usize)),
{
    let d = directions4(i);
    let pat = five_stones(color);
    assert forall|t: int| 0 < t <= 4 - s implies #[trigger] holds(board, Some(color), x + step_mul(t, d.0), y + step_mul(t, d.1)) by {
        assert(holds(board, pat[s + t], x + step_mul(s + t - s, d.0), y + step_mul(s + t - s, d.1)));
    }
    let nd = neg_dir(d);
    assert forall|t: int| 0 < t <= s implies #[trigger] holds(board, Some(color), x + step_mul(t, nd.0), y + step_mul(t, nd.1)) by {
        assert(holds(board, pat[s - t], x + step_mul(s - t - s, d.0), y + step_mul(s - t - s, d.1)));
    }
    lemma_run_len_at_least(board, color, x, y, d, 0, 4 - s);
    lemma_run_len_at_least(board, color, x, y, nd, 0, s);
    assert(row_spec(board, color, x, y, d).len() >= STONES_IN_A_ROW);
    lemma_alignments_upto_found(board, color, x, y, 4, i);
    assert(five_in_dir(board, color, (x as usize, y as usize), d));
}

/// Every stone of an alignment through `(x, y)` is of the color, when `(x, y)` holds one.
#[verifier::spinoff_prover]
proof fn lemma_alignment_stones(board: Board, color: PlayerColor, x: int, y: int, k: nat, a: int, j: int)
    requires
        holds(board, Some(color), x, y),
        k <= 4,
        0 <= a < alignments_upto(board, color, x, y, k).len(),
        0 <= j < alignments_upto(board, color, x, y, k)[a].len(),
    ensures
        holds(board, Some(color), alignments_upto(board, color, x, y, k)[a][j].0 as int,
            alignments_upto(board, color, x, y, k)[a][j].1 as int),
    decreases k,
{
    let prev = alignments_upto(board, color, x, y, (k - 1) as nat);
    if a < prev.len() {
        lemma_alignment_stones(board, color, x, y, (k - 1) as nat, a, j);
    } else {
        let d = directions4(k - 1);
        let f = run_len(board, color, x, y, d, 0);
        let b = run_len(board, color, x, y, neg_dir(d), 0);
        lemma_run_len(board, color, x, y, d, 0);
        lemma_run_len(board, color, x, y, neg_dir(d), 0);
        let t = j - b;
        if t > 0 {
            assert(holds(board, Some(color), x + step_mul(t, d.0), y + step_mul(t, d.1)));
        } else if t < 0 {
            assert(holds(board, Some(color), x + step_mul(-t, neg_dir(d).0), y + step_mul(-t, neg_dir(d).1)));
        }
    }
}

/// An alignment that no capture can break wins: when the stone on `(x, y)` is in a row of
/// five or more that no cell breaks (in the sense of `breakable_row`), the mover has not
/// captured five pairs and the opponent is not one capture away from winning, the move wins
/// by alignment.
#[verifier::spinoff_prover]
pub proof fn lemma_unbreakable_five_wins(g: GameView, x: int, y: int, a: int)
    requires
        holds(g.board, Some(g.current_color), x, y),
        g.captures_of(g.current_color) < REQUIRED_CAPTURES,
        !opponent_near_win(g),
        0 <= a < alignments_spec(g.board, g.current_color, x, y).len(),
        forall|p: Position| !#[trigger] breakable_row(g.board, g.current_color, alignments_spec(g.board, g.current_color, x, y)[a], p),
    ensures
        update_state_spec(g, x, y) == StateView::Won(g.current_color, false, alignments_spec(g.board, g.current_color, x, y)),
{
    let c = g.current_color;
    let als = alignments_spec(g.board, c, x, y);
    let row = als[a];
    let pred = |q: Position| is_forced(g.board, c, als, false, q);
    let forced = all_cells().filter(pred);
    assert(forced_seq(g.board, c, als, opponent_near_win(g)) == forced);
    if forced.len() > 0 {
        let q = forced[0];
        all_cells().lemma_filter_pred(pred, 0);
        assert(in_break_possibilities(g.board, c, row, q));
        let j = choose|j: int| row.len() - STONES_IN_A_ROW <= j < STONES_IN_A_ROW
            && #[trigger] breaks(g.board, c, (row[j].0 as int, row[j].1 as int), q);
        let sp = (row[j].0 as int, row[j].1 as int);
        let i = choose|i: int| 0 <= i < 8 && #[trigger] breaks_dir(g.board, c, sp, directions8(i), q);
        crate::game::logic::lemma_alignment_rows(g.board, c, x, y, 4, a);
        lemma_alignment_stones(g.board, c, x, y, 4, a, j);
        assert(captures_pair(g.board, c, sp, directions8(i), q));
        assert(breakable_row(g.board, c, row, q));
    }
}

/// The capture steps never lower the count of captured pairs of the player to move, add at
/// most one per step, and add one at step `i` when that step captures.
#[verifier::spinoff_prover]
proof fn lemma_captures_upto_count(h: GameView, x: int, y: int, i: int, k: nat)
    requires
        0 <= i < 8,
        k <= 8,
        h.captures_of(h.current_color) <= 100,
    ensures
        h.captures_of(h.current_color) <= captures_upto(h, x, y, k).captures_of(h.current_color)
            <= h.captures_of(h.current_color) + k,
        k > i && captures_in_dir(captures_upto(h, x, y, i as nat).board, h.current_color, x, y, directions8(i))
            ==> captures_upto(h, x, y, k).captures_of(h.current_color) >= h.captures_of(h.current_color) + 1,
    decreases k,
{
    if k > 0 {
        let j = (k - 1) as nat;
        let c = h.current_color;
        lemma_captures_upto_count(h, x, y, i, j);
        lemma_captures_upto_ray(h, x, y, i, j);
        let prev = captures_upto(h, x, y, j);
        let next = capture_step(prev, x, y, directions8(j as int));
        assert(captures_upto(h, x, y, k) == next);
        assert(prev.current_color == c);
        if captures_in_dir(prev.board, c, x, y, directions8(j as int)) {
            assert(next.captures_of(c) == prev.captures_of(c) + 1);
        } else {
            assert(next == prev);
        }
    }
}

/// The fifth captured pair wins: when the player to move has captured four pairs and the
/// stone played on `(x, y)` brackets two opponent stones against one of its own in any of the
/// eight directions, the move wins the game by captures.
#[verifier::spinoff_prover]
pub proof fn lemma_fifth_capture_wins(g: GameView, x: int, y: int, i: int)
    requires
        can_play(g, x, y),
        0 <= i < 8,
        g.captures_of(g.current_color) + 1 == REQUIRED_CAPTURES,
        holds(g.board, Some(opposite(g.current_color)), x + directions8(i).0, y + directions8(i).1),
        holds(g.board, Some(opposite(g.current_color)), x + 2 * directions8(i).0, y + 2 * directions8(i).1),
        holds(g.board, Some(g.current_color), x + 3 * directions8(i).0, y + 3 * directions8(i).1),
    ensures
        do_spec(g, x, y).state is Won,
        do_spec(g, x, y).state->Won_0 == g.current_color,
        do_spec(g, x, y).state->Won_1,
{
    let g1 = place_spec(g, x, y);
    lemma_step_captures_iff_flanked(g, x, y, i);
    lemma_captures_upto_count(g1, x, y, i, 8);
    lemma_captures_upto_ray(g1, x, y, i, 8);
    assert(captures_upto(g1, x, y, 8).captures_of(g.current_color) >= REQUIRED_CAPTURES);
}

/// The stone on `(x, y)` brackets, in direction `d`, two stones of the opponent of `color`
/// against a stone of `color`.
pub open spec fn flanks_pair(board: Board, color: PlayerColor, x: int, y: int, d: Direction) -> bool {
    &&& holds(board, Some(opposite(color)), x + d.0, y + d.1)
    &&& holds(board, Some(opposite(color)), x + 2 * d.0, y + 2 * d.1)
    &&& holds(board, Some(color), x + 3 * d.0, y + 3 * d.1)
}

/// After the first `k` capture steps a cell holds what it held, or it is one of the two
/// cells of a step among them that captured, and empty.
#[verifier::spinoff_prover]
proof fn lemma_captures_upto_cells(h: GameView, x: int, y: int, k: nat, qx: int, qy: int)
    requires
        k <= 8,
        on_board(qx, qy),
    ensures
        captures_upto(h, x, y, k).board[qy][qx] == h.board[qy][qx] || (captures_upto(h, x, y, k).board[qy][qx]
            == None::<PlayerColor> && exists|i: int| 0 <= i < k
            && #[trigger] captures_in_dir(captures_upto(h, x, y, i as nat).board, h.current_color, x, y, directions8(i))
            && ((qx, qy) == captured1(x, y, directions8(i)) || (qx, qy) == captured2(x, y, directions8(i)))),
    decreases k,
{
    if k > 0 {
        let j = (k - 1) as int;
        lemma_captures_upto_cells(h, x, y, (k - 1) as nat, qx, qy);
        lemma_captures_upto_ray(h, x, y, j, j as nat);
        lemma_capture_step_cell(captures_upto(h, x, y, j as nat), x, y, j, qx, qy);
    }
}

/// Step `i` of the captures of a move captures exactly when the stone on `(x, y)` flanked a
/// pair in direction `i` before the move: the earlier steps leave that ray alone.
#[verifier::spinoff_prover]
proof fn lemma_step_captures_iff_flanked(g: GameView, x: int, y: int, i: int)
    requires
        can_play(g, x, y),
        0 <= i < 8,
    ensures
        captures_in_dir(captures_upto(place_spec(g, x, y), x, y, i as nat).board, g.current_color, x, y, directions8(i))
            == flanks_pair(g.board, g.current_color, x, y, directions8(i)),
{
    let g1 = place_spec(g, x, y);
    let c = g.current_color;
    let d = directions8(i);
    lemma_captures_upto_ray(g1, x, y, i, i as nat);
    let hi = captures_upto(g1, x, y, i as nat);
    assert forall|a: int| 1 <= a <= 3 && on_board(x + a * d.0, y + a * d.1) implies #[trigger] g1.board[y + a * d.1][x + a * d.0]
        == g.board[y + a * d.1][x + a * d.0] by {
        lemma_grid_set_other(g.board, x, y, Some(c), x + a * d.0, y + a * d.1);
    }
    if on_board(x + d.0, y + d.1) {
        assert(hi.board[y + 1 * d.1][x + 1 * d.0] == g.board[y + d.1][x + d.0]);
    }
    if on_board(x + 2 * d.0, y + 2 * d.1) {
        assert(hi.board[y + 2 * d.1][x + 2 * d.0] == g.board[y + 2 * d.1][x + 2 * d.0]);
    }
    if on_board(x + 3 * d.0, y + 3 * d.1) {
        assert(hi.board[y + 3 * d.1][x + 3 * d.0] == g.board[y + 3 * d.1][x + 3 * d.0]);
    }
}

/// A move takes away nothing but flanked pairs: after the move on `(x, y)`, every other cell
/// holds what it held before, or was one of two opponent stones that the stone on `(x, y)`
/// bracketed against a stone of its own, and is now empty.
#[verifier::spinoff_prover]
pub proof fn lemma_move_captures_only_flanked_pairs(g: GameView, x: int, y: int, qx: int, qy: int)
    requires
        can_play(g, x, y),
        on_board(qx, qy),
        (qx, qy) != (x, y),
    ensures
        do_spec(g, x, y).board[qy][qx] == g.board[qy][qx] || (do_spec(g, x, y).board[qy][qx] == None::<PlayerColor>
            && exists|i: int| 0 <= i < 8 && #[trigger] flanks_pair(g.board, g.current_color, x, y, directions8(i))
            && ((qx, qy) == captured1(x, y, directions8(i)) || (qx, qy) == captured2(x, y, directions8(i)))),
{
    let g1 = place_spec(g, x, y);
    let c = g.current_color;
    let g2 = captures_upto(g1, x, y, 8);
    lemma_grid_set_other(g.board, x, y, Some(c), qx, qy);
    assert(g1.board[qy][qx] == g.board[qy][qx]);
    lemma_captures_upto_cells(g1, x, y, 8, qx, qy);
    lemma_captures_upto_ray(g1, x, y, 0, 8);
    assert(g1.current_color == c);
    assert(do_spec(g, x, y).board == g2.board);
    if g2.board[qy][qx] != g.board[qy][qx] {
        let i = choose|i: int| 0 <= i < 8
            && #[trigger] captures_in_dir(captures_upto(g1, x, y, i as nat).board, c, x, y, directions8(i))
            && ((qx, qy) == captured1(x, y, directions8(i)) || (qx, qy) == captured2(x, y, directions8(i)));
        lemma_step_captures_iff_flanked(g, x, y, i);
    }
}

/// One capture from a win is an answer to any alignment: when the opponent of the mover has
/// captured four pairs, every empty cell where a stone of the opponent would flank a pair of
/// the mover is among the moves the opponent may choose from after a move that aligns five,
/// and the move does not win.
#[verifier::spinoff_prover]
pub proof fn lemma_near_win_capture_answers_five(g: GameView, x: int, y: int, p: Position, i: int)
    requires
        g.captures_of(g.current_color) < REQUIRED_CAPTURES,
        opponent_near_win(g),
        alignments_spec(g.board, g.current_color, x, y).len() > 0,
        holds(g.board, None, p.0 as int, p.1 as int),
        0 <= i < 8,
        flanks_pair(g.board, opposite(g.current_color), p.0 as int, p.1 as int, directions8(i)),
    ensures
        !(update_state_spec(g, x, y) is Won),
        update_state_spec(g, x, y) is Playing ==> update_state_spec(g, x, y)->Playing_0.contains(p),
{
    let c = g.current_color;
    let als = alignments_spec(g.board, c, x, y);
    let o = opposite(c);
    assert(opposite(o) == c);
    assert(captures_in_dir(g.board, o, p.0 as int, p.1 as int, directions8(i)));
    assert(capture_cell(g.board, o, p));
    let pred = |q: Position| is_forced(g.board, c, als, true, q);
    assert(pred(p));
    let k = p.1 as int * 19 + p.0 as int;
    lemma_cell_index(k, p.0 as int, p.1 as int);
    assert(all_cells()[k] == p);
    all_cells().lemma_filter_contains(pred, k);
    assert(forced_seq(g.board, c, als, true) == all_cells().filter(pred));
}

} // verus!
