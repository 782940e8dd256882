use crate::game::board::{on_board, Board};
use crate::game::lines::{lemma_line_on_board, line_cell, line_spec, line_values, N_LINES};
use crate::game::logic::GameView;
use crate::heuristics::coeffistic::{black_threat_at, threats, white_threat_at};
use crate::heuristics::new::{
    base_value, board_combos, new_spec, shape_diff, shapes_score, weighted_combos,
};
use crate::heuristics::patterns::{board_shapes, board_threats, shape_at, shapes_before, Shape};
use crate::heuristics::runs::{board_runs, line_runs, run_counts, run_len, runs_before};
use crate::player::{opposite, PlayerColor};
use vstd::prelude::*;

verus! {

/// The content of a cell with the colors swapped.
pub open spec fn swap_cell(v: Option<PlayerColor>) -> Option<PlayerColor> {
    match v {
        Some(c) => Some(opposite(c)),
        None => None,
    }
}

/// A line of cells with the colors swapped.
pub open spec fn swap_seq(vals: Seq<Option<PlayerColor>>) -> Seq<Option<PlayerColor>> {
    vals.map_values(|v: Option<PlayerColor>| swap_cell(v))
}

/// `b2` is `b` with every stone's color swapped.
pub open spec fn boards_swapped(b2: Board, b: Board) -> bool {
    forall|i: int, j: int| on_board(i, j) ==> #[trigger] b2[j][i] == swap_cell(b[j][i])
}

/// `g2` is `g` with the colors swapped: every stone, the captures and the distances to the
/// center change sides.
pub open spec fn colors_swapped(g2: GameView, g: GameView) -> bool {
    &&& boards_swapped(g2.board, g.board)
    &&& g2.black_captures == g.white_captures
    &&& g2.white_captures == g.black_captures
    &&& g2.black_dist_to_center == g.white_dist_to_center
    &&& g2.white_dist_to_center == g.black_dist_to_center
}

/// A swapped cell holds a color exactly when the cell holds the other one.
proof fn lemma_swap_cell(c: PlayerColor)
    ensures
        forall|v: Option<PlayerColor>| (#[trigger] swap_cell(v) == Some(c)) <==> v == Some(opposite(c)),
        forall|v: Option<PlayerColor>| (#[trigger] swap_cell(v) == None::<PlayerColor>) <==> v == None::<PlayerColor>,
        opposite(opposite(c)) == c,
{
}

/// Each line of the swapped board is the line with its colors swapped.
proof fn lemma_line_swap(b2: Board, b: Board, n: int)
    requires
        boards_swapped(b2, b),
        0 <= n < N_LINES,
    ensures
        line_values(b2, line_spec(n)) == swap_seq(line_values(b, line_spec(n))),
{
    let l = line_spec(n);
    assert forall|k: int| 0 <= k < l.2 implies #[trigger] line_values(b2, l)[k] == swap_seq(line_values(b, l))[k] by {
        lemma_line_on_board(n, k);
    }
    assert(line_values(b2, l) =~= swap_seq(line_values(b, l)));
}

/// A run of one color in the swapped line is a run of the other color in the line.
proof fn lemma_run_len_swap(vals: Seq<Option<PlayerColor>>, c: PlayerColor, i: int)
    ensures
        run_len(swap_seq(vals), c, i) == run_len(vals, opposite(c), i),
        run_len(vals, opposite(c), i) >= 0,
    decreases vals.len() - i,
{
    if 0 <= i < vals.len() {
        lemma_run_len_swap(vals, c, i + 1);
    }
}

/// The runs counted in the swapped line are those of the other color in the line.
proof fn lemma_runs_before_swap(vals: Seq<Option<PlayerColor>>, c: PlayerColor, len: int, o: int, k: int)
    requires
        k <= vals.len(),
    ensures
        runs_before(swap_seq(vals), c, len, o, k) == runs_before(vals, opposite(c), len, o, k),
    decreases k,
{
    if k > 0 {
        lemma_runs_before_swap(vals, c, len, o, k - 1);
        let w = swap_seq(vals);
        let i = k - 1;
        assert(w.len() == vals.len());
        lemma_swap_cell(c);
        lemma_run_len_swap(vals, c, i);
        let j = i + run_len(vals, opposite(c), i);
        if i > 0 {
            assert(w[i - 1] == swap_cell(vals[i - 1]));
        }
        if 0 <= j < vals.len() {
            assert(w[j] == swap_cell(vals[j]));
        }
        assert(w[i] == swap_cell(vals[i]));
        assert(crate::heuristics::runs::run_start(w, c, i) == crate::heuristics::runs::run_start(vals, opposite(c), i));
        assert(run_len(w, c, i) == run_len(vals, opposite(c), i));
        assert(crate::heuristics::runs::run_openness(w, c, i) == crate::heuristics::runs::run_openness(vals, opposite(c), i));
        assert(run_counts(w, c, len, o, i) == run_counts(vals, opposite(c), len, o, i));
    }
}

/// The runs of one color on the swapped board are those of the other color on the board.
proof fn lemma_board_runs_swap(b2: Board, b: Board, n: int)
    requires
        boards_swapped(b2, b),
        n <= N_LINES,
    ensures
        forall|c: PlayerColor, len: int, o: int| #[trigger] board_runs(b2, c, len, o, n) == board_runs(b, opposite(c), len, o, n),
    decreases n,
{
    if n > 0 {
        lemma_board_runs_swap(b2, b, n - 1);
        lemma_line_swap(b2, b, n - 1);
        let vals = line_values(b, line_spec(n - 1));
        assert forall|c: PlayerColor, len: int, o: int| #[trigger] board_runs(b2, c, len, o, n) == board_runs(b, opposite(c), len, o, n) by {
            assert(board_runs(b2, c, len, o, n - 1) == board_runs(b, opposite(c), len, o, n - 1));
            assert(swap_seq(vals).len() == vals.len());
            lemma_runs_before_swap(vals, c, len, o, vals.len() as int);
            assert(line_runs(swap_seq(vals), c, len, o) == line_runs(vals, opposite(c), len, o));
        }
    }
}

/// The shapes counted in the swapped line are those of the other color in the line.
proof fn lemma_shapes_before_swap(vals: Seq<Option<PlayerColor>>, shape: Shape, c: PlayerColor, k: int)
    requires
        k <= vals.len(),
    ensures
        shapes_before(swap_seq(vals), shape, c, k) == shapes_before(vals, shape, opposite(c), k),
    decreases k,
{
    if k > 0 {
        lemma_shapes_before_swap(vals, shape, c, k - 1);
        let w = swap_seq(vals);
        let i = k - 1;
        assert forall|j: int| 0 <= j < vals.len() implies #[trigger] w[j] == swap_cell(vals[j]) by {}
        assert(shape_at(w, i, shape, c) == shape_at(vals, i, shape, opposite(c)));
    }
}

/// The shapes of one color on the swapped board are those of the other color on the board.
proof fn lemma_board_shapes_swap(b2: Board, b: Board, shape: Shape, c: PlayerColor, n: int)
    requires
        boards_swapped(b2, b),
        n <= N_LINES,
    ensures
        board_shapes(b2, shape, c, n) == board_shapes(b, shape, opposite(c), n),
    decreases n,
{
    if n > 0 {
        lemma_board_shapes_swap(b2, b, shape, c, n - 1);
        lemma_line_swap(b2, b, n - 1);
        let vals = line_values(b, line_spec(n - 1));
        lemma_shapes_before_swap(vals, shape, c, vals.len() as int);
    }
}

/// The capture threats of one color in the swapped line are those of the other in the line.
proof fn lemma_threats_swap(vals: Seq<Option<PlayerColor>>, black: bool, k: int)
    requires
        k <= vals.len(),
    ensures
        threats(swap_seq(vals), black, k) == threats(vals, !black, k),
    decreases k,
{
    if k > 0 {
        lemma_threats_swap(vals, black, k - 1);
        let w = swap_seq(vals);
        let i = k - 1;
        assert forall|j: int| 0 <= j < vals.len() implies #[trigger] w[j] == swap_cell(vals[j]) by {}
        assert(black_threat_at(w, i) == white_threat_at(vals, i));
        assert(white_threat_at(w, i) == black_threat_at(vals, i));
    }
}

/// The capture threats of one color on the swapped board are those of the other.
proof fn lemma_board_threats_swap(b2: Board, b: Board, black: bool, n: int)
    requires
        boards_swapped(b2, b),
        n <= N_LINES,
    ensures
        board_threats(b2, black, n) == board_threats(b, !black, n),
    decreases n,
{
    if n > 0 {
        lemma_board_threats_swap(b2, b, black, n - 1);
        lemma_line_swap(b2, b, n - 1);
        let vals = line_values(b, line_spec(n - 1));
        lemma_threats_swap(vals, black, vals.len() as int);
    }
}

/// The hand-written heuristic changes sign when the colors are swapped: a position is worth
/// for black what the swapped position is worth for white.
pub proof fn lemma_new_antisymmetric(g2: GameView, g: GameView)
    requires
        colors_swapped(g2, g),
    ensures
        new_spec(g2) == -new_spec(g),
{
    let n = N_LINES as int;
    lemma_board_runs_swap(g2.board, g.board, n);
    lemma_board_threats_swap(g2.board, g.board, true, n);
    lemma_board_threats_swap(g2.board, g.board, false, n);
    lemma_board_shapes_swap(g2.board, g.board, Shape::OpenTwoOne, PlayerColor::Black, n);
    lemma_board_shapes_swap(g2.board, g.board, Shape::OpenTwoOne, PlayerColor::White, n);
    lemma_board_shapes_swap(g2.board, g.board, Shape::TwoTwo, PlayerColor::Black, n);
    lemma_board_shapes_swap(g2.board, g.board, Shape::TwoTwo, PlayerColor::White, n);
    lemma_board_shapes_swap(g2.board, g.board, Shape::OneOneOne, PlayerColor::Black, n);
    lemma_board_shapes_swap(g2.board, g.board, Shape::OneOneOne, PlayerColor::White, n);
    lemma_board_shapes_swap(g2.board, g.board, Shape::ThreeOne, PlayerColor::Black, n);
    lemma_board_shapes_swap(g2.board, g.board, Shape::ThreeOne, PlayerColor::White, n);
    lemma_board_shapes_swap(g2.board, g.board, Shape::LockedFour, PlayerColor::Black, n);
    lemma_board_shapes_swap(g2.board, g.board, Shape::LockedFour, PlayerColor::White, n);
    assert(board_combos(g2, PlayerColor::Black) == board_combos(g, PlayerColor::White));
    assert(board_combos(g2, PlayerColor::White) == board_combos(g, PlayerColor::Black));
    let bw = weighted_combos(board_combos(g, PlayerColor::Black), board_combos(g, PlayerColor::White));
    assert(weighted_combos(board_combos(g, PlayerColor::White), board_combos(g, PlayerColor::Black)) == -bw);
    let d = g.white_dist_to_center - g.black_dist_to_center;
    assert(crate::heuristics::new::trunc_div(-d, 8) == -crate::heuristics::new::trunc_div(d, 8));
    assert(base_value(g2) == -base_value(g));
    assert(shapes_score(g2) == -shapes_score(g));
}

} // verus!
