use crate::bots::{lemma_same_multiset_contains, leaf_spec, leaf_value, neg_wrap, negate, MAX_DEPTH};
use crate::game::board::{Position, BOARD_CENTER};
use crate::game::legal_moves::{lemma_legal_moves_playable, legal_moves_spec};
use crate::game::logic::{do_spec, lemma_do_valid, lemma_playing_ply_bound, lemma_undo_do, valid_game, GameView};
use crate::game::Game;
use crate::heuristics::{valid_heuristic, Heuristic, HeuristicView};
use vstd::prelude::*;

verus! {

/// The value of `g` for the player to move, searched from `depth` down to `MAX_DEPTH` over the
/// moves close to the stones: a leaf value, or the best of the negated values of the
/// positions after each move (the smallest `i64` when there is none).
#[verifier::opaque]
pub open spec fn search_value(h: HeuristicView, g: GameView, depth: int, max_depth: int) -> int
    decreases max_depth - depth, legal_moves_spec(g, true).len() + 1,
{
    match leaf_spec(g, h, depth, max_depth) {
        Some(v) => v,
        None => if 0 <= depth < max_depth {
            search_fold(h, g, legal_moves_spec(g, true), depth, max_depth, legal_moves_spec(g, true).len() as int)
        } else {
            i64::MIN as int
        },
    }
}

/// The best value of a move among the first `k` of `moves`.
pub open spec fn search_fold(h: HeuristicView, g: GameView, moves: Seq<Position>, depth: int, max_depth: int, k: int) -> int
    decreases max_depth - depth, k,
{
    if k <= 0 || !(0 <= depth < max_depth) {
        i64::MIN as int
    } else {
        let prev = search_fold(h, g, moves, depth, max_depth, k - 1);
        let child = neg_wrap(search_value(h, do_spec(g, moves[k - 1].0 as int, moves[k - 1].1 as int), depth + 1, max_depth));
        if child > prev { child } else { prev }
    }
}

/// The value of the move `m` in `g`, for the player to move.
pub open spec fn move_value(h: HeuristicView, g: GameView, depth: int, max_depth: int, m: Position) -> int {
    neg_wrap(search_value(h, do_spec(g, m.0 as int, m.1 as int), depth + 1, max_depth))
}

/// Every leaf of the search of `g` from `depth` has a value of an `i64` other than the
/// smallest one.
pub open spec fn leaves_in_range(h: HeuristicView, g: GameView, depth: int, max_depth: int) -> bool
    decreases max_depth - depth, legal_moves_spec(g, true).len() + 1,
{
    match leaf_spec(g, h, depth, max_depth) {
        Some(v) => -i64::MAX <= v <= i64::MAX,
        None => 0 <= depth < max_depth ==> children_in_range(h, g, legal_moves_spec(g, true), depth, max_depth,
            legal_moves_spec(g, true).len() as int),
    }
}

/// The leaves after each of the first `k` of `moves` are in range.
pub open spec fn children_in_range(h: HeuristicView, g: GameView, moves: Seq<Position>, depth: int, max_depth: int, k: int) -> bool
    decreases max_depth - depth, k,
{
    if k <= 0 || !(0 <= depth < max_depth) {
        true
    } else {
        children_in_range(h, g, moves, depth, max_depth, k - 1)
            && leaves_in_range(h, do_spec(g, moves[k - 1].0 as int, moves[k - 1].1 as int), depth + 1, max_depth)
    }
}

/// The leaves after each of the first `k` moves are in range.
proof fn lemma_children_in_range(h: HeuristicView, g: GameView, moves: Seq<Position>, depth: int, max_depth: int, k: int, i: int)
    requires
        children_in_range(h, g, moves, depth, max_depth, k),
        0 <= depth < max_depth,
        0 <= i < k,
    ensures
        leaves_in_range(h, do_spec(g, moves[i].0 as int, moves[i].1 as int), depth + 1, max_depth),
    decreases k,
{
    if i < k - 1 {
        lemma_children_in_range(h, g, moves, depth, max_depth, k - 1, i);
    }
}

/// In a well-formed game, with a heuristic that has what it needs, every leaf of the search
/// is in range.
pub proof fn lemma_leaves_in_range(h: HeuristicView, g: GameView, depth: int, max_depth: int)
    requires
        valid_game(g),
        valid_heuristic(h),
        0 <= depth <= max_depth <= u32::MAX,
    ensures
        leaves_in_range(h, g, depth, max_depth),
    decreases max_depth - depth, legal_moves_spec(g, true).len() + 1,
{
    if leaf_spec(g, h, depth, max_depth) is Some {
        crate::heuristics::new::lemma_valid_evaluable(g);
        crate::heuristics::bounds::lemma_heuristic_value_bound(h, g);
    } else if depth < max_depth {
        let moves = legal_moves_spec(g, true);
        lemma_children_valid(h, g, moves, depth, max_depth, moves.len() as int);
    }
}

/// The leaves after each of the first `k` moves close to the stones are in range.
proof fn lemma_children_valid(h: HeuristicView, g: GameView, moves: Seq<Position>, depth: int, max_depth: int, k: int)
    requires
        valid_game(g),
        valid_heuristic(h),
        g.state is Playing,
        moves == legal_moves_spec(g, true),
        0 <= depth < max_depth <= u32::MAX,
        0 <= k <= moves.len(),
    ensures
        children_in_range(h, g, moves, depth, max_depth, k),
    decreases max_depth - depth, k,
{
    if k > 0 {
        lemma_children_valid(h, g, moves, depth, max_depth, k - 1);
        let m = moves[k - 1];
        lemma_legal_moves_playable(g, true, k - 1);
        lemma_playing_ply_bound(g);
        lemma_do_valid(g, m.0 as int, m.1 as int);
        lemma_leaves_in_range(h, do_spec(g, m.0 as int, m.1 as int), depth + 1, max_depth);
    }
}

/// One step of the definition of `search_value`.
pub(crate) proof fn lemma_search_value_unfold(h: HeuristicView, g: GameView, depth: int, max_depth: int)
    ensures
        leaf_spec(g, h, depth, max_depth) is Some ==> search_value(h, g, depth, max_depth)
            == leaf_spec(g, h, depth, max_depth).unwrap(),
        leaf_spec(g, h, depth, max_depth) is None && 0 <= depth < max_depth ==> search_value(h, g, depth, max_depth)
            == search_fold(h, g, legal_moves_spec(g, true), depth, max_depth, legal_moves_spec(g, true).len() as int),
{
    reveal(search_value);
}

/// One step of the definition of `leaves_in_range`.
pub(crate) proof fn lemma_in_range_unfold(h: HeuristicView, g: GameView, depth: int, max_depth: int, i: int)
    requires
        leaves_in_range(h, g, depth, max_depth),
    ensures
        leaf_spec(g, h, depth, max_depth) is Some ==> -i64::MAX <= leaf_spec(g, h, depth, max_depth).unwrap() <= i64::MAX,
        leaf_spec(g, h, depth, max_depth) is None && 0 <= depth < max_depth && 0 <= i < legal_moves_spec(g, true).len()
            ==> leaves_in_range(h, do_spec(g, legal_moves_spec(g, true)[i].0 as int, legal_moves_spec(g, true)[i].1 as int), depth + 1, max_depth),
{
    let moves = legal_moves_spec(g, true);
    if leaf_spec(g, h, depth, max_depth) is None && 0 <= depth < max_depth && 0 <= i < moves.len() {
        lemma_children_in_range(h, g, moves, depth, max_depth, moves.len() as int, i);
    }
}

/// When the leaves are in range, so is the value of the search.
pub(crate) proof fn lemma_search_value_range(h: HeuristicView, g: GameView, depth: int, max_depth: int)
    requires
        leaves_in_range(h, g, depth, max_depth),
        depth <= max_depth,
    ensures
        i64::MIN <= search_value(h, g, depth, max_depth) <= i64::MAX,
    decreases max_depth - depth,
{
    lemma_search_value_unfold(h, g, depth, max_depth);
    lemma_in_range_unfold(h, g, depth, max_depth, 0);
    if leaf_spec(g, h, depth, max_depth) is None {
        if 0 <= depth < max_depth {
            let moves = legal_moves_spec(g, true);
            lemma_search_fold(h, g, moves, depth, max_depth, moves.len() as int);
            let v = search_value(h, g, depth, max_depth);
            if v != i64::MIN {
                let i = choose|i: int| 0 <= i < moves.len() && #[trigger] move_value(h, g, depth, max_depth, moves[i]) == v;
                lemma_in_range_unfold(h, g, depth, max_depth, i);
                lemma_search_value_range(h, do_spec(g, moves[i].0 as int, moves[i].1 as int), depth + 1, max_depth);
            }
        } else {
            reveal(search_value);
        }
    }
}

/// The best value among the first `k` moves is at least the value of each of them, and is
/// the value of one of them, or the smallest `i64` when none is better.
proof fn lemma_search_fold(h: HeuristicView, g: GameView, moves: Seq<Position>, depth: int, max_depth: int, k: int)
    requires
        0 <= depth < max_depth,
        0 <= k <= moves.len(),
    ensures
        forall|i: int| 0 <= i < k ==> move_value(h, g, depth, max_depth, #[trigger] moves[i]) <= search_fold(h, g, moves, depth, max_depth, k),
        search_fold(h, g, moves, depth, max_depth, k) == i64::MIN || exists|i: int|
            0 <= i < k && #[trigger] move_value(h, g, depth, max_depth, moves[i]) == search_fold(h, g, moves, depth, max_depth, k),
    decreases k,
{
    if k > 0 {
        lemma_search_fold(h, g, moves, depth, max_depth, k - 1);
        let v = search_fold(h, g, moves, depth, max_depth, k);
        let prev = search_fold(h, g, moves, depth, max_depth, k - 1);
        let child = neg_wrap(search_value(h, do_spec(g, moves[k - 1].0 as int, moves[k - 1].1 as int), depth + 1, max_depth));
        assert(v == (if child > prev { child } else { prev })) by {
            reveal(search_value);
        }
        assert(child == move_value(h, g, depth, max_depth, moves[k - 1]));
        assert(move_value(h, g, depth, max_depth, moves[k - 1]) <= v);
        if v != i64::MIN && v != search_fold(h, g, moves, depth, max_depth, k - 1) {
            assert(move_value(h, g, depth, max_depth, moves[k - 1]) == v);
        }
    }
}

/// The value of a position that is not a leaf, compared with the values of the moves close
/// to the stones, in any order (`moves` holds them, counted with multiplicity).
pub(crate) proof fn lemma_search_value_bounds(h: HeuristicView, g: GameView, depth: int, max_depth: int, moves: Seq<Position>)
    requires
        0 <= depth < max_depth,
        leaf_spec(g, h, depth, max_depth) is None,
        moves.to_multiset() == legal_moves_spec(g, true).to_multiset(),
    ensures
        forall|i: int| 0 <= i < moves.len() ==> move_value(h, g, depth, max_depth, #[trigger] moves[i]) <= search_value(h, g, depth, max_depth),
        search_value(h, g, depth, max_depth) == i64::MIN || exists|i: int|
            0 <= i < moves.len() && #[trigger] move_value(h, g, depth, max_depth, moves[i]) == search_value(h, g, depth, max_depth),
{
    let spec_moves = legal_moves_spec(g, true);
    lemma_search_fold(h, g, spec_moves, depth, max_depth, spec_moves.len() as int);
    let v = search_value(h, g, depth, max_depth);
    lemma_search_value_unfold(h, g, depth, max_depth);
    assert forall|i: int| 0 <= i < moves.len() implies move_value(h, g, depth, max_depth, #[trigger] moves[i]) <= v by {
        assert(moves.contains(moves[i]));
        lemma_same_multiset_contains(moves, spec_moves, moves[i]);
        let j = choose|j: int| 0 <= j < spec_moves.len() && spec_moves[j] == moves[i];
        assert(move_value(h, g, depth, max_depth, spec_moves[j]) <= v);
    }
    if v != i64::MIN {
        let j = choose|j: int| 0 <= j < spec_moves.len() && #[trigger] move_value(h, g, depth, max_depth, spec_moves[j]) == v;
        assert(spec_moves.contains(spec_moves[j]));
        lemma_same_multiset_contains(spec_moves, moves, spec_moves[j]);
        let i = choose|i: int| 0 <= i < moves.len() && moves[i] == spec_moves[j];
        assert(move_value(h, g, depth, max_depth, moves[i]) == v);
    }
}

/// Where the alpha-beta loop over the moves of a position stands: the best value so far, the
/// lower end of the window as raised by it, whether a value above the upper end stopped the
/// loop, and the last move recorded as best.
pub struct WindowState {
    pub best: int,
    pub alpha: int,
    pub cut: bool,
    pub chosen: Position,
}

/// The value that the alpha-beta search of `g` from `depth` returns in the window
/// `alpha ..= beta`, trying the moves of `g` in the order `order` (and, below, the moves close
/// to the stones in row-major order): a leaf value, or the best value the loop over `order`
/// reached.
#[verifier::opaque]
pub open spec fn window_search(h: HeuristicView, g: GameView, depth: int, alpha: int, beta: int, order: Seq<Position>) -> int
    decreases MAX_DEPTH - depth, order.len() + 1,
{
    match leaf_spec(g, h, depth, MAX_DEPTH as int) {
        Some(v) => v,
        None => if 0 <= depth < MAX_DEPTH {
            window_loop(h, g, order, depth, alpha, beta, order.len() as int).best
        } else {
            i64::MIN as int
        },
    }
}

/// The alpha-beta loop over the first `k` moves of `order`: each move not cut off gets the
/// negated value of the search after it in the window `-beta ..= -alpha`, with `alpha` raised
/// to the best value so far; a best value above `beta` stops the loop; a move whose value
/// equals the best so far is recorded.
pub open spec fn window_loop(h: HeuristicView, g: GameView, order: Seq<Position>, depth: int, alpha: int, beta: int, k: int) -> WindowState
    decreases MAX_DEPTH - depth, k,
{
    if k <= 0 || !(0 <= depth < MAX_DEPTH) {
        WindowState { best: i64::MIN as int, alpha, cut: false, chosen: (usize::MAX, usize::MAX) }
    } else {
        let s = window_loop(h, g, order, depth, alpha, beta, k - 1);
        if s.cut {
            s
        } else {
            let m = order[k - 1];
            let g2 = do_spec(g, m.0 as int, m.1 as int);
            let v = neg_wrap(window_search(h, g2, depth + 1, -beta, -s.alpha, legal_moves_spec(g2, true)));
            let best = if v > s.best { v } else { s.best };
            WindowState {
                best,
                alpha: if best > s.alpha { best } else { s.alpha },
                cut: best > beta,
                chosen: if v == best { m } else { s.chosen },
            }
        }
    }
}

/// The move the alpha-beta bot plays in `g`, trying the moves in the order `order` at the
/// root: the move recorded by the loop, or `(usize::MAX, usize::MAX)` when the game is over.
pub open spec fn window_choice(h: HeuristicView, g: GameView, order: Seq<Position>) -> Position {
    if leaf_spec(g, h, 0, MAX_DEPTH as int) is Some {
        (usize::MAX, usize::MAX)
    } else {
        window_loop(h, g, order, 0, -i64::MAX, i64::MAX as int, order.len() as int).chosen
    }
}

/// One step of the definition of `window_search`.
proof fn lemma_window_search_unfold(h: HeuristicView, g: GameView, depth: int, alpha: int, beta: int, order: Seq<Position>)
    ensures
        window_search(h, g, depth, alpha, beta, order) == (match leaf_spec(g, h, depth, MAX_DEPTH as int) {
            Some(v) => v,
            None => if 0 <= depth < MAX_DEPTH {
                window_loop(h, g, order, depth, alpha, beta, order.len() as int).best
            } else {
                i64::MIN as int
            },
        }),
{
    reveal(window_search);
}

/// One step of the definition of `window_loop`.
proof fn lemma_window_loop_step(h: HeuristicView, g: GameView, order: Seq<Position>, depth: int, alpha: int, beta: int, k: int)
    requires
        0 < k,
        0 <= depth < MAX_DEPTH,
    ensures
        window_loop(h, g, order, depth, alpha, beta, k) == ({
            let s = window_loop(h, g, order, depth, alpha, beta, k - 1);
            if s.cut {
                s
            } else {
                let m = order[k - 1];
                let g2 = do_spec(g, m.0 as int, m.1 as int);
                let v = neg_wrap(window_search(h, g2, depth + 1, -beta, -s.alpha, legal_moves_spec(g2, true)));
                let best = if v > s.best { v } else { s.best };
                WindowState {
                    best,
                    alpha: if best > s.alpha { best } else { s.alpha },
                    cut: best > beta,
                    chosen: if v == best { m } else { s.chosen },
                }
            }
        }),
{
    reveal(window_search);
}

/// Once the loop is cut off, later moves change nothing.
proof fn lemma_window_loop_cut(h: HeuristicView, g: GameView, order: Seq<Position>, depth: int, alpha: int, beta: int, k: int, j: int)
    requires
        0 <= depth < MAX_DEPTH,
        0 < k <= j,
        window_loop(h, g, order, depth, alpha, beta, k).cut,
    ensures
        window_loop(h, g, order, depth, alpha, beta, j) == window_loop(h, g, order, depth, alpha, beta, k),
    decreases j - k,
{
    if j > k {
        lemma_window_loop_cut(h, g, order, depth, alpha, beta, k, j - 1);
        lemma_window_loop_step(h, g, order, depth, alpha, beta, j);
    }
}

/// The alpha-beta bot: searches down to `MAX_DEPTH`, trying the moves close to the stones in
/// a random order at the root, and plays the move the search last recorded as best there
/// (`window_choice` for that order; the center on an empty board, `(usize::MAX, usize::MAX)`
/// when there is no move to try). A move recorded on a tie with a value that only bounds its
/// own from above can be replaced in this way, so the move need not be of best value.
pub fn alpha_beta_pruning(game: &Game, heuristic: &Heuristic) -> (res: Position)
    requires
        valid_game(game@),
        valid_heuristic(heuristic@),
    ensures
        game@.ply == 0 ==> res == BOARD_CENTER,
        game@.ply > 0 && game@.state is Playing && legal_moves_spec(game@, true).len() > 0 ==> legal_moves_spec(game@, true).contains(res),
        game@.ply > 0 && !(game@.state is Playing && legal_moves_spec(game@, true).len() > 0) ==> res == (usize::MAX, usize::MAX),
        game@.ply > 0 ==> exists|order: Seq<Position>| order.to_multiset() == legal_moves_spec(game@, true).to_multiset()
            && res == window_choice(heuristic@, game@, order),
{
    if game.ply == 0 {
        return BOARD_CENTER;
    }
    let ghost g = game@;
    let mut best_move: Position = (usize::MAX, usize::MAX);
    let mut game = game.copy();
    alpha_beta_pruning_helper(&mut game, heuristic, 0, -i64::MAX, i64::MAX, &mut best_move);
    proof {
        let order = choose|order: Seq<Position>| order.to_multiset() == legal_moves_spec(g, true).to_multiset()
            && best_move == (if leaf_spec(g, heuristic@, 0, MAX_DEPTH as int) is Some {
                (usize::MAX, usize::MAX)
            } else {
                window_loop(heuristic@, g, order, 0, -i64::MAX, i64::MAX as int, order.len() as int).chosen
            });
        assert(best_move == window_choice(heuristic@, g, order));
    }
    best_move
}

/// The alpha-beta search of `game` from `depth`, in the window `min_h ..= max_h`: its value
/// is `search_value` when it lies strictly inside the window, and otherwise a bound of it on
/// the side of the window it fell on. At the root (`depth == 0`) it records in `best_move` a
/// move whose value was at least that of every move tried before it.
#[verifier::spinoff_prover]
#[verifier::rlimit(60)]
pub fn alpha_beta_pruning_helper(
    game: &mut Game,
    heuristic: &Heuristic,
    depth: usize,
    min_h: i64,
    max_h: i64,
    best_move: &mut Position,
) -> (res: i64)
    requires
        valid_game(old(game)@),
        valid_heuristic(heuristic@),
        depth <= MAX_DEPTH,
        -i64::MAX <= min_h <= max_h,
        depth == 0 ==> *old(best_move) == (usize::MAX, usize::MAX),
    ensures
        final(game)@ == old(game)@,
        ({
            let v = search_value(heuristic@, old(game)@, depth as int, MAX_DEPTH as int);
            &&& (res == i64::MIN) <==> (v == i64::MIN)
            &&& res <= min_h ==> v <= res
            &&& res >= max_h ==> v >= res
            &&& min_h < res < max_h ==> v == res
        }),
        depth > 0 ==> *final(best_move) == *old(best_move),
        depth == 0 && old(game)@.state is Playing && legal_moves_spec(old(game)@, true).len() > 0 ==>
            legal_moves_spec(old(game)@, true).contains(*final(best_move)),
        depth == 0 && !(old(game)@.state is Playing && legal_moves_spec(old(game)@, true).len() > 0) ==>
            *final(best_move) == *old(best_move),
        depth > 0 ==> res == window_search(heuristic@, old(game)@, depth as int, min_h as int, max_h as int,
            legal_moves_spec(old(game)@, true)),
        depth == 0 ==> exists|order: Seq<Position>| order.to_multiset() == legal_moves_spec(old(game)@, true).to_multiset()
            && res == window_search(heuristic@, old(game)@, 0, min_h as int, max_h as int, order)
            && *final(best_move) == (if leaf_spec(old(game)@, heuristic@, 0, MAX_DEPTH as int) is Some {
                *old(best_move)
            } else {
                window_loop(heuristic@, old(game)@, order, 0, min_h as int, max_h as int, order.len() as int).chosen
            }),
    decreases MAX_DEPTH - depth,
{
    let ghost g = game@;
    let ghost b0 = *best_move;
    let ghost h = heuristic@;
    let ghost a0 = min_h as int;
    proof {
        lemma_leaves_in_range(h, g, depth as int, MAX_DEPTH as int);
    }
    if let Some(v) = leaf_value(game, heuristic, depth, MAX_DEPTH) {
        proof {
            lemma_search_value_unfold(h, g, depth as int, MAX_DEPTH as int);
            lemma_window_search_unfold(h, g, depth as int, a0, max_h as int, legal_moves_spec(g, true));
        }
        return v;
    }
    let close_moves = game.get_legal_moves(Some(2), depth == 0);
    proof {
        lemma_window_search_unfold(h, g, depth as int, a0, max_h as int, legal_moves_spec(g, true));
    }
    let ghost spec_moves = legal_moves_spec(g, true);
    let mut min_h = min_h;
    let mut best_h: i64 = i64::MIN;
    let mut k: usize = 0;
    while k < close_moves.len()
        invariant_except_break
            best_h <= max_h,
        invariant
            k <= close_moves.len(),
            game@ == g,
            h == heuristic@,
            valid_game(g),
            valid_heuristic(heuristic@),
            depth < MAX_DEPTH,
            g.state is Playing,
            leaf_spec(g, h, depth as int, MAX_DEPTH as int) is None,
            spec_moves == legal_moves_spec(g, true),
            close_moves@.to_multiset() == spec_moves.to_multiset(),
            -i64::MAX <= a0 <= max_h,
            min_h == (if best_h > a0 { best_h as int } else { a0 }),
            k == 0 ==> best_h == i64::MIN,
            leaves_in_range(h, g, depth as int, MAX_DEPTH as int),
            forall|i: int| 0 <= i < k ==> i64::MIN <= #[trigger] move_value(h, g, depth as int, MAX_DEPTH as int, close_moves@[i]) <= i64::MAX,
            best_h == i64::MIN ==> forall|i: int| 0 <= i < k ==> #[trigger] move_value(h, g, depth as int, MAX_DEPTH as int, close_moves@[i]) == i64::MIN,
            best_h != i64::MIN ==> exists|i: int| 0 <= i < k && #[trigger] move_value(h, g, depth as int, MAX_DEPTH as int, close_moves@[i]) != i64::MIN,
            best_h <= a0 || best_h < max_h ==> forall|i: int| 0 <= i < k ==> #[trigger] move_value(h, g, depth as int, MAX_DEPTH as int, close_moves@[i]) <= best_h,
            a0 < best_h < max_h ==> exists|i: int| 0 <= i < k && #[trigger] move_value(h, g, depth as int, MAX_DEPTH as int, close_moves@[i]) == best_h,
            best_h >= max_h ==> exists|i: int| 0 <= i < k && #[trigger] move_value(h, g, depth as int, MAX_DEPTH as int, close_moves@[i]) >= best_h,
            depth > 0 ==> *best_move == b0,
            depth == 0 && k > 0 ==> close_moves@.take(k as int).contains(*best_move),
            depth == 0 && k == 0 ==> *best_move == b0,
            depth > 0 ==> close_moves@ == spec_moves,
            window_loop(h, g, close_moves@, depth as int, a0, max_h as int, k as int).best == best_h,
            window_loop(h, g, close_moves@, depth as int, a0, max_h as int, k as int).alpha == min_h,
            window_loop(h, g, close_moves@, depth as int, a0, max_h as int, k as int).cut == (best_h > max_h),
            depth == 0 ==> window_loop(h, g, close_moves@, depth as int, a0, max_h as int, k as int).chosen == *best_move,
        ensures
            best_h > max_h || k == close_moves.len(),
            k > 0 || close_moves.len() == 0,
        decreases close_moves.len() - k,
    {
        let (x, y) = close_moves[k];
        let ghost m = close_moves@[k as int];
        proof {
            assert(close_moves@.contains(close_moves@[k as int]));
            lemma_same_multiset_contains(close_moves@, spec_moves, (x, y));
            let i = choose|i: int| 0 <= i < spec_moves.len() && spec_moves[i] == (x, y);
            lemma_legal_moves_playable(g, true, i);
            lemma_playing_ply_bound(g);
            lemma_undo_do(g, x as int, y as int);
            lemma_in_range_unfold(h, g, depth as int, MAX_DEPTH as int, i);
            lemma_search_value_range(h, do_spec(g, x as int, y as int), depth + 1, MAX_DEPTH as int);
        }
        game.do_move(x, y);
        let c = alpha_beta_pruning_helper(game, heuristic, depth + 1, -max_h, -min_h, best_move);
        let h_move = negate(c);
        game.undo_last_move();
        let ghost old_best = best_h;
        let ghost alpha = min_h;
        proof {
            lemma_window_loop_step(h, g, close_moves@, depth as int, a0, max_h as int, k + 1);
            let vc = search_value(h, do_spec(g, x as int, y as int), depth + 1, MAX_DEPTH as int);
            assert(m == (x, y));
            assert(move_value(h, g, depth as int, MAX_DEPTH as int, m) == neg_wrap(vc));
        }
        if h_move > best_h {
            best_h = h_move;
        }
        if depth == 0 && h_move == best_h {
            *best_move = (x, y);
        }
        proof {
            assert(close_moves@.take(k + 1) =~= close_moves@.take(k as int).push((x, y)));
            crate::game::state::lemma_push_contains(close_moves@.take(k as int), (x, y));
            if depth == 0 {
                assert(close_moves@.take(k + 1).contains(*best_move));
            }
        }
        proof {
            let kk = k as int;
            let cv = move_value(h, g, depth as int, MAX_DEPTH as int, m);
            assert((h_move == i64::MIN) <==> (cv == i64::MIN));
            assert(h_move <= alpha ==> cv <= h_move);
            assert(h_move >= max_h ==> cv >= h_move);
            assert(alpha < h_move < max_h ==> cv == h_move);
            assert(close_moves@[kk] == m);
            if best_h != i64::MIN && h_move != i64::MIN {
                assert(move_value(h, g, depth as int, MAX_DEPTH as int, close_moves@[kk]) != i64::MIN);
            }
            if a0 < best_h < max_h && h_move > old_best {
                assert(move_value(h, g, depth as int, MAX_DEPTH as int, close_moves@[kk]) == best_h);
            }
            if best_h >= max_h && h_move == best_h {
                assert(move_value(h, g, depth as int, MAX_DEPTH as int, close_moves@[kk]) >= best_h);
            }
        }
        if best_h > min_h {
            min_h = best_h;
        }
        k += 1;
        if best_h > max_h {
            break;
        }
    }
    proof {
        if depth == 0 && k > 0 {
            let p = *best_move;
            let i = choose|i: int| 0 <= i < close_moves@.take(k as int).len() && close_moves@.take(k as int)[i] == p;
            assert(close_moves@[i] == p);
            assert(close_moves@.contains(p));
            lemma_same_multiset_contains(close_moves@, spec_moves, p);
        }
        if spec_moves.len() > 0 {
            close_moves@.to_multiset_ensures();
            spec_moves.to_multiset_ensures();
            assert(spec_moves.to_multiset().count(spec_moves[0]) > 0);
            assert(close_moves@.len() > 0);
        }
        lemma_search_value_bounds(h, g, depth as int, MAX_DEPTH as int, close_moves@);
        if k < close_moves.len() {
            lemma_window_loop_cut(h, g, close_moves@, depth as int, a0, max_h as int, k as int, close_moves.len() as int);
        }
        lemma_window_search_unfold(h, g, depth as int, a0, max_h as int, close_moves@);
        if depth == 0 {
            assert(close_moves@.to_multiset() == legal_moves_spec(g, true).to_multiset());
        }
    }
    best_h
}

} // verus!
