use crate::algorithms::close_moves_spec;
use crate::bots::lemma_same_multiset_contains;
use crate::game::board::{Position, BOARD_CENTER};
use crate::game::legal_moves::{lemma_legal_moves_playable, legal_moves_spec};
use crate::game::logic::{can_play, do_spec, lemma_do_valid, lemma_playing_ply_bound, lemma_undo_do, valid_game, GameView};
use crate::game::state::GameState;
use crate::game::Game;
use crate::heuristics::{evaluate, heuristic_value, valid_heuristic, Heuristic, HeuristicView};
use crate::player::PlayerColor;
use vstd::prelude::*;

verus! {

/// Number of plies the search looks ahead.
pub const SEARCH_DEPTH: usize = 4;

/// The player to move at an even depth is the one the search maximizes for.
pub open spec fn maximizing(depth: int) -> bool {
    depth % 2 == 0
}

/// The heuristic value of `g` for the player to move.
pub open spec fn horizon_value(h: HeuristicView, g: GameView) -> int {
    if g.current_color == PlayerColor::Black { heuristic_value(h, g) } else { -heuristic_value(h, g) }
}

/// The minimax value of `g` reached at `depth` plies from the root: the smallest `i64` when
/// the player who just moved at a minimizing depth has won (the largest when at a maximizing
/// one), the heuristic value at the horizon, 0 for a draw or when no move is close to the
/// stones, and otherwise the best of the values after each move close to the stones (highest
/// at an even depth, lowest at an odd one).
#[verifier::opaque]
pub open spec fn ab_value(h: HeuristicView, g: GameView, depth: int) -> int
    decreases SEARCH_DEPTH - depth, close_moves_spec(g, 1).len() + 1,
{
    if g.state is Won {
        if maximizing(depth) { i64::MIN as int } else { i64::MAX as int }
    } else if depth == SEARCH_DEPTH {
        horizon_value(h, g)
    } else if !(g.state is Playing) || !(0 <= depth < SEARCH_DEPTH) || close_moves_spec(g, 1).len() == 0 {
        0
    } else {
        ab_fold(h, g, close_moves_spec(g, 1), depth, close_moves_spec(g, 1).len() as int)
    }
}

/// The best value after one of the first `k` of `moves`, starting from the worst `i64` for
/// the player at `depth`.
pub open spec fn ab_fold(h: HeuristicView, g: GameView, moves: Seq<Position>, depth: int, k: int) -> int
    decreases SEARCH_DEPTH - depth, k,
{
    if k <= 0 || !(0 <= depth < SEARCH_DEPTH) {
        if maximizing(depth) { i64::MIN as int } else { i64::MAX as int }
    } else {
        let prev = ab_fold(h, g, moves, depth, k - 1);
        let child = ab_value(h, do_spec(g, moves[k - 1].0 as int, moves[k - 1].1 as int), depth + 1);
        if maximizing(depth) {
            if child > prev { child } else { prev }
        } else {
            if child < prev { child } else { prev }
        }
    }
}

/// The value of the position after the move `m` in `g`.
pub open spec fn ab_move_value(h: HeuristicView, g: GameView, depth: int, m: Position) -> int {
    ab_value(h, do_spec(g, m.0 as int, m.1 as int), depth + 1)
}

/// One step of the definition of `ab_value`.
proof fn lemma_ab_value_unfold(h: HeuristicView, g: GameView, depth: int)
    ensures
        ab_value(h, g, depth) == (if g.state is Won {
            if maximizing(depth) { i64::MIN as int } else { i64::MAX as int }
        } else if depth == SEARCH_DEPTH {
            horizon_value(h, g)
        } else if !(g.state is Playing) || !(0 <= depth < SEARCH_DEPTH) || close_moves_spec(g, 1).len() == 0 {
            0
        } else {
            ab_fold(h, g, close_moves_spec(g, 1), depth, close_moves_spec(g, 1).len() as int)
        }),
{
    reveal(ab_value);
}

/// A move close to the stones is a move the game accepts.
proof fn lemma_close_move_playable(g: GameView, i: int)
    requires
        valid_game(g),
        g.state is Playing,
        0 <= i < close_moves_spec(g, 1).len(),
    ensures
        can_play(g, close_moves_spec(g, 1)[i].0 as int, close_moves_spec(g, 1)[i].1 as int),
{
    let legal = legal_moves_spec(g, false);
    let pred = |p: Position| crate::algorithms::near_played(g.moves, p, 1);
    let m = close_moves_spec(g, 1)[i];
    assert(close_moves_spec(g, 1) == legal.filter(pred));
    assert(legal.filter(pred).contains(m));
    legal.lemma_filter_contains_rev(pred, m);
    let j = choose|j: int| 0 <= j < legal.len() && legal[j] == m;
    lemma_legal_moves_playable(g, false, j);
    lemma_playing_ply_bound(g);
}

/// The best value among the first `k` of `moves` bounds the value of each of them (from
/// above at a maximizing depth, from below otherwise), and is one of them when `k > 0`.
proof fn lemma_ab_fold(h: HeuristicView, g: GameView, moves: Seq<Position>, depth: int, k: int)
    requires
        0 <= depth < SEARCH_DEPTH,
        0 <= k <= moves.len(),
    ensures
        maximizing(depth) ==> forall|i: int| 0 <= i < k ==> ab_move_value(h, g, depth, #[trigger] moves[i]) <= ab_fold(h, g, moves, depth, k),
        !maximizing(depth) ==> forall|i: int| 0 <= i < k ==> ab_move_value(h, g, depth, #[trigger] moves[i]) >= ab_fold(h, g, moves, depth, k),
        ab_fold(h, g, moves, depth, k) == (if maximizing(depth) { i64::MIN as int } else { i64::MAX as int })
            || exists|i: int| 0 <= i < k && #[trigger] ab_move_value(h, g, depth, moves[i]) == ab_fold(h, g, moves, depth, k),
    decreases k,
{
    if k > 0 {
        lemma_ab_fold(h, g, moves, depth, k - 1);
        let v = ab_fold(h, g, moves, depth, k);
        let prev = ab_fold(h, g, moves, depth, k - 1);
        let child = ab_move_value(h, g, depth, moves[k - 1]);
        assert(v == (if maximizing(depth) {
            if child > prev { child } else { prev }
        } else {
            if child < prev { child } else { prev }
        })) by {
            reveal(ab_value);
        }
        if v == child {
            assert(ab_move_value(h, g, depth, moves[k - 1]) == v);
        }
    }
}

/// Every value of the search fits in an `i64`.
pub proof fn lemma_ab_value_range(h: HeuristicView, g: GameView, depth: int)
    requires
        valid_game(g),
        valid_heuristic(h),
        0 <= depth <= SEARCH_DEPTH,
    ensures
        i64::MIN <= ab_value(h, g, depth) <= i64::MAX,
    decreases SEARCH_DEPTH - depth,
{
    lemma_ab_value_unfold(h, g, depth);
    if !(g.state is Won) && depth == SEARCH_DEPTH {
        crate::heuristics::new::lemma_valid_evaluable(g);
        crate::heuristics::bounds::lemma_heuristic_value_bound(h, g);
    } else if !(g.state is Won) && g.state is Playing && depth < SEARCH_DEPTH && close_moves_spec(g, 1).len() > 0 {
        let moves = close_moves_spec(g, 1);
        let v = ab_fold(h, g, moves, depth, moves.len() as int);
        lemma_ab_fold(h, g, moves, depth, moves.len() as int);
        if v != i64::MIN && v != i64::MAX {
            let i = choose|i: int| 0 <= i < moves.len() && #[trigger] ab_move_value(h, g, depth, moves[i]) == v;
            lemma_close_move_playable(g, i);
            lemma_do_valid(g, moves[i].0 as int, moves[i].1 as int);
            lemma_ab_value_range(h, do_spec(g, moves[i].0 as int, moves[i].1 as int), depth + 1);
        }
    }
}

/// The value of a position inside the search, compared with the values of the moves close
/// to the stones taken in any order (`moves` holds them, counted with multiplicity).
proof fn lemma_ab_value_bounds(h: HeuristicView, g: GameView, depth: int, moves: Seq<Position>)
    requires
        0 <= depth < SEARCH_DEPTH,
        g.state is Playing,
        close_moves_spec(g, 1).len() > 0,
        moves.to_multiset() == close_moves_spec(g, 1).to_multiset(),
    ensures
        maximizing(depth) ==> forall|i: int| 0 <= i < moves.len() ==> ab_move_value(h, g, depth, #[trigger] moves[i]) <= ab_value(h, g, depth),
        !maximizing(depth) ==> forall|i: int| 0 <= i < moves.len() ==> ab_move_value(h, g, depth, #[trigger] moves[i]) >= ab_value(h, g, depth),
        ab_value(h, g, depth) == (if maximizing(depth) { i64::MIN as int } else { i64::MAX as int })
            || exists|i: int| 0 <= i < moves.len() && #[trigger] ab_move_value(h, g, depth, moves[i]) == ab_value(h, g, depth),
{
    let spec_moves = close_moves_spec(g, 1);
    lemma_ab_fold(h, g, spec_moves, depth, spec_moves.len() as int);
    lemma_ab_value_unfold(h, g, depth);
    let v = ab_value(h, g, depth);
    assert forall|i: int| 0 <= i < moves.len() implies exists|j: int| 0 <= j < spec_moves.len() && spec_moves[j] == #[trigger] moves[i] by {
        assert(moves.contains(moves[i]));
        lemma_same_multiset_contains(moves, spec_moves, moves[i]);
    }
    assert forall|i: int| 0 <= i < moves.len() implies (maximizing(depth) ==> ab_move_value(h, g, depth, #[trigger] moves[i]) <= v)
        && (!maximizing(depth) ==> ab_move_value(h, g, depth, moves[i]) >= v) by {
        let j = choose|j: int| 0 <= j < spec_moves.len() && spec_moves[j] == moves[i];
        assert(ab_move_value(h, g, depth, spec_moves[j]) == ab_move_value(h, g, depth, moves[i]));
    }
    if v != (if maximizing(depth) { i64::MIN as int } else { i64::MAX as int }) {
        let j = choose|j: int| 0 <= j < spec_moves.len() && #[trigger] ab_move_value(h, g, depth, spec_moves[j]) == v;
        assert(spec_moves.contains(spec_moves[j]));
        lemma_same_multiset_contains(spec_moves, moves, spec_moves[j]);
        let i = choose|i: int| 0 <= i < moves.len() && moves[i] == spec_moves[j];
        assert(ab_move_value(h, g, depth, moves[i]) == v);
    }
}

/// The alpha-beta search of `game`, `depth` plies below the root, in the window
/// `min_score ..= max_score`: its value is `ab_value` when it lies strictly inside the
/// window, and otherwise a bound of it on the side of the window it fell on.
#[verifier::spinoff_prover]
#[verifier::rlimit(80)]
pub fn _alpha_beta_pruning(game: &mut Game, heuristic: &Heuristic, depth: usize, min_score: i64, max_score: i64) -> (res: i64)
    requires
        valid_game(old(game)@),
        valid_heuristic(heuristic@),
        depth <= SEARCH_DEPTH,
    ensures
        final(game)@ == old(game)@,
        min_score <= max_score ==> ({
            let v = ab_value(heuristic@, old(game)@, depth as int);
            &&& res <= min_score ==> v <= res
            &&& res >= max_score ==> v >= res
            &&& min_score < res < max_score ==> v == res
        }),
    decreases SEARCH_DEPTH - depth,
{
    let ghost g = game@;
    let ghost h = heuristic@;
    proof {
        lemma_ab_value_unfold(h, g, depth as int);
    }
    let is_maximizing_player = depth % 2 == 0;
    if let GameState::Won(_, _) = &game.state {
        return if is_maximizing_player { i64::MIN } else { i64::MAX };
    }
    if depth == SEARCH_DEPTH {
        proof {
            crate::heuristics::new::lemma_valid_evaluable(g);
        }
        let v = evaluate(heuristic, game);
        return match game.current_color {
            PlayerColor::Black => v,
            PlayerColor::White => -v,
        };
    }
    if let GameState::Draw = &game.state {
        return 0;
    }
    let close_moves = game.get_close_moves(1, true);
    proof {
        close_moves@.to_multiset_ensures();
        close_moves_spec(g, 1).to_multiset_ensures();
    }
    if close_moves.len() == 0 {
        return 0;
    }
    let ghost a0 = min_score as int;
    let ghost b0 = max_score as int;
    let mut min_score = min_score;
    let mut max_score = max_score;
    let mut best_score: i64 = if is_maximizing_player { i64::MIN } else { i64::MAX };
    let mut k: usize = 0;
    while k < close_moves.len()
        invariant_except_break
            is_maximizing_player ==> best_score <= b0,
            !is_maximizing_player ==> best_score >= a0,
        invariant
            k <= close_moves.len(),
            game@ == g,
            h == heuristic@,
            valid_game(g),
            valid_heuristic(h),
            depth < SEARCH_DEPTH,
            g.state is Playing,
            close_moves.len() > 0,
            close_moves@.to_multiset() == close_moves_spec(g, 1).to_multiset(),
            is_maximizing_player == maximizing(depth as int),
            is_maximizing_player ==> max_score == b0 && min_score == (if best_score > a0 { best_score as int } else { a0 }),
            !is_maximizing_player ==> min_score == a0 && max_score == (if best_score < b0 { best_score as int } else { b0 }),
            k == 0 ==> best_score == (if is_maximizing_player { i64::MIN } else { i64::MAX }),
            a0 <= b0 && is_maximizing_player && (best_score <= a0 || best_score < b0) ==>
                forall|i: int| 0 <= i < k ==> #[trigger] ab_move_value(h, g, depth as int, close_moves@[i]) <= best_score,
            a0 <= b0 && is_maximizing_player && a0 < best_score < b0 ==>
                exists|i: int| 0 <= i < k && #[trigger] ab_move_value(h, g, depth as int, close_moves@[i]) == best_score,
            a0 <= b0 && is_maximizing_player && best_score >= b0 && k > 0 ==>
                exists|i: int| 0 <= i < k && #[trigger] ab_move_value(h, g, depth as int, close_moves@[i]) >= best_score,
            a0 <= b0 && !is_maximizing_player && (best_score >= b0 || best_score > a0) ==>
                forall|i: int| 0 <= i < k ==> #[trigger] ab_move_value(h, g, depth as int, close_moves@[i]) >= best_score,
            a0 <= b0 && !is_maximizing_player && a0 < best_score < b0 ==>
                exists|i: int| 0 <= i < k && #[trigger] ab_move_value(h, g, depth as int, close_moves@[i]) == best_score,
            a0 <= b0 && !is_maximizing_player && best_score <= a0 && k > 0 ==>
                exists|i: int| 0 <= i < k && #[trigger] ab_move_value(h, g, depth as int, close_moves@[i]) <= best_score,
        ensures
            k == close_moves.len() || (is_maximizing_player && best_score > b0) || (!is_maximizing_player && best_score < a0),
        decreases close_moves.len() - k,
    {
        let (x, y) = close_moves[k];
        proof {
            assert(close_moves@.contains(close_moves@[k as int]));
            lemma_same_multiset_contains(close_moves@, close_moves_spec(g, 1), (x, y));
            let i = choose|i: int| 0 <= i < close_moves_spec(g, 1).len() && close_moves_spec(g, 1)[i] == (x, y);
            lemma_close_move_playable(g, i);
            lemma_undo_do(g, x as int, y as int);
        }
        game.do_move(x, y);
        let score = _alpha_beta_pruning(game, heuristic, depth + 1, min_score, max_score);
        game.undo_last_move();
        let ghost old_best = best_score as int;
        let ghost alpha = min_score as int;
        let ghost beta = max_score as int;
        proof {
            let kk = k as int;
            assert(close_moves@[kk] == (x, y));
            let cv = ab_move_value(h, g, depth as int, close_moves@[kk]);
            assert(cv == ab_value(h, do_spec(g, x as int, y as int), depth + 1));
        }
        if is_maximizing_player {
            if score > best_score {
                best_score = score;
            }
            if score > min_score {
                min_score = score;
            }
        } else {
            if score < best_score {
                best_score = score;
            }
            if score < max_score {
                max_score = score;
            }
        }
        proof {
            let kk = k as int;
            let cv = ab_move_value(h, g, depth as int, close_moves@[kk]);
            if a0 <= b0 {
                if is_maximizing_player {
                    if a0 < best_score < b0 && score > old_best {
                        assert(ab_move_value(h, g, depth as int, close_moves@[kk]) == best_score);
                    }
                    if best_score >= b0 && score == best_score {
                        assert(ab_move_value(h, g, depth as int, close_moves@[kk]) >= best_score);
                    }
                } else {
                    if a0 < best_score < b0 && score < old_best {
                        assert(ab_move_value(h, g, depth as int, close_moves@[kk]) == best_score);
                    }
                    if best_score <= a0 && score == best_score {
                        assert(ab_move_value(h, g, depth as int, close_moves@[kk]) <= best_score);
                    }
                }
            }
        }
        k += 1;
        if is_maximizing_player && score > max_score {
            break;
        }
        if !is_maximizing_player && score < min_score {
            break;
        }
    }
    proof {
        lemma_ab_value_bounds(h, g, depth as int, close_moves@);
    }
    best_score
}

/// The alpha-beta bot: the center on an empty board; otherwise, trying the moves close to
/// the stones in a random order, a move after which the search value is the highest (the
/// last such move tried).
pub fn alpha_beta_pruning(game: &Game, heuristic: &Heuristic) -> (res: Position)
    requires
        valid_game(game@),
        valid_heuristic(heuristic@),
        game@.moves.len() > 0 ==> game@.state is Playing && close_moves_spec(game@, 1).len() > 0,
    ensures
        game@.moves.len() == 0 ==> res == BOARD_CENTER,
        game@.moves.len() > 0 ==> close_moves_spec(game@, 1).contains(res),
        game@.moves.len() > 0 ==> forall|i: int| 0 <= i < close_moves_spec(game@, 1).len() ==>
            ab_move_value(heuristic@, game@, 0, #[trigger] close_moves_spec(game@, 1)[i]) <= ab_move_value(heuristic@, game@, 0, res),
{
    if game.moves.len() == 0 {
        return BOARD_CENTER;
    }
    let ghost g = game@;
    let ghost h = heuristic@;
    let close_moves = game.get_close_moves(1, true);
    proof {
        close_moves@.to_multiset_ensures();
        close_moves_spec(g, 1).to_multiset_ensures();
    }
    let mut game = game.copy();
    let mut best: Position = (usize::MAX, usize::MAX);
    let mut best_score: i64 = i64::MIN;
    let mut k: usize = 0;
    while k < close_moves.len()
        invariant
            k <= close_moves.len(),
            game@ == g,
            h == heuristic@,
            valid_game(g),
            valid_heuristic(h),
            g.state is Playing,
            close_moves@.to_multiset() == close_moves_spec(g, 1).to_multiset(),
            k > 0 ==> close_moves@.take(k as int).contains(best),
            k > 0 ==> best_score == ab_move_value(h, g, 0, best),
            forall|i: int| 0 <= i < k ==> #[trigger] ab_move_value(h, g, 0, close_moves@[i]) <= best_score,
        decreases close_moves.len() - k,
    {
        let (x, y) = close_moves[k];
        proof {
            assert(close_moves@.contains(close_moves@[k as int]));
            lemma_same_multiset_contains(close_moves@, close_moves_spec(g, 1), (x, y));
            let i = choose|i: int| 0 <= i < close_moves_spec(g, 1).len() && close_moves_spec(g, 1)[i] == (x, y);
            lemma_close_move_playable(g, i);
            lemma_undo_do(g, x as int, y as int);
            lemma_do_valid(g, x as int, y as int);
            lemma_ab_value_range(h, do_spec(g, x as int, y as int), 1);
        }
        game.do_move(x, y);
        let score = _alpha_beta_pruning(&mut game, heuristic, 1, i64::MIN, i64::MAX);
        game.undo_last_move();
        proof {
            assert(close_moves@[k as int] == (x, y));
            assert(score == ab_move_value(h, g, 0, (x, y)));
        }
        if k == 0 || score >= best_score {
            best = (x, y);
            best_score = score;
        }
        proof {
            assert(close_moves@.take(k + 1) =~= close_moves@.take(k as int).push((x, y)));
            crate::game::state::lemma_push_contains(close_moves@.take(k as int), (x, y));
            assert(close_moves@.take(k + 1).contains(best));
        }
        k += 1;
    }
    proof {
        let i = choose|i: int| 0 <= i < close_moves@.take(k as int).len() && close_moves@.take(k as int)[i] == best;
        assert(close_moves@[i] == best);
        assert(close_moves@.contains(best));
        lemma_same_multiset_contains(close_moves@, close_moves_spec(g, 1), best);
        assert forall|i: int| 0 <= i < close_moves_spec(g, 1).len() implies
            ab_move_value(h, g, 0, #[trigger] close_moves_spec(g, 1)[i]) <= ab_move_value(h, g, 0, best) by {
            assert(close_moves_spec(g, 1).contains(close_moves_spec(g, 1)[i]));
            lemma_same_multiset_contains(close_moves_spec(g, 1), close_moves@, close_moves_spec(g, 1)[i]);
            let j = choose|j: int| 0 <= j < close_moves@.len() && close_moves@[j] == close_moves_spec(g, 1)[i];
            assert(ab_move_value(h, g, 0, close_moves@[j]) <= best_score);
        }
    }
    best
}

} // verus!
