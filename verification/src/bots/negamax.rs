use crate::bots::{last_argmax, leaf_spec, leaf_value, neg_wrap, negate};
use crate::game::board::{Position, BOARD_CENTER};
use crate::game::legal_moves::{lemma_legal_moves_playable, legal_moves_spec};
use crate::game::logic::{do_spec, lemma_playing_ply_bound, lemma_undo_do, valid_game, GameView};
use crate::game::Game;
use crate::bots::minimax::{minimax_choice, minimax_fold, minimax_root_values, minimax_value};
use crate::heuristics::{valid_heuristic, Heuristic, HeuristicView, HEURISTIC_BOUND};
use crate::player::PlayerColor;
use vstd::prelude::*;

verus! {

/// Depth of the negamax search.
pub const NEGAMAX_DEPTH: u32 = 4;

/// The negamax value of `g` searched from `depth` down to `NEGAMAX_DEPTH`, for the player to
/// move: a leaf value, or the best of the negated values of the positions after each move
/// close to the stones (the smallest `i64` when there is none).
pub open spec fn negamax_value(h: HeuristicView, g: GameView, depth: int) -> int
    decreases NEGAMAX_DEPTH - depth, legal_moves_spec(g, true).len() + 1,
{
    match leaf_spec(g, h, depth, NEGAMAX_DEPTH as int) {
        Some(v) => v,
        None => if 0 <= depth < NEGAMAX_DEPTH {
            negamax_fold(h, g, legal_moves_spec(g, true), depth, legal_moves_spec(g, true).len() as int)
        } else {
            i64::MIN as int
        },
    }
}

/// The best negated child value over the first `k` of `moves`.
pub open spec fn negamax_fold(h: HeuristicView, g: GameView, moves: Seq<Position>, depth: int, k: int) -> int
    decreases NEGAMAX_DEPTH - depth, k,
{
    if k <= 0 || !(0 <= depth < NEGAMAX_DEPTH) {
        i64::MIN as int
    } else {
        let prev = negamax_fold(h, g, moves, depth, k - 1);
        let child = neg_wrap(negamax_value(h, do_spec(g, moves[k - 1].0 as int, moves[k - 1].1 as int), depth + 1));
        if child > prev { child } else { prev }
    }
}

/// The values of the moves from the root of a negamax search.
pub open spec fn negamax_root_values(h: HeuristicView, g: GameView) -> Seq<int> {
    let moves = legal_moves_spec(g, true);
    Seq::new(moves.len(), |k: int| neg_wrap(negamax_value(h, do_spec(g, moves[k].0 as int, moves[k].1 as int), 1)))
}

/// The move negamax chooses: the center on an empty board, otherwise the last of the moves
/// close to the stones with the best value.
pub open spec fn negamax_choice(h: HeuristicView, g: GameView) -> Position {
    if g.ply == 0 {
        BOARD_CENTER
    } else {
        legal_moves_spec(g, true)[last_argmax(negamax_root_values(h, g))]
    }
}

fn negamax_helper(game: &mut Game, heuristic: &Heuristic, depth: u32) -> (res: i64)
    requires
        valid_game(old(game)@),
        valid_heuristic(heuristic@),
        depth <= NEGAMAX_DEPTH,
    ensures
        res == negamax_value(heuristic@, old(game)@, depth as int),
        final(game)@ == old(game)@,
    decreases NEGAMAX_DEPTH - depth,
{
    let ghost g = game@;
    if let Some(v) = leaf_value(game, heuristic, depth as usize, NEGAMAX_DEPTH as usize) {
        return v;
    }
    let moves = game.get_legal_moves(Some(2), false);
    let mut best_h: i64 = i64::MIN;
    let mut k: usize = 0;
    while k < moves.len()
        invariant
            k <= moves.len(),
            game@ == g,
            valid_game(g),
            valid_heuristic(heuristic@),
            depth < NEGAMAX_DEPTH,
            g.state is Playing,
            moves@ == legal_moves_spec(g, true),
            best_h == negamax_fold(heuristic@, g, moves@, depth as int, k as int),
        decreases moves.len() - k,
    {
        let (x, y) = moves[k];
        proof {
            lemma_legal_moves_playable(g, true, k as int);
            lemma_playing_ply_bound(g);
            lemma_undo_do(g, x as int, y as int);
        }
        game.do_move(x, y);
        let h = negate(negamax_helper(game, heuristic, depth + 1));
        game.undo_last_move();
        if h > best_h {
            best_h = h;
        }
        k += 1;
    }
    best_h
}

/// The negamax bot: searches every move close to the stones down to `NEGAMAX_DEPTH` and
/// plays the last one with the best value (the center on an empty board).
#[verifier::spinoff_prover]
#[verifier::rlimit(60)]
pub fn negamax(game: &Game, heuristic: &Heuristic) -> (res: Position)
    requires
        valid_game(game@),
        valid_heuristic(heuristic@),
        game@.ply > 0 ==> game@.state is Playing && legal_moves_spec(game@, true).len() > 0,
    ensures
        res == negamax_choice(heuristic@, game@),
{
    if game.ply == 0 {
        return BOARD_CENTER;
    }
    let ghost g = game@;
    let ghost vals = negamax_root_values(heuristic@, g);
    let mut game = game.copy();
    let moves = game.get_legal_moves(Some(2), false);
    let mut best_idx: usize = 0;
    let mut best_h: i64 = i64::MIN;
    let mut k: usize = 0;
    while k < moves.len()
        invariant
            k <= moves.len(),
            game@ == g,
            valid_game(g),
            valid_heuristic(heuristic@),
            g.state is Playing,
            moves@ == legal_moves_spec(g, true),
            vals == negamax_root_values(heuristic@, g),
            k > 0 ==> best_idx == last_argmax(vals.take(k as int)) && best_h == vals[best_idx as int] && best_idx < k,
        decreases moves.len() - k,
    {
        let (x, y) = moves[k];
        proof {
            lemma_legal_moves_playable(g, true, k as int);
            lemma_playing_ply_bound(g);
            lemma_undo_do(g, x as int, y as int);
        }
        game.do_move(x, y);
        let h = negate(negamax_helper(&mut game, heuristic, 1));
        game.undo_last_move();
        proof {
            assert(vals.take(k + 1).drop_last() =~= vals.take(k as int));
        }
        if k == 0 || h >= best_h {
            best_idx = k;
            best_h = h;
        }
        k += 1;
    }
    proof {
        assert(vals.take(moves.len() as int) =~= vals);
    }
    moves[best_idx]
}

/// Every position searched from `g` at `depth` is still being played, and each one above the
/// horizon has a move close to the stones: no search reaches a finished or stuck position.
pub open spec fn quiet(g: GameView, depth: int) -> bool
    decreases NEGAMAX_DEPTH - depth, legal_moves_spec(g, true).len() + 1,
{
    &&& g.state is Playing
    &&& 0 <= depth < NEGAMAX_DEPTH ==> legal_moves_spec(g, true).len() > 0 && quiet_fold(g, legal_moves_spec(g, true),
        depth, legal_moves_spec(g, true).len() as int)
}

/// The positions after each of the first `k` of `moves` are quiet.
pub open spec fn quiet_fold(g: GameView, moves: Seq<Position>, depth: int, k: int) -> bool
    decreases NEGAMAX_DEPTH - depth, k,
{
    k <= 0 || !(0 <= depth < NEGAMAX_DEPTH) || (quiet_fold(g, moves, depth, k - 1)
        && quiet(do_spec(g, moves[k - 1].0 as int, moves[k - 1].1 as int), depth + 1))
}

/// A minimax value for `maximizing`, seen by the player to move of `g`.
pub open spec fn oriented(g: GameView, maximizing: PlayerColor, v: int) -> int {
    if g.current_color == maximizing { v } else { -v }
}

/// Negamax agrees with minimax: on a search that reaches no finished or stuck position, the
/// negamax value of a position is its minimax value for any player, negated when that player
/// is not the one to move (and every value stays within the heuristic bound).
pub proof fn lemma_negamax_is_minimax(h: HeuristicView, g: GameView, maximizing: PlayerColor, depth: int)
    requires
        valid_game(g),
        valid_heuristic(h),
        quiet(g, depth),
        0 <= depth <= NEGAMAX_DEPTH,
    ensures
        negamax_value(h, g, depth) == oriented(g, maximizing, minimax_value(h, g, maximizing, depth)),
        -HEURISTIC_BOUND <= minimax_value(h, g, maximizing, depth) <= HEURISTIC_BOUND,
    decreases NEGAMAX_DEPTH - depth, legal_moves_spec(g, true).len() + 1,
{
    if depth == NEGAMAX_DEPTH {
        crate::heuristics::new::lemma_valid_evaluable(g);
        crate::heuristics::bounds::lemma_heuristic_value_bound(h, g);
    } else {
        let moves = legal_moves_spec(g, true);
        lemma_negamax_fold(h, g, maximizing, moves, depth, moves.len() as int);
    }
}

/// The folds of negamax and minimax over the first `k >= 1` moves close to the stones agree
/// in the same way.
proof fn lemma_negamax_fold(h: HeuristicView, g: GameView, maximizing: PlayerColor, moves: Seq<Position>, depth: int, k: int)
    requires
        valid_game(g),
        valid_heuristic(h),
        g.state is Playing,
        moves == legal_moves_spec(g, true),
        quiet_fold(g, moves, depth, k),
        0 <= depth < NEGAMAX_DEPTH,
        1 <= k <= moves.len(),
    ensures
        negamax_fold(h, g, moves, depth, k) == oriented(g, maximizing, minimax_fold(h, g, maximizing, moves, depth, k)),
        -HEURISTIC_BOUND <= minimax_fold(h, g, maximizing, moves, depth, k) <= HEURISTIC_BOUND,
    decreases NEGAMAX_DEPTH - depth, k,
{
    let m = moves[k - 1];
    lemma_legal_moves_playable(g, true, k - 1);
    lemma_playing_ply_bound(g);
    crate::game::logic::lemma_do_valid(g, m.0 as int, m.1 as int);
    let child = do_spec(g, m.0 as int, m.1 as int);
    crate::game::logic::lemma_place_mid(g, m.0 as int, m.1 as int);
    crate::game::logic::lemma_captures_upto_mid(crate::game::logic::place_spec(g, m.0 as int, m.1 as int), m.0 as int,
        m.1 as int, g.current_color, 8);
    assert(child.current_color == crate::player::opposite(g.current_color));
    assert(quiet_fold(g, moves, depth, k - 1) && quiet(child, depth + 1));
    lemma_negamax_is_minimax(h, child, maximizing, depth + 1);
    let nc = negamax_value(h, child, depth + 1);
    let mc = minimax_value(h, child, maximizing, depth + 1);
    assert(neg_wrap(nc) == oriented(g, maximizing, mc));
    if k > 1 {
        lemma_negamax_fold(h, g, maximizing, moves, depth, k - 1);
    } else {
        assert(negamax_fold(h, g, moves, depth, 0) == i64::MIN);
        assert(minimax_fold(h, g, maximizing, moves, depth, 0) == (if g.current_color == maximizing {
            i64::MIN as int
        } else {
            i64::MAX as int
        }));
    }
}

/// The position after each of the first `k` moves of a quiet fold is quiet.
proof fn lemma_quiet_child(g: GameView, moves: Seq<Position>, depth: int, k: int, i: int)
    requires
        quiet_fold(g, moves, depth, k),
        0 <= depth < NEGAMAX_DEPTH,
        0 <= i < k,
    ensures
        quiet(do_spec(g, moves[i].0 as int, moves[i].1 as int), depth + 1),
    decreases k,
{
    if i < k - 1 {
        lemma_quiet_child(g, moves, depth, k - 1, i);
    }
}

/// Negamax and minimax choose the same move when no search from the position reaches a
/// finished or stuck position.
pub proof fn lemma_negamax_minimax_same_choice(h: HeuristicView, g: GameView)
    requires
        valid_game(g),
        valid_heuristic(h),
        quiet(g, 0),
    ensures
        negamax_choice(h, g) == minimax_choice(h, g),
{
    let moves = legal_moves_spec(g, true);
    let nv = negamax_root_values(h, g);
    let mv = minimax_root_values(h, g);
    assert forall|k: int| 0 <= k < moves.len() implies #[trigger] nv[k] == mv[k] by {
        let m = moves[k];
        lemma_quiet_child(g, moves, 0, moves.len() as int, k);
        lemma_legal_moves_playable(g, true, k);
        lemma_playing_ply_bound(g);
        crate::game::logic::lemma_do_valid(g, m.0 as int, m.1 as int);
        let child = do_spec(g, m.0 as int, m.1 as int);
        crate::game::logic::lemma_place_mid(g, m.0 as int, m.1 as int);
        crate::game::logic::lemma_captures_upto_mid(crate::game::logic::place_spec(g, m.0 as int, m.1 as int), m.0 as int,
            m.1 as int, g.current_color, 8);
        assert(child.current_color == crate::player::opposite(g.current_color));
        lemma_negamax_is_minimax(h, child, g.current_color, 1);
    }
    assert(nv =~= mv);
}

} // verus!
