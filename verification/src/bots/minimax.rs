use crate::bots::{last_argmax, lemma_last_argmax};
use crate::game::board::{Position, BOARD_CENTER};
use crate::game::legal_moves::{lemma_legal_moves_playable, legal_moves_spec};
use crate::game::logic::{do_spec, lemma_playing_ply_bound, lemma_undo_do, valid_game, GameView};
use crate::game::state::{GameState, StateView};
use crate::game::Game;
use crate::heuristics::{evaluate, heuristic_value, valid_heuristic, Heuristic, HeuristicView};
use crate::player::PlayerColor;
use vstd::prelude::*;

verus! {

/// Depth of the minimax search.
pub const MINIMAX_DEPTH: usize = 4;

/// The minimax value of `g` for `maximizing`, searched from `depth` down to `MINIMAX_DEPTH`:
/// wins count more when sooner, draws 0, the horizon its heuristic value (negated for
/// white); otherwise the best value over the moves close to the stones for the player to
/// move (highest when it is `maximizing`, lowest otherwise).
pub open spec fn minimax_value(h: HeuristicView, g: GameView, maximizing: PlayerColor, depth: int) -> int
    decreases MINIMAX_DEPTH - depth, legal_moves_spec(g, true).len() + 1,
{
    match g.state {
        StateView::Playing(_) => if depth == MINIMAX_DEPTH {
            if maximizing == PlayerColor::Black { heuristic_value(h, g) } else { -heuristic_value(h, g) }
        } else if 0 <= depth < MINIMAX_DEPTH {
            minimax_fold(h, g, maximizing, legal_moves_spec(g, true), depth, legal_moves_spec(g, true).len() as int)
        } else {
            0
        },
        StateView::Draw => 0,
        StateView::Won(winner, _, _) => if winner == maximizing { i64::MAX - depth } else { i64::MIN + depth },
    }
}

/// The best child value over the first `k` of `moves` (highest for `maximizing`, lowest for
/// its opponent), starting from the worst `i64`.
pub open spec fn minimax_fold(h: HeuristicView, g: GameView, maximizing: PlayerColor, moves: Seq<Position>, depth: int, k: int) -> int
    decreases MINIMAX_DEPTH - depth, k,
{
    let is_max = g.current_color == maximizing;
    if k <= 0 || !(0 <= depth < MINIMAX_DEPTH) {
        if is_max { i64::MIN as int } else { i64::MAX as int }
    } else {
        let prev = minimax_fold(h, g, maximizing, moves, depth, k - 1);
        let child = minimax_value(h, do_spec(g, moves[k - 1].0 as int, moves[k - 1].1 as int), maximizing, depth + 1);
        if is_max { if child > prev { child } else { prev } } else { if child < prev { child } else { prev } }
    }
}

/// The values of the moves from the root of a minimax search.
pub open spec fn minimax_root_values(h: HeuristicView, g: GameView) -> Seq<int> {
    let moves = legal_moves_spec(g, true);
    Seq::new(moves.len(), |k: int| minimax_value(h, do_spec(g, moves[k].0 as int, moves[k].1 as int), g.current_color, 1))
}

/// The move minimax chooses: the center on an empty board, otherwise the last of the moves
/// close to the stones with the best value for the player to move.
pub open spec fn minimax_choice(h: HeuristicView, g: GameView) -> Position {
    if g.ply == 0 {
        BOARD_CENTER
    } else {
        legal_moves_spec(g, true)[last_argmax(minimax_root_values(h, g))]
    }
}

fn minimax_helper(game: &mut Game, heuristic: &Heuristic, maximizing_player: PlayerColor, depth: usize) -> (res: i64)
    requires
        valid_game(old(game)@),
        valid_heuristic(heuristic@),
        depth <= MINIMAX_DEPTH,
    ensures
        res == minimax_value(heuristic@, old(game)@, maximizing_player, depth as int),
        final(game)@ == old(game)@,
    decreases MINIMAX_DEPTH - depth,
{
    let ghost g = game@;
    match &game.state {
        GameState::Playing(_) => {
            if depth == MINIMAX_DEPTH {
                proof {
                    crate::heuristics::new::lemma_valid_evaluable(g);
                }
                let v = evaluate(heuristic, game);
                return match maximizing_player {
                    PlayerColor::Black => v,
                    PlayerColor::White => -v,
                };
            }
        },
        GameState::Draw => {
            return 0;
        },
        GameState::Won(winner, _) => {
            return if *winner == maximizing_player { i64::MAX - depth as i64 } else { i64::MIN + depth as i64 };
        },
    }

    let moves = game.get_legal_moves(Some(2), false);
    let is_maximizing_player = game.current_color == maximizing_player;
    let mut best_h: i64 = if is_maximizing_player { i64::MIN } else { i64::MAX };
    let mut k: usize = 0;
    while k < moves.len()
        invariant
            k <= moves.len(),
            game@ == g,
            valid_game(g),
            valid_heuristic(heuristic@),
            depth < MINIMAX_DEPTH,
            g.state is Playing,
            is_maximizing_player == (g.current_color == maximizing_player),
            moves@ == legal_moves_spec(g, true),
            best_h == minimax_fold(heuristic@, g, maximizing_player, moves@, depth as int, k as int),
        decreases moves.len() - k,
    {
        let (x, y) = moves[k];
        proof {
            lemma_legal_moves_playable(g, true, k as int);
            lemma_playing_ply_bound(g);
            lemma_undo_do(g, x as int, y as int);
        }
        game.do_move(x, y);
        let h = minimax_helper(game, heuristic, maximizing_player, depth + 1);
        game.undo_last_move();
        if is_maximizing_player {
            if h > best_h {
                best_h = h;
            }
        } else {
            if h < best_h {
                best_h = h;
            }
        }
        k += 1;
    }
    best_h
}

/// The minimax bot: searches every move close to the stones down to `MINIMAX_DEPTH` and plays
/// the last one with the best value for the player to move (the center on an empty board).
#[verifier::spinoff_prover]
#[verifier::rlimit(60)]
pub fn minimax(game: &Game, heuristic: &Heuristic) -> (res: Position)
    requires
        valid_game(game@),
        valid_heuristic(heuristic@),
        game@.ply > 0 ==> game@.state is Playing && legal_moves_spec(game@, true).len() > 0,
    ensures
        res == minimax_choice(heuristic@, game@),
{
    if game.ply == 0 {
        return BOARD_CENTER;
    }
    let ghost g = game@;
    let ghost vals = minimax_root_values(heuristic@, g);
    let maximizing_player = game.current_color;
    let mut game = game.copy();
    let moves = game.get_legal_moves(Some(2), false);
    let mut best_idx: usize = 0;
    let mut best_h: i64 = i64::MIN;
    let mut k: usize = 0;
    while k < moves.len()
        invariant
            k <= moves.len(),
            game@ == g,
            maximizing_player == g.current_color,
            valid_game(g),
            valid_heuristic(heuristic@),
            g.state is Playing,
            moves@ == legal_moves_spec(g, true),
            vals == minimax_root_values(heuristic@, g),
            k > 0 ==> best_idx == last_argmax(vals.take(k as int)) && best_h == vals[best_idx as int] && best_idx < k,
        decreases moves.len() - k,
    {
        let (x, y) = moves[k];
        proof {
            lemma_legal_moves_playable(g, true, k as int);
            lemma_playing_ply_bound(g);
            lemma_undo_do(g, x as int, y as int);
        }
        game.do_move(x, y);
        let h = minimax_helper(&mut game, heuristic, maximizing_player, 1);
        game.undo_last_move();
        proof {
            assert(vals.take(k + 1).drop_last() =~= vals.take(k as int));
        }
        if k == 0 || h >= best_h {
            best_idx = k;
            best_h = h;
        }
        k += 1;
    }
    proof {
        assert(vals.take(moves.len() as int) =~= vals);
    }
    moves[best_idx]
}

/// Every position the minimax search from `g` at `depth` reaches above the horizon while the
/// game goes on has a move close to the stones: no search reaches a stuck position.
pub open spec fn never_stuck(g: GameView, depth: int) -> bool
    decreases MINIMAX_DEPTH - depth, legal_moves_spec(g, true).len() + 1,
{
    (g.state is Playing && 0 <= depth < MINIMAX_DEPTH) ==> legal_moves_spec(g, true).len() > 0
        && never_stuck_fold(g, legal_moves_spec(g, true), depth, legal_moves_spec(g, true).len() as int)
}

/// The positions after each of the first `k` of `moves` are never stuck.
pub open spec fn never_stuck_fold(g: GameView, moves: Seq<Position>, depth: int, k: int) -> bool
    decreases MINIMAX_DEPTH - depth, k,
{
    k <= 0 || !(0 <= depth < MINIMAX_DEPTH) || (never_stuck_fold(g, moves, depth, k - 1)
        && never_stuck(do_spec(g, moves[k - 1].0 as int, moves[k - 1].1 as int), depth + 1))
}

/// Wins are worth more than anything else, losses less: on a search that reaches no stuck
/// position, the minimax value of a position at `depth` lies between `i64::MIN + depth` and
/// `i64::MAX - depth`; it reaches the top only when the position is already won by
/// `maximizing`, and the bottom only when it is won by its opponent.
pub proof fn lemma_minimax_win_bounds(h: HeuristicView, g: GameView, maximizing: PlayerColor, depth: int)
    requires
        valid_game(g),
        valid_heuristic(h),
        never_stuck(g, depth),
        0 <= depth <= MINIMAX_DEPTH,
    ensures
        i64::MIN + depth <= minimax_value(h, g, maximizing, depth) <= i64::MAX - depth,
        minimax_value(h, g, maximizing, depth) == i64::MAX - depth
            ==> (g.state is Won && g.state->Won_0 == maximizing),
        minimax_value(h, g, maximizing, depth) == i64::MIN + depth
            ==> (g.state is Won && g.state->Won_0 != maximizing),
    decreases MINIMAX_DEPTH - depth, legal_moves_spec(g, true).len() + 1,
{
    if g.state is Playing {
        if depth == MINIMAX_DEPTH {
            crate::heuristics::new::lemma_valid_evaluable(g);
            crate::heuristics::bounds::lemma_heuristic_value_bound(h, g);
        } else {
            let moves = legal_moves_spec(g, true);
            lemma_minimax_fold_bounds(h, g, maximizing, moves, depth, moves.len() as int);
        }
    }
}

/// The fold of minimax over the first `k >= 1` moves stays strictly between the values of
/// a win and a loss at `depth`.
proof fn lemma_minimax_fold_bounds(h: HeuristicView, g: GameView, maximizing: PlayerColor, moves: Seq<Position>, depth: int, k: int)
    requires
        valid_game(g),
        valid_heuristic(h),
        g.state is Playing,
        moves == legal_moves_spec(g, true),
        never_stuck_fold(g, moves, depth, k),
        0 <= depth < MINIMAX_DEPTH,
        1 <= k <= moves.len(),
    ensures
        i64::MIN + depth < minimax_fold(h, g, maximizing, moves, depth, k) < i64::MAX - depth,
    decreases MINIMAX_DEPTH - depth, k,
{
    let m = moves[k - 1];
    lemma_legal_moves_playable(g, true, k - 1);
    lemma_playing_ply_bound(g);
    crate::game::logic::lemma_do_valid(g, m.0 as int, m.1 as int);
    let child = do_spec(g, m.0 as int, m.1 as int);
    assert(never_stuck_fold(g, moves, depth, k - 1) && never_stuck(child, depth + 1));
    lemma_minimax_win_bounds(h, child, maximizing, depth + 1);
    if k > 1 {
        lemma_minimax_fold_bounds(h, g, maximizing, moves, depth, k - 1);
    } else {
        assert(minimax_fold(h, g, maximizing, moves, depth, 0) == (if g.current_color == maximizing {
            i64::MIN as int
        } else {
            i64::MAX as int
        }));
    }
}

/// The position after each of the first `k` moves of a never-stuck fold is never stuck.
proof fn lemma_never_stuck_child(g: GameView, moves: Seq<Position>, depth: int, k: int, i: int)
    requires
        never_stuck_fold(g, moves, depth, k),
        0 <= depth < MINIMAX_DEPTH,
        0 <= i < k,
    ensures
        never_stuck(do_spec(g, moves[i].0 as int, moves[i].1 as int), depth + 1),
    decreases k,
{
    if i < k - 1 {
        lemma_never_stuck_child(g, moves, depth, k - 1, i);
    }
}

/// Minimax takes a win at once: when a move close to the stones wins the game for the player
/// to move, and no search from the position reaches a stuck position, the move minimax
/// chooses wins the game for the player to move.
pub proof fn lemma_minimax_takes_winning_move(h: HeuristicView, g: GameView, w: int)
    requires
        valid_game(g),
        valid_heuristic(h),
        g.ply > 0,
        g.state is Playing,
        never_stuck(g, 0),
        0 <= w < legal_moves_spec(g, true).len(),
        do_spec(g, legal_moves_spec(g, true)[w].0 as int, legal_moves_spec(g, true)[w].1 as int).state is Won,
        do_spec(g, legal_moves_spec(g, true)[w].0 as int, legal_moves_spec(g, true)[w].1 as int).state->Won_0
            == g.current_color,
    ensures
        do_spec(g, minimax_choice(h, g).0 as int, minimax_choice(h, g).1 as int).state is Won,
        do_spec(g, minimax_choice(h, g).0 as int, minimax_choice(h, g).1 as int).state->Won_0 == g.current_color,
{
    let moves = legal_moves_spec(g, true);
    let vals = minimax_root_values(h, g);
    let c = g.current_color;
    lemma_last_argmax(vals);
    let b = last_argmax(vals);
    assert(vals[w] == i64::MAX - 1);
    lemma_legal_moves_playable(g, true, b);
    lemma_playing_ply_bound(g);
    let m = moves[b];
    crate::game::logic::lemma_do_valid(g, m.0 as int, m.1 as int);
    lemma_never_stuck_child(g, moves, 0, moves.len() as int, b);
    lemma_minimax_win_bounds(h, do_spec(g, m.0 as int, m.1 as int), c, 1);
    assert(vals[b] >= vals[w]);
}

} // verus!
