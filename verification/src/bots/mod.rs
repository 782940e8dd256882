pub mod alpha_beta_pruning;
pub mod cache;
pub mod idabp;
pub mod idabp_new;
pub mod idabp_old;
pub mod minimax;
pub mod negamax;
pub mod ordered;
pub mod ordering;
pub mod random_mover;

use crate::game::logic::{valid_game, GameView};
use crate::game::state::{GameState, StateView};
use crate::bots::minimax::{minimax, minimax_choice};
use crate::bots::negamax::{negamax, negamax_choice};
use crate::game::board::{Position, BOARD_CENTER};
use crate::game::legal_moves::legal_moves_spec;
use crate::game::Game;
use crate::heuristics::{evaluate, heuristic_value, valid_heuristic, Heuristic, HeuristicView, HEURISTIC_BOUND};
use crate::player::PlayerColor;
use crate::text::{quoted, same_text};
use vstd::prelude::*;

verus! {

/// The search algorithms that can choose a move.
#[derive(Clone, Copy, Debug, PartialEq, Eq)]
pub enum Bot {
    RandomMover,
    Minimax,
    Negamax,
    AlphaBetaPruning,
    Idabp,
    IdabpNew { time_limit_ms: u64 },
    /// Iterative deepening with a transposition table, until a deadline in milliseconds.
    IdabpOld { time_limit_ms: u64 },
}

/// The bot called `s` on the command line, if there is one.
pub open spec fn bot_named(s: Seq<char>) -> Option<Bot> {
    if s == "random"@ || s == "random_mover"@ {
        Some(Bot::RandomMover)
    } else if s == "minimax"@ {
        Some(Bot::Minimax)
    } else if s == "negamax"@ {
        Some(Bot::Negamax)
    } else if s == "abp"@ || s == "alpha_beta_pruning"@ {
        Some(Bot::AlphaBetaPruning)
    } else if s == "idabp"@ {
        Some(Bot::Idabp)
    } else {
        None
    }
}

/// The bot called `s`, or the message ``Invalid bot: `s` `` when there is none.
pub fn parse_bot(s: &str) -> (res: Result<Bot, String>)
    ensures
        bot_named(s@) is Some ==> res == Ok::<Bot, String>(bot_named(s@).unwrap()),
        bot_named(s@) is None ==> res is Err && res->Err_0@ == "Invalid bot: "@ + "`"@ + s@ + "`"@,
{
    if same_text(s, "random") || same_text(s, "random_mover") {
        Ok(Bot::RandomMover)
    } else if same_text(s, "minimax") {
        Ok(Bot::Minimax)
    } else if same_text(s, "negamax") {
        Ok(Bot::Negamax)
    } else if same_text(s, "abp") || same_text(s, "alpha_beta_pruning") {
        Ok(Bot::AlphaBetaPruning)
    } else if same_text(s, "idabp") {
        Ok(Bot::Idabp)
    } else {
        Err(quoted("Invalid bot: ", s))
    }
}

/// Depth of the alpha-beta searches.
pub const MAX_DEPTH: usize = 10;

/// Time an iterative-deepening search may take, in milliseconds.
pub const TIME_LIMIT_MS: u64 = 128;

/// `-v`, except that the smallest `i64` stays as it is (two's complement negation).
pub open spec fn neg_wrap(v: int) -> int {
    if v == i64::MIN { i64::MIN as int } else { -v }
}

/// `-v` on `i64`, wrapping the smallest value onto itself.
pub fn negate(v: i64) -> (res: i64)
    ensures
        res == neg_wrap(v as int),
{
    if v == i64::MIN { i64::MIN } else { -v }
}

/// Two sequences with the same elements, counted with multiplicity, contain the same items.
pub proof fn lemma_same_multiset_contains(a: Seq<Position>, b: Seq<Position>, p: Position)
    requires
        a.to_multiset() == b.to_multiset(),
        a.contains(p),
    ensures
        b.contains(p),
{
    a.to_multiset_ensures();
    b.to_multiset_ensures();
    assert(a.to_multiset().count(p) > 0);
    assert(b.to_multiset().count(p) > 0);
}

/// The last index at which `vals` is largest.
pub open spec fn last_argmax(vals: Seq<int>) -> int
    decreases vals.len(),
{
    if vals.len() <= 1 {
        0
    } else {
        let i = last_argmax(vals.drop_last());
        if vals.last() >= vals[i] { vals.len() - 1 } else { i }
    }
}

/// `last_argmax` picks the last index of a largest value.
pub proof fn lemma_last_argmax(vals: Seq<int>)
    requires
        vals.len() > 0,
    ensures
        0 <= last_argmax(vals) < vals.len(),
        forall|k: int| 0 <= k < vals.len() ==> #[trigger] vals[k] <= vals[last_argmax(vals)],
        forall|k: int| last_argmax(vals) < k < vals.len() ==> #[trigger] vals[k] < vals[last_argmax(vals)],
    decreases vals.len(),
{
    if vals.len() > 1 {
        let prev = vals.drop_last();
        lemma_last_argmax(prev);
        assert forall|k: int| 0 <= k < vals.len() implies #[trigger] vals[k] <= vals[last_argmax(vals)] by {
            if k < vals.len() - 1 {
                assert(prev[k] == vals[k]);
                assert(prev[k] <= prev[last_argmax(prev)]);
            }
        }
        assert forall|k: int| last_argmax(vals) < k < vals.len() implies #[trigger] vals[k] < vals[last_argmax(vals)] by {
            if k < vals.len() - 1 {
                assert(prev[k] == vals[k]);
            }
        }
    }
}

/// The value of a position that ends the search, from the point of view of the player to
/// move: a win counts more when it comes sooner, a draw counts 0, and an unfinished game at
/// the search horizon gets its heuristic value.
pub open spec fn leaf_spec(g: GameView, h: HeuristicView, depth: int, max_depth: int) -> Option<int> {
    let v = match g.state {
        StateView::Playing(_) => if depth == max_depth { Some(heuristic_value(h, g)) } else { None },
        StateView::Draw => Some(0),
        StateView::Won(PlayerColor::Black, _, _) => Some(i64::MAX - depth),
        StateView::Won(PlayerColor::White, _, _) => Some(depth - i64::MAX),
    };
    match v {
        Some(v) => Some(if g.current_color == PlayerColor::Black { v } else { -v }),
        None => None,
    }
}

/// A finished game ends the search with a win worth more than any heuristic value for its
/// winner and less than any for the loser: when the player to move has won, the value is
/// `i64::MAX - depth`, when the other player has, `depth - i64::MAX`; a draw is worth 0.
pub proof fn lemma_leaf_of_finished_game(g: GameView, h: HeuristicView, depth: int, max_depth: int)
    requires
        !(g.state is Playing),
    ensures
        leaf_spec(g, h, depth, max_depth) is Some,
        g.state is Draw ==> leaf_spec(g, h, depth, max_depth).unwrap() == 0,
        g.state is Won && g.state->Won_0 == g.current_color ==> leaf_spec(g, h, depth, max_depth).unwrap() == i64::MAX - depth,
        g.state is Won && g.state->Won_0 != g.current_color ==> leaf_spec(g, h, depth, max_depth).unwrap() == depth - i64::MAX,
{
}

/// The value of `game` when the search ends there (see `leaf_spec`), maximized for the player
/// to move.
pub fn leaf_value(game: &Game, heuristic: &Heuristic, depth: usize, max_depth: usize) -> (res: Option<i64>)
    requires
        valid_heuristic(heuristic@),
        valid_game(game@),
        depth <= u32::MAX,
    ensures
        res is Some <==> leaf_spec(game@, heuristic@, depth as int, max_depth as int) is Some,
        res is Some ==> res.unwrap() == leaf_spec(game@, heuristic@, depth as int, max_depth as int).unwrap(),
        res is Some ==> -i64::MAX <= res.unwrap() <= i64::MAX,
{
    proof {
        crate::heuristics::new::lemma_valid_evaluable(game@);
    }
    let leaf_value = match &game.state {
        GameState::Playing(_) => {
            if depth == max_depth { Some(evaluate(heuristic, game)) } else { None }
        },
        GameState::Draw => Some(0),
        GameState::Won(PlayerColor::Black, _) => Some(i64::MAX - depth as i64),
        GameState::Won(PlayerColor::White, _) => Some(depth as i64 - i64::MAX),
    };
    match leaf_value {
        Some(v) => Some(match game.current_color {
            PlayerColor::Black => v,
            PlayerColor::White => -v,
        }),
        None => None,
    }
}

/// What a bot asks of the game before it chooses a move.
pub open spec fn bot_ready(bot: Bot, g: GameView) -> bool {
    match bot {
        Bot::RandomMover => legal_moves_spec(g, false).len() > 0,
        Bot::Minimax | Bot::Negamax => g.ply > 0 ==> g.state is Playing && legal_moves_spec(g, true).len() > 0,
        Bot::IdabpNew { .. } | Bot::IdabpOld { .. } => g.ply > 0 ==> legal_moves_spec(g, false).len() > 0,
        _ => true,
    }
}

/// What an alpha-beta search plays: the center on an empty board; otherwise one of the moves
/// close to the stones, or `(usize::MAX, usize::MAX)` when there is none to try.
pub open spec fn search_choice_ok(g: GameView, res: Position) -> bool {
    &&& g.ply == 0 ==> res == BOARD_CENTER
    &&& g.ply > 0 ==> res == (usize::MAX, usize::MAX) || (g.state is Playing && legal_moves_spec(g, true).contains(res))
    &&& g.ply > 0 && g.state is Playing && legal_moves_spec(g, true).len() > 0 ==> res != (usize::MAX, usize::MAX)
}

/// What `bot` may play in the game `g` with the heuristic `h`.
pub open spec fn bot_choice_ok(bot: Bot, h: HeuristicView, g: GameView, res: Position) -> bool {
    match bot {
        Bot::RandomMover => legal_moves_spec(g, false).contains(res),
        Bot::Minimax => res == minimax_choice(h, g),
        Bot::Negamax => res == negamax_choice(h, g),
        Bot::AlphaBetaPruning => search_choice_ok(g, res),
        Bot::Idabp => search_choice_ok(g, res),
        Bot::IdabpNew { .. } | Bot::IdabpOld { .. } => (g.ply == 0 ==> res == BOARD_CENTER) && (g.ply > 0 ==> legal_moves_spec(g, false).contains(res)
            || (g.state is Playing && legal_moves_spec(g, true).contains(res))),
    }
}

/// The move `bot` chooses in `game` with `heuristic`.
pub fn bot_move(bot: Bot, game: &Game, heuristic: &Heuristic) -> (res: Position)
    requires
        valid_game(game@),
        valid_heuristic(heuristic@),
        bot_ready(bot, game@),
    ensures
        bot_choice_ok(bot, heuristic@, game@, res),
{
    match bot {
        Bot::RandomMover => random_mover::random_mover(game, heuristic),
        Bot::Minimax => minimax(game, heuristic),
        Bot::Negamax => negamax(game, heuristic),
        Bot::AlphaBetaPruning => alpha_beta_pruning::alpha_beta_pruning(game, heuristic),
        Bot::Idabp => idabp::idabp(game, heuristic),
        Bot::IdabpNew { time_limit_ms } => idabp_new::idabp_new(game, heuristic, time_limit_ms),
        Bot::IdabpOld { time_limit_ms } => idabp_old::idabp_old(game, heuristic, time_limit_ms),
    }
}

} // verus!
