use crate::game::board::Position;
use crate::game::legal_moves::legal_moves_spec;
use crate::game::Game;
use crate::heuristics::Heuristic;
use crate::random::random_range_inclusive;
use vstd::prelude::*;

verus! {

/// The random bot: plays one of the legal moves, chosen at random. The heuristic is not
/// used. The game must have a legal move.
pub fn random_mover(game: &Game, heuristic: &Heuristic) -> (res: Position)
    requires
        legal_moves_spec(game@, false).len() > 0,
    ensures
        legal_moves_spec(game@, false).contains(res),
{
    let legal_moves = game.get_legal_moves(None, false);
    let i = random_range_inclusive(0, legal_moves.len() - 1);
    proof {
        assert(legal_moves@.contains(legal_moves@[i as int]));
    }
    legal_moves[i]
}

/// The first legal move, in row-major order. The game must have a legal move.
pub fn get_bot_move(game: &Game) -> (res: Position)
    requires
        legal_moves_spec(game@, false).len() > 0,
    ensures
        res == legal_moves_spec(game@, false)[0],
{
    let legal_moves = game.get_legal_moves(None, false);
    legal_moves[0]
}

/// The bot that always plays the first legal move.
pub struct BotRandom;

impl BotRandom {
    /// The first legal move, in row-major order. The game must have a legal move.
    pub fn get_move(game: &Game) -> (res: Position)
        requires
            legal_moves_spec(game@, false).len() > 0,
        ensures
            res == legal_moves_spec(game@, false)[0],
    {
        get_bot_move(game)
    }
}

} // verus!
