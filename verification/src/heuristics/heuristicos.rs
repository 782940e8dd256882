use crate::game::Game;
use vstd::prelude::*;

verus! {

/// The score of a position: black's captured pairs minus white's.
pub fn heuristicos(game: &Game) -> (res: i64)
    requires
        game.black_captures <= 1_000_000,
        game.white_captures <= 1_000_000,
    ensures
        res == game.black_captures - game.white_captures,
{
    let mut score: i64 = 0;
    score += game.black_captures as i64 - game.white_captures as i64;
    score
}

} // verus!
