use crate::game::Game;
use vstd::prelude::*;

verus! {

/// Black's captured pairs minus white's.
pub fn capturophile(game: &Game, coeffs: Option<&Vec<i64>>) -> (res: i64)
    requires
        game.black_captures <= 1_000_000,
        game.white_captures <= 1_000_000,
    ensures
        res == game.black_captures - game.white_captures,
{
    game.black_captures as i64 - game.white_captures as i64
}

} // verus!
