use crate::game::Game;
use vstd::prelude::*;

verus! {

/// Every position is even.
pub fn zero(game: &Game, coeffs: Option<&Vec<i64>>) -> (res: i64)
    ensures
        res == 0,
{
    0
}

} // verus!
