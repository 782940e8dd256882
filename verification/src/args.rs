use vstd::prelude::*;

verus! {

/// The options every program shares: the number of threads and the time a bot may think.
#[derive(Clone, Debug, PartialEq, Eq)]
pub struct Args {
    pub num_threads: usize,
    pub time_limit_ms: u64,
}

/// The options of a match: the two players, the number of games, and the shared options.
#[derive(Clone, Debug, PartialEq, Eq)]
pub struct GomokuArgs {
    pub black_player: String,
    pub white_player: String,
    pub num_games: usize,
    pub common: Args,
}

/// The number of games of a match that are played: games go in pairs, one with each player
/// starting, so an odd number loses its last game. `None` when a single game is asked for,
/// which is played on the board instead.
pub fn games_to_play(num_games: usize) -> (res: Option<usize>)
    ensures
        num_games == 1 ==> res is None,
        num_games != 1 ==> res == Some((num_games - num_games % 2) as usize),
{
    if num_games == 1 {
        None
    } else {
        Some(num_games - num_games % 2)
    }
}

} // verus!
