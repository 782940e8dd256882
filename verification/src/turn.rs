use crate::game::board::Position;
use crate::game::Game;
use crate::player::Player;
use vstd::prelude::*;

verus! {

/// Whose turn it is, or nobody's.
#[derive(Copy, Clone, Debug, PartialEq, Eq, Structural)]
pub enum Turn {
    Nobody,
    Black,
    White,
}

impl Turn {
    /// The other player. `Nobody` has no opponent.
    pub fn opponent(self) -> (res: Self)
        requires
            self != Turn::Nobody,
        ensures
            self == Turn::Black ==> res == Turn::White,
            self == Turn::White ==> res == Turn::Black,
    {
        match self {
            Turn::Black => Turn::White,
            _ => Turn::Black,
        }
    }

    /// The pairs this player has captured in `game`. `Nobody` has no captures.
    pub fn captures(self, game: &Game) -> (res: usize)
        requires
            self != Turn::Nobody,
        ensures
            self == Turn::Black ==> res == game.black_captures,
            self == Turn::White ==> res == game.white_captures,
    {
        match self {
            Turn::Black => game.black_captures,
            _ => game.white_captures,
        }
    }

    /// Adds `captures` pairs to this player's captures in `game`. `Nobody` has no captures.
    pub fn increment_captures(self, game: &mut Game, captures: usize)
        requires
            self != Turn::Nobody,
            self == Turn::Black ==> old(game).black_captures + captures <= usize::MAX,
            self == Turn::White ==> old(game).white_captures + captures <= usize::MAX,
        ensures
            self == Turn::Black ==> final(game).black_captures == old(game).black_captures + captures
                && final(game).white_captures == old(game).white_captures,
            self == Turn::White ==> final(game).white_captures == old(game).white_captures + captures
                && final(game).black_captures == old(game).black_captures,
            final(game).board == old(game).board,
            final(game).state == old(game).state,
            final(game).ply == old(game).ply,
    {
        match self {
            Turn::Black => game.black_captures = game.black_captures + captures,
            _ => game.white_captures = game.white_captures + captures,
        }
    }
}

/// A game with what the interface shows around it.
pub struct Model {
    pub game: Game,
    pub hover: Option<Position>,
    pub ai_thinking_time: Option<u128>,
}

impl Model {
    /// A new game between the two players, with nothing hovered and no thinking time.
    pub fn new(black_player: Player, white_player: Player) -> (res: Self)
        ensures
            crate::game::logic::valid_game(res.game@),
            res.game@.ply == 0,
            res.game@.state == crate::game::state::StateView::Playing(Seq::empty()),
            res.game@.black_player == black_player@,
            res.game@.white_player == white_player@,
            res.hover is None,
            res.ai_thinking_time is None,
    {
        Model { game: Game::new(black_player, white_player), hover: None, ai_thinking_time: None }
    }
}

} // verus!
