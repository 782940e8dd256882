use crate::game::board::{holds, on_board, Position, BOARD_SIZE};
use crate::game::creates_double_three::double_three_spec;
use crate::game::logic::{all_cells, cell_at, valid_game, GameView};
use crate::game::state::{GameState, StateView};
use crate::game::{copy_positions, Game};
use crate::player::{Player, PlayerColor};
use crate::random::shuffle_positions;
use vstd::prelude::*;

verus! {

/// `p` is an empty cell where the player to move may play: not a double three and, when
/// `near_only`, close to a stone played before.
pub open spec fn legal_candidate(g: GameView, p: Position, near_only: bool) -> bool {
    &&& on_board(p.0 as int, p.1 as int)
    &&& (!near_only || g.close_moves[p.1 as int][p.0 as int] > 0)
    &&& holds(g.board, None, p.0 as int, p.1 as int)
    &&& !double_three_spec(g.board, g.current_color, p.0 as int, p.1 as int)
}

/// The moves of the player to move: the forced moves when there are some, otherwise every
/// `legal_candidate`, in row-major order (cell `(x, y)` before `(x + 1, y)`, row `y` before
/// row `y + 1`). The searches try the moves in this order where they do not sort or shuffle
/// them, so it decides which of two moves of equal value they keep.
pub open spec fn legal_moves_spec(g: GameView, near_only: bool) -> Seq<Position> {
    if g.state is Playing && g.state->Playing_0.len() > 0 {
        g.state->Playing_0
    } else {
        all_cells().filter(|p: Position| legal_candidate(g, p, near_only))
    }
}

/// Every legal move is a move the game accepts.
pub proof fn lemma_legal_moves_playable(g: GameView, near_only: bool, i: int)
    requires
        valid_game(g),
        g.state is Playing,
        0 <= i < legal_moves_spec(g, near_only).len(),
    ensures
        holds(g.board, None, legal_moves_spec(g, near_only)[i].0 as int, legal_moves_spec(g, near_only)[i].1 as int),
{
    if !(g.state->Playing_0.len() > 0) {
        let pred = |p: Position| legal_candidate(g, p, near_only);
        all_cells().lemma_filter_pred(pred, i);
    }
}

impl Game {
    /// The player whose turn it is.
    pub fn current_player(&self) -> (res: &Player)
        ensures
            *res == (if self.current_color == PlayerColor::Black { self.black_player } else { self.white_player }),
    {
        match self.current_color {
            PlayerColor::Black => &self.black_player,
            PlayerColor::White => &self.white_player,
        }
    }

    /// The moves of the player to move: the forced moves when there are some, otherwise the
    /// empty cells that are not double threes (only those close to a played stone when
    /// `max_dist` is given), in row-major order, or in a random order when `shuffle`.
    pub fn get_legal_moves(&self, max_dist: Option<usize>, shuffle: bool) -> (res: Vec<Position>)
        requires
            max_dist is None || max_dist == Some(2usize),
        ensures
            !shuffle ==> res@ == legal_moves_spec(self@, max_dist is Some),
            shuffle ==> res@.to_multiset() == legal_moves_spec(self@, max_dist is Some).to_multiset(),
    {
        let ghost g = self@;
        let mut legal_moves: Vec<Position> = Vec::new();
        let mut forced = false;
        match &self.state {
            GameState::Playing(forced_moves) => {
                if forced_moves.len() > 0 {
                    legal_moves = copy_positions(forced_moves);
                    forced = true;
                }
            },
            _ => {},
        }
        if !forced {
            let near_only = max_dist.is_some();
            let ghost pred = |p: Position| legal_candidate(g, p, near_only);
            let mut k: usize = 0;
            while k < BOARD_SIZE * BOARD_SIZE
                invariant
                    k <= BOARD_SIZE * BOARD_SIZE,
                    g == self@,
                    near_only == (max_dist is Some),
                    pred == (|p: Position| legal_candidate(g, p, near_only)),
                    legal_moves@ == all_cells().take(k as int).filter(pred),
                decreases BOARD_SIZE * BOARD_SIZE - k,
            {
                let (x, y) = (k % BOARD_SIZE, k / BOARD_SIZE);
                proof {
                    assert((x, y) == cell_at(k as int));
                    reveal_with_fuel(Seq::filter, 1);
                    assert(all_cells().take(k + 1).drop_last() =~= all_cells().take(k as int));
                }
                if (!near_only || self.close_moves[y][x] > 0) && self.board[y][x].is_none()
                    && !self.creates_double_three((x, y)) {
                    legal_moves.push((x, y));
                }
                k += 1;
            }
            proof {
                assert(all_cells().take((BOARD_SIZE * BOARD_SIZE) as int) =~= all_cells());
            }
        }
        if shuffle {
            shuffle_positions(&mut legal_moves);
        }
        legal_moves
    }
}

} // verus!
