pub mod alpha_beta_pruning;

use crate::game::board::Position;
use crate::game::legal_moves::legal_moves_spec;
use crate::game::logic::GameView;
use crate::game::Game;
use crate::random::shuffle_positions;
use vstd::prelude::*;

verus! {

/// `p` is within `dist` cells, in both directions, of a move of `moves`.
pub open spec fn near_played(moves: Seq<Position>, p: Position, dist: int) -> bool {
    exists|i: int| 0 <= i < moves.len() && #[trigger] next_to(moves[i], p, dist)
}

/// The cells `a` and `b` are at most `dist` rows and `dist` columns apart.
pub open spec fn next_to(a: Position, b: Position, dist: int) -> bool {
    a.0 <= b.0 + dist && b.0 <= a.0 + dist && a.1 <= b.1 + dist && b.1 <= a.1 + dist
}

/// The legal moves of `g` within `dist` cells of a move played so far, in row-major order.
pub open spec fn close_moves_spec(g: GameView, dist: int) -> Seq<Position> {
    legal_moves_spec(g, false).filter(|p: Position| near_played(g.moves, p, dist))
}

/// Whether `p` is within `dist` cells of a move of `moves`.
pub fn is_near_played(moves: &Vec<Position>, p: Position, dist: usize) -> (res: bool)
    ensures
        res == near_played(moves@, p, dist as int),
{
    let mut i: usize = 0;
    while i < moves.len()
        invariant
            i <= moves.len(),
            forall|j: int| 0 <= j < i ==> !#[trigger] next_to(moves@[j], p, dist as int),
        decreases moves.len() - i,
    {
        let (x, y) = moves[i];
        let dx = if x <= p.0 { p.0 - x } else { x - p.0 };
        let dy = if y <= p.1 { p.1 - y } else { y - p.1 };
        if dx <= dist && dy <= dist {
            assert(next_to(moves@[i as int], p, dist as int));
            return true;
        }
        i += 1;
    }
    false
}

impl Game {
    /// The legal moves within `max_dist` cells of a move played so far: in row-major order,
    /// or in a random order when `shuffle` is set.
    pub fn get_close_moves(&self, max_dist: usize, shuffle: bool) -> (res: Vec<Position>)
        ensures
            !shuffle ==> res@ == close_moves_spec(self@, max_dist as int),
            shuffle ==> res@.to_multiset() == close_moves_spec(self@, max_dist as int).to_multiset(),
    {
        let legal = self.get_legal_moves(None, false);
        let ghost pred = |p: Position| near_played(self@.moves, p, max_dist as int);
        let mut close: Vec<Position> = Vec::new();
        let mut i: usize = 0;
        while i < legal.len()
            invariant
                i <= legal.len(),
                legal@ == legal_moves_spec(self@, false),
                pred == (|p: Position| near_played(self@.moves, p, max_dist as int)),
                close@ == legal@.take(i as int).filter(pred),
            decreases legal.len() - i,
        {
            proof {
                reveal_with_fuel(Seq::filter, 1);
                assert(legal@.take(i + 1).drop_last() =~= legal@.take(i as int));
            }
            if is_near_played(&self.moves, legal[i], max_dist) {
                close.push(legal[i]);
            }
            i += 1;
        }
        proof {
            assert(legal@.take(legal.len() as int) =~= legal@);
        }
        if shuffle {
            shuffle_positions(&mut close);
        }
        close
    }
}

} // verus!
