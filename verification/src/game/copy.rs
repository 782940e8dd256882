use crate::game::board::Position;
use crate::game::copy_positions;
use crate::game::state::{GameState, WinningWay};
use crate::game::Game;
use crate::heuristics::Heuristic;
use crate::player::Player;
use vstd::prelude::*;

verus! {

/// A copy of a list of numbers.
pub fn copy_i64s(v: &Vec<i64>) -> (res: Vec<i64>)
    ensures
        res@ == v@,
{
    let mut res: Vec<i64> = Vec::new();
    let mut i: usize = 0;
    while i < v.len()
        invariant
            i <= v.len(),
            res@ == v@.take(i as int),
        decreases v.len() - i,
    {
        res.push(v[i]);
        i += 1;
        assert(res@ =~= v@.take(i as int));
    }
    assert(v@.take(v.len() as int) =~= v@);
    res
}

/// A copy of a heuristic.
pub fn copy_heuristic(h: &Heuristic) -> (res: Heuristic)
    ensures
        res@ == h@,
{
    let coeffs = match &h.coeffs {
        Some(c) => Some(copy_i64s(c)),
        None => None,
    };
    Heuristic { fun: h.fun, coeffs }
}

/// A copy of a player.
pub fn copy_player(p: &Player) -> (res: Player)
    ensures
        res@ == p@,
{
    match p {
        Player::Human => Player::Human,
        Player::Bot { bot, heuristic } => Player::Bot { bot: *bot, heuristic: copy_heuristic(heuristic) },
    }
}

/// A copy of a list of rows.
fn copy_rows(v: &Vec<Vec<Position>>) -> (res: Vec<Vec<Position>>)
    ensures
        res@.map_values(|r: Vec<Position>| r@) == v@.map_values(|r: Vec<Position>| r@),
{
    let mut res: Vec<Vec<Position>> = Vec::new();
    let mut i: usize = 0;
    while i < v.len()
        invariant
            i <= v.len(),
            res.len() == i,
            forall|j: int| 0 <= j < i ==> (#[trigger] res@[j])@ == v@[j]@,
        decreases v.len() - i,
    {
        res.push(copy_positions(&v[i]));
        i += 1;
    }
    assert(res@.map_values(|r: Vec<Position>| r@) =~= v@.map_values(|r: Vec<Position>| r@));
    res
}

/// A copy of a game state.
pub fn copy_state(s: &GameState) -> (res: GameState)
    ensures
        res@ == s@,
{
    match s {
        GameState::Playing(forced) => GameState::Playing(copy_positions(forced)),
        GameState::Draw => GameState::Draw,
        GameState::Won(color, way) => GameState::Won(
            *color,
            WinningWay { win_by_captures: way.win_by_captures, winning_alignments: copy_rows(&way.winning_alignments) },
        ),
    }
}

/// A copy of a record of forced moves.
fn copy_history(v: &Vec<(usize, Vec<Position>)>) -> (res: Vec<(usize, Vec<Position>)>)
    ensures
        res@.map_values(|e: (usize, Vec<Position>)| (e.0, e.1@)) == v@.map_values(|e: (usize, Vec<Position>)| (e.0, e.1@)),
{
    let mut res: Vec<(usize, Vec<Position>)> = Vec::new();
    let mut i: usize = 0;
    while i < v.len()
        invariant
            i <= v.len(),
            res.len() == i,
            forall|j: int| 0 <= j < i ==> (#[trigger] res@[j]).0 == v@[j].0 && res@[j].1@ == v@[j].1@,
        decreases v.len() - i,
    {
        res.push((v[i].0, copy_positions(&v[i].1)));
        i += 1;
    }
    assert(res@.map_values(|e: (usize, Vec<Position>)| (e.0, e.1@)) =~= v@.map_values(|e: (usize, Vec<Position>)| (e.0, e.1@)));
    res
}

/// A copy of a list of recorded captures.
fn copy_captures(v: &Vec<(usize, Position, Position)>) -> (res: Vec<(usize, Position, Position)>)
    ensures
        res@ == v@,
{
    let mut res: Vec<(usize, Position, Position)> = Vec::new();
    let mut i: usize = 0;
    while i < v.len()
        invariant
            i <= v.len(),
            res@ == v@.take(i as int),
        decreases v.len() - i,
    {
        res.push(v[i]);
        i += 1;
        assert(res@ =~= v@.take(i as int));
    }
    assert(v@.take(v.len() as int) =~= v@);
    res
}

impl Game {
    /// A copy of the game.
    pub fn copy(&self) -> (res: Game)
        ensures
            res@ == self@,
    {
        Game {
            state: copy_state(&self.state),
            board: self.board,
            close_moves: self.close_moves,
            current_color: self.current_color,
            black_captures: self.black_captures,
            white_captures: self.white_captures,
            black_player: copy_player(&self.black_player),
            white_player: copy_player(&self.white_player),
            black_dist_to_center: self.black_dist_to_center,
            white_dist_to_center: self.white_dist_to_center,
            ply: self.ply,
            moves: copy_positions(&self.moves),
            captures: copy_captures(&self.captures),
            forced_moves_history: copy_history(&self.forced_moves_history),
        }
    }
}

} // verus!
