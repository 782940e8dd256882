pub mod bitboard;
pub mod board;
pub mod copy;
pub mod creates_double_three;
pub mod five;
pub mod handle_captures;
pub mod legal_moves;
pub mod laws;
pub mod lines;
pub mod logic;
pub mod play;
pub mod state;
pub mod zobrist;

use crate::game::board::{
    direction8, grid_set, holds, is_capture, manhattan_distance_to_center, on_board, Board, Position,
    BOARD_SIZE,
};
use crate::game::logic::{
    bump, can_play, capture_step, captured1, captured2, captures_ok, close_update, close_update_upto,
    color_dist, color_to_move, do_spec, expected_forced, lemma_capture_step_mid, lemma_do_valid,
    lemma_color_dist_set, lemma_dist_sum_bound, lemma_place_mid, lemma_captures_upto_mid,
    meta_do, mid_move, near, parity_count, place_spec, captures_upto, restore_last, undo_captures,
    undo_meta, undo_spec, unplace, valid_game, CloseMoves, GameView,
};
use crate::game::state::{GameState, StateView};
use crate::player::{opposite, Player, PlayerColor};
use vstd::prelude::*;

verus! {

/// A game of Gomoku with captures, and its history.
#[derive(Debug, Clone, PartialEq)]
pub struct Game {
    pub state: GameState,
    pub board: Board,
    pub close_moves: CloseMoves,
    pub current_color: PlayerColor,
    pub black_captures: usize,
    pub white_captures: usize,
    pub black_player: Player,
    pub white_player: Player,
    pub black_dist_to_center: u64,
    pub white_dist_to_center: u64,
    pub ply: usize,
    pub moves: Vec<Position>,
    pub captures: Vec<(usize, Position, Position)>,
    pub forced_moves_history: Vec<(usize, Vec<Position>)>,
}

impl View for Game {
    type V = GameView;

    open spec fn view(&self) -> GameView {
        GameView {
            state: self.state@,
            board: self.board,
            close_moves: self.close_moves,
            current_color: self.current_color,
            black_captures: self.black_captures,
            white_captures: self.white_captures,
            black_player: self.black_player@,
            white_player: self.white_player@,
            black_dist_to_center: self.black_dist_to_center,
            white_dist_to_center: self.white_dist_to_center,
            ply: self.ply,
            moves: self.moves@,
            captures: self.captures@,
            forced_moves_history: self.forced_moves_history@.map_values(|e: (usize, Vec<Position>)| (e.0, e.1@)),
        }
    }
}

/// Whether a stone comes (`Positive`) or goes (`Negative`).
#[derive(Clone, Copy)]
pub enum UpdateSign {
    Positive,
    Negative,
}

/// A copy of a list of positions.
pub fn copy_positions(v: &Vec<Position>) -> (res: Vec<Position>)
    ensures
        res@ == v@,
{
    let mut res: Vec<Position> = Vec::new();
    let mut i: usize = 0;
    while i < v.len()
        invariant
            i <= v.len(),
            res@ == v@.take(i as int),
        decreases v.len() - i,
    {
        res.push(v[i]);
        i += 1;
        assert(res@ =~= v@.take(i as int));
    }
    assert(v@.take(v.len() as int) =~= v@);
    res
}

/// Moves the counters of the cells within Manhattan distance 2 of `(x, y)`, modulo 256.
pub fn update_close_moves_grid(close_moves: &mut CloseMoves, x: usize, y: usize, up: bool)
    requires
        on_board(x as int, y as int),
    ensures
        *final(close_moves) == close_update(*old(close_moves), x as int, y as int, up),
{
    let mut k: usize = 0;
    while k < 25
        invariant
            k <= 25,
            on_board(x as int, y as int),
            *close_moves == close_update_upto(*old(close_moves), x as int, y as int, up, k as nat),
        decreases 25 - k,
    {
        let dx = (k % 5) as isize - 2;
        let dy = (k / 5) as isize - 2;
        let nx = x as isize + dx;
        let ny = y as isize + dy;
        let adx = if dx >= 0 { dx } else { -dx };
        let ady = if dy >= 0 { dy } else { -dy };
        if adx + ady <= 2 && nx >= 0 && ny >= 0 && nx < BOARD_SIZE as isize && ny < BOARD_SIZE as isize {
            let v = close_moves[ny as usize][nx as usize];
            let nv = if up { v.wrapping_add(1) } else { v.wrapping_sub(1) };
            close_moves[ny as usize][nx as usize] = nv;
        }
        k += 1;
    }
}

impl Game {
    /// A new game between `black_player` and `white_player`: empty board, black to move.
    pub fn new(black_player: Player, white_player: Player) -> (res: Self)
        ensures
            valid_game(res@),
            res@.state == StateView::Playing(Seq::empty()),
            forall|i: int, j: int| on_board(i, j) ==> res@.board[j][i] == None::<PlayerColor>,
            forall|i: int, j: int| on_board(i, j) ==> res@.close_moves[j][i] == 0,
            res@.current_color == PlayerColor::Black,
            res@.black_captures == 0,
            res@.white_captures == 0,
            res@.black_player == black_player@,
            res@.white_player == white_player@,
            res@.black_dist_to_center == 0,
            res@.white_dist_to_center == 0,
            res@.ply == 0,
            res@.moves == Seq::<Position>::empty(),
            res@.captures == Seq::<(usize, Position, Position)>::empty(),
            res@.forced_moves_history == Seq::<(usize, Seq<Position>)>::empty(),
    {
        let game = Game {
            state: GameState::init(),
            board: [[None; BOARD_SIZE]; BOARD_SIZE],
            close_moves: [[0; BOARD_SIZE]; BOARD_SIZE],
            current_color: PlayerColor::Black,
            black_captures: 0,
            white_captures: 0,
            black_player,
            white_player,
            black_dist_to_center: 0,
            white_dist_to_center: 0,
            ply: 0,
            moves: Vec::new(),
            captures: Vec::new(),
            forced_moves_history: Vec::new(),
        };
        proof {
            assert forall|i: int, j: int| on_board(i, j) implies game.board[j][i] == None::<PlayerColor> by {
                vstd::array::lemma_array_index(game.board, j);
            }
            crate::game::logic::lemma_dist_sum_empty(game.board, PlayerColor::Black, 361);
            crate::game::logic::lemma_dist_sum_empty(game.board, PlayerColor::White, 361);
            crate::game::logic::lemma_stone_sum_empty(game.board, 361);
            assert forall|i: int, j: int| on_board(i, j) implies #[trigger] game.close_moves[j][i] == crate::game::logic::near_count(game.board, i, j) by {
                vstd::array::lemma_array_index(game.close_moves, j);
                crate::game::logic::lemma_near_sum_empty(game.board, i, j, 361);
            }
            assert(game@.forced_moves_history =~= Seq::<(usize, Seq<Position>)>::empty());
        }
        game
    }

    /// Moves the counters of the cells within Manhattan distance 2 of `(x, y)`.
    pub fn update_close_moves(&mut self, x: usize, y: usize, update_sign: UpdateSign)
        requires
            on_board(x as int, y as int),
        ensures
            final(self)@ == (GameView {
                close_moves: close_update(old(self)@.close_moves, x as int, y as int, update_sign is Positive),
                ..old(self)@
            }),
    {
        let up = match update_sign {
            UpdateSign::Positive => true,
            UpdateSign::Negative => false,
        };
        update_close_moves_grid(&mut self.close_moves, x, y, up);
    }
}

impl Game {
    /// The player to move plays on `(x, y)`: the stone is placed, the bracketed opponent
    /// pairs are captured, the state is updated, forced moves are recorded and the turn passes.
    pub fn do_move(&mut self, x: usize, y: usize)
        requires
            valid_game(old(self)@),
            can_play(old(self)@, x as int, y as int),
        ensures
            final(self)@ == do_spec(old(self)@, x as int, y as int),
            valid_game(final(self)@),
    {
        let ghost g = self@;
        proof {
            lemma_place_mid(g, x as int, y as int);
            lemma_captures_upto_mid(place_spec(g, x as int, y as int), x as int, y as int, g.current_color, 8);
            lemma_do_valid(g, x as int, y as int);
            lemma_dist_sum_bound(g.board, g.current_color, 361);
        }
        self.ply += 1;
        self.board[y][x] = Some(self.current_color);
        let d = manhattan_distance_to_center(x, y);
        match self.current_color {
            PlayerColor::Black => self.black_dist_to_center += d,
            PlayerColor::White => self.white_dist_to_center += d,
        }
        self.update_close_moves(x, y, UpdateSign::Positive);
        assert(self@ == place_spec(g, x as int, y as int));
        self.handle_captures((x, y));
        let ghost g2 = self@;
        let state = self.update_state((x, y));
        self.state = state;
        let ghost h0 = self.forced_moves_history@;
        match &self.state {
            GameState::Playing(forced_moves) => {
                if forced_moves.len() > 0 {
                    let recorded = copy_positions(forced_moves);
                    self.forced_moves_history.push((self.ply, recorded));
                    proof {
                        assert(self.forced_moves_history@.map_values(|e: (usize, Vec<Position>)| (e.0, e.1@))
                            =~= h0.map_values(|e: (usize, Vec<Position>)| (e.0, e.1@)).push((g2.ply, state@->Playing_0)));
                    }
                }
            },
            _ => {},
        }
        self.current_color = self.current_color.not();
        self.moves.push((x, y));
        proof {
            assert(self@ == meta_do(g2, x as int, y as int));
        }
    }

    /// Takes back the last move: every operation of [`Self::do_move`] in reverse order.
    #[verifier::rlimit(40)]
    pub fn undo_last_move(&mut self)
        requires
            valid_game(old(self)@),
            old(self)@.moves.len() > 0,
        ensures
            final(self)@ == undo_spec(old(self)@),
    {
        let ghost g = self@;
        let (x, y) = self.moves.pop().unwrap();
        self.current_color = self.current_color.not();
        let ghost h0 = self.forced_moves_history@;
        let n = self.forced_moves_history.len();
        if n > 0 && self.forced_moves_history[n - 1].0 == self.ply {
            self.forced_moves_history.pop();
            proof {
                assert(self.forced_moves_history@.map_values(|e: (usize, Vec<Position>)| (e.0, e.1@))
                    =~= h0.map_values(|e: (usize, Vec<Position>)| (e.0, e.1@)).drop_last());
            }
        }
        let n = self.forced_moves_history.len();
        let forced = if n > 0 && self.forced_moves_history[n - 1].0 == self.ply - 1 {
            copy_positions(&self.forced_moves_history[n - 1].1)
        } else {
            Vec::new()
        };
        self.state = GameState::Playing(forced);
        proof {
            assert(self@.moves =~= g.moves.drop_last());
            assert(self@ == undo_meta(g));
        }

        let ghost c = self.current_color;
        let ghost o = opposite(c);
        proof {
            lemma_dist_sum_bound(g.board, PlayerColor::Black, 361);
            lemma_dist_sum_bound(g.board, PlayerColor::White, 361);
        }
        while self.captures.len() > 0 && self.captures[self.captures.len() - 1].0 == self.ply
            invariant
                undo_captures(self@, g.ply as int) == undo_captures(undo_meta(g), g.ply as int),
                self.ply == g.ply,
                self.current_color == c,
                o == opposite(c),
                color_to_move(g.ply - 1) == c,
                captures_ok(self@.captures, g.ply as int),
                self.black_captures == parity_count(self@.captures, 1),
                self.white_captures == parity_count(self@.captures, 0),
                self@.captures_of(c) <= 12,
                self@.dist_of(o) + 36 * self@.captures_of(c) <= 18 * 361 + 36 * 12,
                self@.dist_of(c) == g.dist_of(c),
            decreases self.captures.len(),
        {
            let ghost h = self@;
            proof {
                assert(h.captures.drop_last().push(h.captures.last()) =~= h.captures);
                crate::game::logic::lemma_parity_count_push(h.captures.drop_last(), h.captures.last(), 0);
                crate::game::logic::lemma_parity_count_push(h.captures.drop_last(), h.captures.last(), 1);
                assert(h.captures[h.captures.len() - 1] == h.captures.last());
            }
            let (_, (x1, y1), (x2, y2)) = self.captures.pop().unwrap();
            update_close_moves_grid(&mut self.close_moves, x1, y1, true);
            update_close_moves_grid(&mut self.close_moves, x2, y2, true);
            let restored = manhattan_distance_to_center(x1, y1) + manhattan_distance_to_center(x2, y2);
            match self.current_color {
                PlayerColor::Black => {
                    self.black_captures -= 1;
                    self.white_dist_to_center += restored;
                },
                PlayerColor::White => {
                    self.white_captures -= 1;
                    self.black_dist_to_center += restored;
                },
            }
            let opponent = self.current_color.not();
            self.board[y1][x1] = Some(opponent);
            self.board[y2][x2] = Some(opponent);
            proof {
                assert(self@.captures =~= h.captures.drop_last());
                assert(self@ == restore_last(h));
                assert(captures_ok(self@.captures, g.ply as int)) by {
                    assert forall|i: int| 0 <= i < self@.captures.len() implies {
                        let e = #[trigger] self@.captures[i];
                        &&& 1 <= e.0 <= g.ply
                        &&& on_board(e.1.0 as int, e.1.1 as int)
                        &&& on_board(e.2.0 as int, e.2.1 as int)
                    } by {
                        assert(self@.captures[i] == h.captures[i]);
                    }
                }
            }
        }

        self.update_close_moves(x, y, UpdateSign::Negative);
        let d = manhattan_distance_to_center(x, y);
        proof {
            lemma_color_dist_set(g.board, c, x as int, y as int, None);
        }
        match self.current_color {
            PlayerColor::Black => self.black_dist_to_center -= d,
            PlayerColor::White => self.white_dist_to_center -= d,
        }
        self.board[y][x] = None;
        self.ply -= 1;
    }
}

} // verus!
