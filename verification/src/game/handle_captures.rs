use crate::game::board::{on_board, direction8, directions8, is_capture, is_unit, manhattan_distance_to_center, Direction, Position};
use crate::game::logic::{
    capture_step, captures_upto, GameView,
};
use crate::game::{update_close_moves_grid, Game};
use crate::player::PlayerColor;
use vstd::prelude::*;

verus! {

impl Game {
    /// When the stone on `pos` brackets two opponent stones in direction `dir`, removes them,
    /// counts the capture and records it.
    fn capture_in_direction(&mut self, pos: Position, dir: Direction)
        requires
            on_board(pos.0 as int, pos.1 as int),
            is_unit(dir),
            dir != (0isize, 0isize),
        ensures
            final(self)@ == capture_step(old(self)@, pos.0 as int, pos.1 as int, dir),
    {
        let (x, y) = pos;
        let ghost g = self@;
        if is_capture(&self.board, self.current_color, pos, dir) {
            let (dx, dy) = dir;
            let x1 = (x as isize + dx) as usize;
            let y1 = (y as isize + dy) as usize;
            let x2 = (x as isize + 2 * dx) as usize;
            let y2 = (y as isize + 2 * dy) as usize;

            self.board[y1][x1] = None;
            self.board[y2][x2] = None;
            update_close_moves_grid(&mut self.close_moves, x1, y1, false);
            update_close_moves_grid(&mut self.close_moves, x2, y2, false);

            let removed = manhattan_distance_to_center(x1, y1) + manhattan_distance_to_center(x2, y2);
            match self.current_color {
                PlayerColor::Black => {
                    self.black_captures = self.black_captures.wrapping_add(1);
                    self.white_dist_to_center = self.white_dist_to_center.wrapping_sub(removed);
                },
                PlayerColor::White => {
                    self.white_captures = self.white_captures.wrapping_add(1);
                    self.black_dist_to_center = self.black_dist_to_center.wrapping_sub(removed);
                },
            }

            self.captures.push((self.ply, (x1, y1), (x2, y2)));
            proof {
                assert(self@.forced_moves_history =~= g.forced_moves_history);
                assert(self@ == capture_step(g, x as int, y as int, dir));
            }
        }
    }

    /// Removes every pair of opponent stones that a stone of the player to move on `pos`
    /// brackets, in the order of `DIRECTIONS8`, counting and recording each capture (the
    /// counts and the distance sums wrap around as machine integers do).
    pub fn handle_captures(&mut self, pos: Position)
        requires
            on_board(pos.0 as int, pos.1 as int),
        ensures
            final(self)@ == captures_upto(old(self)@, pos.0 as int, pos.1 as int, 8),
    {
        let ghost g = self@;
        let ghost c = g.current_color;
        let mut i: usize = 0;
        while i < 8
            invariant
                i <= 8,
                self@ == captures_upto(g, pos.0 as int, pos.1 as int, i as nat),
                on_board(pos.0 as int, pos.1 as int),
            decreases 8 - i,
        {
            let dir = direction8(i);
            self.capture_in_direction(pos, dir);
            i += 1;
        }
    }
}

} // verus!
