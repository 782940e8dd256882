use crate::game::board::{on_board, Board};
use crate::game::logic::run_len;
use crate::game::state::run_length_of;
use crate::player::PlayerColor;
use vstd::prelude::*;

verus! {

/// The stones of `color` joined to `(x, y)` in direction `(dx, dy)` and in the opposite
/// direction (at most four on each side), with `(x, y)` itself.
pub open spec fn line_count(board: Board, color: PlayerColor, x: int, y: int, dx: isize, dy: isize) -> int {
    1 + run_len(board, color, x, y, (dx, dy), 0nat) as int + run_len(board, color, x, y, ((-dx) as isize, (-dy) as isize), 0nat) as int
}

/// Whether `(x, y)` lies in a line of at least five stones of `color` in direction `(dx, dy)`.
pub fn check_winner_in_direction(board: &Board, color: PlayerColor, x: usize, y: usize, dx: isize, dy: isize) -> (res: bool)
    requires
        on_board(x as int, y as int),
        -1 <= dx <= 1,
        -1 <= dy <= 1,
    ensures
        res == (line_count(*board, color, x as int, y as int, dx, dy) >= 5),
{
    let forward = run_length_of(board, color, (x, y), (dx, dy));
    let backward = run_length_of(board, color, (x, y), (-dx, -dy));
    1 + forward + backward >= 5
}

/// Looks for a line of five through `(x, y)` in each of the four directions; the answer is
/// not kept, so the board is left as it is.
pub fn handle_capture(board: &Board, color: PlayerColor, x: usize, y: usize)
    requires
        on_board(x as int, y as int),
{
    let directions: [(isize, isize); 4] = [(1, 0), (0, 1), (1, 1), (1, -1)];
    let mut i: usize = 0;
    while i < 4
        invariant
            on_board(x as int, y as int),
            directions@ == seq![(1isize, 0isize), (0isize, 1isize), (1isize, 1isize), (1isize, -1isize)],
        decreases 4 - i,
    {
        let (dx, dy) = directions[i];
        if check_winner_in_direction(board, color, x, y, dx, dy) {
            break;
        }
        i += 1;
    }
}

} // verus!
