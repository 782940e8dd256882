use crate::game::board::{direction4, directions4, on_board, Board, Position};
use crate::game::logic::{neg_dir, run_len};
use crate::game::state::{run_length_of, REQUIRED_CAPTURES, STONES_IN_A_ROW};
use crate::player::PlayerColor;
use vstd::prelude::*;

verus! {

/// The stone of `color` on `pos` lies in a row of at least five stones of its color in
/// direction `d` (counting at most four on each side).
pub open spec fn five_in_dir(board: Board, color: PlayerColor, pos: Position, d: (isize, isize)) -> bool {
    run_len(board, color, pos.0 as int, pos.1 as int, d, 0)
        + run_len(board, color, pos.0 as int, pos.1 as int, neg_dir(d), 0) + 1 >= STONES_IN_A_ROW
}

/// Whether the stone of `color` on `pos` lies in a row of five or more in direction `dir`
/// or the opposite one.
pub fn check_five_in_a_row(board: &Board, color: PlayerColor, pos: Position, dir: (isize, isize)) -> (res: bool)
    requires
        on_board(pos.0 as int, pos.1 as int),
        dir == directions4(0) || dir == directions4(1) || dir == directions4(2) || dir == directions4(3),
    ensures
        res == five_in_dir(*board, color, pos, dir),
{
    let forward = run_length_of(board, color, pos, dir);
    let backward = run_length_of(board, color, pos, (-dir.0, -dir.1));
    forward + backward + 1 >= STONES_IN_A_ROW
}

/// The simple winning rule: `captures` captured pairs are enough, or the stone of `color` on
/// `pos` lies in a row of five or more in one of the four directions.
pub open spec fn simple_win(board: Board, color: PlayerColor, captures: int, pos: Position) -> bool {
    captures >= REQUIRED_CAPTURES || exists|i: int| 0 <= i < 4 && #[trigger] five_in_dir(board, color, pos, directions4(i))
}

/// Whether the player of `color`, with `captures` captured pairs, has won by playing `pos`
/// (see `simple_win`; a row of five cannot be broken in this rule).
pub fn check_winner(board: &Board, color: PlayerColor, captures: usize, pos: Position) -> (res: bool)
    requires
        on_board(pos.0 as int, pos.1 as int),
    ensures
        res == simple_win(*board, color, captures as int, pos),
{
    if captures >= REQUIRED_CAPTURES {
        return true;
    }
    let mut i: usize = 0;
    while i < 4
        invariant
            i <= 4,
            on_board(pos.0 as int, pos.1 as int),
            forall|j: int| 0 <= j < i ==> !#[trigger] five_in_dir(*board, color, pos, directions4(j)),
        decreases 4 - i,
    {
        if check_five_in_a_row(board, color, pos, direction4(i)) {
            return true;
        }
        i += 1;
    }
    false
}

} // verus!
