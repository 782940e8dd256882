use crate::game::board::{on_board, Board, Direction, Position, BOARD_SIZE};
use crate::game::logic::step_mul;
use crate::player::PlayerColor;
use vstd::prelude::*;

verus! {

/// Number of lines of each orientation along the diagonals.
pub const N_DIAGONALS: usize = 37;

/// Number of lines the heuristics scan: rows, columns, then both diagonal orientations.
pub const N_LINES: usize = 112;

/// A line of the board: its first cell, its direction and its number of cells.
pub type Line = (Position, Direction, usize);

/// The `i`-th line: rows (top to bottom), columns (left to right), upward diagonals
/// (`x + y` from 0 to 36) and downward diagonals (`x - y` from -18 to 18).
pub open spec fn line_spec(i: int) -> Line {
    if i < 19 {
        ((0, i as usize), (1, 0), 19)
    } else if i < 38 {
        (((i - 19) as usize, 0), (0, 1), 19)
    } else if i < 75 {
        let s = i - 38;
        if s <= 18 { ((0, s as usize), (1, -1isize), (s + 1) as usize) }
        else { (((s - 18) as usize, 18), (1, -1isize), (37 - s) as usize) }
    } else {
        let s = i - 75;
        if s <= 18 { ((0, (18 - s) as usize), (1, 1), (s + 1) as usize) }
        else { (((s - 18) as usize, 0), (1, 1), (37 - s) as usize) }
    }
}

/// The `k`-th cell of a line.
pub open spec fn line_cell(line: Line, k: int) -> Position {
    let (start, d, _) = line;
    ((start.0 + step_mul(k, d.0)) as usize, (start.1 + step_mul(k, d.1)) as usize)
}

/// The contents of the cells of a line, in order.
pub open spec fn line_values(board: Board, line: Line) -> Seq<Option<PlayerColor>> {
    Seq::new(line.2 as nat, |k: int| board[line_cell(line, k).1 as int][line_cell(line, k).0 as int])
}

/// Every cell of every line is on the board.
pub proof fn lemma_line_on_board(i: int, k: int)
    requires
        0 <= i < N_LINES,
        0 <= k < line_spec(i).2,
    ensures
        on_board(line_cell(line_spec(i), k).0 as int, line_cell(line_spec(i), k).1 as int),
        line_spec(i).2 <= 19,
{
}

/// The `i`-th line.
pub fn line(i: usize) -> (res: Line)
    requires
        i < N_LINES,
    ensures
        res == line_spec(i as int),
{
    if i < 19 {
        ((0, i), (1, 0), 19)
    } else if i < 38 {
        ((i - 19, 0), (0, 1), 19)
    } else if i < 75 {
        let s = i - 38;
        if s <= 18 { ((0, s), (1, -1), s + 1) } else { ((s - 18, 18), (1, -1), 37 - s) }
    } else {
        let s = i - 75;
        if s <= 18 { ((0, 18 - s), (1, 1), s + 1) } else { ((s - 18, 0), (1, 1), 37 - s) }
    }
}

/// The content of the `k`-th cell of the `i`-th line.
pub fn line_value(board: &Board, i: usize, k: usize) -> (res: Option<PlayerColor>)
    requires
        i < N_LINES,
        k < line_spec(i as int).2,
    ensures
        res == line_values(*board, line_spec(i as int))[k as int],
{
    let ((sx, sy), (dx, dy), _) = line(i);
    proof {
        lemma_line_on_board(i as int, k as int);
    }
    let x = if dx == 0 { sx } else { sx + k };
    let y = if dy == 0 { sy } else if dy > 0 { sy + k } else { sy - k };
    board[y][x]
}

} // verus!
