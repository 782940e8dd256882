use crate::player::{opposite, PlayerColor};
use vstd::prelude::*;

verus! {

/// Side length of the (square) board.
pub const BOARD_SIZE: usize = 19;

/// Index of the middle row and column.
pub const HALF_BOARD_SIZE: usize = 9;

/// The cell in the middle of the board.
pub const BOARD_CENTER: (usize, usize) = (9, 9);

/// `board[y][x]` is the stone at column `x` and row `y`, if any.
pub type Board = [[Option<PlayerColor>; BOARD_SIZE]; BOARD_SIZE];

/// A cell, as `(x, y)`.
pub type Position = (usize, usize);

/// A step on the board, as `(dx, dy)`.
pub type Direction = (isize, isize);

/// `(x, y)` lies on the board.
pub open spec fn on_board(x: int, y: int) -> bool {
    0 <= x < BOARD_SIZE && 0 <= y < BOARD_SIZE
}

/// The content of cell `(x, y)` of `board` (meaningful on the board only).
pub open spec fn cell(board: Board, x: int, y: int) -> Option<PlayerColor> {
    board[y][x]
}

/// `grid` with cell `(x, y)` set to `v`.
pub open spec fn grid_set<T>(grid: [[T; BOARD_SIZE]; BOARD_SIZE], x: int, y: int, v: T) -> [[T; BOARD_SIZE]; BOARD_SIZE] {
    vstd::array::spec_array_update(grid, y, vstd::array::spec_array_update(grid[y], x, v))
}

/// `(x, y)` lies on the board and holds `player` (a color, or `None` for an empty cell).
pub open spec fn holds(board: Board, player: Option<PlayerColor>, x: int, y: int) -> bool {
    on_board(x, y) && cell(board, x, y) == player
}

/// A unit step: each coordinate is -1, 0 or 1.
pub open spec fn is_unit(d: Direction) -> bool {
    -1 <= d.0 <= 1 && -1 <= d.1 <= 1
}

/// A stone of `color` played on `(x, y)` brackets exactly two opponent stones in direction `d`.
pub open spec fn captures_in_dir(board: Board, color: PlayerColor, x: int, y: int, d: Direction) -> bool {
    &&& holds(board, Some(color), x + 3 * d.0, y + 3 * d.1)
    &&& holds(board, Some(opposite(color)), x + 2 * d.0, y + 2 * d.1)
    &&& holds(board, Some(opposite(color)), x + d.0, y + d.1)
}

/// Distance from `(x, y)` to the center of the board, in the Manhattan metric.
pub open spec fn manhattan_to_center(x: int, y: int) -> int {
    let dx = if x >= HALF_BOARD_SIZE { x - HALF_BOARD_SIZE } else { HALF_BOARD_SIZE - x };
    let dy = if y >= HALF_BOARD_SIZE { y - HALF_BOARD_SIZE } else { HALF_BOARD_SIZE - y };
    dx + dy
}

/// The four directions that cover every line once.
pub const DIRECTIONS4: [Direction; 4] = [(0, 1), (1, 1), (1, 0), (1, -1)];

/// The four directions of `DIRECTIONS4`, then their opposites.
pub const DIRECTIONS8: [Direction; 8] = [(0, 1), (1, 1), (1, 0), (1, -1), (0, -1), (-1, -1), (-1, 0), (-1, 1)];

/// The `i`-th element of `DIRECTIONS4`.
pub open spec fn directions4(i: int) -> Direction {
    if i == 0 { (0, 1) } else if i == 1 { (1, 1) } else if i == 2 { (1, 0) } else { (1, -1isize) }
}

/// The `i`-th element of `DIRECTIONS8`.
pub open spec fn directions8(i: int) -> Direction {
    if i < 4 { directions4(i) } else { ((-directions4(i - 4).0) as isize, (-directions4(i - 4).1) as isize) }
}

/// Equality of two cell contents.
pub fn same_cell(a: Option<PlayerColor>, b: Option<PlayerColor>) -> (res: bool)
    ensures
        res == (a == b),
{
    match (a, b) {
        (None, None) => true,
        (Some(PlayerColor::Black), Some(PlayerColor::Black)) => true,
        (Some(PlayerColor::White), Some(PlayerColor::White)) => true,
        _ => false,
    }
}

/// Whether `(x, y)` lies on the board and holds `player`.
pub fn is_same_color(board: &Board, player: Option<PlayerColor>, pos: (isize, isize)) -> (res: bool)
    ensures
        res == holds(*board, player, pos.0 as int, pos.1 as int),
{
    let (x, y) = pos;
    if x >= 0 && y >= 0 && x < BOARD_SIZE as isize && y < BOARD_SIZE as isize {
        same_cell(board[y as usize][x as usize], player)
    } else {
        false
    }
}

/// Whether a stone of `player_color` on `pos` captures the two stones next to it in direction `dir`.
pub fn is_capture(board: &Board, player_color: PlayerColor, pos: Position, dir: Direction) -> (res: bool)
    requires
        on_board(pos.0 as int, pos.1 as int),
        is_unit(dir),
    ensures
        res == captures_in_dir(*board, player_color, pos.0 as int, pos.1 as int, dir),
{
    let (x, y) = (pos.0 as isize, pos.1 as isize);
    let (dx, dy) = dir;
    let opponent = player_color.not();
    is_same_color(board, Some(player_color), (x + 3 * dx, y + 3 * dy))
        && is_same_color(board, Some(opponent), (x + 2 * dx, y + 2 * dy))
        && is_same_color(board, Some(opponent), (x + dx, y + dy))
}

/// The Manhattan distance from `(x, y)` to the center of the board.
pub fn manhattan_distance_to_center(x: usize, y: usize) -> (res: u64)
    requires
        on_board(x as int, y as int),
    ensures
        res == manhattan_to_center(x as int, y as int),
{
    let dx = if x >= HALF_BOARD_SIZE { x - HALF_BOARD_SIZE } else { HALF_BOARD_SIZE - x };
    let dy = if y >= HALF_BOARD_SIZE { y - HALF_BOARD_SIZE } else { HALF_BOARD_SIZE - y };
    (dx + dy) as u64
}

/// The `i`-th direction of `directions4`.
pub fn direction4(i: usize) -> (res: Direction)
    requires
        i < 4,
    ensures
        res == directions4(i as int),
{
    if i == 0 { (0, 1) } else if i == 1 { (1, 1) } else if i == 2 { (1, 0) } else { (1, -1isize) }
}

/// The `i`-th direction of `directions8`.
pub fn direction8(i: usize) -> (res: Direction)
    requires
        i < 8,
    ensures
        res == directions8(i as int),
{
    if i < 4 {
        direction4(i)
    } else {
        let (dx, dy) = direction4(i - 4);
        (-dx, -dy)
    }
}

} // verus!
