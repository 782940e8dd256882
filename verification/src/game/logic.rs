use crate::game::board::{captures_in_dir, directions4, directions8, grid_set, holds, is_unit, manhattan_to_center, on_board, Board, Direction, Position, BOARD_SIZE};
use crate::game::state::{StateView, REQUIRED_CAPTURES, STONES_IN_A_ROW};
use crate::player::{opposite, PlayerColor, PlayerView};
use vstd::prelude::*;

verus! {

/// For each cell, how many recent stones lie within Manhattan distance 2 (modulo 256).
pub type CloseMoves = [[u8; BOARD_SIZE]; BOARD_SIZE];

/// The abstract content of a game.
pub struct GameView {
    pub state: StateView,
    pub board: Board,
    pub close_moves: CloseMoves,
    pub current_color: PlayerColor,
    pub black_captures: usize,
    pub white_captures: usize,
    pub black_player: PlayerView,
    pub white_player: PlayerView,
    pub black_dist_to_center: u64,
    pub white_dist_to_center: u64,
    pub ply: usize,
    pub moves: Seq<Position>,
    pub captures: Seq<(usize, Position, Position)>,
    pub forced_moves_history: Seq<(usize, Seq<Position>)>,
}

impl GameView {
    /// Captured pairs of `color`.
    pub open spec fn captures_of(self, color: PlayerColor) -> usize {
        match color {
            PlayerColor::Black => self.black_captures,
            PlayerColor::White => self.white_captures,
        }
    }

    /// Summed distance to the center of the stones of `color`, as recorded.
    pub open spec fn dist_of(self, color: PlayerColor) -> u64 {
        match color {
            PlayerColor::Black => self.black_dist_to_center,
            PlayerColor::White => self.white_dist_to_center,
        }
    }
}

// ---------------------------------------------------------------------------
// Distances to the center

/// Contribution of cell number `k` (row-major) to the summed distance of `color`.
pub open spec fn dist_contrib(board: Board, color: PlayerColor, k: int) -> nat {
    let x = k % (BOARD_SIZE as int);
    let y = k / (BOARD_SIZE as int);
    if on_board(x, y) && board[y][x] == Some(color) {
        manhattan_to_center(x, y) as nat
    } else {
        0
    }
}

/// Summed distance to the center of the stones of `color` among the first `n` cells (row-major).
pub open spec fn dist_sum(board: Board, color: PlayerColor, n: nat) -> nat
    decreases n,
{
    if n == 0 {
        0
    } else {
        dist_sum(board, color, (n - 1) as nat) + dist_contrib(board, color, n - 1)
    }
}

/// Summed distance to the center of all stones of `color`.
pub open spec fn color_dist(board: Board, color: PlayerColor) -> nat {
    dist_sum(board, color, (BOARD_SIZE * BOARD_SIZE) as nat)
}

/// Cell number `k` (row-major) is `(x, y)` exactly when `k == y * 19 + x`.
pub proof fn lemma_cell_index(k: int, x: int, y: int)
    requires
        0 <= k,
        0 <= x < BOARD_SIZE,
        0 <= y < BOARD_SIZE,
    ensures
        (k % (BOARD_SIZE as int) == x && k / (BOARD_SIZE as int) == y) <==> k == y * (BOARD_SIZE as int) + x,
{
    assert((k % 19 == x && k / 19 == y) ==> k == y * 19 + x) by (nonlinear_arith)
        requires 0 <= k {
        assert(k == 19 * (k / 19) + k % 19);
    }
    assert(k == y * 19 + x ==> (k % 19 == x && k / 19 == y)) by (nonlinear_arith)
        requires 0 <= x < 19, 0 <= y < 19 {
        if k == y * 19 + x {
            vstd::arithmetic::div_mod::lemma_fundamental_div_mod_converse(k, 19, y, x);
        }
    }
}

pub proof fn lemma_dist_contrib_bound(board: Board, color: PlayerColor, k: int)
    requires
        0 <= k,
    ensures
        dist_contrib(board, color, k) <= 18,
{
}

/// The summed distance over `n` cells is at most `18 * n`.
pub proof fn lemma_dist_sum_bound(board: Board, color: PlayerColor, n: nat)
    ensures
        dist_sum(board, color, n) <= 18 * n,
    decreases n,
{
    if n > 0 {
        lemma_dist_sum_bound(board, color, (n - 1) as nat);
        lemma_dist_contrib_bound(board, color, n - 1);
    }
}

/// Changing one cell changes the summed distance by the difference of that cell's contributions.
pub proof fn lemma_dist_sum_set(board: Board, color: PlayerColor, x: int, y: int, v: Option<PlayerColor>, n: nat)
    requires
        on_board(x, y),
    ensures
        ({
            let b2 = grid_set(board, x, y, v);
            let k = y * (BOARD_SIZE as int) + x;
            let before = if n > k { dist_contrib(board, color, k) } else { 0 };
            let after = if n > k { dist_contrib(b2, color, k) } else { 0 };
            dist_sum(b2, color, n) + before == dist_sum(board, color, n) + after
        }),
    decreases n,
{
    let b2 = grid_set(board, x, y, v);
    if n > 0 {
        lemma_dist_sum_set(board, color, x, y, v, (n - 1) as nat);
        let j = n - 1;
        let jx = j % 19;
        let jy = j / 19;
        lemma_cell_index(j, x, y);
        assert(0 <= jx < 19 && 0 <= jy);
        if j != y * 19 + x && jy < 19 {
            lemma_grid_set_other(board, x, y, v, jx, jy);
        }
    }
}

/// Setting a cell leaves every other cell unchanged.
pub proof fn lemma_grid_set_other<T>(grid: [[T; BOARD_SIZE]; BOARD_SIZE], x: int, y: int, v: T, i: int, j: int)
    requires
        on_board(x, y),
        on_board(i, j),
    ensures
        grid_set(grid, x, y, v)[y][x] == v,
        (i != x || j != y) ==> grid_set(grid, x, y, v)[j][i] == grid[j][i],
{
    let row = vstd::array::spec_array_update(grid[y], x, v);
    vstd::array::axiom_spec_array_update(grid[y], x, v);
    vstd::array::axiom_spec_array_update(grid, y, row);
    vstd::array::lemma_array_index(grid, j);
    vstd::array::lemma_array_index(grid, y);
    vstd::array::lemma_array_index(grid_set(grid, x, y, v), j);
    vstd::array::lemma_array_index(grid_set(grid, x, y, v), y);
    vstd::array::lemma_array_index(row, x);
    vstd::array::lemma_array_index(row, i);
    vstd::array::lemma_array_index(grid[y], i);
    vstd::array::lemma_array_index(grid[j], i);
    vstd::array::lemma_array_index(grid_set(grid, x, y, v)[j], i);
    vstd::array::lemma_array_index(grid_set(grid, x, y, v)[y], x);
}

/// The summed distance of `color` after setting cell `(x, y)` to `v`.
pub proof fn lemma_color_dist_set(board: Board, color: PlayerColor, x: int, y: int, v: Option<PlayerColor>)
    requires
        on_board(x, y),
    ensures
        color_dist(grid_set(board, x, y, v), color)
            + (if board[y][x] == Some(color) { manhattan_to_center(x, y) } else { 0 })
            == color_dist(board, color)
            + (if v == Some(color) { manhattan_to_center(x, y) } else { 0 }),
{
    lemma_dist_sum_set(board, color, x, y, v, 361);
    lemma_cell_index(y * 19 + x, x, y);
    lemma_grid_set_other(board, x, y, v, x, y);
}

/// An empty board has no distance.
pub proof fn lemma_dist_sum_empty(board: Board, color: PlayerColor, n: nat)
    requires
        forall|i: int, j: int| 0 <= i < BOARD_SIZE && 0 <= j < BOARD_SIZE ==> board[j][i] == None::<PlayerColor>,
        n <= BOARD_SIZE * BOARD_SIZE,
    ensures
        dist_sum(board, color, n) == 0,
    decreases n,
{
    if n > 0 {
        lemma_dist_sum_empty(board, color, (n - 1) as nat);
        let j = n - 1;
        assert(0 <= j % 19 < 19 && 0 <= j / 19 < 19) by (nonlinear_arith)
            requires 0 <= j < 361;
    }
}

/// Number of stones among the first `n` cells (row-major).
pub open spec fn stone_sum(board: Board, n: nat) -> nat
    decreases n,
{
    if n == 0 {
        0
    } else {
        let k = n - 1;
        let x = k % (BOARD_SIZE as int);
        let y = k / (BOARD_SIZE as int);
        stone_sum(board, (n - 1) as nat) + (if on_board(x, y) && board[y][x] is Some { 1nat } else { 0nat })
    }
}

/// Number of stones on the board.
pub open spec fn stone_count(board: Board) -> nat {
    stone_sum(board, (BOARD_SIZE * BOARD_SIZE) as nat)
}

pub proof fn lemma_stone_sum_bound(board: Board, n: nat)
    ensures
        stone_sum(board, n) <= n,
    decreases n,
{
    if n > 0 {
        lemma_stone_sum_bound(board, (n - 1) as nat);
    }
}

/// Changing one cell changes the number of stones by the difference of that cell's content.
pub proof fn lemma_stone_sum_set(board: Board, x: int, y: int, v: Option<PlayerColor>, n: nat)
    requires
        on_board(x, y),
    ensures
        ({
            let b2 = grid_set(board, x, y, v);
            let k = y * (BOARD_SIZE as int) + x;
            let before: nat = if n > k && board[y][x] is Some { 1 } else { 0 };
            let after: nat = if n > k && v is Some { 1 } else { 0 };
            stone_sum(b2, n) + before == stone_sum(board, n) + after
        }),
    decreases n,
{
    let b2 = grid_set(board, x, y, v);
    lemma_grid_set_other(board, x, y, v, x, y);
    if n > 0 {
        lemma_stone_sum_set(board, x, y, v, (n - 1) as nat);
        let j = n - 1;
        let jx = j % 19;
        let jy = j / 19;
        lemma_cell_index(j, x, y);
        assert(0 <= jx < 19 && 0 <= jy);
        if j != y * 19 + x && jy < 19 {
            lemma_grid_set_other(board, x, y, v, jx, jy);
        }
    }
}

/// The number of stones after setting cell `(x, y)` to `v`.
pub proof fn lemma_stone_count_set(board: Board, x: int, y: int, v: Option<PlayerColor>)
    requires
        on_board(x, y),
    ensures
        stone_count(grid_set(board, x, y, v)) + (if board[y][x] is Some { 1int } else { 0 })
            == stone_count(board) + (if v is Some { 1int } else { 0 }),
{
    lemma_stone_sum_set(board, x, y, v, 361);
}

/// An empty board has no stones.
pub proof fn lemma_stone_sum_empty(board: Board, n: nat)
    requires
        forall|i: int, j: int| 0 <= i < BOARD_SIZE && 0 <= j < BOARD_SIZE ==> board[j][i] == None::<PlayerColor>,
        n <= BOARD_SIZE * BOARD_SIZE,
    ensures
        stone_sum(board, n) == 0,
    decreases n,
{
    if n > 0 {
        lemma_stone_sum_empty(board, (n - 1) as nat);
        let j = n - 1;
        assert(0 <= j % 19 < 19 && 0 <= j / 19 < 19) by (nonlinear_arith)
            requires 0 <= j < 361;
    }
}

} // verus!

verus! {

// ---------------------------------------------------------------------------
// Close moves

/// `(i, j)` lies within Manhattan distance 2 of `(x, y)`.
pub open spec fn near(i: int, j: int, x: int, y: int) -> bool {
    let dx = if i >= x { i - x } else { x - i };
    let dy = if j >= y { j - y } else { y - j };
    dx + dy <= 2
}

/// A counter moved one step up (`up`) or down, modulo 256.
pub open spec fn bump(v: u8, up: bool) -> u8 {
    if up {
        vstd::wrapping::u8_specs::wrapping_add(v, 1)
    } else {
        vstd::wrapping::u8_specs::wrapping_sub(v, 1)
    }
}

/// The first `k` of the 25 cells of the 5x5 square around `(x, y)` (row-major) that are
/// on the board and within Manhattan distance 2 have their counter moved.
pub open spec fn close_update_upto(cm: CloseMoves, x: int, y: int, up: bool, k: nat) -> CloseMoves
    decreases k,
{
    if k == 0 {
        cm
    } else {
        let prev = close_update_upto(cm, x, y, up, (k - 1) as nat);
        let nx = x + (k - 1) % 5 - 2;
        let ny = y + (k - 1) / 5 - 2;
        if near(nx, ny, x, y) && on_board(nx, ny) {
            grid_set(prev, nx, ny, bump(prev[ny][nx], up))
        } else {
            prev
        }
    }
}

/// Every counter within Manhattan distance 2 of `(x, y)` moved up (`up`) or down.
pub open spec fn close_update(cm: CloseMoves, x: int, y: int, up: bool) -> CloseMoves {
    close_update_upto(cm, x, y, up, 25)
}

/// Whether cell number `k` (row-major) holds a stone within Manhattan distance 2 of `(i, j)`.
pub open spec fn near_contrib(board: Board, i: int, j: int, k: int) -> nat {
    let x = k % (BOARD_SIZE as int);
    let y = k / (BOARD_SIZE as int);
    if on_board(x, y) && board[y][x] is Some && near(x, y, i, j) { 1 } else { 0 }
}

/// The stones within Manhattan distance 2 of `(i, j)` among the first `n` cells.
pub open spec fn near_sum(board: Board, i: int, j: int, n: nat) -> nat
    decreases n,
{
    if n == 0 { 0 } else { near_sum(board, i, j, (n - 1) as nat) + near_contrib(board, i, j, n - 1) }
}

/// The stones within Manhattan distance 2 of `(i, j)`.
pub open spec fn near_count(board: Board, i: int, j: int) -> nat {
    near_sum(board, i, j, (BOARD_SIZE * BOARD_SIZE) as nat)
}

/// Each counter of `cm` is the number of stones of `board` within Manhattan distance 2.
pub open spec fn close_ok(board: Board, cm: CloseMoves) -> bool {
    forall|i: int, j: int| on_board(i, j) ==> #[trigger] cm[j][i] == near_count(board, i, j)
}

/// Only the cells of the five rows around `(i, j)` can count: the first `n` cells hold at
/// most as many near stones as those among them in rows `j - 2 ..= j + 2`.
proof fn lemma_near_sum_bound(board: Board, i: int, j: int, n: nat)
    requires
        0 <= j < BOARD_SIZE,
    ensures
        near_sum(board, i, j, n) <= (if n <= 19 * (j - 2) { 0 } else if n <= 19 * (j + 3) { n - 19 * (j - 2) } else { 95 }),
    decreases n,
{
    if n > 0 {
        lemma_near_sum_bound(board, i, j, (n - 1) as nat);
        let k = n - 1;
        let y = k / 19;
        if near_contrib(board, i, j, k) == 1 {
            assert(j - 2 <= y <= j + 2);
            assert(19 * y <= k < 19 * y + 19) by (nonlinear_arith) requires y == k / 19, 0 <= k;
            assert(19 * (j - 2) <= 19 * y) by (nonlinear_arith) requires j - 2 <= y;
            assert(19 * y + 19 <= 19 * (j + 3)) by (nonlinear_arith) requires y <= j + 2;
        }
    }
}

/// Changing one cell changes the near counts by the difference of that cell's contributions.
proof fn lemma_near_sum_set(board: Board, x: int, y: int, v: Option<PlayerColor>, i: int, j: int, n: nat)
    requires
        on_board(x, y),
    ensures
        ({
            let b2 = grid_set(board, x, y, v);
            let k = y * (BOARD_SIZE as int) + x;
            let before = if n > k { near_contrib(board, i, j, k) } else { 0 };
            let after = if n > k { near_contrib(b2, i, j, k) } else { 0 };
            near_sum(b2, i, j, n) + before == near_sum(board, i, j, n) + after
        }),
    decreases n,
{
    let b2 = grid_set(board, x, y, v);
    if n > 0 {
        lemma_near_sum_set(board, x, y, v, i, j, (n - 1) as nat);
        let m = n - 1;
        let mx = m % 19;
        let my = m / 19;
        lemma_cell_index(m, x, y);
        assert(0 <= mx < 19 && 0 <= my);
        if m != y * 19 + x && my < 19 {
            lemma_grid_set_other(board, x, y, v, mx, my);
        }
    }
}

/// An empty board has no stone near any cell.
pub proof fn lemma_near_sum_empty(board: Board, i: int, j: int, n: nat)
    requires
        forall|a: int, b: int| 0 <= a < BOARD_SIZE && 0 <= b < BOARD_SIZE ==> board[b][a] == None::<PlayerColor>,
        n <= BOARD_SIZE * BOARD_SIZE,
    ensures
        near_sum(board, i, j, n) == 0,
    decreases n,
{
    if n > 0 {
        lemma_near_sum_empty(board, i, j, (n - 1) as nat);
        let m = n - 1;
        assert(0 <= m % 19 < 19 && 0 <= m / 19 < 19) by (nonlinear_arith)
            requires 0 <= m < 361;
    }
}

/// Putting a stone on an empty cell and moving the counters around it up, or taking a stone
/// away and moving them down, keeps the counters equal to the near counts.
pub proof fn lemma_close_ok_set(board: Board, cm: CloseMoves, x: int, y: int, v: Option<PlayerColor>, up: bool)
    requires
        close_ok(board, cm),
        on_board(x, y),
        up ==> board[y][x] is None && v is Some,
        !up ==> board[y][x] is Some && v is None,
    ensures
        close_ok(grid_set(board, x, y, v), close_update(cm, x, y, up)),
{
    let b2 = grid_set(board, x, y, v);
    let cm2 = close_update(cm, x, y, up);
    lemma_cell_index(y * 19 + x, x, y);
    lemma_grid_set_other(board, x, y, v, x, y);
    assert forall|i: int, j: int| on_board(i, j) implies #[trigger] cm2[j][i] == near_count(b2, i, j) by {
        lemma_close_update(cm, x, y, up, i, j);
        lemma_near_sum_set(board, x, y, v, i, j, 361);
        lemma_near_sum_bound(board, i, j, 361);
        assert(near(i, j, x, y) == near(x, y, i, j));
        assert(cm[j][i] == near_count(board, i, j));
    }
}

/// Two grids that agree on every cell are equal.
pub proof fn lemma_grid_ext<T>(a: [[T; BOARD_SIZE]; BOARD_SIZE], b: [[T; BOARD_SIZE]; BOARD_SIZE])
    requires
        forall|i: int, j: int| on_board(i, j) ==> a[j][i] == b[j][i],
    ensures
        a == b,
{
    assert forall|j: int| 0 <= j < BOARD_SIZE implies a[j] == b[j] by {
        vstd::array::axiom_array_ext_equal(a[j], b[j]);
        assert forall|i: int| 0 <= i < BOARD_SIZE implies a[j][i] == b[j][i] by {
            assert(on_board(i, j));
        }
        assert(a[j] =~= b[j]);
    }
    vstd::array::axiom_array_ext_equal(a, b);
    assert(a =~= b);
}

/// Cell by cell, `close_update_upto` has moved the near cells among the first `k` offsets.
pub proof fn lemma_close_update_upto(cm: CloseMoves, x: int, y: int, up: bool, k: nat, i: int, j: int)
    requires
        on_board(x, y),
        on_board(i, j),
        k <= 25,
    ensures
        close_update_upto(cm, x, y, up, k)[j][i] == (if near(i, j, x, y) && (i - x + 2) + 5 * (j - y + 2) < k {
            bump(cm[j][i], up)
        } else {
            cm[j][i]
        }),
    decreases k,
{
    if k > 0 {
        lemma_close_update_upto(cm, x, y, up, (k - 1) as nat, i, j);
        let prev = close_update_upto(cm, x, y, up, (k - 1) as nat);
        let nx = x + (k - 1) % 5 - 2;
        let ny = y + (k - 1) / 5 - 2;
        if near(nx, ny, x, y) && on_board(nx, ny) {
            lemma_grid_set_other(prev, nx, ny, bump(prev[ny][nx], up), i, j);
            if nx == i && ny == j {
                lemma_close_update_upto(cm, x, y, up, (k - 1) as nat, i, j);
            }
        }
    }
}

/// Cell by cell, `close_update` moves exactly the near cells.
pub proof fn lemma_close_update(cm: CloseMoves, x: int, y: int, up: bool, i: int, j: int)
    requires
        on_board(x, y),
        on_board(i, j),
    ensures
        close_update(cm, x, y, up)[j][i] == (if near(i, j, x, y) { bump(cm[j][i], up) } else { cm[j][i] }),
{
    lemma_close_update_upto(cm, x, y, up, 25, i, j);
}

/// Moving the counters around `(x, y)` down undoes moving them up, and conversely.
pub proof fn lemma_close_update_cancel(cm: CloseMoves, x: int, y: int, up: bool)
    requires
        on_board(x, y),
    ensures
        close_update(close_update(cm, x, y, up), x, y, !up) == cm,
{
    assert forall|i: int, j: int| on_board(i, j) implies close_update(close_update(cm, x, y, up), x, y, !up)[j][i] == cm[j][i] by {
        lemma_close_update(cm, x, y, up, i, j);
        lemma_close_update(close_update(cm, x, y, up), x, y, !up, i, j);
    }
    lemma_grid_ext(close_update(close_update(cm, x, y, up), x, y, !up), cm);
}

/// Taking back two stones' worth of counter moves, in any order.
pub proof fn lemma_close_update_cancel2(cm: CloseMoves, x1: int, y1: int, x2: int, y2: int)
    requires
        on_board(x1, y1),
        on_board(x2, y2),
    ensures
        close_update(close_update(close_update(close_update(cm, x1, y1, false), x2, y2, false), x1, y1, true), x2, y2, true) == cm,
{
    let a = close_update(cm, x1, y1, false);
    let b = close_update(a, x2, y2, false);
    let c = close_update(b, x1, y1, true);
    let d = close_update(c, x2, y2, true);
    assert forall|i: int, j: int| on_board(i, j) implies d[j][i] == cm[j][i] by {
        lemma_close_update(cm, x1, y1, false, i, j);
        lemma_close_update(a, x2, y2, false, i, j);
        lemma_close_update(b, x1, y1, true, i, j);
        lemma_close_update(c, x2, y2, true, i, j);
    }
    lemma_grid_ext(d, cm);
}

} // verus!

verus! {

// ---------------------------------------------------------------------------
// Playing a move

/// The color that moves when `ply` moves have been played.
pub open spec fn color_to_move(ply: int) -> PlayerColor {
    if ply % 2 == 0 { PlayerColor::Black } else { PlayerColor::White }
}

/// Step 1 of a move: the stone of the player to move goes on `(x, y)`.
pub open spec fn place_spec(g: GameView, x: int, y: int) -> GameView {
    let c = g.current_color;
    let m = manhattan_to_center(x, y);
    GameView {
        ply: (g.ply + 1) as usize,
        board: grid_set(g.board, x, y, Some(c)),
        black_dist_to_center: if c == PlayerColor::Black { (g.black_dist_to_center + m) as u64 } else { g.black_dist_to_center },
        white_dist_to_center: if c == PlayerColor::White { (g.white_dist_to_center + m) as u64 } else { g.white_dist_to_center },
        close_moves: close_update(g.close_moves, x, y, true),
        ..g
    }
}

/// The first of the two cells a stone on `(x, y)` captures in direction `d`.
pub open spec fn captured1(x: int, y: int, d: Direction) -> (int, int) {
    (x + d.0, y + d.1)
}

/// The second of the two cells a stone on `(x, y)` captures in direction `d`.
pub open spec fn captured2(x: int, y: int, d: Direction) -> (int, int) {
    (x + 2 * d.0, y + 2 * d.1)
}

/// Step 2 of a move, for one direction: when the stone on `(x, y)` brackets two opponent
/// stones in direction `d`, they leave the board, the capture is counted and recorded.
pub open spec fn capture_step(g: GameView, x: int, y: int, d: Direction) -> GameView {
    let c = g.current_color;
    if captures_in_dir(g.board, c, x, y, d) {
        let (x1, y1) = captured1(x, y, d);
        let (x2, y2) = captured2(x, y, d);
        let m = (manhattan_to_center(x1, y1) + manhattan_to_center(x2, y2)) as u64;
        GameView {
            board: grid_set(grid_set(g.board, x1, y1, None), x2, y2, None),
            close_moves: close_update(close_update(g.close_moves, x1, y1, false), x2, y2, false),
            black_captures: if c == PlayerColor::Black {
                vstd::wrapping::usize_specs::wrapping_add(g.black_captures, 1)
            } else {
                g.black_captures
            },
            white_captures: if c == PlayerColor::White {
                vstd::wrapping::usize_specs::wrapping_add(g.white_captures, 1)
            } else {
                g.white_captures
            },
            black_dist_to_center: if c == PlayerColor::White {
                vstd::wrapping::u64_specs::wrapping_sub(g.black_dist_to_center, m)
            } else {
                g.black_dist_to_center
            },
            white_dist_to_center: if c == PlayerColor::Black {
                vstd::wrapping::u64_specs::wrapping_sub(g.white_dist_to_center, m)
            } else {
                g.white_dist_to_center
            },
            captures: g.captures.push((g.ply, (x1 as usize, y1 as usize), (x2 as usize, y2 as usize))),
            ..g
        }
    } else {
        g
    }
}

/// Step 2 of a move, for the first `k` directions of `directions8`, in order.
pub open spec fn captures_upto(g: GameView, x: int, y: int, k: nat) -> GameView
    decreases k,
{
    if k == 0 {
        g
    } else {
        capture_step(captures_upto(g, x, y, (k - 1) as nat), x, y, directions8(k - 1))
    }
}

// ---------------------------------------------------------------------------
// Taking a move back

/// The forced moves recorded for position `ply` in `history` (none when unrecorded).
pub open spec fn expected_forced(history: Seq<(usize, Seq<Position>)>, ply: int) -> Seq<Position> {
    if history.len() > 0 && history.last().0 == ply {
        history.last().1
    } else {
        Seq::empty()
    }
}

/// The last recorded capture is taken back: its two stones return to the opponent of the
/// player to move, whose count goes down by one.
pub open spec fn restore_last(g: GameView) -> GameView {
    let (_, p1, p2) = g.captures.last();
    let (x1, y1) = (p1.0 as int, p1.1 as int);
    let (x2, y2) = (p2.0 as int, p2.1 as int);
    let c = g.current_color;
    let o = opposite(c);
    let m = (manhattan_to_center(x1, y1) + manhattan_to_center(x2, y2)) as u64;
    GameView {
        board: grid_set(grid_set(g.board, x1, y1, Some(o)), x2, y2, Some(o)),
        close_moves: close_update(close_update(g.close_moves, x1, y1, true), x2, y2, true),
        black_captures: if c == PlayerColor::Black { (g.black_captures - 1) as usize } else { g.black_captures },
        white_captures: if c == PlayerColor::White { (g.white_captures - 1) as usize } else { g.white_captures },
        black_dist_to_center: if c == PlayerColor::White {
            vstd::wrapping::u64_specs::wrapping_add(g.black_dist_to_center, m)
        } else {
            g.black_dist_to_center
        },
        white_dist_to_center: if c == PlayerColor::Black {
            vstd::wrapping::u64_specs::wrapping_add(g.white_dist_to_center, m)
        } else {
            g.white_dist_to_center
        },
        captures: g.captures.drop_last(),
        ..g
    }
}

/// Every capture recorded at ply `p` (the latest ones) is taken back, latest first.
pub open spec fn undo_captures(g: GameView, p: int) -> GameView
    decreases g.captures.len(),
{
    if g.captures.len() > 0 && g.captures.last().0 == p {
        undo_captures(restore_last(g), p)
    } else {
        g
    }
}

/// The bookkeeping of the last move is taken back: the move list, the turn, the recorded
/// forced moves and the state.
pub open spec fn undo_meta(g: GameView) -> GameView {
    let history = if g.forced_moves_history.len() > 0 && g.forced_moves_history.last().0 == g.ply {
        g.forced_moves_history.drop_last()
    } else {
        g.forced_moves_history
    };
    GameView {
        moves: g.moves.drop_last(),
        current_color: opposite(g.current_color),
        forced_moves_history: history,
        state: StateView::Playing(expected_forced(history, g.ply - 1)),
        ..g
    }
}

/// The stone of the player to move leaves `(x, y)`.
pub open spec fn unplace(g: GameView, x: int, y: int) -> GameView {
    let c = g.current_color;
    let m = manhattan_to_center(x, y);
    GameView {
        ply: (g.ply - 1) as usize,
        board: grid_set(g.board, x, y, None),
        black_dist_to_center: if c == PlayerColor::Black { (g.black_dist_to_center - m) as u64 } else { g.black_dist_to_center },
        white_dist_to_center: if c == PlayerColor::White { (g.white_dist_to_center - m) as u64 } else { g.white_dist_to_center },
        close_moves: close_update(g.close_moves, x, y, false),
        ..g
    }
}

/// The game with its last move taken back.
pub open spec fn undo_spec(g: GameView) -> GameView {
    let (x, y) = g.moves.last();
    unplace(undo_captures(undo_meta(g), g.ply as int), x as int, y as int)
}

/// Taking back one capture step restores the game before it.
pub proof fn lemma_restore_capture_step(g: GameView, x: int, y: int, d: Direction)
    requires
        on_board(x, y),
        is_unit(d),
        d != (0isize, 0isize),
        captures_in_dir(g.board, g.current_color, x, y, d),
        g.captures_of(g.current_color) < usize::MAX,
    ensures
        restore_last(capture_step(g, x, y, d)) == g,
{
    let c = g.current_color;
    let o = opposite(c);
    let (x1, y1) = captured1(x, y, d);
    let (x2, y2) = captured2(x, y, d);
    let h = capture_step(g, x, y, d);
    let r = restore_last(h);
    assert(h.captures.last() == (g.ply, (x1 as usize, y1 as usize), (x2 as usize, y2 as usize)));
    assert(h.captures.drop_last() =~= g.captures);
    lemma_close_update_cancel2(g.close_moves, x1, y1, x2, y2);
    let b1 = grid_set(g.board, x1, y1, None);
    let b2 = grid_set(b1, x2, y2, None);
    let b3 = grid_set(b2, x1, y1, Some(o));
    let b4 = grid_set(b3, x2, y2, Some(o));
    assert forall|i: int, j: int| on_board(i, j) implies b4[j][i] == g.board[j][i] by {
        lemma_grid_set_other(g.board, x1, y1, None, i, j);
        lemma_grid_set_other(b1, x2, y2, None, i, j);
        lemma_grid_set_other(b2, x1, y1, Some(o), i, j);
        lemma_grid_set_other(b3, x2, y2, Some(o), i, j);
    }
    lemma_grid_ext(b4, g.board);
}

/// Taking back the captures recorded at the ply of a move restores the game before them.
#[verifier::spinoff_prover]
#[verifier::rlimit(40)]
pub proof fn lemma_undo_captures_upto(g: GameView, x: int, y: int, k: nat)
    requires
        on_board(x, y),
        k <= 8,
        forall|i: int| 0 <= i < g.captures.len() ==> g.captures[i].0 < g.ply,
        g.black_captures + 8 < usize::MAX,
        g.white_captures + 8 < usize::MAX,
    ensures
        undo_captures(captures_upto(g, x, y, k), g.ply as int) == g,
        captures_upto(g, x, y, k).ply == g.ply,
        captures_upto(g, x, y, k).current_color == g.current_color,
        captures_upto(g, x, y, k).black_captures <= g.black_captures + k,
        captures_upto(g, x, y, k).white_captures <= g.white_captures + k,
    decreases k,
{
    if k > 0 {
        lemma_undo_captures_upto(g, x, y, (k - 1) as nat);
        let h = captures_upto(g, x, y, (k - 1) as nat);
        let d = directions8(k - 1);
        if captures_in_dir(h.board, h.current_color, x, y, d) {
            lemma_restore_capture_step(h, x, y, d);
        } else {
            assert(capture_step(h, x, y, d) == h);
            // the latest recorded capture, if any, is at the current ply or earlier
        }
    } else {
        if g.captures.len() > 0 {
            assert(g.captures.last().0 < g.ply);
        }
    }
}

} // verus!

verus! {

// ---------------------------------------------------------------------------
// Alignments, breaking them, and the state after a move

/// `s` steps along a unit direction component `dv`.
pub open spec fn step_mul(s: int, dv: isize) -> int {
    if dv == 0 { 0 } else if dv > 0 { s } else { -s }
}

/// The opposite direction.
pub open spec fn neg_dir(d: Direction) -> Direction {
    ((-d.0) as isize, (-d.1) as isize)
}

/// Number of consecutive stones of `color` after `(x, y)` in direction `d`, counted from the
/// `k`-th step on and never more than 4.
pub open spec fn run_len(board: Board, color: PlayerColor, x: int, y: int, d: Direction, k: nat) -> nat
    decreases 4 - k,
{
    if k < 4 && holds(board, Some(color), x + step_mul(k + 1 as int, d.0), y + step_mul(k + 1 as int, d.1)) {
        run_len(board, color, x, y, d, k + 1)
    } else {
        k
    }
}

/// The row through `(x, y)` in direction `d`: the stones of `color` joined to `(x, y)` on
/// either side (at most 4 per side), ordered from the backward end to the forward end.
pub open spec fn row_spec(board: Board, color: PlayerColor, x: int, y: int, d: Direction) -> Seq<Position> {
    let f = run_len(board, color, x, y, d, 0);
    let b = run_len(board, color, x, y, neg_dir(d), 0);
    Seq::new(b + 1 + f, |i: int| ((x + step_mul(i - b, d.0)) as usize, (y + step_mul(i - b, d.1)) as usize))
}

/// The rows of at least five stones through `(x, y)`, among the first `k` of `directions4`.
pub open spec fn alignments_upto(board: Board, color: PlayerColor, x: int, y: int, k: nat) -> Seq<Seq<Position>>
    decreases k,
{
    if k == 0 {
        Seq::empty()
    } else {
        let prev = alignments_upto(board, color, x, y, (k - 1) as nat);
        let row = row_spec(board, color, x, y, directions4(k - 1));
        if row.len() >= STONES_IN_A_ROW { prev.push(row) } else { prev }
    }
}

/// The rows of at least five stones of `color` through `(x, y)`, in the order of `directions4`.
pub open spec fn alignments_spec(board: Board, color: PlayerColor, x: int, y: int) -> Seq<Seq<Position>> {
    alignments_upto(board, color, x, y, 4)
}

/// Playing on `p` lets the opponent of `color` capture the stone on `s` together with its
/// neighbor in direction `d`.
pub open spec fn breaks_dir(board: Board, color: PlayerColor, s: (int, int), d: Direction, p: Position) -> bool {
    let o = opposite(color);
    let (sx, sy) = s;
    ||| (p == ((sx - d.0) as usize, (sy - d.1) as usize) && holds(board, None, sx - d.0, sy - d.1)
        && holds(board, Some(color), sx + d.0, sy + d.1) && holds(board, Some(o), sx + 2 * d.0, sy + 2 * d.1))
    ||| (p == ((sx + 2 * d.0) as usize, (sy + 2 * d.1) as usize) && holds(board, Some(o), sx - d.0, sy - d.1)
        && holds(board, Some(color), sx + d.0, sy + d.1) && holds(board, None, sx + 2 * d.0, sy + 2 * d.1))
}

/// Playing on `p` lets the opponent of `color` capture the stone on `s`.
pub open spec fn breaks(board: Board, color: PlayerColor, s: (int, int), p: Position) -> bool {
    exists|i: int| 0 <= i < 8 && #[trigger] breaks_dir(board, color, s, directions8(i), p)
}

/// Playing on `p` captures a stone that every five-in-a-row inside `row` uses.
pub open spec fn in_break_possibilities(board: Board, color: PlayerColor, row: Seq<Position>, p: Position) -> bool {
    exists|j: int| row.len() - STONES_IN_A_ROW <= j < STONES_IN_A_ROW && #[trigger] breaks(board, color, (row[j].0 as int, row[j].1 as int), p)
}

/// `p` is an empty cell where a stone of `color` captures a pair.
pub open spec fn capture_cell(board: Board, color: PlayerColor, p: Position) -> bool {
    &&& holds(board, None, p.0 as int, p.1 as int)
    &&& exists|i: int| 0 <= i < 8 && #[trigger] captures_in_dir(board, color, p.0 as int, p.1 as int, directions8(i))
}

/// A move that answers the alignments of `color`: playing on `p` breaks every one of them,
/// or, when the opponent is one capture from winning (`near_win`), captures a pair and so
/// wins by captures.
pub open spec fn is_forced(board: Board, color: PlayerColor, alignments: Seq<Seq<Position>>, near_win: bool, p: Position) -> bool {
    ||| forall|a: int| 0 <= a < alignments.len() ==> #[trigger] in_break_possibilities(board, color, alignments[a], p)
    ||| near_win && capture_cell(board, opposite(color), p)
}

/// The opponent of the player to move of `g` has captured all pairs but one of a win.
pub open spec fn opponent_near_win(g: GameView) -> bool {
    g.captures_of(opposite(g.current_color)) + 1 >= REQUIRED_CAPTURES
}

/// The `k`-th cell in row-major order.
pub open spec fn cell_at(k: int) -> Position {
    ((k % (BOARD_SIZE as int)) as usize, (k / (BOARD_SIZE as int)) as usize)
}

/// All cells, in row-major order.
pub open spec fn all_cells() -> Seq<Position> {
    Seq::new((BOARD_SIZE * BOARD_SIZE) as nat, |k: int| cell_at(k))
}

/// The cells that answer every alignment (see `is_forced`), in row-major order.
pub open spec fn forced_seq(board: Board, color: PlayerColor, alignments: Seq<Seq<Position>>, near_win: bool) -> Seq<Position> {
    all_cells().filter(|p: Position| is_forced(board, color, alignments, near_win, p))
}

/// The state after the player to move of `g` has played on `(x, y)` and captured:
/// a win by captures, a win by an alignment the opponent can answer neither by breaking it
/// with a capture nor, holding four pairs already, by capturing a fifth, a draw on a full
/// board, or the game goes on, restricted to those answers.
pub open spec fn update_state_spec(g: GameView, x: int, y: int) -> StateView {
    let c = g.current_color;
    let alignments = alignments_spec(g.board, c, x, y);
    let forced = forced_seq(g.board, c, alignments, opponent_near_win(g));
    if g.captures_of(c) >= REQUIRED_CAPTURES {
        StateView::Won(c, true, alignments)
    } else if alignments.len() > 0 && forced.len() == 0 {
        StateView::Won(c, false, alignments)
    } else if g.ply == BOARD_SIZE * BOARD_SIZE + 2 * (g.black_captures + g.white_captures) {
        StateView::Draw
    } else if alignments.len() == 0 {
        StateView::Playing(Seq::empty())
    } else {
        StateView::Playing(forced)
    }
}

/// Whether the player to move of `g` wins by playing on `(x, y)`, and otherwise the moves
/// that break every one of their alignments.
pub open spec fn check_winner_spec(g: GameView, x: int, y: int) -> (bool, Seq<Position>) {
    let c = g.current_color;
    let alignments = alignments_spec(g.board, c, x, y);
    let forced = forced_seq(g.board, c, alignments, opponent_near_win(g));
    if g.captures_of(c) >= REQUIRED_CAPTURES || (alignments.len() > 0 && forced.len() == 0) {
        (true, Seq::empty())
    } else if alignments.len() == 0 {
        (false, Seq::empty())
    } else {
        (false, forced)
    }
}

/// Step 3 of a move: the new state, the recorded forced moves, the turn and the move list.
pub open spec fn meta_do(g: GameView, x: int, y: int) -> GameView {
    let state = update_state_spec(g, x, y);
    let history = match state {
        StateView::Playing(forced) => if forced.len() > 0 {
            g.forced_moves_history.push((g.ply, forced))
        } else {
            g.forced_moves_history
        },
        _ => g.forced_moves_history,
    };
    GameView {
        state,
        forced_moves_history: history,
        current_color: opposite(g.current_color),
        moves: g.moves.push((x as usize, y as usize)),
        ..g
    }
}

/// The game after the player to move has played on `(x, y)`.
pub open spec fn do_spec(g: GameView, x: int, y: int) -> GameView {
    meta_do(captures_upto(place_spec(g, x, y), x, y, 8), x, y)
}

} // verus!

verus! {

// ---------------------------------------------------------------------------
// Well-formed games

/// Number of recorded captures made at a ply of parity `par`.
pub open spec fn parity_count(captures: Seq<(usize, Position, Position)>, par: int) -> nat
    decreases captures.len(),
{
    if captures.len() == 0 {
        0
    } else {
        parity_count(captures.drop_last(), par) + (if captures.last().0 % 2 == par { 1nat } else { 0nat })
    }
}

/// The recorded captures are well placed: made at a past ply, on cells of the board.
pub open spec fn captures_ok(captures: Seq<(usize, Position, Position)>, ply: int) -> bool {
    forall|i: int| 0 <= i < captures.len() ==> {
        let e = #[trigger] captures[i];
        &&& 1 <= e.0 <= ply
        &&& on_board(e.1.0 as int, e.1.1 as int)
        &&& on_board(e.2.0 as int, e.2.1 as int)
    }
}

/// What every reachable game satisfies.
pub open spec fn valid_game(g: GameView) -> bool {
    &&& g.black_dist_to_center == color_dist(g.board, PlayerColor::Black)
    &&& g.white_dist_to_center == color_dist(g.board, PlayerColor::White)
    &&& close_ok(g.board, g.close_moves)
    &&& g.ply == g.moves.len()
    &&& g.current_color == color_to_move(g.ply as int)
    &&& captures_ok(g.captures, g.ply as int)
    &&& g.black_captures == parity_count(g.captures, 1)
    &&& g.white_captures == parity_count(g.captures, 0)
    &&& g.black_captures <= 12
    &&& g.white_captures <= 12
    &&& g.state is Playing ==> g.black_captures < REQUIRED_CAPTURES && g.white_captures < REQUIRED_CAPTURES
    &&& stone_count(g.board) + 2 * (g.black_captures + g.white_captures) == g.ply
    &&& g.state is Playing ==> g.ply != BOARD_SIZE * BOARD_SIZE + 2 * (g.black_captures + g.white_captures)
    &&& forall|i: int| 0 <= i < g.forced_moves_history.len() ==> #[trigger] g.forced_moves_history[i].0 <= g.ply
    &&& g.state is Playing ==> g.state->Playing_0 == expected_forced(g.forced_moves_history, g.ply as int)
    &&& g.state is Playing ==> forall|i: int| 0 <= i < g.state->Playing_0.len() ==> {
        let p = #[trigger] g.state->Playing_0[i];
        holds(g.board, None, p.0 as int, p.1 as int)
    }
    &&& g.moves.len() > 0 ==> {
        let (lx, ly) = g.moves.last();
        holds(g.board, Some(opposite(g.current_color)), lx as int, ly as int)
    }
}

/// In a well-formed game (every game reached from a new one by moves, see `lemma_do_valid`),
/// the counter of each cell is the number of stones within Manhattan distance 2 of it.
pub proof fn lemma_close_moves_count(g: GameView, i: int, j: int)
    requires
        valid_game(g),
        on_board(i, j),
    ensures
        g.close_moves[j][i] == near_count(g.board, i, j),
{
}

/// While a well-formed game goes on, fewer than `BOARD_SIZE * BOARD_SIZE + 16` moves have
/// been played.
pub proof fn lemma_playing_ply_bound(g: GameView)
    requires
        valid_game(g),
        g.state is Playing,
    ensures
        g.ply < BOARD_SIZE * BOARD_SIZE + 16,
{
    lemma_stone_sum_bound(g.board, 361);
}

/// A move the game accepts: it is still going on and `(x, y)` is an empty cell.
pub open spec fn can_play(g: GameView, x: int, y: int) -> bool {
    &&& g.state is Playing
    &&& holds(g.board, None, x, y)
    &&& g.ply < usize::MAX
}

} // verus!

verus! {

/// What holds in the middle of a move by `c` on `(x, y)`, between the captures.
pub open spec fn mid_move(h: GameView, x: int, y: int, c: PlayerColor) -> bool {
    &&& on_board(x, y)
    &&& h.current_color == c
    &&& h.ply >= 1
    &&& color_to_move(h.ply - 1) == c
    &&& h.black_dist_to_center == color_dist(h.board, PlayerColor::Black)
    &&& h.white_dist_to_center == color_dist(h.board, PlayerColor::White)
    &&& captures_ok(h.captures, h.ply as int)
    &&& h.black_captures == parity_count(h.captures, 1)
    &&& h.white_captures == parity_count(h.captures, 0)
    &&& holds(h.board, Some(c), x, y)
    &&& stone_count(h.board) + 2 * (h.black_captures + h.white_captures) == h.ply
    &&& close_ok(h.board, h.close_moves)
}

pub proof fn lemma_parity_count_push(s: Seq<(usize, Position, Position)>, e: (usize, Position, Position), par: int)
    ensures
        parity_count(s.push(e), par) == parity_count(s, par) + (if e.0 % 2 == par { 1nat } else { 0nat }),
{
    assert(s.push(e).drop_last() =~= s);
}

/// One capture step keeps the middle-of-move properties.
pub proof fn lemma_capture_step_mid(h: GameView, x: int, y: int, c: PlayerColor, d: Direction)
    requires
        mid_move(h, x, y, c),
        is_unit(d),
        d != (0isize, 0isize),
        h.black_captures < usize::MAX,
        h.white_captures < usize::MAX,
    ensures
        mid_move(capture_step(h, x, y, d), x, y, c),
        capture_step(h, x, y, d).black_captures <= h.black_captures + 1,
        capture_step(h, x, y, d).white_captures <= h.white_captures + 1,
        captures_in_dir(h.board, c, x, y, d) ==> {
            let (x1, y1) = captured1(x, y, d);
            let (x2, y2) = captured2(x, y, d);
            let o = opposite(c);
            &&& h.dist_of(o) >= manhattan_to_center(x1, y1) + manhattan_to_center(x2, y2)
            &&& h.captures_of(c) < 12 ==> capture_step(h, x, y, d).captures_of(c) == h.captures_of(c) + 1
        },
{
    if captures_in_dir(h.board, c, x, y, d) {
        let o = opposite(c);
        let (x1, y1) = captured1(x, y, d);
        let (x2, y2) = captured2(x, y, d);
        let b1 = grid_set(h.board, x1, y1, None);
        let b2 = grid_set(b1, x2, y2, None);
        lemma_grid_set_other(h.board, x1, y1, None, x2, y2);
        lemma_grid_set_other(h.board, x1, y1, None, x, y);
        lemma_grid_set_other(b1, x2, y2, None, x, y);
        lemma_color_dist_set(h.board, PlayerColor::Black, x1, y1, None);
        lemma_color_dist_set(h.board, PlayerColor::White, x1, y1, None);
        lemma_color_dist_set(b1, PlayerColor::Black, x2, y2, None);
        lemma_color_dist_set(b1, PlayerColor::White, x2, y2, None);
        lemma_stone_count_set(h.board, x1, y1, None);
        lemma_stone_count_set(b1, x2, y2, None);
        lemma_close_ok_set(h.board, h.close_moves, x1, y1, None, false);
        lemma_close_ok_set(b1, close_update(h.close_moves, x1, y1, false), x2, y2, None, false);
        let e = (h.ply, (x1 as usize, y1 as usize), (x2 as usize, y2 as usize));
        lemma_parity_count_push(h.captures, e, 0);
        lemma_parity_count_push(h.captures, e, 1);
        let r = capture_step(h, x, y, d);
        assert(r.captures == h.captures.push(e));
        assert(captures_ok(r.captures, r.ply as int)) by {
            assert forall|i: int| 0 <= i < r.captures.len() implies {
                let e = #[trigger] r.captures[i];
                &&& 1 <= e.0 <= r.ply
                &&& on_board(e.1.0 as int, e.1.1 as int)
                &&& on_board(e.2.0 as int, e.2.1 as int)
            } by {
                if i < h.captures.len() {
                    assert(r.captures[i] == h.captures[i]);
                }
            }
        }
    }
}

/// All capture steps keep the middle-of-move properties and the bookkeeping of the move.
pub proof fn lemma_captures_upto_mid(h: GameView, x: int, y: int, c: PlayerColor, k: nat)
    requires
        mid_move(h, x, y, c),
        k <= 8,
        h.black_captures + 8 < usize::MAX,
        h.white_captures + 8 < usize::MAX,
    ensures
        mid_move(captures_upto(h, x, y, k), x, y, c),
        captures_upto(h, x, y, k).black_captures <= h.black_captures + k,
        captures_upto(h, x, y, k).white_captures <= h.white_captures + k,
        captures_upto(h, x, y, k).captures_of(opposite(c)) == h.captures_of(opposite(c)),
        captures_upto(h, x, y, k).ply == h.ply,
        captures_upto(h, x, y, k).state == h.state,
        captures_upto(h, x, y, k).moves == h.moves,
        captures_upto(h, x, y, k).forced_moves_history == h.forced_moves_history,
        captures_upto(h, x, y, k).black_player == h.black_player,
        captures_upto(h, x, y, k).white_player == h.white_player,
    decreases k,
{
    if k > 0 {
        lemma_captures_upto_mid(h, x, y, c, (k - 1) as nat);
        lemma_capture_step_mid(captures_upto(h, x, y, (k - 1) as nat), x, y, c, directions8(k - 1));
    }
}

/// Placing the stone starts a move with the middle-of-move properties.
pub proof fn lemma_place_mid(g: GameView, x: int, y: int)
    requires
        valid_game(g),
        can_play(g, x, y),
    ensures
        mid_move(place_spec(g, x, y), x, y, g.current_color),
        forall|i: int| 0 <= i < g.captures.len() ==> g.captures[i].0 < place_spec(g, x, y).ply,
        place_spec(g, x, y).ply == g.ply + 1,
{
    let c = g.current_color;
    lemma_color_dist_set(g.board, PlayerColor::Black, x, y, Some(c));
    lemma_color_dist_set(g.board, PlayerColor::White, x, y, Some(c));
    lemma_grid_set_other(g.board, x, y, Some(c), x, y);
    lemma_dist_sum_bound(g.board, c, 361);
    lemma_stone_count_set(g.board, x, y, Some(c));
    lemma_close_ok_set(g.board, g.close_moves, x, y, Some(c), true);
    let p = place_spec(g, x, y);
    assert(captures_ok(p.captures, p.ply as int)) by {
        assert forall|i: int| 0 <= i < p.captures.len() implies {
            let e = #[trigger] p.captures[i];
            &&& 1 <= e.0 <= p.ply
            &&& on_board(e.1.0 as int, e.1.1 as int)
            &&& on_board(e.2.0 as int, e.2.1 as int)
        } by {
            assert(p.captures[i] == g.captures[i]);
        }
    }
}

} // verus!

verus! {

/// Playing a move keeps a game well formed.
pub proof fn lemma_do_valid(g: GameView, x: int, y: int)
    requires
        valid_game(g),
        can_play(g, x, y),
    ensures
        valid_game(do_spec(g, x, y)),
{
    let c = g.current_color;
    let g1 = place_spec(g, x, y);
    lemma_place_mid(g, x, y);
    lemma_captures_upto_mid(g1, x, y, c, 8);
    let g2 = captures_upto(g1, x, y, 8);
    let g3 = meta_do(g2, x, y);
    assert(g3.moves.last() == (x as usize, y as usize));
    if g3.state is Playing {
        let f = g3.state->Playing_0;
        if f.len() == 0 {
            if g2.forced_moves_history.len() > 0 {
                assert(g2.forced_moves_history.last().0 <= g.ply);
            }
        }
    }
    if g3.state is Playing {
        let f = g3.state->Playing_0;
        let als = alignments_spec(g2.board, c, x, y);
        if als.len() > 0 {
            let pred = |p: Position| is_forced(g2.board, c, als, opponent_near_win(g2), p);
            assert forall|i: int| 0 <= i < f.len() implies {
                let p = #[trigger] f[i];
                holds(g3.board, None, p.0 as int, p.1 as int)
            } by {
                all_cells().lemma_filter_pred(pred, i);
                let p = f[i];
                assert(pred(p));
                if !capture_cell(g2.board, opposite(c), p) {
                    assert(in_break_possibilities(g2.board, c, als[0], p));
                    let j = choose|j: int| als[0].len() - STONES_IN_A_ROW <= j < STONES_IN_A_ROW && #[trigger] breaks(g2.board, c, (als[0][j].0 as int, als[0][j].1 as int), p);
                    let s = (als[0][j].0 as int, als[0][j].1 as int);
                    let k = choose|k: int| 0 <= k < 8 && #[trigger] breaks_dir(g2.board, c, s, directions8(k), p);
                }
            }
        }
    }
    assert forall|i: int| 0 <= i < g3.forced_moves_history.len() implies #[trigger] g3.forced_moves_history[i].0 <= g3.ply by {
        if i < g2.forced_moves_history.len() {
            assert(g3.forced_moves_history[i] == g2.forced_moves_history[i]);
        }
    }
}

/// Taking back a move restores the game exactly as it was before the move.
pub proof fn lemma_undo_do(g: GameView, x: int, y: int)
    requires
        valid_game(g),
        can_play(g, x, y),
    ensures
        undo_spec(do_spec(g, x, y)) == g,
{
    let c = g.current_color;
    let g1 = place_spec(g, x, y);
    lemma_place_mid(g, x, y);
    lemma_captures_upto_mid(g1, x, y, c, 8);
    let g2 = captures_upto(g1, x, y, 8);
    let g3 = meta_do(g2, x, y);
    // the bookkeeping comes back
    let m = undo_meta(g3);
    assert(g3.moves.drop_last() =~= g.moves);
    if g3.forced_moves_history.len() > g2.forced_moves_history.len() {
        assert(g3.forced_moves_history.drop_last() =~= g2.forced_moves_history);
    } else if g2.forced_moves_history.len() > 0 {
        assert(g2.forced_moves_history.last().0 <= g.ply);
    }
    assert(m.forced_moves_history == g.forced_moves_history);
    assert(m.state == g.state);
    assert(m == g2);
    // the captures come back
    lemma_undo_captures_upto(g1, x, y, 8);
    assert(undo_captures(m, g3.ply as int) == g1);
    // the stone leaves
    assert(g3.moves.last() == (x as usize, y as usize));
    let u = unplace(g1, x, y);
    lemma_close_update_cancel(g.close_moves, x, y, true);
    lemma_dist_sum_bound(g.board, c, 361);
    let b1 = grid_set(g.board, x, y, Some(c));
    let b2 = grid_set(b1, x, y, None);
    assert forall|i: int, j: int| on_board(i, j) implies b2[j][i] == g.board[j][i] by {
        lemma_grid_set_other(g.board, x, y, Some(c), i, j);
        lemma_grid_set_other(b1, x, y, None, i, j);
    }
    lemma_grid_ext(b2, g.board);
    assert(u == g);
}

} // verus!

verus! {

/// Every alignment has between 5 and 9 cells, all on the board.
pub proof fn lemma_alignment_rows(board: Board, color: PlayerColor, x: int, y: int, k: nat, a: int)
    requires
        on_board(x, y),
        k <= 4,
        0 <= a < alignments_upto(board, color, x, y, k).len(),
    ensures
        STONES_IN_A_ROW <= alignments_upto(board, color, x, y, k)[a].len() <= 9,
        forall|j: int| 0 <= j < alignments_upto(board, color, x, y, k)[a].len() ==>
            on_board(#[trigger] alignments_upto(board, color, x, y, k)[a][j].0 as int, alignments_upto(board, color, x, y, k)[a][j].1 as int),
    decreases k,
{
    let prev = alignments_upto(board, color, x, y, (k - 1) as nat);
    if a < prev.len() {
        lemma_alignment_rows(board, color, x, y, (k - 1) as nat, a);
    } else {
        let d = directions4(k - 1);
        lemma_row_on_board(board, color, x, y, d);
    }
}

/// The cells of a row are on the board.
pub proof fn lemma_row_on_board(board: Board, color: PlayerColor, x: int, y: int, d: Direction)
    requires
        on_board(x, y),
        is_unit(d),
    ensures
        row_spec(board, color, x, y, d).len() <= 9,
        forall|j: int| 0 <= j < row_spec(board, color, x, y, d).len() ==>
            on_board(#[trigger] row_spec(board, color, x, y, d)[j].0 as int, row_spec(board, color, x, y, d)[j].1 as int),
{
    let f = run_len(board, color, x, y, d, 0);
    let b = run_len(board, color, x, y, neg_dir(d), 0);
    lemma_run_len(board, color, x, y, d, 0);
    lemma_run_len(board, color, x, y, neg_dir(d), 0);
    assert forall|j: int| 0 <= j < row_spec(board, color, x, y, d).len() implies
        on_board(#[trigger] row_spec(board, color, x, y, d)[j].0 as int, row_spec(board, color, x, y, d)[j].1 as int) by {
        let s = j - b;
        if s > 0 {
            assert(holds(board, Some(color), x + step_mul(s, d.0), y + step_mul(s, d.1)));
        } else if s < 0 {
            assert(holds(board, Some(color), x + step_mul(-s, neg_dir(d).0), y + step_mul(-s, neg_dir(d).1)));
        }
    }
}

/// The stones counted by `run_len` are all of the color.
pub proof fn lemma_run_len(board: Board, color: PlayerColor, x: int, y: int, d: Direction, k: nat)
    requires
        k <= 4,
    ensures
        k <= run_len(board, color, x, y, d, k) <= 4,
        forall|s: int| k < s <= run_len(board, color, x, y, d, k) ==>
            #[trigger] holds(board, Some(color), x + step_mul(s, d.0), y + step_mul(s, d.1)),
    decreases 4 - k,
{
    if k < 4 && holds(board, Some(color), x + step_mul(k + 1 as int, d.0), y + step_mul(k + 1 as int, d.1)) {
        lemma_run_len(board, color, x, y, d, k + 1);
    }
}

} // verus!
