use crate::game::board::{
    captures_in_dir, direction4, direction8, directions4, directions8, holds, is_capture, is_same_color, is_unit,
    on_board, Board, Direction, Position,
};
use crate::game::logic::neg_dir;
use crate::game::Game;
use crate::player::PlayerColor;
use vstd::prelude::*;

verus! {

/// A stone of `color` on `(x, y)` makes an open three in direction `d`: two more stones of
/// `color` within the next four cells of the line, in one of the five shapes below, with the
/// ends of the shape empty, and such that one more stone can make an open four: a solid
/// three also needs a second empty cell beyond one of its ends (so `|.XXX.O`, held by the
/// edge and an opponent stone, is no open three).
pub open spec fn open_three_spec(board: Board, color: PlayerColor, x: int, y: int, d: Direction) -> bool {
    let at = |k: int, v: Option<PlayerColor>| holds(board, v, x + k * d.0, y + k * d.1);
    let me = Some(color);
    let empty = None::<PlayerColor>;
    // .XXX.  with (x, y) first, and ..XXX. or .XXX..
    ||| (at(1, me) && at(2, me) && at(3, empty) && at(-1, empty) && (at(-2, empty) || at(4, empty)))
    // .XXX.  with (x, y) in the middle, and ..XXX. or .XXX..
    ||| (at(1, me) && at(-1, me) && at(2, empty) && at(-2, empty) && (at(-3, empty) || at(3, empty)))
    // .X.XX.  with (x, y) alone
    ||| (at(2, me) && at(3, me) && at(-1, empty) && at(1, empty) && at(4, empty))
    // .XX.X.  with (x, y) in the pair, next to the gap
    ||| (at(-1, me) && at(2, me) && at(-2, empty) && at(1, empty) && at(3, empty))
    // .XX.X.  with (x, y) at the end of the pair
    ||| (at(1, me) && at(3, me) && at(-1, empty) && at(2, empty) && at(4, empty))
}

/// Among the first `k` of `directions4`, the lines where `(x, y)` makes an open three
/// (in either sense).
pub open spec fn open_three_count(board: Board, color: PlayerColor, x: int, y: int, k: nat) -> nat
    decreases k,
{
    if k == 0 {
        0
    } else {
        let d = directions4(k - 1);
        open_three_count(board, color, x, y, (k - 1) as nat)
            + (if open_three_spec(board, color, x, y, d) || open_three_spec(board, color, x, y, neg_dir(d)) { 1nat } else { 0nat })
    }
}

/// Playing `color` on `(x, y)` makes two open threes at once without capturing anything.
pub open spec fn double_three_spec(board: Board, color: PlayerColor, x: int, y: int) -> bool {
    &&& forall|i: int| 0 <= i < 8 ==> !#[trigger] captures_in_dir(board, color, x, y, directions8(i))
    &&& open_three_count(board, color, x, y, 4) >= 2
}

/// `k` unit steps along `dv`.
fn steps(k: isize, dv: isize) -> (res: isize)
    requires
        -4 <= k <= 4,
        -1 <= dv <= 1,
    ensures
        res == k * dv,
{
    assert(dv == 0 ==> k * dv == 0) by (nonlinear_arith);
    assert(dv == 1 ==> k * dv == k) by (nonlinear_arith);
    assert(dv == -1 ==> k * dv == -k) by (nonlinear_arith);
    if dv == 0 { 0 } else if dv > 0 { k } else { -k }
}

impl Game {
    /// Whether a stone of the player to move on `pos` makes an open three in direction `dir`.
    pub fn is_open_three(&self, pos: Position, dir: Direction) -> (res: bool)
        requires
            on_board(pos.0 as int, pos.1 as int),
            is_unit(dir),
        ensures
            res == open_three_spec(self.board, self.current_color, pos.0 as int, pos.1 as int, dir),
    {
        let board = &self.board;
        let me = Some(self.current_color);
        let (x, y) = (pos.0 as isize, pos.1 as isize);
        let (dx, dy) = dir;
        let m1 = (x + steps(-1, dx), y + steps(-1, dy));
        let m2 = (x + steps(-2, dx), y + steps(-2, dy));
        let m3 = (x + steps(-3, dx), y + steps(-3, dy));
        let p1 = (x + steps(1, dx), y + steps(1, dy));
        let p2 = (x + steps(2, dx), y + steps(2, dy));
        let p3 = (x + steps(3, dx), y + steps(3, dy));
        let p4 = (x + steps(4, dx), y + steps(4, dy));

        let straight_border = is_same_color(board, me, p1) && is_same_color(board, me, p2)
            && is_same_color(board, None, p3) && is_same_color(board, None, m1)
            && (is_same_color(board, None, m2) || is_same_color(board, None, p4));
        let straight_center = is_same_color(board, me, p1) && is_same_color(board, me, m1)
            && is_same_color(board, None, p2) && is_same_color(board, None, m2)
            && (is_same_color(board, None, m3) || is_same_color(board, None, p3));
        let separated_alone = is_same_color(board, me, p2) && is_same_color(board, me, p3)
            && is_same_color(board, None, m1) && is_same_color(board, None, p1) && is_same_color(board, None, p4);
        let separated_center = is_same_color(board, me, m1) && is_same_color(board, me, p2)
            && is_same_color(board, None, m2) && is_same_color(board, None, p1) && is_same_color(board, None, p3);
        let separated_border = is_same_color(board, me, p1) && is_same_color(board, me, p3)
            && is_same_color(board, None, m1) && is_same_color(board, None, p2) && is_same_color(board, None, p4);

        straight_border || straight_center || separated_alone || separated_center || separated_border
    }

    /// Whether playing on `pos` would make two open threes at once without capturing (a
    /// forbidden move).
    pub fn creates_double_three(&self, pos: Position) -> (res: bool)
        requires
            on_board(pos.0 as int, pos.1 as int),
        ensures
            res == double_three_spec(self.board, self.current_color, pos.0 as int, pos.1 as int),
    {
        let mut i: usize = 0;
        while i < 8
            invariant
                i <= 8,
                on_board(pos.0 as int, pos.1 as int),
                forall|j: int| 0 <= j < i ==> !#[trigger] captures_in_dir(self.board, self.current_color, pos.0 as int, pos.1 as int, directions8(j)),
            decreases 8 - i,
        {
            if is_capture(&self.board, self.current_color, pos, direction8(i)) {
                return false;
            }
            i += 1;
        }
        let mut count: usize = 0;
        let mut k: usize = 0;
        while k < 4
            invariant
                k <= 4,
                on_board(pos.0 as int, pos.1 as int),
                count == open_three_count(self.board, self.current_color, pos.0 as int, pos.1 as int, k as nat),
                count <= k,
            decreases 4 - k,
        {
            let (dx, dy) = direction4(k);
            if self.is_open_three(pos, (dx, dy)) || self.is_open_three(pos, (-dx, -dy)) {
                count += 1;
            }
            k += 1;
        }
        count >= 2
    }
}

} // verus!
