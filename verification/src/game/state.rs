use crate::game::board::{captures_in_dir, is_capture, Board, direction4, direction8, directions8, is_same_color, is_unit, on_board, Direction, Position, BOARD_SIZE};
use crate::game::logic::{
    alignments_spec, alignments_upto, all_cells, capture_cell, check_winner_spec, breaks, breaks_dir, cell_at, forced_seq, in_break_possibilities, is_forced,
    opponent_near_win,
    lemma_alignment_rows, neg_dir, row_spec, run_len, step_mul, update_state_spec,
};
use crate::game::Game;
use crate::player::{opposite, PlayerColor};
use vstd::prelude::*;

verus! {

/// Number of aligned stones that wins the game.
pub const STONES_IN_A_ROW: usize = 5;

/// Number of captured pairs that wins the game.
pub const REQUIRED_CAPTURES: usize = 5;

/// The moves the player to move is restricted to (empty when unrestricted).
pub type ForcedMoves = Vec<Position>;

/// The rows of five or more stones that won the game.
pub type WinningAlignments = Vec<Vec<Position>>;

/// Where a game stands.
#[derive(Debug, Clone, PartialEq, Eq)]
pub enum GameState {
    Playing(ForcedMoves),
    Draw,
    Won(PlayerColor, WinningWay),
}

/// How a game was won.
#[derive(Debug, Clone, PartialEq, Eq)]
pub struct WinningWay {
    pub win_by_captures: bool,
    pub winning_alignments: WinningAlignments,
}

/// The abstract content of a [`GameState`].
pub enum StateView {
    Playing(Seq<Position>),
    Draw,
    Won(PlayerColor, bool, Seq<Seq<Position>>),
}

impl View for GameState {
    type V = StateView;

    open spec fn view(&self) -> StateView {
        match self {
            GameState::Playing(forced) => StateView::Playing(forced@),
            GameState::Draw => StateView::Draw,
            GameState::Won(color, way) => StateView::Won(
                *color,
                way.win_by_captures,
                way.winning_alignments@.map_values(|row: Vec<Position>| row@),
            ),
        }
    }
}

impl GameState {
    /// The state of a new game: playing, with no forced moves.
    pub fn init() -> (res: Self)
        ensures
            res@ == StateView::Playing(Seq::empty()),
    {
        GameState::Playing(Vec::new())
    }

    pub fn is_playing(&self) -> (res: bool)
        ensures
            res == (self@ is Playing),
    {
        match self {
            GameState::Playing(_) => true,
            _ => false,
        }
    }
}

} // verus!

verus! {

/// Whether `p` occurs in `v`.
pub fn contains_position(v: &Vec<Position>, p: Position) -> (res: bool)
    ensures
        res == v@.contains(p),
{
    let mut i: usize = 0;
    while i < v.len()
        invariant
            i <= v.len(),
            forall|j: int| 0 <= j < i ==> v@[j] != p,
        decreases v.len() - i,
    {
        if v[i].0 == p.0 && v[i].1 == p.1 {
            assert(v@[i as int] == p);
            return true;
        }
        i += 1;
    }
    false
}

/// What a sequence with one more element contains.
pub proof fn lemma_push_contains(s: Seq<Position>, p: Position)
    ensures
        forall|q: Position| #[trigger] s.push(p).contains(q) <==> (s.contains(q) || q == p),
{
    assert forall|q: Position| s.push(p).contains(q) <==> (s.contains(q) || q == p) by {
        if s.push(p).contains(q) {
            let i = choose|i: int| 0 <= i < s.push(p).len() && s.push(p)[i] == q;
            if i < s.len() {
                assert(s[i] == q);
            }
        }
        if s.contains(q) {
            let i = choose|i: int| 0 <= i < s.len() && s[i] == q;
            assert(s.push(p)[i] == q);
        }
        if q == p {
            assert(s.push(p)[s.len() as int] == q);
        }
    }
}

/// Adds `p` to `v` unless it is already there.
pub fn push_unique(v: &mut Vec<Position>, p: Position)
    requires
        old(v)@.no_duplicates(),
    ensures
        final(v)@.no_duplicates(),
        forall|q: Position| final(v)@.contains(q) <==> (old(v)@.contains(q) || q == p),
{
    let ghost v0 = v@;
    if !contains_position(v, p) {
        v.push(p);
        proof {
            assert forall|q: Position| v@.contains(q) <==> (v0.contains(q) || q == p) by {
                if v@.contains(q) {
                    let i = choose|i: int| 0 <= i < v@.len() && v@[i] == q;
                    if i < v0.len() {
                        assert(v0[i] == q);
                    }
                }
                if v0.contains(q) {
                    let i = choose|i: int| 0 <= i < v0.len() && v0[i] == q;
                    assert(v@[i] == q);
                }
                if q == p {
                    assert(v@[v0.len() as int] == q);
                }
            }
        }
    }
}

/// `s` steps along the unit component `dv`.
fn step_times(s: isize, dv: isize) -> (res: isize)
    requires
        -10 <= s <= 10,
        -1 <= dv <= 1,
    ensures
        res == step_mul(s as int, dv),
{
    if dv == 0 { 0 } else if dv > 0 { s } else { -s }
}

/// Number of consecutive stones of `color` after `pos` in direction `dir`, at most 4.
pub fn run_length_of(board: &Board, color: PlayerColor, pos: Position, dir: Direction) -> (res: usize)
    requires
        on_board(pos.0 as int, pos.1 as int),
        is_unit(dir),
    ensures
        res == run_len(*board, color, pos.0 as int, pos.1 as int, dir, 0),
        res <= 4,
{
    let (x, y) = (pos.0 as isize, pos.1 as isize);
    let mut k: usize = 0;
    while k < 4
        && is_same_color(
            board,
            Some(color),
            (x + step_times(k as isize + 1, dir.0), y + step_times(k as isize + 1, dir.1)),
        )
        invariant
            k <= 4,
            on_board(pos.0 as int, pos.1 as int),
            is_unit(dir),
            x == pos.0 as int,
            y == pos.1 as int,
            run_len(*board, color, pos.0 as int, pos.1 as int, dir, 0)
                == run_len(*board, color, pos.0 as int, pos.1 as int, dir, k as nat),
        decreases 4 - k,
    {
        k += 1;
    }
    k
}

impl Game {
    /// Number of consecutive stones of the player to move after `pos` in direction `dir`,
    /// at most 4.
    fn run_length(&self, pos: Position, dir: Direction) -> (res: usize)
        requires
            on_board(pos.0 as int, pos.1 as int),
            is_unit(dir),
        ensures
            res == run_len(self.board, self.current_color, pos.0 as int, pos.1 as int, dir, 0),
            res <= 4,
    {
        run_length_of(&self.board, self.current_color, pos, dir)
    }

    /// The row through `pos` in direction `dir`: the stones of the player to move joined to
    /// `pos` on either side (at most 4 per side), from the backward end to the forward end.
    pub fn get_longest_row_in_dir(&self, pos: Position, dir: Direction) -> (res: Vec<Position>)
        requires
            on_board(pos.0 as int, pos.1 as int),
            is_unit(dir),
        ensures
            res@ == row_spec(self.board, self.current_color, pos.0 as int, pos.1 as int, dir),
    {
        let forward = self.run_length(pos, dir);
        let backward = self.run_length(pos, (-dir.0, -dir.1));
        let (x, y) = (pos.0 as isize, pos.1 as isize);
        let mut row: Vec<Position> = Vec::new();
        let mut i: usize = 0;
        let len = backward + 1 + forward;
        let ghost target = row_spec(self.board, self.current_color, pos.0 as int, pos.1 as int, dir);
        while i < len
            invariant
                i <= len,
                len == target.len(),
                len == backward + 1 + forward,
                backward <= 4,
                forward <= 4,
                is_unit(dir),
                x == pos.0 as int,
                y == pos.1 as int,
                on_board(pos.0 as int, pos.1 as int),
                backward == run_len(self.board, self.current_color, pos.0 as int, pos.1 as int, neg_dir(dir), 0),
                target == row_spec(self.board, self.current_color, pos.0 as int, pos.1 as int, dir),
                row@ == target.take(i as int),
            decreases len - i,
        {
            let s = i as isize - backward as isize;
            let px = (x + step_times(s, dir.0)) as usize;
            let py = (y + step_times(s, dir.1)) as usize;
            row.push((px, py));
            i += 1;
            assert(row@ =~= target.take(i as int));
        }
        assert(target.take(len as int) =~= target);
        row
    }

    /// Adds to `v` the cells where playing captures the stone on `stone` with its neighbor in
    /// direction `dir`.
    fn breakable_in_dir(&self, stone: (isize, isize), dir: Direction, v: &mut Vec<Position>)
        requires
            on_board(stone.0 as int, stone.1 as int),
            is_unit(dir),
            old(v)@.no_duplicates(),
        ensures
            final(v)@.no_duplicates(),
            forall|p: Position| final(v)@.contains(p) <==>
                (old(v)@.contains(p) || breaks_dir(self.board, self.current_color, (stone.0 as int, stone.1 as int), dir, p)),
    {
        let (sx, sy) = stone;
        let (dx, dy) = dir;
        let color = self.current_color;
        let opponent = color.not();
        let ghost s = (stone.0 as int, stone.1 as int);
        let ghost v0 = v@;
        let first = is_same_color(&self.board, None, (sx - dx, sy - dy))
            && is_same_color(&self.board, Some(color), (sx + dx, sy + dy))
            && is_same_color(&self.board, Some(opponent), (sx + 2 * dx, sy + 2 * dy));
        let second = is_same_color(&self.board, Some(opponent), (sx - dx, sy - dy))
            && is_same_color(&self.board, Some(color), (sx + dx, sy + dy))
            && is_same_color(&self.board, None, (sx + 2 * dx, sy + 2 * dy));
        if first {
            push_unique(v, ((sx - dx) as usize, (sy - dy) as usize));
        }
        if second {
            push_unique(v, ((sx + 2 * dx) as usize, (sy + 2 * dy) as usize));
        }
    }

    /// The cells where the opponent of the player to move could play to capture the stone on
    /// `stone` together with a neighbor, each listed once.
    pub fn find_breakable(&self, stone: (isize, isize)) -> (res: Vec<Position>)
        requires
            on_board(stone.0 as int, stone.1 as int),
        ensures
            forall|p: Position| res@.contains(p) <==> breaks(self.board, self.current_color, (stone.0 as int, stone.1 as int), p),
            res@.no_duplicates(),
    {
        let mut breaking_positions: Vec<Position> = Vec::new();
        let mut i: usize = 0;
        let ghost s = (stone.0 as int, stone.1 as int);
        let ghost color = self.current_color;
        while i < 8
            invariant
                i <= 8,
                s == (stone.0 as int, stone.1 as int),
                color == self.current_color,
                on_board(stone.0 as int, stone.1 as int),
                breaking_positions@.no_duplicates(),
                forall|p: Position| breaking_positions@.contains(p) <==>
                    exists|j: int| 0 <= j < i && #[trigger] breaks_dir(self.board, color, s, directions8(j), p),
            decreases 8 - i,
        {
            let ghost before = breaking_positions@;
            self.breakable_in_dir(stone, direction8(i), &mut breaking_positions);
            proof {
                assert forall|p: Position| breaking_positions@.contains(p) <==>
                    exists|j: int| 0 <= j < i + 1 && #[trigger] breaks_dir(self.board, color, s, directions8(j), p) by {
                    if exists|j: int| 0 <= j < i + 1 && #[trigger] breaks_dir(self.board, color, s, directions8(j), p) {
                        let j = choose|j: int| 0 <= j < i + 1 && #[trigger] breaks_dir(self.board, color, s, directions8(j), p);
                        if j < i {
                            assert(before.contains(p));
                        }
                    }
                }
            }
            i += 1;
        }
        breaking_positions
    }

    /// The cells where the opponent of the player to move could capture a stone that every
    /// five-in-a-row inside `row` uses, each listed once.
    pub fn get_break_possibilities(&self, row: &Vec<Position>) -> (res: Vec<Position>)
        requires
            STONES_IN_A_ROW <= row.len() <= 9,
            forall|j: int| 0 <= j < row.len() ==> on_board(#[trigger] row@[j].0 as int, row@[j].1 as int),
        ensures
            forall|p: Position| res@.contains(p) <==> in_break_possibilities(self.board, self.current_color, row@, p),
            res@.no_duplicates(),
    {
        let mut break_possibilities: Vec<Position> = Vec::new();
        let overflow = row.len() - STONES_IN_A_ROW;
        let mut j = overflow;
        while j < STONES_IN_A_ROW
            invariant
                overflow == row.len() - STONES_IN_A_ROW,
                overflow <= j <= STONES_IN_A_ROW,
                STONES_IN_A_ROW <= row.len() <= 9,
                forall|j: int| 0 <= j < row.len() ==> on_board(#[trigger] row@[j].0 as int, row@[j].1 as int),
                break_possibilities@.no_duplicates(),
                forall|p: Position| break_possibilities@.contains(p) <==>
                    exists|k: int| overflow <= k < j && #[trigger] breaks(self.board, self.current_color, (row@[k].0 as int, row@[k].1 as int), p),
            decreases STONES_IN_A_ROW - j,
        {
            let stone = (row[j].0 as isize, row[j].1 as isize);
            let breakable = self.find_breakable(stone);
            let ghost before = break_possibilities@;
            assert forall|p: Position| before.contains(p) <==>
                exists|k: int| overflow <= k < j && #[trigger] breaks(self.board, self.current_color, (row@[k].0 as int, row@[k].1 as int), p) by {
                assert(break_possibilities@.contains(p) <==>
                    exists|k: int| overflow <= k < j && #[trigger] breaks(self.board, self.current_color, (row@[k].0 as int, row@[k].1 as int), p));
            }
            let mut t: usize = 0;
            while t < breakable.len()
                invariant
                    t <= breakable.len(),
                    break_possibilities@.no_duplicates(),
                    forall|p: Position| break_possibilities@.contains(p) <==>
                        (before.contains(p) || breakable@.take(t as int).contains(p)),
                decreases breakable.len() - t,
            {
                let p = breakable[t];
                let ghost mid = break_possibilities@;
                assert forall|q: Position| mid.contains(q) <==> (before.contains(q) || breakable@.take(t as int).contains(q)) by {
                    assert(break_possibilities@.contains(q) <==> (before.contains(q) || breakable@.take(t as int).contains(q)));
                }
                push_unique(&mut break_possibilities, p);
                proof {
                    assert(breakable@.take(t + 1) =~= breakable@.take(t as int).push(p));
                    lemma_push_contains(breakable@.take(t as int), p);
                    assert forall|q: Position| break_possibilities@.contains(q) <==>
                        (before.contains(q) || breakable@.take(t + 1).contains(q)) by {
                        assert(break_possibilities@.contains(q) <==> (mid.contains(q) || q == p));
                        assert(breakable@.take(t + 1).contains(q) <==> (breakable@.take(t as int).contains(q) || q == p));
                    }
                }
                t += 1;
            }
            proof {
                assert(t == breakable.len());
                assert forall|p: Position| break_possibilities@.contains(p) <==> (before.contains(p) || breakable@.take(t as int).contains(p)) by {
                }
                assert(breakable@.take(breakable.len() as int) =~= breakable@);
                assert(stone.0 as int == row@[j as int].0 as int && stone.1 as int == row@[j as int].1 as int);
                assert forall|p: Position| break_possibilities@.contains(p) <==>
                    (before.contains(p) || breaks(self.board, self.current_color, (row@[j as int].0 as int, row@[j as int].1 as int), p)) by {
                    assert(break_possibilities@.contains(p) <==> (before.contains(p) || breakable@.take(breakable.len() as int).contains(p)));
                    assert(breakable@.contains(p) <==> breaks(self.board, self.current_color, (stone.0 as int, stone.1 as int), p));
                }
            }
            proof {
                assert forall|p: Position| break_possibilities@.contains(p) <==>
                    exists|k: int| overflow <= k < j + 1 && #[trigger] breaks(self.board, self.current_color, (row@[k].0 as int, row@[k].1 as int), p) by {
                    if exists|k: int| overflow <= k < j + 1 && #[trigger] breaks(self.board, self.current_color, (row@[k].0 as int, row@[k].1 as int), p) {
                        let k = choose|k: int| overflow <= k < j + 1 && #[trigger] breaks(self.board, self.current_color, (row@[k].0 as int, row@[k].1 as int), p);
                        if k < j {
                            assert(before.contains(p));
                        } else {
                            assert(breakable@.contains(p));
                        }
                    }
                    if break_possibilities@.contains(p) {
                        if before.contains(p) {
                            let k = choose|k: int| overflow <= k < j && #[trigger] breaks(self.board, self.current_color, (row@[k].0 as int, row@[k].1 as int), p);
                            assert(overflow <= k < j + 1);
                        } else {
                            assert(breaks(self.board, self.current_color, (row@[j as int].0 as int, row@[j as int].1 as int), p));
                        }
                    }
                }
            }
            j += 1;
        }
        break_possibilities
    }
}

} // verus!

verus! {

/// Whether `p` occurs in every list of `lists`.
fn in_all(lists: &Vec<Vec<Position>>, p: Position) -> (res: bool)
    ensures
        res == (forall|a: int| 0 <= a < lists@.len() ==> (#[trigger] lists@[a])@.contains(p)),
{
    let mut a: usize = 0;
    while a < lists.len()
        invariant
            a <= lists.len(),
            forall|b: int| 0 <= b < a ==> (#[trigger] lists@[b])@.contains(p),
        decreases lists.len() - a,
    {
        if !contains_position(&lists[a], p) {
            return false;
        }
        a += 1;
    }
    true
}

/// Whether `p` is an empty cell where a stone of `color` captures a pair.
fn is_capture_cell(board: &Board, color: PlayerColor, p: Position) -> (res: bool)
    requires
        on_board(p.0 as int, p.1 as int),
    ensures
        res == capture_cell(*board, color, p),
{
    if !is_same_color(board, None, (p.0 as isize, p.1 as isize)) {
        return false;
    }
    let mut i: usize = 0;
    while i < 8
        invariant
            i <= 8,
            on_board(p.0 as int, p.1 as int),
            crate::game::board::holds(*board, None, p.0 as int, p.1 as int),
            forall|j: int| 0 <= j < i ==> !#[trigger] captures_in_dir(*board, color, p.0 as int, p.1 as int, directions8(j)),
        decreases 8 - i,
    {
        if is_capture(board, color, p, direction8(i)) {
            assert(captures_in_dir(*board, color, p.0 as int, p.1 as int, directions8(i as int)));
            return true;
        }
        i += 1;
    }
    false
}

impl Game {
    /// The rows of five or more stones of the player to move through `pos`, and the cells that
    /// answer every one of them (see `is_forced`; none when there is no such row), in
    /// row-major order.
    fn alignments_and_forced_moves(&self, pos: Position) -> (res: (Vec<Vec<Position>>, Vec<Position>))
        requires
            on_board(pos.0 as int, pos.1 as int),
        ensures
            res.0@.map_values(|r: Vec<Position>| r@) == alignments_spec(self.board, self.current_color, pos.0 as int, pos.1 as int),
            res.1@ == (if res.0@.len() == 0 { Seq::empty() } else {
                forced_seq(self.board, self.current_color, alignments_spec(self.board, self.current_color, pos.0 as int, pos.1 as int),
                    opponent_near_win(self@))
            }),
    {
        let ghost (x, y) = (pos.0 as int, pos.1 as int);
        let mut alignments: Vec<Vec<Position>> = Vec::new();
        let mut i: usize = 0;
        while i < 4
            invariant
                i <= 4,
                on_board(pos.0 as int, pos.1 as int),
                alignments@.map_values(|r: Vec<Position>| r@) == alignments_upto(self.board, self.current_color, pos.0 as int, pos.1 as int, i as nat),
            decreases 4 - i,
        {
            let row = self.get_longest_row_in_dir(pos, direction4(i));
            let ghost prev = alignments@;
            if row.len() >= STONES_IN_A_ROW {
                alignments.push(row);
                proof {
                    assert(alignments@.map_values(|r: Vec<Position>| r@) =~= prev.map_values(|r: Vec<Position>| r@).push(row@));
                }
            }
            i += 1;
        }
        let ghost als = alignments_spec(self.board, self.current_color, x, y);
        assert(alignments@.map_values(|r: Vec<Position>| r@) == als);

        let opponent_captures = match self.current_color {
            PlayerColor::Black => self.white_captures,
            PlayerColor::White => self.black_captures,
        };
        let near_win = opponent_captures >= REQUIRED_CAPTURES - 1;
        let opponent = self.current_color.not();
        let mut forced_moves: Vec<Position> = Vec::new();
        if alignments.len() > 0 {
            let mut break_possibilities: Vec<Vec<Position>> = Vec::new();
            let mut a: usize = 0;
            while a < alignments.len()
                invariant
                    a <= alignments.len(),
                    on_board(pos.0 as int, pos.1 as int),
                    x == pos.0 as int,
                    y == pos.1 as int,
                    als == alignments_spec(self.board, self.current_color, x, y),
                    alignments@.map_values(|r: Vec<Position>| r@) == als,
                    break_possibilities.len() == a,
                    forall|b: int| 0 <= b < a ==> forall|p: Position| (#[trigger] break_possibilities@[b])@.contains(p)
                        <==> in_break_possibilities(self.board, self.current_color, als[b], p),
                decreases alignments.len() - a,
            {
                proof {
                    assert(alignments@.map_values(|r: Vec<Position>| r@)[a as int] == alignments@[a as int]@);
                    lemma_alignment_rows(self.board, self.current_color, x, y, 4, a as int);
                    assert(alignments@[a as int]@ == als[a as int]);
                }
                let bp = self.get_break_possibilities(&alignments[a]);
                break_possibilities.push(bp);
                a += 1;
            }

            let ghost pred = |p: Position| is_forced(self.board, self.current_color, als, near_win, p);
            let mut k: usize = 0;
            while k < BOARD_SIZE * BOARD_SIZE
                invariant
                    k <= BOARD_SIZE * BOARD_SIZE,
                    pred == (|p: Position| is_forced(self.board, self.current_color, als, near_win, p)),
                    near_win == opponent_near_win(self@),
                    opponent == opposite(self.current_color),
                    break_possibilities.len() == als.len(),
                    forall|b: int| 0 <= b < als.len() ==> forall|p: Position| (#[trigger] break_possibilities@[b])@.contains(p)
                        <==> in_break_possibilities(self.board, self.current_color, als[b], p),
                    forced_moves@ == all_cells().take(k as int).filter(pred),
                decreases BOARD_SIZE * BOARD_SIZE - k,
            {
                let p = (k % BOARD_SIZE, k / BOARD_SIZE);
                let breaks_all = in_all(&break_possibilities, p);
                assert(on_board(p.0 as int, p.1 as int));
                let inside = breaks_all || (near_win && is_capture_cell(&self.board, opponent, p));
                proof {
                    assert(p == cell_at(k as int));
                    assert(breaks_all == (forall|b: int| 0 <= b < als.len() ==> #[trigger] in_break_possibilities(self.board, self.current_color, als[b], p))) by {
                        if breaks_all {
                            assert forall|b: int| 0 <= b < als.len() implies #[trigger] in_break_possibilities(self.board, self.current_color, als[b], p) by {
                                assert(break_possibilities@[b]@.contains(p));
                            }
                        } else {
                            let b = choose|b: int| 0 <= b < break_possibilities@.len() && !(#[trigger] break_possibilities@[b])@.contains(p);
                            assert(!in_break_possibilities(self.board, self.current_color, als[b], p));
                        }
                    }
                    assert(inside == pred(p));
                    reveal_with_fuel(Seq::filter, 1);
                    assert(all_cells().take(k + 1).drop_last() =~= all_cells().take(k as int));
                }
                if inside {
                    forced_moves.push(p);
                }
                k += 1;
            }
            proof {
                assert(all_cells().take((BOARD_SIZE * BOARD_SIZE) as int) =~= all_cells());
            }
        }
        (alignments, forced_moves)
    }

    /// The state after the player to move has played on `pos` and captured: a win by captures,
    /// a win by an alignment the opponent can neither break nor answer with a winning fifth
    /// capture, a draw on a full board, or the game goes on with those answers (in row-major
    /// order).
    pub fn update_state(&self, pos: Position) -> (res: GameState)
        requires
            on_board(pos.0 as int, pos.1 as int),
            self.black_captures <= 20,
            self.white_captures <= 20,
        ensures
            res@ == update_state_spec(self@, pos.0 as int, pos.1 as int),
    {
        let captures = match self.current_color {
            PlayerColor::Black => self.black_captures,
            PlayerColor::White => self.white_captures,
        };
        let (alignments, forced_moves) = self.alignments_and_forced_moves(pos);
        if captures >= REQUIRED_CAPTURES {
            return GameState::Won(
                self.current_color,
                WinningWay { win_by_captures: true, winning_alignments: alignments },
            );
        }
        if alignments.len() > 0 && forced_moves.len() == 0 {
            return GameState::Won(
                self.current_color,
                WinningWay { win_by_captures: false, winning_alignments: alignments },
            );
        }
        if self.ply == BOARD_SIZE * BOARD_SIZE + 2 * (self.black_captures + self.white_captures) {
            return GameState::Draw;
        }
        GameState::Playing(forced_moves)
    }

    /// Whether the player to move has won by playing on `(x, y)` (by captures, or by an
    /// alignment that no capture breaks), and otherwise the moves that break every one of
    /// their alignments.
    pub fn check_winner(&self, x: usize, y: usize) -> (res: (bool, Vec<Position>))
        requires
            on_board(x as int, y as int),
        ensures
            res.0 == check_winner_spec(self@, x as int, y as int).0,
            res.1@ == check_winner_spec(self@, x as int, y as int).1,
    {
        let captures = match self.current_color {
            PlayerColor::Black => self.black_captures,
            PlayerColor::White => self.white_captures,
        };
        if captures >= REQUIRED_CAPTURES {
            return (true, Vec::new());
        }
        let (alignments, forced_moves) = self.alignments_and_forced_moves((x, y));
        if alignments.len() > 0 && forced_moves.len() == 0 {
            return (true, Vec::new());
        }
        (false, forced_moves)
    }

    /// Whether the board is full: every move so far either stayed or was captured.
    pub fn check_draw(&self) -> (res: bool)
        requires
            self.black_captures + self.white_captures <= 1000,
        ensures
            res == (self.ply == BOARD_SIZE * BOARD_SIZE + 2 * (self.black_captures + self.white_captures)),
    {
        self.ply == BOARD_SIZE * BOARD_SIZE + 2 * (self.black_captures + self.white_captures)
    }
}

} // verus!
