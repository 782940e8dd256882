use crate::game::board::{same_cell, Board};
use crate::game::lines::{line, line_spec, line_value, line_values, N_LINES};
use crate::player::PlayerColor;
use vstd::prelude::*;

verus! {

/// Counters of runs of stones, by length (0 to 9) and by openness (0 to 2).
pub type Combos = [[i64; 3]; 10];

/// Largest value a combo counter may hold before a line is scanned.
pub const MAX_COMBO_COUNT: i64 = 1_000_000;

/// Number of cells holding `c` from cell `i` on, without a break.
pub open spec fn run_len(vals: Seq<Option<PlayerColor>>, c: PlayerColor, i: int) -> int
    decreases vals.len() - i,
{
    if 0 <= i < vals.len() && vals[i] == Some(c) {
        1 + run_len(vals, c, i + 1)
    } else {
        0
    }
}

/// A run of `c` begins at cell `i`: the cell holds `c` and the cell before it does not.
pub open spec fn run_start(vals: Seq<Option<PlayerColor>>, c: PlayerColor, i: int) -> bool {
    0 <= i < vals.len() && vals[i] == Some(c) && (i == 0 || vals[i - 1] != Some(c))
}

/// How open the run of `c` beginning at `i` is: one when the cell before it is empty or the
/// run begins the line, one more when the cell after it is empty (the end of the line counts
/// as closed).
pub open spec fn run_openness(vals: Seq<Option<PlayerColor>>, c: PlayerColor, i: int) -> int {
    let j = i + run_len(vals, c, i);
    (if i == 0 || vals[i - 1] == None::<PlayerColor> { 1int } else { 0int })
        + (if j < vals.len() && vals[j] == None::<PlayerColor> { 1int } else { 0int })
}

/// The run of `c` beginning at `i` has length `len` and openness `o`.
pub open spec fn run_counts(vals: Seq<Option<PlayerColor>>, c: PlayerColor, len: int, o: int, i: int) -> bool {
    run_start(vals, c, i) && run_len(vals, c, i) == len && run_openness(vals, c, i) == o
}

/// Number of runs of `c` of length `len` and openness `o` that begin before cell `k`.
pub open spec fn runs_before(vals: Seq<Option<PlayerColor>>, c: PlayerColor, len: int, o: int, k: int) -> int
    decreases k,
{
    if k <= 0 {
        0
    } else {
        runs_before(vals, c, len, o, k - 1) + (if run_counts(vals, c, len, o, k - 1) { 1int } else { 0int })
    }
}

/// Number of runs of `c` of length `len` and openness `o` in one line.
pub open spec fn line_runs(vals: Seq<Option<PlayerColor>>, c: PlayerColor, len: int, o: int) -> int {
    runs_before(vals, c, len, o, vals.len() as int)
}

/// Number of runs of `c` of length `len` and openness `o` in the lines `0 .. n` of the board.
pub open spec fn board_runs(board: Board, c: PlayerColor, len: int, o: int, n: int) -> int
    decreases n,
{
    if n <= 0 {
        0
    } else {
        board_runs(board, c, len, o, n - 1) + line_runs(line_values(board, line_spec(n - 1)), c, len, o)
    }
}

/// A run that cells `s .. k` fill, and that cell `k` ends, has length `k - s`.
proof fn lemma_run_len(vals: Seq<Option<PlayerColor>>, c: PlayerColor, s: int, k: int)
    requires
        0 <= s <= k <= vals.len(),
        forall|t: int| s <= t < k ==> vals[t] == Some(c),
        k == vals.len() || vals[k] != Some(c),
    ensures
        run_len(vals, c, s) == k - s,
    decreases k - s,
{
    if s < k {
        lemma_run_len(vals, c, s + 1, k);
    }
}

/// No run begins between `a` and `b`: the count does not move.
proof fn lemma_runs_skip(vals: Seq<Option<PlayerColor>>, c: PlayerColor, len: int, o: int, a: int, b: int)
    requires
        0 <= a <= b,
        forall|t: int| a <= t < b ==> !run_start(vals, c, t),
    ensures
        runs_before(vals, c, len, o, b) == runs_before(vals, c, len, o, a),
    decreases b - a,
{
    if a < b {
        lemma_runs_skip(vals, c, len, o, a, b - 1);
    }
}

/// At most one run begins per cell.
pub proof fn lemma_runs_bound(vals: Seq<Option<PlayerColor>>, c: PlayerColor, len: int, o: int, k: int)
    requires
        0 <= k,
    ensures
        0 <= runs_before(vals, c, len, o, k) <= k,
    decreases k,
{
    if k > 0 {
        lemma_runs_bound(vals, c, len, o, k - 1);
    }
}

/// The counters of `combos` are those of `base` plus the runs of `c` that begin before `k`.
pub open spec fn combos_match(combos: Combos, base: Combos, vals: Seq<Option<PlayerColor>>, c: PlayerColor, k: int) -> bool {
    forall|l: int, o: int|
        0 <= l < 10 && 0 <= o < 3 ==> #[trigger] combos[l][o] == base[l][o] + runs_before(vals, c, l, o, k)
}

/// Every counter of `combos` is between 0 and `bound`.
pub open spec fn combos_bounded(combos: Combos, bound: int) -> bool {
    forall|l: int, o: int| 0 <= l < 10 && 0 <= o < 3 ==> 0 <= #[trigger] combos[l][o] <= bound
}

/// The runs counted up to `k` pass over the cells `s .. k` that begin no run of `c`.
proof fn lemma_match_skip(combos: Combos, base: Combos, vals: Seq<Option<PlayerColor>>, c: PlayerColor, s: int, k: int)
    requires
        combos_match(combos, base, vals, c, s),
        0 <= s <= k,
        forall|t: int| s <= t < k ==> !run_start(vals, c, t),
    ensures
        combos_match(combos, base, vals, c, k),
{
    assert forall|l: int, o: int| 0 <= l < 10 && 0 <= o < 3 implies #[trigger] combos[l][o] == base[l][o]
        + runs_before(vals, c, l, o, k) by {
        lemma_runs_skip(vals, c, l, o, s, k);
    }
}

/// The run of `c` on cells `s .. k` is added to the counters.
proof fn lemma_match_run(
    before: Combos,
    after: Combos,
    base: Combos,
    vals: Seq<Option<PlayerColor>>,
    c: PlayerColor,
    s: int,
    k: int,
    open_before: bool,
)
    requires
        combos_match(before, base, vals, c, s),
        0 <= s < k <= vals.len(),
        forall|t: int| s <= t < k ==> vals[t] == Some(c),
        s == 0 || vals[s - 1] != Some(c),
        k == vals.len() || vals[k] != Some(c),
        open_before == (s == 0 || vals[s - 1] == None::<PlayerColor>),
        ({
            let o = (if open_before { 1int } else { 0int })
                + (if k < vals.len() && vals[k] == None::<PlayerColor> { 1int } else { 0int });
            forall|l: int, o2: int| 0 <= l < 10 && 0 <= o2 < 3 ==> #[trigger] after[l][o2] == before[l][o2]
                + (if l == k - s && o2 == o { 1int } else { 0int })
        }),
    ensures
        combos_match(after, base, vals, c, k),
{
    lemma_run_len(vals, c, s, k);
    assert(run_start(vals, c, s));
    assert forall|l: int, o: int| 0 <= l < 10 && 0 <= o < 3 implies #[trigger] after[l][o] == base[l][o]
        + runs_before(vals, c, l, o, k) by {
        lemma_runs_skip(vals, c, l, o, s + 1, k);
    }
}

/// Adds to the counters the runs of black and of white stones of line `i`.
pub fn fill_combos(board: &Board, i: usize, black_combos: &mut Combos, white_combos: &mut Combos)
    requires
        i < N_LINES,
        combos_bounded(*old(black_combos), MAX_COMBO_COUNT as int),
        combos_bounded(*old(white_combos), MAX_COMBO_COUNT as int),
    ensures
        ({
            let vals = line_values(*board, line_spec(i as int));
            &&& combos_match(*final(black_combos), *old(black_combos), vals, PlayerColor::Black, vals.len() as int)
            &&& combos_match(*final(white_combos), *old(white_combos), vals, PlayerColor::White, vals.len() as int)
        }),
        forall|l: int, o: int| 0 <= l < 10 && 0 <= o < 3 ==> old(black_combos)[l][o] <= #[trigger] final(black_combos)[l][o]
            <= old(black_combos)[l][o] + 19,
        forall|l: int, o: int| 0 <= l < 10 && 0 <= o < 3 ==> old(white_combos)[l][o] <= #[trigger] final(white_combos)[l][o]
            <= old(white_combos)[l][o] + 19,
{
    let (_, _, len) = line(i);
    let ghost vals = line_values(*board, line_spec(i as int));
    let ghost b0 = *black_combos;
    let ghost w0 = *white_combos;
    let mut is_open_before = false;
    let mut cur_color: Option<PlayerColor> = None;
    let mut cur_length: usize = 0;
    let mut k: usize = 0;
    proof {
        crate::game::lines::lemma_line_on_board(i as int, 0);
    }
    while k < len
        invariant
            i < N_LINES,
            len == line_spec(i as int).2,
            len <= 19,
            vals == line_values(*board, line_spec(i as int)),
            vals.len() == len,
            k <= len,
            cur_length <= k,
            k == 0 ==> cur_color == None::<PlayerColor> && cur_length == 0,
            k > 0 ==> cur_length >= 1 && cur_color == vals[k - 1],
            forall|t: int| k - cur_length <= t < k ==> vals[t] == cur_color,
            k > 0 && k - cur_length > 0 ==> vals[k - cur_length - 1] != cur_color,
            cur_color is Some ==> is_open_before == (k - cur_length == 0 || vals[k - cur_length - 1] == None::<PlayerColor>),
            combos_match(*black_combos, b0, vals, PlayerColor::Black, k - cur_length),
            combos_match(*white_combos, w0, vals, PlayerColor::White, k - cur_length),
            combos_bounded(b0, MAX_COMBO_COUNT as int),
            combos_bounded(w0, MAX_COMBO_COUNT as int),
        decreases len - k,
    {
        let v = line_value(board, i, k);
        let ghost s = k - cur_length;
        if same_cell(v, cur_color) {
            cur_length += 1;
        } else {
            let ghost bb = *black_combos;
            let ghost wb = *white_combos;
            let openness: usize = (if is_open_before { 1 } else { 0 }) + (if v.is_none() { 1 } else { 0 });
            match cur_color {
                None => {},
                Some(PlayerColor::Black) => {
                    if cur_length < 10 {
                        proof {
                            lemma_runs_bound(vals, PlayerColor::Black, cur_length as int, openness as int, s);
                        }
                        black_combos[cur_length][openness] = black_combos[cur_length][openness] + 1;
                    }
                },
                Some(PlayerColor::White) => {
                    if cur_length < 10 {
                        proof {
                            lemma_runs_bound(vals, PlayerColor::White, cur_length as int, openness as int, s);
                        }
                        white_combos[cur_length][openness] = white_combos[cur_length][openness] + 1;
                    }
                },
            }
            proof {
                match cur_color {
                    Some(c) => {
                        if c == PlayerColor::Black {
                            lemma_match_run(bb, *black_combos, b0, vals, c, s, k as int, is_open_before);
                            lemma_match_skip(*white_combos, w0, vals, PlayerColor::White, s, k as int);
                        } else {
                            lemma_match_run(wb, *white_combos, w0, vals, c, s, k as int, is_open_before);
                            lemma_match_skip(*black_combos, b0, vals, PlayerColor::Black, s, k as int);
                        }
                    },
                    None => {
                        lemma_match_skip(*black_combos, b0, vals, PlayerColor::Black, s, k as int);
                        lemma_match_skip(*white_combos, w0, vals, PlayerColor::White, s, k as int);
                    },
                }
            }
            is_open_before = cur_color.is_none();
            cur_color = v;
            cur_length = 1;
        }
        k += 1;
    }
    let ghost s = k - cur_length;
    let ghost bb = *black_combos;
    let ghost wb = *white_combos;
    let openness: usize = if is_open_before { 1 } else { 0 };
    match cur_color {
        None => {},
        Some(PlayerColor::Black) => {
            if cur_length < 10 {
                proof {
                    lemma_runs_bound(vals, PlayerColor::Black, cur_length as int, openness as int, s);
                }
                black_combos[cur_length][openness] = black_combos[cur_length][openness] + 1;
            }
        },
        Some(PlayerColor::White) => {
            if cur_length < 10 {
                proof {
                    lemma_runs_bound(vals, PlayerColor::White, cur_length as int, openness as int, s);
                }
                white_combos[cur_length][openness] = white_combos[cur_length][openness] + 1;
            }
        },
    }
    proof {
        match cur_color {
            Some(c) => {
                if c == PlayerColor::Black {
                    lemma_match_run(bb, *black_combos, b0, vals, c, s, k as int, is_open_before);
                    lemma_match_skip(*white_combos, w0, vals, PlayerColor::White, s, k as int);
                } else {
                    lemma_match_run(wb, *white_combos, w0, vals, c, s, k as int, is_open_before);
                    lemma_match_skip(*black_combos, b0, vals, PlayerColor::Black, s, k as int);
                }
            },
            None => {
                lemma_match_skip(*black_combos, b0, vals, PlayerColor::Black, s, k as int);
                lemma_match_skip(*white_combos, w0, vals, PlayerColor::White, s, k as int);
            },
        }
        assert forall|l: int, o: int| 0 <= l < 10 && 0 <= o < 3 implies b0[l][o] <= #[trigger] black_combos[l][o]
            <= b0[l][o] + 19 by {
            lemma_runs_bound(vals, PlayerColor::Black, l, o, len as int);
        }
        assert forall|l: int, o: int| 0 <= l < 10 && 0 <= o < 3 implies w0[l][o] <= #[trigger] white_combos[l][o]
            <= w0[l][o] + 19 by {
            lemma_runs_bound(vals, PlayerColor::White, l, o, len as int);
        }
    }
}

} // verus!
