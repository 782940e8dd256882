use crate::game::logic::GameView;
use crate::game::Game;
use crate::heuristics::new::{base_part, base_value, board_combos, count_combos, counted_diff, evaluable};
use crate::heuristics::runs::{combos_bounded, Combos};
use crate::game::lines::N_LINES;
use crate::player::PlayerColor;
use vstd::prelude::*;

verus! {

/// The weighted runs of the lengths `2 .. n`: a run of length `l` weighs `l` to the fourth
/// power, three times as much when both its ends are open, nothing when both are closed.
pub open spec fn old_combos_upto(black: Combos, white: Combos, n: int) -> int
    decreases n,
{
    if n <= 2 {
        0
    } else {
        let l = n - 1;
        old_combos_upto(black, white, n - 1)
            + l * l * l * l * (counted_diff(black, white, l, 1) + 3 * counted_diff(black, white, l, 2))
    }
}

/// The previous hand-written heuristic: `base_value` and the weighted runs of stones of
/// lengths 2 to 9.
pub open spec fn old_manual_spec(g: GameView) -> int {
    base_value(g) + old_combos_upto(board_combos(g, PlayerColor::Black), board_combos(g, PlayerColor::White), 10)
}

/// The previous hand-written heuristic of `game` (see `old_manual_spec`). Runs of ten stones
/// or more are not counted.
pub fn old_manual(game: &Game) -> (res: i64)
    requires
        evaluable(game@),
    ensures
        res == old_manual_spec(game@),
        -2_000_000_000 <= res <= 2_000_000_000,
{
    let ghost g = game@;
    let (black_combos, white_combos) = count_combos(game);
    proof {
        crate::heuristics::new::lemma_board_combos(g, PlayerColor::Black, black_combos);
        crate::heuristics::new::lemma_board_combos(g, PlayerColor::White, white_combos);
    }
    let mut h: i64 = base_part(game);
    let ghost h0 = h as int;
    let mut length: usize = 2;
    while length <= 9
        invariant
            2 <= length <= 10,
            combos_bounded(black_combos, 19 * N_LINES),
            combos_bounded(white_combos, 19 * N_LINES),
            -7000 <= h0 <= 7000,
            h == h0 + old_combos_upto(black_combos, white_combos, length as int),
            -(length as int) * 100_000_000 <= h - h0 <= (length as int) * 100_000_000,
        decreases 10 - length,
    {
        let l = length as i64;
        assert(0 <= l * l <= 81 && 0 <= l * l * l <= 729 && 0 <= l * l * l * l <= 6561) by (nonlinear_arith)
            requires
                2 <= l <= 9,
        ;
        let l4 = l * l * l * l;
        let d1 = black_combos[length][1] - white_combos[length][1];
        let d2 = black_combos[length][2] - white_combos[length][2];
        assert(-14_000_000 <= l4 * d1 <= 14_000_000 && -42_000_000 <= l4 * 3 * d2 <= 42_000_000) by (nonlinear_arith)
            requires
                0 <= l4 <= 6561,
                -2128 <= d1 <= 2128,
                -2128 <= d2 <= 2128,
        ;
        assert(l4 * 1 * d1 + l4 * 3 * d2 == l4 * (d1 + 3 * d2)) by (nonlinear_arith);
        h = h + l4 * 1 * d1;
        h = h + l4 * 3 * d2;
        length += 1;
    }
    h
}

} // verus!
