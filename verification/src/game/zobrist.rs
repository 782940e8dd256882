use crate::game::board::{on_board, Position, BOARD_SIZE};
use crate::player::PlayerColor;
use vstd::prelude::*;

verus! {

/// Number of random values: two per cell, then two per capture count.
pub const RANDOM_VALUES: usize = 748;

/// The seed of the xorshift generator of the random values.
pub const ZOBRIST_SEED: u64 = 1_003_205_231_972_679_264;

/// One step of the xorshift generator.
pub open spec fn xorshift(x: u64) -> u64 {
    let a = x ^ (x << 13u64);
    let b = a ^ (a >> 7u64);
    b ^ (b << 17u64)
}

/// The generator's `n`-th value.
pub open spec fn xorshift_iter(n: nat) -> u64
    decreases n,
{
    if n == 0 { ZOBRIST_SEED } else { xorshift(xorshift_iter((n - 1) as nat)) }
}

/// The `i`-th random value; the two values of the first capture count are zero.
pub open spec fn zobrist_value(i: int) -> u64 {
    if i == 2 * 361 || i == 2 * 361 + 1 { 0 } else { xorshift_iter(i as nat) }
}

/// The index of a stone of `color` on cell `k`, or of the capture count `k - 361` of `color`.
pub open spec fn zobrist_index(color: PlayerColor, k: int) -> int {
    2 * k + (if color == PlayerColor::White { 1int } else { 0int })
}

/// The `i`-th random value.
fn zobrist_at(i: usize) -> (res: u64)
    requires
        i < RANDOM_VALUES,
    ensures
        res == zobrist_value(i as int),
{
    if i == 2 * BOARD_SIZE * BOARD_SIZE || i == 2 * BOARD_SIZE * BOARD_SIZE + 1 {
        return 0;
    }
    let mut x: u64 = ZOBRIST_SEED;
    let mut k: usize = 0;
    while k < i
        invariant
            k <= i,
            x == xorshift_iter(k as nat),
        decreases i - k,
    {
        x ^= x << 13u64;
        x ^= x >> 7u64;
        x ^= x << 17u64;
        k += 1;
    }
    x
}

/// The hash after a stone of `color` appears on (or leaves) `pos`.
pub fn zobrist_move(zobrist: u64, color: PlayerColor, pos: Position) -> (res: u64)
    requires
        on_board(pos.0 as int, pos.1 as int),
    ensures
        res == zobrist ^ zobrist_value(zobrist_index(color, pos.1 * 19 + pos.0)),
{
    let (x, y) = pos;
    let i = 2 * (y * BOARD_SIZE + x) + (if color == PlayerColor::White { 1 } else { 0 });
    zobrist ^ zobrist_at(i)
}

/// The hash after the capture count of `color` goes from `old_captures` to the next one.
pub fn zobrist_capture(zobrist: u64, color: PlayerColor, old_captures: usize) -> (res: u64)
    requires
        zobrist_index(color, 361 + old_captures) + 2 < RANDOM_VALUES,
    ensures
        res == zobrist ^ zobrist_value(zobrist_index(color, 361 + old_captures))
            ^ zobrist_value(zobrist_index(color, 361 + old_captures) + 2),
{
    let i = 2 * (BOARD_SIZE * BOARD_SIZE + old_captures) + (if color == PlayerColor::White { 1 } else { 0 });
    zobrist ^ zobrist_at(i) ^ zobrist_at(i + 2)
}

/// Playing a stone and taking it back leaves the hash as it was.
pub proof fn lemma_zobrist_move_undo(zobrist: u64, color: PlayerColor, pos: Position)
    ensures
        ({
            let v = zobrist_value(zobrist_index(color, pos.1 * 19 + pos.0));
            (zobrist ^ v) ^ v == zobrist
        }),
{
    let v = zobrist_value(zobrist_index(color, pos.1 * 19 + pos.0));
    assert((zobrist ^ v) ^ v == zobrist) by (bit_vector);
}

/// The hash `z` after the capture count of `color` has gone from 0 up to `n`, one capture at
/// a time, as `zobrist_capture` updates it.
pub open spec fn capture_fold(z: u64, color: PlayerColor, n: nat) -> u64
    decreases n,
{
    if n == 0 {
        z
    } else {
        let k = (n - 1) as nat;
        capture_fold(z, color, k) ^ zobrist_value(zobrist_index(color, 361 + k as int))
            ^ zobrist_value(zobrist_index(color, 361 + k as int) + 2)
    }
}

/// Folding the capture updates telescopes: the capture part of the hash depends only on the
/// final count (and is nothing for a count of 0), and an update applied twice cancels out.
pub proof fn lemma_capture_fold(z: u64, color: PlayerColor, n: nat)
    ensures
        capture_fold(z, color, n) == z ^ zobrist_value(zobrist_index(color, 361 + n as int)),
        ({
            let a = zobrist_value(zobrist_index(color, 361 + n as int));
            let b = zobrist_value(zobrist_index(color, 361 + n as int) + 2);
            z ^ a ^ b ^ a ^ b == z
        }),
    decreases n,
{
    let a = zobrist_value(zobrist_index(color, 361 + n as int));
    let b = zobrist_value(zobrist_index(color, 361 + n as int) + 2);
    assert(z ^ a ^ b ^ a ^ b == z) by (bit_vector);
    if n == 0 {
        assert(zobrist_value(zobrist_index(color, 361)) == 0);
        assert(z ^ 0u64 == z) by (bit_vector);
    } else {
        let k = (n - 1) as nat;
        lemma_capture_fold(z, color, k);
        let vk = zobrist_value(zobrist_index(color, 361 + k as int));
        let vn = zobrist_value(zobrist_index(color, 361 + k as int) + 2);
        assert(zobrist_index(color, 361 + k as int) + 2 == zobrist_index(color, 361 + n as int));
        assert((z ^ vk) ^ vk ^ vn == z ^ vn) by (bit_vector);
    }
}

} // verus!
