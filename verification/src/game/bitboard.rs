use crate::game::board::{on_board, Position, BOARD_SIZE};
use crate::player::PlayerColor;
use vstd::prelude::*;

verus! {

/// Number of 64-bit words of a bitboard: two bits per cell, then the capture counters.
pub const BITBOARD_SIZE: usize = 12;

/// The board packed into words: cell `k = y * BOARD_SIZE + x` takes bits `2k` and `2k + 1`
/// (`00` empty, `10` black, `11` white); the last word holds the captures above its 18th bit.
pub type BitBoard = [u64; 12];

/// The two bits that stand for a cell's content.
pub open spec fn color_code(color: Option<PlayerColor>) -> u64 {
    match color {
        None => 0,
        Some(PlayerColor::Black) => 2,
        Some(PlayerColor::White) => 3,
    }
}

/// The two bits of cell `k`.
pub open spec fn cell_bits(bitboard: BitBoard, k: int) -> u64 {
    (bitboard[(2 * k) / 64] >> ((2 * k) % 64) as u64) & 3
}

/// Writing a pair of bits at an even offset leaves every other even pair of the word.
proof fn lemma_pair_other(v: u64, c: u64, s: u64, t: u64)
    by (bit_vector)
    requires
        c <= 3,
        s < 64,
        t < 64,
        s % 2 == 0,
        t % 2 == 0,
        s != t,
    ensures
        (((v & !(3u64 << s)) | (c << s)) >> t) & 3 == (v >> t) & 3,
{
}

/// Writing a pair of bits at an even offset puts them there.
proof fn lemma_pair_same(v: u64, c: u64, s: u64)
    by (bit_vector)
    requires
        c <= 3,
        s < 64,
        s % 2 == 0,
    ensures
        (((v & !(3u64 << s)) | (c << s)) >> s) & 3 == c,
        ((v & !(3u64 << s)) | (c << s)) & !(3u64 << s) == v & !(3u64 << s),
{
}

/// Writes the content `color` of the cell `pos` into the bitboard.
pub fn bitboard_set(bitboard: &mut BitBoard, pos: Position, color: Option<PlayerColor>)
    requires
        on_board(pos.0 as int, pos.1 as int),
    ensures
        cell_bits(*final(bitboard), pos.1 * 19 + pos.0) == color_code(color),
        forall|k: int| 0 <= k < 361 && k != pos.1 * 19 + pos.0 ==> #[trigger] cell_bits(*final(bitboard), k)
            == cell_bits(*old(bitboard), k),
        forall|j: int| 0 <= j < 12 && j != (2 * (pos.1 * 19 + pos.0)) / 64 ==> #[trigger] final(bitboard)[j]
            == old(bitboard)[j],
        ({
            let k = pos.1 * 19 + pos.0;
            let mask = !(3u64 << ((2 * k) % 64) as u64);
            final(bitboard)[(2 * k) / 64] & mask == old(bitboard)[(2 * k) / 64] & mask
        }),
{
    let (x, y) = pos;
    let cell = y * BOARD_SIZE + x;
    let i = cell << 1;
    assert(i == 2 * cell) by (bit_vector)
        requires
            cell < 361,
            i == cell << 1,
    ;
    let word = i >> 6;
    let shift = i & 63;
    assert(word == i / 64 && shift == i % 64) by (bit_vector)
        requires
            word == i >> 6,
            shift == i & 63,
    ;
    let shift64 = shift as u64;
    let mask = !(3u64 << shift64);
    let color_value: u64 = match color {
        None => 0b00,
        Some(PlayerColor::Black) => 0b10,
        Some(PlayerColor::White) => 0b11,
    };
    let ghost before = *bitboard;
    bitboard[word] = (bitboard[word] & mask) | (color_value << shift64);
    proof {
        let k0 = y * 19 + x;
        lemma_pair_same(before[word as int], color_value, shift64);
        assert forall|k: int| 0 <= k < 361 && k != k0 implies #[trigger] cell_bits(*bitboard, k) == cell_bits(before, k) by {
            if (2 * k) / 64 == word {
                lemma_pair_other(before[word as int], color_value, shift64, ((2 * k) % 64) as u64);
            }
        }
    }
}

/// Writes the capture counters into the last word, above the bits of the cells: black's
/// from bit 18 and white's from bit 21 (a black counter of 8 or more runs into white's bits,
/// and the bits beyond the word are lost).
pub fn bitboard_set_captures(bitboard: &mut BitBoard, black_captures: usize, white_captures: usize)
    ensures
        forall|j: int| 0 <= j < 11 ==> #[trigger] final(bitboard)[j] == old(bitboard)[j],
        final(bitboard)[11] & 0x3ffff == old(bitboard)[11] & 0x3ffff,
        final(bitboard)[11] >> 18u64 == ((black_captures as u64) | ((white_captures as u64) << 3u64)) & 0x3fff_ffff_ffff,
{
    let b = black_captures as u64;
    let w = white_captures as u64;
    let old_word = bitboard[11];
    let one_bit: u64 = 1u64 << 18u64;
    assert(one_bit == 0x40000) by (bit_vector)
        requires
            one_bit == 1u64 << 18u64,
    ;
    let cells_mask: u64 = one_bit - 1;
    let new_word = (old_word & cells_mask) | (b << 18u64) | (w << 21u64);
    assert(new_word & 0x3ffff == old_word & 0x3ffff && new_word >> 18u64 == (b | (w << 3u64)) & 0x3fff_ffff_ffff)
        by (bit_vector)
        requires
            new_word == (old_word & 0x3ffff) | (b << 18u64) | (w << 21u64),
    ;
    bitboard[11] = new_word;
}

} // verus!
