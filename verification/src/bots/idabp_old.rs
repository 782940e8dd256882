use crate::bots::idabp_new::deadline_passed;
use crate::bots::ordering::sort_by_values;
use crate::bots::random_mover::random_mover;
use crate::bots::alpha_beta_pruning::WindowState;
use crate::bots::ordered::{assemble, lemma_assemble_insert, suborders};
use crate::bots::{lemma_same_multiset_contains, leaf_spec, leaf_value, neg_wrap, negate};
use crate::clock::now;
use crate::game::bitboard::{bitboard_set, bitboard_set_captures, cell_bits, color_code, BitBoard};
use crate::game::board::{on_board, Position, BOARD_CENTER, BOARD_SIZE};
use crate::game::legal_moves::{lemma_legal_moves_playable, legal_moves_spec};
use crate::game::logic::{do_spec, lemma_playing_ply_bound, lemma_undo_do, valid_game, GameView};
use crate::game::Game;
use crate::heuristics::{valid_heuristic, Heuristic, HeuristicView};
use fxhash::FxHashMap;
use std::time::Instant;
use vstd::prelude::*;

verus! {

/// What a cached value says of the search value of its position.
#[derive(Clone, Copy, PartialEq, Eq, Structural)]
pub enum NodeType {
    /// The value is a lower bound: the search was cut above the window.
    Cut,
    /// The value is an upper bound: no move rose above the window.
    All,
    /// The value is exact.
    PV,
}

/// A searched position: where in which search it was met, its value and what kind of value.
#[derive(Clone, Copy)]
pub struct CacheValue {
    pub depth: u32,
    pub max_depth: u32,
    pub value: i64,
    pub node_type: NodeType,
}

/// Values of searched positions, keyed by the packed board.
pub type TranspositionTable = FxHashMap<BitBoard, CacheValue>;

/// An empty table (`Default::default` for a `HashMap` with the `fxhash` hasher).
/// Claimed: it holds no entry.
#[verifier::external_body]
fn new_table() -> (res: TranspositionTable)
    ensures
        res@.dom() == Set::<BitBoard>::empty(),
{
    FxHashMap::default()
}

/// `HashMap::insert` on the table. Claimed, as `std` documents it for keys whose `Hash` and
/// `Eq` agree (true of arrays of `u64` with the deterministic `fxhash` hasher): afterwards
/// `key` maps to `value` and every other entry is unchanged.
#[verifier::external_body]
fn table_insert(table: &mut TranspositionTable, key: BitBoard, value: CacheValue)
    ensures
        final(table)@ == old(table)@.insert(key, value),
{
    table.insert(key, value);
}

/// `HashMap::get` on the table. Claimed: the value stored under `key`, if there is one.
#[verifier::external_body]
fn table_get(table: &TranspositionTable, key: &BitBoard) -> (res: Option<CacheValue>)
    ensures
        res == (if table@.contains_key(*key) { Some(table@[*key]) } else { None::<CacheValue> }),
{
    table.get(key).copied()
}

/// Two words that agree on their 18 low bits agree on each pair of bits among them.
proof fn lemma_low_bits(a: u64, b: u64, s: u64)
    requires
        a & 0x3ffff == b & 0x3ffff,
        s <= 16,
    ensures
        (a >> s) & 3 == (b >> s) & 3,
{
    assert((a >> s) & 3 == (b >> s) & 3) by (bit_vector)
        requires
            a & 0x3ffff == b & 0x3ffff,
            s <= 16;
}

/// The board of `game` packed (see `BitBoard`), with its capture counts.
pub fn game_bitboard(game: &Game) -> (res: BitBoard)
    ensures
        forall|k: int| 0 <= k < 361 ==> #[trigger] cell_bits(res, k) == color_code(
            game.board[k / 19][k % 19],
        ),
{
    let mut bitboard: BitBoard = [0; 12];
    let mut k: usize = 0;
    while k < BOARD_SIZE * BOARD_SIZE
        invariant
            k <= 361,
            forall|j: int| 0 <= j < k ==> #[trigger] cell_bits(bitboard, j) == color_code(game.board[j / 19][j % 19]),
        decreases 361 - k,
    {
        let pos = (k % BOARD_SIZE, k / BOARD_SIZE);
        assert(pos.1 * 19 + pos.0 == k);
        bitboard_set(&mut bitboard, pos, game.board[pos.1][pos.0]);
        k += 1;
    }
    let ghost before = bitboard;
    bitboard_set_captures(&mut bitboard, game.black_captures, game.white_captures);
    proof {
        assert forall|j: int| 0 <= j < 361 implies #[trigger] cell_bits(bitboard, j) == color_code(game.board[j / 19][j % 19]) by {
            assert(cell_bits(before, j) == color_code(game.board[j / 19][j % 19]));
            let w = (2 * j) / 64;
            let sh = ((2 * j) % 64) as u64;
            if w == 11 {
                lemma_low_bits(before[11], bitboard[11], sh);
            }
        }
    }
    bitboard
}

/// The table's answer for a position met at `depth` of the search to `max_depth`, when it
/// holds `key`: the entry stored under it, if it was stored at the same depths.
pub open spec fn table_answer(table: Map<BitBoard, CacheValue>, key: BitBoard, depth: int, max_depth: int) -> Option<CacheValue> {
    if table.contains_key(key) && table[key].depth == depth && table[key].max_depth == max_depth {
        Some(table[key])
    } else {
        None
    }
}

/// `key` is the packed board of `g`: two bits per cell, as `BitBoard` says.
pub open spec fn packs(key: BitBoard, g: GameView) -> bool {
    forall|k: int| 0 <= k < 361 ==> #[trigger] cell_bits(key, k) == color_code(g.board[k / 19][k % 19])
}

/// What a table answer does to a search in the window `alpha ..= beta`: it may settle the
/// value (an exact value, or a bound on the side the window is left by), or narrow the
/// window (a lower bound raises `alpha`, an upper bound lowers `beta`).
pub open spec fn answered(a: Option<CacheValue>, alpha: int, beta: int) -> (Option<int>, int, int) {
    match a {
        None => (None, alpha, beta),
        Some(cv) => {
            let v = cv.value as int;
            match cv.node_type {
                NodeType::Cut => if v >= beta { (Some(v), alpha, beta) } else { (None, if v > alpha { v } else { alpha }, beta) },
                NodeType::All => if v <= alpha { (Some(v), alpha, beta) } else { (None, alpha, if v < beta { v } else { beta }) },
                NodeType::PV => (Some(v), alpha, beta),
            }
        },
    }
}

/// The answers below the `i`-th move of the root.
pub open spec fn subanswers(ans: spec_fn(Seq<int>) -> Option<CacheValue>, i: int) -> spec_fn(Seq<int>) -> Option<CacheValue> {
    |p: Seq<int>| ans(seq![i] + p)
}

/// The value that the search of `g` with a table returns, from `depth` to `max_depth` in the
/// window `alpha ..= beta`, when the table answers `ans(p)` at the position reached by the
/// moves of indices `p` and the moves are tried in the orders `ord`: the value the answer
/// settles, a leaf value, or the best value of the loop in the window the answer left.
#[verifier::opaque]
pub open spec fn table_search(
    h: HeuristicView,
    g: GameView,
    depth: int,
    max_depth: int,
    alpha: int,
    beta: int,
    ord: spec_fn(Seq<int>) -> Seq<Position>,
    ans: spec_fn(Seq<int>) -> Option<CacheValue>,
) -> int
    decreases max_depth - depth, ord(Seq::empty()).len() + 1,
{
    let (settled, a2, b2) = answered(ans(Seq::empty()), alpha, beta);
    match settled {
        Some(v) => v,
        None => match leaf_spec(g, h, depth, max_depth) {
            Some(v) => v,
            None => if 0 <= depth < max_depth {
                table_loop(h, g, depth, max_depth, a2, b2, ord, ans, ord(Seq::empty()).len() as int).best
            } else {
                i64::MIN as int
            },
        },
    }
}

/// The loop of the search with a table over the first `k` moves of `ord(Seq::empty())`, as
/// `ordered_loop`, the windows being negated as `i64`s are.
pub open spec fn table_loop(
    h: HeuristicView,
    g: GameView,
    depth: int,
    max_depth: int,
    alpha: int,
    beta: int,
    ord: spec_fn(Seq<int>) -> Seq<Position>,
    ans: spec_fn(Seq<int>) -> Option<CacheValue>,
    k: int,
) -> WindowState
    decreases max_depth - depth, k,
{
    if k <= 0 || !(0 <= depth < max_depth) {
        WindowState { best: i64::MIN as int, alpha, cut: false, chosen: (usize::MAX, usize::MAX) }
    } else {
        let s = table_loop(h, g, depth, max_depth, alpha, beta, ord, ans, k - 1);
        if s.cut {
            s
        } else {
            let m = ord(Seq::empty())[k - 1];
            let g2 = do_spec(g, m.0 as int, m.1 as int);
            let v = neg_wrap(table_search(h, g2, depth + 1, max_depth, neg_wrap(beta), neg_wrap(s.alpha),
                suborders(ord, k - 1), subanswers(ans, k - 1)));
            let best = if v > s.best { v } else { s.best };
            WindowState {
                best,
                alpha: if best > s.alpha { best } else { s.alpha },
                cut: best > beta,
                chosen: if v == best { m } else { s.chosen },
            }
        }
    }
}

/// The entry the search with a table stores for its position: none when the table settled
/// the value; otherwise the value found, with its kind (a lower bound when the loop was cut
/// off or a leaf lies above the window, exact when it lies inside, an upper bound otherwise).
pub open spec fn table_entry(
    h: HeuristicView,
    g: GameView,
    depth: int,
    max_depth: int,
    alpha: int,
    beta: int,
    ord: spec_fn(Seq<int>) -> Seq<Position>,
    ans: spec_fn(Seq<int>) -> Option<CacheValue>,
) -> Option<CacheValue> {
    let (settled, a2, b2) = answered(ans(Seq::empty()), alpha, beta);
    if settled is Some {
        None
    } else {
        match leaf_spec(g, h, depth, max_depth) {
            Some(v) => Some(CacheValue {
                depth: depth as u32,
                max_depth: max_depth as u32,
                value: v as i64,
                node_type: if v > b2 { NodeType::Cut } else if v > a2 { NodeType::PV } else { NodeType::All },
            }),
            None => {
                let s = table_loop(h, g, depth, max_depth, a2, b2, ord, ans, ord(Seq::empty()).len() as int);
                Some(CacheValue {
                    depth: depth as u32,
                    max_depth: max_depth as u32,
                    value: s.best as i64,
                    node_type: if s.cut { NodeType::Cut } else if s.best > a2 { NodeType::PV } else { NodeType::All },
                })
            },
        }
    }
}

/// The root move after a search with a table that starts from `before`: the move the loop
/// records, or `before` when the table settles the root, the root is a leaf or it has no
/// move.
pub open spec fn table_recorded(
    h: HeuristicView,
    g: GameView,
    max_depth: int,
    alpha: int,
    beta: int,
    ord: spec_fn(Seq<int>) -> Seq<Position>,
    ans: spec_fn(Seq<int>) -> Option<CacheValue>,
    before: Position,
) -> Position {
    let (settled, a2, b2) = answered(ans(Seq::empty()), alpha, beta);
    if settled is Some || leaf_spec(g, h, 0, max_depth) is Some || ord(Seq::empty()).len() == 0 {
        before
    } else {
        table_loop(h, g, 0, max_depth, a2, b2, ord, ans, ord(Seq::empty()).len() as int).chosen
    }
}

/// Every position that the search with a table loops over tries exactly its moves close to
/// the stones, in some order.
#[verifier::opaque]
pub open spec fn table_orders_ok(
    h: HeuristicView,
    g: GameView,
    depth: int,
    max_depth: int,
    alpha: int,
    beta: int,
    ord: spec_fn(Seq<int>) -> Seq<Position>,
    ans: spec_fn(Seq<int>) -> Option<CacheValue>,
) -> bool
    decreases max_depth - depth, ord(Seq::empty()).len() + 1,
{
    let (settled, a2, b2) = answered(ans(Seq::empty()), alpha, beta);
    settled is Some || leaf_spec(g, h, depth, max_depth) is Some || !(0 <= depth < max_depth) || (
    ord(Seq::empty()).to_multiset() == legal_moves_spec(g, true).to_multiset() && table_orders_fold(h, g, depth,
        max_depth, a2, b2, ord, ans, ord(Seq::empty()).len() as int))
}

/// The positions after the first `k` moves that the loop did not cut off are searched in
/// orders that are all right.
pub open spec fn table_orders_fold(
    h: HeuristicView,
    g: GameView,
    depth: int,
    max_depth: int,
    alpha: int,
    beta: int,
    ord: spec_fn(Seq<int>) -> Seq<Position>,
    ans: spec_fn(Seq<int>) -> Option<CacheValue>,
    k: int,
) -> bool
    decreases max_depth - depth, k,
{
    if k <= 0 || !(0 <= depth < max_depth) {
        true
    } else {
        let s = table_loop(h, g, depth, max_depth, alpha, beta, ord, ans, k - 1);
        let m = ord(Seq::empty())[k - 1];
        table_orders_fold(h, g, depth, max_depth, alpha, beta, ord, ans, k - 1) && (s.cut || table_orders_ok(h, do_spec(
            g,
            m.0 as int,
            m.1 as int,
        ), depth + 1, max_depth, neg_wrap(beta), neg_wrap(s.alpha), suborders(ord, k - 1), subanswers(ans, k - 1)))
    }
}

/// One step of the definitions of `table_search` and `table_orders_ok`.
proof fn lemma_table_search_unfold(h: HeuristicView, g: GameView, depth: int, max_depth: int, alpha: int, beta: int, ord: spec_fn(Seq<int>) -> Seq<Position>, ans: spec_fn(Seq<int>) -> Option<CacheValue>)
    ensures
        table_search(h, g, depth, max_depth, alpha, beta, ord, ans) == ({
            let (settled, a2, b2) = answered(ans(Seq::empty()), alpha, beta);
            match settled {
                Some(v) => v,
                None => match leaf_spec(g, h, depth, max_depth) {
                    Some(v) => v,
                    None => if 0 <= depth < max_depth {
                        table_loop(h, g, depth, max_depth, a2, b2, ord, ans, ord(Seq::empty()).len() as int).best
                    } else {
                        i64::MIN as int
                    },
                },
            }
        }),
        table_orders_ok(h, g, depth, max_depth, alpha, beta, ord, ans) == ({
            let (settled, a2, b2) = answered(ans(Seq::empty()), alpha, beta);
            settled is Some || leaf_spec(g, h, depth, max_depth) is Some || !(0 <= depth < max_depth) || (
            ord(Seq::empty()).to_multiset() == legal_moves_spec(g, true).to_multiset() && table_orders_fold(h, g, depth,
                max_depth, a2, b2, ord, ans, ord(Seq::empty()).len() as int))
        }),
{
    reveal(table_search);
    reveal(table_orders_ok);
}

/// One step of the definitions of `table_loop` and `table_orders_fold`.
proof fn lemma_table_loop_step(h: HeuristicView, g: GameView, depth: int, max_depth: int, alpha: int, beta: int, ord: spec_fn(Seq<int>) -> Seq<Position>, ans: spec_fn(Seq<int>) -> Option<CacheValue>, k: int)
    requires
        0 < k,
        0 <= depth < max_depth,
    ensures
        table_loop(h, g, depth, max_depth, alpha, beta, ord, ans, k) == ({
            let s = table_loop(h, g, depth, max_depth, alpha, beta, ord, ans, k - 1);
            if s.cut {
                s
            } else {
                let m = ord(Seq::empty())[k - 1];
                let g2 = do_spec(g, m.0 as int, m.1 as int);
                let v = neg_wrap(table_search(h, g2, depth + 1, max_depth, neg_wrap(beta), neg_wrap(s.alpha),
                    suborders(ord, k - 1), subanswers(ans, k - 1)));
                let best = if v > s.best { v } else { s.best };
                WindowState {
                    best,
                    alpha: if best > s.alpha { best } else { s.alpha },
                    cut: best > beta,
                    chosen: if v == best { m } else { s.chosen },
                }
            }
        }),
        table_orders_fold(h, g, depth, max_depth, alpha, beta, ord, ans, k) == ({
            let s = table_loop(h, g, depth, max_depth, alpha, beta, ord, ans, k - 1);
            let m = ord(Seq::empty())[k - 1];
            table_orders_fold(h, g, depth, max_depth, alpha, beta, ord, ans, k - 1) && (s.cut || table_orders_ok(h, do_spec(
                g,
                m.0 as int,
                m.1 as int,
            ), depth + 1, max_depth, neg_wrap(beta), neg_wrap(s.alpha), suborders(ord, k - 1), subanswers(ans, k - 1)))
        }),
{
    reveal(table_search);
    reveal(table_orders_ok);
}

/// Once the loop is cut off, later moves change nothing.
proof fn lemma_table_loop_cut(h: HeuristicView, g: GameView, depth: int, max_depth: int, alpha: int, beta: int, ord: spec_fn(Seq<int>) -> Seq<Position>, ans: spec_fn(Seq<int>) -> Option<CacheValue>, k: int, j: int)
    requires
        0 <= depth < max_depth,
        0 < k <= j,
        table_loop(h, g, depth, max_depth, alpha, beta, ord, ans, k).cut,
    ensures
        table_loop(h, g, depth, max_depth, alpha, beta, ord, ans, j) == table_loop(h, g, depth, max_depth, alpha, beta, ord, ans, k),
        table_orders_fold(h, g, depth, max_depth, alpha, beta, ord, ans, j) == table_orders_fold(h, g, depth, max_depth, alpha, beta, ord, ans, k),
    decreases j - k,
{
    if j > k {
        lemma_table_loop_cut(h, g, depth, max_depth, alpha, beta, ord, ans, k, j - 1);
        lemma_table_loop_step(h, g, depth, max_depth, alpha, beta, ord, ans, j);
    }
}

/// The loop over the first `k` moves looks only at the root order and at the orders and
/// answers below those moves.
proof fn lemma_table_loop_agree(
    h: HeuristicView,
    g: GameView,
    depth: int,
    max_depth: int,
    alpha: int,
    beta: int,
    ord1: spec_fn(Seq<int>) -> Seq<Position>,
    ord2: spec_fn(Seq<int>) -> Seq<Position>,
    ans1: spec_fn(Seq<int>) -> Option<CacheValue>,
    ans2: spec_fn(Seq<int>) -> Option<CacheValue>,
    k: int,
)
    requires
        0 <= depth < max_depth,
        ord1(Seq::empty()) == ord2(Seq::empty()),
        forall|i: int| 0 <= i < k ==> #[trigger] suborders(ord1, i) == suborders(ord2, i),
        forall|i: int| 0 <= i < k ==> #[trigger] subanswers(ans1, i) == subanswers(ans2, i),
    ensures
        table_loop(h, g, depth, max_depth, alpha, beta, ord1, ans1, k) == table_loop(h, g, depth, max_depth, alpha, beta, ord2, ans2, k),
        table_orders_fold(h, g, depth, max_depth, alpha, beta, ord1, ans1, k) == table_orders_fold(h, g, depth, max_depth, alpha, beta, ord2, ans2, k),
    decreases k,
{
    if k > 0 {
        lemma_table_loop_agree(h, g, depth, max_depth, alpha, beta, ord1, ord2, ans1, ans2, k - 1);
        lemma_table_loop_step(h, g, depth, max_depth, alpha, beta, ord1, ans1, k);
        lemma_table_loop_step(h, g, depth, max_depth, alpha, beta, ord2, ans2, k);
        assert(suborders(ord1, k - 1) == suborders(ord2, k - 1));
        assert(subanswers(ans1, k - 1) == subanswers(ans2, k - 1));
    }
}

/// The answers of a search whose table answered `own` at its root and whose subtree below the
/// `i`-th move got the answers `children[i]`.
pub open spec fn assemble_answers(own: Option<CacheValue>, children: Map<int, spec_fn(Seq<int>) -> Option<CacheValue>>) -> spec_fn(Seq<int>) -> Option<CacheValue> {
    |p: Seq<int>| if p.len() == 0 { own } else { children[p[0]](p.drop_first()) }
}

/// Adding the answers below the `k`-th move keeps those below the earlier moves, and gives
/// `child` below the `k`-th.
proof fn lemma_assemble_answers_insert(own: Option<CacheValue>, children: Map<int, spec_fn(Seq<int>) -> Option<CacheValue>>, k: int, child: spec_fn(Seq<int>) -> Option<CacheValue>)
    ensures
        forall|i: int| 0 <= i < k ==> #[trigger] subanswers(assemble_answers(own, children), i) == subanswers(
            assemble_answers(own, children.insert(k, child)),
            i,
        ),
        subanswers(assemble_answers(own, children.insert(k, child)), k) == child,
        assemble_answers(own, children.insert(k, child))(Seq::empty()) == own,
{
    let a1 = assemble_answers(own, children);
    let a2 = assemble_answers(own, children.insert(k, child));
    assert forall|i: int| 0 <= i < k implies #[trigger] subanswers(a1, i) == subanswers(a2, i) by {
        assert forall|p: Seq<int>| #[trigger] subanswers(a1, i)(p) == subanswers(a2, i)(p) by {
            let q = seq![i] + p;
            assert(q[0] == i);
        }
        assert(subanswers(a1, i) =~= subanswers(a2, i));
    }
    assert forall|p: Seq<int>| #[trigger] subanswers(a2, k)(p) == child(p) by {
        let q = seq![k] + p;
        assert(q[0] == k);
        assert(q.drop_first() =~= p);
    }
    assert(subanswers(a2, k) =~= child);
}

/// The successive root moves of iterative deepening with a table from `moves[0]`: the search
/// to depth `d` turns `moves[d]` into `moves[d + 1]`. When it finished before the deadline
/// (`finished[d]`), it tried the moves close to the stones of each position it looped over in
/// the orders `orders[d]`, the table answered `answers[d]`, and `moves[d + 1]` is the move the
/// search records for them in the full window; otherwise `moves[d + 1]` is `moves[d]` or one
/// of the moves close to the stones.
pub open spec fn table_trace(
    h: HeuristicView,
    g: GameView,
    moves: Seq<Position>,
    finished: Seq<bool>,
    orders: Seq<spec_fn(Seq<int>) -> Seq<Position>>,
    answers: Seq<spec_fn(Seq<int>) -> Option<CacheValue>>,
) -> bool {
    &&& moves.len() == finished.len() + 1
    &&& orders.len() == finished.len()
    &&& answers.len() == finished.len()
    &&& forall|d: int| 0 <= d < finished.len() ==> (#[trigger] finished[d] ==> table_orders_ok(h, g, 0, d, -i64::MAX,
        i64::MAX as int, orders[d], answers[d]) && moves[d + 1] == table_recorded(h, g, d, -i64::MAX, i64::MAX as int,
        orders[d], answers[d], moves[d])) && (!finished[d] ==> moves[d + 1] == moves[d] || (g.state is Playing
        && legal_moves_spec(g, true).contains(moves[d + 1])))
}

/// The iterative-deepening alpha-beta bot with a transposition table: starts from a random
/// move, then searches to depth 0, 1, 2, ... until `time_limit_ms` milliseconds have passed,
/// keeping in a table, for each packed board, the value found and whether it is exact or a
/// bound; each search that finishes before the deadline replaces the move by the one it
/// records (see `table_trace`), and the move is played when the deadline has passed after a
/// search (the center on an empty board). Whatever the clock does, the move is a legal move.
pub fn idabp_old(game: &Game, heuristic: &Heuristic, time_limit_ms: u64) -> (res: Position)
    requires
        valid_game(game@),
        valid_heuristic(heuristic@),
        game@.ply > 0 ==> legal_moves_spec(game@, false).len() > 0,
    ensures
        game@.ply == 0 ==> res == BOARD_CENTER,
        game@.ply > 0 ==> legal_moves_spec(game@, false).contains(res) || (game@.state is Playing
            && legal_moves_spec(game@, true).contains(res)),
        game@.ply > 0 ==> exists|moves: Seq<Position>, finished: Seq<bool>, orders: Seq<spec_fn(Seq<int>) -> Seq<Position>>,
            answers: Seq<spec_fn(Seq<int>) -> Option<CacheValue>>|
            #[trigger] table_trace(heuristic@, game@, moves, finished, orders, answers) && legal_moves_spec(game@, false).contains(
                moves[0],
            ) && res == moves.last(),
{
    if game.ply == 0 {
        return BOARD_CENTER;
    }
    let ghost g = game@;
    let ghost h = heuristic@;
    let t0 = now();
    let limit = time_limit_ms as u128 * 1_000_000;
    let random_move = random_mover(game, heuristic);
    let mut search_game = game.copy();
    let mut table = new_table();
    let mut best_move = random_move;
    let ghost mut moves: Seq<Position> = seq![random_move];
    let ghost mut finished: Seq<bool> = Seq::empty();
    let ghost mut orders: Seq<spec_fn(Seq<int>) -> Seq<Position>> = Seq::empty();
    let ghost mut answers: Seq<spec_fn(Seq<int>) -> Option<CacheValue>> = Seq::empty();
    let mut max_depth: u32 = 0;
    while max_depth < u32::MAX
        invariant
            game@ == g,
            h == heuristic@,
            g.ply > 0,
            search_game@ == g,
            valid_game(g),
            valid_heuristic(heuristic@),
            legal_moves_spec(g, false).contains(best_move) || (g.state is Playing && legal_moves_spec(g, true).contains(best_move)),
            finished.len() == max_depth,
            table_trace(h, g, moves, finished, orders, answers),
            moves[0] == random_move,
            legal_moves_spec(g, false).contains(random_move),
            moves.last() == best_move,
        decreases u32::MAX - max_depth,
    {
        let ghost before = best_move;
        let (_, done, Ghost(sub)) = alpha_beta_pruning_helper(
            &mut search_game, heuristic, 0, max_depth, -i64::MAX, i64::MAX, &mut table, &mut best_move, &t0, limit);
        proof {
            let m0 = moves;
            let f0 = finished;
            let o0 = orders;
            let a0 = answers;
            moves = moves.push(best_move);
            finished = finished.push(done);
            orders = orders.push(sub.0);
            answers = answers.push(sub.1);
            assert forall|d: int| 0 <= d < finished.len() implies (#[trigger] finished[d] ==> table_orders_ok(h, g, 0, d, -i64::MAX,
                i64::MAX as int, orders[d], answers[d]) && moves[d + 1] == table_recorded(h, g, d, -i64::MAX, i64::MAX as int,
                orders[d], answers[d], moves[d])) && (!finished[d] ==> moves[d + 1] == moves[d] || (g.state is Playing
                && legal_moves_spec(g, true).contains(moves[d + 1]))) by {
                if d < f0.len() {
                    assert(finished[d] == f0[d]);
                    assert(moves[d] == m0[d] && moves[d + 1] == m0[d + 1]);
                    assert(orders[d] == o0[d] && answers[d] == a0[d]);
                    assert(f0[d] ==> table_orders_ok(h, g, 0, d, -i64::MAX, i64::MAX as int, o0[d], a0[d]) && m0[d + 1]
                        == table_recorded(h, g, d, -i64::MAX, i64::MAX as int, o0[d], a0[d], m0[d]));
                } else {
                    assert(moves[d] == before);
                }
            }
            assert(moves[0] == m0[0]);
            assert(moves.last() == best_move);
            assert(table_trace(h, g, moves, finished, orders, answers));
        }
        if deadline_passed(&t0, limit) {
            return best_move;
        }
        max_depth += 1;
    }
    best_move
}

/// The value the table gives to the position after each of `moves` (`default_h` for a
/// position it does not hold), to order the moves.
fn table_values(game: &mut Game, moves: &Vec<Position>, table: &TranspositionTable, default_h: i64) -> (res: Vec<i64>)
    requires
        valid_game(old(game)@),
        old(game)@.state is Playing,
        forall|t: int| 0 <= t < moves.len() ==> #[trigger] legal_moves_spec(old(game)@, true).contains(moves@[t]),
    ensures
        final(game)@ == old(game)@,
        res.len() == moves.len(),
{
    let ghost g = game@;
    let mut values: Vec<i64> = Vec::new();
    let mut i: usize = 0;
    while i < moves.len()
        invariant
            i <= moves.len(),
            values.len() == i,
            game@ == g,
            valid_game(g),
            g.state is Playing,
            forall|t: int| 0 <= t < moves.len() ==> #[trigger] legal_moves_spec(g, true).contains(moves@[t]),
        decreases moves.len() - i,
    {
        let (x, y) = moves[i];
        proof {
            assert(legal_moves_spec(g, true).contains(moves@[i as int]));
            let j = choose|j: int| 0 <= j < legal_moves_spec(g, true).len() && legal_moves_spec(g, true)[j] == (x, y);
            lemma_legal_moves_playable(g, true, j);
            lemma_playing_ply_bound(g);
            lemma_undo_do(g, x as int, y as int);
        }
        game.do_move(x, y);
        let key = game_bitboard(game);
        let v = match table_get(table, &key) {
            Some(cv) => cv.value,
            None => default_h,
        };
        game.undo_last_move();
        values.push(v);
        i += 1;
    }
    values
}

/// The alpha-beta search of `game` from `depth` to `max_depth` in the window
/// `alpha ..= beta`, answering from the table when it holds the position for the same depths
/// (an exact value, or a bound that settles or narrows the window) and storing what it finds;
/// at the root it records the best move while the deadline has not passed. It says whether
/// it finished before the deadline and, as a ghost, the orders in which it tried the moves
/// and the answers the table gave. A search that finished returns `table_search` for those
/// orders and answers, the answer at its root being the table's for its packed board, stores
/// `table_entry` under that board and records `table_recorded`.
#[verifier::spinoff_prover]
#[verifier::rlimit(80)]
fn alpha_beta_pruning_helper(
    game: &mut Game,
    heuristic: &Heuristic,
    depth: u32,
    max_depth: u32,
    alpha: i64,
    beta: i64,
    table: &mut TranspositionTable,
    best_move: &mut Position,
    t0: &Instant,
    limit: u128,
) -> (res: (i64, bool, Ghost<(spec_fn(Seq<int>) -> Seq<Position>, spec_fn(Seq<int>) -> Option<CacheValue>)>))
    requires
        valid_game(old(game)@),
        valid_heuristic(heuristic@),
        depth <= max_depth,
    ensures
        final(game)@ == old(game)@,
        depth > 0 ==> *final(best_move) == *old(best_move),
        depth == 0 ==> *final(best_move) == *old(best_move) || (old(game)@.state is Playing
            && legal_moves_spec(old(game)@, true).contains(*final(best_move))),
        depth > 3 ==> res.1,
        res.1 ==> table_orders_ok(heuristic@, old(game)@, depth as int, max_depth as int, alpha as int, beta as int, res.2@.0, res.2@.1),
        res.1 ==> res.0 == table_search(heuristic@, old(game)@, depth as int, max_depth as int, alpha as int, beta as int, res.2@.0, res.2@.1),
        res.1 ==> exists|key: BitBoard| #[trigger] packs(key, old(game)@) && res.2@.1(Seq::empty()) == table_answer(old(table)@, key,
            depth as int, max_depth as int) && (table_entry(heuristic@, old(game)@, depth as int, max_depth as int, alpha as int,
            beta as int, res.2@.0, res.2@.1) is Some ==> final(table)@.contains_key(key) && final(table)@[key] == table_entry(heuristic@,
            old(game)@, depth as int, max_depth as int, alpha as int, beta as int, res.2@.0, res.2@.1).unwrap()),
        res.1 && depth == 0 ==> *final(best_move) == table_recorded(heuristic@, old(game)@, max_depth as int, alpha as int,
            beta as int, res.2@.0, res.2@.1, *old(best_move)),
    decreases max_depth - depth,
{
    let ghost g = game@;
    let ghost b0 = *best_move;
    let ghost h = heuristic@;
    let ghost a0 = alpha as int;
    let ghost bb0 = beta as int;
    let ghost no_orders = |p: Seq<int>| Seq::<Position>::empty();
    if depth <= 3 && deadline_passed(t0, limit) {
        return (0, false, Ghost((no_orders, |p: Seq<int>| None::<CacheValue>)));
    }
    let key = game_bitboard(game);
    let ghost t_in = table@;
    let ghost own = table_answer(t_in, key, depth as int, max_depth as int);
    let ghost no_answers = |p: Seq<int>| if p.len() == 0 { own } else { None::<CacheValue> };
    proof {
        assert(packs(key, g));
        lemma_table_search_unfold(h, g, depth as int, max_depth as int, a0, bb0, no_orders, no_answers);
    }
    let mut alpha = alpha;
    let mut beta = beta;
    if let Some(cv) = table_get(table, &key) {
        if cv.depth == depth && cv.max_depth == max_depth {
            let v = cv.value;
            match cv.node_type {
                NodeType::Cut => {
                    if v >= beta {
                        return (v, true, Ghost((no_orders, no_answers)));
                    }
                    if v > alpha {
                        alpha = v;
                    }
                },
                NodeType::All => {
                    if v <= alpha {
                        return (v, true, Ghost((no_orders, no_answers)));
                    }
                    if v < beta {
                        beta = v;
                    }
                },
                NodeType::PV => {
                    return (v, true, Ghost((no_orders, no_answers)));
                },
            }
        }
    }
    assert(answered(own, a0, bb0) == (None::<int>, alpha as int, beta as int));
    if let Some(v) = leaf_value(game, heuristic, depth as usize, max_depth as usize) {
        let node_type = if v > beta {
            NodeType::Cut
        } else if v > alpha {
            NodeType::PV
        } else {
            NodeType::All
        };
        table_insert(table, key, CacheValue { depth, max_depth, value: v, node_type });
        return (v, true, Ghost((no_orders, no_answers)));
    }
    let mut close_moves = game.get_legal_moves(Some(2), false);
    let ghost spec_moves = legal_moves_spec(g, true);
    proof {
        assert forall|t: int| 0 <= t < close_moves.len() implies #[trigger] spec_moves.contains(close_moves@[t]) by {
            assert(close_moves@[t] == spec_moves[t]);
        }
    }
    if depth + 1 < max_depth {
        let default_h = beta / 2;
        let values = table_values(game, &close_moves, table, default_h);
        let sorted = sort_by_values(&close_moves, &values);
        proof {
            assert forall|t: int| 0 <= t < sorted.len() implies #[trigger] spec_moves.contains(sorted@[t]) by {
                assert(sorted@.contains(sorted@[t]));
                lemma_same_multiset_contains(sorted@, close_moves@, sorted@[t]);
            }
        }
        close_moves = sorted;
    }
    let ghost a2 = alpha as int;
    let ghost b2 = beta as int;
    let ghost mut child_orders: Map<int, spec_fn(Seq<int>) -> Seq<Position>> = Map::empty();
    let ghost mut child_answers: Map<int, spec_fn(Seq<int>) -> Option<CacheValue>> = Map::empty();
    let mut finished = true;
    let mut best_h: i64 = i64::MIN;
    let mut node_type = NodeType::All;
    let mut k: usize = 0;
    while k < close_moves.len()
        invariant_except_break
            best_h <= beta,
        invariant
            k <= close_moves.len(),
            game@ == g,
            h == heuristic@,
            valid_game(g),
            valid_heuristic(heuristic@),
            depth < max_depth,
            g.state is Playing,
            leaf_spec(g, h, depth as int, max_depth as int) is None,
            spec_moves == legal_moves_spec(g, true),
            forall|t: int| 0 <= t < close_moves.len() ==> #[trigger] spec_moves.contains(close_moves@[t]),
            depth > 0 ==> *best_move == b0,
            depth == 0 ==> *best_move == b0 || spec_moves.contains(*best_move),
            b2 == beta as int,
            alpha == (if best_h > a2 { best_h as int } else { a2 }),
            node_type == (if best_h > beta { NodeType::Cut } else if best_h > a2 { NodeType::PV } else { NodeType::All }),
            depth > 3 ==> finished,
            finished ==> ({
                let s = table_loop(h, g, depth as int, max_depth as int, a2, b2, assemble(close_moves@, child_orders),
                    assemble_answers(own, child_answers), k as int);
                &&& s.best == best_h
                &&& s.alpha == alpha
                &&& s.cut == (best_h > beta)
                &&& depth == 0 && k > 0 ==> s.chosen == *best_move
            }),
            finished ==> table_orders_fold(h, g, depth as int, max_depth as int, a2, b2, assemble(close_moves@, child_orders),
                assemble_answers(own, child_answers), k as int),
        ensures
            best_h > beta || k == close_moves.len(),
        decreases close_moves.len() - k,
    {
        let pos = close_moves[k];
        let (x, y) = pos;
        proof {
            assert(spec_moves.contains(close_moves@[k as int]));
            let i = choose|i: int| 0 <= i < spec_moves.len() && spec_moves[i] == pos;
            lemma_legal_moves_playable(g, true, i);
            lemma_playing_ply_bound(g);
            lemma_undo_do(g, x as int, y as int);
        }
        game.do_move(x, y);
        let (c, child_finished, Ghost(sub)) = alpha_beta_pruning_helper(
            game, heuristic, depth + 1, max_depth, negate(beta), negate(alpha), table, best_move, t0, limit);
        let hv = negate(c);
        game.undo_last_move();
        let ghost old_orders = child_orders;
        let ghost old_answers = child_answers;
        proof {
            lemma_assemble_insert(close_moves@, child_orders, k as int, sub.0);
            lemma_assemble_answers_insert(own, child_answers, k as int, sub.1);
            child_orders = child_orders.insert(k as int, sub.0);
            child_answers = child_answers.insert(k as int, sub.1);
            lemma_table_loop_agree(h, g, depth as int, max_depth as int, a2, b2, assemble(close_moves@, old_orders),
                assemble(close_moves@, child_orders), assemble_answers(own, old_answers), assemble_answers(own, child_answers), k as int);
            lemma_table_loop_step(h, g, depth as int, max_depth as int, a2, b2, assemble(close_moves@, child_orders),
                assemble_answers(own, child_answers), k + 1);
        }
        if !child_finished {
            finished = false;
        }
        if hv > best_h {
            best_h = hv;
        }
        if depth == 0 && hv == best_h {
            if deadline_passed(t0, limit) {
                finished = false;
            } else {
                *best_move = pos;
            }
        }
        if best_h > beta {
            node_type = NodeType::Cut;
        } else if best_h > alpha {
            node_type = NodeType::PV;
        }
        if hv > alpha {
            alpha = hv;
        }
        k += 1;
        if best_h > beta {
            break;
        }
    }
    let ghost ord = assemble(close_moves@, child_orders);
    let ghost ans = assemble_answers(own, child_answers);
    proof {
        assert(ans(Seq::empty()) == own);
        if finished {
            if k < close_moves.len() {
                lemma_table_loop_cut(h, g, depth as int, max_depth as int, a2, b2, ord, ans, k as int, close_moves.len() as int);
            }
            lemma_table_search_unfold(h, g, depth as int, max_depth as int, a0, bb0, ord, ans);
        }
    }
    table_insert(table, key, CacheValue { depth, max_depth, value: best_h, node_type });
    (best_h, finished, Ghost((ord, ans)))
}

} // verus!
