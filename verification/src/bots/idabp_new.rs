use crate::bots::cache::{cache_get, cache_insert, new_cache, Cache};
use crate::bots::ordering::{rearranges, sort_by_values, stably_sorted};
use crate::bots::random_mover::random_mover;
use crate::bots::alpha_beta_pruning::{
    lemma_in_range_unfold, lemma_leaves_in_range, lemma_search_value_bounds, lemma_search_value_range,
    lemma_search_value_unfold, leaves_in_range, move_value, search_value,
};
use crate::bots::ordered::{
    assemble, lemma_assemble_insert, lemma_ordered_loop_agree, lemma_ordered_loop_cut, lemma_ordered_loop_step,
    lemma_ordered_search_unfold, ordered_loop, ordered_search, orders_ok, orders_ok_fold, recorded_move,
};
use crate::bots::{lemma_same_multiset_contains, leaf_spec, leaf_value, neg_wrap, negate};
use crate::clock::{elapsed_nanos, now};
use crate::game::board::{on_board, Position, BOARD_CENTER, BOARD_SIZE};
use crate::game::legal_moves::{lemma_legal_moves_playable, legal_moves_spec};
use crate::game::logic::{do_spec, lemma_playing_ply_bound, lemma_undo_do, valid_game};
use crate::game::Game;
use crate::game::logic::GameView;
use crate::heuristics::{valid_heuristic, Heuristic, HeuristicView};
use std::time::Instant;
use vstd::prelude::*;

verus! {

/// The cache key of the position after `pos` is played at `depth`: `key` with the number
/// `y * BOARD_SIZE + x + 1` of the move written from bit `9 * depth` on (the shift counts
/// modulo 128, as the wrapping shift does).
pub open spec fn cache_key_at(key: u128, depth: u32, pos: Position) -> u128 {
    key | vstd::wrapping::u128_specs::wrapping_shl(
        (pos.1 * 19 + pos.0 + 1) as u128,
        vstd::wrapping::u32_specs::wrapping_mul(depth, 9),
    )
}

/// The key under which the position after `pos`, played at `depth`, is cached.
pub fn update_cache_key_at(key: u128, depth: u32, pos: Position) -> (res: u128)
    requires
        on_board(pos.0 as int, pos.1 as int),
    ensures
        res == cache_key_at(key, depth, pos),
{
    let (x, y) = pos;
    let shift = depth.wrapping_mul(9);
    let bits_to_insert = (y * BOARD_SIZE + x + 1) as u128;
    key | bits_to_insert.wrapping_shl(shift)
}

/// The value a move played at `depth` is sorted by: what the cache holds for the position
/// after it, or `default_h` when it holds nothing.
pub open spec fn cached_value_at(cache: Map<u128, i64>, key: u128, depth: u32, pos: Position, default_h: i64) -> i64 {
    let k = cache_key_at(key, depth, pos);
    if cache.contains_key(k) { cache[k] } else { default_h }
}

/// The moves sorted by `cached_value_at`, smallest first; moves with equal values keep their
/// order.
pub fn sort_by_cached_value_at(moves: &Vec<Position>, cache: &Cache, key: u128, depth: u32, default_h: i64) -> (res: Vec<Position>)
    requires
        forall|i: int| 0 <= i < moves.len() ==> on_board(#[trigger] moves@[i].0 as int, moves@[i].1 as int),
    ensures
        res@.to_multiset() == moves@.to_multiset(),
        exists|perm: Seq<int>| #[trigger] rearranges(moves@, res@, perm) && stably_sorted(
            moves@.map_values(|p: Position| cached_value_at(cache@, key, depth, p, default_h)), perm),
{
    let mut values: Vec<i64> = Vec::new();
    let mut i: usize = 0;
    while i < moves.len()
        invariant
            i <= moves.len(),
            values.len() == i,
            forall|t: int| 0 <= t < moves.len() ==> on_board(#[trigger] moves@[t].0 as int, moves@[t].1 as int),
            forall|t: int| 0 <= t < i ==> #[trigger] values@[t] == cached_value_at(cache@, key, depth, moves@[t], default_h),
        decreases moves.len() - i,
    {
        let k = update_cache_key_at(key, depth, moves[i]);
        let v = match cache_get(cache, k) {
            Some(v) => v,
            None => default_h,
        };
        values.push(v);
        i += 1;
    }
    proof {
        assert(values@ =~= moves@.map_values(|p: Position| cached_value_at(cache@, key, depth, p, default_h)));
    }
    sort_by_values(moves, &values)
}

/// Whether `limit` nanoseconds passed since `t0`.
pub(crate) fn deadline_passed(t0: &Instant, limit: u128) -> bool {
    elapsed_nanos(t0) >= limit
}

/// The successive root moves of iterative deepening from `moves[0]`: the search to depth `d`
/// turns `moves[d]` into `moves[d + 1]`. When it finished before the deadline (`finished[d]`),
/// it tried the moves close to the stones of each position it visited in the orders
/// `orders[d]`, and `moves[d + 1]` is the move the alpha-beta search to depth `d` in the full
/// window records for those orders; otherwise `moves[d + 1]` is `moves[d]` or one of the moves
/// close to the stones.
pub open spec fn deepening_trace(
    h: HeuristicView,
    g: GameView,
    moves: Seq<Position>,
    finished: Seq<bool>,
    orders: Seq<spec_fn(Seq<int>) -> Seq<Position>>,
) -> bool {
    &&& moves.len() == finished.len() + 1
    &&& orders.len() == finished.len()
    &&& forall|d: int| 0 <= d < finished.len() ==> (#[trigger] finished[d] ==> orders_ok(h, g, 0, d, -i64::MAX,
        i64::MAX as int, orders[d]) && moves[d + 1] == recorded_move(h, g, d, -i64::MAX, i64::MAX as int, orders[d], moves[d]))
        && (!finished[d] ==> moves[d + 1] == moves[d] || (g.state is Playing && legal_moves_spec(g, true).contains(moves[d + 1])))
}

/// The iterative-deepening alpha-beta bot with a deadline: starts from a random move, then
/// searches to depth 0, 1, 2, ... until `time_limit_ms` milliseconds have passed, ordering
/// the moves by the values the previous depths cached; each search that finishes before the
/// deadline replaces the move by the one it records (see `deepening_trace`), and the move is
/// played when the deadline has passed after a search (the center on an empty board). The
/// game must have a legal move. Whatever the clock does, the move is a legal move.
pub fn idabp_new(game: &Game, heuristic: &Heuristic, time_limit_ms: u64) -> (res: Position)
    requires
        valid_game(game@),
        valid_heuristic(heuristic@),
        game@.ply > 0 ==> legal_moves_spec(game@, false).len() > 0,
    ensures
        game@.ply == 0 ==> res == BOARD_CENTER,
        game@.ply > 0 ==> legal_moves_spec(game@, false).contains(res) || (game@.state is Playing
            && legal_moves_spec(game@, true).contains(res)),
        game@.ply > 0 ==> exists|moves: Seq<Position>, finished: Seq<bool>, orders: Seq<spec_fn(Seq<int>) -> Seq<Position>>|
            #[trigger] deepening_trace(heuristic@, game@, moves, finished, orders) && legal_moves_spec(game@, false).contains(moves[0])
            && res == moves.last(),
{
    if game.ply == 0 {
        return BOARD_CENTER;
    }
    let ghost g = game@;
    let ghost h = heuristic@;
    let t0 = now();
    let limit = time_limit_ms as u128 * 1_000_000;
    let random_move = random_mover(game, heuristic);
    let mut search_game = game.copy();
    let mut cache = new_cache();
    let mut best_move = random_move;
    let ghost mut moves: Seq<Position> = seq![random_move];
    let ghost mut finished: Seq<bool> = Seq::empty();
    let ghost mut orders: Seq<spec_fn(Seq<int>) -> Seq<Position>> = Seq::empty();
    let mut max_depth: u32 = 0;
    while max_depth < u32::MAX
        invariant
            game@ == g,
            h == heuristic@,
            search_game@ == g,
            g.ply > 0,
            valid_game(g),
            valid_heuristic(heuristic@),
            legal_moves_spec(g, false).contains(best_move) || (g.state is Playing && legal_moves_spec(g, true).contains(best_move)),
            finished.len() == max_depth,
            deepening_trace(h, g, moves, finished, orders),
            moves[0] == random_move,
            legal_moves_spec(g, false).contains(random_move),
            moves.last() == best_move,
        decreases u32::MAX - max_depth,
    {
        let ghost before = best_move;
        let (_, done, Ghost(ord)) = alpha_beta_pruning_helper(
            &mut search_game,
            heuristic,
            0,
            max_depth,
            -i64::MAX,
            i64::MAX,
            &mut cache,
            0,
            &mut best_move,
            &t0,
            limit,
        );
        proof {
            let m0 = moves;
            let f0 = finished;
            let o0 = orders;
            moves = moves.push(best_move);
            finished = finished.push(done);
            orders = orders.push(ord);
            assert forall|d: int| 0 <= d < finished.len() implies (#[trigger] finished[d] ==> orders_ok(h, g, 0, d, -i64::MAX,
                i64::MAX as int, orders[d]) && moves[d + 1] == recorded_move(h, g, d, -i64::MAX, i64::MAX as int, orders[d], moves[d]))
                && (!finished[d] ==> moves[d + 1] == moves[d] || (g.state is Playing && legal_moves_spec(g, true).contains(moves[d + 1]))) by {
                if d < f0.len() {
                    assert(finished[d] == f0[d]);
                    assert(moves[d] == m0[d] && moves[d + 1] == m0[d + 1]);
                    assert(orders[d] == o0[d]);
                    assert(f0[d] ==> orders_ok(h, g, 0, d, -i64::MAX,
                        i64::MAX as int, o0[d]) && m0[d + 1] == recorded_move(h, g, d, -i64::MAX, i64::MAX as int, o0[d], m0[d]));
                } else {
                    assert(moves[d] == before);
                }
            }
            assert(moves[0] == m0[0]);
            assert(moves.last() == best_move);
            assert(deepening_trace(h, g, moves, finished, orders));
        }
        if deadline_passed(&t0, limit) {
            return best_move;
        }
        max_depth += 1;
    }
    best_move
}

#[verifier::spinoff_prover]
#[verifier::rlimit(80)]
fn alpha_beta_pruning_helper(
    game: &mut Game,
    heuristic: &Heuristic,
    depth: u32,
    max_depth: u32,
    min_h: i64,
    max_h: i64,
    cache: &mut Cache,
    key: u128,
    best_move: &mut Position,
    t0: &Instant,
    limit: u128,
) -> (res: (i64, bool, Ghost<spec_fn(Seq<int>) -> Seq<Position>>))
    requires
        valid_game(old(game)@),
        valid_heuristic(heuristic@),
        depth <= max_depth,
        -i64::MAX <= min_h,
        -i64::MAX <= max_h,
    ensures
        final(game)@ == old(game)@,
        depth > 0 ==> *final(best_move) == *old(best_move),
        depth == 0 ==> *final(best_move) == *old(best_move) || (old(game)@.state is Playing
            && legal_moves_spec(old(game)@, true).contains(*final(best_move))),
        (depth <= 3 && res.0 == 0 && final(cache)@ == old(cache)@) || (final(cache)@.contains_key(key)
            && final(cache)@[key] == res.0),
        leaf_spec(old(game)@, heuristic@, depth as int, max_depth as int) is Some ==> res.0 == leaf_spec(
            old(game)@, heuristic@, depth as int, max_depth as int).unwrap() || (depth <= 3 && res.0 == 0
            && final(cache)@ == old(cache)@),
        depth > 3 && min_h <= max_h ==> ({
            let v = search_value(heuristic@, old(game)@, depth as int, max_depth as int);
            &&& (res.0 == i64::MIN) <==> (v == i64::MIN)
            &&& res.0 <= min_h ==> v <= res.0
            &&& res.0 >= max_h ==> v >= res.0
            &&& min_h < res.0 < max_h ==> v == res.0
        }),
        depth > 3 ==> res.1,
        res.1 ==> orders_ok(heuristic@, old(game)@, depth as int, max_depth as int, min_h as int, max_h as int, res.2@),
        res.1 ==> res.0 == ordered_search(heuristic@, old(game)@, depth as int, max_depth as int, min_h as int, max_h as int, res.2@),
        res.1 && depth == 0 ==> *final(best_move) == recorded_move(heuristic@, old(game)@, max_depth as int, min_h as int,
            max_h as int, res.2@, *old(best_move)),
    decreases max_depth - depth,
{
    let ghost g = game@;
    let ghost b0 = *best_move;
    let ghost h = heuristic@;
    let ghost a0 = min_h as int;
    let ghost bb = max_h as int;
    let ghost no_orders = |p: Seq<int>| Seq::<Position>::empty();
    if depth <= 3 && deadline_passed(t0, limit) {
        return (0, false, Ghost(no_orders));
    }
    proof {
        lemma_leaves_in_range(h, g, depth as int, max_depth as int);
        lemma_search_value_unfold(h, g, depth as int, max_depth as int);
    }
    if let Some(v) = leaf_value(game, heuristic, depth as usize, max_depth as usize) {
        cache_insert(cache, key, v);
        proof {
            lemma_ordered_search_unfold(h, g, depth as int, max_depth as int, a0, bb, no_orders);
        }
        return (v, true, Ghost(no_orders));
    }
    let mut close_moves = game.get_legal_moves(Some(2), false);
    let ghost spec_moves = legal_moves_spec(g, true);
    proof {
        assert forall|i: int| 0 <= i < close_moves.len() implies on_board(#[trigger] close_moves@[i].0 as int, close_moves@[i].1 as int) by {
            lemma_legal_moves_playable(g, true, i);
        }
    }
    if depth + 1 < max_depth {
        let default_h = max_h / 2;
        close_moves = sort_by_cached_value_at(&close_moves, cache, key, depth, default_h);
    }
    let ghost mut children: Map<int, spec_fn(Seq<int>) -> Seq<Position>> = Map::empty();
    let mut finished = true;
    let mut min_h = min_h;
    let mut best_h: i64 = i64::MIN;
    let mut k: usize = 0;
    while k < close_moves.len()
        invariant_except_break
            best_h <= max_h,
        invariant
            bb == max_h as int,
            depth > 3 ==> finished,
            finished ==> ({
                let s = ordered_loop(h, g, depth as int, max_depth as int, a0, bb, assemble(close_moves@, children), k as int);
                &&& s.best == best_h
                &&& s.alpha == min_h
                &&& s.cut == (best_h > max_h)
                &&& depth == 0 && k > 0 ==> s.chosen == *best_move
            }),
            finished ==> orders_ok_fold(h, g, depth as int, max_depth as int, a0, bb, assemble(close_moves@, children), k as int),
            k <= close_moves.len(),
            game@ == g,
            h == heuristic@,
            valid_game(g),
            valid_heuristic(heuristic@),
            depth < max_depth,
            g.state is Playing,
            leaf_spec(g, h, depth as int, max_depth as int) is None,
            spec_moves == legal_moves_spec(g, true),
            close_moves@.to_multiset() == spec_moves.to_multiset(),
            -i64::MAX <= a0,
            -i64::MAX <= max_h,
            min_h == (if best_h > a0 { best_h as int } else { a0 }),
            k == 0 ==> best_h == i64::MIN,
            leaves_in_range(h, g, depth as int, max_depth as int),
            forall|i: int| 0 <= i < k ==> i64::MIN <= #[trigger] move_value(h, g, depth as int, max_depth as int, close_moves@[i]) <= i64::MAX,
            depth > 3 && a0 <= max_h && best_h == i64::MIN ==> forall|i: int| 0 <= i < k ==> #[trigger] move_value(h, g, depth as int, max_depth as int, close_moves@[i]) == i64::MIN,
            depth > 3 && a0 <= max_h && best_h != i64::MIN ==> exists|i: int| 0 <= i < k && #[trigger] move_value(h, g, depth as int, max_depth as int, close_moves@[i]) != i64::MIN,
            depth > 3 && a0 <= max_h && (best_h <= a0 || best_h < max_h) ==> forall|i: int| 0 <= i < k ==> #[trigger] move_value(h, g, depth as int, max_depth as int, close_moves@[i]) <= best_h,
            depth > 3 && a0 <= max_h && a0 < best_h < max_h ==> exists|i: int| 0 <= i < k && #[trigger] move_value(h, g, depth as int, max_depth as int, close_moves@[i]) == best_h,
            depth > 3 && a0 <= max_h && best_h >= max_h ==> exists|i: int| 0 <= i < k && #[trigger] move_value(h, g, depth as int, max_depth as int, close_moves@[i]) >= best_h,
            depth > 0 ==> *best_move == b0,
            depth == 0 ==> *best_move == b0 || spec_moves.contains(*best_move),
        ensures
            best_h > max_h || k == close_moves.len(),
            k > 0 || close_moves.len() == 0,
        decreases close_moves.len() - k,
    {
        let pos = close_moves[k];
        let (x, y) = pos;
        let ghost m = close_moves@[k as int];
        proof {
            assert(close_moves@.contains(close_moves@[k as int]));
            lemma_same_multiset_contains(close_moves@, spec_moves, pos);
            let i = choose|i: int| 0 <= i < spec_moves.len() && spec_moves[i] == pos;
            lemma_legal_moves_playable(g, true, i);
            lemma_playing_ply_bound(g);
            lemma_undo_do(g, x as int, y as int);
            lemma_in_range_unfold(h, g, depth as int, max_depth as int, i);
            lemma_search_value_range(h, do_spec(g, x as int, y as int), depth + 1, max_depth as int);
        }
        let new_key = update_cache_key_at(key, depth, pos);
        game.do_move(x, y);
        let (c, child_finished, Ghost(child_orders)) = alpha_beta_pruning_helper(
            game, heuristic, depth + 1, max_depth, -max_h, -min_h, cache, new_key, best_move, t0, limit);
        let hv = negate(c);
        game.undo_last_move();
        let ghost old_children = children;
        proof {
            lemma_assemble_insert(close_moves@, children, k as int, child_orders);
            children = children.insert(k as int, child_orders);
            let o1 = assemble(close_moves@, old_children);
            let o2 = assemble(close_moves@, children);
            lemma_ordered_loop_agree(h, g, depth as int, max_depth as int, a0, bb, o1, o2, k as int);
            lemma_ordered_loop_step(h, g, depth as int, max_depth as int, a0, bb, o2, k + 1);
        }
        if !child_finished {
            finished = false;
        }
        let ghost old_best = best_h;
        let ghost alpha = min_h;
        proof {
            let vc = search_value(h, do_spec(g, x as int, y as int), depth + 1, max_depth as int);
            assert(m == (x, y));
            assert(move_value(h, g, depth as int, max_depth as int, m) == neg_wrap(vc));
        }
        if hv > best_h {
            best_h = hv;
        }
        if depth == 0 && hv == best_h {
            if deadline_passed(t0, limit) {
                finished = false;
            } else {
                *best_move = pos;
            }
        }
        proof {
            let kk = k as int;
            let cv = move_value(h, g, depth as int, max_depth as int, m);
            assert(close_moves@[kk] == m);
            if depth > 3 && a0 <= max_h {
                assert((hv == i64::MIN) <==> (cv == i64::MIN));
                assert(hv <= alpha ==> cv <= hv);
                assert(hv >= max_h ==> cv >= hv);
                assert(alpha < hv < max_h ==> cv == hv);
                if best_h != i64::MIN && hv != i64::MIN {
                    assert(move_value(h, g, depth as int, max_depth as int, close_moves@[kk]) != i64::MIN);
                }
                if a0 < best_h < max_h && hv > old_best {
                    assert(move_value(h, g, depth as int, max_depth as int, close_moves@[kk]) == best_h);
                }
                if best_h >= max_h && hv == best_h {
                    assert(move_value(h, g, depth as int, max_depth as int, close_moves@[kk]) >= best_h);
                }
            }
        }
        if hv > min_h {
            min_h = hv;
        }
        k += 1;
        if best_h > max_h {
            break;
        }
    }
    proof {
        if spec_moves.len() > 0 {
            close_moves@.to_multiset_ensures();
            spec_moves.to_multiset_ensures();
            assert(spec_moves.to_multiset().count(spec_moves[0]) > 0);
            assert(close_moves@.len() > 0);
        }
        lemma_search_value_bounds(h, g, depth as int, max_depth as int, close_moves@);
    }
    let ghost ord = assemble(close_moves@, children);
    proof {
        if finished {
            if k < close_moves.len() {
                lemma_ordered_loop_cut(h, g, depth as int, max_depth as int, a0, bb, ord, k as int, close_moves.len() as int);
            }
            lemma_ordered_search_unfold(h, g, depth as int, max_depth as int, a0, bb, ord);
        }
    }
    cache_insert(cache, key, best_h);
    (best_h, finished, Ghost(ord))
}

} // verus!
