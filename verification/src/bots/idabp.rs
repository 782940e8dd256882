use crate::bots::cache::{cache_get, cache_insert, new_cache, Cache};
use crate::bots::ordering::{rearranges, sort_by_values, stably_sorted};
use crate::bots::ordered::{
    assemble, lemma_assemble_insert, lemma_ordered_loop_agree, lemma_ordered_loop_cut, lemma_ordered_loop_step, lemma_ordered_search_unfold, ordered_choice,
    ordered_loop, ordered_search, orders_ok, orders_ok_fold, suborders,
};
use crate::bots::{lemma_same_multiset_contains, leaf_spec, leaf_value, negate, MAX_DEPTH, TIME_LIMIT_MS};
use crate::clock::{elapsed_nanos, now};
use crate::game::board::{on_board, Position, BOARD_CENTER, BOARD_SIZE};
use crate::game::legal_moves::{lemma_legal_moves_playable, legal_moves_spec};
use crate::game::logic::{lemma_playing_ply_bound, lemma_undo_do, valid_game};
use crate::game::state::GameState;
use crate::game::Game;
use crate::game::logic::GameView;
use crate::heuristics::{valid_heuristic, Heuristic, HeuristicView};
use std::time::Instant;
use vstd::prelude::*;

verus! {

/// The cache key after the move `pos`: the previous key moved up by nine bits (the bits
/// above 128 are lost), with `y * BOARD_SIZE + x + 1` below them.
pub open spec fn cache_key_after(key: u128, pos: Position) -> int {
    (key % 0x80_0000_0000_0000_0000_0000_0000_0000) * 512 + pos.1 * 19 + pos.0 + 1
}

/// The key under which the position after `pos` is cached.
pub fn update_cache_key(cache_key: u128, pos: Position) -> (res: u128)
    requires
        on_board(pos.0 as int, pos.1 as int),
    ensures
        res == cache_key_after(cache_key, pos),
{
    let (x, y) = pos;
    let v = (y * BOARD_SIZE + x + 1) as u128;
    assert(((cache_key << 9u32) | v) == (cache_key % 0x80_0000_0000_0000_0000_0000_0000_0000) * 512 + v)
        by (bit_vector)
        requires
            v < 512,
    ;
    (cache_key << 9u32) | v
}

/// The value a move is sorted by: what the cache holds for the position after it, or
/// `default_h` when it holds nothing.
pub open spec fn cached_value(cache: Map<u128, i64>, cache_key: u128, pos: Position, default_h: i64) -> i64 {
    let k = cache_key_after(cache_key, pos) as u128;
    if cache.contains_key(k) { cache[k] } else { default_h }
}

/// The moves sorted by `cached_value`, smallest first; moves with equal values keep their
/// order.
pub fn sort_by_cached_value(moves: &Vec<Position>, cache: &Cache, cache_key: u128, default_h: i64) -> (res: Vec<Position>)
    requires
        forall|i: int| 0 <= i < moves.len() ==> on_board(#[trigger] moves@[i].0 as int, moves@[i].1 as int),
    ensures
        res@.to_multiset() == moves@.to_multiset(),
        exists|perm: Seq<int>| #[trigger] rearranges(moves@, res@, perm) && stably_sorted(
            moves@.map_values(|p: Position| cached_value(cache@, cache_key, p, default_h)), perm),
{
    let mut values: Vec<i64> = Vec::new();
    let mut i: usize = 0;
    while i < moves.len()
        invariant
            i <= moves.len(),
            values.len() == i,
            forall|t: int| 0 <= t < moves.len() ==> on_board(#[trigger] moves@[t].0 as int, moves@[t].1 as int),
            forall|t: int| 0 <= t < i ==> #[trigger] values@[t] == cached_value(cache@, cache_key, moves@[t], default_h),
        decreases moves.len() - i,
    {
        let key = update_cache_key(cache_key, moves[i]);
        let v = match cache_get(cache, key) {
            Some(v) => v,
            None => default_h,
        };
        values.push(v);
        i += 1;
    }
    proof {
        assert(values@ =~= moves@.map_values(|p: Position| cached_value(cache@, cache_key, p, default_h)));
    }
    sort_by_values(moves, &values)
}

/// Whether more than `TIME_LIMIT_MS` milliseconds passed since `t0`.
fn time_is_up(t0: &Instant) -> bool {
    elapsed_nanos(t0) > TIME_LIMIT_MS as u128 * 1_000_000
}

/// The placeholder for "no move chosen".
pub open spec fn no_move() -> Position {
    (usize::MAX, usize::MAX)
}

/// The index of the first search, from the `i`-th on, that did not end in time (the number of
/// searches when all of them did).
pub open spec fn first_late(in_time: Seq<bool>, i: int) -> int
    decreases in_time.len() - i,
{
    if 0 <= i < in_time.len() && in_time[i] { first_late(in_time, i + 1) } else { i }
}

/// The first move chosen by a search, from the `i`-th on.
pub open spec fn first_chosen(choices: Seq<Position>, i: int) -> Option<Position>
    decreases choices.len() - i,
{
    if !(0 <= i < choices.len()) {
        None
    } else if choices[i] != no_move() {
        Some(choices[i])
    } else {
        first_chosen(choices, i + 1)
    }
}

/// The move of iterative deepening, given the move `choices[d]` that the search to depth `d`
/// chose and whether it ended in time (`in_time[d]`): the choice of the deepest search of
/// those that ended in time one after the other from the first; when it chose nothing, the
/// first move any search chose; when none chose one, `fallback`.
pub open spec fn deepening_choice(choices: Seq<Position>, in_time: Seq<bool>, fallback: Position) -> Position {
    let k = first_late(in_time, 0);
    if 0 < k <= choices.len() && choices[k - 1] != no_move() {
        choices[k - 1]
    } else {
        match first_chosen(choices, 0) {
            Some(m) => m,
            None => fallback,
        }
    }
}

/// The move that iterative deepening plays (see `deepening_choice`): it is `fallback` or a
/// move that one of the searches chose.
pub fn deepening_move(choices: &Vec<Position>, in_time: &Vec<bool>, fallback: Position) -> (res: Position)
    requires
        choices.len() == in_time.len(),
    ensures
        res == deepening_choice(choices@, in_time@, fallback),
        res == fallback || (res != no_move() && choices@.contains(res)),
{
    let mut k: usize = 0;
    while k < in_time.len() && in_time[k]
        invariant
            k <= in_time.len(),
            first_late(in_time@, k as int) == first_late(in_time@, 0),
        decreases in_time.len() - k,
    {
        k += 1;
    }
    if k > 0 && !(choices[k - 1].0 == usize::MAX && choices[k - 1].1 == usize::MAX) {
        proof {
            assert(choices@.contains(choices@[k - 1]));
        }
        return choices[k - 1];
    }
    assert(k == first_late(in_time@, 0));
    let mut i: usize = 0;
    while i < choices.len()
        invariant
            i <= choices.len(),
            choices.len() == in_time.len(),
            k == first_late(in_time@, 0),
            k <= choices.len(),
            !(k > 0 && choices@[k - 1] != no_move()),
            first_chosen(choices@, i as int) == first_chosen(choices@, 0),
        decreases choices.len() - i,
    {
        if !(choices[i].0 == usize::MAX && choices[i].1 == usize::MAX) {
            proof {
                assert(choices@.contains(choices@[i as int]));
            }
            return choices[i];
        }
        i += 1;
    }
    fallback
}

/// The iterative-deepening alpha-beta bot: searches to depth 0, 1, ... up to `MAX_DEPTH`,
/// ordering the moves by the values cached at the previous depth, until a search ends after
/// `TIME_LIMIT_MS`; it plays the move `deepening_move` picks from what the searches chose,
/// with the first move close to the stones to fall back on (the center on an empty board).
/// A search counts as in time when it finished and the clock had not run out after it; the
/// move each such search chose is the root choice of the alpha-beta search at its depth,
/// for the orders in which it tried the moves. While the game goes on and a move close to
/// the stones exists, the move is one of them.
pub fn idabp(game: &Game, heuristic: &Heuristic) -> (res: Position)
    requires
        valid_game(game@),
        valid_heuristic(heuristic@),
    ensures
        game@.ply == 0 ==> res == BOARD_CENTER,
        game@.ply > 0 && game@.state is Playing && legal_moves_spec(game@, true).len() > 0 ==> legal_moves_spec(
            game@,
            true,
        ).contains(res),
        game@.ply > 0 && !(game@.state is Playing && legal_moves_spec(game@, true).len() > 0) ==> res == no_move(),
        game@.ply > 0 ==> exists|choices: Seq<Position>, in_time: Seq<bool>, orders: Seq<spec_fn(Seq<int>) -> Seq<Position>>|
            #[trigger] deepening_searches(heuristic@, game@, choices, in_time, orders) && res == deepening_choice(
                choices,
                in_time,
                idabp_fallback(game@),
            ),
{
    if game.ply == 0 {
        return BOARD_CENTER;
    }
    let ghost g = game@;
    let ghost h = heuristic@;
    let t0 = now();
    let mut cache = new_cache();
    let mut game = game.copy();
    let mut choices: Vec<Position> = Vec::new();
    let mut in_time: Vec<bool> = Vec::new();
    let ghost mut orders: Seq<spec_fn(Seq<int>) -> Seq<Position>> = Seq::empty();
    let mut max_depth: usize = 0;
    while max_depth <= MAX_DEPTH
        invariant_except_break
            choices.len() == max_depth,
        invariant
            game@ == g,
            h == heuristic@,
            valid_game(g),
            valid_heuristic(heuristic@),
            choices.len() == in_time.len(),
            choices.len() == orders.len(),
            forall|i: int| 0 <= i < choices.len() ==> #[trigger] choices@[i] == no_move() || (g.state is Playing
                && legal_moves_spec(g, true).contains(choices@[i])),
            deepening_searches(h, g, choices@, in_time@, orders),
        decreases MAX_DEPTH + 1 - max_depth,
    {
        let mut best_move_at_depth: Position = (usize::MAX, usize::MAX);
        let (_, finished, Ghost(ord)) = alpha_beta_pruning_helper(
            &mut game,
            heuristic,
            0,
            max_depth,
            -i64::MAX,
            i64::MAX,
            &mut best_move_at_depth,
            &mut cache,
            0,
            &t0,
        );
        let late = time_is_up(&t0);
        let ghost prev_choices = choices@;
        let ghost prev_in_time = in_time@;
        let ghost prev_orders = orders;
        choices.push(best_move_at_depth);
        in_time.push(finished && !late);
        proof {
            orders = orders.push(ord);
            assert forall|d: int| 0 <= d < choices.len() && #[trigger] in_time@[d] implies orders_ok(h, g, 0, d, -i64::MAX,
                i64::MAX as int, orders[d]) && choices@[d] == ordered_choice(h, g, d, -i64::MAX, i64::MAX as int, orders[d]) by {
                if d < prev_choices.len() {
                    assert(prev_in_time[d] == in_time@[d]);
                    assert(prev_choices[d] == choices@[d]);
                    assert(prev_orders[d] == orders[d]);
                }
            }
        }
        if late {
            break;
        }
        max_depth += 1;
    }
    let close_moves = game.get_legal_moves(Some(2), false);
    let playing = match &game.state {
        GameState::Playing(_) => true,
        _ => false,
    };
    let fallback = if playing && close_moves.len() > 0 { close_moves[0] } else { (usize::MAX, usize::MAX) };
    let res = deepening_move(&choices, &in_time, fallback);
    proof {
        assert(fallback == idabp_fallback(g));
        if res != fallback {
            let i = choose|i: int| 0 <= i < choices.len() && choices@[i] == res;
            assert(choices@[i] == no_move() || (g.state is Playing && legal_moves_spec(g, true).contains(choices@[i])));
        } else if playing && close_moves.len() > 0 {
            assert(close_moves@.contains(close_moves@[0]));
        }
        assert(deepening_searches(h, g, choices@, in_time@, orders));
    }
    res
}

/// The move `idabp` falls back on: the first move close to the stones while the game goes
/// on, or none.
pub open spec fn idabp_fallback(g: GameView) -> Position {
    if g.state is Playing && legal_moves_spec(g, true).len() > 0 { legal_moves_spec(g, true)[0] } else { no_move() }
}

/// The searches to depth `0, 1, ...` of iterative deepening: search `d` chose `choices[d]`;
/// when it counts as in time, it tried the moves close to the stones of each position it
/// visited in the orders `orders[d]`, and `choices[d]` is the move that the alpha-beta search
/// to depth `d` in the full window records for those orders.
pub open spec fn deepening_searches(
    h: HeuristicView,
    g: GameView,
    choices: Seq<Position>,
    in_time: Seq<bool>,
    orders: Seq<spec_fn(Seq<int>) -> Seq<Position>>,
) -> bool {
    &&& choices.len() == in_time.len() == orders.len()
    &&& forall|d: int| 0 <= d < choices.len() && #[trigger] in_time[d] ==> orders_ok(h, g, 0, d, -i64::MAX,
        i64::MAX as int, orders[d]) && choices[d] == ordered_choice(h, g, d, -i64::MAX, i64::MAX as int, orders[d])
}

/// The alpha-beta search of `game` from `depth` to `max_depth` in the window
/// `min_h ..= max_h`, ordering the moves by the values cached at the previous depth; at the
/// root it records the best move. It also says whether it finished before the time limit
/// and, as a ghost, the orders in which it tried the moves. A search that finished returns
/// `ordered_search` for those orders (which are orders of the moves close to the stones) and
/// records `ordered_choice`; one that ran out of time returns `min_h` where it stopped.
#[verifier::spinoff_prover]
#[verifier::rlimit(80)]
fn alpha_beta_pruning_helper(
    game: &mut Game,
    heuristic: &Heuristic,
    depth: usize,
    max_depth: usize,
    min_h: i64,
    max_h: i64,
    best_move: &mut Position,
    cache: &mut Cache,
    cache_key: u128,
    t0: &Instant,
) -> (res: (i64, bool, Ghost<spec_fn(Seq<int>) -> Seq<Position>>))
    requires
        valid_game(old(game)@),
        valid_heuristic(heuristic@),
        depth <= max_depth <= MAX_DEPTH,
        -i64::MAX <= min_h,
        -i64::MAX <= max_h,
        depth == 0 ==> *old(best_move) == no_move(),
    ensures
        final(game)@ == old(game)@,
        depth > 0 ==> *final(best_move) == *old(best_move),
        depth == 0 ==> *final(best_move) == *old(best_move) || (old(game)@.state is Playing
            && legal_moves_spec(old(game)@, true).contains(*final(best_move))),
        leaf_spec(old(game)@, heuristic@, depth as int, max_depth as int) is Some ==> (res.0 == leaf_spec(
            old(game)@, heuristic@, depth as int, max_depth as int).unwrap() && final(cache)@ == old(cache)@.insert(
            cache_key, res.0)) || (res.0 == min_h && final(cache)@ == old(cache)@),
        res.1 ==> orders_ok(heuristic@, old(game)@, depth as int, max_depth as int, min_h as int, max_h as int, res.2@),
        res.1 ==> res.0 == ordered_search(heuristic@, old(game)@, depth as int, max_depth as int, min_h as int, max_h as int, res.2@),
        res.1 && depth == 0 ==> *final(best_move) == ordered_choice(heuristic@, old(game)@, max_depth as int, min_h as int,
            max_h as int, res.2@),
    decreases max_depth - depth,
{
    let ghost g = game@;
    let ghost b0 = *best_move;
    let ghost h = heuristic@;
    let ghost a0 = min_h as int;
    let ghost bb = max_h as int;
    let ghost no_orders = |p: Seq<int>| Seq::<Position>::empty();
    if time_is_up(t0) {
        return (min_h, false, Ghost(no_orders));
    }
    if let Some(v) = leaf_value(game, heuristic, depth, max_depth) {
        cache_insert(cache, cache_key, v);
        proof {
            lemma_ordered_search_unfold(h, g, depth as int, max_depth as int, a0, bb, no_orders);
        }
        return (v, true, Ghost(no_orders));
    }
    let mut close_moves = game.get_legal_moves(Some(2), depth == 0);
    let ghost spec_moves = legal_moves_spec(g, true);
    proof {
        assert forall|i: int| 0 <= i < close_moves.len() implies on_board(#[trigger] close_moves@[i].0 as int, close_moves@[i].1 as int) by {
            assert(close_moves@.contains(close_moves@[i]));
            lemma_same_multiset_contains(close_moves@, spec_moves, close_moves@[i]);
            let t = choose|t: int| 0 <= t < spec_moves.len() && spec_moves[t] == close_moves@[i];
            lemma_legal_moves_playable(g, true, t);
        }
    }
    if depth + 1 < max_depth {
        let default_h = max_h / 2;
        close_moves = sort_by_cached_value(&close_moves, cache, cache_key, default_h);
    }
    let ghost mut children: Map<int, spec_fn(Seq<int>) -> Seq<Position>> = Map::empty();
    let mut finished = true;
    let mut min_h = min_h;
    let mut best_h: i64 = i64::MIN;
    let mut k: usize = 0;
    while k < close_moves.len()
        invariant_except_break
            best_h <= max_h,
        invariant
            k <= close_moves.len(),
            game@ == g,
            h == heuristic@,
            valid_game(g),
            valid_heuristic(heuristic@),
            depth < max_depth <= MAX_DEPTH,
            g.state is Playing,
            leaf_spec(g, h, depth as int, max_depth as int) is None,
            spec_moves == legal_moves_spec(g, true),
            close_moves@.to_multiset() == spec_moves.to_multiset(),
            -i64::MAX <= a0,
            -i64::MAX <= min_h,
            -i64::MAX <= max_h,
            bb == max_h as int,
            min_h == (if best_h > a0 { best_h as int } else { a0 }),
            depth > 0 ==> *best_move == b0,
            depth == 0 ==> *best_move == b0 || spec_moves.contains(*best_move),
            finished ==> ({
                let s = ordered_loop(h, g, depth as int, max_depth as int, a0, bb, assemble(close_moves@, children), k as int);
                &&& s.best == best_h
                &&& s.alpha == min_h
                &&& s.cut == (best_h > max_h)
                &&& depth == 0 ==> s.chosen == *best_move
            }),
            finished ==> orders_ok_fold(h, g, depth as int, max_depth as int, a0, bb, assemble(close_moves@, children), k as int),
        ensures
            best_h > max_h || k == close_moves.len(),
        decreases close_moves.len() - k,
    {
        let pos = close_moves[k];
        let (x, y) = pos;
        proof {
            assert(close_moves@.contains(close_moves@[k as int]));
            lemma_same_multiset_contains(close_moves@, spec_moves, pos);
            let i = choose|i: int| 0 <= i < spec_moves.len() && spec_moves[i] == pos;
            lemma_legal_moves_playable(g, true, i);
            lemma_playing_ply_bound(g);
            lemma_undo_do(g, x as int, y as int);
        }
        let next_key = update_cache_key(cache_key, pos);
        game.do_move(x, y);
        let (c, child_finished, Ghost(child_orders)) = alpha_beta_pruning_helper(
            game, heuristic, depth + 1, max_depth, -max_h, -min_h, best_move, cache, next_key, t0);
        let hv = negate(c);
        game.undo_last_move();
        let ghost old_children = children;
        proof {
            lemma_assemble_insert(close_moves@, children, k as int, child_orders);
            children = children.insert(k as int, child_orders);
            let o1 = assemble(close_moves@, old_children);
            let o2 = assemble(close_moves@, children);
            lemma_ordered_loop_agree(h, g, depth as int, max_depth as int, a0, bb, o1, o2, k as int);
            lemma_ordered_loop_step(h, g, depth as int, max_depth as int, a0, bb, o2, k + 1);
        }
        if !child_finished {
            finished = false;
        }
        if hv > best_h {
            best_h = hv;
        }
        if depth == 0 && hv == best_h {
            *best_move = pos;
        }
        if hv > min_h {
            min_h = hv;
        }
        proof {
            assert(close_moves@.contains(close_moves@[k as int]));
        }
        k += 1;
        if best_h > max_h {
            break;
        }
    }
    let ghost ord = assemble(close_moves@, children);
    proof {
        if finished {
            if k < close_moves.len() {
                lemma_ordered_loop_cut(h, g, depth as int, max_depth as int, a0, bb, ord, k as int, close_moves.len() as int);
            }
            lemma_ordered_search_unfold(h, g, depth as int, max_depth as int, a0, bb, ord);
        }
    }
    (best_h, finished, Ghost(ord))
}

} // verus!
