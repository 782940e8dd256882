use crate::bots::alpha_beta_pruning::WindowState;
use crate::bots::{leaf_spec, neg_wrap};
use crate::game::board::Position;
use crate::game::legal_moves::legal_moves_spec;
use crate::game::logic::{do_spec, GameView};
use crate::heuristics::HeuristicView;
use vstd::prelude::*;

verus! {

/// The orders of the moves below the `i`-th move of the root.
pub open spec fn suborders(ord: spec_fn(Seq<int>) -> Seq<Position>, i: int) -> spec_fn(Seq<int>) -> Seq<Position> {
    |p: Seq<int>| ord(seq![i] + p)
}

/// The value that an alpha-beta search of `g`, from `depth` down to `max_depth` in the window
/// `alpha ..= beta`, returns when it tries the moves of each position in the order `ord`
/// gives (`ord(p)` for the position reached by the moves of indices `p`): a leaf value, or the
/// best value the loop over the moves reached.
#[verifier::opaque]
pub open spec fn ordered_search(
    h: HeuristicView,
    g: GameView,
    depth: int,
    max_depth: int,
    alpha: int,
    beta: int,
    ord: spec_fn(Seq<int>) -> Seq<Position>,
) -> int
    decreases max_depth - depth, ord(Seq::empty()).len() + 1,
{
    match leaf_spec(g, h, depth, max_depth) {
        Some(v) => v,
        None => if 0 <= depth < max_depth {
            ordered_loop(h, g, depth, max_depth, alpha, beta, ord, ord(Seq::empty()).len() as int).best
        } else {
            i64::MIN as int
        },
    }
}

/// The alpha-beta loop over the first `k` moves of `ord(Seq::empty())`: each move not cut off
/// gets the negated value of the search after it in the window `-beta ..= -alpha`, with
/// `alpha` raised to the best value so far; a best value above `beta` stops the loop; a move
/// whose value equals the best so far is recorded.
pub open spec fn ordered_loop(
    h: HeuristicView,
    g: GameView,
    depth: int,
    max_depth: int,
    alpha: int,
    beta: int,
    ord: spec_fn(Seq<int>) -> Seq<Position>,
    k: int,
) -> WindowState
    decreases max_depth - depth, k,
{
    if k <= 0 || !(0 <= depth < max_depth) {
        WindowState { best: i64::MIN as int, alpha, cut: false, chosen: (usize::MAX, usize::MAX) }
    } else {
        let s = ordered_loop(h, g, depth, max_depth, alpha, beta, ord, k - 1);
        if s.cut {
            s
        } else {
            let m = ord(Seq::empty())[k - 1];
            let g2 = do_spec(g, m.0 as int, m.1 as int);
            let v = neg_wrap(ordered_search(h, g2, depth + 1, max_depth, -beta, -s.alpha, suborders(ord, k - 1)));
            let best = if v > s.best { v } else { s.best };
            WindowState {
                best,
                alpha: if best > s.alpha { best } else { s.alpha },
                cut: best > beta,
                chosen: if v == best { m } else { s.chosen },
            }
        }
    }
}

/// The move that the search records at the root: the last move whose value was the best so
/// far, or `(usize::MAX, usize::MAX)` when the position is a leaf.
pub open spec fn ordered_choice(h: HeuristicView, g: GameView, max_depth: int, alpha: int, beta: int, ord: spec_fn(Seq<int>) -> Seq<Position>) -> Position {
    if leaf_spec(g, h, 0, max_depth) is Some {
        (usize::MAX, usize::MAX)
    } else {
        ordered_loop(h, g, 0, max_depth, alpha, beta, ord, ord(Seq::empty()).len() as int).chosen
    }
}

/// Every position that the search of `g` visits tries exactly its moves close to the
/// stones, in some order.
#[verifier::opaque]
pub open spec fn orders_ok(
    h: HeuristicView,
    g: GameView,
    depth: int,
    max_depth: int,
    alpha: int,
    beta: int,
    ord: spec_fn(Seq<int>) -> Seq<Position>,
) -> bool
    decreases max_depth - depth, ord(Seq::empty()).len() + 1,
{
    leaf_spec(g, h, depth, max_depth) is Some || !(0 <= depth < max_depth) || (ord(Seq::empty()).to_multiset()
        == legal_moves_spec(g, true).to_multiset() && orders_ok_fold(h, g, depth, max_depth, alpha, beta, ord,
        ord(Seq::empty()).len() as int))
}

/// The positions after the first `k` moves that the loop did not cut off are searched in
/// orders that are all right.
pub open spec fn orders_ok_fold(
    h: HeuristicView,
    g: GameView,
    depth: int,
    max_depth: int,
    alpha: int,
    beta: int,
    ord: spec_fn(Seq<int>) -> Seq<Position>,
    k: int,
) -> bool
    decreases max_depth - depth, k,
{
    if k <= 0 || !(0 <= depth < max_depth) {
        true
    } else {
        let s = ordered_loop(h, g, depth, max_depth, alpha, beta, ord, k - 1);
        let m = ord(Seq::empty())[k - 1];
        orders_ok_fold(h, g, depth, max_depth, alpha, beta, ord, k - 1) && (s.cut || orders_ok(h, do_spec(
            g,
            m.0 as int,
            m.1 as int,
        ), depth + 1, max_depth, -beta, -s.alpha, suborders(ord, k - 1)))
    }
}

/// One step of the definition of `ordered_search`.
pub proof fn lemma_ordered_search_unfold(h: HeuristicView, g: GameView, depth: int, max_depth: int, alpha: int, beta: int, ord: spec_fn(Seq<int>) -> Seq<Position>)
    ensures
        ordered_search(h, g, depth, max_depth, alpha, beta, ord) == (match leaf_spec(g, h, depth, max_depth) {
            Some(v) => v,
            None => if 0 <= depth < max_depth {
                ordered_loop(h, g, depth, max_depth, alpha, beta, ord, ord(Seq::empty()).len() as int).best
            } else {
                i64::MIN as int
            },
        }),
        orders_ok(h, g, depth, max_depth, alpha, beta, ord) == (leaf_spec(g, h, depth, max_depth) is Some || !(0 <= depth
            < max_depth) || (ord(Seq::empty()).to_multiset() == legal_moves_spec(g, true).to_multiset() && orders_ok_fold(
            h, g, depth, max_depth, alpha, beta, ord, ord(Seq::empty()).len() as int))),
{
    reveal(ordered_search);
    reveal(orders_ok);
}

/// One step of the definitions of `ordered_loop` and `orders_ok_fold`.
pub proof fn lemma_ordered_loop_step(h: HeuristicView, g: GameView, depth: int, max_depth: int, alpha: int, beta: int, ord: spec_fn(Seq<int>) -> Seq<Position>, k: int)
    requires
        0 < k,
        0 <= depth < max_depth,
    ensures
        ordered_loop(h, g, depth, max_depth, alpha, beta, ord, k) == ({
            let s = ordered_loop(h, g, depth, max_depth, alpha, beta, ord, k - 1);
            if s.cut {
                s
            } else {
                let m = ord(Seq::empty())[k - 1];
                let g2 = do_spec(g, m.0 as int, m.1 as int);
                let v = neg_wrap(ordered_search(h, g2, depth + 1, max_depth, -beta, -s.alpha, suborders(ord, k - 1)));
                let best = if v > s.best { v } else { s.best };
                WindowState {
                    best,
                    alpha: if best > s.alpha { best } else { s.alpha },
                    cut: best > beta,
                    chosen: if v == best { m } else { s.chosen },
                }
            }
        }),
        orders_ok_fold(h, g, depth, max_depth, alpha, beta, ord, k) == ({
            let s = ordered_loop(h, g, depth, max_depth, alpha, beta, ord, k - 1);
            let m = ord(Seq::empty())[k - 1];
            orders_ok_fold(h, g, depth, max_depth, alpha, beta, ord, k - 1) && (s.cut || orders_ok(h, do_spec(
                g,
                m.0 as int,
                m.1 as int,
            ), depth + 1, max_depth, -beta, -s.alpha, suborders(ord, k - 1)))
        }),
{
    reveal(ordered_search);
    reveal(orders_ok);
}

/// Once the loop is cut off, later moves change neither the loop nor what is asked of the
/// orders.
pub proof fn lemma_ordered_loop_cut(h: HeuristicView, g: GameView, depth: int, max_depth: int, alpha: int, beta: int, ord: spec_fn(Seq<int>) -> Seq<Position>, k: int, j: int)
    requires
        0 <= depth < max_depth,
        0 < k <= j,
        ordered_loop(h, g, depth, max_depth, alpha, beta, ord, k).cut,
    ensures
        ordered_loop(h, g, depth, max_depth, alpha, beta, ord, j) == ordered_loop(h, g, depth, max_depth, alpha, beta, ord, k),
        orders_ok_fold(h, g, depth, max_depth, alpha, beta, ord, j) == orders_ok_fold(h, g, depth, max_depth, alpha, beta, ord, k),
    decreases j - k,
{
    if j > k {
        lemma_ordered_loop_cut(h, g, depth, max_depth, alpha, beta, ord, k, j - 1);
        lemma_ordered_loop_step(h, g, depth, max_depth, alpha, beta, ord, j);
    }
}

/// The loop over the first `k` moves looks only at the root order and at the orders below
/// those moves.
pub proof fn lemma_ordered_loop_agree(
    h: HeuristicView,
    g: GameView,
    depth: int,
    max_depth: int,
    alpha: int,
    beta: int,
    ord1: spec_fn(Seq<int>) -> Seq<Position>,
    ord2: spec_fn(Seq<int>) -> Seq<Position>,
    k: int,
)
    requires
        0 <= depth < max_depth,
        ord1(Seq::empty()) == ord2(Seq::empty()),
        forall|i: int| 0 <= i < k ==> #[trigger] suborders(ord1, i) == suborders(ord2, i),
    ensures
        ordered_loop(h, g, depth, max_depth, alpha, beta, ord1, k) == ordered_loop(h, g, depth, max_depth, alpha, beta, ord2, k),
        orders_ok_fold(h, g, depth, max_depth, alpha, beta, ord1, k) == orders_ok_fold(h, g, depth, max_depth, alpha, beta, ord2, k),
    decreases k,
{
    if k > 0 {
        lemma_ordered_loop_agree(h, g, depth, max_depth, alpha, beta, ord1, ord2, k - 1);
        lemma_ordered_loop_step(h, g, depth, max_depth, alpha, beta, ord1, k);
        lemma_ordered_loop_step(h, g, depth, max_depth, alpha, beta, ord2, k);
        assert(suborders(ord1, k - 1) == suborders(ord2, k - 1));
    }
}

/// The root move after a search that starts from the move `before`: the move the loop records,
/// or `before` when the root is a leaf or has no move to try.
pub open spec fn recorded_move(h: HeuristicView, g: GameView, max_depth: int, alpha: int, beta: int, ord: spec_fn(Seq<int>) -> Seq<Position>, before: Position) -> Position {
    if leaf_spec(g, h, 0, max_depth) is Some || ord(Seq::empty()).len() == 0 {
        before
    } else {
        ordered_loop(h, g, 0, max_depth, alpha, beta, ord, ord(Seq::empty()).len() as int).chosen
    }
}

/// The orders of a search whose root tries `order` and whose subtree below the `i`-th move
/// was searched in the orders `children[i]`.
pub open spec fn assemble(order: Seq<Position>, children: Map<int, spec_fn(Seq<int>) -> Seq<Position>>) -> spec_fn(Seq<int>) -> Seq<Position> {
    |p: Seq<int>| if p.len() == 0 { order } else { children[p[0]](p.drop_first()) }
}

/// Adding the orders below the `k`-th move keeps those below the earlier moves, and gives
/// `child` below the `k`-th.
pub proof fn lemma_assemble_insert(order: Seq<Position>, children: Map<int, spec_fn(Seq<int>) -> Seq<Position>>, k: int, child: spec_fn(Seq<int>) -> Seq<Position>)
    ensures
        forall|i: int| 0 <= i < k ==> #[trigger] suborders(assemble(order, children), i) == suborders(
            assemble(order, children.insert(k, child)),
            i,
        ),
        suborders(assemble(order, children.insert(k, child)), k) == child,
        assemble(order, children)(Seq::empty()) == assemble(order, children.insert(k, child))(Seq::empty()),
{
    let o1 = assemble(order, children);
    let o2 = assemble(order, children.insert(k, child));
    assert forall|i: int| 0 <= i < k implies #[trigger] suborders(o1, i) == suborders(o2, i) by {
        assert forall|p: Seq<int>| #[trigger] suborders(o1, i)(p) == suborders(o2, i)(p) by {
            let q = seq![i] + p;
            assert(q[0] == i);
        }
        assert(suborders(o1, i) =~= suborders(o2, i));
    }
    assert forall|p: Seq<int>| #[trigger] suborders(o2, k)(p) == child(p) by {
        let q = seq![k] + p;
        assert(q[0] == k);
        assert(q.drop_first() =~= p);
    }
    assert(suborders(o2, k) =~= child);
}

} // verus!
