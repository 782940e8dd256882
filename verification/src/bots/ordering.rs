use crate::game::board::Position;
use vstd::prelude::*;

verus! {

/// `out` holds the moves of `input` rearranged: its `t`-th move is the `perm[t]`-th one of
/// `input`, each of those taken once.
pub open spec fn rearranges(input: Seq<Position>, out: Seq<Position>, perm: Seq<int>) -> bool {
    &&& perm.len() == out.len() == input.len()
    &&& forall|t: int| 0 <= t < out.len() ==> 0 <= #[trigger] perm[t] < input.len() && out[t] == input[perm[t]]
    &&& forall|t1: int, t2: int| 0 <= t1 < out.len() && 0 <= t2 < out.len() && t1 != t2 ==> #[trigger] perm[t1] != #[trigger] perm[t2]
}

/// The rearrangement `perm` puts the values in increasing order, and keeps the order of equal
/// values.
pub open spec fn stably_sorted(values: Seq<i64>, perm: Seq<int>) -> bool {
    forall|a: int, b: int| 0 <= a < b < perm.len() ==> {
        &&& values[#[trigger] perm[a]] <= values[#[trigger] perm[b]]
        &&& values[perm[a]] == values[perm[b]] ==> perm[a] < perm[b]
    }
}

/// The moves sorted by their values (`values[i]` is the value of `moves[i]`), smallest first;
/// moves with equal values keep their order.
pub fn sort_by_values(moves: &Vec<Position>, values: &Vec<i64>) -> (res: Vec<Position>)
    requires
        moves.len() == values.len(),
    ensures
        res@.to_multiset() == moves@.to_multiset(),
        exists|perm: Seq<int>| #[trigger] rearranges(moves@, res@, perm) && stably_sorted(values@, perm),
{
    let mut out: Vec<Position> = Vec::new();
    let mut out_values: Vec<i64> = Vec::new();
    let mut i: usize = 0;
    let ghost mut perm: Seq<int> = Seq::empty();
    assert(out@ =~= moves@.take(0));
    while i < moves.len()
        invariant
            i <= moves.len(),
            moves.len() == values.len(),
            perm.len() == out.len() == i,
            out_values.len() == out.len(),
            forall|t: int| 0 <= t < out.len() ==> 0 <= #[trigger] perm[t] < i && out@[t] == moves@[perm[t]]
                && out_values@[t] == values@[perm[t]],
            forall|t1: int, t2: int| 0 <= t1 < out.len() && 0 <= t2 < out.len() && t1 != t2 ==> #[trigger] perm[t1] != #[trigger] perm[t2],
            forall|a: int, b: int| 0 <= a < b < out.len() ==> #[trigger] out_values@[a] <= #[trigger] out_values@[b],
            forall|a: int, b: int| 0 <= a < b < out.len() && out_values@[a] == out_values@[b] ==> #[trigger] perm[a] < #[trigger] perm[b],
            out@.to_multiset() == moves@.take(i as int).to_multiset(),
        decreases moves.len() - i,
    {
        let p = moves[i];
        let v = values[i];
        let mut j: usize = out.len();
        while j > 0 && out_values[j - 1] > v
            invariant
                j <= out.len(),
                out_values.len() == out.len(),
                forall|t: int| j <= t < out.len() ==> #[trigger] out_values@[t] > v,
            decreases j,
        {
            j -= 1;
        }
        let ghost old_out = out@;
        let ghost old_values = out_values@;
        let ghost old_perm = perm;
        out.insert(j, p);
        out_values.insert(j, v);
        proof {
            perm = old_perm.insert(j as int, i as int);
            old_perm.insert_ensures(j as int, i as int);
            old_out.insert_ensures(j as int, p);
            old_values.insert_ensures(j as int, v);
            vstd::seq_lib::to_multiset_insert(old_out, j as int, p);
            assert(moves@.take(i + 1) =~= moves@.take(i as int).push(p));
            moves@.take(i as int).to_multiset_ensures();
            assert forall|t: int| 0 <= t < out.len() implies 0 <= #[trigger] perm[t] < i + 1 && out@[t] == moves@[perm[t]]
                && out_values@[t] == values@[perm[t]] by {
                if t > j {
                    assert(perm[t] == old_perm[t - 1]);
                    assert(out@[t] == old_out[t - 1]);
                    assert(out_values@[t] == old_values[t - 1]);
                }
            }
            assert forall|t1: int, t2: int| 0 <= t1 < out.len() && 0 <= t2 < out.len() && t1 != t2
                implies #[trigger] perm[t1] != #[trigger] perm[t2] by {
                if t1 > j {
                    assert(perm[t1] == old_perm[t1 - 1]);
                }
                if t2 > j {
                    assert(perm[t2] == old_perm[t2 - 1]);
                }
            }
            assert forall|a: int, b: int| 0 <= a < b < out.len() implies #[trigger] out_values@[a] <= #[trigger] out_values@[b] by {
                if j > 0 {
                    assert(old_values[j - 1] <= v);
                }
                if a < j && b > j && j > 0 {
                    assert(old_values[a] <= old_values[j - 1]);
                }
                if b > j {
                    assert(out_values@[b] == old_values[b - 1]);
                }
                if a > j {
                    assert(out_values@[a] == old_values[a - 1]);
                }
            }
            assert forall|a: int, b: int| 0 <= a < b < out.len() && out_values@[a] == out_values@[b]
                implies #[trigger] perm[a] < #[trigger] perm[b] by {
                if b == j {
                    assert(perm[b] == i);
                    assert(perm[a] == old_perm[a]);
                } else if a == j {
                    assert(out_values@[b] == old_values[b - 1]);
                    assert(old_values[b - 1] > v);
                } else {
                    let oa = if a > j { a - 1 } else { a };
                    let ob = if b > j { b - 1 } else { b };
                    assert(perm[a] == old_perm[oa]);
                    assert(perm[b] == old_perm[ob]);
                    assert(out_values@[a] == old_values[oa]);
                    assert(out_values@[b] == old_values[ob]);
                }
            }
        }
        i += 1;
    }
    proof {
        assert(moves@.take(moves.len() as int) =~= moves@);
        assert forall|a: int, b: int| 0 <= a < b < perm.len() implies {
            &&& values@[#[trigger] perm[a]] <= values@[#[trigger] perm[b]]
            &&& values@[perm[a]] == values@[perm[b]] ==> perm[a] < perm[b]
        } by {
            assert(out_values@[a] <= out_values@[b]);
        }
        assert(rearranges(moves@, out@, perm));
    }
    out
}

} // verus!
