use crate::constants::REQUIRED_WINS;
use vstd::prelude::*;

verus! {

/// The mutations a training round keeps, in order: those whose games, summed over every
/// subset of mutations they were tried in, won at least `REQUIRED_WINS` times.
pub open spec fn kept_mutations(total_wins: Seq<u32>) -> Seq<usize> {
    Seq::new(total_wins.len(), |i: int| i as usize).filter(|i: usize| total_wins[i as int] >= REQUIRED_WINS)
}

/// The decision of a training round: the indices of the mutations to keep (see
/// `kept_mutations`).
pub fn accepted_mutations(total_wins: &Vec<u32>) -> (res: Vec<usize>)
    ensures
        res@ == kept_mutations(total_wins@),
{
    let ghost indices = Seq::new(total_wins.len() as nat, |i: int| i as usize);
    let ghost pred = |i: usize| total_wins@[i as int] >= REQUIRED_WINS;
    let mut kept: Vec<usize> = Vec::new();
    let mut k: usize = 0;
    while k < total_wins.len()
        invariant
            k <= total_wins.len(),
            indices == Seq::new(total_wins.len() as nat, |i: int| i as usize),
            pred == (|i: usize| total_wins@[i as int] >= REQUIRED_WINS),
            kept@ == indices.take(k as int).filter(pred),
        decreases total_wins.len() - k,
    {
        proof {
            reveal_with_fuel(Seq::filter, 1);
            assert(indices.take(k + 1).drop_last() =~= indices.take(k as int));
            assert(indices.take(k + 1).last() == k);
        }
        if total_wins[k] >= REQUIRED_WINS {
            kept.push(k);
        }
        k += 1;
    }
    proof {
        assert(indices.take(total_wins.len() as int) =~= indices);
    }
    kept
}

} // verus!
