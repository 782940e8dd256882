pub mod bounds;
pub mod capturophile;
pub mod coeff_heuristic;
pub mod coeffistic;
pub mod heuristicos;
pub mod new;
pub mod old_manual;
pub mod patterns;
pub mod runs;
pub mod symmetry;
pub mod zero;

use crate::game::logic::GameView;
use crate::game::Game;
use crate::heuristics::coeff_heuristic::coeff_heuristic_spec;
use crate::heuristics::coeffistic::{coeffistic_spec, valid_coeffs, MAX_COEFF_VALUE};
use crate::heuristics::new::{evaluable, new_spec};
use crate::heuristics::old_manual::old_manual_spec;
use crate::text::{quoted, same_text};
use vstd::prelude::*;

verus! {

/// Largest magnitude of a heuristic value.
pub const HEURISTIC_BOUND: i64 = 4_000_000_000_000_000_000;

/// The evaluation functions a [`Heuristic`] can use.
#[derive(Clone, Copy, Debug, PartialEq, Eq)]
pub enum HeuristicFn {
    Zero,
    Capturophile,
    Heuristicos,
    Coeffistic,
    Manual,
    OldManual,
    Genetic,
    CoeffHeuristic,
}

/// A [`Heuristic`] returns a positive value if black has a good position,
/// and a negative value otherwise.
#[derive(Clone, Debug, PartialEq)]
pub struct Heuristic {
    pub fun: HeuristicFn,
    pub coeffs: Option<Vec<i64>>,
}

/// The abstract content of a [`Heuristic`].
pub struct HeuristicView {
    pub fun: HeuristicFn,
    pub coeffs: Option<Seq<i64>>,
}

impl View for Heuristic {
    type V = HeuristicView;

    open spec fn view(&self) -> HeuristicView {
        HeuristicView {
            fun: self.fun,
            coeffs: match self.coeffs {
                Some(c) => Some(c@),
                None => None,
            },
        }
    }
}

/// The heuristic has the coefficients its function needs.
pub open spec fn valid_heuristic(h: HeuristicView) -> bool {
    match h.fun {
        HeuristicFn::Coeffistic | HeuristicFn::CoeffHeuristic => h.coeffs is Some && valid_coeffs(h.coeffs.unwrap()),
        _ => true,
    }
}

/// The value the heuristic `h` gives to the position of `g`.
pub open spec fn heuristic_value(h: HeuristicView, g: GameView) -> int {
    match h.fun {
        HeuristicFn::Zero => 0,
        HeuristicFn::Capturophile => g.black_captures - g.white_captures,
        HeuristicFn::Heuristicos => g.black_captures - g.white_captures,
        HeuristicFn::Coeffistic => coeffistic_spec(g.board, g.black_captures as int, g.white_captures as int, h.coeffs.unwrap()),
        HeuristicFn::Manual => new_spec(g),
        HeuristicFn::OldManual => old_manual_spec(g),
        HeuristicFn::Genetic => 0,
        HeuristicFn::CoeffHeuristic => coeff_heuristic_spec(g.board, g.black_captures as int, g.white_captures as int, h.coeffs.unwrap()),
    }
}

impl Heuristic {
    /// The heuristic that values every position at 0.
    pub fn zero() -> (res: Self)
        ensures
            res.fun == HeuristicFn::Zero,
            res.coeffs is None,
    {
        Heuristic { fun: HeuristicFn::Zero, coeffs: None }
    }

    /// The heuristic that counts captured pairs.
    pub fn capturophile() -> (res: Self)
        ensures
            res.fun == HeuristicFn::Capturophile,
            res.coeffs is None,
    {
        Heuristic { fun: HeuristicFn::Capturophile, coeffs: None }
    }

    /// The hand-written heuristic.
    pub fn manual() -> (res: Self)
        ensures
            res.fun == HeuristicFn::Manual,
            res.coeffs is None,
    {
        Heuristic { fun: HeuristicFn::Manual, coeffs: None }
    }

    /// The coefficient heuristic with the current trained coefficients `coeffs`.
    pub fn new(coeffs: Vec<i64>) -> (res: Self)
        ensures
            res.fun == HeuristicFn::Coeffistic,
            res.coeffs == Some(coeffs),
    {
        Heuristic { fun: HeuristicFn::Coeffistic, coeffs: Some(coeffs) }
    }

    /// The coefficient heuristic with the previous trained coefficients `coeffs`.
    pub fn previous(coeffs: Vec<i64>) -> (res: Self)
        ensures
            res.fun == HeuristicFn::Coeffistic,
            res.coeffs == Some(coeffs),
    {
        Heuristic { fun: HeuristicFn::Coeffistic, coeffs: Some(coeffs) }
    }
}

/// The heuristic called `s` on the command line, if there is one; `coeffistic` uses the
/// current trained coefficients `coeffs`.
pub open spec fn heuristic_named(s: Seq<char>, coeffs: Seq<i64>) -> Option<HeuristicView> {
    if s == "zero"@ {
        Some(HeuristicView { fun: HeuristicFn::Zero, coeffs: None })
    } else if s == "capturophile"@ {
        Some(HeuristicView { fun: HeuristicFn::Capturophile, coeffs: None })
    } else if s == "manual"@ {
        Some(HeuristicView { fun: HeuristicFn::Manual, coeffs: None })
    } else if s == "coeffistic"@ {
        Some(HeuristicView { fun: HeuristicFn::Coeffistic, coeffs: Some(coeffs) })
    } else {
        None
    }
}

/// The heuristic called `s`, or the message ``Invalid heuristic: `s` `` when there is none.
/// `coeffistic` gets the current trained coefficients `coeffs`.
pub fn parse_heuristic(s: &str, coeffs: &Vec<i64>) -> (res: Result<Heuristic, String>)
    ensures
        heuristic_named(s@, coeffs@) is Some ==> res is Ok && res->Ok_0@ == heuristic_named(s@, coeffs@).unwrap(),
        heuristic_named(s@, coeffs@) is None ==> res is Err && res->Err_0@ == "Invalid heuristic: "@ + "`"@ + s@ + "`"@,
{
    if same_text(s, "zero") {
        Ok(Heuristic::zero())
    } else if same_text(s, "capturophile") {
        Ok(Heuristic::capturophile())
    } else if same_text(s, "manual") {
        Ok(Heuristic::manual())
    } else if same_text(s, "coeffistic") {
        Ok(Heuristic::new(crate::game::copy::copy_i64s(coeffs)))
    } else {
        Err(quoted("Invalid heuristic: ", s))
    }
}

/// The value `heuristic` gives to the position of `game` (positive when black stands better).
pub fn evaluate(heuristic: &Heuristic, game: &Game) -> (res: i64)
    requires
        valid_heuristic(heuristic@),
        evaluable(game@),
    ensures
        res == heuristic_value(heuristic@, game@),
        -HEURISTIC_BOUND <= res <= HEURISTIC_BOUND,
{
    match heuristic.fun {
        HeuristicFn::Zero => zero::zero(game, None),
        HeuristicFn::Capturophile => capturophile::capturophile(game, None),
        HeuristicFn::Heuristicos => heuristicos::heuristicos(game),
        HeuristicFn::Coeffistic => {
            let coeffs = heuristic.coeffs.as_ref().unwrap();
            coeffistic::coeffistic(game, Some(coeffs))
        },
        HeuristicFn::Manual => new::new(game),
        HeuristicFn::OldManual => old_manual::old_manual(game),
        HeuristicFn::Genetic => coeff_heuristic::genetic(game),
        HeuristicFn::CoeffHeuristic => {
            let coeffs = heuristic.coeffs.as_ref().unwrap();
            coeff_heuristic::coeff_heuristic(game, coeffs)
        },
    }
}

} // verus!
