use crate::bots::{bot_named, parse_bot, Bot};
use crate::heuristics::{heuristic_named, parse_heuristic, Heuristic, HeuristicFn, HeuristicView};
use crate::text::same_text;
use vstd::string::StrSliceExecFns;
use vstd::prelude::*;
use vstd::string::StringExecFns;

verus! {

/// The color of a stone, and of the player who owns it.
#[derive(Copy, Clone, Debug, PartialEq, Eq, Structural)]
pub enum PlayerColor {
    Black,
    White,
}

/// The other color.
pub open spec fn opposite(color: PlayerColor) -> PlayerColor {
    match color {
        PlayerColor::Black => PlayerColor::White,
        PlayerColor::White => PlayerColor::Black,
    }
}

impl PlayerColor {
    /// The opponent's color.
    pub fn not(self) -> (res: PlayerColor)
        ensures
            res == opposite(self),
    {
        match self {
            PlayerColor::Black => PlayerColor::White,
            PlayerColor::White => PlayerColor::Black,
        }
    }
}

/// Who plays a color: a person at the board, or a bot with its evaluation.
#[derive(Clone, Debug, PartialEq)]
pub enum Player {
    Human,
    Bot { bot: Bot, heuristic: Heuristic },
}

/// The abstract content of a [`Player`].
pub enum PlayerView {
    Human,
    Bot { bot: Bot, heuristic: HeuristicView },
}

impl View for Player {
    type V = PlayerView;

    open spec fn view(&self) -> PlayerView {
        match self {
            Player::Human => PlayerView::Human,
            Player::Bot { bot, heuristic } => PlayerView::Bot { bot: *bot, heuristic: heuristic@ },
        }
    }
}

impl Player {
    pub fn is_human(&self) -> (res: bool)
        ensures
            res == (*self is Human),
    {
        match self {
            Player::Human => true,
            Player::Bot { .. } => false,
        }
    }

    pub fn is_bot(&self) -> (res: bool)
        ensures
            res == (*self is Bot),
    {
        match self {
            Player::Human => false,
            Player::Bot { .. } => true,
        }
    }
}

/// The index of the only `:` of `s`, if `s` has exactly one.
pub open spec fn single_colon(s: Seq<char>) -> Option<int> {
    if exists|i: int| 0 <= i < s.len() && s[i] == ':' && forall|j: int| 0 <= j < s.len() && j != i ==> s[j] != ':' {
        Some(choose|i: int| 0 <= i < s.len() && s[i] == ':' && forall|j: int| 0 <= j < s.len() && j != i ==> s[j] != ':')
    } else {
        None
    }
}

/// The player that the command-line word `v` names, or the message that refuses it: a named
/// player, or `bot:heuristic`. The bots that play with coefficients get `new_coeffs` (the
/// current ones) or `old_coeffs` (the previous ones); the bots with a deadline get
/// `time_limit_ms`.
pub open spec fn player_from_arg(v: Seq<char>, new_coeffs: Seq<i64>, old_coeffs: Seq<i64>, time_limit_ms: u64) -> Result<PlayerView, Seq<char>> {
    if v == "human"@ {
        Ok(PlayerView::Human)
    } else if v == "random"@ {
        Ok(PlayerView::Bot { bot: Bot::RandomMover, heuristic: HeuristicView { fun: HeuristicFn::Zero, coeffs: None } })
    } else if v == "manual"@ {
        Ok(PlayerView::Bot { bot: Bot::IdabpNew { time_limit_ms }, heuristic: HeuristicView { fun: HeuristicFn::Manual, coeffs: None } })
    } else if v == "idabp_old"@ {
        Ok(PlayerView::Bot { bot: Bot::IdabpOld { time_limit_ms }, heuristic: HeuristicView { fun: HeuristicFn::Coeffistic, coeffs: Some(old_coeffs) } })
    } else if v == "idabp_new"@ {
        Ok(PlayerView::Bot { bot: Bot::IdabpNew { time_limit_ms }, heuristic: HeuristicView { fun: HeuristicFn::Coeffistic, coeffs: Some(new_coeffs) } })
    } else {
        match single_colon(v) {
            None => Err("Invalid arg: "@ + v),
            Some(i) => {
                let b = v.subrange(0, i);
                let h = v.subrange(i + 1, v.len() as int);
                match bot_named(b) {
                    None => Err("Invalid bot: "@ + "`"@ + b + "`"@),
                    Some(bot) => match heuristic_named(h, new_coeffs) {
                        None => Err("Invalid heuristic: "@ + "`"@ + h + "`"@),
                        Some(heuristic) => Ok(PlayerView::Bot { bot, heuristic }),
                    },
                }
            },
        }
    }
}

/// The position of the only `:` of `v`, if it has exactly one.
fn find_single_colon(v: &str) -> (res: Option<usize>)
    ensures
        res is Some <==> single_colon(v@) is Some,
        res is Some ==> res.unwrap() == single_colon(v@).unwrap(),
{
    let n = v.unicode_len();
    let mut found: Option<usize> = None;
    let mut count: usize = 0;
    let mut k: usize = 0;
    while k < n
        invariant
            n == v@.len(),
            k <= n,
            count <= k,
            count == 0 <==> found is None,
            count == 0 ==> forall|j: int| 0 <= j < k ==> v@[j] != ':',
            count >= 1 ==> found is Some && found.unwrap() < k && v@[found.unwrap() as int] == ':',
            count == 1 ==> forall|j: int| 0 <= j < k && j != found.unwrap() ==> v@[j] != ':',
            count >= 2 ==> exists|a: int, b: int| 0 <= a < b < k && v@[a] == ':' && v@[b] == ':',
        decreases n - k,
    {
        let c = v.get_char(k);
        if c == ':' {
            if count == 1 {
                assert(v@[found.unwrap() as int] == ':' && v@[k as int] == ':');
            }
            if count == 0 {
                found = Some(k);
            }
            if count < 2 {
                count += 1;
            }
        }
        k += 1;
    }
    if count == 1 {
        let i = found.unwrap();
        proof {
            let w = choose|w: int| 0 <= w < v@.len() && v@[w] == ':' && forall|j: int| 0 <= j < v@.len() && j != w ==> v@[j] != ':';
            assert(w == i);
        }
        Some(i)
    } else {
        proof {
            if count >= 2 {
                let (a, b) = choose|a: int, b: int| 0 <= a < b < k && v@[a] == ':' && v@[b] == ':';
                assert forall|i: int| !(0 <= i < v@.len() && v@[i] == ':' && forall|j: int| 0 <= j < v@.len() && j != i ==> v@[j] != ':') by {
                    if 0 <= i < v@.len() && v@[i] == ':' {
                        if i != a {
                            assert(v@[a] == ':');
                        } else {
                            assert(v@[b] == ':');
                        }
                    }
                }
            }
        }
        None
    }
}

impl Player {
    /// The player that the command-line word `v` names (see `player_from_arg`).
    pub fn from_arg(v: &str, new_coeffs: &Vec<i64>, old_coeffs: &Vec<i64>, time_limit_ms: u64) -> (res: Result<Player, String>)
        ensures
            match player_from_arg(v@, new_coeffs@, old_coeffs@, time_limit_ms) {
                Ok(p) => res is Ok && res->Ok_0@ == p,
                Err(m) => res is Err && res->Err_0@ == m,
            },
    {
        if same_text(v, "human") {
            Ok(Player::Human)
        } else if same_text(v, "random") {
            Ok(Player::Bot { bot: Bot::RandomMover, heuristic: Heuristic::zero() })
        } else if same_text(v, "manual") {
            Ok(Player::Bot { bot: Bot::IdabpNew { time_limit_ms }, heuristic: Heuristic::manual() })
        } else if same_text(v, "idabp_old") {
            Ok(Player::Bot { bot: Bot::IdabpOld { time_limit_ms }, heuristic: Heuristic::previous(crate::game::copy::copy_i64s(old_coeffs)) })
        } else if same_text(v, "idabp_new") {
            Ok(Player::Bot { bot: Bot::IdabpNew { time_limit_ms }, heuristic: Heuristic::new(crate::game::copy::copy_i64s(new_coeffs)) })
        } else {
            match find_single_colon(v) {
                None => Err("Invalid arg: ".to_owned().concat(v)),
                Some(i) => {
                    let n = v.unicode_len();
                    let bot_arg = v.substring_char(0, i);
                    let heuristic_arg = v.substring_char(i + 1, n);
                    match parse_bot(bot_arg) {
                        Err(e) => Err(e),
                        Ok(bot) => match parse_heuristic(heuristic_arg, new_coeffs) {
                            Err(e) => Err(e),
                            Ok(heuristic) => Ok(Player::Bot { bot, heuristic }),
                        },
                    }
                },
            }
        }
    }
}

} // verus!
