use crate::bots::{bot_choice_ok, bot_move, bot_ready, Bot};
use crate::game::board::{holds, manhattan_distance_to_center, manhattan_to_center, Position, BOARD_SIZE, HALF_BOARD_SIZE};
use crate::game::copy::copy_heuristic;
use crate::game::legal_moves::legal_moves_spec;
use crate::game::logic::{can_play, captures_upto, do_spec, place_spec, lemma_playing_ply_bound, valid_game, GameView};
use crate::game::Game;
use crate::heuristics::{valid_heuristic, HeuristicView};
use crate::player::{Player, PlayerColor, PlayerView};
use crate::random::random_range_inclusive;
use vstd::prelude::*;

verus! {

/// The player whose turn it is in `g`.
pub open spec fn player_to_move(g: GameView) -> PlayerView {
    if g.current_color == PlayerColor::Black { g.black_player } else { g.white_player }
}

/// The player is a bot whose heuristic has what it needs.
pub open spec fn valid_bot(p: PlayerView) -> bool {
    match p {
        PlayerView::Bot { heuristic, .. } => valid_heuristic(heuristic),
        PlayerView::Human => false,
    }
}

/// The bot of the player to move (meaningful when that player is a bot).
pub open spec fn player_bot(g: GameView) -> Bot {
    match player_to_move(g) {
        PlayerView::Bot { bot, .. } => bot,
        PlayerView::Human => Bot::RandomMover,
    }
}

/// The heuristic of the player to move (meaningful when that player is a bot).
pub open spec fn player_heuristic(g: GameView) -> HeuristicView {
    match player_to_move(g) {
        PlayerView::Bot { heuristic, .. } => heuristic,
        PlayerView::Human => HeuristicView { fun: crate::heuristics::HeuristicFn::Zero, coeffs: None },
    }
}

/// The bot to move cannot go on: it cannot choose a move in `g`, or one of the moves it may
/// choose cannot be played.
pub open spec fn bot_stuck(g: GameView) -> bool {
    match player_to_move(g) {
        PlayerView::Bot { bot, heuristic } => !bot_ready(bot, g) || exists|p: Position|
            #[trigger] bot_choice_ok(bot, heuristic, g, p) && !can_play(g, p.0 as int, p.1 as int),
        PlayerView::Human => true,
    }
}

/// The game `g` after the moves of `ms`, played one after the other.
pub open spec fn replay(g: GameView, ms: Seq<Position>) -> GameView
    decreases ms.len(),
{
    if ms.len() == 0 {
        g
    } else {
        do_spec(replay(g, ms.drop_last()), ms.last().0 as int, ms.last().1 as int)
    }
}

/// `m` is a move the bot to move in `g` may choose there.
pub open spec fn chosen_by_bot(g: GameView, m: Position) -> bool {
    bot_choice_ok(player_bot(g), player_heuristic(g), g, m)
}

/// Each move of `added`, played from `g0` one after the other, is one the bot to move may
/// choose at that point.
pub open spec fn played_by_bots(g0: GameView, added: Seq<Position>) -> bool {
    forall|i: int| 0 <= i < added.len() ==> #[trigger] chosen_by_bot(replay(g0, added.take(i)), added[i])
}

/// The empty cells within Manhattan distance `dist` of the center, in row-major order.
pub open spec fn cells_near_center(g: GameView, dist: int) -> Seq<Position> {
    crate::game::logic::all_cells().filter(|p: Position|
        manhattan_to_center(p.0 as int, p.1 as int) <= dist && holds(g.board, None, p.0 as int, p.1 as int))
}

impl Game {
    /// Lets the two bots play until the game is over: the game becomes the old one with the
    /// moves added, each chosen by the bot to move. The game stops early when the bot to move
    /// cannot choose a move, or chooses one that cannot be played.
    pub fn play_game(&mut self)
        requires
            valid_game(old(self)@),
            valid_bot(old(self)@.black_player),
            valid_bot(old(self)@.white_player),
        ensures
            valid_game(final(self)@),
            final(self)@.black_player == old(self)@.black_player,
            final(self)@.white_player == old(self)@.white_player,
            final(self)@.moves.take(old(self)@.moves.len() as int) == old(self)@.moves,
            final(self)@ == replay(old(self)@, final(self)@.moves.skip(old(self)@.moves.len() as int)),
            played_by_bots(old(self)@, final(self)@.moves.skip(old(self)@.moves.len() as int)),
            final(self)@.state is Playing ==> bot_stuck(final(self)@),
    {
        let ghost g0 = self@;
        proof {
            assert(self@.moves.skip(g0.moves.len() as int) =~= Seq::<Position>::empty());
        }
        while self.state.is_playing()
            invariant
                valid_game(self@),
                self@.black_player == g0.black_player,
                self@.white_player == g0.white_player,
                valid_bot(g0.black_player),
                valid_bot(g0.white_player),
                self@.moves.len() >= g0.moves.len(),
                self@.moves.take(g0.moves.len() as int) == g0.moves,
                self@ == replay(g0, self@.moves.skip(g0.moves.len() as int)),
                played_by_bots(g0, self@.moves.skip(g0.moves.len() as int)),
            ensures
                self@.state is Playing ==> bot_stuck(self@),
            decreases BOARD_SIZE * BOARD_SIZE + 16 - self.ply,
        {
            proof {
                lemma_playing_ply_bound(self@);
            }
            let (bot, heuristic) = match self.current_player() {
                Player::Bot { bot, heuristic } => (*bot, copy_heuristic(heuristic)),
                Player::Human => {
                    break;
                },
            };
            let ghost g = self@;
            assert(player_to_move(g) == PlayerView::Bot { bot: bot, heuristic: heuristic@ });
            let ready = match bot {
                Bot::RandomMover => self.get_legal_moves(None, false).len() > 0,
                Bot::Minimax | Bot::Negamax => self.ply == 0 || self.get_legal_moves(Some(2), false).len() > 0,
                Bot::IdabpNew { .. } | Bot::IdabpOld { .. } => self.ply == 0 || self.get_legal_moves(None, false).len() > 0,
                _ => true,
            };
            if !ready {
                break;
            }
            let (x, y) = bot_move(bot, self, &heuristic);
            if x >= BOARD_SIZE || y >= BOARD_SIZE || self.board[y][x].is_some() {
                assert(bot_choice_ok(bot, heuristic@, g, (x, y)));
                break;
            }
            proof {
                lemma_do_keeps(g, x as int, y as int);
            }
            self.do_move(x, y);
            proof {
                assert(self@.moves.take(g0.moves.len() as int) =~= g.moves.take(g0.moves.len() as int));
                let n0 = g0.moves.len() as int;
                let added = g.moves.skip(n0);
                let added2 = self@.moves.skip(n0);
                assert(self@.moves == g.moves.push((x, y)));
                assert(added2 =~= added.push((x, y)));
                assert(added2.drop_last() =~= added);
                assert(chosen_by_bot(g, (x, y)));
                assert forall|i: int| 0 <= i < added2.len() implies #[trigger] chosen_by_bot(replay(g0, added2.take(i)), added2[i]) by {
                    if i < added.len() {
                        assert(added2.take(i) =~= added.take(i));
                        assert(chosen_by_bot(replay(g0, added.take(i)), added[i]));
                    } else {
                        assert(added2.take(i) =~= added);
                    }
                }
            }
        }
    }

    /// Lets the bot to move play one move. Returns `false`, and leaves the game as it is, when
    /// the game is over or the bot cannot go on (see `bot_stuck`).
    pub fn play_turn(&mut self) -> (res: bool)
        requires
            valid_game(old(self)@),
            valid_bot(player_to_move(old(self)@)),
        ensures
            valid_game(final(self)@),
            !res ==> *final(self) == *old(self) && (!(old(self)@.state is Playing) || bot_stuck(old(self)@)),
            res ==> old(self)@.state is Playing && exists|p: Position| {
                &&& #[trigger] bot_choice_ok(player_bot(old(self)@), player_heuristic(old(self)@), old(self)@, p)
                &&& can_play(old(self)@, p.0 as int, p.1 as int)
                &&& final(self)@ == do_spec(old(self)@, p.0 as int, p.1 as int)
            },
    {
        if !self.state.is_playing() {
            return false;
        }
        proof {
            lemma_playing_ply_bound(self@);
        }
        let (bot, heuristic) = match self.current_player() {
            Player::Bot { bot, heuristic } => (*bot, copy_heuristic(heuristic)),
            Player::Human => {
                return false;
            },
        };
        let ghost g = self@;
        assert(player_to_move(g) == PlayerView::Bot { bot: bot, heuristic: heuristic@ });
        let ready = match bot {
            Bot::RandomMover => self.get_legal_moves(None, false).len() > 0,
            Bot::Minimax | Bot::Negamax => self.ply == 0 || self.get_legal_moves(Some(2), false).len() > 0,
            Bot::IdabpNew { .. } | Bot::IdabpOld { .. } => self.ply == 0 || self.get_legal_moves(None, false).len() > 0,
            _ => true,
        };
        if !ready {
            return false;
        }
        let (x, y) = bot_move(bot, self, &heuristic);
        if x >= BOARD_SIZE || y >= BOARD_SIZE || self.board[y][x].is_some() {
            assert(bot_choice_ok(bot, heuristic@, g, (x, y)));
            return false;
        }
        self.do_move(x, y);
        assert(bot_choice_ok(player_bot(g), player_heuristic(g), g, (x, y)));
        true
    }

    /// Plays `n_moves` random moves, each on an empty cell within Manhattan distance
    /// `dist_to_center` of the center, every such cell being equally likely. It stops early
    /// when the game is over or no such cell is left.
    #[verifier::spinoff_prover]
    #[verifier::rlimit(40)]
    pub fn play_random_moves(&mut self, n_moves: u32, dist_to_center: usize)
        requires
            valid_game(old(self)@),
            n_moves <= BOARD_SIZE,
            dist_to_center <= HALF_BOARD_SIZE,
        ensures
            valid_game(final(self)@),
            exists|ms: Seq<Position>| #[trigger] random_moves_played(old(self)@, ms, dist_to_center as int, n_moves as int, final(self)@),
    {
        let ghost g0 = self@;
        let ghost mut ms: Seq<Position> = Seq::empty();
        let mut played: u32 = 0;
        assert(random_moves_ok(g0, ms, dist_to_center as int));
        while played < n_moves
            invariant
                valid_game(self@),
                played <= n_moves <= BOARD_SIZE,
                dist_to_center <= HALF_BOARD_SIZE,
                ms.len() == played,
                replay(g0, ms) == self@,
                random_moves_ok(g0, ms, dist_to_center as int),
            ensures
                ms.len() < n_moves ==> !(self@.state is Playing)
                    || cells_near_center(self@, dist_to_center as int).len() == 0,
            decreases n_moves - played,
        {
            if !self.state.is_playing() {
                break;
            }
            let cells = self.cells_near_center(dist_to_center);
            if cells.len() == 0 {
                break;
            }
            let i = random_range_inclusive(0, cells.len() - 1);
            let (x, y) = cells[i];
            let ghost g = self@;
            proof {
                lemma_playing_ply_bound(g);
                lemma_cells_near_center(g, dist_to_center as int, i as int);
                lemma_random_moves_push(g0, ms, (x, y), dist_to_center as int);
            }
            self.do_move(x, y);
            proof {
                ms = ms.push((x, y));
            }
            played += 1;
        }
        assert(random_moves_played(g0, ms, dist_to_center as int, n_moves as int, self@));
    }

    /// `m` is a move the bot to move in `g` may choose there.
pub open spec fn chosen_by_bot(g: GameView, m: Position) -> bool {
    bot_choice_ok(player_bot(g), player_heuristic(g), g, m)
}

/// Each move of `added`, played from `g0` one after the other, is one the bot to move may
/// choose at that point.
pub open spec fn played_by_bots(g0: GameView, added: Seq<Position>) -> bool {
    forall|i: int| 0 <= i < added.len() ==> #[trigger] chosen_by_bot(replay(g0, added.take(i)), added[i])
}

/// The empty cells within Manhattan distance `dist` of the center, in row-major order.
    pub fn cells_near_center(&self, dist: usize) -> (res: Vec<Position>)
        ensures
            res@ == cells_near_center(self@, dist as int),
    {
        let ghost pred = |p: Position|
            manhattan_to_center(p.0 as int, p.1 as int) <= dist && holds(self@.board, None, p.0 as int, p.1 as int);
        let mut res: Vec<Position> = Vec::new();
        let mut k: usize = 0;
        while k < BOARD_SIZE * BOARD_SIZE
            invariant
                k <= BOARD_SIZE * BOARD_SIZE,
                pred == (|p: Position|
                    manhattan_to_center(p.0 as int, p.1 as int) <= dist && holds(self@.board, None, p.0 as int, p.1 as int)),
                res@ == crate::game::logic::all_cells().take(k as int).filter(pred),
            decreases BOARD_SIZE * BOARD_SIZE - k,
        {
            let x = k % BOARD_SIZE;
            let y = k / BOARD_SIZE;
            proof {
                assert((x, y) == crate::game::logic::cell_at(k as int));
                reveal_with_fuel(Seq::filter, 1);
                assert(crate::game::logic::all_cells().take(k + 1).drop_last()
                    =~= crate::game::logic::all_cells().take(k as int));
            }
            if manhattan_distance_to_center(x, y) <= dist as u64 && self.board[y][x].is_none() {
                res.push((x, y));
            }
            k += 1;
        }
        proof {
            assert(crate::game::logic::all_cells().take((BOARD_SIZE * BOARD_SIZE) as int) =~= crate::game::logic::all_cells());
        }
        res
    }
}

/// Captures leave the players, the move list and the ply as they are.
proof fn lemma_captures_keep(g: GameView, x: int, y: int, k: nat)
    ensures
        captures_upto(g, x, y, k).black_player == g.black_player,
        captures_upto(g, x, y, k).white_player == g.white_player,
        captures_upto(g, x, y, k).moves == g.moves,
        captures_upto(g, x, y, k).ply == g.ply,
    decreases k,
{
    if k > 0 {
        lemma_captures_keep(g, x, y, (k - 1) as nat);
    }
}

/// A move keeps the players, and adds itself to the move list.
pub proof fn lemma_do_keeps(g: GameView, x: int, y: int)
    requires
        0 <= x < BOARD_SIZE,
        0 <= y < BOARD_SIZE,
        g.ply < usize::MAX,
    ensures
        do_spec(g, x, y).black_player == g.black_player,
        do_spec(g, x, y).white_player == g.white_player,
        do_spec(g, x, y).moves == g.moves.push((x as usize, y as usize)),
        do_spec(g, x, y).ply == g.ply + 1,
{
    lemma_captures_keep(place_spec(g, x, y), x, y, 8);
}

/// Each move of `ms` was on a cell within Manhattan distance `dist` of the center that could
/// be played at that point of the game that starts at `g0`.
pub open spec fn random_moves_ok(g0: GameView, ms: Seq<Position>, dist: int) -> bool {
    forall|i: int| 0 <= i < ms.len() ==> {
        let p = #[trigger] ms[i];
        &&& manhattan_to_center(p.0 as int, p.1 as int) <= dist
        &&& can_play(replay(g0, ms.take(i)), p.0 as int, p.1 as int)
    }
}

/// `g` is the game `g0` after the random moves `ms`: at most `n` of them, fewer only when the
/// game was over or no cell near the center was left.
pub open spec fn random_moves_played(g0: GameView, ms: Seq<Position>, dist: int, n: int, g: GameView) -> bool {
    &&& replay(g0, ms) == g
    &&& ms.len() <= n
    &&& random_moves_ok(g0, ms, dist)
    &&& ms.len() < n ==> !(g.state is Playing) || cells_near_center(g, dist).len() == 0
}

/// One more random move keeps `random_moves_ok`.
proof fn lemma_random_moves_push(g0: GameView, ms: Seq<Position>, p: Position, dist: int)
    requires
        random_moves_ok(g0, ms, dist),
        manhattan_to_center(p.0 as int, p.1 as int) <= dist,
        can_play(replay(g0, ms), p.0 as int, p.1 as int),
    ensures
        random_moves_ok(g0, ms.push(p), dist),
        replay(g0, ms.push(p)) == do_spec(replay(g0, ms), p.0 as int, p.1 as int),
{
    let ms1 = ms.push(p);
    assert(ms1.drop_last() =~= ms);
    assert(ms1.take(ms.len() as int) =~= ms);
    assert forall|j: int| 0 <= j < ms1.len() implies {
        let q = #[trigger] ms1[j];
        &&& manhattan_to_center(q.0 as int, q.1 as int) <= dist
        &&& can_play(replay(g0, ms1.take(j)), q.0 as int, q.1 as int)
    } by {
        if j < ms.len() {
            assert(ms1.take(j) =~= ms.take(j));
            assert(ms1[j] == ms[j]);
        }
    }
}

/// A cell of `cells_near_center` can be played while the game goes on.
proof fn lemma_cells_near_center(g: GameView, dist: int, i: int)
    requires
        0 <= i < cells_near_center(g, dist).len(),
    ensures
        manhattan_to_center(cells_near_center(g, dist)[i].0 as int, cells_near_center(g, dist)[i].1 as int) <= dist,
        holds(g.board, None, cells_near_center(g, dist)[i].0 as int, cells_near_center(g, dist)[i].1 as int),
{
    let pred = |p: Position| manhattan_to_center(p.0 as int, p.1 as int) <= dist && holds(g.board, None, p.0 as int, p.1 as int);
    crate::game::logic::all_cells().lemma_filter_pred(pred, i);
}

} // verus!
