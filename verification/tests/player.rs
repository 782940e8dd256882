use gomoku::bots::Bot;
use gomoku::heuristics::{Heuristic, HeuristicFn};
use gomoku::player::{Player, PlayerColor};

#[test]
fn named_players() {
    let new = vec![1i64; 738];
    let old = vec![2i64; 738];
    assert_eq!(Player::from_arg("human", &new, &old, 500), Ok(Player::Human));
    assert_eq!(
        Player::from_arg("random", &new, &old, 500),
        Ok(Player::Bot { bot: Bot::RandomMover, heuristic: Heuristic::zero() })
    );
    assert_eq!(
        Player::from_arg("manual", &new, &old, 500),
        Ok(Player::Bot { bot: Bot::IdabpNew { time_limit_ms: 500 }, heuristic: Heuristic::manual() })
    );
    assert_eq!(
        Player::from_arg("idabp_old", &new, &old, 500),
        Ok(Player::Bot { bot: Bot::IdabpOld { time_limit_ms: 500 }, heuristic: Heuristic::previous(old.clone()) })
    );
    assert_eq!(
        Player::from_arg("idabp_new", &new, &old, 500),
        Ok(Player::Bot { bot: Bot::IdabpNew { time_limit_ms: 500 }, heuristic: Heuristic::new(new.clone()) })
    );
}

#[test]
fn bot_and_heuristic_players() {
    let new = vec![1i64; 738];
    let old = vec![2i64; 738];
    let p = Player::from_arg("abp:capturophile", &new, &old, 500).unwrap();
    assert_eq!(p, Player::Bot { bot: Bot::AlphaBetaPruning, heuristic: Heuristic::capturophile() });
    assert!(p.is_bot() && !p.is_human());
    let p = Player::from_arg("negamax:coeffistic", &new, &old, 500).unwrap();
    match p {
        Player::Bot { bot, heuristic } => {
            assert_eq!(bot, Bot::Negamax);
            assert_eq!(heuristic.fun, HeuristicFn::Coeffistic);
            assert_eq!(heuristic.coeffs, Some(new.clone()));
        },
        Player::Human => panic!("expected a bot"),
    }
}

#[test]
fn refused_players() {
    let new = vec![1i64; 738];
    let old = vec![2i64; 738];
    assert_eq!(Player::from_arg("nobody", &new, &old, 500), Err("Invalid arg: nobody".to_string()));
    assert_eq!(Player::from_arg("a:b:c", &new, &old, 500), Err("Invalid arg: a:b:c".to_string()));
    assert_eq!(Player::from_arg("foo:zero", &new, &old, 500), Err("Invalid bot: `foo`".to_string()));
    assert_eq!(Player::from_arg("minimax:bar", &new, &old, 500), Err("Invalid heuristic: `bar`".to_string()));
}

#[test]
fn colors_alternate() {
    assert_eq!(PlayerColor::Black.not(), PlayerColor::White);
    assert_eq!(PlayerColor::White.not(), PlayerColor::Black);
}
