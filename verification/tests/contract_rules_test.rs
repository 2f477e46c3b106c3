use heads_or_tails::consts::{ONE_MINUTE, ONE_NEAR};
use heads_or_tails::game::{Game, GameError, GameState};
use heads_or_tails::Contract;

use near_sdk::env::sha256;

const P1: &str = "alice.near";
const P2: &str = "bob.near";
const P3: &str = "carol.near";

fn secret(v: u128) -> Vec<u8> {
    v.to_be_bytes().to_vec()
}

#[test]
fn hashing_is_not_identity() {
    // A commitment is the digest of the secret, never the secret itself.
    let s = secret(42);
    assert!(!Game::commit_reveal(&s, &s));
}

#[test]
fn verify_rejects_other_secret() {
    let commit = sha256(&secret(1));
    assert!(!Game::commit_reveal(&commit, &secret(2)));
    assert!(Game::commit_reveal(&commit, &secret(1)));
}

#[test]
fn create_game_rejects_bad_input() {
    let mut c = Contract::new();
    // A commitment of the wrong length is rejected before any mutation.
    let r = c.create_game(P1.to_string(), ONE_NEAR, true, vec![0u8; 31]);
    assert!(matches!(r, Err(GameError::InvalidCommit)));
    // A deposit below the minimum stake is rejected.
    let r = c.create_game(P1.to_string(), ONE_NEAR - 1, true, vec![0u8; 32]);
    assert!(matches!(r, Err(GameError::DepositTooLow)));
    assert_eq!(c.next_game_id(), 0);
    assert!(matches!(c.get_game_state(0), Err(GameError::GameNotFound)));
}

#[test]
fn create_game_assigns_sequential_ids() {
    let mut c = Contract::new();
    let a = c.create_game(P1.to_string(), ONE_NEAR, true, vec![1u8; 32]).unwrap();
    let b = c.create_game(P2.to_string(), 3 * ONE_NEAR, false, vec![2u8; 32]).unwrap();
    assert_eq!(a, 0);
    assert_eq!(b, 1);
    assert_eq!(c.next_game_id(), 2);
    let g = c.get_game_state(a).unwrap();
    assert!(matches!(g.game_state, GameState::Created));
    assert_eq!(g.player1, P1);
    assert_eq!(g.deposit, ONE_NEAR);
    assert!(g.player1_guess);
    assert!(g.player2.is_none());
    assert!(g.winner.is_none());
}

#[test]
fn join_game_refunds_excess() {
    let mut c = Contract::new();
    let id = c.create_game(P1.to_string(), ONE_NEAR, true, sha256(&secret(8))).unwrap();
    let refund = c.join_game(id, P2.to_string(), ONE_NEAR + 5, sha256(&secret(9))).unwrap();
    let t = refund.expect("a deposit above the stake is refunded");
    assert_eq!(t.recipient, P2);
    assert_eq!(t.amount, 5);
    let g = c.get_game_state(id).unwrap();
    assert!(matches!(g.game_state, GameState::Initialized));
    assert_eq!(g.player2.as_deref(), Some(P2));
    // The stake itself stays what creation fixed.
    assert_eq!(g.deposit, ONE_NEAR);
}

#[test]
fn join_game_exact_deposit_no_refund() {
    let mut c = Contract::new();
    let id = c.create_game(P1.to_string(), ONE_NEAR, true, sha256(&secret(8))).unwrap();
    let refund = c.join_game(id, P2.to_string(), ONE_NEAR, sha256(&secret(9))).unwrap();
    assert!(refund.is_none());
}

#[test]
fn join_game_rejections() {
    let mut c = Contract::new();
    let id = c.create_game(P1.to_string(), ONE_NEAR, true, sha256(&secret(8))).unwrap();
    let r = c.join_game(id, P2.to_string(), ONE_NEAR, vec![0u8; 16]);
    assert!(matches!(r, Err(GameError::InvalidCommit)));
    let r = c.join_game(id + 1, P2.to_string(), ONE_NEAR, vec![0u8; 32]);
    assert!(matches!(r, Err(GameError::GameNotFound)));
    let r = c.join_game(id, P2.to_string(), ONE_NEAR - 1, vec![0u8; 32]);
    assert!(matches!(r, Err(GameError::DepositTooLow)));
    // After a successful join the game is no longer open.
    c.join_game(id, P2.to_string(), ONE_NEAR, sha256(&secret(9))).unwrap();
    let r = c.join_game(id, P3.to_string(), ONE_NEAR, sha256(&secret(10)));
    assert!(matches!(r, Err(GameError::GameNotActive)));
    let g = c.get_game_state(id).unwrap();
    assert_eq!(g.player2.as_deref(), Some(P2));
}

#[test]
fn first_reveal_rejections() {
    let mut c = Contract::new();
    let id = c.create_game(P1.to_string(), ONE_NEAR, true, sha256(&secret(8))).unwrap();
    // Not yet initialized.
    let r = c.first_reveal(id, P1.to_string(), 0, secret(8));
    assert!(matches!(r, Err(GameError::GameNotActive)));
    c.join_game(id, P2.to_string(), ONE_NEAR, sha256(&secret(9))).unwrap();
    let r = c.first_reveal(id, P1.to_string(), 0, vec![0u8; 15]);
    assert!(matches!(r, Err(GameError::InvalidReveal)));
    let r = c.first_reveal(id + 1, P1.to_string(), 0, secret(8));
    assert!(matches!(r, Err(GameError::GameNotFound)));
    let r = c.first_reveal(id, P2.to_string(), 0, secret(8));
    assert!(matches!(r, Err(GameError::WrongPlayer)));
    // An honest reveal stores the deadline start it was given.
    c.first_reveal(id, P1.to_string(), 777, secret(8)).unwrap();
    let g = c.get_game_state(id).unwrap();
    assert!(matches!(g.game_state, GameState::Revealed));
    assert_eq!(g.reveal_time, Some(777));
    assert_eq!(g.player1_reveal.as_deref(), Some(secret(8).as_slice()));
}

#[test]
fn second_reveal_rejections() {
    let mut c = Contract::new();
    let id = c.create_game(P1.to_string(), ONE_NEAR, true, sha256(&secret(8))).unwrap();
    c.join_game(id, P2.to_string(), ONE_NEAR, sha256(&secret(9))).unwrap();
    // Player1 has not revealed yet.
    let r = c.second_reveal(id, P2.to_string(), secret(9));
    assert!(matches!(r, Err(GameError::GameNotActive)));
    c.first_reveal(id, P1.to_string(), 0, secret(8)).unwrap();
    let r = c.second_reveal(id, P2.to_string(), vec![0u8; 17]);
    assert!(matches!(r, Err(GameError::InvalidReveal)));
    let r = c.second_reveal(id + 1, P2.to_string(), secret(9));
    assert!(matches!(r, Err(GameError::GameNotFound)));
    let r = c.second_reveal(id, P1.to_string(), secret(9));
    assert!(matches!(r, Err(GameError::WrongPlayer)));
}

#[test]
fn second_reveal_parity_formula() {
    // guess = false bets on an odd sum; 1 + 2 = 3 is odd, so player1 wins.
    let mut c = Contract::new();
    let id = c.create_game(P1.to_string(), ONE_NEAR, false, sha256(&secret(1))).unwrap();
    c.join_game(id, P2.to_string(), ONE_NEAR, sha256(&secret(2))).unwrap();
    c.first_reveal(id, P1.to_string(), 0, secret(1)).unwrap();
    let t = c.second_reveal(id, P2.to_string(), secret(2)).unwrap();
    assert_eq!(t.recipient, P1);

    // guess = false with an even sum (1 + 3) loses to player2.
    let mut c = Contract::new();
    let id = c.create_game(P1.to_string(), ONE_NEAR, false, sha256(&secret(1))).unwrap();
    c.join_game(id, P2.to_string(), ONE_NEAR, sha256(&secret(3))).unwrap();
    c.first_reveal(id, P1.to_string(), 0, secret(1)).unwrap();
    let t = c.second_reveal(id, P2.to_string(), secret(3)).unwrap();
    assert_eq!(t.recipient, P2);
    let g = c.get_game_state(id).unwrap();
    assert_eq!(g.player2_reveal.as_deref(), Some(secret(3).as_slice()));
}

#[test]
fn get_prize_rejections() {
    let mut c = Contract::new();
    let id = c.create_game(P1.to_string(), ONE_NEAR, true, sha256(&secret(8))).unwrap();
    let r = c.get_prize(id + 1, P1.to_string(), 2 * ONE_MINUTE);
    assert!(matches!(r, Err(GameError::GameNotFound)));
    let r = c.get_prize(id, P1.to_string(), 2 * ONE_MINUTE);
    assert!(matches!(r, Err(GameError::GameNotActive)));
    c.join_game(id, P2.to_string(), ONE_NEAR, sha256(&secret(9))).unwrap();
    c.first_reveal(id, P1.to_string(), 0, secret(8)).unwrap();
    let r = c.get_prize(id, P2.to_string(), 2 * ONE_MINUTE);
    assert!(matches!(r, Err(GameError::WrongPlayer)));
    let r = c.get_prize(id, P1.to_string(), ONE_MINUTE);
    assert!(matches!(r, Err(GameError::TooEarly)));
    // The game is untouched by the rejected attempts.
    let g = c.get_game_state(id).unwrap();
    assert!(matches!(g.game_state, GameState::Revealed));
}

#[test]
fn state_cleaner_purges_only_ended_games() {
    let mut c = Contract::new();
    // Game 0 will end through a dishonest first reveal.
    let ended = c.create_game(P1.to_string(), ONE_NEAR, true, sha256(&secret(1))).unwrap();
    c.join_game(ended, P2.to_string(), ONE_NEAR, sha256(&secret(2))).unwrap();
    c.first_reveal(ended, P1.to_string(), 0, secret(3)).unwrap();
    // Game 1 stays open.
    let open = c.create_game(P3.to_string(), ONE_NEAR, false, sha256(&secret(4))).unwrap();

    c.state_cleaner();
    assert!(matches!(c.get_game_state(ended), Err(GameError::GameNotFound)));
    let g = c.get_game_state(open).unwrap();
    assert!(matches!(g.game_state, GameState::Created));
    assert_eq!(g.player1, P3);

    // A second run is a no-op, and the id counter never rewinds.
    c.state_cleaner();
    assert!(c.get_game_state(open).is_ok());
    assert_eq!(c.next_game_id(), 2);
    let later = c.create_game(P1.to_string(), ONE_NEAR, true, sha256(&secret(5))).unwrap();
    assert_eq!(later, 2);
}

#[test]
fn example_scenario() {
    // Player1 guesses "even", commits to an even secret; player2 commits
    // to an odd one. Both reveal honestly: the sum is odd, player2 wins
    // the whole pot of two stakes.
    let s1 = 6u128;
    let s2 = 9u128;
    let mut c = Contract::new();
    let id = c.create_game(P1.to_string(), ONE_NEAR, true, sha256(&secret(s1))).unwrap();
    c.join_game(id, P2.to_string(), ONE_NEAR, sha256(&secret(s2))).unwrap();
    let payout = c.first_reveal(id, P1.to_string(), 0, secret(s1)).unwrap();
    assert!(payout.is_none());
    let t = c.second_reveal(id, P2.to_string(), secret(s2)).unwrap();
    assert_eq!(t.recipient, P2);
    assert_eq!(t.amount, 2 * ONE_NEAR);
    let g = c.get_game_state(id).unwrap();
    assert!(matches!(g.game_state, GameState::Ended));
    assert_eq!(g.winner.as_deref(), Some(P2));
}
