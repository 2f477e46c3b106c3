//! A two-party, binary-outcome wager settled through a cryptographic
//! commit-reveal protocol, with escrowed stakes and automated payout.
//!
//! The library is the game state machine and payout engine: it decides who
//! gets how much and when. Caller identity, attached deposits and the
//! current ledger time are supplied by the surrounding runtime as plain
//! arguments; payouts are returned as [`game::Transfer`] instructions for
//! the external transfer collaborator to perform.

use vstd::prelude::*;

pub mod consts;
pub mod game;
pub mod registry;

verus! {

use crate::consts::{ONE_MINUTE, ONE_NEAR};
use crate::game::{Balance, Game, GameError, GameId, GameState, Transfer};
use crate::registry::{has_key, idx_of, keys_distinct, lemma_idx_of, lemma_map_of_push,
    lemma_map_of_update, map_of};

/// The registry of games: the only shared mutable state. It owns every
/// game record and assigns identifiers from a monotonically increasing
/// counter that is never reset or decremented.
pub struct Contract {
    games: Vec<(GameId, Game)>,
    next_game_id: GameId,
}

/// The registry after garbage collection: every ended game removed,
/// every other game untouched.
pub open spec fn cleaned(m: Map<GameId, Game>) -> Map<GameId, Game> {
    Map::new(|k: GameId| m.contains_key(k) && !(m[k].game_state is Ended), |k: GameId| m[k])
}

/// Purging ended games twice is the same as purging them once.
pub proof fn lemma_cleaned_idempotent(m: Map<GameId, Game>)
    ensures
        cleaned(cleaned(m)) == cleaned(m),
{
    assert(cleaned(cleaned(m)) =~= cleaned(m));
}

/// The entry `x` stands somewhere at or after position `i` of `s`.
spec fn entry_from(s: Seq<(GameId, Game)>, i: int, x: (GameId, Game)) -> bool {
    exists|l: int| i <= l < s.len() && s[l] == x
}

proof fn entry_from_witness(s: Seq<(GameId, Game)>, i: int, x: (GameId, Game)) -> (l: int)
    requires
        entry_from(s, i, x),
    ensures
        i <= l < s.len(),
        s[l] == x,
{
    choose|l: int| i <= l < s.len() && s[l] == x
}

proof fn lemma_entry_from_widen(s: Seq<(GameId, Game)>, i: int, i2: int, x: (GameId, Game))
    requires
        entry_from(s, i, x),
        i2 <= i,
    ensures
        entry_from(s, i2, x),
{
    let l = entry_from_witness(s, i, x);
    assert(i2 <= l < s.len() && s[l] == x);
}

/// The entry `x` stands somewhere in `s`.
spec fn appears(s: Seq<(GameId, Game)>, x: (GameId, Game)) -> bool {
    exists|j: int| 0 <= j < s.len() && s[j] == x
}

proof fn appears_witness(s: Seq<(GameId, Game)>, x: (GameId, Game)) -> (j: int)
    requires
        appears(s, x),
    ensures
        0 <= j < s.len(),
        s[j] == x,
{
    choose|j: int| 0 <= j < s.len() && s[j] == x
}

proof fn lemma_appears_push(s: Seq<(GameId, Game)>, p: (GameId, Game), x: (GameId, Game))
    requires
        appears(s, x),
    ensures
        appears(s.push(p), x),
{
    let j = appears_witness(s, x);
    assert(s.push(p)[j] == x);
}

impl View for Contract {
    type V = Map<GameId, Game>;

    closed spec fn view(&self) -> Map<GameId, Game> {
        map_of(self.games@)
    }
}

impl Contract {
    /// The identifier the next created game will receive.
    pub closed spec fn next_id(self) -> GameId {
        self.next_game_id
    }

    /// The registry's invariant: identifiers are distinct and below the
    /// counter, and every stored game is well formed.
    pub closed spec fn wf(self) -> bool {
        &&& keys_distinct(self.games@)
        &&& forall|i: int|
            0 <= i < self.games@.len() ==> (#[trigger] self.games@[i]).0 < self.next_game_id
        &&& forall|i: int| 0 <= i < self.games@.len() ==> (#[trigger] self.games@[i]).1.wf()
    }

    /// An empty registry whose counter starts at zero.
    pub fn new() -> (r: Contract)
        ensures
            r.wf(),
            r@ == Map::<GameId, Game>::empty(),
            r.next_id() == 0,
    {
        let r = Contract { games: Vec::new(), next_game_id: 0 };
        proof {
            assert(r@ =~= Map::<GameId, Game>::empty());
        }
        r
    }

    /// The position of the entry for `game_id`, if the game exists.
    fn find_index(&self, game_id: GameId) -> (r: Option<usize>)
        ensures
            match r {
                Some(i) => i < self.games@.len() && self.games@[i as int].0 == game_id,
                None => !has_key(self.games@, game_id),
            },
    {
        let mut i: usize = 0;
        while i < self.games.len()
            invariant
                i <= self.games@.len(),
                forall|j: int| 0 <= j < i ==> self.games@[j].0 != game_id,
            decreases self.games@.len() - i,
        {
            if self.games[i].0 == game_id {
                return Some(i);
            }
            i += 1;
        }
        None
    }

    /// Opens a new wager. The caller publishes a guess on the combined
    /// parity and a 32-byte commitment, and escrows the attached deposit
    /// as the stake the second player must match.
    pub fn create_game(
        &mut self,
        caller: String,
        deposit: Balance,
        guess: bool,
        commit: Vec<u8>,
    ) -> (r: Result<GameId, GameError>)
        requires
            old(self).wf(),
            old(self).next_id() < GameId::MAX,
            deposit <= Balance::MAX / 2,
        ensures
            final(self).wf(),
            r is Ok <==> (commit@.len() == 32 && deposit >= ONE_NEAR),
            r == Err::<GameId, GameError>(GameError::InvalidCommit) <==> commit@.len() != 32,
            r == Err::<GameId, GameError>(GameError::DepositTooLow) <==> (commit@.len() == 32
                && deposit < ONE_NEAR),
            r matches Ok(id) ==> ({
                &&& id == old(self).next_id()
                &&& final(self).next_id() == old(self).next_id() + 1
                &&& final(self)@ == old(self)@.insert(
                    id,
                    (Game {
                        game_state: GameState::Created,
                        player1: caller,
                        player2: None,
                        player1_guess: guess,
                        deposit: deposit,
                        player1_commit: commit,
                        player2_commit: None,
                        player1_reveal: None,
                        player2_reveal: None,
                        reveal_time: None,
                        winner: None,
                    }),
                )
            }),
            r is Err ==> final(self)@ == old(self)@ && final(self).next_id() == old(self).next_id(),
    {
        if commit.len() != 32 {
            return Err(GameError::InvalidCommit);
        }
        if deposit < ONE_NEAR {
            return Err(GameError::DepositTooLow);
        }
        let game_id = self.next_game_id;
        let game = Game {
            game_state: GameState::Created,
            player1: caller,
            player2: None,
            player1_guess: guess,
            deposit: deposit,
            player1_commit: commit,
            player2_commit: None,
            player1_reveal: None,
            player2_reveal: None,
            reveal_time: None,
            winner: None,
        };
        proof {
            let s = self.games@;
            if has_key(s, game_id) {
                let i = choose|i: int| 0 <= i < s.len() && s[i].0 == game_id;
                assert(s[i].0 < self.next_game_id);
            }
            lemma_map_of_push(s, game_id, game);
        }
        self.games.push((game_id, game));
        self.next_game_id = self.next_game_id + 1;
        Ok(game_id)
    }

    /// Joins a `Created` game as its second player, matching the stake
    /// with the attached deposit; any excess over the stake is refunded
    /// to the caller at once.
    pub fn join_game(
        &mut self,
        game_id: GameId,
        caller: String,
        deposit: Balance,
        commit: Vec<u8>,
    ) -> (r: Result<Option<Transfer>, GameError>)
        requires
            old(self).wf(),
        ensures
            final(self).wf(),
            final(self).next_id() == old(self).next_id(),
            r == Err::<Option<Transfer>, GameError>(GameError::InvalidCommit) <==> commit@.len()
                != 32,
            r == Err::<Option<Transfer>, GameError>(GameError::GameNotFound) <==> (commit@.len()
                == 32 && !old(self)@.contains_key(game_id)),
            r == Err::<Option<Transfer>, GameError>(GameError::GameNotActive) <==> (commit@.len()
                == 32 && old(self)@.contains_key(game_id) && !(old(
                self,
            )@[game_id].game_state is Created)),
            r == Err::<Option<Transfer>, GameError>(GameError::DepositTooLow) <==> (commit@.len()
                == 32 && old(self)@.contains_key(game_id) && old(
                self,
            )@[game_id].game_state is Created && deposit < old(self)@[game_id].deposit),
            r is Ok <==> (commit@.len() == 32 && old(self)@.contains_key(game_id) && old(
                self,
            )@[game_id].game_state is Created && deposit >= old(self)@[game_id].deposit),
            r is Err ==> final(self)@ == old(self)@,
            r matches Ok(refund) ==> ({
                let g = old(self)@[game_id];
                &&& final(self)@ == old(self)@.insert(
                    game_id,
                    (Game {
                        game_state: GameState::Initialized,
                        player1: g.player1,
                        player2: Some(caller),
                        player1_guess: g.player1_guess,
                        deposit: g.deposit,
                        player1_commit: g.player1_commit,
                        player2_commit: Some(commit),
                        player1_reveal: g.player1_reveal,
                        player2_reveal: g.player2_reveal,
                        reveal_time: g.reveal_time,
                        winner: g.winner,
                    }),
                )
                &&& (deposit > g.deposit ==> (refund matches Some(t) && t.recipient == caller
                    && t.amount == deposit - g.deposit))
                &&& (deposit <= g.deposit ==> refund is None)
            }),
    {
        if commit.len() != 32 {
            return Err(GameError::InvalidCommit);
        }
        let idx = match self.find_index(game_id) {
            Some(i) => i,
            None => {
                return Err(GameError::GameNotFound);
            },
        };
        proof {
            assert(has_key(self.games@, game_id));
            lemma_idx_of(self.games@, game_id);
            assert(idx_of(self.games@, game_id) == idx as int);
        }
        match self.games[idx].1.game_state {
            GameState::Created => {},
            _ => {
                return Err(GameError::GameNotActive);
            },
        }
        if deposit < self.games[idx].1.deposit {
            return Err(GameError::DepositTooLow);
        }
        let stake = self.games[idx].1.deposit;
        let refund = if deposit > stake {
            Some(Transfer { recipient: caller.clone(), amount: deposit - stake })
        } else {
            None
        };
        let entry = self.games.remove(idx);
        let id = entry.0;
        let g = entry.1;
        let new_game = Game {
            game_state: GameState::Initialized,
            player1: g.player1,
            player2: Some(caller),
            player1_guess: g.player1_guess,
            deposit: g.deposit,
            player1_commit: g.player1_commit,
            player2_commit: Some(commit),
            player1_reveal: g.player1_reveal,
            player2_reveal: g.player2_reveal,
            reveal_time: g.reveal_time,
            winner: g.winner,
        };
        self.games.insert(idx, (id, new_game));
        proof {
            let s = old(self).games@;
            assert(self.games@ =~= s.update(idx as int, (game_id, new_game)));
            lemma_map_of_update(s, idx as int, new_game);
            let s2 = self.games@;
            assert forall|i: int| 0 <= i < s2.len() implies (#[trigger] s2[i]).0
                < self.next_game_id by {
                assert(s2[i].0 == s[i].0);
            }
            assert forall|i: int| 0 <= i < s2.len() implies (#[trigger] s2[i]).1.wf() by {
                if i != idx as int {
                    assert(s2[i].1 == s[i].1);
                }
            }
        }
        Ok(refund)
    }

    /// The first player's reveal. A secret matching the published
    /// commitment moves the game to `Revealed` and starts the reveal
    /// deadline at `now`; a mismatch forfeits the game to player2, who is
    /// paid the whole pot at once.
    pub fn first_reveal(
        &mut self,
        game_id: GameId,
        caller: String,
        now: u64,
        reveal: Vec<u8>,
    ) -> (r: Result<Option<Transfer>, GameError>)
        requires
            old(self).wf(),
        ensures
            final(self).wf(),
            final(self).next_id() == old(self).next_id(),
            r == Err::<Option<Transfer>, GameError>(GameError::InvalidReveal) <==> reveal@.len()
                != 16,
            r == Err::<Option<Transfer>, GameError>(GameError::GameNotFound) <==> (reveal@.len()
                == 16 && !old(self)@.contains_key(game_id)),
            r == Err::<Option<Transfer>, GameError>(GameError::GameNotActive) <==> (reveal@.len()
                == 16 && old(self)@.contains_key(game_id) && !(old(
                self,
            )@[game_id].game_state is Initialized)),
            r == Err::<Option<Transfer>, GameError>(GameError::WrongPlayer) <==> (reveal@.len()
                == 16 && old(self)@.contains_key(game_id) && old(
                self,
            )@[game_id].game_state is Initialized && caller@ != old(self)@[game_id].player1@),
            r is Ok <==> (reveal@.len() == 16 && old(self)@.contains_key(game_id) && old(
                self,
            )@[game_id].game_state is Initialized && caller@ == old(self)@[game_id].player1@),
            r is Err ==> final(self)@ == old(self)@,
            r matches Ok(payout) ==> ({
                let g = old(self)@[game_id];
                &&& (crate::game::reveals_match(g.player1_commit@, reveal@) ==> ({
                    &&& payout is None
                    &&& final(self)@ == old(self)@.insert(
                        game_id,
                        (Game {
                            game_state: GameState::Revealed,
                            player1: g.player1,
                            player2: g.player2,
                            player1_guess: g.player1_guess,
                            deposit: g.deposit,
                            player1_commit: g.player1_commit,
                            player2_commit: g.player2_commit,
                            player1_reveal: Some(reveal),
                            player2_reveal: g.player2_reveal,
                            reveal_time: Some(now),
                            winner: g.winner,
                        }),
                    )
                }))
                &&& (!crate::game::reveals_match(g.player1_commit@, reveal@) ==> ({
                    &&& (payout matches Some(t) && t.recipient == g.player2->Some_0 && t.amount
                        == 2 * g.deposit)
                    &&& final(self)@ == old(self)@.insert(
                        game_id,
                        (Game {
                            game_state: GameState::Ended,
                            player1: g.player1,
                            player2: g.player2,
                            player1_guess: g.player1_guess,
                            deposit: g.deposit,
                            player1_commit: g.player1_commit,
                            player2_commit: g.player2_commit,
                            player1_reveal: Some(reveal),
                            player2_reveal: g.player2_reveal,
                            reveal_time: g.reveal_time,
                            winner: Some(g.player2->Some_0),
                        }),
                    )
                }))
            }),
    {
        if reveal.len() != 16 {
            return Err(GameError::InvalidReveal);
        }
        let idx = match self.find_index(game_id) {
            Some(i) => i,
            None => {
                return Err(GameError::GameNotFound);
            },
        };
        proof {
            assert(has_key(self.games@, game_id));
            lemma_idx_of(self.games@, game_id);
            assert(idx_of(self.games@, game_id) == idx as int);
        }
        match self.games[idx].1.game_state {
            GameState::Initialized => {},
            _ => {
                return Err(GameError::GameNotActive);
            },
        }
        if self.games[idx].1.player1 != caller {
            return Err(GameError::WrongPlayer);
        }
        let entry = self.games.remove(idx);
        let id = entry.0;
        let g = entry.1;
        let matched = Game::commit_reveal(g.player1_commit.as_slice(), reveal.as_slice());
        if matched {
            let new_game = Game {
                game_state: GameState::Revealed,
                player1: g.player1,
                player2: g.player2,
                player1_guess: g.player1_guess,
                deposit: g.deposit,
                player1_commit: g.player1_commit,
                player2_commit: g.player2_commit,
                player1_reveal: Some(reveal),
                player2_reveal: g.player2_reveal,
                reveal_time: Some(now),
                winner: g.winner,
            };
            self.games.insert(idx, (id, new_game));
            proof {
                let s = old(self).games@;
                assert(self.games@ =~= s.update(idx as int, (game_id, new_game)));
                lemma_map_of_update(s, idx as int, new_game);
                let s2 = self.games@;
                assert forall|i: int| 0 <= i < s2.len() implies (#[trigger] s2[i]).0
                    < self.next_game_id by {
                    assert(s2[i].0 == s[i].0);
                }
                assert forall|i: int| 0 <= i < s2.len() implies (#[trigger] s2[i]).1.wf() by {
                    if i != idx as int {
                        assert(s2[i].1 == s[i].1);
                    }
                }
            }
            Ok(None)
        } else {
            let p2a = match &g.player2 {
                Some(a) => a.clone(),
                None => unreached(),
            };
            let p2b = match &g.player2 {
                Some(a) => a.clone(),
                None => unreached(),
            };
            let pot = g.deposit * 2;
            let new_game = Game {
                game_state: GameState::Ended,
                player1: g.player1,
                player2: g.player2,
                player1_guess: g.player1_guess,
                deposit: g.deposit,
                player1_commit: g.player1_commit,
                player2_commit: g.player2_commit,
                player1_reveal: Some(reveal),
                player2_reveal: g.player2_reveal,
                reveal_time: g.reveal_time,
                winner: Some(p2a),
            };
            self.games.insert(idx, (id, new_game));
            proof {
                let s = old(self).games@;
                assert(self.games@ =~= s.update(idx as int, (game_id, new_game)));
                lemma_map_of_update(s, idx as int, new_game);
                let s2 = self.games@;
                assert forall|i: int| 0 <= i < s2.len() implies (#[trigger] s2[i]).0
                    < self.next_game_id by {
                    assert(s2[i].0 == s[i].0);
                }
                assert forall|i: int| 0 <= i < s2.len() implies (#[trigger] s2[i]).1.wf() by {
                    if i != idx as int {
                        assert(s2[i].1 == s[i].1);
                    }
                }
            }
            Ok(Some(Transfer { recipient: p2b, amount: pot }))
        }
    }

    /// The second player's reveal; it always ends the game and pays the
    /// pot. A secret matching the commitment settles the wager by the
    /// combined parity of the two secrets against player1's guess; a
    /// mismatch forfeits the pot to player1.
    pub fn second_reveal(
        &mut self,
        game_id: GameId,
        caller: String,
        reveal: Vec<u8>,
    ) -> (r: Result<Transfer, GameError>)
        requires
            old(self).wf(),
        ensures
            final(self).wf(),
            final(self).next_id() == old(self).next_id(),
            r == Err::<Transfer, GameError>(GameError::InvalidReveal) <==> reveal@.len() != 16,
            r == Err::<Transfer, GameError>(GameError::GameNotFound) <==> (reveal@.len() == 16
                && !old(self)@.contains_key(game_id)),
            r == Err::<Transfer, GameError>(GameError::GameNotActive) <==> (reveal@.len() == 16
                && old(self)@.contains_key(game_id) && !(old(
                self,
            )@[game_id].game_state is Revealed)),
            r == Err::<Transfer, GameError>(GameError::WrongPlayer) <==> (reveal@.len() == 16
                && old(self)@.contains_key(game_id) && old(
                self,
            )@[game_id].game_state is Revealed && caller@ != old(
                self,
            )@[game_id].player2->Some_0@),
            r is Ok <==> (reveal@.len() == 16 && old(self)@.contains_key(game_id) && old(
                self,
            )@[game_id].game_state is Revealed && caller@ == old(self)@[game_id].player2->Some_0@),
            r is Err ==> final(self)@ == old(self)@,
            r matches Ok(t) ==> ({
                let g = old(self)@[game_id];
                let honest = crate::game::reveals_match(g.player2_commit->Some_0@, reveal@);
                let p1_wins = !honest || crate::game::player1_wins(
                    g.player1_guess,
                    g.player1_reveal->Some_0@,
                    reveal@,
                );
                let w = if p1_wins {
                    g.player1
                } else {
                    g.player2->Some_0
                };
                &&& t.recipient == w
                &&& t.amount == 2 * g.deposit
                &&& final(self)@ == old(self)@.insert(
                    game_id,
                    (Game {
                        game_state: GameState::Ended,
                        player1: g.player1,
                        player2: g.player2,
                        player1_guess: g.player1_guess,
                        deposit: g.deposit,
                        player1_commit: g.player1_commit,
                        player2_commit: g.player2_commit,
                        player1_reveal: g.player1_reveal,
                        player2_reveal: Some(reveal),
                        reveal_time: g.reveal_time,
                        winner: Some(w),
                    }),
                )
            }),
    {
        if reveal.len() != 16 {
            return Err(GameError::InvalidReveal);
        }
        let idx = match self.find_index(game_id) {
            Some(i) => i,
            None => {
                return Err(GameError::GameNotFound);
            },
        };
        proof {
            assert(has_key(self.games@, game_id));
            lemma_idx_of(self.games@, game_id);
            assert(idx_of(self.games@, game_id) == idx as int);
            assert(self.games@[idx as int].1.wf());
        }
        match self.games[idx].1.game_state {
            GameState::Revealed => {},
            _ => {
                return Err(GameError::GameNotActive);
            },
        }
        let caller_is_p2 = match &self.games[idx].1.player2 {
            Some(p) => *p == caller,
            None => unreached(),
        };
        if !caller_is_p2 {
            return Err(GameError::WrongPlayer);
        }
        let entry = self.games.remove(idx);
        let id = entry.0;
        let g = entry.1;
        let honest = match &g.player2_commit {
            Some(c) => Game::commit_reveal(c.as_slice(), reveal.as_slice()),
            None => unreached(),
        };
        let p1_wins_now = if !honest {
            true
        } else {
            let last1 = match &g.player1_reveal {
                Some(v) => v[15],
                None => unreached(),
            };
            let parity_is_even = (last1 % 2 + reveal[15] % 2) % 2 == 0;
            proof {
                let r1 = g.player1_reveal->Some_0@;
                crate::game::lemma_parity_from_last(r1, reveal@);
                assert(r1[15] == r1.last());
                assert(reveal@[15] == reveal@.last());
            }
            g.player1_guess == parity_is_even
        };
        let winner_name = if p1_wins_now {
            g.player1.clone()
        } else {
            match &g.player2 {
                Some(a) => a.clone(),
                None => unreached(),
            }
        };
        let recipient_name = if p1_wins_now {
            g.player1.clone()
        } else {
            match &g.player2 {
                Some(a) => a.clone(),
                None => unreached(),
            }
        };
        let pot = g.deposit * 2;
        let new_game = Game {
            game_state: GameState::Ended,
            player1: g.player1,
            player2: g.player2,
            player1_guess: g.player1_guess,
            deposit: g.deposit,
            player1_commit: g.player1_commit,
            player2_commit: g.player2_commit,
            player1_reveal: g.player1_reveal,
            player2_reveal: Some(reveal),
            reveal_time: g.reveal_time,
            winner: Some(winner_name),
        };
        self.games.insert(idx, (id, new_game));
        proof {
            let s = old(self).games@;
            assert(self.games@ =~= s.update(idx as int, (game_id, new_game)));
            lemma_map_of_update(s, idx as int, new_game);
            let s2 = self.games@;
            assert forall|i: int| 0 <= i < s2.len() implies (#[trigger] s2[i]).0
                < self.next_game_id by {
                assert(s2[i].0 == s[i].0);
            }
            assert forall|i: int| 0 <= i < s2.len() implies (#[trigger] s2[i]).1.wf() by {
                if i != idx as int {
                    assert(s2[i].1 == s[i].1);
                }
            }
        }
        Ok(Transfer { recipient: recipient_name, amount: pot })
    }

    /// The timeout-forfeiture path: once the second player has stalled
    /// past the reveal deadline, the first player may claim the whole pot.
    pub fn get_prize(&mut self, game_id: GameId, caller: String, now: u64) -> (r: Result<
        Transfer,
        GameError,
    >)
        requires
            old(self).wf(),
        ensures
            final(self).wf(),
            final(self).next_id() == old(self).next_id(),
            r == Err::<Transfer, GameError>(GameError::GameNotFound) <==> !old(
                self,
            )@.contains_key(game_id),
            r == Err::<Transfer, GameError>(GameError::GameNotActive) <==> (old(
                self,
            )@.contains_key(game_id) && !(old(self)@[game_id].game_state is Revealed)),
            r == Err::<Transfer, GameError>(GameError::WrongPlayer) <==> (old(
                self,
            )@.contains_key(game_id) && old(self)@[game_id].game_state is Revealed && caller@
                != old(self)@[game_id].player1@),
            r == Err::<Transfer, GameError>(GameError::TooEarly) <==> (old(self)@.contains_key(
                game_id,
            ) && old(self)@[game_id].game_state is Revealed && caller@ == old(
                self,
            )@[game_id].player1@ && now <= old(self)@[game_id].reveal_time->Some_0 + ONE_MINUTE),
            r is Ok <==> (old(self)@.contains_key(game_id) && old(
                self,
            )@[game_id].game_state is Revealed && caller@ == old(self)@[game_id].player1@ && now
                > old(self)@[game_id].reveal_time->Some_0 + ONE_MINUTE),
            r is Err ==> final(self)@ == old(self)@,
            r matches Ok(t) ==> ({
                let g = old(self)@[game_id];
                &&& t.recipient == caller
                &&& t.amount == 2 * g.deposit
                &&& final(self)@ == old(self)@.insert(
                    game_id,
                    (Game {
                        game_state: GameState::Ended,
                        player1: g.player1,
                        player2: g.player2,
                        player1_guess: g.player1_guess,
                        deposit: g.deposit,
                        player1_commit: g.player1_commit,
                        player2_commit: g.player2_commit,
                        player1_reveal: g.player1_reveal,
                        player2_reveal: g.player2_reveal,
                        reveal_time: g.reveal_time,
                        winner: Some(caller),
                    }),
                )
            }),
    {
        let idx = match self.find_index(game_id) {
            Some(i) => i,
            None => {
                return Err(GameError::GameNotFound);
            },
        };
        proof {
            assert(has_key(self.games@, game_id));
            lemma_idx_of(self.games@, game_id);
            assert(idx_of(self.games@, game_id) == idx as int);
            assert(self.games@[idx as int].1.wf());
        }
        match self.games[idx].1.game_state {
            GameState::Revealed => {},
            _ => {
                return Err(GameError::GameNotActive);
            },
        }
        if self.games[idx].1.player1 != caller {
            return Err(GameError::WrongPlayer);
        }
        let reveal_time = match &self.games[idx].1.reveal_time {
            Some(t) => *t,
            None => unreached(),
        };
        if (now as u128) <= (reveal_time as u128) + (ONE_MINUTE as u128) {
            return Err(GameError::TooEarly);
        }
        let entry = self.games.remove(idx);
        let id = entry.0;
        let g = entry.1;
        let pot = g.deposit * 2;
        let new_game = Game {
            game_state: GameState::Ended,
            player1: g.player1,
            player2: g.player2,
            player1_guess: g.player1_guess,
            deposit: g.deposit,
            player1_commit: g.player1_commit,
            player2_commit: g.player2_commit,
            player1_reveal: g.player1_reveal,
            player2_reveal: g.player2_reveal,
            reveal_time: g.reveal_time,
            winner: Some(caller.clone()),
        };
        self.games.insert(idx, (id, new_game));
        proof {
            let s = old(self).games@;
            assert(self.games@ =~= s.update(idx as int, (game_id, new_game)));
            lemma_map_of_update(s, idx as int, new_game);
            let s2 = self.games@;
            assert forall|i: int| 0 <= i < s2.len() implies (#[trigger] s2[i]).0
                < self.next_game_id by {
                assert(s2[i].0 == s[i].0);
            }
            assert forall|i: int| 0 <= i < s2.len() implies (#[trigger] s2[i]).1.wf() by {
                if i != idx as int {
                    assert(s2[i].1 == s[i].1);
                }
            }
        }
        Ok(Transfer { recipient: caller, amount: pot })
    }

    /// Read-only lookup of a game's full record.
    pub fn get_game_state(&self, game_id: GameId) -> (r: Result<&Game, GameError>)
        requires
            self.wf(),
        ensures
            r is Ok <==> self@.contains_key(game_id),
            r matches Ok(g) ==> *g == self@[game_id],
            r matches Err(e) ==> e == GameError::GameNotFound,
    {
        match self.find_index(game_id) {
            Some(i) => {
                proof {
                    assert(has_key(self.games@, game_id));
                    lemma_idx_of(self.games@, game_id);
                    assert(idx_of(self.games@, game_id) == i as int);
                }
                Ok(&self.games[i].1)
            },
            None => Err(GameError::GameNotFound),
        }
    }

    /// Garbage collection for the registry: removes every ended game and
    /// leaves every other game untouched. Idempotent; safe to run at any
    /// frequency.
    pub fn state_cleaner(&mut self)
        requires
            old(self).wf(),
        ensures
            final(self).wf(),
            final(self).next_id() == old(self).next_id(),
            final(self)@ == cleaned(old(self)@),
            forall|k: GameId| #[trigger]
                final(self)@.contains_key(k) ==> !(final(self)@[k].game_state is Ended),
            forall|k: GameId|
                old(self)@.contains_key(k) && !((#[trigger] old(self)@[k]).game_state is Ended)
                    ==> final(self)@.contains_key(k) && final(self)@[k] == old(self)@[k],
    {
        let ghost s0 = self.games@;
        let ghost old_next = self.next_game_id;
        let mut kept: Vec<(GameId, Game)> = Vec::new();
        while self.games.len() > 0
            invariant
                keys_distinct(s0),
                forall|l: int| 0 <= l < s0.len() ==> (#[trigger] s0[l]).0 < old_next,
                forall|l: int| 0 <= l < s0.len() ==> (#[trigger] s0[l]).1.wf(),
                self.next_game_id == old_next,
                self.games@.len() <= s0.len(),
                self.games@ == s0.take(self.games@.len() as int),
                forall|j: int|
                    0 <= j < kept@.len() ==> entry_from(
                        s0,
                        self.games@.len() as int,
                        #[trigger] kept@[j],
                    ),
                forall|j: int|
                    0 <= j < kept@.len() ==> !((#[trigger] kept@[j]).1.game_state is Ended),
                forall|l: int|
                    self.games@.len() <= l < s0.len() && !((#[trigger] s0[l]).1.game_state
                        is Ended) ==> appears(kept@, s0[l]),
                keys_distinct(kept@),
            decreases self.games@.len(),
        {
            let ghost m = self.games@.len() as int;
            let p = match self.games.pop() {
                Some(p) => p,
                None => unreached(),
            };
            proof {
                assert(self.games@ =~= s0.take(m - 1));
                assert(p == s0[m - 1]);
            }
            match p.1.game_state {
                GameState::Ended => {
                    proof {
                        assert forall|j: int| 0 <= j < kept@.len() implies entry_from(
                            s0,
                            self.games@.len() as int,
                            #[trigger] kept@[j],
                        ) by {
                            lemma_entry_from_widen(s0, m, m - 1, kept@[j]);
                        }
                    }
                },
                _ => {
                    let ghost kept0 = kept@;
                    proof {
                        assert forall|j: int| 0 <= j < kept@.len() implies (#[trigger] kept@[j]).0
                            != p.0 by {
                            let l = entry_from_witness(s0, m, kept@[j]);
                            assert(s0[m - 1].0 != s0[l].0);
                        }
                    }
                    kept.push(p);
                    proof {
                        assert forall|j: int| 0 <= j < kept@.len() implies entry_from(
                            s0,
                            self.games@.len() as int,
                            #[trigger] kept@[j],
                        ) by {
                            if j < kept@.len() - 1 {
                                lemma_entry_from_widen(s0, m, m - 1, kept0[j]);
                            } else {
                                assert(kept@[j] == s0[m - 1]);
                            }
                        }
                        assert forall|i2: int, j2: int|
                            0 <= i2 < j2 < kept@.len() implies kept@[i2].0 != kept@[j2].0 by {
                            if j2 < kept@.len() - 1 {
                                assert(kept0[i2].0 != kept0[j2].0);
                            }
                        }
                        assert forall|l: int|
                            self.games@.len() <= l < s0.len() && !((#[trigger] s0[l]).1.game_state
                                is Ended) implies appears(kept@, s0[l]) by {
                            if l == m - 1 {
                                assert(kept@[kept@.len() - 1] == s0[l]);
                            } else {
                                lemma_appears_push(kept0, p, s0[l]);
                            }
                        }
                    }
                },
            }
        }
        self.games = kept;
        proof {
            let sk = self.games@;
            let m0 = map_of(s0);
            assert forall|j: int| 0 <= j < sk.len() implies entry_from(s0, 0, #[trigger] sk[j]) by {
                lemma_entry_from_widen(s0, 0, 0, sk[j]);
            }
            assert forall|j: int| 0 <= j < sk.len() implies (#[trigger] sk[j]).0 < old_next by {
                let l = entry_from_witness(s0, 0, sk[j]);
            }
            assert forall|j: int| 0 <= j < sk.len() implies (#[trigger] sk[j]).1.wf() by {
                let l = entry_from_witness(s0, 0, sk[j]);
            }
            assert forall|k: GameId| #[trigger]
                map_of(sk).contains_key(k) implies cleaned(m0).contains_key(k) && map_of(sk)[k]
                == cleaned(m0)[k] by {
                lemma_idx_of(sk, k);
                let j = idx_of(sk, k);
                let l = entry_from_witness(s0, 0, sk[j]);
                assert(has_key(s0, k));
                lemma_idx_of(s0, k);
                assert(idx_of(s0, k) == l);
                assert(m0[k] == s0[l].1);
                assert(!(s0[l].1.game_state is Ended));
            }
            assert forall|k: GameId| #[trigger]
                cleaned(m0).contains_key(k) implies map_of(sk).contains_key(k) by {
                lemma_idx_of(s0, k);
                let l = idx_of(s0, k);
                assert(m0[k] == s0[l].1);
                assert(!(s0[l].1.game_state is Ended));
                let j = appears_witness(sk, s0[l]);
                assert(sk[j].0 == k);
                assert(has_key(sk, k));
            }
            assert(map_of(sk) =~= cleaned(m0));
        }
    }

    /// The identifier the next created game will receive; exposed so a
    /// caller can see that the counter is still below its ceiling.
    pub fn next_game_id(&self) -> (r: GameId)
        ensures
            r == self.next_id(),
    {
        self.next_game_id
    }
}

} // verus!
