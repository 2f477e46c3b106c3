use vstd::prelude::*;

verus! {

use crate::consts::ONE_NEAR;

/// Amount of currency in its smallest unit.
pub type Balance = u128;

/// Identifier of a game in the registry; assigned by a monotonically
/// increasing counter and never reused.
pub type GameId = u64;

/// The lifecycle phase of one wager. Transitions only ever move forward:
/// Created -> Initialized -> Revealed -> Ended.
#[derive(Clone, Copy, PartialEq, Eq, Structural, Debug)]
pub enum GameState {
    Created,
    Initialized,
    Revealed,
    Ended,
}

/// The record of one wager between two parties.
///
/// Optional fields are unset until the state transition that defines them
/// and are never reset afterwards.
#[derive(Debug)]
pub struct Game {
    pub game_state: GameState,
    pub player1: String,
    pub player2: Option<String>,
    pub player1_guess: bool,
    pub deposit: Balance,
    pub player1_commit: Vec<u8>,
    pub player2_commit: Option<Vec<u8>>,
    pub player1_reveal: Option<Vec<u8>>,
    pub player2_reveal: Option<Vec<u8>>,
    pub reveal_time: Option<u64>,
    pub winner: Option<String>,
}

/// Why an operation was rejected; a rejected operation mutates nothing.
#[derive(Clone, Copy, PartialEq, Eq, Structural, Debug)]
pub enum GameError {
    /// A commitment was not exactly 32 bytes long.
    InvalidCommit,
    /// A reveal was not exactly 16 bytes long.
    InvalidReveal,
    /// No game is registered under the given identifier.
    GameNotFound,
    /// The game is not in the state the operation expects.
    GameNotActive,
    /// The caller is not the player whose turn the operation is.
    WrongPlayer,
    /// The attached deposit is below what the operation demands.
    DepositTooLow,
    /// The reveal deadline has not elapsed yet.
    TooEarly,
}

/// An instruction to the external transfer collaborator: pay `amount` to
/// `recipient`. Issuing it is fire-and-forget; the core never awaits it.
#[derive(Debug)]
pub struct Transfer {
    pub recipient: String,
    pub amount: Balance,
}

/// The SHA-256 digest of a byte sequence, as the external hash routine
/// computes it: a function of the bytes alone.
pub uninterp spec fn sha256_of(bytes: Seq<u8>) -> Seq<u8>;

/// Relies on near_sdk::env::sha256: it returns the SHA-256 digest of the
/// input, which depends on the input bytes alone and is 32 bytes long.
#[verifier::external_body]
fn sha256_bytes(bytes: &[u8]) -> (r: Vec<u8>)
    ensures
        r@ == sha256_of(bytes@),
        r@.len() == 32,
{
    near_sdk::env::sha256(bytes)
}

/// True iff `reveal` is the preimage that `commit` was published for.
pub open spec fn reveals_match(commit: Seq<u8>, reveal: Seq<u8>) -> bool {
    sha256_of(reveal) == commit
}

/// The value of a byte sequence read as a big-endian unsigned integer.
pub open spec fn be_nat(s: Seq<u8>) -> nat
    decreases s.len(),
{
    if s.len() == 0 {
        0
    } else {
        (be_nat(s.drop_last()) * 256 + s.last()) as nat
    }
}

/// The combined coin flip: true iff the sum of the two revealed secrets,
/// each read as a big-endian unsigned integer, is even.
pub open spec fn parity_even(r1: Seq<u8>, r2: Seq<u8>) -> bool {
    (be_nat(r1) + be_nat(r2)) % 2 == 0
}

/// Player1 wins exactly when the guess made at creation names the combined
/// parity of the two revealed secrets.
pub open spec fn player1_wins(guess: bool, r1: Seq<u8>, r2: Seq<u8>) -> bool {
    guess == parity_even(r1, r2)
}

/// A big-endian number is even or odd exactly as its last byte is.
pub proof fn lemma_be_nat_parity(s: Seq<u8>)
    requires
        s.len() > 0,
    ensures
        be_nat(s) % 2 == (s.last() as nat) % 2,
{
    let rest = be_nat(s.drop_last()) as int;
    let l = s.last() as int;
    assert(be_nat(s) == rest * 256 + l);
    assert(2 * (rest * 128) == rest * 256) by (nonlinear_arith);
    vstd::arithmetic::div_mod::lemma_mod_multiples_vanish(rest * 128, l, 2);
}

/// The combined parity is decided by the last byte of each secret.
pub proof fn lemma_parity_from_last(r1: Seq<u8>, r2: Seq<u8>)
    requires
        r1.len() > 0,
        r2.len() > 0,
    ensures
        parity_even(r1, r2) == (((r1.last() as int) % 2 + (r2.last() as int) % 2) % 2 == 0),
{
    lemma_be_nat_parity(r1);
    lemma_be_nat_parity(r2);
    vstd::arithmetic::div_mod::lemma_add_mod_noop(be_nat(r1) as int, be_nat(r2) as int, 2);
}

/// Every secret verifies against the commitment published for it.
pub proof fn lemma_commit_of_secret_verifies(s: Seq<u8>)
    ensures
        reveals_match(sha256_of(s), s),
{
}

impl Game {
    /// The fields a well-formed game record holds in each state; every
    /// operation of the registry preserves this.
    pub open spec fn wf(self) -> bool {
        &&& self.player1_commit@.len() == 32
        &&& ONE_NEAR <= self.deposit
        &&& self.deposit <= Balance::MAX / 2
        &&& (self.game_state is Created ==> {
            &&& self.player2 is None
            &&& self.player2_commit is None
            &&& self.player1_reveal is None
            &&& self.player2_reveal is None
            &&& self.reveal_time is None
            &&& self.winner is None
        })
        &&& (self.game_state is Initialized ==> {
            &&& self.player2 is Some
            &&& self.player2_commit is Some
            &&& self.player2_commit->Some_0@.len() == 32
            &&& self.player1_reveal is None
            &&& self.player2_reveal is None
            &&& self.reveal_time is None
            &&& self.winner is None
        })
        &&& (self.game_state is Revealed ==> {
            &&& self.player2 is Some
            &&& self.player2_commit is Some
            &&& self.player2_commit->Some_0@.len() == 32
            &&& self.player1_reveal is Some
            &&& self.player1_reveal->Some_0@.len() == 16
            &&& reveals_match(self.player1_commit@, self.player1_reveal->Some_0@)
            &&& self.player2_reveal is None
            &&& self.reveal_time is Some
            &&& self.winner is None
        })
        &&& (self.game_state is Ended ==> self.winner is Some)
    }

    /// True iff the revealed secret hashes to the published commitment.
    pub fn commit_reveal(commit: &[u8], reveal: &[u8]) -> (r: bool)
        ensures
            r == reveals_match(commit@, reveal@),
    {
        let h = sha256_bytes(reveal);
        if h.len() != commit.len() {
            return false;
        }
        let mut i: usize = 0;
        while i < h.len()
            invariant
                h@ == sha256_of(reveal@),
                h@.len() == commit@.len(),
                i <= h@.len(),
                forall|j: int| 0 <= j < i ==> h@[j] == commit@[j],
            decreases h@.len() - i,
        {
            if h[i] != commit[i] {
                return false;
            }
            i += 1;
        }
        proof {
            assert(h@ =~= commit@);
        }
        true
    }
}

} // verus!
