use vstd::prelude::*;

verus! {

/// Smallest-unit value of one whole currency token; the minimum stake a
/// creator must deposit.
pub const ONE_NEAR: u128 = 1_000_000_000_000_000_000_000_000;

/// Nanoseconds of ledger time in one second.
pub const ONE_SECOND: u64 = 1_000_000_000;

/// Nanoseconds of ledger time in one minute; the reveal timeout window
/// granted to the second player once the first player has revealed.
pub const ONE_MINUTE: u64 = 60 * ONE_SECOND;

} // verus!
