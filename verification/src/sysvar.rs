//! What the lottery takes from the `solana_program` crate: the number of base
//! units in one unit of native currency, and the cluster clock.

use solana_program::clock::Clock;
use solana_program::program_error::ProgramError;
use solana_program::sysvar::Sysvar;
use vstd::prelude::*;

verus! {

/// `solana_program::program_error::ProgramError`.  Nothing is known of a
/// value of this type; it is only told apart from success.
#[verifier::external_type_specification]
#[verifier::external_body]
pub struct ExProgramError(ProgramError);

/// Base units (lamports) in one whole unit of native currency.
pub const LAMPORTS_PER_SOL: u64 = 1_000_000_000;

/// Hands out `solana_program::native_token::LAMPORTS_PER_SOL`.
///
/// Trusted: that constant is 10^9, as its definition in the crate reads.
#[verifier::external_body]
pub(crate) fn lamports_per_sol() -> (n: u64)
    ensures
        n == LAMPORTS_PER_SOL,
{
    solana_program::native_token::LAMPORTS_PER_SOL
}

/// Reads the clock with `Clock::get` of `solana_program::sysvar::Sysvar` and
/// hands out its `unix_timestamp`, or the error the read ended in.
///
/// Trusted, and nothing is claimed: the time is whatever the cluster says,
/// and outside a running program the read fails.
#[verifier::external_body]
pub(crate) fn clock_unix_timestamp() -> (now: Result<i64, ProgramError>) {
    Clock::get().map(|clock| clock.unix_timestamp)
}

} // verus!
