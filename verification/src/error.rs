use vstd::prelude::*;

verus! {

/// Why an instruction was rejected.  A rejected instruction leaves every
/// account exactly as it found it.
#[derive(Clone, Copy, Debug, PartialEq, Eq, Structural)]
pub enum AppError {
    /// The instruction bytes are empty, carry an unknown tag or a short
    /// payload, or the account that must sign an entry did not sign.
    InvalidInstruction,
    /// The storage account is not owned by this program, or no candidate
    /// account carries the winner's identifier.
    IncorrectProgramId,
    /// The participant already holds a slot.
    DuplicateEntry,
    /// The participant cannot pay the entry fee.
    LowBalance,
    /// Every slot is taken.
    NoRoom,
    /// Resolution was asked for while a slot is still empty.
    EmptyRoom,
    /// The initializer did not sign the resolution.
    MustSigner,
    /// The account asking for resolution is not the stored initializer.
    Unauthorized,
    /// Fewer accounts were supplied than the instruction needs.
    NotEnoughAccountKeys,
    /// The storage data does not have the length of a record.
    InvalidAccountData,
    /// The clock could not be read.
    UnsupportedSysvar,
    /// A balance or a payout does not fit the amounts on the accounts.
    ArithmeticOverflow,
}

} // verus!
