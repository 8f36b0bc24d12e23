//! The instructions a caller can send, and their wire format.
//!
//! | instruction | tag | payload                                              |
//! |-------------|-----|------------------------------------------------------|
//! | Init        | 0   | `entry_fees` (4 bytes, little-endian), `commission` (1 byte) |
//! | Participate | 1   | none                                                 |
//! | PickWinner  | 2   | none                                                 |

use crate::bytes::{read_u32_le, u32_from_le};
use crate::error::AppError;
use vstd::prelude::*;

verus! {

/// One request to the lottery.
#[derive(Clone, Copy, Debug, PartialEq)]
pub enum AppInstruction {
    /// Start a lottery with the given entry fee and commission percentage.
    Init { entry_fees: u32, initializers_commission: u8 },
    /// Take the next free slot and pay the entry fee.
    Participate,
    /// Resolve a full lottery.
    PickWinner,
}

/// The instruction that a byte buffer spells, if it spells one.  Bytes after
/// the tag and its payload are not read.
pub open spec fn spec_unpack_instruction(s: Seq<u8>) -> Option<AppInstruction> {
    if s.len() == 0 {
        None
    } else if s[0] == 0 {
        if s.len() >= 6 {
            Some(
                AppInstruction::Init {
                    entry_fees: u32_from_le(s.subrange(1, 5)) as u32,
                    initializers_commission: s[5],
                },
            )
        } else {
            None
        }
    } else if s[0] == 1 {
        Some(AppInstruction::Participate)
    } else if s[0] == 2 {
        Some(AppInstruction::PickWinner)
    } else {
        None
    }
}

impl AppInstruction {
    /// Decodes an instruction.  An empty buffer, an unknown tag and an
    /// `Init` with fewer than five payload bytes are all refused.
    pub fn unpack(instruction: &[u8]) -> (result: Result<AppInstruction, AppError>)
        ensures
            match spec_unpack_instruction(instruction@) {
                Some(decoded) => result == Ok::<AppInstruction, AppError>(decoded),
                None => result == Err::<AppInstruction, AppError>(AppError::InvalidInstruction),
            },
    {
        if instruction.len() == 0 {
            return Err(AppError::InvalidInstruction);
        }
        let tag: u8 = instruction[0];
        if tag == 0 {
            if instruction.len() < 6 {
                return Err(AppError::InvalidInstruction);
            }
            let entry_fees: u32 = read_u32_le(instruction, 1);
            let initializers_commission: u8 = instruction[5];
            Ok(AppInstruction::Init { entry_fees, initializers_commission })
        } else if tag == 1 {
            Ok(AppInstruction::Participate)
        } else if tag == 2 {
            Ok(AppInstruction::PickWinner)
        } else {
            Err(AppError::InvalidInstruction)
        }
    }
}

} // verus!
