//! A pooled-entry lottery kept in a fixed-layout account record.
//!
//! Participants pay a fixed entry fee into the lottery's storage account; once
//! every slot is taken the initializer resolves the lottery and the pot is
//! split between one participant and the initializer.  Every call is isolated:
//! all state lives in the accounts handed to [`processor::Processor`].

pub mod account;
pub mod bytes;
pub mod error;
pub mod instruction;
pub mod laws;
pub mod processor;
pub mod schema;
pub mod sysvar;
