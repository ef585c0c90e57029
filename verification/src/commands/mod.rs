//! The commands that work on a decrypted vault.

pub mod change;
pub mod diff;
pub mod query;
