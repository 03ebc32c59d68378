//! Verified core of a game launcher: a small JSON reader and writer that
//! persists configuration and account state, the rules of the account list,
//! and the state machine that starts and stops the game process.

pub mod account;
pub mod json;
pub mod launch;
pub mod text;
