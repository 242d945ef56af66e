//! Verified core of the Perlica game-server: asset lookups, character
//! progression, mail, wallet, change tracking and interest bookkeeping.

pub mod config;
pub mod logic;
