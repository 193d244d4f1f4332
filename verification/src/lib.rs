//! Rules engine of a turn-based property-trading board game whose whole state
//! lives in flat byte buffers owned by a host.
//!
//! The library frames and checks bytes (`codec`, `state`, `account`,
//! `instruction`), builds the fixed board and card decks (`board`), derives
//! reproducible pseudo-random numbers (`utils`) and applies one instruction at
//! a time to the persisted state (`processor`).
pub mod account;
pub mod board;
pub mod codec;
pub mod error;
pub mod game;
pub mod instruction;
pub mod laws;
pub mod player;
pub mod processor;
pub mod property;
pub mod pubkey;
pub mod rules;
pub mod state;
pub mod utils;
