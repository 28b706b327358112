//! A small line editor core: address and command parsing, and a buffer
//! engine that applies commands with cursor bookkeeping.

pub mod error;
pub mod logger;
pub mod parser;
pub mod engine;
pub mod laws;
pub mod text;
