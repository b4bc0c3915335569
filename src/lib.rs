//! A proof-of-work consensus engine: chain-head tracking, difficulty
//! retargeting, proof-of-work search and fork choice, driven by one state
//! machine that turns validator events into validator commands.

pub mod difficulty;
pub mod engine;
pub mod fork;
pub mod payload;
pub mod pow;
