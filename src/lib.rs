//! Line, word, character, byte and longest-line statistics over byte streams.
//!
//! The counting engine is a state machine fed with chunks of bytes; its result
//! never depends on where the chunk boundaries fall.
pub mod counts;
pub mod dispatch;
pub mod engine;
pub mod report;
pub mod selection;
