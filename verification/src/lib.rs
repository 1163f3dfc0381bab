//! A minimal interpreter for a tape-based esoteric language with eight
//! instructions: a parser that validates bracket nesting, and an execution
//! engine that runs instructions against a 65536-cell byte tape.
pub mod engine;
pub mod opcode;
pub mod parser;
pub mod snapshot;
pub mod tape;
