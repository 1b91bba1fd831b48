//! Core of a STARK prover over the prime field of order 2^64 - 2^32 + 1.
//!
//! The modules follow the proving pipeline: options and errors; the field and
//! polynomial evaluation; hashing, the Merkle commitment and the public coin;
//! the transcript with its stages; the constraint language and its composer;
//! the DEEP composition; FRI; the proof and its encoding; and the phases of
//! the prover. The memory table of a Brainfuck machine is an AIR written in
//! the constraint language.

pub mod error;
pub mod options;
pub mod field;
pub mod poly;
pub mod hash;
pub mod merkle;
pub mod coin;
pub mod encoding;
pub mod channel;
pub mod expr;
pub mod composer;
pub mod deep;
pub mod fri;
pub mod fri_prover;
pub mod stark_proof;
pub mod prover;
pub mod phases;
pub mod memory_table;
pub mod memory_constraints;
