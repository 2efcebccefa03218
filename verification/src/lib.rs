//! A small zero-knowledge rollup: its state transition function, the block executor and the proof
//! generator around it, and the decisions that the sequencer takes between two pieces of input or
//! output.
pub mod abi;
pub mod builder;
pub mod bytes;
pub mod config;
pub mod error;
pub mod executor;
pub mod hash;
pub mod l1;
pub mod merkle;
pub mod notes;
pub mod persistence;
pub mod proofs;
pub mod prover;
pub mod sequencer;
pub mod stf;
pub mod supply;
pub mod text;
pub mod tree;
pub mod types;
