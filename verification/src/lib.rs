//! Verifiable-fairness Mastermind: a host commits to a secret code and must
//! answer every guess with feedback that a zero-knowledge proof ties to the
//! committed code.
//!
//! This crate is the verified core: the feedback oracle, the salted-hash
//! commitment, the relations that the two proof circuits encode, the public
//! input encoding, proof verification, the three host strategies and the
//! course of a game on the player's side.
//!
//! Proofs are Groth16 proofs over BLS12-381. Making one takes the circuit as
//! constraints, which a program around this crate supplies; a host therefore
//! returns, with each commitment and each answer, the circuit instance to be
//! proved. Before an instance goes to a prover, `is_satisfied` tells whether
//! it satisfies its circuit.

pub mod candidates;
pub mod code_circuit;
pub mod crypto;
pub mod feedback;
pub mod game;
pub mod guess_circuit;
pub mod host;
pub mod overlap;
pub mod proof_service;
pub mod utils;
