//! A typed symbolic instruction language for protocol-level test programs,
//! together with the machinery around it: a builder that enforces the
//! causal-ordering and typing invariants, generators that insert new
//! instructions (optionally steered by feedback from a previous run), a
//! compiler that lowers a symbolic program into concrete executable actions,
//! a compact binary codec for programs and their context, and the scheduling
//! logic that interleaves compiled actions with control-plane calls.

pub mod builder;
pub mod codec;
pub mod compiler;
pub mod generators;
pub mod ir;
pub mod progwire;
pub mod randomness;
pub mod scenario;
pub mod scheduler;
pub mod tables;
pub mod wire;
