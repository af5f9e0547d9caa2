//! Execution core of a deterministic, provable stack machine.
//!
//! Programs are trees of control-flow blocks whose hashes recursively
//! commit the whole program to a single digest; the machine executes the
//! tree against an operand stack and a non-deterministic advice provider,
//! and a sponge-based hashing chiplet serves program hashing, Merkle-path
//! verification and Merkle-root updates alike.

pub mod blocks;
pub mod crypto_ops;
pub mod data;
pub mod errors;
pub mod field;
pub mod hasher;
pub mod mem_ops;
pub mod merkle;
pub mod op_sponge;
pub mod operations;
pub mod processor;
pub mod token;
pub mod utils;

pub use field::{Felt, FIELD_MODULUS};
pub use hasher::{Digest, Word};
pub use operations::{AdviceInjector, Decorator, Operation};
pub use blocks::{CodeBlock, Join, Span, Split};

