//! Error types shared across the core: malformed program inputs, advice
//! set (Merkle tree) failures, and library lookup failures.
use vstd::prelude::*;
use crate::hasher::Word;

verus! {

/// An error in the inputs handed to a program before execution.
#[derive(Clone, Debug)]
pub enum InputError {
    NotFieldElement(u64, &'static str),
    TooManyStackValues(usize, usize),
    DuplicateAdviceRoot([u8; 32]),
}

/// An error raised by an advice set (a Merkle tree held by the advice
/// provider).
#[derive(Clone, Debug)]
pub enum AdviceSetError {
    DepthTooSmall,
    DepthTooBig(u32),
    NumLeavesNotPowerOfTwo(usize),
    InvalidKey(u64),
    InvalidIndex(u32, u64),
    InvalidDepth(u32, u32),
    InvalidPath(Vec<Word>),
    NodeNotInSet(u64),
}

/// An error raised when a module cannot be found in a library.
#[derive(Clone, Debug)]
pub enum LibraryError {
    ModuleNotFound(String),
}

} // verus!
