use vstd::prelude::*;
use crate::types::BlockHeaderHash;

verus! {

/// What the index answers when it cannot do what it was asked.
#[derive(Debug, PartialEq, Eq)]
pub enum Error {
    /// The block named is not in the index.
    NotFoundError,
    /// The block to be created is in the index already.
    ExistsError,
    /// A trie is open for writing already.
    InProgressError,
    /// No trie is open for writing.
    WriteNotBegunError,
    /// The operation does not fit the unconfirmed state of the index or of
    /// the trie it names.
    UnconfirmedError,
    /// The chain is as long as a height can count.
    CorruptionError,
    /// The two blocks lie on different forks.
    NonMatchingForks([u8; 32], [u8; 32]),
}

/// Why a store could not be set up or a view could not be opened.
#[derive(Debug, PartialEq, Eq)]
pub enum InterpreterError {
    /// The data directory could not be created.
    FailedToCreateDataDirectory,
    /// The store file has no name that can be written as text.
    BadFileName,
    /// The index refused, for the reason it gives.
    MarfFailure(Error),
}

/// Why a view refused to move to another block.
#[derive(Debug, PartialEq, Eq)]
pub enum RuntimeErrorType {
    /// The index does not know the block.
    UnknownBlockHeaderHash(BlockHeaderHash),
    /// The block lies on another fork than the block the view looks at.
    NonMatchingFork(BlockHeaderHash),
}

/// The errors a store or a view reports to its caller.
#[derive(Debug, PartialEq, Eq)]
pub enum VmError {
    /// The store itself is at fault.
    Interpreter(InterpreterError),
    /// What was asked cannot be done.
    Runtime(RuntimeErrorType),
}

/// What a store or a view answers where it may refuse.
pub type InterpreterResult<T> = Result<T, VmError>;

} // verus!
