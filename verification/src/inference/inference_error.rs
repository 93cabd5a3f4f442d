//! Errors of the inference boundary.

use vstd::prelude::*;

verus! {

/// What went wrong while loading or running a model.
#[derive(Clone, Debug)]
pub enum InferenceError {
    /// The graph file could not be read.
    IOError,
    /// An output buffer came back with the wrong length.
    OutputGetLenError { expect: u32, got: u32 },
    InvalidEncoding,
    InvalidArgument,
    MissingMemory,
    Busy,
    RuntimeError,
    UnknownError,
}

} // verus!
