//! What can go wrong in a job.

use vstd::prelude::*;

verus! {

/// The settings that are checked before any work starts.
#[derive(Clone, Copy, Debug, PartialEq, Eq, Structural)]
pub enum Parameter {
    Quality,
    SimilarityThreshold,
    TargetColors,
}

/// Why a job ended without a result.
#[derive(Debug, PartialEq, Eq)]
pub enum JobError {
    /// A setting is out of range; nothing was done.
    InvalidParameter(Parameter),
    /// Decoding, encoding or remuxing failed; the text is the codec's own.
    CodecError(String),
    /// An artifact could not be read or written.
    IOError(String),
    /// Something that the job builds on is missing.
    StateError(String),
    /// A worker could not be joined.
    ThreadJoinError,
}

} // verus!
