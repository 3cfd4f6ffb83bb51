//! What can stop a generation run.

use vstd::prelude::*;

verus! {

/// Why a decoder cannot be set up, cannot go on, or cannot end.
#[derive(Clone, Copy, Debug, PartialEq, Eq, Structural)]
pub enum GenerationError {
    /// There is no input item.
    EmptyBatch,
    /// There is no beam.
    NoBeams,
    /// The vocabulary is empty.
    EmptyVocabulary,
    /// Fewer than one sequence is asked for each item, or more than there are
    /// beams.
    SequenceCount,
    /// An argument has not the shape that the decoder has.
    ShapeMismatch,
    /// The decoding has ended: no step can follow.
    NotRunning,
    /// The decoding has not ended: there is no result yet.
    StillRunning,
    /// A candidate names no beam of its item.
    InvalidCandidate,
    /// A padding or end-of-sequence token is needed and none is configured.
    MissingSpecialToken,
    /// An item has too few candidates that go on.
    BeamIncomplete,
    /// A token is none of the vocabulary.
    InvalidToken,
    /// A number of rows or of beams is beyond what the machine can address.
    TooLarge,
}

} // verus!
