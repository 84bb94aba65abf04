use vstd::prelude::*;

verus! {

/// Typed failures of the core engine.
///
/// `MalformedBuffer`: the coverage buffer is too small for its own header or
/// for the edge count that the header declares.
/// `EmptyCorpus`: a scheduler was asked to select from zero entries.
/// `NotFound`: a lookup of an unknown or evicted corpus id.
/// `StorageFailure`: an entry could not be recorded (the id space or a
/// weight total is exhausted).
#[derive(Clone, Copy, Debug, PartialEq, Eq, Structural)]
pub enum CoreError {
    MalformedBuffer,
    EmptyCorpus,
    NotFound,
    StorageFailure,
}

} // verus!
