//! The failure taxonomy of the engine.  Every failure is returned as a
//! typed value at the point of detection; nothing is retried or downgraded
//! to a partial answer.

use vstd::prelude::*;

verus! {

/// Why an operation on a compound word failed.
#[derive(Debug)]
pub enum LujvoError {
    /// No decomposition rule matched at some position of the input:
    /// foreign characters, a truncated word, or an illegal cluster.
    UnparsableInput,
    /// The input is structurally decomposable but is not the canonical
    /// surface form of its own fragments; carries the corrected form.
    MalformedCanonicalForm { correct: String },
    /// Construction was given fewer than two fragments.
    InsufficientComponents,
    /// Generation or reconstruction produced an empty result set.
    NoCandidates,
}

} // verus!
