//! The embedding client's decision logic.
//!
//! The embedding service turns one text into one fixed-length vector. The
//! network call is the caller's; this module holds the rules around it: a
//! response is accepted only when the service reported success and returned
//! a nonempty result, and a failed call is retried exactly once with the
//! identical input — two failures surface as a transient-service error.

use vstd::prelude::*;

verus! {

/// The error taxonomy of the retrieval subsystem: a transient embedding
/// failure (already retried once), a non-success from an external vector or
/// storage call, a single-document lookup miss, and a malformed external
/// response.
#[derive(Clone, Copy, Debug, PartialEq, Eq, Structural)]
pub enum ServiceError {
    Transient,
    Request,
    NotFound,
    Serialization,
}

/// Whether one embedding attempt's response is acceptable: the service
/// reported success and its result set holds at least one vector. Anything
/// else counts as a failed attempt.
pub fn embedding_response_ok(success: bool, result_rows: usize) -> (r: bool)
    ensures
        r == (success && result_rows > 0),
{
    success && result_rows > 0
}

/// Resolve the embedding call from its at-most-two attempts: the first
/// attempt's vector when it succeeded, else the retry's, else a
/// transient-service error. The retry is made only after the first attempt
/// failed, and never more than once.
pub fn resolve_embed_attempts(
    first: Option<vector_lite::Vector<768>>,
    second: Option<vector_lite::Vector<768>>,
) -> (r: Result<vector_lite::Vector<768>, ServiceError>)
    ensures
        first matches Some(v) ==> r == Ok::<vector_lite::Vector<768>, ServiceError>(v),
        first is None ==> (second matches Some(v)
            ==> r == Ok::<vector_lite::Vector<768>, ServiceError>(v)),
        (first is None && second is None)
            ==> r == Err::<vector_lite::Vector<768>, ServiceError>(ServiceError::Transient),
{
    match first {
        Some(v) => Ok(v),
        None => match second {
            Some(v) => Ok(v),
            None => Err(ServiceError::Transient),
        },
    }
}

} // verus!
