//! Error taxonomy shared by every component of the library.

use vstd::prelude::*;

verus! {

/// Everything that can go wrong inside the core.
///
/// `StyleNotFound` is non-retryable without reconfiguration: no registered
/// model exposes the requested style. `ModelLoadFailed` is an engine-level
/// load error (retryable, never auto-retried). `QueryFailed` and
/// `SynthesisFailed` are engine computation errors, propagated to every
/// waiter of the cache key that triggered the computation; such a key is not
/// cached. `CacheMisuse` marks configuration outside its documented domain,
/// fatal at startup.
#[derive(Clone, Copy, Debug, PartialEq, Eq, Structural)]
pub enum AppError {
    StyleNotFound,
    ModelLoadFailed,
    QueryFailed,
    SynthesisFailed,
    CacheMisuse,
}

impl AppError {
    /// True for the errors that a caller may retry without changing the
    /// configuration first.
    pub fn is_retryable(&self) -> (r: bool)
        ensures
            r == (*self == AppError::ModelLoadFailed || *self == AppError::QueryFailed
                || *self == AppError::SynthesisFailed),
    {
        match self {
            AppError::ModelLoadFailed => true,
            AppError::QueryFailed => true,
            AppError::SynthesisFailed => true,
            AppError::StyleNotFound => false,
            AppError::CacheMisuse => false,
        }
    }
}

} // verus!
