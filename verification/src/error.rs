//! Error type reserved for fallible policy interfaces.
//!
//! The engine itself absorbs every failure into a no-op plus a safe
//! default, so none of its current operations return this type; it names
//! the failure classes for interfaces that will want a `Result`.

use vstd::prelude::*;

verus! {

/// A failure class of the policy engine.
#[derive(Debug)]
pub enum BanditError {
    /// A snapshot could not be understood; carries the decoder's message.
    Snapshot(String),
    /// An action name outside the policy's namespace.
    InvalidAction(String),
    /// An internal invariant was found broken.
    Internal(String),
}

impl BanditError {
    /// A human-readable description of the failure.
    pub fn message(&self) -> (r: String)
        ensures
            match self {
                BanditError::Snapshot(m) => r@ == m@,
                BanditError::InvalidAction(m) => r@ == m@,
                BanditError::Internal(m) => r@ == m@,
            },
    {
        match self {
            BanditError::Snapshot(m) => m.clone(),
            BanditError::InvalidAction(m) => m.clone(),
            BanditError::Internal(m) => m.clone(),
        }
    }
}

} // verus!
