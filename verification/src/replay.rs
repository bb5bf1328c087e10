//! Replay subsystem: the fingerprint-keyed response cache and the engine
//! that serves recorded responses.

pub mod cache;
pub mod engine;

use vstd::prelude::*;

verus! {

/// When the replay cache loads recordings.
#[derive(Debug, Clone, Copy, PartialEq, Eq, Structural)]
pub enum WarmingStrategy {
    /// Load all recordings up front.
    Eager,
    /// Load recordings on explicit request.
    Lazy,
}

impl Default for WarmingStrategy {
    /// Lazy warming is the default.
    fn default() -> (r: Self)
        ensures
            r == WarmingStrategy::Lazy,
    {
        WarmingStrategy::Lazy
    }
}

} // verus!
