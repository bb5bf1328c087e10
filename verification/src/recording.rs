//! Recording subsystem: named sessions, each owning a writer and a request
//! chain, and the engine that serializes interactions into them.

pub mod engine;
pub mod session;

use vstd::prelude::*;

verus! {

/// Maximum number of concurrent recording sessions.
pub const MAX_SESSIONS: usize = 1024;

/// Recording session used when no test name is given.
pub const DEFAULT_SESSION: &'static str = "default";

} // verus!
