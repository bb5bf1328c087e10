//! Deterministic HTTP/WebSocket record-replay core.
//!
//! The crate provides request fingerprinting with chain linkage, the binary
//! recording format with its writer and reader, session management, a replay
//! cache, and the mode-switched proxy dispatch logic. File, network and clock
//! access stay outside: the library computes over plain values and byte
//! images of recording files.

pub mod byteseq;
pub mod config;
pub mod errors;
pub mod fingerprint;
pub mod hashes;
pub mod net;
pub mod pairsort;
pub mod proxy;
pub mod recording;
pub mod replay;
pub mod roundtrip;
pub mod storage;
pub mod strutil;

pub use errors::OuliError;
