//! Error taxonomy of the record-replay core.

use vstd::prelude::*;

verus! {

/// Errors reported by the recording and replay subsystems.
#[derive(Debug, Clone, PartialEq, Eq)]
pub enum OuliError {
    /// I/O failure reported by the surrounding runtime.
    Io(String),
    /// Recording file magic, version or size mismatch.
    InvalidFormat(String),
    /// Recording file failed its CRC check.
    CorruptedData { offset: u64, expected: u32, actual: u32 },
    /// No recorded response for this request hash.
    RecordingNotFound([u8; 32]),
    /// Recording file absent.
    FileNotFound(String),
    /// Invalid configuration.
    ConfigError(String),
    /// Request or response exceeds the configured limit.
    DataTooLarge { size: usize, limit: usize },
    /// Session name violates the naming rules.
    InvalidTestName(String),
    /// Any other failure.
    Other(String),
}

impl OuliError {
    /// A short human-readable description of the error kind.
    pub fn kind_message(&self) -> (r: &'static str)
        ensures
            r@.len() > 0,
    {
        let r = match self {
            OuliError::Io(_) => "I/O error",
            OuliError::InvalidFormat(_) => "invalid recording format",
            OuliError::CorruptedData { .. } => "recording corrupted",
            OuliError::RecordingNotFound(_) => "recording not found for hash",
            OuliError::FileNotFound(_) => "recording file not found",
            OuliError::ConfigError(_) => "configuration error",
            OuliError::DataTooLarge { .. } => "data too large",
            OuliError::InvalidTestName(_) => "invalid test name",
            OuliError::Other(_) => "error",
        };
        proof {
            reveal_strlit("I/O error");
            reveal_strlit("invalid recording format");
            reveal_strlit("recording corrupted");
            reveal_strlit("recording not found for hash");
            reveal_strlit("recording file not found");
            reveal_strlit("configuration error");
            reveal_strlit("data too large");
            reveal_strlit("invalid test name");
            reveal_strlit("error");
        }
        r
    }
}

} // verus!
