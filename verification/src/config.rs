//! Configuration types consumed by the core. Loading them from a TOML file
//! and checking that the recording directory exists are duties of the
//! surrounding program; the value-level validation lives here.

use vstd::prelude::*;
use crate::errors::OuliError;

verus! {

/// Operating mode.
#[derive(Debug, Clone, Copy, PartialEq, Eq, Structural)]
pub enum Mode {
    /// Capture traffic and store it.
    Record,
    /// Serve responses from recordings.
    Replay,
}

/// Main configuration.
#[derive(Debug, Clone)]
pub struct Config {
    /// Operating mode.
    pub mode: Mode,
    /// Directory recordings are stored in and loaded from.
    pub recording_dir: String,
    /// Endpoint configurations.
    pub endpoints: Vec<EndpointConfig>,
    /// Redaction configuration.
    pub redaction: RedactionConfig,
    /// Resource limits.
    pub limits: LimitsConfig,
}

/// One proxied endpoint.
#[derive(Debug, Clone)]
pub struct EndpointConfig {
    /// Target host to proxy to.
    pub target_host: String,
    /// Target port.
    pub target_port: u16,
    /// Source port to listen on.
    pub source_port: u16,
    /// Target scheme (http/https/ws/wss).
    pub target_type: String,
    /// Source scheme (http/https/ws/wss).
    pub source_type: String,
    /// Request headers to redact.
    pub redact_request_headers: Vec<String>,
}

/// Default target scheme.
pub fn default_https() -> (r: String)
    ensures
        r@ == "https"@,
{
    "https".to_owned()
}

/// Default source scheme.
pub fn default_http() -> (r: String)
    ensures
        r@ == "http"@,
{
    "http".to_owned()
}

/// Redaction configuration, applied by the wire layer.
#[derive(Debug, Clone)]
pub struct RedactionConfig {
    /// Literal secrets to redact.
    pub secrets: Vec<String>,
    /// Regex patterns for redaction.
    pub regex_patterns: Vec<String>,
}

impl Default for RedactionConfig {
    /// No redaction.
    fn default() -> (r: Self)
        ensures
            r.secrets@.len() == 0,
            r.regex_patterns@.len() == 0,
    {
        RedactionConfig { secrets: Vec::new(), regex_patterns: Vec::new() }
    }
}

/// Resource limits.
#[derive(Debug, Clone)]
pub struct LimitsConfig {
    /// Maximum concurrent connections.
    pub max_connections: usize,
    /// Maximum request size in bytes.
    pub max_request_size: usize,
    /// Maximum response size in bytes.
    pub max_response_size: usize,
    /// Maximum headers per request or response.
    pub max_headers: usize,
}

impl Default for LimitsConfig {
    /// 4096 connections, 16 MiB requests, 256 MiB responses, 128 headers.
    fn default() -> (r: Self)
        ensures
            r.max_connections == 4096,
            r.max_request_size == 16 * 1024 * 1024,
            r.max_response_size == 256 * 1024 * 1024,
            r.max_headers == 128,
    {
        LimitsConfig {
            max_connections: 4096,
            max_request_size: 16 * 1024 * 1024,
            max_response_size: 256 * 1024 * 1024,
            max_headers: 128,
        }
    }
}

/// The value-level part of configuration validity: at least one endpoint,
/// nonempty hosts, nonzero ports, positive limits. (That the recording
/// directory exists is checked by the program against the file system.)
pub open spec fn spec_config_valid(c: Config) -> bool {
    &&& c.endpoints@.len() > 0
    &&& forall|i: int|
        0 <= i < c.endpoints@.len() ==> {
            &&& (#[trigger] c.endpoints@[i]).target_host@.len() > 0
            &&& c.endpoints@[i].target_port != 0
            &&& c.endpoints@[i].source_port != 0
        }
    &&& c.limits.max_connections > 0
    &&& c.limits.max_request_size > 0
    &&& c.limits.max_response_size > 0
    &&& c.limits.max_headers > 0
}

impl Mode {
    /// True in record mode.
    pub fn is_record(&self) -> (r: bool)
        ensures
            r == (*self == Mode::Record),
    {
        match self {
            Mode::Record => true,
            Mode::Replay => false,
        }
    }

    /// True in replay mode.
    pub fn is_replay(&self) -> (r: bool)
        ensures
            r == (*self == Mode::Replay),
    {
        match self {
            Mode::Record => false,
            Mode::Replay => true,
        }
    }
}

impl Config {
    /// Validates the configuration values; rejects an empty endpoint list,
    /// empty hosts, zero ports and zero limits.
    pub fn validate(&self) -> (r: Result<(), OuliError>)
        ensures
            r is Ok <==> spec_config_valid(*self),
            r is Err ==> (r->Err_0 is ConfigError),
    {
        if self.endpoints.len() == 0 {
            return Err(OuliError::ConfigError(
                "at least one endpoint must be configured".to_owned(),
            ));
        }
        let mut i: usize = 0;
        while i < self.endpoints.len()
            invariant
                0 <= i <= self.endpoints@.len(),
                forall|j: int|
                    0 <= j < i ==> {
                        &&& (#[trigger] self.endpoints@[j]).target_host@.len() > 0
                        &&& self.endpoints@[j].target_port != 0
                        &&& self.endpoints@[j].source_port != 0
                    },
            decreases self.endpoints@.len() - i,
        {
            let e = &self.endpoints[i];
            if e.target_host.as_str().is_empty() {
                return Err(OuliError::ConfigError("target_host cannot be empty".to_owned()));
            }
            if e.target_port == 0 {
                return Err(OuliError::ConfigError("target_port cannot be 0".to_owned()));
            }
            if e.source_port == 0 {
                return Err(OuliError::ConfigError("source_port cannot be 0".to_owned()));
            }
            i = i + 1;
        }
        if self.limits.max_connections == 0 {
            return Err(OuliError::ConfigError("max_connections must be > 0".to_owned()));
        }
        if self.limits.max_request_size == 0 {
            return Err(OuliError::ConfigError("max_request_size must be > 0".to_owned()));
        }
        if self.limits.max_response_size == 0 {
            return Err(OuliError::ConfigError("max_response_size must be > 0".to_owned()));
        }
        if self.limits.max_headers == 0 {
            return Err(OuliError::ConfigError("max_headers must be > 0".to_owned()));
        }
        Ok(())
    }
}

} // verus!
