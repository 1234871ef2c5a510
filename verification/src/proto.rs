use vstd::prelude::*;

use crate::text::string_of;

verus! {

/// Whether a helper message carries a value or an error.
#[derive(Debug, Clone, Copy, PartialEq, Eq, Structural)]
pub enum Status {
    Success,
    Error,
}

/// One line of the helper's output: a soul memory value, or why there is none.
#[derive(Debug, Clone, PartialEq, Eq)]
pub struct OverlayMessage {
    pub status: Status,
    pub value: Option<i32>,
    pub error: Option<String>,
    pub timestamp_ms: u64,
}

impl OverlayMessage {
    /// A message carrying `value`.
    pub fn ok(value: i32, timestamp_ms: u64) -> (m: Self)
        ensures
            m.status == Status::Success,
            m.value == Some(value),
            m.error is None,
            m.timestamp_ms == timestamp_ms,
    {
        OverlayMessage { status: Status::Success, value: Some(value), error: None, timestamp_ms }
    }

    /// A message reporting that no value could be read.
    pub fn error(message: &str, timestamp_ms: u64) -> (m: Self)
        ensures
            m.status == Status::Error,
            m.value is None,
            m.error matches Some(e) && e@ == message@,
            m.timestamp_ms == timestamp_ms,
    {
        OverlayMessage {
            status: Status::Error,
            value: None,
            error: Some(string_of(message)),
            timestamp_ms,
        }
    }
}

/// The helper's configuration, as read from its TOML file.
#[derive(Debug, Clone)]
pub struct OverlayConfig {
    pub process: ProcessConfig,
    pub memory: MemoryConfig,
    pub signature: SignatureConfig,
    pub ipc: IpcConfig,
    pub poll: PollConfig,
}

/// Which process to read.
#[derive(Debug, Clone)]
pub struct ProcessConfig {
    pub exe: String,
}

/// Where in the process the soul memory value is found.
#[derive(Debug, Clone)]
pub struct MemoryConfig {
    pub module: String,
    pub base_offset: u64,
    pub pointer_offsets: Vec<u64>,
    pub game_manager_imp: Option<u64>,
    pub soul_memory_chains: Option<Vec<Vec<u64>>>,
}

/// The byte signature that locates the game manager when no address is configured.
#[derive(Debug, Clone)]
pub struct SignatureConfig {
    pub enabled: bool,
    pub pattern: String,
    pub relative_offset: i64,
}

/// The name of the pipe the helper serves.
#[derive(Debug, Clone)]
pub struct IpcConfig {
    pub pipe_name: String,
}

/// How often the helper reads.
#[derive(Debug, Clone)]
pub struct PollConfig {
    pub interval_ms: u64,
}

} // verus!
