use vstd::prelude::*;

verus! {

/// Which physical source a frame (and everything derived from it) came from.
/// Microphone and system-output audio are never merged, so this tag is what
/// tells "the user" apart from "everyone else" at every stage.
#[derive(Clone, Copy, Debug, PartialEq, Eq, Structural, Hash)]
pub enum SourceKind {
    Microphone,
    SystemOutput,
}

/// Errors a capture backend can report when starting or stopping.
#[derive(Debug, Clone, PartialEq, Eq)]
pub enum CaptureError {
    NoDevice,
    UnsupportedConfig(String),
    StreamBuildFailed(String),
    StreamStartFailed(String),
    StartupTimedOut,
    HelperUnavailable(String),
}

/// Coarse lifecycle state of a source, surfaced as a status dot.
#[derive(Clone, Copy, Debug, PartialEq, Eq, Structural)]
pub enum SourceStatus {
    Idle,
    Starting,
    Running,
    Stopped,
    Failed,
}

/// The one-byte encoding of a status, as stored in an atomic cell.
pub open spec fn status_code(s: SourceStatus) -> u8 {
    match s {
        SourceStatus::Idle => 0,
        SourceStatus::Starting => 1,
        SourceStatus::Running => 2,
        SourceStatus::Stopped => 3,
        SourceStatus::Failed => 4,
    }
}

/// Decoding of a stored byte: every byte past the known codes reads as `Failed`.
pub open spec fn status_of_code(value: u8) -> SourceStatus {
    if value == 0 {
        SourceStatus::Idle
    } else if value == 1 {
        SourceStatus::Starting
    } else if value == 2 {
        SourceStatus::Running
    } else if value == 3 {
        SourceStatus::Stopped
    } else {
        SourceStatus::Failed
    }
}

impl SourceStatus {
    /// Decodes a status stored as a byte.
    pub fn from_u8(value: u8) -> (s: SourceStatus)
        ensures
            s == status_of_code(value),
    {
        match value {
            0 => SourceStatus::Idle,
            1 => SourceStatus::Starting,
            2 => SourceStatus::Running,
            3 => SourceStatus::Stopped,
            _ => SourceStatus::Failed,
        }
    }

    /// Encodes a status as the byte that `from_u8` reads back.
    pub fn to_u8(self) -> (b: u8)
        ensures
            b == status_code(self),
    {
        match self {
            SourceStatus::Idle => 0,
            SourceStatus::Starting => 1,
            SourceStatus::Running => 2,
            SourceStatus::Stopped => 3,
            SourceStatus::Failed => 4,
        }
    }
}

/// Storing a status as its byte and reading the byte back yields the same
/// status: the encoding lives in one place and round-trips.
pub proof fn status_code_round_trip(s: SourceStatus)
    ensures
        status_of_code(status_code(s)) == s,
{
}

} // verus!
