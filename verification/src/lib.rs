//! Verified core of a two-stream audio capture and conversation-assistant
//! pipeline: the helper wire protocol, capture bookkeeping, health
//! supervision, speech chunking, transcript triggering and the cue agent's
//! decisions.
//!
//! Microphone ("you") and system output ("everyone else") are kept apart
//! at every stage; every value that crosses a stage carries its
//! [`SourceKind`].

pub mod agent;
pub mod capture;
pub mod chunker;
pub mod clock;
pub mod health;
pub mod modes;
pub mod overlay;
pub mod protocol;
pub mod source;
pub mod text;
pub mod transcript;
pub mod trigger;

pub use agent::{
    interpret_reply, is_near_duplicate, render_user_message, AgentError, ApiReply, ContentBlock,
    CueAgent, ModelOutcome, ModelRequest, ModelSuggestion, Suggestion, Verdict,
};
pub use capture::{next_playback_chunk, playback_frame_len, FrameAssembler, ReaderState};
pub use chunker::{ChunkerConfig, SourceChunkers, SpeechChunk, SpeechChunker};
pub use health::{
    supervise_step, HealthState, LevelThrottle, RestartPolicy, StalenessWatcher, SupervisorAction,
    WatchEvent, WatchState, WatchStep,
};
pub use modes::{available_modes, mode_profile, ModeProfile};
pub use protocol::{
    read_message, AudioMessage, ByteReader, IoFailure, ProtocolError, StatusEvent, TapMessage,
};
pub use source::{CaptureError, SourceKind, SourceStatus};
pub use transcript::{label, TranscribeError, TranscriptSegment, WHISPER_SAMPLE_RATE};
pub use trigger::{RollingTranscript, TriggerConfig};
