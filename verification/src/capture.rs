//! Bookkeeping of the capture sources that does not touch a device: turning
//! drained samples into fixed-size frames, replaying a buffer in a loop,
//! and deciding when a helper-backed source has started or failed.
//!
//! Samples are generic: the sources in the application fill these with
//! `f32` PCM.

use vstd::prelude::*;
use vstd::arithmetic::div_mod::{
    lemma_fundamental_div_mod, lemma_fundamental_div_mod_converse, lemma_small_mod,
};

use crate::protocol::TapMessage;
use crate::source::CaptureError;
use crate::text::str_eq;

verus! {

// ---------------------------------------------------------------------------
// Frames from a drained ring buffer
// ---------------------------------------------------------------------------

/// Number of interleaved samples in a 20 ms frame.
pub open spec fn frame_len_20ms(sample_rate: u32, channels: u16) -> int {
    (sample_rate * channels) / 50
}

/// Collects samples drained from a ring buffer into fixed-size frames. A
/// partial frame is carried over until it is complete, so no drained
/// sample is ever discarded.
pub struct FrameAssembler<S> {
    frame_len: u64,
    pending: Vec<S>,
}

impl<S> FrameAssembler<S> {
    pub closed spec fn frame_len(&self) -> nat {
        self.frame_len as nat
    }

    /// The samples drained since the last complete frame, in order.
    pub closed spec fn pending(&self) -> Seq<S> {
        self.pending@
    }

    pub closed spec fn well_formed(&self) -> bool {
        self.pending@.len() <= self.frame_len
    }

    /// An assembler of 20 ms frames for the given stream format.
    pub fn new(sample_rate: u32, channels: u16) -> (a: FrameAssembler<S>)
        ensures
            a.well_formed(),
            a.frame_len() == frame_len_20ms(sample_rate, channels),
            a.pending() == Seq::<S>::empty(),
    {
        assert(sample_rate as u64 * channels as u64 <= 0xffff_ffff * 0xffff) by (nonlinear_arith)
            requires
                sample_rate <= 0xffff_ffff,
                channels <= 0xffff,
        ;
        let total: u64 = sample_rate as u64 * channels as u64;
        FrameAssembler { frame_len: total / 50, pending: Vec::new() }
    }

    /// Whether the frame in progress still has room.
    pub fn needs_more(&self) -> (b: bool)
        requires
            self.well_formed(),
        ensures
            b == (self.pending().len() < self.frame_len()),
    {
        (self.pending.len() as u64) < self.frame_len
    }

    /// Adds one drained sample to the frame in progress.
    pub fn accept(&mut self, sample: S)
        requires
            old(self).well_formed(),
            old(self).pending().len() < old(self).frame_len(),
        ensures
            final(self).well_formed(),
            final(self).frame_len() == old(self).frame_len(),
            final(self).pending() == old(self).pending().push(sample),
    {
        self.pending.push(sample);
    }

    /// Hands out the frame in progress if it is complete, starting a new one;
    /// a partial frame stays in progress.
    pub fn take_frame(&mut self) -> (frame: Option<Vec<S>>)
        requires
            old(self).well_formed(),
        ensures
            final(self).well_formed(),
            final(self).frame_len() == old(self).frame_len(),
            old(self).pending().len() == old(self).frame_len() ==> {
                &&& frame matches Some(f) && f@ == old(self).pending()
                &&& final(self).pending() == Seq::<S>::empty()
            },
            old(self).pending().len() < old(self).frame_len() ==> {
                &&& frame is None
                &&& final(self).pending() == old(self).pending()
            },
    {
        if self.pending.len() as u64 == self.frame_len {
            let mut frame: Vec<S> = Vec::new();
            std::mem::swap(&mut frame, &mut self.pending);
            Some(frame)
        } else {
            None
        }
    }
}

// ---------------------------------------------------------------------------
// Looped playback of a fixed buffer
// ---------------------------------------------------------------------------

/// Samples per frame of looped playback: 20 ms of interleaved audio, but at
/// least one sample per channel.
pub fn playback_frame_len(sample_rate: u32, channels: u8) -> (n: u64)
    ensures
        n == (if (sample_rate * channels) / 50 >= channels {
            (sample_rate * channels) / 50
        } else {
            channels as int
        }),
{
    assert(sample_rate as u64 * channels as u64 <= 0xffff_ffff * 0xff) by (nonlinear_arith)
        requires
            sample_rate <= 0xffff_ffff,
            channels <= 0xff,
    ;
    let per_frame = (sample_rate as u64 * channels as u64) / 50;
    if per_frame >= channels as u64 {
        per_frame
    } else {
        channels as u64
    }
}

proof fn lemma_next_in_loop(c: int, len: int, pos: int, next: int)
    requires
        len > 0,
        0 <= pos < len,
        pos == c % len,
        next == if pos + 1 == len {
            0
        } else {
            pos + 1
        },
    ensures
        next == (c + 1) % len,
{
    lemma_fundamental_div_mod(c, len);
    let q = c / len;
    if pos + 1 == len {
        assert(c + 1 == (q + 1) * len + 0) by (nonlinear_arith)
            requires
                c == len * q + pos,
                pos + 1 == len,
        ;
        lemma_fundamental_div_mod_converse(c + 1, len, q + 1, 0);
    } else {
        assert(c + 1 == q * len + (pos + 1)) by (nonlinear_arith)
            requires
                c == len * q + pos,
        ;
        lemma_fundamental_div_mod_converse(c + 1, len, q, pos + 1);
    }
}

/// The next `frame_len` samples of `samples` played in a loop from `cursor`,
/// and the cursor after them.
pub fn next_playback_chunk<S: Copy>(samples: &[S], cursor: usize, frame_len: usize) -> (out: (
    Vec<S>,
    usize,
))
    requires
        samples@.len() > 0,
        cursor < samples@.len(),
    ensures
        out.0@.len() == frame_len,
        forall|i: int|
            0 <= i < frame_len ==> #[trigger] out.0@[i] == samples@[(cursor + i) % (
            samples@.len() as int)],
        out.1 == (cursor + frame_len) % (samples@.len() as int),
{
    let n = samples.len();
    let ghost len = n as int;
    let mut chunk: Vec<S> = Vec::new();
    let mut pos: usize = cursor;
    let mut k: usize = 0;
    proof {
        assert((cursor as int) % len == cursor as int) by {
            lemma_small_mod(cursor as nat, len as nat);
        }
    }
    while k < frame_len
        invariant
            n == samples@.len(),
            len == n,
            n > 0,
            k <= frame_len,
            pos < n,
            pos as int == (cursor + k) % len,
            chunk@.len() == k,
            forall|i: int| 0 <= i < k ==> #[trigger] chunk@[i] == samples@[(cursor + i) % len],
        decreases frame_len - k,
    {
        chunk.push(samples[pos]);
        let next = if pos + 1 == n {
            0
        } else {
            pos + 1
        };
        proof {
            lemma_next_in_loop((cursor + k) as int, len, pos as int, next as int);
        }
        pos = next;
        k = k + 1;
    }
    (chunk, pos)
}

// ---------------------------------------------------------------------------
// Start-up of the helper-backed source
// ---------------------------------------------------------------------------

/// What the reader of the helper's output does with one message.
#[derive(Debug, Clone, PartialEq, Eq)]
pub struct ReaderAction {
    /// Mark the source running (the first audio or heartbeat message).
    pub mark_running: bool,
    /// Readiness to report to whoever is waiting for start-up, if any.
    pub ready: Option<Result<(), CaptureError>>,
    /// Publish the message's audio as a frame.
    pub publish: bool,
}

/// The kind of message the reader saw, as far as start-up is concerned.
pub enum ReaderInput {
    Audio,
    Heartbeat,
    Status { is_error: bool },
}

/// Whether readiness gets reported for a message, given whether it already
/// has been.
pub open spec fn reports_readiness(announced: bool, m: ReaderInput) -> bool {
    !announced && match m {
        ReaderInput::Audio => true,
        ReaderInput::Heartbeat => true,
        ReaderInput::Status { is_error } => is_error,
    }
}

/// How many readiness reports a run of messages produces.
pub open spec fn readiness_reports(announced: bool, ms: Seq<ReaderInput>) -> nat
    decreases ms.len(),
{
    if ms.len() == 0 {
        0
    } else {
        (if reports_readiness(announced, ms[0]) {
            1nat
        } else {
            0nat
        }) + readiness_reports(announced || reports_readiness(announced, ms[0]), ms.drop_first())
    }
}

/// Whether readiness has been reported after a run of messages.
pub open spec fn announced_after(announced: bool, ms: Seq<ReaderInput>) -> bool
    decreases ms.len(),
{
    if ms.len() == 0 {
        announced
    } else {
        announced_after(announced || reports_readiness(announced, ms[0]), ms.drop_first())
    }
}

/// Tracks whether the helper's start-up has been reported to the caller
/// waiting in `start`.
pub struct ReaderState {
    announced_ready: bool,
}

impl ReaderState {
    pub closed spec fn announced(&self) -> bool {
        self.announced_ready
    }

    pub fn new() -> (r: ReaderState)
        ensures
            !r.announced(),
    {
        ReaderState { announced_ready: false }
    }

    /// Reacts to one decoded message: the first audio or heartbeat message
    /// reports a successful start; an error-level status before that
    /// reports a failed start with the helper's message; audio is always
    /// published.
    pub fn on_message(&mut self, msg: &TapMessage) -> (act: ReaderAction)
        ensures
            ({
                let input = match msg {
                    TapMessage::Audio(_) => ReaderInput::Audio,
                    TapMessage::Heartbeat => ReaderInput::Heartbeat,
                    TapMessage::StatusEvent(e) => ReaderInput::Status {
                        is_error: e.level@ == "error"@,
                    },
                };
                let report = reports_readiness(old(self).announced(), input);
                &&& final(self).announced() == (old(self).announced() || report)
                &&& act.publish == (msg is Audio)
                &&& act.mark_running == (report && !(msg is StatusEvent))
                &&& (act.ready is Some) == report
                &&& report ==> match msg {
                    TapMessage::StatusEvent(e) => act.ready == Some(
                        Err::<(), CaptureError>(CaptureError::StreamStartFailed(e.message)),
                    ),
                    _ => act.ready == Some(Ok::<(), CaptureError>(())),
                }
            }),
    {
        match msg {
            TapMessage::Audio(_) => {
                let report = !self.announced_ready;
                self.announced_ready = true;
                ReaderAction {
                    mark_running: report,
                    ready: if report {
                        Some(Ok(()))
                    } else {
                        None
                    },
                    publish: true,
                }
            },
            TapMessage::Heartbeat => {
                let report = !self.announced_ready;
                self.announced_ready = true;
                ReaderAction {
                    mark_running: report,
                    ready: if report {
                        Some(Ok(()))
                    } else {
                        None
                    },
                    publish: false,
                }
            },
            TapMessage::StatusEvent(event) => {
                let report = str_eq(event.level.as_str(), "error") && !self.announced_ready;
                if report {
                    self.announced_ready = true;
                    ReaderAction {
                        mark_running: false,
                        ready: Some(Err(CaptureError::StreamStartFailed(event.message.clone()))),
                        publish: false,
                    }
                } else {
                    ReaderAction { mark_running: false, ready: None, publish: false }
                }
            },
        }
    }

    /// The report owed when the helper's output ends: a failed start if
    /// nothing was reported yet.
    pub fn on_end(&mut self) -> (ready: Option<CaptureError>)
        ensures
            final(self).announced(),
            old(self).announced() ==> ready is None,
            !old(self).announced() ==> (ready matches Some(CaptureError::StreamStartFailed(m))
                && m@ == "helper process exited before producing any output"@),
    {
        let was = self.announced_ready;
        self.announced_ready = true;
        if was {
            None
        } else {
            Some(
                CaptureError::StreamStartFailed(
                    "helper process exited before producing any output".to_owned(),
                ),
            )
        }
    }
}

/// Over a whole run of the reader (any messages, then the end of the
/// output), start-up is reported exactly once: by the first audio or
/// heartbeat message, by an error-level status before one, or at the end.
pub proof fn readiness_reported_exactly_once(ms: Seq<ReaderInput>)
    ensures
        readiness_reports(false, ms) + (if announced_after(false, ms) {
            0nat
        } else {
            1nat
        }) == 1,
{
    lemma_readiness_reports(false, ms);
}

proof fn lemma_readiness_reports(announced: bool, ms: Seq<ReaderInput>)
    ensures
        announced ==> readiness_reports(announced, ms) == 0 && announced_after(announced, ms),
        !announced ==> readiness_reports(announced, ms) + (if announced_after(announced, ms) {
            0nat
        } else {
            1nat
        }) == 1,
    decreases ms.len(),
{
    if ms.len() > 0 {
        lemma_readiness_reports(announced || reports_readiness(announced, ms[0]), ms.drop_first());
    }
}

} // verus!
