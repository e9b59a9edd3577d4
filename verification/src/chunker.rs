//! Energy-gated chunking of a mono stream into utterances.
//!
//! Whether a frame is speech is decided by the caller (in the application,
//! by comparing the frame's RMS level with a threshold). A chunk starts on
//! the first speech frame, carrying a little pre-roll from just before it
//! so quiet onsets are not clipped; it closes after a run of silence (the
//! hangover) or when it reaches the maximum length; chunks with too little
//! speech are dropped as noise. A change of sample rate abandons everything
//! in flight.

use vstd::prelude::*;
use std::collections::VecDeque;

use crate::source::SourceKind;

verus! {

#[derive(Debug, Clone, Copy, PartialEq, Eq)]
pub struct ChunkerConfig {
    /// How much continuous silence ends a chunk, in milliseconds.
    pub silence_hangover_ms: u64,
    /// Chunks with less speech than this (milliseconds) are discarded.
    pub min_speech_ms: u64,
    /// Hard cap per chunk, in milliseconds.
    pub max_chunk_ms: u64,
    /// Audio kept from before the onset and prepended, in milliseconds.
    pub pre_roll_ms: u64,
}

impl Default for ChunkerConfig {
    fn default() -> (c: ChunkerConfig)
        ensures
            c.silence_hangover_ms == 700,
            c.min_speech_ms == 300,
            c.max_chunk_ms == 12000,
            c.pre_roll_ms == 250,
    {
        ChunkerConfig {
            silence_hangover_ms: 700,
            min_speech_ms: 300,
            max_chunk_ms: 12000,
            pre_roll_ms: 250,
        }
    }
}

/// A finished utterance: mono samples at the capture rate.
#[derive(Debug, Clone)]
pub struct SpeechChunk<S> {
    pub samples: Vec<S>,
    pub sample_rate: u32,
}

impl<S> SpeechChunk<S> {
    /// Length of the chunk in whole milliseconds.
    pub fn duration_ms(&self) -> (ms: u128)
        requires
            self.sample_rate > 0,
        ensures
            ms == (self.samples@.len() * 1000) / (self.sample_rate as nat),
    {
        (self.samples.len() as u128 * 1000) / self.sample_rate as u128
    }
}

/// Number of samples in `ms` milliseconds at `rate`, saturating at
/// `usize::MAX`.
pub open spec fn samples_in(ms: u64, rate: u32) -> nat {
    let n = (ms * rate) / 1000;
    if n > usize::MAX {
        usize::MAX as nat
    } else {
        n as nat
    }
}

/// The chunk in progress: its samples, the length of its trailing run of
/// silent samples, and how many of its samples were speech.
pub struct ActiveView<S> {
    pub samples: Seq<S>,
    pub trailing_silence: nat,
    pub speech_samples: nat,
}

/// The chunker's state: the rate in use, the pre-roll buffer and the chunk
/// in progress.
pub struct ChunkerView<S> {
    pub sample_rate: Option<u32>,
    pub pre_roll: Seq<S>,
    pub active: Option<ActiveView<S>>,
}

/// The chunk that closing `a` at `rate` yields: none when it holds too
/// little speech.
pub open spec fn closed_chunk<S>(config: ChunkerConfig, rate: u32, a: ActiveView<S>) -> Option<(Seq<S>, u32)> {
    if a.speech_samples < samples_in(config.min_speech_ms, rate) {
        None
    } else {
        Some((a.samples, rate))
    }
}

/// The last `cap` elements of `s` (all of them when it is shorter).
pub open spec fn keep_last<S>(s: Seq<S>, cap: nat) -> Seq<S> {
    if s.len() > cap {
        s.subrange(s.len() - cap, s.len() as int)
    } else {
        s
    }
}

/// One step of the chunker on a mono frame at `rate`, `speaking` saying
/// whether the frame is speech: the next state and the finished chunk, if
/// one closes on this frame.
pub open spec fn chunker_step<S>(
    config: ChunkerConfig,
    st: ChunkerView<S>,
    mono: Seq<S>,
    rate: u32,
    speaking: bool,
) -> (ChunkerView<S>, Option<(Seq<S>, u32)>) {
    let st1 = if st.sample_rate != Some(rate) {
        ChunkerView { sample_rate: Some(rate), pre_roll: Seq::empty(), active: None }
    } else {
        st
    };
    match st1.active {
        None => if speaking {
            (
                ChunkerView {
                    sample_rate: Some(rate),
                    pre_roll: Seq::empty(),
                    active: Some(
                        ActiveView {
                            samples: st1.pre_roll + mono,
                            trailing_silence: 0,
                            speech_samples: mono.len(),
                        },
                    ),
                },
                None,
            )
        } else {
            (
                ChunkerView {
                    sample_rate: Some(rate),
                    pre_roll: keep_last(st1.pre_roll + mono, samples_in(config.pre_roll_ms, rate)),
                    active: None,
                },
                None,
            )
        },
        Some(a) => {
            let a2 = ActiveView {
                samples: a.samples + mono,
                trailing_silence: if speaking {
                    0
                } else {
                    a.trailing_silence + mono.len()
                },
                speech_samples: if speaking {
                    a.speech_samples + mono.len()
                } else {
                    a.speech_samples
                },
            };
            if a2.trailing_silence >= samples_in(config.silence_hangover_ms, rate)
                || a2.samples.len() >= samples_in(config.max_chunk_ms, rate) {
                (
                    ChunkerView { sample_rate: Some(rate), pre_roll: st1.pre_roll, active: None },
                    closed_chunk(config, rate, a2),
                )
            } else {
                (ChunkerView { sample_rate: Some(rate), pre_roll: st1.pre_roll, active: Some(a2) }, None)
            }
        },
    }
}

struct ActiveChunk<S> {
    samples: Vec<S>,
    trailing_silence: usize,
    speech_samples: usize,
}

pub struct SpeechChunker<S> {
    config: ChunkerConfig,
    sample_rate: Option<u32>,
    pre_roll: VecDeque<S>,
    active: Option<ActiveChunk<S>>,
}

pub open spec fn chunk_view<S>(c: Option<SpeechChunk<S>>) -> Option<(Seq<S>, u32)> {
    match c {
        Some(k) => Some((k.samples@, k.sample_rate)),
        None => None,
    }
}

fn append_all<S: Copy>(v: &mut Vec<S>, src: &[S])
    ensures
        final(v)@ == old(v)@ + src@,
{
    let mut i: usize = 0;
    while i < src.len()
        invariant
            i <= src@.len(),
            v@ == old(v)@ + src@.take(i as int),
        decreases src@.len() - i,
    {
        v.push(src[i]);
        i = i + 1;
        proof {
            assert(v@ =~= old(v)@ + src@.take(i as int));
        }
    }
    proof {
        assert(src@.take(src@.len() as int) =~= src@);
    }
}

impl<S: Copy> SpeechChunker<S> {
    pub closed spec fn config(&self) -> ChunkerConfig {
        self.config
    }

    pub closed spec fn state(&self) -> ChunkerView<S> {
        ChunkerView {
            sample_rate: self.sample_rate,
            pre_roll: self.pre_roll@,
            active: match self.active {
                Some(a) => Some(
                    ActiveView {
                        samples: a.samples@,
                        trailing_silence: a.trailing_silence as nat,
                        speech_samples: a.speech_samples as nat,
                    },
                ),
                None => None,
            },
        }
    }

    pub closed spec fn well_formed(&self) -> bool {
        &&& self.sample_rate is None ==> self.active is None
        &&& self.active matches Some(a) ==> a.trailing_silence <= a.samples@.len()
            && a.speech_samples <= a.samples@.len()
    }

    pub fn new(config: ChunkerConfig) -> (c: SpeechChunker<S>)
        ensures
            c.well_formed(),
            c.config() == config,
            c.state().sample_rate is None,
            c.state().pre_roll == Seq::<S>::empty(),
            c.state().active is None,
    {
        SpeechChunker { config, sample_rate: None, pre_roll: VecDeque::new(), active: None }
    }

    /// Number of samples in `ms` milliseconds at the current rate (none
    /// before any rate is known), saturating at `usize::MAX`.
    fn duration_in_samples(&self, ms: u64) -> (n: usize)
        ensures
            n == match self.sample_rate {
                Some(r) => samples_in(ms, r),
                None => samples_in(ms, 0),
            },
    {
        let rate: u64 = match self.sample_rate {
            Some(r) => r as u64,
            None => 0,
        };
        assert(ms as u128 * rate as u128 <= 0xffff_ffff_ffff_ffff * 0xffff_ffff) by (nonlinear_arith)
            requires
                ms <= 0xffff_ffff_ffff_ffff,
                rate <= 0xffff_ffff,
        ;
        let n: u128 = (ms as u128 * rate as u128) / 1000;
        if n > usize::MAX as u128 {
            usize::MAX
        } else {
            n as usize
        }
    }

    /// Closes the chunk in progress, if any: it comes back unless it held
    /// too little speech.
    fn finalize(&mut self) -> (chunk: Option<SpeechChunk<S>>)
        requires
            old(self).well_formed(),
        ensures
            final(self).well_formed(),
            final(self).config() == old(self).config(),
            final(self).state().sample_rate == old(self).state().sample_rate,
            final(self).state().pre_roll == old(self).state().pre_roll,
            final(self).state().active is None,
            chunk_view(chunk) == match old(self).state().active {
                None => None,
                Some(a) => closed_chunk(
                    old(self).config(),
                    old(self).state().sample_rate->0,
                    a,
                ),
            },
    {
        let active = match self.active.take() {
            Some(a) => a,
            None => {
                return None;
            },
        };
        let sample_rate = match self.sample_rate {
            Some(r) => r,
            None => {
                return None;
            },
        };
        if active.speech_samples < self.duration_in_samples(self.config.min_speech_ms) {
            return None;
        }
        Some(SpeechChunk { samples: active.samples, sample_rate })
    }

    /// Feeds one mono frame at `sample_rate`; `speaking` says whether the
    /// frame is speech. Returns the finished chunk when an utterance ends
    /// (or reaches the maximum length) on this frame.
    pub fn push_mono(&mut self, mono: &[S], sample_rate: u32, speaking: bool) -> (chunk: Option<
        SpeechChunk<S>,
    >)
        requires
            old(self).well_formed(),
        ensures
            final(self).well_formed(),
            final(self).config() == old(self).config(),
            (final(self).state(), chunk_view(chunk)) == chunker_step(
                old(self).config(),
                old(self).state(),
                mono@,
                sample_rate,
                speaking,
            ),
    {
        let reset = match self.sample_rate {
            Some(r) => r != sample_rate,
            None => true,
        };
        if reset {
            self.sample_rate = Some(sample_rate);
            self.pre_roll = VecDeque::new();
            self.active = None;
        }
        let pre_roll_cap = self.duration_in_samples(self.config.pre_roll_ms);
        let hangover_samples = self.duration_in_samples(self.config.silence_hangover_ms);
        let max_chunk_samples = self.duration_in_samples(self.config.max_chunk_ms);
        match self.active.take() {
            None => {
                if speaking {
                    let mut samples: Vec<S> = Vec::new();
                    let ghost pre = self.pre_roll@;
                    while self.pre_roll.len() > 0
                        invariant
                            samples@ + self.pre_roll@ == pre,
                            self.config == old(self).config,
                            self.sample_rate == Some(sample_rate),
                            self.active is None,
                        decreases self.pre_roll@.len(),
                    {
                        if let Some(x) = self.pre_roll.pop_front() {
                            samples.push(x);
                            proof {
                                assert(samples@ + self.pre_roll@ =~= pre);
                            }
                        }
                    }
                    proof {
                        assert(samples@ =~= pre);
                        assert(self.pre_roll@ =~= Seq::<S>::empty());
                    }
                    append_all(&mut samples, mono);
                    self.active = Some(
                        ActiveChunk { samples, trailing_silence: 0, speech_samples: mono.len() },
                    );
                    None
                } else {
                    let ghost pre = self.pre_roll@;
                    let mut i: usize = 0;
                    while i < mono.len()
                        invariant
                            i <= mono@.len(),
                            self.pre_roll@ == pre + mono@.take(i as int),
                            self.config == old(self).config,
                            self.sample_rate == Some(sample_rate),
                            self.active is None,
                        decreases mono@.len() - i,
                    {
                        self.pre_roll.push_back(mono[i]);
                        i = i + 1;
                        proof {
                            assert(self.pre_roll@ =~= pre + mono@.take(i as int));
                        }
                    }
                    proof {
                        assert(mono@.take(mono@.len() as int) =~= mono@);
                    }
                    let ghost full = self.pre_roll@;
                    while self.pre_roll.len() > pre_roll_cap
                        invariant
                            self.config == old(self).config,
                            self.sample_rate == Some(sample_rate),
                            self.active is None,
                            self.pre_roll@.len() == full.len() || self.pre_roll@.len()
                                >= pre_roll_cap,
                            full.len() >= self.pre_roll@.len(),
                            self.pre_roll@ == full.subrange(
                                full.len() - self.pre_roll@.len(),
                                full.len() as int,
                            ),
                        decreases self.pre_roll@.len(),
                    {
                        let _ = self.pre_roll.pop_front();
                        proof {
                            assert(self.pre_roll@ =~= full.subrange(
                                full.len() - self.pre_roll@.len(),
                                full.len() as int,
                            ));
                        }
                    }
                    proof {
                        if full.len() <= pre_roll_cap {
                            assert(self.pre_roll@ =~= full);
                        }
                    }
                    None
                }
            },
            Some(mut active) => {
                let old_len = active.samples.len();
                append_all(&mut active.samples, mono);
                let new_len = active.samples.len();
                if speaking {
                    active.trailing_silence = 0;
                    active.speech_samples = active.speech_samples + mono.len();
                } else {
                    active.trailing_silence = active.trailing_silence + mono.len();
                }
                let ended = active.trailing_silence >= hangover_samples;
                let full = active.samples.len() >= max_chunk_samples;
                self.active = Some(active);
                if ended || full {
                    self.finalize()
                } else {
                    None
                }
            },
        }
    }

    /// Closes out any chunk in flight (the stream ended or capture stopped).
    pub fn flush(&mut self) -> (chunk: Option<SpeechChunk<S>>)
        requires
            old(self).well_formed(),
        ensures
            final(self).well_formed(),
            final(self).config() == old(self).config(),
            final(self).state().sample_rate == old(self).state().sample_rate,
            final(self).state().pre_roll == old(self).state().pre_roll,
            final(self).state().active is None,
            chunk_view(chunk) == match old(self).state().active {
                None => None,
                Some(a) => closed_chunk(
                    old(self).config(),
                    old(self).state().sample_rate->0,
                    a,
                ),
            },
    {
        self.finalize()
    }
}

/// One chunker per source, so that the two streams are chunked
/// independently: a frame of one source never touches the other's chunk in
/// progress or pre-roll.
pub struct SourceChunkers<S> {
    mic: SpeechChunker<S>,
    system: SpeechChunker<S>,
}

impl<S: Copy> SourceChunkers<S> {
    /// The configuration of `source`'s chunker.
    pub closed spec fn config_of(&self, source: SourceKind) -> ChunkerConfig {
        match source {
            SourceKind::Microphone => self.mic.config(),
            SourceKind::SystemOutput => self.system.config(),
        }
    }

    /// The state of `source`'s chunker.
    pub closed spec fn state_of(&self, source: SourceKind) -> ChunkerView<S> {
        match source {
            SourceKind::Microphone => self.mic.state(),
            SourceKind::SystemOutput => self.system.state(),
        }
    }

    pub closed spec fn well_formed(&self) -> bool {
        self.mic.well_formed() && self.system.well_formed()
    }

    pub fn new(config: ChunkerConfig) -> (c: SourceChunkers<S>)
        ensures
            c.well_formed(),
            forall|k: SourceKind| #[trigger] c.config_of(k) == config,
            forall|k: SourceKind|
                #[trigger] c.state_of(k) == (ChunkerView::<S> {
                    sample_rate: None,
                    pre_roll: Seq::empty(),
                    active: None,
                }),
    {
        SourceChunkers { mic: SpeechChunker::new(config), system: SpeechChunker::new(config) }
    }

    /// Feeds one mono frame of `source` to that source's chunker, exactly as
    /// `SpeechChunker::push_mono`; the other source's chunker is untouched.
    pub fn push_mono(&mut self, source: SourceKind, mono: &[S], sample_rate: u32, speaking: bool) -> (chunk:
        Option<SpeechChunk<S>>)
        requires
            old(self).well_formed(),
        ensures
            final(self).well_formed(),
            forall|k: SourceKind| #[trigger] final(self).config_of(k) == old(self).config_of(k),
            (final(self).state_of(source), chunk_view(chunk)) == chunker_step(
                old(self).config_of(source),
                old(self).state_of(source),
                mono@,
                sample_rate,
                speaking,
            ),
            forall|k: SourceKind|
                k != source ==> #[trigger] final(self).state_of(k) == old(self).state_of(k),
    {
        match source {
            SourceKind::Microphone => self.mic.push_mono(mono, sample_rate, speaking),
            SourceKind::SystemOutput => self.system.push_mono(mono, sample_rate, speaking),
        }
    }

    /// Closes `source`'s chunk in progress, exactly as
    /// `SpeechChunker::flush`; the other source's chunker is untouched.
    pub fn flush(&mut self, source: SourceKind) -> (chunk: Option<SpeechChunk<S>>)
        requires
            old(self).well_formed(),
        ensures
            final(self).well_formed(),
            forall|k: SourceKind| #[trigger] final(self).config_of(k) == old(self).config_of(k),
            final(self).state_of(source).sample_rate == old(self).state_of(source).sample_rate,
            final(self).state_of(source).pre_roll == old(self).state_of(source).pre_roll,
            final(self).state_of(source).active is None,
            chunk_view(chunk) == match old(self).state_of(source).active {
                None => None,
                Some(a) => closed_chunk(
                    old(self).config_of(source),
                    old(self).state_of(source).sample_rate->0,
                    a,
                ),
            },
            forall|k: SourceKind|
                k != source ==> #[trigger] final(self).state_of(k) == old(self).state_of(k),
    {
        match source {
            SourceKind::Microphone => self.mic.flush(),
            SourceKind::SystemOutput => self.system.flush(),
        }
    }
}

/// The state and the finished chunks after feeding `frames` (mono samples,
/// rate, whether speech) one by one to a chunker in state `st`.
pub open spec fn chunker_run<S>(
    config: ChunkerConfig,
    st: ChunkerView<S>,
    frames: Seq<(Seq<S>, u32, bool)>,
) -> (ChunkerView<S>, Seq<(Seq<S>, u32)>)
    decreases frames.len(),
{
    if frames.len() == 0 {
        (st, Seq::empty())
    } else {
        let (st1, cs) = chunker_run(config, st, frames.drop_last());
        let f = frames.last();
        let (st2, c) = chunker_step(config, st1, f.0, f.1, f.2);
        (
            st2,
            match c {
                Some(x) => cs.push(x),
                None => cs,
            },
        )
    }
}

/// `mic` or `system`, whichever belongs to `source`.
pub open spec fn pick<A>(source: SourceKind, mic: A, system: A) -> A {
    match source {
        SourceKind::Microphone => mic,
        SourceKind::SystemOutput => system,
    }
}

/// Feeding a stream of frames tagged with their source to one chunker per
/// source: the two states after it, and the finished chunks tagged with
/// their source, in the order they finished.
pub open spec fn two_source_run<S>(
    config: ChunkerConfig,
    mic: ChunkerView<S>,
    system: ChunkerView<S>,
    frames: Seq<(SourceKind, Seq<S>, u32, bool)>,
) -> (ChunkerView<S>, ChunkerView<S>, Seq<(SourceKind, (Seq<S>, u32))>)
    decreases frames.len(),
{
    if frames.len() == 0 {
        (mic, system, Seq::empty())
    } else {
        let (m, y, cs) = two_source_run(config, mic, system, frames.drop_last());
        let f = frames.last();
        let (st2, c) = chunker_step(config, pick(f.0, m, y), f.1, f.2, f.3);
        (
            if f.0 == SourceKind::Microphone { st2 } else { m },
            if f.0 == SourceKind::SystemOutput { st2 } else { y },
            match c {
                Some(x) => cs.push((f.0, x)),
                None => cs,
            },
        )
    }
}

/// The frames of `frames` from `source`, untagged, in order.
pub open spec fn frames_of<S>(frames: Seq<(SourceKind, Seq<S>, u32, bool)>, source: SourceKind) -> Seq<
    (Seq<S>, u32, bool),
>
    decreases frames.len(),
{
    if frames.len() == 0 {
        Seq::empty()
    } else {
        let f = frames.last();
        if f.0 == source {
            frames_of(frames.drop_last(), source).push((f.1, f.2, f.3))
        } else {
            frames_of(frames.drop_last(), source)
        }
    }
}

/// The chunks of `chunks` from `source`, untagged, in order.
pub open spec fn chunks_of<S>(chunks: Seq<(SourceKind, (Seq<S>, u32))>, source: SourceKind) -> Seq<
    (Seq<S>, u32),
>
    decreases chunks.len(),
{
    if chunks.len() == 0 {
        Seq::empty()
    } else {
        let c = chunks.last();
        if c.0 == source {
            chunks_of(chunks.drop_last(), source).push(c.1)
        } else {
            chunks_of(chunks.drop_last(), source)
        }
    }
}

/// The two sources are chunked independently: over any interleaving of
/// their frames, the chunks of one source, and its chunker's state, are
/// exactly what feeding that source's frames alone to its chunker gives.
pub proof fn sources_are_chunked_independently<S>(
    config: ChunkerConfig,
    mic: ChunkerView<S>,
    system: ChunkerView<S>,
    frames: Seq<(SourceKind, Seq<S>, u32, bool)>,
    source: SourceKind,
)
    ensures
        ({
            let (m, y, cs) = two_source_run(config, mic, system, frames);
            let (st, own) = chunker_run(config, pick(source, mic, system), frames_of(frames, source));
            &&& pick(source, m, y) == st
            &&& chunks_of(cs, source) == own
        }),
    decreases frames.len(),
{
    if frames.len() > 0 {
        let p = frames.drop_last();
        sources_are_chunked_independently(config, mic, system, p, source);
        let f = frames.last();
        let (m, y, cs) = two_source_run(config, mic, system, p);
        let (st2, c) = chunker_step(config, pick(f.0, m, y), f.1, f.2, f.3);
        let cs2 = match c {
            Some(x) => cs.push((f.0, x)),
            None => cs,
        };
        if c is Some {
            assert(cs2.drop_last() =~= cs);
        }
        if f.0 == source {
            let own = frames_of(frames, source);
            assert(own.drop_last() =~= frames_of(p, source));
        }
    }
}

/// A speech frame always ends any run of silence: if a chunk is still open
/// after a speech frame, its trailing silence is zero. So a pause inside an
/// utterance is measured afresh from the last speech frame, and a chunk
/// closes on hangover only after that much silence since the last speech.
pub proof fn speech_frame_resets_the_silence_run<S>(
    config: ChunkerConfig,
    st: ChunkerView<S>,
    mono: Seq<S>,
    rate: u32,
)
    ensures
        chunker_step(config, st, mono, rate, true).0.active matches Some(a) ==> a.trailing_silence
            == 0,
{
}

/// A silent frame adds its length to the silence run of an open chunk at
/// the same rate; while that run stays below the hangover and the chunk
/// below the maximum length, the chunk stays open, holding every sample so
/// far: a pause shorter than the hangover never splits an utterance.
pub proof fn short_pause_keeps_the_chunk_open<S>(
    config: ChunkerConfig,
    st: ChunkerView<S>,
    mono: Seq<S>,
    rate: u32,
)
    requires
        st.sample_rate == Some(rate),
        st.active is Some,
        st.active->0.trailing_silence + mono.len() < samples_in(config.silence_hangover_ms, rate),
        st.active->0.samples.len() + mono.len() < samples_in(config.max_chunk_ms, rate),
    ensures
        ({
            let (next, out) = chunker_step(config, st, mono, rate, false);
            &&& out is None
            &&& next.active matches Some(a) && a.samples == st.active->0.samples + mono
                && a.trailing_silence == st.active->0.trailing_silence + mono.len()
                && a.speech_samples == st.active->0.speech_samples
        }),
{
}

/// The pre-roll buffer never holds more than the pre-roll duration at the
/// rate in use: if it was within its cap before a frame, it is after.
pub proof fn pre_roll_stays_within_cap<S>(
    config: ChunkerConfig,
    st: ChunkerView<S>,
    mono: Seq<S>,
    rate: u32,
    speaking: bool,
)
    requires
        st.sample_rate matches Some(r) ==> st.pre_roll.len() <= samples_in(config.pre_roll_ms, r),
    ensures
        chunker_step(config, st, mono, rate, speaking).0.pre_roll.len() <= samples_in(
            config.pre_roll_ms,
            rate,
        ),
{
}

/// A frame at a new sample rate never closes a chunk: whatever was in
/// flight at the old rate is dropped, so no chunk mixes rates.
pub proof fn rate_change_drops_chunk_in_flight<S>(
    config: ChunkerConfig,
    st: ChunkerView<S>,
    mono: Seq<S>,
    rate: u32,
    speaking: bool,
)
    requires
        st.sample_rate != Some(rate),
    ensures
        chunker_step(config, st, mono, rate, speaking).1 is None,
        chunker_step(config, st, mono, rate, speaking).0.active matches Some(a) ==> a.samples
            == mono,
{
    assert(Seq::<S>::empty() + mono =~= mono);
}

/// Every chunk that comes out holds at least the minimum amount of speech,
/// is at the rate of the frame that closed it, and consists of the chunk in
/// flight followed by that frame.
pub proof fn emitted_chunks_hold_enough_speech<S>(
    config: ChunkerConfig,
    st: ChunkerView<S>,
    mono: Seq<S>,
    rate: u32,
    speaking: bool,
)
    ensures
        chunker_step(config, st, mono, rate, speaking).1 matches Some((samples, r)) ==> {
            &&& r == rate
            &&& st.sample_rate == Some(rate)
            &&& st.active matches Some(a) && samples == a.samples + mono && (if speaking {
                a.speech_samples + mono.len()
            } else {
                a.speech_samples
            }) >= samples_in(config.min_speech_ms, rate)
        },
{
}

} // verus!
