//! When to spend a model call.
//!
//! Every transcript segment is a candidate trigger, but two gates decide:
//! a cooldown since the last call, and a minimum number of new words since
//! then. The rolling context keeps the most recent segments within a byte
//! budget, dropping the oldest first but never the newest.
//!
//! A segment that echoes a recent segment of the other stream (the same
//! speech picked up by both the microphone and the system output) is
//! dropped: it neither joins the context nor counts toward the word gate.

use vstd::prelude::*;
use std::collections::VecDeque;
use std::time::Instant;

use crate::agent::{echo_duplicate, is_echo_duplicate};
use crate::clock::millis_since;
use crate::source::SourceKind;
use crate::text::{byte_len, count_words, word_count};

verus! {

#[derive(Debug, Clone, Copy, PartialEq, Eq)]
pub struct TriggerConfig {
    /// Minimum time between model calls, in milliseconds.
    pub cooldown_ms: u64,
    /// Minimum words accumulated since the last call before firing again.
    pub min_new_words: usize,
    /// Rolling context budget, in bytes of text.
    pub context_char_budget: usize,
}

impl Default for TriggerConfig {
    fn default() -> (c: TriggerConfig)
        ensures
            c.cooldown_ms == 8000,
            c.min_new_words == 6,
            c.context_char_budget == 4000,
    {
        TriggerConfig { cooldown_ms: 8000, min_new_words: 6, context_char_budget: 4000 }
    }
}

struct Entry {
    source: SourceKind,
    text: String,
}

/// One segment of context as a mathematical value.
pub type EntryView = (SourceKind, Seq<char>);

/// Total bytes of text held by `es`.
pub open spec fn entries_bytes(es: Seq<EntryView>) -> nat
    decreases es.len(),
{
    if es.len() == 0 {
        0
    } else {
        byte_len(es[0].1) + entries_bytes(es.drop_first())
    }
}

/// The context after trimming to `budget`: the oldest entries are dropped
/// while the text exceeds the budget, but the newest entry always stays.
pub open spec fn trim_to_budget(es: Seq<EntryView>, budget: nat) -> Seq<EntryView>
    decreases es.len(),
{
    if entries_bytes(es) > budget && es.len() > 1 {
        trim_to_budget(es.drop_first(), budget)
    } else {
        es
    }
}

/// The speaker tag the prompt uses for a source.
pub open spec fn speaker_tag(source: SourceKind) -> Seq<char> {
    match source {
        SourceKind::Microphone => "[you]"@,
        SourceKind::SystemOutput => "[them]"@,
    }
}

/// One rendered line: tag, space, text, newline.
pub open spec fn render_line(e: EntryView) -> Seq<char> {
    speaker_tag(e.0) + " "@ + e.1 + "\n"@
}

/// The rendered context: one line per entry, oldest first.
pub open spec fn render_entries(es: Seq<EntryView>) -> Seq<char>
    decreases es.len(),
{
    if es.len() == 0 {
        Seq::empty()
    } else {
        render_entries(es.drop_last()) + render_line(es.last())
    }
}

/// How many of the most recent entries a new segment is checked against
/// for being an echo.
pub const ECHO_WINDOW: usize = 4;

/// Whether a segment `text` from `source` echoes one of the last
/// `ECHO_WINDOW` entries of `es` that came from the other source.
pub open spec fn is_echo(es: Seq<EntryView>, source: SourceKind, text: Seq<char>) -> bool {
    exists|i: int|
        es.len() - ECHO_WINDOW <= i < es.len() && 0 <= i && (#[trigger] es[i]).0 != source
            && echo_duplicate(es[i].1, text)
}

/// Milliseconds from `at` to `now`, zero when `now` is earlier.
pub open spec fn elapsed_ms(at: u64, now: u64) -> nat {
    if now >= at {
        (now - at) as nat
    } else {
        0
    }
}

/// Both gates: enough new words, and the cooldown has passed since the last
/// call (or there was none).
pub open spec fn gates_open(
    config: TriggerConfig,
    words_since_fire: nat,
    last_fired_at: Option<u64>,
    now_ms: u64,
) -> bool {
    &&& words_since_fire >= config.min_new_words
    &&& match last_fired_at {
        Some(at) => elapsed_ms(at, now_ms) >= config.cooldown_ms,
        None => true,
    }
}

proof fn lemma_entries_bytes_push(es: Seq<EntryView>, e: EntryView)
    ensures
        entries_bytes(es.push(e)) == entries_bytes(es) + byte_len(e.1),
    decreases es.len(),
{
    if es.len() > 0 {
        assert(es.push(e).drop_first() =~= es.drop_first().push(e));
        assert(es.push(e)[0] == es[0]);
        lemma_entries_bytes_push(es.drop_first(), e);
    } else {
        assert(es.push(e).drop_first() =~= Seq::<EntryView>::empty());
        assert(es.push(e)[0] == e);
        assert(entries_bytes(Seq::<EntryView>::empty()) == 0);
    }
}

/// The rolling conversation context plus the trigger bookkeeping.
pub struct RollingTranscript {
    config: TriggerConfig,
    entries: VecDeque<Entry>,
    total_chars: usize,
    last_fired_at: Option<u64>,
    words_since_fire: usize,
    origin: Instant,
}

impl RollingTranscript {
    pub closed spec fn config(&self) -> TriggerConfig {
        self.config
    }

    /// The segments held, oldest first.
    pub closed spec fn entries(&self) -> Seq<EntryView> {
        self.entries@.map_values(|e: Entry| (e.source, e.text@))
    }

    /// When the model was last called, in milliseconds on this transcript's clock.
    pub closed spec fn last_fired_at(&self) -> Option<u64> {
        self.last_fired_at
    }

    /// Words pushed since the last call.
    pub closed spec fn words_since_fire(&self) -> nat {
        self.words_since_fire as nat
    }

    pub closed spec fn well_formed(&self) -> bool {
        self.total_chars == entries_bytes(self.entries())
    }

    pub fn new(config: TriggerConfig) -> (t: RollingTranscript)
        ensures
            t.well_formed(),
            t.config() == config,
            t.entries() == Seq::<EntryView>::empty(),
            t.last_fired_at() == None::<u64>,
            t.words_since_fire() == 0,
    {
        let t = RollingTranscript {
            config,
            entries: VecDeque::new(),
            total_chars: 0,
            last_fired_at: None,
            words_since_fire: 0,
            origin: Instant::now(),
        };
        proof {
            assert(t.entries() =~= Seq::<EntryView>::empty());
        }
        t
    }

    /// Whether a segment `text` from `source` would be dropped by `push` as
    /// an echo of a recent segment of the other source.
    pub fn is_echo(&self, source: SourceKind, text: &str) -> (echo: bool)
        ensures
            echo == is_echo(self.entries(), source, text@),
    {
        let ghost es = self.entries();
        let n = self.entries.len();
        let start: usize = if n > ECHO_WINDOW {
            n - ECHO_WINDOW
        } else {
            0
        };
        let mut k: usize = start;
        while k < n
            invariant
                start <= k <= n,
                n == self.entries@.len(),
                es == self.entries(),
                start == (if n > ECHO_WINDOW {
                    n - ECHO_WINDOW
                } else {
                    0
                }),
                forall|j: int|
                    start <= j < k ==> !((#[trigger] es[j]).0 != source && echo_duplicate(
                        es[j].1,
                        text@,
                    )),
            decreases n - k,
        {
            let entry = &self.entries[k];
            proof {
                assert(es[k as int] == (entry.source, entry.text@));
            }
            if entry.source != source && is_echo_duplicate(entry.text.as_str(), text) {
                return true;
            }
            k = k + 1;
        }
        proof {
            if is_echo(es, source, text@) {
                let i = choose|i: int|
                    es.len() - ECHO_WINDOW <= i < es.len() && 0 <= i && (#[trigger] es[i]).0
                        != source && echo_duplicate(es[i].1, text@);
                assert(start <= i < n);
            }
        }
        false
    }

    /// Adds a segment: its words count toward the word gate, and the context
    /// is trimmed to the budget from the front. A segment that echoes a
    /// recent segment of the other source is dropped and changes nothing.
    pub fn push(&mut self, source: SourceKind, text: &str)
        requires
            old(self).well_formed(),
            old(self).words_since_fire() + word_count(text@) <= usize::MAX,
            entries_bytes(old(self).entries()) + byte_len(text@) <= usize::MAX,
        ensures
            final(self).well_formed(),
            final(self).config() == old(self).config(),
            final(self).last_fired_at() == old(self).last_fired_at(),
            is_echo(old(self).entries(), source, text@) ==> {
                &&& final(self).words_since_fire() == old(self).words_since_fire()
                &&& final(self).entries() == old(self).entries()
            },
            !is_echo(old(self).entries(), source, text@) ==> {
                &&& final(self).words_since_fire() == old(self).words_since_fire() + word_count(
                    text@,
                )
                &&& final(self).entries() == trim_to_budget(
                    old(self).entries().push((source, text@)),
                    old(self).config().context_char_budget as nat,
                )
            },
    {
        if self.is_echo(source, text) {
            return;
        }
        let ghost budget = self.config.context_char_budget as nat;
        let ghost pushed = old(self).entries().push((source, text@));
        let words = count_words(text);
        self.words_since_fire = self.words_since_fire + words;
        let len = text.len();
        self.total_chars = self.total_chars + len;
        self.entries.push_back(Entry { source, text: text.to_owned() });
        proof {
            lemma_entries_bytes_push(old(self).entries(), (source, text@));
            assert(self.entries() =~= pushed);
        }
        while self.total_chars > self.config.context_char_budget && self.entries.len() > 1
            invariant
                self.total_chars == entries_bytes(self.entries()),
                self.config == old(self).config,
                self.last_fired_at == old(self).last_fired_at,
                self.words_since_fire == old(self).words_since_fire + words,
                budget == self.config.context_char_budget as nat,
                trim_to_budget(self.entries(), budget) == trim_to_budget(pushed, budget),
            decreases self.entries@.len(),
        {
            let ghost before = self.entries();
            if let Some(dropped) = self.entries.pop_front() {
                proof {
                    assert(self.entries() =~= before.drop_first());
                }
                let dropped_len = dropped.text.as_str().len();
                self.total_chars = self.total_chars - dropped_len;
            }
        }
    }

    /// Whether `push` can take `text` without its counters overflowing.
    pub fn has_room_for(&self, text: &str) -> (ok: bool)
        requires
            self.well_formed(),
        ensures
            ok == (self.words_since_fire() + word_count(text@) <= usize::MAX && entries_bytes(
                self.entries(),
            ) + byte_len(text@) <= usize::MAX),
    {
        let words = count_words(text);
        let len = crate::text::str_byte_len(text);
        self.words_since_fire.checked_add(words).is_some() && self.total_chars.checked_add(
            len,
        ).is_some()
    }

    /// Whether both gates are open at clock reading `now_ms`.
    pub fn should_fire_at(&self, now_ms: u64) -> (fire: bool)
        ensures
            fire == gates_open(
                self.config(),
                self.words_since_fire(),
                self.last_fired_at(),
                now_ms,
            ),
    {
        if self.words_since_fire < self.config.min_new_words {
            return false;
        }
        match self.last_fired_at {
            Some(at) => {
                let elapsed = if now_ms >= at {
                    now_ms - at
                } else {
                    0
                };
                elapsed >= self.config.cooldown_ms
            },
            None => true,
        }
    }

    /// A reading of this transcript's clock, in milliseconds since it was
    /// created: the time base of `last_fired_at`. Nothing is promised of
    /// the value.
    pub fn clock_ms(&self) -> u64 {
        millis_since(&self.origin)
    }

    /// Whether both gates are open now. The word gate is decided here; the
    /// cooldown is measured on this transcript's clock.
    pub fn should_fire(&self) -> (fire: bool)
        ensures
            fire ==> self.words_since_fire() >= self.config().min_new_words,
            self.words_since_fire() >= self.config().min_new_words && self.last_fired_at()
                is None ==> fire,
    {
        let now = millis_since(&self.origin);
        self.should_fire_at(now)
    }

    /// Records a model call at clock reading `now_ms`, resetting the word gate.
    pub fn mark_fired_at(&mut self, now_ms: u64)
        requires
            old(self).well_formed(),
        ensures
            final(self).well_formed(),
            final(self).config() == old(self).config(),
            final(self).entries() == old(self).entries(),
            final(self).last_fired_at() == Some(now_ms),
            final(self).words_since_fire() == 0,
    {
        self.last_fired_at = Some(now_ms);
        self.words_since_fire = 0;
    }

    /// Records a model call now.
    pub fn mark_fired(&mut self)
        requires
            old(self).well_formed(),
        ensures
            final(self).well_formed(),
            final(self).config() == old(self).config(),
            final(self).entries() == old(self).entries(),
            final(self).last_fired_at() is Some,
            final(self).words_since_fire() == 0,
    {
        let now = millis_since(&self.origin);
        self.mark_fired_at(now);
    }

    /// The context as the prompt describes it: one line per segment, tagged
    /// `[you]` or `[them]`.
    pub fn render(&self) -> (out: String)
        ensures
            out@ == render_entries(self.entries()),
    {
        let mut out = String::new();
        let mut i: usize = 0;
        while i < self.entries.len()
            invariant
                i <= self.entries@.len(),
                out@ == render_entries(self.entries().take(i as int)),
            decreases self.entries@.len() - i,
        {
            let entry = &self.entries[i];
            let tag = match entry.source {
                SourceKind::Microphone => "[you]",
                SourceKind::SystemOutput => "[them]",
            };
            out.push_str(tag);
            out.push_str(" ");
            out.push_str(entry.text.as_str());
            out.push_str("\n");
            proof {
                let es = self.entries();
                assert(es.take(i + 1).drop_last() =~= es.take(i as int));
                assert(es.take(i + 1).last() == es[i as int]);
                assert(out@ =~= render_entries(es.take(i as int)) + render_line(es[i as int]));
            }
            i = i + 1;
        }
        proof {
            assert(self.entries().take(self.entries@.len() as int) =~= self.entries());
        }
        out
    }
}

proof fn lemma_trim_suffix(es: Seq<EntryView>, budget: nat)
    ensures
        es.len() > 0 ==> trim_to_budget(es, budget).len() > 0 && trim_to_budget(es, budget).last()
            == es.last(),
        trim_to_budget(es, budget).len() <= es.len(),
        trim_to_budget(es, budget) == es.subrange(
            es.len() - trim_to_budget(es, budget).len(),
            es.len() as int,
        ),
        entries_bytes(trim_to_budget(es, budget)) <= budget || trim_to_budget(es, budget).len()
            <= 1,
        trim_to_budget(es, budget).len() < es.len() ==> entries_bytes(
            es.subrange(es.len() - trim_to_budget(es, budget).len() - 1, es.len() as int),
        ) > budget,
    decreases es.len(),
{
    if entries_bytes(es) > budget && es.len() > 1 {
        lemma_trim_suffix(es.drop_first(), budget);
        let d = es.drop_first();
        let t = trim_to_budget(d, budget);
        assert(d.subrange(es.len() - 1 - t.len(), es.len() - 1) =~= es.subrange(
            es.len() - t.len(),
            es.len() as int,
        ));
        if t.len() < d.len() {
            assert(d.subrange(d.len() - t.len() - 1, d.len() as int) =~= es.subrange(
                es.len() - t.len() - 1,
                es.len() as int,
            ));
        } else {
            assert(es.subrange(es.len() - t.len() - 1, es.len() as int) =~= es);
        }
    } else {
        assert(es.subrange(0, es.len() as int) =~= es);
    }
}

/// After a segment is pushed, the context is the most recent run of
/// segments ending with the new one, and its text fits the budget unless
/// the new segment alone exceeds it: the oldest are dropped first and the
/// newest is never dropped.
pub proof fn context_keeps_newest_within_budget(es: Seq<EntryView>, e: EntryView, budget: nat)
    ensures
        ({
            let t = trim_to_budget(es.push(e), budget);
            &&& t.len() >= 1
            &&& t.last() == e
            &&& t == es.push(e).subrange(es.len() + 1 - t.len(), es.len() + 1 as int)
            &&& entries_bytes(t) <= budget || t == seq![e]
        }),
{
    lemma_trim_suffix(es.push(e), budget);
    let t = trim_to_budget(es.push(e), budget);
    if t.len() <= 1 {
        assert(t =~= seq![e]);
    }
}

/// Pushing each of `pushes` in turn onto an empty context: the context
/// after them, and the segments that were kept (not dropped as echoes), in
/// order.
pub open spec fn context_run(pushes: Seq<EntryView>, budget: nat) -> (Seq<EntryView>, Seq<EntryView>)
    decreases pushes.len(),
{
    if pushes.len() == 0 {
        (Seq::empty(), Seq::empty())
    } else {
        let (ctx, kept) = context_run(pushes.drop_last(), budget);
        let e = pushes.last();
        if is_echo(ctx, e.0, e.1) {
            (ctx, kept)
        } else {
            (trim_to_budget(ctx.push(e), budget), kept.push(e))
        }
    }
}

proof fn lemma_trim_then_push(es: Seq<EntryView>, e: EntryView, budget: nat)
    ensures
        trim_to_budget(trim_to_budget(es, budget).push(e), budget) == trim_to_budget(
            es.push(e),
            budget,
        ),
    decreases es.len(),
{
    if entries_bytes(es) > budget && es.len() > 1 {
        lemma_entries_bytes_push(es, e);
        assert(es.push(e).drop_first() =~= es.drop_first().push(e));
        lemma_trim_then_push(es.drop_first(), e, budget);
    }
}

/// Over any number of pushes, the context is the longest run of the most
/// recent kept segments (those not dropped as echoes) whose text fits the
/// budget, or the newest kept segment alone when it does not fit by itself;
/// order and sources are kept. Trimming as segments arrive gives the same
/// context as trimming the whole kept history at once.
pub proof fn context_is_the_longest_fitting_suffix(pushes: Seq<EntryView>, budget: nat)
    ensures
        ({
            let (t, kept) = context_run(pushes, budget);
            let n = kept.len() as int;
            &&& t == trim_to_budget(kept, budget)
            &&& kept.len() > 0 ==> {
                &&& t.len() >= 1
                &&& t == kept.subrange(n - t.len(), n)
                &&& entries_bytes(t) <= budget || t.len() == 1
                &&& t.len() < n ==> entries_bytes(kept.subrange(n - t.len() - 1, n)) > budget
            }
        }),
    decreases pushes.len(),
{
    if pushes.len() > 0 {
        let p = pushes.drop_last();
        context_is_the_longest_fitting_suffix(p, budget);
        let (ctx, kept) = context_run(p, budget);
        let e = pushes.last();
        if !is_echo(ctx, e.0, e.1) {
            lemma_trim_then_push(kept, e, budget);
            assert(kept.push(e).drop_last() =~= kept);
            lemma_trim_suffix(kept.push(e), budget);
        } else if kept.len() > 0 {
            lemma_trim_suffix(kept, budget);
        }
    }
}

/// Right after a call the word gate is shut (when at least one new word is
/// required), and from then on a call is due exactly when enough words have
/// been pushed since it and the cooldown has passed since it. Recording a
/// call leaves the context, and so its rendering, as it was.
pub proof fn firing_resets_the_gates(config: TriggerConfig, fired_at: u64, words: nat, now_ms: u64)
    ensures
        config.min_new_words >= 1 ==> !gates_open(config, 0, Some(fired_at), now_ms),
        gates_open(config, words, Some(fired_at), now_ms) <==> (words >= config.min_new_words
            && now_ms >= fired_at && now_ms - fired_at >= config.cooldown_ms) || (words
            >= config.min_new_words && now_ms < fired_at && config.cooldown_ms == 0),
{
}

} // verus!
