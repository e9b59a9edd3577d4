//! The cue agent: watches the transcript, decides when to spend a model
//! call, and decides which of the model's proposals reach the user.
//!
//! The model always proposes its best candidate with a 1-10 value score; the
//! agent publishes it only when the score clears the mode's threshold and
//! the hint is not a reworded repeat of one shown recently.

use vstd::prelude::*;

use crate::source::SourceKind;
use crate::text::{decimal, decimal_is_injective, push_decimal, word_count};
use crate::trigger::{
    entries_bytes, gates_open, is_echo, render_entries, trim_to_budget, EntryView, RollingTranscript,
    TriggerConfig,
};

use crate::text::{
    byte_len, chars_of, lowercase_of, split_whitespace, split_words, str_byte_len, string_from_chars,
    trim_non_alnum, trim_non_alphanumeric,
};
use vstd::slice::slice_subrange;

verus! {

// ---------------------------------------------------------------------------
// Hint similarity
// ---------------------------------------------------------------------------

/// One word of a hint as compared: alphanumeric core, lowercased, with a
/// crude plural fold (a trailing `s` dropped from words longer than three
/// bytes).
pub open spec fn normalize_word(w: Seq<char>) -> Seq<char> {
    let t = lowercase_of(trim_non_alnum(w));
    if byte_len(t) > 3 && t.len() > 0 && t.last() == 's' {
        t.drop_last()
    } else {
        t
    }
}

/// The content words of a list of words: normalized, keeping those longer
/// than three bytes (function words drop out), each once, in order of first
/// appearance.
pub open spec fn content_words(words: Seq<Seq<char>>) -> Seq<Seq<char>>
    decreases words.len(),
{
    if words.len() == 0 {
        Seq::empty()
    } else {
        let acc = content_words(words.drop_last());
        let w = normalize_word(words.last());
        if byte_len(w) > 3 && !acc.contains(w) {
            acc.push(w)
        } else {
            acc
        }
    }
}

/// The content words of a hint.
pub open spec fn hint_word_list(text: Seq<char>) -> Seq<Seq<char>> {
    content_words(split_whitespace(text))
}

/// How many words of `a` occur in `b`.
pub open spec fn shared_count(a: Seq<Seq<char>>, b: Seq<Seq<char>>) -> nat
    decreases a.len(),
{
    if a.len() == 0 {
        0
    } else {
        shared_count(a.drop_last(), b) + if b.contains(a.last()) {
            1nat
        } else {
            0nat
        }
    }
}

/// Two hints are near duplicates when both have content words and their
/// word sets overlap by more than 40% of their union (Jaccard index above
/// two fifths).
pub open spec fn near_duplicate(a: Seq<char>, b: Seq<char>) -> bool {
    let wa = hint_word_list(a);
    let wb = hint_word_list(b);
    let shared = shared_count(wa, wb);
    &&& wa.len() > 0
    &&& wb.len() > 0
    &&& 5 * shared > 2 * (wa.len() + wb.len() - shared)
}

proof fn lemma_content_words_distinct(words: Seq<Seq<char>>)
    ensures
        content_words(words).no_duplicates(),
    decreases words.len(),
{
    if words.len() > 0 {
        lemma_content_words_distinct(words.drop_last());
        let acc = content_words(words.drop_last());
        let w = normalize_word(words.last());
        if byte_len(w) > 3 && !acc.contains(w) {
            let r = acc.push(w);
            assert forall|i: int, j: int|
                0 <= i < r.len() && 0 <= j < r.len() && i != j implies r[i] != r[j] by {
                if i == acc.len() {
                    assert(r[j] == acc[j]);
                } else if j == acc.len() {
                    assert(r[i] == acc[i]);
                }
            }
        }
    }
}

proof fn lemma_shared_count_is_overlap(a: Seq<Seq<char>>, b: Seq<Seq<char>>)
    requires
        a.no_duplicates(),
    ensures
        shared_count(a, b) == a.to_set().intersect(b.to_set()).len(),
    decreases a.len(),
{
    if a.len() == 0 {
        assert(a.to_set().intersect(b.to_set()) =~= Set::<Seq<char>>::empty());
    } else {
        let p = a.drop_last();
        let x = a.last();
        assert forall|i: int, j: int|
            0 <= i < p.len() && 0 <= j < p.len() && i != j implies p[i] != p[j] by {
            assert(p[i] == a[i] && p[j] == a[j]);
        }
        lemma_shared_count_is_overlap(p, b);
        assert(!p.contains(x)) by {
            if p.contains(x) {
                let k = choose|k: int| 0 <= k < p.len() && p[k] == x;
                assert(a[k] == x && a[a.len() - 1] == x);
            }
        }
        assert forall|y: Seq<char>| a.contains(y) == (p.contains(y) || y == x) by {
            if a.contains(y) {
                let k = choose|k: int| 0 <= k < a.len() && a[k] == y;
                if k < a.len() - 1 {
                    assert(p[k] == y);
                }
            }
            if p.contains(y) {
                let k = choose|k: int| 0 <= k < p.len() && p[k] == y;
                assert(a[k] == y);
            }
            if y == x {
                assert(a[a.len() - 1] == y);
            }
        }
        let ip = p.to_set().intersect(b.to_set());
        vstd::seq_lib::seq_to_set_is_finite(p);
        vstd::set::axiom_set_intersect_finite(p.to_set(), b.to_set());
        vstd::set::axiom_set_insert_len(ip, x);
        if b.contains(x) {
            assert(a.to_set().intersect(b.to_set()) =~= ip.insert(x));
        } else {
            assert(a.to_set().intersect(b.to_set()) =~= ip);
        }
    }
}

proof fn lemma_shared_count_all(a: Seq<Seq<char>>, b: Seq<Seq<char>>)
    requires
        forall|i: int| 0 <= i < a.len() ==> b.contains(#[trigger] a[i]),
    ensures
        shared_count(a, b) == a.len(),
    decreases a.len(),
{
    if a.len() > 0 {
        let p = a.drop_last();
        assert forall|i: int| 0 <= i < p.len() implies b.contains(#[trigger] p[i]) by {
            assert(p[i] == a[i]);
        }
        lemma_shared_count_all(p, b);
        assert(b.contains(a[a.len() - 1]));
    }
}

/// Being a near duplicate does not depend on the order of the two hints.
pub proof fn near_duplicate_is_symmetric(a: Seq<char>, b: Seq<char>)
    ensures
        near_duplicate(a, b) == near_duplicate(b, a),
{
    let wa = hint_word_list(a);
    let wb = hint_word_list(b);
    lemma_content_words_distinct(split_whitespace(a));
    lemma_content_words_distinct(split_whitespace(b));
    lemma_shared_count_is_overlap(wa, wb);
    lemma_shared_count_is_overlap(wb, wa);
    assert(wa.to_set().intersect(wb.to_set()) =~= wb.to_set().intersect(wa.to_set()));
}

/// A hint with content words is a near duplicate of itself; one without
/// is a near duplicate of nothing, itself included.
pub proof fn hint_is_near_duplicate_of_itself(a: Seq<char>)
    ensures
        near_duplicate(a, a) == (hint_word_list(a).len() > 0),
{
    let wa = hint_word_list(a);
    assert forall|i: int| 0 <= i < wa.len() implies wa.contains(#[trigger] wa[i]) by {}
    lemma_shared_count_all(wa, wa);
}

/// The sets of content words of two texts, and the sizes of their overlap
/// and union, as the similarity measures compare them.
proof fn lemma_overlap_as_sets(a: Seq<char>, b: Seq<char>)
    ensures
        ({
            let wa = hint_word_list(a);
            let wb = hint_word_list(b);
            let sa = wa.to_set();
            let sb = wb.to_set();
            &&& wa.len() == sa.len()
            &&& wb.len() == sb.len()
            &&& shared_count(wa, wb) == sa.intersect(sb).len()
            &&& wa.len() + wb.len() - shared_count(wa, wb) == (sa + sb).len()
        }),
{
    let wa = hint_word_list(a);
    let wb = hint_word_list(b);
    lemma_content_words_distinct(split_whitespace(a));
    lemma_content_words_distinct(split_whitespace(b));
    wa.unique_seq_to_set();
    wb.unique_seq_to_set();
    lemma_shared_count_is_overlap(wa, wb);
    vstd::seq_lib::seq_to_set_is_finite(wa);
    vstd::seq_lib::seq_to_set_is_finite(wb);
    vstd::set_lib::lemma_set_intersect_union_lens(wa.to_set(), wb.to_set());
}

/// Two hints are near duplicates exactly when both have content words and
/// the words they share are more than two fifths of all the words either
/// has (Jaccard index of the two word sets above 0.4).
pub proof fn near_duplicate_is_jaccard_above_two_fifths(a: Seq<char>, b: Seq<char>)
    ensures
        ({
            let sa = hint_word_list(a).to_set();
            let sb = hint_word_list(b).to_set();
            near_duplicate(a, b) <==> (sa.len() > 0 && sb.len() > 0 && 5 * sa.intersect(sb).len() > 2
                * (sa + sb).len())
        }),
{
    lemma_overlap_as_sets(a, b);
}

/// Two transcript segments are echoes exactly when both have content words
/// and the words they share are more than three fifths of all the words
/// either has (Jaccard index above 0.6); every echo is therefore also a near
/// duplicate.
pub proof fn echo_is_jaccard_above_three_fifths(a: Seq<char>, b: Seq<char>)
    ensures
        ({
            let sa = hint_word_list(a).to_set();
            let sb = hint_word_list(b).to_set();
            echo_duplicate(a, b) <==> (sa.len() > 0 && sb.len() > 0 && 5 * sa.intersect(sb).len() > 3
                * (sa + sb).len())
        }),
        echo_duplicate(a, b) ==> near_duplicate(a, b),
{
    lemma_overlap_as_sets(a, b);
}

/// The normalized form of one word, with its length in bytes.
fn normalize(word: &[char]) -> (out: (String, usize))
    ensures
        out.0@ == normalize_word(word@),
        out.1 == byte_len(out.0@),
{
    let trimmed = trim_non_alphanumeric(word);
    let core = string_from_chars(trimmed.as_slice());
    let lower = core.as_str().to_lowercase();
    let lower_len = str_byte_len(lower.as_str());
    let cs = chars_of(lower.as_str());
    if lower_len > 3 && cs.len() > 0 && cs[cs.len() - 1] == 's' {
        let folded = string_from_chars(slice_subrange(cs.as_slice(), 0, cs.len() - 1));
        proof {
            assert(cs@.subrange(0, cs@.len() - 1) =~= cs@.drop_last());
        }
        let folded_len = str_byte_len(folded.as_str());
        (folded, folded_len)
    } else {
        (lower, lower_len)
    }
}

/// Whether `list` holds a string equal to `s`.
fn contains_string(list: &Vec<String>, s: &String) -> (found: bool)
    ensures
        found == list@.map_values(|x: String| x@).contains(s@),
{
    let ghost views = list@.map_values(|x: String| x@);
    let mut i: usize = 0;
    while i < list.len()
        invariant
            i <= list@.len(),
            views == list@.map_values(|x: String| x@),
            forall|k: int| 0 <= k < i ==> views[k] != s@,
        decreases list@.len() - i,
    {
        if list[i] == *s {
            proof {
                assert(views[i as int] == s@);
            }
            return true;
        }
        i = i + 1;
    }
    false
}

/// The content words of a hint, each once, in order of first appearance.
fn hint_words(text: &str) -> (words: Vec<String>)
    ensures
        words@.map_values(|x: String| x@) == hint_word_list(text@),
{
    let raw = split_words(text);
    let ghost ws = split_whitespace(text@);
    let mut out: Vec<String> = Vec::new();
    let mut i: usize = 0;
    while i < raw.len()
        invariant
            i <= raw@.len(),
            raw@.len() == ws.len(),
            ws == split_whitespace(text@),
            forall|k: int| 0 <= k < raw@.len() ==> #[trigger] raw@[k]@ == ws[k],
            out@.map_values(|x: String| x@) == content_words(ws.take(i as int)),
        decreases raw@.len() - i,
    {
        let (w, len) = normalize(raw[i].as_slice());
        proof {
            assert(ws.take(i + 1).drop_last() =~= ws.take(i as int));
            assert(ws.take(i + 1).last() == raw@[i as int]@);
        }
        if len > 3 && !contains_string(&out, &w) {
            out.push(w);
            proof {
                assert(out@.map_values(|x: String| x@) =~= content_words(ws.take(i as int)).push(
                    normalize_word(raw@[i as int]@),
                ));
            }
        }
        i = i + 1;
    }
    proof {
        assert(ws.take(raw@.len() as int) =~= ws);
    }
    out
}

/// The sizes of the content-word lists of `a` and `b`, and how many of
/// `a`'s content words `b` shares.
pub fn content_word_overlap(a: &str, b: &str) -> (c: (usize, usize, usize))
    ensures
        c.0 == hint_word_list(a@).len(),
        c.1 == hint_word_list(b@).len(),
        c.2 == shared_count(hint_word_list(a@), hint_word_list(b@)),
        c.2 <= c.0,
{
    let wa = hint_words(a);
    let wb = hint_words(b);
    let ghost va = wa@.map_values(|x: String| x@);
    let ghost vb = wb@.map_values(|x: String| x@);
    let mut shared: usize = 0;
    let mut i: usize = 0;
    while i < wa.len()
        invariant
            i <= wa@.len(),
            va == wa@.map_values(|x: String| x@),
            vb == wb@.map_values(|x: String| x@),
            shared == shared_count(va.take(i as int), vb),
            shared <= i,
        decreases wa@.len() - i,
    {
        proof {
            assert(va.take(i + 1).drop_last() =~= va.take(i as int));
            assert(va.take(i + 1).last() == va[i as int]);
        }
        if contains_string(&wb, &wa[i]) {
            shared = shared + 1;
        }
        i = i + 1;
    }
    proof {
        assert(va.take(wa@.len() as int) =~= va);
    }
    (wa.len(), wb.len(), shared)
}

/// Whether two hints are materially the same suggestion reworded.
pub fn is_near_duplicate(a: &str, b: &str) -> (dup: bool)
    ensures
        dup == near_duplicate(a@, b@),
{
    let (na, nb, shared) = content_word_overlap(a, b);
    if na == 0 || nb == 0 {
        return false;
    }
    let s = shared as u128;
    let union = na as u128 + nb as u128 - s;
    5 * s > 2 * union
}

/// Two transcript segments are echoes of each other when both have content
/// words and their word sets overlap by more than 60% of their union: a
/// stricter bar than for hints, since two transcriptions of the same audio
/// share more exact words than two rewordings of a suggestion do.
pub open spec fn echo_duplicate(a: Seq<char>, b: Seq<char>) -> bool {
    let wa = hint_word_list(a);
    let wb = hint_word_list(b);
    let shared = shared_count(wa, wb);
    &&& wa.len() > 0
    &&& wb.len() > 0
    &&& 5 * shared > 3 * (wa.len() + wb.len() - shared)
}

/// Whether two transcript segments are echoes of each other.
pub fn is_echo_duplicate(a: &str, b: &str) -> (echo: bool)
    ensures
        echo == echo_duplicate(a@, b@),
{
    let (na, nb, shared) = content_word_overlap(a, b);
    if na == 0 || nb == 0 {
        return false;
    }
    let s = shared as u128;
    let union = na as u128 + nb as u128 - s;
    5 * s > 3 * union
}

// ---------------------------------------------------------------------------
// Model outcomes and suggestions
// ---------------------------------------------------------------------------

#[derive(Debug, Clone, PartialEq, Eq)]
pub enum AgentError {
    MissingApiKey,
    Http(String),
    Api(String),
    MalformedResponse(String),
}

/// The model's best candidate for the current moment, with its value score.
#[derive(Debug, Clone, PartialEq, Eq)]
pub struct ModelSuggestion {
    /// Short fragment of the transcript that triggered this.
    pub cue: String,
    /// One imperative line: the card's payload.
    pub hint: String,
    /// Deeper guidance revealed on expand.
    pub detail: String,
    /// 1-10, how much showing this right now would help.
    pub value: u8,
}

/// Everything one model call can produce: possibly a suggestion, possibly a
/// full replacement of the running notes.
#[derive(Debug, Clone, PartialEq, Eq)]
pub struct ModelOutcome {
    pub suggestion: Option<ModelSuggestion>,
    pub updated_notes: Option<String>,
}

impl Default for ModelOutcome {
    fn default() -> (o: ModelOutcome)
        ensures
            o.suggestion is None,
            o.updated_notes is None,
    {
        ModelOutcome { suggestion: None, updated_notes: None }
    }
}

/// A published suggestion, tagged with the stream whose segment triggered it.
#[derive(Debug, Clone, PartialEq, Eq)]
pub struct Suggestion {
    pub id: String,
    pub source: SourceKind,
    pub cue: String,
    pub hint: String,
    pub detail: String,
}

pub enum AgentErrorView {
    MissingApiKey,
    Http(Seq<char>),
    Api(Seq<char>),
    MalformedResponse(Seq<char>),
}

pub struct ModelSuggestionView {
    pub cue: Seq<char>,
    pub hint: Seq<char>,
    pub detail: Seq<char>,
    pub value: u8,
}

pub struct ModelOutcomeView {
    pub suggestion: Option<ModelSuggestionView>,
    pub updated_notes: Option<Seq<char>>,
}

pub struct SuggestionView {
    pub id: Seq<char>,
    pub source: SourceKind,
    pub cue: Seq<char>,
    pub hint: Seq<char>,
    pub detail: Seq<char>,
}

impl View for AgentError {
    type V = AgentErrorView;

    open spec fn view(&self) -> AgentErrorView {
        match self {
            AgentError::MissingApiKey => AgentErrorView::MissingApiKey,
            AgentError::Http(s) => AgentErrorView::Http(s@),
            AgentError::Api(s) => AgentErrorView::Api(s@),
            AgentError::MalformedResponse(s) => AgentErrorView::MalformedResponse(s@),
        }
    }
}

impl View for ModelSuggestion {
    type V = ModelSuggestionView;

    open spec fn view(&self) -> ModelSuggestionView {
        ModelSuggestionView {
            cue: self.cue@,
            hint: self.hint@,
            detail: self.detail@,
            value: self.value,
        }
    }
}

pub open spec fn opt_str_view(o: Option<String>) -> Option<Seq<char>> {
    match o {
        Some(s) => Some(s@),
        None => None,
    }
}

impl View for ModelOutcome {
    type V = ModelOutcomeView;

    open spec fn view(&self) -> ModelOutcomeView {
        ModelOutcomeView {
            suggestion: match self.suggestion {
                Some(s) => Some(s@),
                None => None,
            },
            updated_notes: opt_str_view(self.updated_notes),
        }
    }
}

impl View for Suggestion {
    type V = SuggestionView;

    open spec fn view(&self) -> SuggestionView {
        SuggestionView {
            id: self.id@,
            source: self.source,
            cue: self.cue@,
            hint: self.hint@,
            detail: self.detail@,
        }
    }
}

// ---------------------------------------------------------------------------
// The model request and the model's reply
// ---------------------------------------------------------------------------

/// `"- " + h` for each hint, joined by newlines.
pub open spec fn bullet_list(hints: Seq<Seq<char>>) -> Seq<char>
    decreases hints.len(),
{
    if hints.len() == 0 {
        Seq::empty()
    } else if hints.len() == 1 {
        "- "@ + hints[0]
    } else {
        bullet_list(hints.drop_last()) + "\n"@ + "- "@ + hints.last()
    }
}

/// The user message of a model call: the hints already shown, the running
/// notes and the rendered transcript, with placeholders when there are no
/// hints or no notes.
pub open spec fn user_message(
    transcript: Seq<char>,
    notes: Seq<char>,
    recent_hints: Seq<Seq<char>>,
) -> Seq<char> {
    let shown = if recent_hints.len() == 0 {
        "none yet"@
    } else {
        bullet_list(recent_hints)
    };
    let notes_text = if notes.len() == 0 {
        "(none yet)"@
    } else {
        notes
    };
    "Suggestions already shown (do not repeat):\n"@ + shown
        + "\n\nYour running notes from earlier in this conversation:\n"@ + notes_text
        + "\n\nTranscript (the recent part of the conversation):\n"@ + transcript
}

/// Builds the user message of a model call.
pub fn render_user_message(transcript: &str, notes: &str, recent_hints: &[String]) -> (msg: String)
    ensures
        msg@ == user_message(transcript@, notes@, recent_hints@.map_values(|h: String| h@)),
{
    let ghost hv = recent_hints@.map_values(|h: String| h@);
    let mut msg = String::new();
    msg.push_str("Suggestions already shown (do not repeat):\n");
    if recent_hints.len() == 0 {
        msg.push_str("none yet");
    } else {
        let ghost start = msg@;
        let mut i: usize = 0;
        while i < recent_hints.len()
            invariant
                i <= recent_hints@.len(),
                hv == recent_hints@.map_values(|h: String| h@),
                msg@ == start + bullet_list(hv.take(i as int)),
            decreases recent_hints@.len() - i,
        {
            if i > 0 {
                msg.push_str("\n");
            }
            msg.push_str("- ");
            msg.push_str(recent_hints[i].as_str());
            proof {
                assert(hv.take(i + 1).drop_last() =~= hv.take(i as int));
                assert(hv.take(i + 1).last() == hv[i as int]);
                if i == 0 {
                    assert(hv.take(1)[0] == hv[0]);
                }
                assert(msg@ =~= start + bullet_list(hv.take(i + 1)));
            }
            i = i + 1;
        }
        proof {
            assert(hv.take(recent_hints@.len() as int) =~= hv);
        }
    }
    msg.push_str("\n\nYour running notes from earlier in this conversation:\n");
    if notes.is_empty() {
        msg.push_str("(none yet)");
    } else {
        msg.push_str(notes);
    }
    msg.push_str("\n\nTranscript (the recent part of the conversation):\n");
    msg.push_str(transcript);
    proof {
        assert(msg@ =~= user_message(transcript@, notes@, hv));
    }
    msg
}

/// One content block of a Messages API reply, with the fields the agent
/// reads: the block's `type` and tool `name` when they are strings, and the
/// tool input's `value` when it is an unsigned integer and its `cue`,
/// `hint`, `detail` and `notes` when they are strings.
#[derive(Debug, Clone, PartialEq, Eq)]
pub struct ContentBlock {
    pub block_type: Option<String>,
    pub name: Option<String>,
    pub value: Option<u64>,
    pub cue: Option<String>,
    pub hint: Option<String>,
    pub detail: Option<String>,
    pub notes: Option<String>,
}

/// A Messages API reply: whether the HTTP status was a success, the status
/// as text (code and reason), the error message the body carries if any,
/// and the body's `content` array if it has one.
#[derive(Debug, Clone, PartialEq, Eq)]
pub struct ApiReply {
    pub status_ok: bool,
    pub status: String,
    pub error_message: Option<String>,
    pub content: Option<Vec<ContentBlock>>,
}

pub struct ContentBlockView {
    pub block_type: Option<Seq<char>>,
    pub name: Option<Seq<char>>,
    pub value: Option<u64>,
    pub cue: Option<Seq<char>>,
    pub hint: Option<Seq<char>>,
    pub detail: Option<Seq<char>>,
    pub notes: Option<Seq<char>>,
}

impl View for ContentBlock {
    type V = ContentBlockView;

    open spec fn view(&self) -> ContentBlockView {
        ContentBlockView {
            block_type: opt_str_view(self.block_type),
            name: opt_str_view(self.name),
            value: self.value,
            cue: opt_str_view(self.cue),
            hint: opt_str_view(self.hint),
            detail: opt_str_view(self.detail),
            notes: opt_str_view(self.notes),
        }
    }
}

/// The error for a tool input that lacks a field.
pub open spec fn missing_field(name: Seq<char>) -> AgentErrorView {
    AgentErrorView::MalformedResponse("tool input missing `"@ + name + "`"@)
}

/// A score clamped into 1..=10.
pub open spec fn clamp_value(v: u64) -> u8 {
    if v < 1 {
        1
    } else if v > 10 {
        10
    } else {
        v as u8
    }
}

/// A clamped score always lies in 1..=10, and a score already in that
/// range is kept as it is.
pub proof fn clamped_scores_stay_in_range(v: u64)
    ensures
        1 <= clamp_value(v) <= 10,
        1 <= v <= 10 ==> clamp_value(v) == v,
        v > 10 ==> clamp_value(v) == 10,
        v == 0 ==> clamp_value(v) == 1,
{
}

/// The effect of one content block on the outcome collected so far: a
/// `propose_suggestion` tool call replaces the suggestion, an
/// `update_notes` call replaces the notes, and anything else is ignored.
pub open spec fn apply_block(acc: ModelOutcomeView, b: ContentBlockView) -> Result<
    ModelOutcomeView,
    AgentErrorView,
> {
    if b.block_type != Some("tool_use"@) {
        Ok(acc)
    } else if b.name == Some("propose_suggestion"@) {
        match (b.value, b.cue, b.hint, b.detail) {
            (None, _, _, _) => Err(missing_field("value"@)),
            (Some(_), None, _, _) => Err(missing_field("cue"@)),
            (Some(_), Some(_), None, _) => Err(missing_field("hint"@)),
            (Some(_), Some(_), Some(_), None) => Err(missing_field("detail"@)),
            (Some(v), Some(cue), Some(hint), Some(detail)) => Ok(
                ModelOutcomeView {
                    suggestion: Some(
                        ModelSuggestionView { cue, hint, detail, value: clamp_value(v) },
                    ),
                    updated_notes: acc.updated_notes,
                },
            ),
        }
    } else if b.name == Some("update_notes"@) {
        match b.notes {
            None => Err(missing_field("notes"@)),
            Some(n) => Ok(ModelOutcomeView { suggestion: acc.suggestion, updated_notes: Some(n) }),
        }
    } else {
        Ok(acc)
    }
}

/// Whether `b` is a complete `propose_suggestion` tool call.
pub open spec fn is_complete_proposal(b: ContentBlockView) -> bool {
    &&& b.block_type == Some("tool_use"@)
    &&& b.name == Some("propose_suggestion"@)
    &&& b.value is Some
    &&& b.cue is Some
    &&& b.hint is Some
    &&& b.detail is Some
}

/// Whether `b` is an `update_notes` tool call that carries notes.
pub open spec fn is_notes_update(b: ContentBlockView) -> bool {
    &&& b.block_type == Some("tool_use"@)
    &&& b.name == Some("update_notes"@)
    &&& b.notes is Some
}

/// The two tool calls touch disjoint parts of the outcome: a proposal
/// replaces the suggestion and keeps the notes collected so far, and a
/// notes update replaces the notes and keeps the suggestion.
pub proof fn tool_calls_touch_their_own_fields(acc: ModelOutcomeView, b: ContentBlockView)
    ensures
        is_complete_proposal(b) ==> (apply_block(acc, b) matches Ok(o) && o.updated_notes
            == acc.updated_notes && o.suggestion == Some(
            ModelSuggestionView {
                cue: b.cue->0,
                hint: b.hint->0,
                detail: b.detail->0,
                value: clamp_value(b.value->0),
            },
        )),
        is_notes_update(b) ==> (apply_block(acc, b) matches Ok(o) && o.suggestion == acc.suggestion
            && o.updated_notes == b.notes),
{
    reveal_strlit("update_notes");
    reveal_strlit("propose_suggestion");
    assert("update_notes"@.len() != "propose_suggestion"@.len());
}

/// A reply that both updates the notes and proposes a suggestion yields
/// both, in either order of the two tool calls.
pub proof fn reply_keeps_notes_and_proposal(u: ContentBlockView, p: ContentBlockView)
    requires
        is_notes_update(u),
        is_complete_proposal(p),
    ensures
        collect_blocks(seq![u, p]) matches Ok(o) && o.updated_notes == u.notes
            && o.suggestion is Some,
        collect_blocks(seq![p, u]) matches Ok(o) && o.updated_notes == u.notes
            && o.suggestion is Some,
{
    let empty = ModelOutcomeView { suggestion: None, updated_notes: None };
    tool_calls_touch_their_own_fields(empty, u);
    tool_calls_touch_their_own_fields(empty, p);
    let o1 = apply_block(empty, u)->Ok_0;
    let o2 = apply_block(empty, p)->Ok_0;
    tool_calls_touch_their_own_fields(o1, p);
    tool_calls_touch_their_own_fields(o2, u);
    assert(seq![u, p].drop_last() =~= seq![u]);
    assert(seq![p, u].drop_last() =~= seq![p]);
    assert(seq![u].drop_last() =~= Seq::<ContentBlockView>::empty());
    assert(seq![p].drop_last() =~= Seq::<ContentBlockView>::empty());
    assert(collect_blocks(Seq::<ContentBlockView>::empty()) == Ok::<
        ModelOutcomeView,
        AgentErrorView,
    >(empty));
    assert(collect_blocks(seq![u]) == apply_block(empty, u));
    assert(collect_blocks(seq![p]) == apply_block(empty, p));
    assert(collect_blocks(seq![u, p]) == apply_block(o1, p));
    assert(collect_blocks(seq![p, u]) == apply_block(o2, u));
}

/// The outcome collected from the blocks in order, or the first error.
pub open spec fn collect_blocks(blocks: Seq<ContentBlockView>) -> Result<
    ModelOutcomeView,
    AgentErrorView,
>
    decreases blocks.len(),
{
    if blocks.len() == 0 {
        Ok(ModelOutcomeView { suggestion: None, updated_notes: None })
    } else {
        match collect_blocks(blocks.drop_last()) {
            Err(e) => Err(e),
            Ok(acc) => apply_block(acc, blocks.last()),
        }
    }
}

/// What a reply means: an API error for a failure status, a malformed
/// response without a content array, otherwise the collected tool calls
/// (plain text yields the empty outcome).
pub open spec fn reply_outcome(
    status_ok: bool,
    status: Seq<char>,
    error_message: Option<Seq<char>>,
    content: Option<Seq<ContentBlockView>>,
) -> Result<ModelOutcomeView, AgentErrorView> {
    if !status_ok {
        let message = match error_message {
            Some(m) => m,
            None => "unknown error"@,
        };
        Err(AgentErrorView::Api(status + ": "@ + message))
    } else {
        match content {
            None => Err(AgentErrorView::MalformedResponse("response has no content array"@)),
            Some(blocks) => collect_blocks(blocks),
        }
    }
}

pub open spec fn outcome_result_view(r: Result<ModelOutcome, AgentError>) -> Result<
    ModelOutcomeView,
    AgentErrorView,
> {
    match r {
        Ok(o) => Ok(o@),
        Err(e) => Err(e@),
    }
}

fn missing_field_error(name: &str) -> (e: AgentError)
    ensures
        e@ == missing_field(name@),
{
    let mut text = String::new();
    text.push_str("tool input missing `");
    text.push_str(name);
    text.push_str("`");
    AgentError::MalformedResponse(text)
}

fn opt_str_is(o: &Option<String>, expected: &str) -> (b: bool)
    ensures
        b == (opt_str_view(*o) == Some(expected@)),
{
    match o {
        Some(s) => crate::text::str_eq(s.as_str(), expected),
        None => false,
    }
}

/// Applies one content block to the outcome collected so far.
fn apply_content_block(acc: ModelOutcome, b: &ContentBlock) -> (r: Result<ModelOutcome, AgentError>)
    ensures
        outcome_result_view(r) == apply_block(acc@, b@),
{
    if !opt_str_is(&b.block_type, "tool_use") {
        return Ok(acc);
    }
    if opt_str_is(&b.name, "propose_suggestion") {
        let v = match b.value {
            Some(v) => v,
            None => {
                return Err(missing_field_error("value"));
            },
        };
        let cue = match &b.cue {
            Some(c) => c.clone(),
            None => {
                return Err(missing_field_error("cue"));
            },
        };
        let hint = match &b.hint {
            Some(h) => h.clone(),
            None => {
                return Err(missing_field_error("hint"));
            },
        };
        let detail = match &b.detail {
            Some(d) => d.clone(),
            None => {
                return Err(missing_field_error("detail"));
            },
        };
        let value: u8 = if v < 1 {
            1
        } else if v > 10 {
            10
        } else {
            v as u8
        };
        Ok(
            ModelOutcome {
                suggestion: Some(ModelSuggestion { cue, hint, detail, value }),
                updated_notes: acc.updated_notes,
            },
        )
    } else if opt_str_is(&b.name, "update_notes") {
        match &b.notes {
            Some(n) => Ok(ModelOutcome { suggestion: acc.suggestion, updated_notes: Some(n.clone()) }),
            None => Err(missing_field_error("notes")),
        }
    } else {
        Ok(acc)
    }
}

proof fn lemma_collect_error_persists(bs: Seq<ContentBlockView>, k: int)
    requires
        0 <= k <= bs.len(),
        collect_blocks(bs.take(k)) is Err,
    ensures
        collect_blocks(bs) == collect_blocks(bs.take(k)),
    decreases bs.len() - k,
{
    if k < bs.len() {
        assert(bs.take(k + 1).drop_last() =~= bs.take(k));
        lemma_collect_error_persists(bs, k + 1);
    } else {
        assert(bs.take(k) =~= bs);
    }
}

/// Interprets a Messages API reply as a model outcome.
pub fn interpret_reply(reply: &ApiReply) -> (r: Result<ModelOutcome, AgentError>)
    ensures
        outcome_result_view(r) == reply_outcome(
            reply.status_ok,
            reply.status@,
            opt_str_view(reply.error_message),
            match reply.content {
                Some(v) => Some(v@.map_values(|b: ContentBlock| b@)),
                None => None,
            },
        ),
{
    if !reply.status_ok {
        let mut text = reply.status.clone();
        text.push_str(": ");
        match &reply.error_message {
            Some(m) => text.push_str(m.as_str()),
            None => text.push_str("unknown error"),
        }
        return Err(AgentError::Api(text));
    }
    let blocks = match &reply.content {
        Some(v) => v,
        None => {
            return Err(AgentError::MalformedResponse("response has no content array".to_owned()));
        },
    };
    let ghost bv = blocks@.map_values(|b: ContentBlock| b@);
    let mut outcome = ModelOutcome::default();
    let mut i: usize = 0;
    while i < blocks.len()
        invariant
            i <= blocks@.len(),
            bv == blocks@.map_values(|b: ContentBlock| b@),
            reply.status_ok,
            reply.content == Some(*blocks),
            collect_blocks(bv.take(i as int)) == Ok::<ModelOutcomeView, AgentErrorView>(outcome@),
        decreases blocks@.len() - i,
    {
        proof {
            assert(bv.take(i + 1).drop_last() =~= bv.take(i as int));
            assert(bv.take(i + 1).last() == blocks@[i as int]@);
        }
        match apply_content_block(outcome, &blocks[i]) {
            Ok(o) => {
                outcome = o;
            },
            Err(e) => {
                proof {
                    assert(collect_blocks(bv.take(i + 1)) == Err::<
                        ModelOutcomeView,
                        AgentErrorView,
                    >(e@));
                    lemma_collect_error_persists(bv, i + 1);
                }
                return Err(e);
            },
        }
        i = i + 1;
    }
    proof {
        assert(bv.take(blocks@.len() as int) =~= bv);
    }
    Ok(outcome)
}

// ---------------------------------------------------------------------------
// The agent loop's decisions
// ---------------------------------------------------------------------------

/// How many prior hints are remembered, shown to the model and checked for
/// near duplicates.
pub const RECENT_HINT_MEMORY: usize = 8;

/// What to ask the model: the rendered context, the running notes and the
/// hints shown recently.
pub struct ModelRequest {
    pub transcript: String,
    pub notes: String,
    pub recent_hints: Vec<String>,
}

/// What became of one model reply.
#[derive(Debug, Clone, PartialEq, Eq)]
pub enum Verdict {
    /// The proposal cleared the threshold and was new: publish it.
    Published(Suggestion),
    /// The proposal cleared the threshold but rewords a recent hint.
    SuppressedRepeat(ModelSuggestion),
    /// The proposal scored below the mode's threshold.
    BelowThreshold(ModelSuggestion),
    /// The model proposed nothing.
    Passed,
    /// The model call failed.
    ModelFailed(AgentError),
}

pub enum VerdictView {
    Published(SuggestionView),
    SuppressedRepeat(ModelSuggestionView),
    BelowThreshold(ModelSuggestionView),
    Passed,
    ModelFailed(AgentErrorView),
}

impl View for Verdict {
    type V = VerdictView;

    open spec fn view(&self) -> VerdictView {
        match self {
            Verdict::Published(s) => VerdictView::Published(s@),
            Verdict::SuppressedRepeat(p) => VerdictView::SuppressedRepeat(p@),
            Verdict::BelowThreshold(p) => VerdictView::BelowThreshold(p@),
            Verdict::Passed => VerdictView::Passed,
            Verdict::ModelFailed(e) => VerdictView::ModelFailed(e@),
        }
    }
}

/// Whether some remembered hint is a near duplicate of `hint`.
pub open spec fn repeats_recent(hints: Seq<Seq<char>>, hint: Seq<char>) -> bool {
    exists|i: int| 0 <= i < hints.len() && near_duplicate(#[trigger] hints[i], hint)
}

/// The remembered hints after showing `hint`: appended, oldest forgotten
/// beyond the memory size.
pub open spec fn remember(hints: Seq<Seq<char>>, hint: Seq<char>) -> Seq<Seq<char>> {
    if hints.len() + 1 > RECENT_HINT_MEMORY {
        hints.push(hint).drop_first()
    } else {
        hints.push(hint)
    }
}

/// The id of the `n`-th published suggestion.
pub open spec fn suggestion_id(n: nat) -> Seq<char> {
    "cue-"@ + decimal(n)
}

/// Suggestions published under different counts get different ids.
pub proof fn suggestion_ids_are_distinct(n: nat, m: nat)
    requires
        n != m,
    ensures
        suggestion_id(n) != suggestion_id(m),
{
    let p = "cue-"@;
    if suggestion_id(n) == suggestion_id(m) {
        assert((p + decimal(n)).subrange(p.len() as int, (p + decimal(n)).len() as int) =~= decimal(n));
        assert((p + decimal(m)).subrange(p.len() as int, (p + decimal(m)).len() as int) =~= decimal(m));
        decimal_is_injective(n, m);
    }
}

/// The notes after a reply: replaced when the model sent new ones.
pub open spec fn notes_after(notes: Seq<char>, reply: Result<ModelOutcomeView, AgentErrorView>) -> Seq<
    char,
> {
    match reply {
        Ok(o) => match o.updated_notes {
            Some(n) => n,
            None => notes,
        },
        Err(_) => notes,
    }
}

/// The verdict on a reply, and the remembered hints and published count
/// after it.
pub open spec fn judge(
    hints: Seq<Seq<char>>,
    published: nat,
    min_value: u8,
    source: SourceKind,
    reply: Result<ModelOutcomeView, AgentErrorView>,
) -> (VerdictView, Seq<Seq<char>>, nat) {
    match reply {
        Err(e) => (VerdictView::ModelFailed(e), hints, published),
        Ok(o) => match o.suggestion {
            None => (VerdictView::Passed, hints, published),
            Some(p) => if p.value >= min_value && repeats_recent(hints, p.hint) {
                (VerdictView::SuppressedRepeat(p), hints, published)
            } else if p.value >= min_value {
                (
                    VerdictView::Published(
                        SuggestionView {
                            id: suggestion_id(published + 1),
                            source,
                            cue: p.cue,
                            hint: p.hint,
                            detail: p.detail,
                        },
                    ),
                    remember(hints, p.hint),
                    published + 1,
                )
            } else {
                (VerdictView::BelowThreshold(p), hints, published)
            },
        },
    }
}

/// A proposal that clears the threshold is suppressed exactly when it
/// rewords some remembered hint, whichever of them it is (not only the most
/// recent); suppression changes neither the hints nor the count. One that
/// rewords none of them is published under the next id, and its hint is
/// remembered after the others.
pub proof fn repeats_of_any_remembered_hint_are_suppressed(
    hints: Seq<Seq<char>>,
    published: nat,
    min_value: u8,
    source: SourceKind,
    o: ModelOutcomeView,
)
    requires
        o.suggestion matches Some(p) && p.value >= min_value,
    ensures
        ({
            let p = o.suggestion->0;
            let (v, h, n) = judge(hints, published, min_value, source, Ok(o));
            &&& (exists|i: int| 0 <= i < hints.len() && near_duplicate(#[trigger] hints[i], p.hint))
                ==> (v == VerdictView::SuppressedRepeat(p) && h == hints && n == published)
            &&& (forall|i: int| 0 <= i < hints.len() ==> !near_duplicate(#[trigger] hints[i], p.hint))
                ==> (v matches VerdictView::Published(s) && s.hint == p.hint && s.id == suggestion_id(
                published + 1) && n == published + 1 && h.last() == p.hint)
        }),
{
    let p = o.suggestion->0;
    if exists|i: int| 0 <= i < hints.len() && near_duplicate(#[trigger] hints[i], p.hint) {
        let i = choose|i: int| 0 <= i < hints.len() && near_duplicate(#[trigger] hints[i], p.hint);
        assert(near_duplicate(hints[i], p.hint));
    }
    if hints.len() + 1 > RECENT_HINT_MEMORY {
        assert(hints.push(p.hint).drop_first().last() == p.hint);
    }
}

/// One segment taken at clock reading `now_ms`. A segment that echoes a
/// recent segment of the other source changes nothing and asks nothing.
/// Otherwise the segment joins the context (trimmed to its budget) and its
/// words count toward the word gate;
/// when both gates are open the call is recorded at `now_ms` and the request
/// carries the rendered context, the notes and the remembered hints;
/// otherwise nothing is asked. Notes, hints, the published count, the
/// threshold and the trigger configuration are untouched.
pub open spec fn takes_segment(
    before: CueAgent,
    after: CueAgent,
    source: SourceKind,
    text: Seq<char>,
    now_ms: u64,
    req: Option<ModelRequest>,
) -> bool {
    let words = before.context().words_since_fire() + word_count(text);
    let fire = gates_open(before.context().config(), words, before.context().last_fired_at(), now_ms);
    let echo = is_echo(before.context().entries(), source, text);
    &&& after.notes() == before.notes()
    &&& after.recent_hints() == before.recent_hints()
    &&& after.published() == before.published()
    &&& after.min_suggestion_value() == before.min_suggestion_value()
    &&& after.context().config() == before.context().config()
    &&& echo ==> {
        &&& after.context().entries() == before.context().entries()
        &&& after.context().words_since_fire() == before.context().words_since_fire()
        &&& after.context().last_fired_at() == before.context().last_fired_at()
        &&& req is None
    }
    &&& !echo ==> after.context().entries() == trim_to_budget(
        before.context().entries().push((source, text)),
        before.context().config().context_char_budget as nat,
    )
    &&& !echo && fire ==> {
        &&& after.context().last_fired_at() == Some(now_ms)
        &&& after.context().words_since_fire() == 0
        &&& req matches Some(r) && r.transcript@ == render_entries(after.context().entries())
            && r.notes@ == before.notes() && r.recent_hints@.map_values(|h: String| h@)
            == before.recent_hints()
    }
    &&& !echo && !fire ==> {
        &&& after.context().last_fired_at() == before.context().last_fired_at()
        &&& after.context().words_since_fire() == words
        &&& req is None
    }
}

/// The verdicts on a run of replies, each for a segment from the paired
/// source, handed to the agent in order; and the remembered hints and
/// published count after them.
pub open spec fn judge_run(
    hints: Seq<Seq<char>>,
    published: nat,
    min_value: u8,
    replies: Seq<(SourceKind, Result<ModelOutcomeView, AgentErrorView>)>,
) -> (Seq<VerdictView>, Seq<Seq<char>>, nat)
    decreases replies.len(),
{
    if replies.len() == 0 {
        (Seq::empty(), hints, published)
    } else {
        let (vs, h, p) = judge_run(hints, published, min_value, replies.drop_last());
        let (v, h2, p2) = judge(h, p, min_value, replies.last().0, replies.last().1);
        (vs.push(v), h2, p2)
    }
}

/// How many of `vs` publish a suggestion.
pub open spec fn published_count(vs: Seq<VerdictView>) -> nat
    decreases vs.len(),
{
    if vs.len() == 0 {
        0
    } else {
        published_count(vs.drop_last()) + if vs.last() is Published {
            1nat
        } else {
            0nat
        }
    }
}

/// The hints of the suggestions `vs` publish, in order.
pub open spec fn published_hints(vs: Seq<VerdictView>) -> Seq<Seq<char>>
    decreases vs.len(),
{
    if vs.len() == 0 {
        Seq::empty()
    } else {
        match vs.last() {
            VerdictView::Published(s) => published_hints(vs.drop_last()).push(s.hint),
            _ => published_hints(vs.drop_last()),
        }
    }
}

/// The last `n` elements of `s` (all of them when it is shorter).
pub open spec fn last_n<A>(s: Seq<A>, n: nat) -> Seq<A> {
    if s.len() > n {
        s.subrange(s.len() - n, s.len() as int)
    } else {
        s
    }
}

proof fn lemma_remember_keeps_last(a: Seq<Seq<char>>, x: Seq<char>)
    ensures
        remember(last_n(a, RECENT_HINT_MEMORY as nat), x) == last_n(a.push(x), RECENT_HINT_MEMORY as nat),
{
    let n = RECENT_HINT_MEMORY as int;
    if a.len() >= n {
        let b = a.subrange(a.len() - n, a.len() as int);
        assert(b.push(x).drop_first() =~= a.push(x).subrange(a.len() + 1 - n, a.len() + 1 as int));
    }
}

/// Over any run of model replies, the agent publishes in order: the
/// published count grows by one per published suggestion; the i-th reply,
/// when published, carries the id `cue-N` where N counts every suggestion
/// published so far including it, and the source of the segment that
/// triggered it; a failed model call publishes nothing; and the hints
/// remembered afterwards are the last eight of those remembered before
/// followed by every published hint.
pub proof fn agent_publishes_in_order(
    hints: Seq<Seq<char>>,
    published: nat,
    min_value: u8,
    replies: Seq<(SourceKind, Result<ModelOutcomeView, AgentErrorView>)>,
)
    requires
        hints.len() <= RECENT_HINT_MEMORY,
    ensures
        ({
            let (vs, h, p) = judge_run(hints, published, min_value, replies);
            &&& vs.len() == replies.len()
            &&& p == published + published_count(vs)
            &&& h == last_n(hints + published_hints(vs), RECENT_HINT_MEMORY as nat)
            &&& forall|i: int|
                0 <= i < vs.len() ==> (#[trigger] vs[i] matches VerdictView::Published(s) ==> s.id
                    == suggestion_id(published + published_count(vs.take(i + 1))) && s.source
                    == replies[i].0)
            &&& forall|i: int| 0 <= i < vs.len() ==> (replies[i].1 is Err ==> #[trigger] vs[i] is ModelFailed)
        }),
    decreases replies.len(),
{
    if replies.len() == 0 {
        assert(hints + Seq::<Seq<char>>::empty() =~= hints);
    } else {
        let r = replies.drop_last();
        agent_publishes_in_order(hints, published, min_value, r);
        let (vs0, h0, p0) = judge_run(hints, published, min_value, r);
        let (v, h2, p2) = judge(h0, p0, min_value, replies.last().0, replies.last().1);
        let vs = vs0.push(v);
        assert(vs.drop_last() =~= vs0);
        lemma_remember_keeps_last(hints + published_hints(vs0), replies.last().1->Ok_0.suggestion->Some_0.hint);
        if v is Published {
            assert(hints + published_hints(vs) =~= (hints + published_hints(vs0)).push(
                replies.last().1->Ok_0.suggestion->Some_0.hint,
            ));
        } else {
            assert(published_hints(vs) == published_hints(vs0));
        }
        assert forall|i: int| 0 <= i < vs.len() implies (#[trigger] vs[i] matches VerdictView::Published(s)
            ==> s.id == suggestion_id(published + published_count(vs.take(i + 1))) && s.source
            == replies[i].0) by {
            if i < vs0.len() {
                assert(vs.take(i + 1) =~= vs0.take(i + 1));
                assert(vs[i] == vs0[i]);
                assert(replies[i] == r[i]);
            } else {
                assert(vs.take(i + 1) =~= vs);
            }
        }
        assert forall|i: int| 0 <= i < vs.len() implies (replies[i].1 is Err ==> #[trigger] vs[i] is ModelFailed) by {
            if i < vs0.len() {
                assert(vs[i] == vs0[i]);
                assert(replies[i] == r[i]);
            }
        }
    }
}

/// The agent's state between segments: the rolling context and its trigger
/// gates, the running notes, the hints shown recently and how many
/// suggestions have been published.
pub struct CueAgent {
    context: RollingTranscript,
    notes: String,
    recent_hints: Vec<String>,
    published: u64,
    min_suggestion_value: u8,
}

impl CueAgent {
    pub closed spec fn context(&self) -> RollingTranscript {
        self.context
    }

    pub closed spec fn notes(&self) -> Seq<char> {
        self.notes@
    }

    pub closed spec fn recent_hints(&self) -> Seq<Seq<char>> {
        self.recent_hints@.map_values(|h: String| h@)
    }

    pub closed spec fn published(&self) -> nat {
        self.published as nat
    }

    pub closed spec fn min_suggestion_value(&self) -> u8 {
        self.min_suggestion_value
    }

    pub closed spec fn well_formed(&self) -> bool {
        &&& self.context.well_formed()
        &&& self.recent_hints@.len() <= RECENT_HINT_MEMORY
    }

    pub fn new(config: TriggerConfig, min_suggestion_value: u8) -> (a: CueAgent)
        ensures
            a.well_formed(),
            a.context().config() == config,
            a.context().entries() == Seq::<EntryView>::empty(),
            a.context().last_fired_at() == None::<u64>,
            a.context().words_since_fire() == 0,
            a.notes() == Seq::<char>::empty(),
            a.recent_hints() == Seq::<Seq<char>>::empty(),
            a.published() == 0,
            a.min_suggestion_value() == min_suggestion_value,
    {
        let a = CueAgent {
            context: RollingTranscript::new(config),
            notes: String::new(),
            recent_hints: Vec::new(),
            published: 0,
            min_suggestion_value,
        };
        proof {
            assert(a.recent_hints() =~= Seq::<Seq<char>>::empty());
        }
        a
    }

    /// Whether a segment of `text` can be taken without a counter overflowing.
    pub fn has_room_for(&self, text: &str) -> (ok: bool)
        requires
            self.well_formed(),
        ensures
            ok == (self.context().words_since_fire() + word_count(text@) <= usize::MAX
                && entries_bytes(self.context().entries()) + byte_len(text@) <= usize::MAX),
    {
        self.context.has_room_for(text)
    }

    /// How many suggestions have been published so far.
    pub fn published_count(&self) -> (n: u64)
        ensures
            n == self.published(),
    {
        self.published
    }

    fn request(&self) -> (req: ModelRequest)
        ensures
            req.transcript@ == render_entries(self.context().entries()),
            req.notes@ == self.notes(),
            req.recent_hints@.map_values(|h: String| h@) == self.recent_hints(),
    {
        ModelRequest {
            transcript: self.context.render(),
            notes: self.notes.clone(),
            recent_hints: self.recent_hints.clone(),
        }
    }

    /// Takes one transcript segment at clock reading `now_ms`. When both
    /// trigger gates are open the call is recorded and the request to send
    /// to the model comes back; otherwise nothing is asked.
    pub fn on_segment_at(&mut self, source: SourceKind, text: &str, now_ms: u64) -> (req: Option<
        ModelRequest,
    >)
        requires
            old(self).well_formed(),
            old(self).context().words_since_fire() + word_count(text@) <= usize::MAX,
            entries_bytes(old(self).context().entries()) + byte_len(text@) <= usize::MAX,
        ensures
            final(self).well_formed(),
            takes_segment(*old(self), *final(self), source, text@, now_ms, req),
    {
        if self.context.is_echo(source, text) {
            return None;
        }
        self.context.push(source, text);
        if !self.context.should_fire_at(now_ms) {
            return None;
        }
        self.context.mark_fired_at(now_ms);
        Some(self.request())
    }

    /// Takes one transcript segment now, reading the context's clock once:
    /// exactly what `on_segment_at` does at that reading. An echo of the
    /// other stream changes nothing; otherwise, before the first call the
    /// cooldown does not apply, so enough new words always fire.
    pub fn on_segment(&mut self, source: SourceKind, text: &str) -> (req: Option<ModelRequest>)
        requires
            old(self).well_formed(),
            old(self).context().words_since_fire() + word_count(text@) <= usize::MAX,
            entries_bytes(old(self).context().entries()) + byte_len(text@) <= usize::MAX,
        ensures
            final(self).well_formed(),
            exists|now_ms: u64| #[trigger]
                takes_segment(*old(self), *final(self), source, text@, now_ms, req),
            is_echo(old(self).context().entries(), source, text@) ==> {
                &&& req is None
                &&& final(self).context().entries() == old(self).context().entries()
                &&& final(self).context().words_since_fire() == old(self).context().words_since_fire()
                &&& final(self).context().last_fired_at() == old(self).context().last_fired_at()
            },
            ({
                &&& !is_echo(old(self).context().entries(), source, text@)
                &&& old(self).context().last_fired_at() is None
                &&& old(self).context().words_since_fire() + word_count(text@)
                    >= old(self).context().config().min_new_words
            }) ==> req is Some,
            req is None && !is_echo(old(self).context().entries(), source, text@) ==> {
                &&& final(self).context().words_since_fire() == old(self).context().words_since_fire()
                    + word_count(text@)
                &&& final(self).context().last_fired_at() == old(self).context().last_fired_at()
            },
            req is Some ==> {
                &&& final(self).context().last_fired_at() is Some
                &&& final(self).context().words_since_fire() == 0
            },
            req matches Some(r) ==> r.transcript@ == render_entries(final(self).context().entries())
                && r.notes@ == old(self).notes() && r.recent_hints@.map_values(|h: String| h@)
                == old(self).recent_hints(),
    {
        let now_ms = self.context.clock_ms();
        let req = self.on_segment_at(source, text, now_ms);
        proof {
            assert(takes_segment(*old(self), *self, source, text@, now_ms, req));
        }
        req
    }

    /// Whether some remembered hint is a near duplicate of `hint`.
    fn repeats_recent_hint(&self, hint: &str) -> (r: bool)
        ensures
            r == repeats_recent(self.recent_hints(), hint@),
    {
        let ghost hv = self.recent_hints();
        let mut i: usize = 0;
        while i < self.recent_hints.len()
            invariant
                i <= self.recent_hints@.len(),
                hv == self.recent_hints(),
                forall|k: int| 0 <= k < i ==> !near_duplicate(#[trigger] hv[k], hint@),
            decreases self.recent_hints@.len() - i,
        {
            if is_near_duplicate(self.recent_hints[i].as_str(), hint) {
                proof {
                    assert(hv[i as int] == self.recent_hints@[i as int]@);
                    assert(near_duplicate(hv[i as int], hint@));
                }
                return true;
            }
            i = i + 1;
        }
        false
    }

    /// Takes the model's reply to the last request for a segment from
    /// `source`: adopts new notes, and publishes the proposal only if it
    /// clears the threshold and is not a reworded recent hint.
    pub fn on_model_reply(&mut self, source: SourceKind, reply: Result<ModelOutcome, AgentError>) -> (v: Verdict)
        requires
            old(self).well_formed(),
            old(self).published() < u64::MAX,
        ensures
            final(self).well_formed(),
            final(self).context() == old(self).context(),
            final(self).min_suggestion_value() == old(self).min_suggestion_value(),
            final(self).notes() == notes_after(old(self).notes(), outcome_result_view(reply)),
            judge(
                old(self).recent_hints(),
                old(self).published(),
                old(self).min_suggestion_value(),
                source,
                outcome_result_view(reply),
            ) == (v@, final(self).recent_hints(), final(self).published()),
    {
        let outcome = match reply {
            Ok(o) => o,
            Err(e) => {
                return Verdict::ModelFailed(e);
            },
        };
        if let Some(updated) = outcome.updated_notes {
            self.notes = updated;
        }
        let proposal = match outcome.suggestion {
            Some(p) => p,
            None => {
                return Verdict::Passed;
            },
        };
        if proposal.value < self.min_suggestion_value {
            return Verdict::BelowThreshold(proposal);
        }
        if self.repeats_recent_hint(proposal.hint.as_str()) {
            return Verdict::SuppressedRepeat(proposal);
        }
        let ghost old_hints = self.recent_hints();
        self.recent_hints.push(proposal.hint.clone());
        proof {
            assert(self.recent_hints() =~= old_hints.push(proposal.hint@));
        }
        if self.recent_hints.len() > RECENT_HINT_MEMORY {
            self.recent_hints.remove(0);
            proof {
                assert(self.recent_hints() =~= old_hints.push(proposal.hint@).drop_first());
            }
        }
        self.published = self.published + 1;
        let mut id = String::new();
        id.push_str("cue-");
        push_decimal(&mut id, self.published);
        Verdict::Published(
            Suggestion {
                id,
                source,
                cue: proposal.cue,
                hint: proposal.hint,
                detail: proposal.detail,
            },
        )
    }
}

} // verus!
