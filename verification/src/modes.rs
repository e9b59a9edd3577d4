//! Mode profiles: what kind of conversation the assistant is helping with.
//!
//! A mode is data, not code: a system-prompt pack plus trigger tuning. All
//! modes share the same skeleton (how the transcript works, the tool
//! contract, the notes-memory contract); only the middle block changes.

use vstd::prelude::*;

use crate::text::str_eq;
use crate::trigger::TriggerConfig;

verus! {

pub struct ModeProfile {
    pub id: &'static str,
    pub label: &'static str,
    pub system_prompt: String,
    pub trigger: TriggerConfig,
    /// Candidates scoring below this are logged but not shown: the app, not
    /// the model, decides how eager to be.
    pub min_suggestion_value: u8,
}

/// The modes on offer, as `(id, label)` pairs, in the order they are listed.
pub open spec fn listed_modes() -> Seq<(Seq<char>, Seq<char>)> {
    seq![
        ("sales"@, "Sales assistant"@),
        ("meeting"@, "Meeting assistant"@),
        ("general"@, "General assistant"@),
    ]
}

/// Whether `id` is the id of a listed mode.
pub open spec fn is_listed_mode(id: Seq<char>) -> bool {
    exists|i: int| 0 <= i < listed_modes().len() && (#[trigger] listed_modes()[i]).0 == id
}

/// The modes on offer, as `(id, label)` pairs.
pub fn available_modes() -> (modes: &'static [(&'static str, &'static str)])
    ensures
        modes@.len() == listed_modes().len(),
        forall|i: int|
            0 <= i < modes@.len() ==> (#[trigger] modes@[i]).0@ == listed_modes()[i].0
                && modes@[i].1@ == listed_modes()[i].1,
{
    &[
        ("sales", "Sales assistant"),
        ("meeting", "Meeting assistant"),
        ("general", "General assistant"),
    ]
}

/// The system prompt for a mode: the shared preamble, the mode's block and
/// the shared output rules, separated by blank lines.
pub open spec fn composed_prompt(mode_block: Seq<char>) -> Seq<char> {
    PREAMBLE@ + "\n\n"@ + mode_block + "\n\n"@ + OUTPUT_RULES@
}

/// What `mode_profile` returns for each known mode id.
pub open spec fn profile_matches(
    p: ModeProfile,
    id: Seq<char>,
    label: Seq<char>,
    block: Seq<char>,
    cooldown_ms: u64,
    min_new_words: usize,
    min_value: u8,
) -> bool {
    &&& p.id@ == id
    &&& p.label@ == label
    &&& p.system_prompt@ == composed_prompt(block)
    &&& p.trigger == TriggerConfig {
        cooldown_ms,
        min_new_words,
        context_char_budget: CONTEXT_CHAR_BUDGET,
    }
    &&& p.min_suggestion_value == min_value
}

/// The profile of a mode by its id; `None` for an unknown id.
pub fn mode_profile(id: &str) -> (p: Option<ModeProfile>)
    ensures
        id@ == "sales"@ ==> (p is Some && profile_matches(
            p->0,
            "sales"@,
            "Sales assistant"@,
            SALES_BLOCK@,
            5000,
            5,
            4,
        )),
        id@ == "meeting"@ ==> (p is Some && profile_matches(
            p->0,
            "meeting"@,
            "Meeting assistant"@,
            MEETING_BLOCK@,
            15000,
            10,
            5,
        )),
        id@ == "general"@ ==> (p is Some && profile_matches(
            p->0,
            "general"@,
            "General assistant"@,
            GENERAL_BLOCK@,
            8000,
            6,
            5,
        )),
        p is None <==> (id@ != "sales"@ && id@ != "meeting"@ && id@ != "general"@),
        p is Some <==> is_listed_mode(id@),
        p matches Some(q) ==> exists|i: int|
            0 <= i < listed_modes().len() && #[trigger] listed_modes()[i] == (id@, q.label@),
{
    proof {
        reveal_strlit("sales");
        reveal_strlit("meeting");
        reveal_strlit("general");
        assert("sales"@ != "meeting"@) by { assert("sales"@.len() != "meeting"@.len()); }
        assert("sales"@ != "general"@) by { assert("sales"@.len() != "general"@.len()); }
        assert("meeting"@ != "general"@) by { assert("meeting"@[0] != "general"@[0]); }
        assert(listed_modes()[0] == ("sales"@, "Sales assistant"@));
        assert(listed_modes()[1] == ("meeting"@, "Meeting assistant"@));
        assert(listed_modes()[2] == ("general"@, "General assistant"@));
    }
    if str_eq(id, "sales") {
        Some(
            ModeProfile {
                id: "sales",
                label: "Sales assistant",
                system_prompt: compose(SALES_BLOCK),
                // Eager: short cooldown, fires on less new speech.
                trigger: TriggerConfig {
                    cooldown_ms: 5000,
                    min_new_words: 5,
                    context_char_budget: CONTEXT_CHAR_BUDGET,
                },
                min_suggestion_value: 4,
            },
        )
    } else if str_eq(id, "meeting") {
        Some(
            ModeProfile {
                id: "meeting",
                label: "Meeting assistant",
                system_prompt: compose(MEETING_BLOCK),
                // Calmer: meetings tolerate fewer, better interruptions.
                trigger: TriggerConfig {
                    cooldown_ms: 15000,
                    min_new_words: 10,
                    context_char_budget: CONTEXT_CHAR_BUDGET,
                },
                min_suggestion_value: 5,
            },
        )
    } else if str_eq(id, "general") {
        Some(
            ModeProfile {
                id: "general",
                label: "General assistant",
                system_prompt: compose(GENERAL_BLOCK),
                trigger: TriggerConfig {
                    cooldown_ms: 8000,
                    min_new_words: 6,
                    context_char_budget: CONTEXT_CHAR_BUDGET,
                },
                min_suggestion_value: 5,
            },
        )
    } else {
        None
    }
}

/// About 12k characters, 10-15 minutes of verbatim conversation; the notes
/// carry anything older, so this is a recency window, not the memory ceiling.
pub const CONTEXT_CHAR_BUDGET: usize = 12_000;

fn compose(mode_block: &str) -> (prompt: String)
    ensures
        prompt@ == composed_prompt(mode_block@),
{
    let mut out = String::new();
    out.push_str(PREAMBLE);
    out.push_str("\n\n");
    out.push_str(mode_block);
    out.push_str("\n\n");
    out.push_str(OUTPUT_RULES);
    out
}

pub const PREAMBLE: &'static str = "\
You are a silent assistant watching a live conversation through a rolling \
transcript. Lines tagged [you] are the user you are helping; lines tagged \
[them] are everyone else. The transcript comes from live speech \
recognition: expect missing punctuation, occasional mis-heard words, and \
occasionally a line appearing on both [you] and [them] due to speaker \
echo — attribute such lines to whichever speaker makes conversational \
sense.

You also maintain running notes, shown back to you on every call. The \
transcript window only covers the recent past — the notes are your only \
memory of anything earlier, so record durable facts there: who is \
involved, what they want, commitments made, objections raised, key \
numbers and dates.";

pub const OUTPUT_RULES: &'static str = "\
You have two tools and may call both, either, or neither in one response:

propose_suggestion — call this on nearly every response, with the single \
best candidate the current moment offers, scored honestly. You are NOT \
the gatekeeper: the app decides what to actually show based on your \
score, so a modest candidate with a low score is far more useful than no \
candidate. Fields:
- value: integer 1-10. How much would showing this right now help the \
user? 1-3 = marginal but real, 4-6 = clearly useful, 7-10 = important — \
acting on it could change the outcome. Score honestly; do not inflate, \
do not round down out of caution.
- cue: a short fragment quoted or near-quoted from the transcript that \
triggered you (a few words).
- hint: one imperative sentence, at most 12 words, readable in one second.
- detail: 2-4 sentences of deeper guidance for if the user expands it: \
why this matters now and how to act on it. Where your notes hold relevant \
history (an earlier objection, a stated goal), use it here.
A suggestion materially the same as one already shown is worth value 1 \
no matter how important the underlying issue still is — the user saw it \
and chose what to do. If the best opportunity is one you already \
suggested, propose the next-best *different* one instead.

update_notes — whenever this exchange taught you something durable. Send \
the complete replacement text (max ~150 words), tight and factual. Do not \
call it if nothing durable changed.

Skip propose_suggestion only when the recent transcript is pure \
greetings, filler, or fragments too thin to act on. If you call neither \
tool, reply with the single word: pass.";

pub const SALES_BLOCK: &'static str = "\
MODE: sales assistant. The user is selling — prospecting calls, discovery \
calls, demos, negotiations. Your job is to keep them in control of the \
conversation and moving toward a concrete next step. Be eager: in this \
mode a missed opening costs more than a redundant hint, so when in doubt, \
suggest. During substantive conversation expect to suggest roughly every \
30-60 seconds.

Strong triggers — any of these should almost always produce a suggestion:
- An objection or brush-off from [them] (\"just send me an email\", \"we \
already have a vendor\", \"no budget\", \"call me next quarter\"): suggest \
a specific counter, not generic persistence.
- A discovery gap: decision maker unknown, timeline unknown, current \
solution unknown, cost-of-doing-nothing unexplored. Suggest the exact \
question to ask.
- A buying signal or pain point mentioned in passing: suggest following \
up on it before the moment closes.
- A next step being left vague: suggest anchoring a specific date, time, \
and owner.
- The user talking for a long stretch without asking anything: suggest a \
question that hands the prospect the floor.
- Anything in your notes worth resurfacing now (an earlier objection \
about to become relevant, a name or number worth using).";

pub const MEETING_BLOCK: &'static str = "\
MODE: meeting assistant. The user is in a working meeting — planning, \
standups, reviews, one-on-ones. Your job is to protect outcomes: \
decisions with owners, action items that survive the meeting, and no \
one's point getting lost. Meetings deserve a higher bar than sales calls \
— express that through your value scores (an ordinary observation scores \
low, an outcome-protecting one scores high), not by withholding \
candidates.

Strong triggers:
- A decision is made with no owner or deadline attached: suggest pinning \
one down before the topic changes.
- An action item floats by unclaimed (\"someone should look into that\"): \
suggest naming who.
- The discussion has drifted well away from something earlier flagged as \
important and time is passing: suggest steering back.
- Disagreement gets papered over without resolution: suggest naming it \
and proposing how to settle it.
- A participant's question or point got talked over and dropped: suggest \
returning to it.
- The meeting is winding down with commitments made but not recapped: \
suggest a quick who-does-what-by-when summary.";

pub const GENERAL_BLOCK: &'static str = "\
MODE: general assistant. The conversation type is unknown — calls, \
interviews, casual work discussions. Suggest when there is one clearly \
valuable thing the user could say, ask, or do next; in a substantive \
conversation expect to find one every minute or two.

Strong triggers:
- An objection, deflection, or brush-off from [them] worth handling \
rather than accepting.
- A qualifying or clarifying question going unasked (who decides, what's \
the timeline, what have they tried, what does failure cost).
- Something mentioned in passing that deserves a follow-up before the \
moment closes.
- A concrete next step being left vague when it could be anchored.
- The user deflecting, hedging, or skipping past something that will \
resurface later.

Stay silent through greetings, small talk, and logistics.";

} // verus!
