//! Stand-in suggestions for the overlay while no agent is connected: a
//! fixed pool of canned cards served round-robin, on the same event the
//! real agent uses.

use vstd::prelude::*;

use crate::text::{decimal, decimal_is_injective, push_decimal};

verus! {

/// Number of canned suggestions in the pool.
pub const MOCK_POOL_LEN: usize = 5;

/// A canned suggestion: who the cue came from (`"you"` or `"them"`), the
/// cue, the hint and the detail.
pub struct MockSuggestion {
    pub id: String,
    pub source: &'static str,
    pub cue: &'static str,
    pub hint: &'static str,
    pub detail: &'static str,
}

/// Entry `i` of the pool, for `i` below `MOCK_POOL_LEN`.
pub open spec fn mock_pool(i: int) -> (Seq<char>, Seq<char>, Seq<char>, Seq<char>) {
    if i == 0 {
        ("them"@, "budget approval"@, "Ask who signs off on this purchase."@, "They mentioned budget approval without naming an owner — that's usually a soft stall. Naming the approver now surfaces blockers before they cost you the next two weeks."@)
    } else if i == 1 {
        ("them"@, "we tried something similar before"@, "Dig into why the last attempt failed."@, "A past failure is your best qualification tool. Ask what specifically didn't work and who felt the pain — then position against that, not a generic competitor."@)
    } else if i == 2 {
        ("you"@, "let me jump ahead"@, "Go back — slide 4 raised a question."@, "You moved past the pricing slide while they were still reading it. Return to it and ask what caught their eye — unasked questions become objections later."@)
    } else if i == 3 {
        ("them"@, "timeline"@, "Anchor a concrete next step."@, "Vague timelines stall deals. Propose a specific date for the follow-up and name what each side brings to it."@)
    } else if i == 4 {
        ("you"@, "pricing depends"@, "Give the range now — hedging reads as evasive."@, "You deflected the pricing question. Buyers anchor on trust before numbers; a wide-but-honest range keeps the conversation open, while \"it depends\" closes it."@)
    } else {
        (Seq::empty(), Seq::empty(), Seq::empty(), Seq::empty())
    }
}

fn pool_entry(i: usize) -> (e: (&'static str, &'static str, &'static str, &'static str))
    requires
        i < MOCK_POOL_LEN,
    ensures
        (e.0@, e.1@, e.2@, e.3@) == mock_pool(i as int),
{
    match i {
        0 => ("them", "budget approval", "Ask who signs off on this purchase.", "They mentioned budget approval without naming an owner — that's usually a soft stall. Naming the approver now surfaces blockers before they cost you the next two weeks."),
        1 => ("them", "we tried something similar before", "Dig into why the last attempt failed.", "A past failure is your best qualification tool. Ask what specifically didn't work and who felt the pain — then position against that, not a generic competitor."),
        2 => ("you", "let me jump ahead", "Go back — slide 4 raised a question.", "You moved past the pricing slide while they were still reading it. Return to it and ask what caught their eye — unasked questions become objections later."),
        3 => ("them", "timeline", "Anchor a concrete next step.", "Vague timelines stall deals. Propose a specific date for the follow-up and name what each side brings to it."),
        _ => ("you", "pricing depends", "Give the range now — hedging reads as evasive.", "You deflected the pricing question. Buyers anchor on trust before numbers; a wide-but-honest range keeps the conversation open, while \"it depends\" closes it."),
    }
}

/// The `i`-th mock suggestion: pool entry `i` modulo the pool size, with id
/// `mock-i`.
pub fn mock_suggestion(i: usize) -> (m: MockSuggestion)
    ensures
        m.id@ == "mock-"@ + decimal(i as nat),
        (m.source@, m.cue@, m.hint@, m.detail@) == mock_pool((i % MOCK_POOL_LEN) as int),
{
    let (source, cue, hint, detail) = pool_entry(i % MOCK_POOL_LEN);
    let mut id = String::new();
    id.push_str("mock-");
    push_decimal(&mut id, i as u64);
    MockSuggestion { id, source, cue, hint, detail }
}

/// Mock suggestions with different positions get different ids.
pub proof fn mock_ids_are_distinct(i: nat, j: nat)
    requires
        i != j,
    ensures
        "mock-"@ + decimal(i) != "mock-"@ + decimal(j),
{
    let p = "mock-"@;
    if p + decimal(i) == p + decimal(j) {
        assert((p + decimal(i)).subrange(p.len() as int, (p + decimal(i)).len() as int) =~= decimal(i));
        assert((p + decimal(j)).subrange(p.len() as int, (p + decimal(j)).len() as int) =~= decimal(j));
        decimal_is_injective(i, j);
    }
}

} // verus!
