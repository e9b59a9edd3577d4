use audio_capture::agent::{
    interpret_reply, is_near_duplicate, render_user_message, AgentError, ApiReply, ContentBlock,
    CueAgent, ModelOutcome, ModelSuggestion, Verdict,
};
use audio_capture::{SourceKind, TriggerConfig};

fn test_config() -> TriggerConfig {
    TriggerConfig { cooldown_ms: 10, min_new_words: 3, context_char_budget: 1_000 }
}

fn proposal(hint: &str, value: u8) -> ModelOutcome {
    ModelOutcome {
        suggestion: Some(ModelSuggestion {
            cue: "cue".into(),
            hint: hint.into(),
            detail: "detail".into(),
            value,
        }),
        updated_notes: None,
    }
}

#[test]
fn suggestions_carry_the_triggering_segments_source() {
    let mut agent = CueAgent::new(test_config(), 1);
    let req = agent
        .on_segment_at(SourceKind::SystemOutput, "we would need budget approval before moving forward", 0)
        .expect("enough words to fire");
    assert!(req.transcript.starts_with("[them] we would need"));
    match agent.on_model_reply(SourceKind::SystemOutput, Ok(proposal("Ask who approves", 10))) {
        Verdict::Published(s) => {
            assert_eq!(s.source, SourceKind::SystemOutput);
            assert_eq!(s.id, "cue-1");
            assert_eq!(s.hint, "Ask who approves");
        }
        other => panic!("saw {other:?}"),
    }
}

#[test]
fn short_segments_do_not_trigger_a_model_call() {
    let mut agent = CueAgent::new(test_config(), 1);
    assert!(agent.on_segment_at(SourceKind::Microphone, "yeah", 0).is_none());
    assert!(agent.on_segment_at(SourceKind::Microphone, "okay", 100).is_none());
}

#[test]
fn a_passing_model_produces_no_suggestions() {
    let mut agent = CueAgent::new(test_config(), 1);
    assert!(agent
        .on_segment_at(SourceKind::SystemOutput, "we would need budget approval before moving forward with this project", 0)
        .is_some());
    assert_eq!(agent.on_model_reply(SourceKind::SystemOutput, Ok(ModelOutcome::default())), Verdict::Passed);
}

#[test]
fn reworded_repeats_are_suppressed() {
    let mut agent = CueAgent::new(test_config(), 1);
    assert!(agent
        .on_segment_at(SourceKind::SystemOutput, "so those are the four requirements we need to get through this sprint", 0)
        .is_some());
    assert!(matches!(
        agent.on_model_reply(SourceKind::SystemOutput, Ok(proposal("Assign owners to the four sprint requirements", 10))),
        Verdict::Published(_)
    ));
    let req = agent
        .on_segment_at(SourceKind::SystemOutput, "right okay let us keep talking through the details of the plan", 30)
        .expect("cooldown passed");
    assert_eq!(req.recent_hints, vec!["Assign owners to the four sprint requirements".to_string()]);
    assert!(matches!(
        agent.on_model_reply(SourceKind::SystemOutput, Ok(proposal("Assign owner to sprint requirements", 10))),
        Verdict::SuppressedRepeat(_)
    ));
}

#[test]
fn candidates_below_the_mode_threshold_are_not_published() {
    let mut agent = CueAgent::new(test_config(), 5);
    assert!(agent
        .on_segment_at(SourceKind::SystemOutput, "we would need budget approval before moving forward with this project", 0)
        .is_some());
    assert!(matches!(
        agent.on_model_reply(SourceKind::SystemOutput, Ok(proposal("Ask who approves", 2))),
        Verdict::BelowThreshold(_)
    ));
}

#[test]
fn notes_from_one_call_are_fed_into_the_next() {
    let mut agent = CueAgent::new(test_config(), 1);
    let first = agent
        .on_segment_at(SourceKind::SystemOutput, "the prospect said budget approval rests with their finance director", 0)
        .expect("fires");
    assert_eq!(first.notes, "", "first call starts with empty notes");
    let mut outcome = proposal("Ask who owns the budget approval", 10);
    outcome.updated_notes = Some("notes v1".into());
    assert!(matches!(agent.on_model_reply(SourceKind::SystemOutput, Ok(outcome)), Verdict::Published(_)));
    let second = agent
        .on_segment_at(SourceKind::Microphone, "understood so I will follow up with the finance director tomorrow", 30)
        .expect("fires");
    assert_eq!(second.notes, "notes v1", "second call must receive the notes written by the first");
    match agent.on_model_reply(SourceKind::Microphone, Ok(proposal("Anchor a specific follow-up meeting time", 10))) {
        Verdict::Published(s) => {
            assert_eq!(s.id, "cue-2");
            assert_eq!(s.source, SourceKind::Microphone);
        }
        other => panic!("saw {other:?}"),
    }
}

// ---------------------------------------------------------------------------

#[test]
fn near_duplicate_uses_content_words() {
    // {assign, owner, sprint, requirement} vs {assign, owner, requirement}
    assert!(is_near_duplicate("Assign owners to sprint requirements!", "assign owner, requirements"));
    assert!(!is_near_duplicate("Ask who signs off on this purchase.", "Anchor a concrete next step."));
    // Only function words: nothing to compare.
    assert!(!is_near_duplicate("ok so to do", "ok so to do"));
    // Exactly two fifths shared is not enough: {alpha, beta} vs {alpha, gamma, delta}... 1/4
    assert!(!is_near_duplicate("alpha beta", "alpha gamma delta"));
    // 2 shared of 4 in the union: one half.
    assert!(is_near_duplicate("alpha beta gamma", "alpha beta delta"));
}

#[test]
fn model_failures_and_memory_limit() {
    let mut agent = CueAgent::new(TriggerConfig { cooldown_ms: 0, min_new_words: 1, context_char_budget: 100 }, 1);
    assert_eq!(
        agent.on_model_reply(SourceKind::Microphone, Err(AgentError::Http("down".into()))),
        Verdict::ModelFailed(AgentError::Http("down".into()))
    );
    let hints = ["first topic alpha", "second topic bravo", "third topic charlie", "fourth topic delta",
        "fifth topic echo", "sixth topic foxtrot", "seventh topic golf", "eighth topic hotel", "ninth topic india"];
    for h in hints.iter() {
        let words: Vec<&str> = h.split(' ').collect();
        let distinct = format!("{} {}", words[0], words[2]);
        assert!(matches!(agent.on_model_reply(SourceKind::Microphone, Ok(proposal(&distinct, 9))), Verdict::Published(_)));
    }
    let req = agent.on_segment_at(SourceKind::Microphone, "hello", 0).expect("fires");
    assert_eq!(req.recent_hints.len(), 8);
    assert_eq!(req.recent_hints[0], "second bravo");
    assert_eq!(req.recent_hints[7], "ninth india");
}

#[test]
fn user_message_lists_hints_notes_and_transcript() {
    assert_eq!(
        render_user_message("[you] hi\n", "", &[]),
        "Suggestions already shown (do not repeat):\nnone yet\n\nYour running notes from earlier in this conversation:\n(none yet)\n\nTranscript (the recent part of the conversation):\n[you] hi\n"
    );
    assert_eq!(
        render_user_message("T", "N", &["a".to_string(), "b".to_string()]),
        "Suggestions already shown (do not repeat):\n- a\n- b\n\nYour running notes from earlier in this conversation:\nN\n\nTranscript (the recent part of the conversation):\nT"
    );
}

fn block(kind: &str, name: &str) -> ContentBlock {
    ContentBlock {
        block_type: Some(kind.into()),
        name: Some(name.into()),
        value: None,
        cue: None,
        hint: None,
        detail: None,
        notes: None,
    }
}

fn ok_reply(content: Vec<ContentBlock>) -> ApiReply {
    ApiReply { status_ok: true, status: "200 OK".into(), error_message: None, content: Some(content) }
}

#[test]
fn reply_with_both_tools_is_collected() {
    let mut propose = block("tool_use", "propose_suggestion");
    propose.value = Some(42);
    propose.cue = Some("budget".into());
    propose.hint = Some("Ask who signs".into());
    propose.detail = Some("Because.".into());
    let mut notes = block("tool_use", "update_notes");
    notes.notes = Some("CFO approves".into());
    let text = block("text", "");
    let outcome = interpret_reply(&ok_reply(vec![text, propose, notes])).unwrap();
    let s = outcome.suggestion.expect("suggestion");
    assert_eq!(s.value, 10, "value is clamped into 1..=10");
    assert_eq!(s.cue, "budget");
    assert_eq!(s.hint, "Ask who signs");
    assert_eq!(s.detail, "Because.");
    assert_eq!(outcome.updated_notes, Some("CFO approves".into()));
}

#[test]
fn reply_errors() {
    let failed = ApiReply {
        status_ok: false,
        status: "429 Too Many Requests".into(),
        error_message: Some("slow down".into()),
        content: None,
    };
    assert_eq!(interpret_reply(&failed), Err(AgentError::Api("429 Too Many Requests: slow down".into())));
    let failed = ApiReply { error_message: None, ..failed };
    assert_eq!(interpret_reply(&failed), Err(AgentError::Api("429 Too Many Requests: unknown error".into())));
    let no_content = ApiReply { status_ok: true, status: "200 OK".into(), error_message: None, content: None };
    assert_eq!(
        interpret_reply(&no_content),
        Err(AgentError::MalformedResponse("response has no content array".into()))
    );
    let mut propose = block("tool_use", "propose_suggestion");
    propose.value = Some(0);
    propose.cue = Some("c".into());
    assert_eq!(
        interpret_reply(&ok_reply(vec![propose])),
        Err(AgentError::MalformedResponse("tool input missing `hint`".into()))
    );
    assert_eq!(
        interpret_reply(&ok_reply(vec![block("tool_use", "update_notes")])),
        Err(AgentError::MalformedResponse("tool input missing `notes`".into()))
    );
    assert_eq!(interpret_reply(&ok_reply(vec![])), Ok(ModelOutcome::default()));
}

#[test]
fn near_duplicate_ignores_argument_order() {
    let pairs = [
        ("Assign an owner to each requirement", "Assign owners for the requirements"),
        ("Ask who signs off on the budget", "Anchor a concrete next step"),
        ("Confirm the timeline today", "Confirm timeline and owners today please"),
    ];
    for (a, b) in pairs {
        assert_eq!(is_near_duplicate(a, b), is_near_duplicate(b, a), "{a:?} vs {b:?}");
    }
}

#[test]
fn a_hint_repeats_itself_only_when_it_has_content_words() {
    assert!(is_near_duplicate("Ask who owns the budget approval", "Ask who owns the budget approval"));
    assert!(!is_near_duplicate("do it now", "do it now"));
}

#[test]
fn published_ids_count_up() {
    let mut agent = CueAgent::new(test_config(), 1);
    let first = agent.on_model_reply(SourceKind::Microphone, Ok(proposal("Ask who owns the budget approval", 8)));
    let second = agent.on_model_reply(SourceKind::SystemOutput, Ok(proposal("Anchor a concrete follow-up meeting", 8)));
    match (first, second) {
        (Verdict::Published(a), Verdict::Published(b)) => {
            assert_eq!(a.id, "cue-1");
            assert_eq!(b.id, "cue-2");
        }
        other => panic!("expected two published suggestions, got {other:?}"),
    }
}

#[test]
fn first_segment_with_enough_words_asks_the_model() {
    let mut agent = CueAgent::new(test_config(), 5);
    let req = agent
        .on_segment(SourceKind::SystemOutput, "we need budget approval")
        .expect("no earlier call, enough words: the model is asked");
    assert_eq!(req.transcript, "[them] we need budget approval\n");
    assert_eq!(req.notes, "");
    assert!(req.recent_hints.is_empty());
    // Immediately after, two more words are not enough.
    assert!(agent.on_segment(SourceKind::Microphone, "right, okay").is_none());
}

#[test]
fn an_echoed_segment_asks_nothing_and_changes_nothing() {
    let mut agent = CueAgent::new(test_config(), 5);
    let first = agent.on_segment(SourceKind::SystemOutput, "we need budget approval first");
    assert!(first.is_some());
    // The same words arriving on the microphone stream are an echo.
    assert!(agent.on_segment(SourceKind::Microphone, "we need budget approval first").is_none());
}
