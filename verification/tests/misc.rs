use audio_capture::capture::{next_playback_chunk, playback_frame_len, FrameAssembler, ReaderState};
use audio_capture::modes::{available_modes, mode_profile, CONTEXT_CHAR_BUDGET};
use audio_capture::overlay::mock_suggestion;
use audio_capture::protocol::{AudioMessage, StatusEvent, TapMessage};
use audio_capture::transcript::{join_transcript_pieces, label, segment_for};
use audio_capture::{CaptureError, SourceKind, SourceStatus};

#[test]
fn source_status_round_trips_through_its_byte() {
    for s in [SourceStatus::Idle, SourceStatus::Starting, SourceStatus::Running, SourceStatus::Stopped, SourceStatus::Failed] {
        assert_eq!(SourceStatus::from_u8(s.to_u8()), s);
    }
    assert_eq!(SourceStatus::from_u8(2), SourceStatus::Running);
    assert_eq!(SourceStatus::from_u8(200), SourceStatus::Failed);
}

#[test]
fn modes_are_listed_and_profiled() {
    assert_eq!(
        available_modes(),
        &[("sales", "Sales assistant"), ("meeting", "Meeting assistant"), ("general", "General assistant")]
    );
    let sales = mode_profile("sales").expect("sales exists");
    assert_eq!(sales.label, "Sales assistant");
    assert_eq!(sales.trigger.cooldown_ms, 5_000);
    assert_eq!(sales.trigger.min_new_words, 5);
    assert_eq!(sales.trigger.context_char_budget, CONTEXT_CHAR_BUDGET);
    assert_eq!(sales.min_suggestion_value, 4);
    assert!(sales.system_prompt.starts_with("You are a silent assistant"));
    assert!(sales.system_prompt.contains("\n\nMODE: sales assistant."));
    assert!(sales.system_prompt.ends_with("reply with the single word: pass."));
    let meeting = mode_profile("meeting").unwrap();
    assert_eq!((meeting.trigger.cooldown_ms, meeting.trigger.min_new_words, meeting.min_suggestion_value), (15_000, 10, 5));
    let general = mode_profile("general").unwrap();
    assert_eq!((general.trigger.cooldown_ms, general.trigger.min_new_words, general.min_suggestion_value), (8_000, 6, 5));
    assert!(mode_profile("interview").is_none());
    assert!(mode_profile("Sales").is_none());
}

#[test]
fn frames_are_assembled_without_losing_samples() {
    let mut a: FrameAssembler<u32> = FrameAssembler::new(150, 1); // 3 samples per 20 ms
    let mut frames = Vec::new();
    for s in 0..8u32 {
        assert!(a.needs_more());
        a.accept(s);
        if let Some(f) = a.take_frame() {
            frames.push(f);
        }
    }
    assert_eq!(frames, vec![vec![0, 1, 2], vec![3, 4, 5]]);
    assert!(a.take_frame().is_none(), "a partial frame stays in progress");
    a.accept(8);
    assert_eq!(a.take_frame(), Some(vec![6, 7, 8]));
}

#[test]
fn playback_loops_over_the_buffer() {
    assert_eq!(playback_frame_len(16_000, 1), 320);
    assert_eq!(playback_frame_len(48_000, 2), 1_920);
    assert_eq!(playback_frame_len(10, 2), 2, "at least one sample per channel");
    let (chunk, cursor) = next_playback_chunk(&[1, 2, 3], 2, 5);
    assert_eq!(chunk, vec![3, 1, 2, 3, 1]);
    assert_eq!(cursor, 1);
}

#[test]
fn helper_start_is_reported_once() {
    let mut r = ReaderState::new();
    let info = TapMessage::StatusEvent(StatusEvent { level: "info".into(), code: "c".into(), message: "m".into() });
    let act = r.on_message(&info);
    assert!(act.ready.is_none() && !act.publish && !act.mark_running);
    let act = r.on_message(&TapMessage::Heartbeat);
    assert_eq!(act.ready, Some(Ok(())));
    assert!(act.mark_running && !act.publish);
    let audio = TapMessage::Audio(AudioMessage { timestamp_ns: 0, sample_rate: 1, channels: 1, frame_count: 0, samples: vec![] });
    let act = r.on_message(&audio);
    assert!(act.publish && act.ready.is_none() && !act.mark_running);
    assert_eq!(r.on_end(), None);

    let mut r = ReaderState::new();
    let err = TapMessage::StatusEvent(StatusEvent { level: "error".into(), code: "tap".into(), message: "boom".into() });
    assert_eq!(r.on_message(&err).ready, Some(Err(CaptureError::StreamStartFailed("boom".into()))));
    assert_eq!(r.on_end(), None);

    let mut r = ReaderState::new();
    assert_eq!(
        r.on_end(),
        Some(CaptureError::StreamStartFailed("helper process exited before producing any output".into()))
    );
}

#[test]
fn transcript_pieces_and_segments() {
    let pieces = vec!["  Hello there. ".to_string(), "   ".to_string(), "\tHow are you?\n".to_string()];
    assert_eq!(join_transcript_pieces(&pieces), "Hello there. How are you?");
    assert_eq!(join_transcript_pieces(&[]), "");
    assert!(segment_for(SourceKind::Microphone, String::new(), 100).is_none());
    let seg = segment_for(SourceKind::SystemOutput, "hi".into(), 1_500).unwrap();
    assert_eq!((seg.source, seg.text.as_str(), seg.speech_duration_ms), (SourceKind::SystemOutput, "hi", 1_500));
    assert_eq!(label(SourceKind::Microphone), "mic");
    assert_eq!(label(SourceKind::SystemOutput), "system");
}

#[test]
fn mock_suggestions_cycle_through_the_pool() {
    let m = mock_suggestion(0);
    assert_eq!(m.id, "mock-0");
    assert_eq!((m.source, m.cue), ("them", "budget approval"));
    let m = mock_suggestion(7);
    assert_eq!(m.id, "mock-7");
    assert_eq!((m.source, m.cue), ("you", "let me jump ahead"));
    assert_eq!(mock_suggestion(12).hint, "Go back — slide 4 raised a question.");
}
