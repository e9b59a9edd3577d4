use audio_capture::{RollingTranscript, SourceKind, TriggerConfig};
use std::time::{Duration, Instant};

/// Lets the given time pass on the monotonic clock.
fn wait(d: Duration) {
    let start = Instant::now();
    while start.elapsed() < d {
        std::hint::spin_loop();
    }
}

fn config() -> TriggerConfig {
    TriggerConfig { cooldown_ms: 50, min_new_words: 5, context_char_budget: 200 }
}

#[test]
fn fires_only_after_enough_new_words() {
    let mut t = RollingTranscript::new(config());
    t.push(SourceKind::SystemOutput, "yeah");
    assert!(!t.should_fire(), "one word is not enough");
    t.push(SourceKind::SystemOutput, "we need budget approval before starting");
    assert!(t.should_fire());
}

#[test]
fn cooldown_blocks_immediate_refire() {
    let mut t = RollingTranscript::new(config());
    t.push(SourceKind::SystemOutput, "we need budget approval before we can start");
    assert!(t.should_fire());
    t.mark_fired();
    t.push(SourceKind::SystemOutput, "and the timeline is quite tight for this year");
    assert!(!t.should_fire(), "cooldown hasn't elapsed");
    wait(Duration::from_millis(60));
    assert!(t.should_fire(), "cooldown elapsed and enough new words");
}

#[test]
fn word_gate_applies_even_after_cooldown() {
    let mut t = RollingTranscript::new(config());
    t.push(SourceKind::SystemOutput, "we need budget approval before we can start");
    t.mark_fired();
    wait(Duration::from_millis(60));
    t.push(SourceKind::Microphone, "ok");
    assert!(!t.should_fire(), "two words since firing is not enough");
}

#[test]
fn context_is_trimmed_to_budget_from_the_front() {
    let mut t = RollingTranscript::new(config());
    t.push(SourceKind::Microphone, &"a".repeat(150));
    t.push(SourceKind::SystemOutput, &"b".repeat(150));
    let rendered = t.render();
    assert!(!rendered.contains('a'), "oldest entry should have been dropped");
    assert!(rendered.contains('b'));
}

#[test]
fn render_tags_speakers() {
    let mut t = RollingTranscript::new(config());
    t.push(SourceKind::Microphone, "hello there");
    t.push(SourceKind::SystemOutput, "hi, thanks for joining");
    let rendered = t.render();
    assert!(rendered.contains("[you] hello there"));
    assert!(rendered.contains("[them] hi, thanks for joining"));
}

// ---------------------------------------------------------------------------

#[test]
fn cooldown_on_an_explicit_clock() {
    let mut t = RollingTranscript::new(config());
    t.push(SourceKind::SystemOutput, "one two three four five");
    assert!(t.should_fire_at(0));
    t.mark_fired_at(1_000);
    t.push(SourceKind::SystemOutput, "six seven eight nine ten");
    assert!(!t.should_fire_at(1_049));
    assert!(t.should_fire_at(1_050));
}

#[test]
fn a_single_oversized_segment_is_kept() {
    let mut t = RollingTranscript::new(config());
    t.push(SourceKind::Microphone, "short");
    t.push(SourceKind::SystemOutput, &"x".repeat(500));
    assert_eq!(t.render(), format!("[them] {}\n", "x".repeat(500)));
}

#[test]
fn render_is_one_line_per_segment_in_order() {
    let mut t = RollingTranscript::new(TriggerConfig::default());
    t.push(SourceKind::Microphone, "first");
    t.push(SourceKind::SystemOutput, "second");
    t.push(SourceKind::Microphone, "third");
    assert_eq!(t.render(), "[you] first\n[them] second\n[you] third\n");
}

#[test]
fn words_are_counted_across_any_whitespace() {
    let mut t = RollingTranscript::new(config());
    t.push(SourceKind::Microphone, "  one\ttwo\n three  ");
    assert!(!t.should_fire_at(0));
    t.push(SourceKind::Microphone, "four five");
    assert!(t.should_fire_at(0));
}

#[test]
fn default_trigger_config() {
    let c = TriggerConfig::default();
    assert_eq!(c.cooldown_ms, 8_000);
    assert_eq!(c.min_new_words, 6);
    assert_eq!(c.context_char_budget, 4_000);
}

#[test]
fn an_echo_on_the_other_stream_is_dropped() {
    let mut t = RollingTranscript::new(config());
    t.push(SourceKind::SystemOutput, "we need budget approval before starting the project");
    let before = t.render();
    // The same speech picked up by the microphone as well.
    assert!(t.is_echo(SourceKind::Microphone, "We need budget approval before starting the project."));
    t.push(SourceKind::Microphone, "We need budget approval before starting the project.");
    assert_eq!(t.render(), before);
    // The first segment alone already carries enough words; the echo adds none.
    t.mark_fired_at(0);
    t.push(SourceKind::Microphone, "we need budget approval before starting the project");
    assert!(!t.should_fire_at(1_000), "an echo must not count toward the word gate");
}

#[test]
fn repeats_on_the_same_stream_and_different_speech_are_kept() {
    let mut t = RollingTranscript::new(config());
    t.push(SourceKind::SystemOutput, "we need budget approval before starting");
    // The same stream saying it again is not an echo.
    assert!(!t.is_echo(SourceKind::SystemOutput, "we need budget approval before starting"));
    // Different speech on the other stream is not an echo either.
    assert!(!t.is_echo(SourceKind::Microphone, "sure, who signs off on purchases there"));
    t.push(SourceKind::Microphone, "sure, who signs off on purchases there");
    assert_eq!(
        t.render(),
        "[them] we need budget approval before starting\n[you] sure, who signs off on purchases there\n"
    );
}

#[test]
fn only_recent_segments_are_checked_for_echoes() {
    let mut t = RollingTranscript::new(TriggerConfig { cooldown_ms: 0, min_new_words: 1, context_char_budget: 10_000 });
    t.push(SourceKind::SystemOutput, "quarterly numbers look strong this time");
    for filler in ["alpha bravo charlie", "delta echoes foxtrot", "golf hotel india", "juliet kilo lima"] {
        t.push(SourceKind::SystemOutput, filler);
    }
    // The matching segment is now five entries back, outside the window.
    assert!(!t.is_echo(SourceKind::Microphone, "quarterly numbers look strong this time"));
}
