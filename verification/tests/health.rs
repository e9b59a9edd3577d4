use audio_capture::health::{
    supervise_step, HealthState, LevelThrottle, RestartPolicy, StalenessWatcher,
    SupervisorAction, WatchEvent, WatchStep,
};
use audio_capture::SourceKind;
use std::time::{Duration, Instant};

/// Lets the given time pass on the monotonic clock.
fn wait(d: Duration) {
    let start = Instant::now();
    while start.elapsed() < d {
        std::hint::spin_loop();
    }
}

/// Replays the watcher's loop on a simulated clock until `end_ms`: frames
/// arrive at the given times, each from the given source; whenever none
/// arrives within the watcher's wait, the wait times out. Returns every
/// reported state, the initial one first.
fn simulate_watcher(watcher: &StalenessWatcher, frames: &[(u64, SourceKind)], end_ms: u64) -> Vec<HealthState> {
    let mut st = watcher.initial_state(0);
    let mut seen = vec![st.health];
    let mut now = 0u64;
    let mut next = 0usize;
    loop {
        let deadline = now + watcher.wait_ms(&st, now);
        let (at, event) = match frames.get(next) {
            Some(&(t, source)) if t <= deadline => {
                next += 1;
                (t, WatchEvent::Frame(source))
            }
            _ => (deadline, WatchEvent::TimedOut),
        };
        if at > end_ms {
            break;
        }
        now = at;
        if let WatchStep::Continue(Some(h)) = watcher.step(&mut st, event, now) {
            seen.push(h);
        }
    }
    seen
}

/// Frames from `source` every 5 ms, from 5 ms up to `until_ms`.
fn every_5ms(source: SourceKind, until_ms: u64) -> Vec<(u64, SourceKind)> {
    (1..=until_ms / 5).map(|i| (i * 5, source)).collect()
}

#[test]
fn staleness_watcher_reports_healthy_while_frames_arrive() {
    // Frames every 5 ms, watched for 100 ms with a 200 ms limit.
    let frames = every_5ms(SourceKind::Microphone, 100);
    let watcher = StalenessWatcher::new(SourceKind::Microphone, 200);
    let seen = simulate_watcher(&watcher, &frames, 100);
    assert!(seen.contains(&HealthState::Starting));
    assert!(seen.contains(&HealthState::Healthy));
    assert!(
        !seen.contains(&HealthState::Stale),
        "should not go stale while frames are actively arriving; saw {seen:?}"
    );
}

#[test]
fn staleness_watcher_detects_a_source_that_stops_publishing() {
    // Frames every 5 ms for 50 ms, then nothing; watched for 350 ms with a
    // 100 ms limit.
    let frames = every_5ms(SourceKind::SystemOutput, 50);
    let watcher = StalenessWatcher::new(SourceKind::SystemOutput, 100);
    let seen = simulate_watcher(&watcher, &frames, 350);
    assert_eq!(
        seen.last(),
        Some(&HealthState::Stale),
        "expected the watcher to land on Stale after the source stopped; saw {seen:?}"
    );
}

#[test]
fn restart_policy_allows_up_to_the_limit_within_the_window() {
    let mut policy = RestartPolicy::new(3, 60_000);
    assert!(policy.record_and_check()); // 1st
    assert!(policy.record_and_check()); // 2nd
    assert!(policy.record_and_check()); // 3rd
    assert!(!policy.record_and_check()); // 4th: over budget, circuit breaker trips
}

#[test]
fn restart_policy_forgets_restarts_outside_the_window() {
    let mut policy = RestartPolicy::new(1, 50);
    assert!(policy.record_and_check());
    wait(Duration::from_millis(60));
    // The first restart has aged out of the window, so this is effectively
    // the first restart again.
    assert!(policy.record_and_check());
}

// ---------------------------------------------------------------------------

#[test]
fn restart_window_is_measured_on_the_given_clock() {
    let mut policy = RestartPolicy::new(2, 1_000);
    assert!(policy.record_and_check_at(0));
    assert!(policy.record_and_check_at(500));
    assert!(!policy.record_and_check_at(999)); // three within one second
    assert!(policy.record_and_check_at(2_000)); // all three aged out
}

#[test]
fn watcher_reports_edges_not_frames() {
    let watcher = StalenessWatcher::new(SourceKind::Microphone, 200);
    let mut st = watcher.initial_state(0);
    assert_eq!(st.health, HealthState::Starting);
    assert_eq!(
        watcher.step(&mut st, WatchEvent::Frame(SourceKind::Microphone), 10),
        WatchStep::Continue(Some(HealthState::Healthy))
    );
    assert_eq!(
        watcher.step(&mut st, WatchEvent::Frame(SourceKind::Microphone), 20),
        WatchStep::Continue(None)
    );
    assert_eq!(watcher.wait_ms(&st, 70), 150);
    // The other source's frames do not count.
    assert_eq!(
        watcher.step(&mut st, WatchEvent::Frame(SourceKind::SystemOutput), 100),
        WatchStep::Continue(None)
    );
    assert_eq!(st.last_seen_ms, Some(20));
    assert_eq!(watcher.wait_ms(&st, 500), 1);
    assert_eq!(
        watcher.step(&mut st, WatchEvent::TimedOut, 500),
        WatchStep::Continue(Some(HealthState::Stale))
    );
    assert_eq!(watcher.step(&mut st, WatchEvent::TimedOut, 600), WatchStep::Continue(None));
    assert_eq!(watcher.step(&mut st, WatchEvent::Lagged, 600), WatchStep::Continue(None));
    assert_eq!(watcher.step(&mut st, WatchEvent::Closed, 600), WatchStep::Stop);
}

#[test]
fn watcher_measures_the_limit_from_the_start_before_any_frame() {
    let watcher = StalenessWatcher::new(SourceKind::SystemOutput, 3_000);
    let st = watcher.initial_state(10_000);
    assert_eq!(watcher.wait_ms(&st, 10_000), 3_000);
    assert_eq!(watcher.wait_ms(&st, 12_345), 655);
    assert_eq!(watcher.wait_ms(&st, 14_000), 1);
}

#[test]
fn watcher_goes_stale_when_only_the_other_source_publishes() {
    // The watched microphone never delivers a frame while system output
    // publishes every 5 ms: Stale is reported once the limit has passed.
    let frames = every_5ms(SourceKind::SystemOutput, 500);
    let watcher = StalenessWatcher::new(SourceKind::Microphone, 100);
    let seen = simulate_watcher(&watcher, &frames, 500);
    assert_eq!(seen, vec![HealthState::Starting, HealthState::Stale]);

    // A frame of the other kind arriving after the limit reports Stale itself.
    let mut st = watcher.initial_state(0);
    assert_eq!(
        watcher.step(&mut st, WatchEvent::Frame(SourceKind::SystemOutput), 99),
        WatchStep::Continue(None)
    );
    assert_eq!(
        watcher.step(&mut st, WatchEvent::Frame(SourceKind::SystemOutput), 100),
        WatchStep::Continue(Some(HealthState::Stale))
    );
}

#[test]
fn supervisor_restarts_until_the_budget_is_spent() {
    let mut policy = RestartPolicy::new(2, 60_000);
    assert_eq!(supervise_step(&mut policy, HealthState::Healthy, 0), SupervisorAction::Report);
    assert_eq!(supervise_step(&mut policy, HealthState::Stale, 1), SupervisorAction::Restart);
    assert_eq!(supervise_step(&mut policy, HealthState::Starting, 2), SupervisorAction::Report);
    assert_eq!(supervise_step(&mut policy, HealthState::Stale, 3), SupervisorAction::Restart);
    assert_eq!(supervise_step(&mut policy, HealthState::Stale, 4), SupervisorAction::GiveUp);
}

#[test]
fn health_labels() {
    assert_eq!(HealthState::Starting.label(), "starting");
    assert_eq!(HealthState::Healthy.label(), "healthy");
    assert_eq!(HealthState::Stale.label(), "stale");
}

#[test]
fn level_events_are_throttled_per_source() {
    let mut throttle = LevelThrottle::new(100);
    assert!(throttle.should_emit(SourceKind::Microphone, 1_000));
    assert!(!throttle.should_emit(SourceKind::Microphone, 1_050));
    // The other source has its own slot.
    assert!(throttle.should_emit(SourceKind::SystemOutput, 1_050));
    assert!(throttle.should_emit(SourceKind::Microphone, 1_100));
    assert!(!throttle.should_emit(SourceKind::SystemOutput, 1_149));
}
