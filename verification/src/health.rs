//! Health supervision: observing whether each source's frames still arrive
//! on the bus, deciding when to restart a source, and giving up when
//! restarts keep failing.
//!
//! Health is judged from the outside, by frame arrival, not by asking the
//! source: a source can believe it is running while its frames have
//! stopped.

use vstd::prelude::*;
use std::time::Instant;

use crate::clock::millis_since;
use crate::source::SourceKind;

verus! {

/// Health of one source as observed from the bus.
#[derive(Clone, Copy, Debug, PartialEq, Eq, Structural)]
pub enum HealthState {
    /// No frame seen yet since watching started.
    Starting,
    /// A frame of the watched kind arrived within the staleness limit.
    Healthy,
    /// No frame of the watched kind has arrived for longer than the limit.
    Stale,
}

impl HealthState {
    /// The name the UI shows for this state.
    pub fn label(self) -> (l: &'static str)
        ensures
            self == HealthState::Starting ==> l@ == "starting"@,
            self == HealthState::Healthy ==> l@ == "healthy"@,
            self == HealthState::Stale ==> l@ == "stale"@,
    {
        match self {
            HealthState::Starting => "starting",
            HealthState::Healthy => "healthy",
            HealthState::Stale => "stale",
        }
    }
}

/// Watches the bus for frames of one source kind and reports whether they
/// are still arriving.
#[derive(Clone, Copy, Debug)]
pub struct StalenessWatcher {
    kind: SourceKind,
    stale_after_ms: u64,
}

/// What the watcher has seen so far: the current health, when (in
/// milliseconds on the watcher's clock) watching started, and when the last
/// frame of its kind arrived.
#[derive(Clone, Copy, Debug, PartialEq, Eq)]
pub struct WatchState {
    pub health: HealthState,
    pub started_ms: u64,
    pub last_seen_ms: Option<u64>,
}

/// What the bus delivered while the watcher waited.
#[derive(Clone, Copy, Debug, PartialEq, Eq)]
pub enum WatchEvent {
    /// A frame from the given source.
    Frame(SourceKind),
    /// The watcher fell behind and frames were skipped.
    Lagged,
    /// The bus closed.
    Closed,
    /// Nothing arrived within the wait.
    TimedOut,
}

/// What to do after an event: keep watching, reporting a new health state
/// if it changed, or stop because the bus closed.
#[derive(Clone, Copy, Debug, PartialEq, Eq)]
pub enum WatchStep {
    Continue(Option<HealthState>),
    Stop,
}

/// Milliseconds from `at` to `now`, zero when `now` is earlier.
pub open spec fn ms_between(at: u64, now: u64) -> int {
    if now >= at {
        now - at
    } else {
        0
    }
}

/// Where the staleness clock runs from: the last frame of the watched kind,
/// or the start of watching before there was one.
pub open spec fn stale_clock_origin(st: WatchState) -> u64 {
    match st.last_seen_ms {
        Some(t) => t,
        None => st.started_ms,
    }
}

/// Whether, at `now_ms`, no frame of the watched kind has arrived for the
/// whole limit (counted from the start of watching before the first one).
pub open spec fn overdue(st: WatchState, stale_after_ms: u64, now_ms: u64) -> bool {
    ms_between(stale_clock_origin(st), now_ms) >= stale_after_ms
}

/// The state `st` moved to `h`, with the report that change owes: `h` if it
/// differs from the current health, nothing otherwise.
pub open spec fn move_to(st: WatchState, h: HealthState, last_seen_ms: Option<u64>) -> (
    WatchState,
    WatchStep,
) {
    (
        WatchState { health: h, started_ms: st.started_ms, last_seen_ms },
        WatchStep::Continue(
            if st.health != h {
                Some(h)
            } else {
                None
            },
        ),
    )
}

/// The watcher's reaction to one event at `now_ms`: a frame of its own kind
/// makes the source healthy and restarts its staleness clock; a timeout, or
/// any other event once the limit has passed without a frame of its kind,
/// makes it stale; otherwise nothing changes. A state change is reported
/// exactly when the health changes.
pub open spec fn watch_transition(
    kind: SourceKind,
    stale_after_ms: u64,
    st: WatchState,
    event: WatchEvent,
    now_ms: u64,
) -> (WatchState, WatchStep) {
    match event {
        WatchEvent::Closed => (st, WatchStep::Stop),
        WatchEvent::Frame(source) if source == kind => move_to(
            st,
            HealthState::Healthy,
            Some(now_ms),
        ),
        WatchEvent::TimedOut => move_to(st, HealthState::Stale, st.last_seen_ms),
        _ => if overdue(st, stale_after_ms, now_ms) {
            move_to(st, HealthState::Stale, st.last_seen_ms)
        } else {
            (st, WatchStep::Continue(None))
        },
    }
}

impl StalenessWatcher {
    pub closed spec fn kind(&self) -> SourceKind {
        self.kind
    }

    pub closed spec fn stale_after_ms(&self) -> u64 {
        self.stale_after_ms
    }

    pub fn new(kind: SourceKind, stale_after_ms: u64) -> (w: StalenessWatcher)
        ensures
            w.kind() == kind,
            w.stale_after_ms() == stale_after_ms,
    {
        StalenessWatcher { kind, stale_after_ms }
    }

    /// The state watching starts in at clock reading `now_ms`; `Starting` is
    /// reported once at start.
    pub fn initial_state(&self, now_ms: u64) -> (st: WatchState)
        ensures
            st == (WatchState {
                health: HealthState::Starting,
                started_ms: now_ms,
                last_seen_ms: None,
            }),
    {
        WatchState { health: HealthState::Starting, started_ms: now_ms, last_seen_ms: None }
    }

    /// How long to wait for the next frame at clock reading `now_ms`: what
    /// is left of the staleness limit since the last frame of the watched
    /// kind (since the start of watching before any), but at least one
    /// millisecond.
    pub fn wait_ms(&self, st: &WatchState, now_ms: u64) -> (w: u64)
        ensures
            w == ({
                let left = self.stale_after_ms() - ms_between(stale_clock_origin(*st), now_ms);
                if left < 1 {
                    1
                } else {
                    left
                }
            }),
    {
        let origin = match st.last_seen_ms {
            Some(t) => t,
            None => st.started_ms,
        };
        let elapsed = if now_ms >= origin {
            now_ms - origin
        } else {
            0
        };
        let left = if self.stale_after_ms >= elapsed {
            self.stale_after_ms - elapsed
        } else {
            0
        };
        if left < 1 {
            1
        } else {
            left
        }
    }

    /// Reacts to one event at clock reading `now_ms`.
    pub fn step(&self, st: &mut WatchState, event: WatchEvent, now_ms: u64) -> (s: WatchStep)
        ensures
            (*final(st), s) == watch_transition(
                self.kind(),
                self.stale_after_ms(),
                *old(st),
                event,
                now_ms,
            ),
    {
        let going_stale = match event {
            WatchEvent::Closed => {
                return WatchStep::Stop;
            },
            WatchEvent::Frame(source) => {
                if source == self.kind {
                    let changed = st.health != HealthState::Healthy;
                    st.health = HealthState::Healthy;
                    st.last_seen_ms = Some(now_ms);
                    return WatchStep::Continue(
                        if changed {
                            Some(HealthState::Healthy)
                        } else {
                            None
                        },
                    );
                }
                self.limit_passed(st, now_ms)
            },
            WatchEvent::Lagged => self.limit_passed(st, now_ms),
            WatchEvent::TimedOut => true,
        };
        if !going_stale {
            return WatchStep::Continue(None);
        }
        let changed = st.health != HealthState::Stale;
        st.health = HealthState::Stale;
        WatchStep::Continue(
            if changed {
                Some(HealthState::Stale)
            } else {
                None
            },
        )
    }

    /// Whether the staleness limit has passed at `now_ms` without a frame of
    /// the watched kind.
    fn limit_passed(&self, st: &WatchState, now_ms: u64) -> (b: bool)
        ensures
            b == overdue(*st, self.stale_after_ms(), now_ms),
    {
        let origin = match st.last_seen_ms {
            Some(t) => t,
            None => st.started_ms,
        };
        let elapsed = if now_ms >= origin {
            now_ms - origin
        } else {
            0
        };
        elapsed >= self.stale_after_ms
    }
}

/// A reported health state is always the state the watcher is now in, and
/// it is reported only when it differs from the state before: callers see
/// edges, not every frame.
pub proof fn watcher_reports_only_changes(
    kind: SourceKind,
    stale_after_ms: u64,
    st: WatchState,
    event: WatchEvent,
    now_ms: u64,
)
    ensures
        ({
            let (next, step) = watch_transition(kind, stale_after_ms, st, event, now_ms);
            &&& step matches WatchStep::Continue(Some(h)) ==> h == next.health && h != st.health
            &&& step matches WatchStep::Continue(None) ==> next.health == st.health
        }),
{
}

/// A frame of the watched kind always makes the watcher healthy, whatever
/// state it was in (a stale source whose frames come back recovers): its
/// staleness clock restarts at that frame, and `Healthy` is reported
/// exactly when the watcher was not healthy already.
pub proof fn own_frame_makes_the_source_healthy(
    kind: SourceKind,
    stale_after_ms: u64,
    st: WatchState,
    now_ms: u64,
)
    ensures
        ({
            let (next, step) = watch_transition(
                kind,
                stale_after_ms,
                st,
                WatchEvent::Frame(kind),
                now_ms,
            );
            &&& next.health == HealthState::Healthy
            &&& next.last_seen_ms == Some(now_ms)
            &&& next.started_ms == st.started_ms
            &&& (step == WatchStep::Continue(Some(HealthState::Healthy))) == (st.health
                != HealthState::Healthy)
            &&& (step == WatchStep::Continue(None)) == (st.health == HealthState::Healthy)
        }),
{
}

/// Frames of the other source, and lag, never reset the watched source's
/// staleness clock: they change nothing before the limit has passed, and
/// once it has passed with no frame of the watched kind (counted from the
/// start of watching if none ever came) they leave the watcher stale,
/// reporting `Stale` if it was not already.
pub proof fn watcher_goes_stale_while_only_other_frames_flow(
    kind: SourceKind,
    stale_after_ms: u64,
    st: WatchState,
    event: WatchEvent,
    now_ms: u64,
)
    requires
        event == WatchEvent::Lagged || (event matches WatchEvent::Frame(other) && other != kind),
    ensures
        ({
            let (next, step) = watch_transition(kind, stale_after_ms, st, event, now_ms);
            &&& next.started_ms == st.started_ms
            &&& next.last_seen_ms == st.last_seen_ms
            &&& !overdue(st, stale_after_ms, now_ms) ==> next == st && step == WatchStep::Continue(
                None,
            )
            &&& overdue(st, stale_after_ms, now_ms) ==> next.health == HealthState::Stale && (
            st.health != HealthState::Stale ==> step == WatchStep::Continue(
                Some(HealthState::Stale),
            ))
        }),
{
}

/// Running the watcher over `events` (each with the clock reading at which
/// it arrived) from state `st`: the state after them and the health states
/// reported, in order, and whether the run has stopped (at the first
/// `Closed`, after which nothing changes).
pub open spec fn watch_run(
    kind: SourceKind,
    stale_after_ms: u64,
    st: WatchState,
    events: Seq<(WatchEvent, u64)>,
) -> (WatchState, Seq<HealthState>, bool)
    decreases events.len(),
{
    if events.len() == 0 {
        (st, Seq::empty(), false)
    } else {
        let (s1, reports, stopped) = watch_run(kind, stale_after_ms, st, events.drop_last());
        if stopped {
            (s1, reports, true)
        } else {
            let (e, now) = events.last();
            let (s2, step) = watch_transition(kind, stale_after_ms, s1, e, now);
            match step {
                WatchStep::Stop => (s2, reports, true),
                WatchStep::Continue(Some(h)) => (s2, reports.push(h), false),
                WatchStep::Continue(None) => (s2, reports, false),
            }
        }
    }
}

/// Over a whole run from the initial state (which reports `Starting`), the
/// reported states never repeat back to back, the first one after
/// `Starting` differs from it, and the last one reported is the state the
/// watcher is in.
pub proof fn watcher_run_reports_each_change_once(
    kind: SourceKind,
    stale_after_ms: u64,
    started_ms: u64,
    events: Seq<(WatchEvent, u64)>,
)
    ensures
        ({
            let init = WatchState { health: HealthState::Starting, started_ms, last_seen_ms: None };
            let (last, reports, stopped) = watch_run(kind, stale_after_ms, init, events);
            let all = seq![HealthState::Starting] + reports;
            &&& forall|i: int| 0 <= i < all.len() - 1 ==> #[trigger] all[i] != all[i + 1]
            &&& all.last() == last.health
            &&& last.started_ms == started_ms
        }),
    decreases events.len(),
{
    let init = WatchState { health: HealthState::Starting, started_ms, last_seen_ms: None };
    if events.len() > 0 {
        let p = events.drop_last();
        watcher_run_reports_each_change_once(kind, stale_after_ms, started_ms, p);
        let (s1, reports, stopped) = watch_run(kind, stale_after_ms, init, p);
        let all1 = seq![HealthState::Starting] + reports;
        if !stopped {
            let (e, now) = events.last();
            let (s2, step) = watch_transition(kind, stale_after_ms, s1, e, now);
            watcher_reports_only_changes(kind, stale_after_ms, s1, e, now);
            if let WatchStep::Continue(Some(h)) = step {
                let all2 = seq![HealthState::Starting] + reports.push(h);
                assert(all2 =~= all1.push(h));
                assert forall|i: int| 0 <= i < all2.len() - 1 implies #[trigger] all2[i] != all2[i + 1] by {
                    if i < all1.len() - 1 {
                        assert(all2[i] == all1[i] && all2[i + 1] == all1[i + 1]);
                    } else {
                        assert(all2[i] == all1.last());
                    }
                }
            }
        }
    } else {
        assert(seq![HealthState::Starting] + Seq::<HealthState>::empty() =~= seq![HealthState::Starting]);
    }
}

// ---------------------------------------------------------------------------
// Restart budget
// ---------------------------------------------------------------------------

/// The restarts among `ts` that are still inside the window at `now_ms`
/// (those less than `window_ms` before it; a time after `now_ms` counts as
/// zero elapsed), in order.
pub open spec fn within_window(ts: Seq<u64>, now_ms: u64, window_ms: u64) -> Seq<u64>
    decreases ts.len(),
{
    if ts.len() == 0 {
        Seq::empty()
    } else {
        let rest = within_window(ts.drop_last(), now_ms, window_ms);
        let t = ts.last();
        let elapsed: int = if now_ms >= t {
            now_ms - t
        } else {
            0
        };
        if elapsed < window_ms {
            rest.push(t)
        } else {
            rest
        }
    }
}

/// `within_window` keeps, in order, exactly the restarts less than a
/// window before `now_ms` (a time after `now_ms` counting as no time at
/// all), and nothing else.
pub proof fn within_window_keeps_exactly_the_recent(ts: Seq<u64>, now_ms: u64, window_ms: u64)
    ensures
        forall|t: u64| #[trigger] within_window(ts, now_ms, window_ms).contains(t) <==> (ts.contains(t)
            && ms_between(t, now_ms) < window_ms),
        within_window(ts, now_ms, window_ms).len() <= ts.len(),
    decreases ts.len(),
{
    if ts.len() > 0 {
        let p = ts.drop_last();
        within_window_keeps_exactly_the_recent(p, now_ms, window_ms);
        let r = within_window(p, now_ms, window_ms);
        let x = ts.last();
        assert forall|t: u64| #[trigger] ts.contains(t) <==> (p.contains(t) || t == x) by {
            if ts.contains(t) {
                let k = choose|k: int| 0 <= k < ts.len() && ts[k] == t;
                if k < ts.len() - 1 {
                    assert(p[k] == t);
                }
            }
            if p.contains(t) {
                let k = choose|k: int| 0 <= k < p.len() && p[k] == t;
                assert(ts[k] == t);
            }
            if t == x {
                assert(ts[ts.len() - 1] == t);
            }
        }
        assert forall|t: u64| #[trigger] r.push(x).contains(t) <==> (r.contains(t) || t == x) by {
            if r.push(x).contains(t) {
                let k = choose|k: int| 0 <= k < r.push(x).len() && r.push(x)[k] == t;
                if k < r.len() {
                    assert(r[k] == t);
                }
            }
            if r.contains(t) {
                let k = choose|k: int| 0 <= k < r.len() && r[k] == t;
                assert(r.push(x)[k] == t);
            }
            if t == x {
                assert(r.push(x)[r.len() as int] == t);
            }
        }
    }
}

/// The circuit breaker that keeps a permanently broken source from
/// restarting forever: at most `max_restarts` restarts within any window.
pub struct RestartPolicy {
    max_restarts: u32,
    window_ms: u64,
    recent_restarts: Vec<u64>,
    origin: Instant,
}

impl RestartPolicy {
    pub closed spec fn max_restarts(&self) -> u32 {
        self.max_restarts
    }

    pub closed spec fn window_ms(&self) -> u64 {
        self.window_ms
    }

    /// Times (milliseconds on the policy's clock) of the restarts remembered.
    pub closed spec fn recent_restarts(&self) -> Seq<u64> {
        self.recent_restarts@
    }

    pub fn new(max_restarts: u32, window_ms: u64) -> (p: RestartPolicy)
        ensures
            p.max_restarts() == max_restarts,
            p.window_ms() == window_ms,
            p.recent_restarts() == Seq::<u64>::empty(),
    {
        RestartPolicy {
            max_restarts,
            window_ms,
            recent_restarts: Vec::new(),
            origin: Instant::now(),
        }
    }

    /// Records a restart attempt at clock reading `now_ms` and says whether
    /// it is within budget: restarts older than the window are forgotten,
    /// this one is remembered, and the answer is whether the remembered
    /// ones number at most `max_restarts`.
    pub fn record_and_check_at(&mut self, now_ms: u64) -> (ok: bool)
        ensures
            final(self).max_restarts() == old(self).max_restarts(),
            final(self).window_ms() == old(self).window_ms(),
            final(self).recent_restarts() == within_window(
                old(self).recent_restarts(),
                now_ms,
                old(self).window_ms(),
            ).push(now_ms),
            ok == (final(self).recent_restarts().len() <= old(self).max_restarts()),
    {
        let ghost old_ts = self.recent_restarts@;
        let mut kept: Vec<u64> = Vec::new();
        let mut i: usize = 0;
        while i < self.recent_restarts.len()
            invariant
                i <= self.recent_restarts@.len(),
                self.recent_restarts@ == old_ts,
                kept@ == within_window(old_ts.take(i as int), now_ms, self.window_ms),
            decreases self.recent_restarts@.len() - i,
        {
            let t = self.recent_restarts[i];
            let elapsed = if now_ms >= t {
                now_ms - t
            } else {
                0
            };
            proof {
                assert(old_ts.take(i + 1).drop_last() =~= old_ts.take(i as int));
                assert(old_ts.take(i + 1).last() == t);
            }
            if elapsed < self.window_ms {
                kept.push(t);
            }
            i = i + 1;
        }
        proof {
            assert(old_ts.take(old_ts.len() as int) =~= old_ts);
        }
        kept.push(now_ms);
        self.recent_restarts = kept;
        self.recent_restarts.len() <= self.max_restarts as usize
    }

    /// Records a restart attempt now (on the policy's clock) and says whether
    /// it is within budget.
    pub fn record_and_check(&mut self) -> (ok: bool)
        ensures
            final(self).max_restarts() == old(self).max_restarts(),
            final(self).window_ms() == old(self).window_ms(),
            exists|now_ms: u64|
                final(self).recent_restarts() == within_window(
                    old(self).recent_restarts(),
                    now_ms,
                    old(self).window_ms(),
                ).push(now_ms),
            ok == (final(self).recent_restarts().len() <= old(self).max_restarts()),
    {
        let now = millis_since(&self.origin);
        self.record_and_check_at(now)
    }
}

proof fn lemma_within_window_all(ts: Seq<u64>, now_ms: u64, window_ms: u64)
    requires
        forall|i: int| 0 <= i < ts.len() ==> #[trigger] ts[i] <= now_ms && now_ms - ts[i] < window_ms,
    ensures
        within_window(ts, now_ms, window_ms) == ts,
    decreases ts.len(),
{
    if ts.len() > 0 {
        assert forall|i: int| 0 <= i < ts.drop_last().len() implies #[trigger] ts.drop_last()[i]
            <= now_ms && now_ms - ts.drop_last()[i] < window_ms by {
            assert(ts.drop_last()[i] == ts[i]);
        }
        lemma_within_window_all(ts.drop_last(), now_ms, window_ms);
        assert(ts.drop_last().push(ts.last()) =~= ts);
    }
}

proof fn lemma_within_window_none(ts: Seq<u64>, now_ms: u64, window_ms: u64)
    requires
        forall|i: int| 0 <= i < ts.len() ==> #[trigger] ts[i] <= now_ms && now_ms - ts[i] >= window_ms,
    ensures
        within_window(ts, now_ms, window_ms) == Seq::<u64>::empty(),
    decreases ts.len(),
{
    if ts.len() > 0 {
        assert forall|i: int| 0 <= i < ts.drop_last().len() implies #[trigger] ts.drop_last()[i]
            <= now_ms && now_ms - ts.drop_last()[i] >= window_ms by {
            assert(ts.drop_last()[i] == ts[i]);
        }
        lemma_within_window_none(ts.drop_last(), now_ms, window_ms);
    }
}

/// While every remembered restart is still inside the window, each attempt
/// is remembered on top of them: the k-th attempt within one window is
/// within budget exactly when k is at most `max_restarts`.
pub proof fn restarts_within_window_accumulate(recent: Seq<u64>, now_ms: u64, window_ms: u64)
    requires
        forall|i: int|
            0 <= i < recent.len() ==> #[trigger] recent[i] <= now_ms && now_ms - recent[i]
                < window_ms,
    ensures
        within_window(recent, now_ms, window_ms).push(now_ms) == recent.push(now_ms),
{
    lemma_within_window_all(recent, now_ms, window_ms);
}

/// Restarts that have all aged out of the window are forgotten: the next
/// attempt counts as the first again.
pub proof fn restarts_outside_window_are_forgotten(recent: Seq<u64>, now_ms: u64, window_ms: u64)
    requires
        forall|i: int|
            0 <= i < recent.len() ==> #[trigger] recent[i] <= now_ms && now_ms - recent[i]
                >= window_ms,
    ensures
        within_window(recent, now_ms, window_ms).push(now_ms) == seq![now_ms],
{
    lemma_within_window_none(recent, now_ms, window_ms);
    assert(Seq::<u64>::empty().push(now_ms) =~= seq![now_ms]);
}

/// The remembered restarts of a fresh policy after attempts at each of
/// `calls` in turn (every attempt is remembered, whatever it was answered).
pub open spec fn restarts_after(calls: Seq<u64>, window_ms: u64) -> Seq<u64>
    decreases calls.len(),
{
    if calls.len() == 0 {
        Seq::empty()
    } else {
        within_window(restarts_after(calls.drop_last(), window_ms), calls.last(), window_ms).push(
            calls.last(),
        )
    }
}

proof fn lemma_within_window_twice(ts: Seq<u64>, t1: u64, t2: u64, window_ms: u64)
    requires
        t1 <= t2,
        forall|i: int| 0 <= i < ts.len() ==> #[trigger] ts[i] <= t1,
    ensures
        within_window(within_window(ts, t1, window_ms), t2, window_ms) == within_window(
            ts,
            t2,
            window_ms,
        ),
    decreases ts.len(),
{
    if ts.len() > 0 {
        let p = ts.drop_last();
        assert forall|i: int| 0 <= i < p.len() implies #[trigger] p[i] <= t1 by {
            assert(p[i] == ts[i]);
        }
        lemma_within_window_twice(p, t1, t2, window_ms);
        let x = ts.last();
        assert(x <= t1);
        let inner = within_window(p, t1, window_ms);
        if t1 - x < window_ms {
            assert(inner.push(x).drop_last() =~= inner);
        }
    }
}

/// Over any history of attempts at non-decreasing clock readings, the
/// policy remembers exactly the attempts less than a window before the
/// latest one, that one included; so the latest attempt is allowed exactly
/// when at most `max_restarts` attempts fall in the window ending at it,
/// denied attempts counting too. With a budget of zero every attempt is
/// denied; the first attempt of a fresh policy is allowed when the budget
/// is at least one.
pub proof fn restart_budget_over_any_history(calls: Seq<u64>, window_ms: u64, max_restarts: u32)
    requires
        calls.len() > 0,
        window_ms > 0,
        forall|i: int, j: int| 0 <= i <= j < calls.len() ==> calls[i] <= calls[j],
    ensures
        restarts_after(calls, window_ms) == within_window(calls, calls.last(), window_ms),
        restarts_after(calls, window_ms).len() >= 1,
        max_restarts == 0 ==> !(restarts_after(calls, window_ms).len() <= max_restarts),
        calls.len() == 1 ==> (restarts_after(calls, window_ms).len() <= max_restarts
            <==> max_restarts >= 1),
    decreases calls.len(),
{
    let p = calls.drop_last();
    let t = calls.last();
    if p.len() == 0 {
        assert(restarts_after(p, window_ms) =~= Seq::<u64>::empty());
        assert(calls.drop_last() =~= p);
    } else {
        assert forall|i: int, j: int| 0 <= i <= j < p.len() implies p[i] <= p[j] by {
            assert(p[i] == calls[i] && p[j] == calls[j]);
        }
        restart_budget_over_any_history(p, window_ms, max_restarts);
        assert forall|i: int| 0 <= i < p.len() implies #[trigger] p[i] <= p.last() by {
            assert(p[i] == calls[i] && p.last() == calls[p.len() - 1]);
        }
        assert(p.last() <= t) by {
            assert(p.last() == calls[p.len() - 1]);
        }
        lemma_within_window_twice(p, p.last(), t, window_ms);
    }
    assert(calls.drop_last() =~= p);
    assert(within_window(calls, t, window_ms) == within_window(p, t, window_ms).push(t));
}

// ---------------------------------------------------------------------------
// Supervision and the level meter
// ---------------------------------------------------------------------------

/// What a supervisor does about a reported health state.
#[derive(Clone, Copy, Debug, PartialEq, Eq)]
pub enum SupervisorAction {
    /// Report the state; nothing else to do.
    Report,
    /// The source is stale and within its restart budget: restart it.
    Restart,
    /// The source is stale and the budget is spent: report a permanent
    /// failure and stop supervising.
    GiveUp,
}

/// Decides what to do about `state` at clock reading `now_ms`: only a stale
/// source costs a restart attempt, and the budget decides between
/// restarting and giving up.
pub fn supervise_step(policy: &mut RestartPolicy, state: HealthState, now_ms: u64) -> (a:
    SupervisorAction)
    ensures
        state != HealthState::Stale ==> a == SupervisorAction::Report && final(policy).recent_restarts()
            == old(policy).recent_restarts(),
        state == HealthState::Stale ==> {
            &&& final(policy).recent_restarts() == within_window(
                old(policy).recent_restarts(),
                now_ms,
                old(policy).window_ms(),
            ).push(now_ms)
            &&& a == (if final(policy).recent_restarts().len() <= old(policy).max_restarts() {
                SupervisorAction::Restart
            } else {
                SupervisorAction::GiveUp
            })
        },
        final(policy).max_restarts() == old(policy).max_restarts(),
        final(policy).window_ms() == old(policy).window_ms(),
{
    if state != HealthState::Stale {
        return SupervisorAction::Report;
    }
    if policy.record_and_check_at(now_ms) {
        SupervisorAction::Restart
    } else {
        SupervisorAction::GiveUp
    }
}

/// Throttles level-meter events to at most one per interval for each source
/// independently, so one source's frames cannot starve the other's.
#[derive(Clone, Copy, Debug)]
pub struct LevelThrottle {
    interval_ms: u64,
    last_mic_ms: Option<u64>,
    last_system_ms: Option<u64>,
}

impl LevelThrottle {
    pub closed spec fn interval_ms(&self) -> u64 {
        self.interval_ms
    }

    /// When an event was last let through for `source`.
    pub closed spec fn last_emit(&self, source: SourceKind) -> Option<u64> {
        match source {
            SourceKind::Microphone => self.last_mic_ms,
            SourceKind::SystemOutput => self.last_system_ms,
        }
    }

    pub fn new(interval_ms: u64) -> (t: LevelThrottle)
        ensures
            t.interval_ms() == interval_ms,
            t.last_emit(SourceKind::Microphone) == None::<u64>,
            t.last_emit(SourceKind::SystemOutput) == None::<u64>,
    {
        LevelThrottle { interval_ms, last_mic_ms: None, last_system_ms: None }
    }

    /// Whether a frame from `source` at clock reading `now_ms` gets a level
    /// event: yes for the first, then only once the interval has passed
    /// since the last one let through for that same source.
    pub fn should_emit(&mut self, source: SourceKind, now_ms: u64) -> (emit: bool)
        ensures
            final(self).interval_ms() == old(self).interval_ms(),
            emit == match old(self).last_emit(source) {
                None => true,
                Some(t) => now_ms >= t && now_ms - t >= old(self).interval_ms(),
            },
            final(self).last_emit(source) == (if emit {
                Some(now_ms)
            } else {
                old(self).last_emit(source)
            }),
            forall|other: SourceKind|
                other != source ==> #[trigger] final(self).last_emit(other) == old(self).last_emit(
                    other,
                ),
    {
        let last = match source {
            SourceKind::Microphone => self.last_mic_ms,
            SourceKind::SystemOutput => self.last_system_ms,
        };
        let emit = match last {
            None => true,
            Some(t) => now_ms >= t && now_ms - t >= self.interval_ms,
        };
        if emit {
            match source {
                SourceKind::Microphone => self.last_mic_ms = Some(now_ms),
                SourceKind::SystemOutput => self.last_system_ms = Some(now_ms),
            }
        }
        emit
    }
}

} // verus!
