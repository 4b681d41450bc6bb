//! The foreground tracker: what it decides on each tick, on pause, on flush and on
//! clearing, as a machine that asks its host to save spans, to name the foreground
//! application and to read the clock, and is told the answers.
use vstd::prelude::*;

use crate::model::{copy_app, AppInfo, LiveStatus, WidgetStatus};
use crate::store::{settings_from, today_seconds_read, Store};

verus! {

/// The span being tracked.
#[derive(Debug)]
pub struct Session {
    pub app: Option<AppInfo>,
    pub started_at: i64,
    pub last_checkpoint_at: i64,
    pub last_seen_at: i64,
    /// The monotonic time of the last tick, in nanoseconds.
    pub last_tick_ns: Option<u64>,
    pub pending_end_at: Option<i64>,
    pub paused: bool,
    pub manual_pause: bool,
}

/// What a tick read when it started.
#[derive(Clone, Copy, Debug, PartialEq, Eq, Structural)]
pub struct TickContext {
    pub now: i64,
    pub idle_seconds: u64,
    pub idle_limit: u64,
    pub interrupted: bool,
}

/// Where the tracker stands in its work: ready, or waiting for an answer.
#[derive(Debug)]
pub enum Step {
    Ready,
    /// Saving the span whose earlier save failed.
    PendingFinish(TickContext),
    /// Saving the span cut short by an interruption of the ticks.
    InterruptFinish(TickContext),
    /// Saving the span that ended when the user went idle or paused.
    IdleFinish,
    /// Waiting for the foreground application.
    Foreground(TickContext),
    /// Saving the span that ended when no application was in front.
    NoAppFinish,
    /// Saving the span of an application whose ignored flag changed.
    SwitchIgnoredFinish(TickContext, AppInfo),
    /// Waiting for the clock, to checkpoint the current span.
    CheckpointClock,
    /// Saving a checkpoint that ends at the given time.
    CheckpointSave(i64),
    /// Saving the span of the application that left the front.
    SwitchFinish(TickContext, AppInfo),
    /// Saving the span that a manual pause ends.
    PauseFinish,
    /// Saving the span that a flush ends.
    FlushFinish,
}

/// What the tracker asks its host to do next.
#[derive(Debug)]
pub enum TrackerAction {
    /// Record use of `app` from `started_at` to `ended_at`, then answer with `saved`.
    Save { app: AppInfo, started_at: i64, ended_at: i64 },
    /// Name the foreground application (through its rule), then answer with `foreground`.
    ResolveForeground,
    /// Read the clock, then answer with `clock`.
    ReadClock,
    /// Nothing more to do.
    Done,
}

/// The tracker: the span being tracked, the idle limit, and where it stands.
#[derive(Debug)]
pub struct Tracker {
    pub session: Session,
    pub idle_limit_seconds: u64,
    pub step: Step,
    /// The end of the span being saved while a finish waits for its answer.
    pub finishing_at: i64,
}

/// The end a finish uses: that of an earlier failed save, or `ended_at`.
pub open spec fn finish_end(s: Session, ended_at: i64) -> i64 {
    match s.pending_end_at {
        Some(p) => p,
        None => ended_at,
    }
}

/// The session with no span.
pub open spec fn cleared(s: Session) -> Session {
    Session { app: None, started_at: 0, last_checkpoint_at: 0, pending_end_at: None, ..s }
}

/// The tracker with session `s`.
pub open spec fn with_session(t: Tracker, s: Session) -> Tracker {
    Tracker { session: s, ..t }
}

/// The tracker at step `step`.
pub open spec fn at_step(t: Tracker, step: Step) -> Tracker {
    Tracker { step, ..t }
}

/// The tracker with `paused` set.
pub open spec fn paused_now(t: Tracker) -> Tracker {
    Tracker { session: Session { paused: true, ..t.session }, ..t }
}

/// Starts to end the current span at `ended_at` (or at the end of an earlier failed
/// save): with an application, a save is asked and the tracker waits at `next`; without
/// one, the span is cleared at once and no save is asked.
pub open spec fn start_finish(t: Tracker, ended_at: i64, next: Step) -> (Tracker, Option<TrackerAction>) {
    let end = finish_end(t.session, ended_at);
    match t.session.app {
        Some(a) => (
            Tracker { step: next, finishing_at: end, ..t },
            Some(TrackerAction::Save { app: a, started_at: t.session.started_at, ended_at: end }),
        ),
        None => (with_session(t, cleared(t.session)), None),
    }
}

/// Ends a finish with the answer of its save: cleared when saved, or the end kept for
/// the next try when not.
pub open spec fn end_finish(t: Tracker, ok: bool) -> Tracker {
    if ok {
        Tracker { session: cleared(t.session), step: Step::Ready, ..t }
    } else {
        Tracker {
            session: Session { pending_end_at: Some(t.finishing_at), ..t.session },
            step: Step::Ready,
            ..t
        }
    }
}

/// The tracker following `app` from `now`, ready.
pub open spec fn follow(t: Tracker, app: AppInfo, now: i64) -> Tracker {
    Tracker {
        session: Session { app: Some(app), started_at: now, last_checkpoint_at: now, paused: false, ..t.session },
        step: Step::Ready,
        ..t
    }
}

/// The milliseconds of inactivity past the idle limit, capped to `i64::MAX`.
pub open spec fn inactive_ms(idle: u64, limit: u64) -> int {
    let over = if idle > limit {
        idle - limit
    } else {
        0
    };
    if over * 1000 > i64::MAX {
        i64::MAX as int
    } else {
        over * 1000
    }
}

/// The time the user was last active: `now` less the inactivity past the limit,
/// no earlier than `i64::MIN`.
pub open spec fn active_until(now: i64, idle: u64, limit: u64) -> i64 {
    let t = now - inactive_ms(idle, limit);
    if t < i64::MIN {
        i64::MIN
    } else {
        t as i64
    }
}

/// The end of a span cut by an interruption: a second after it was last seen, no later
/// than now and no earlier than its start.
pub open spec fn interrupted_end(s: Session, now: i64) -> i64 {
    let hi = if s.last_seen_at + 1000 < now {
        s.last_seen_at + 1000
    } else {
        now as int
    };
    if hi < s.started_at {
        s.started_at
    } else {
        hi as i64
    }
}

/// The tick after the user was found idle or paused, or after the interruption check.
pub open spec fn after_interrupt(t: Tracker, c: TickContext) -> (Tracker, TrackerAction) {
    let t1 = with_session(t, Session { last_seen_at: c.now, ..t.session });
    if t1.session.manual_pause || c.idle_seconds >= c.idle_limit {
        if !t1.session.paused {
            let (t2, a) = start_finish(t1, active_until(c.now, c.idle_seconds, c.idle_limit), Step::IdleFinish);
            match a {
                Some(x) => (t2, x),
                None => (at_step(paused_now(t2), Step::Ready), TrackerAction::Done),
            }
        } else {
            (at_step(t1, Step::Ready), TrackerAction::Done)
        }
    } else {
        (at_step(t1, Step::Foreground(c)), TrackerAction::ResolveForeground)
    }
}

/// The tick after a pending span is settled: a span cut by an interruption of the ticks
/// ends shortly after it was last seen.
pub open spec fn after_pending(t: Tracker, c: TickContext) -> (Tracker, TrackerAction) {
    if c.interrupted && t.session.app is Some {
        let (t2, a) = start_finish(t, interrupted_end(t.session, c.now), Step::InterruptFinish(c));
        match a {
            Some(x) => (t2, x),
            None => after_interrupt(paused_now(t2), c),
        }
    } else {
        after_interrupt(t, c)
    }
}

/// Whether more than five seconds passed since the last tick.
pub open spec fn was_interrupted(last: Option<u64>, tick_ns: u64) -> bool {
    match last {
        Some(l) => tick_ns - l > 5_000_000_000,
        None => false,
    }
}

/// A tick at monotonic time `tick_ns`, wall time `now`, with the user idle for
/// `idle_seconds`; ignored unless the tracker is ready.
pub open spec fn tick_spec(t: Tracker, tick_ns: u64, now: i64, idle_seconds: u64) -> (Tracker, TrackerAction) {
    if !(t.step is Ready) {
        (t, TrackerAction::Done)
    } else {
        let c = TickContext {
            now,
            idle_seconds,
            idle_limit: t.idle_limit_seconds,
            interrupted: was_interrupted(t.session.last_tick_ns, tick_ns),
        };
        let t1 = with_session(t, Session { last_tick_ns: Some(tick_ns), ..t.session });
        if t1.session.pending_end_at is Some {
            let (t2, a) = start_finish(t1, now, Step::PendingFinish(c));
            match a {
                Some(x) => (t2, x),
                None => after_pending(t2, c),
            }
        } else {
            after_pending(t1, c)
        }
    }
}

/// The answer naming the foreground application (`None` where there is none, or where
/// it is this program); ignored unless the tracker waits for it.
pub open spec fn foreground_spec(t: Tracker, current: Option<AppInfo>) -> (Tracker, TrackerAction) {
    match t.step {
        Step::Foreground(c) => match current {
            None => if !t.session.paused {
                let (t2, a) = start_finish(t, c.now, Step::NoAppFinish);
                match a {
                    Some(x) => (t2, x),
                    None => (at_step(paused_now(t2), Step::Ready), TrackerAction::Done),
                }
            } else {
                (at_step(paused_now(t), Step::Ready), TrackerAction::Done)
            },
            Some(cur) => if !t.session.paused && (t.session.app matches Some(a) && a.executable@
                == cur.executable@) {
                if t.session.app.unwrap().ignored != cur.ignored {
                    let (t2, a) = start_finish(t, c.now, Step::SwitchIgnoredFinish(c, cur));
                    match a {
                        Some(x) => (t2, x),
                        None => (follow(t2, cur, c.now), TrackerAction::Done),
                    }
                } else {
                    (
                        Tracker {
                            session: Session { app: Some(cur), ..t.session },
                            step: Step::CheckpointClock,
                            ..t
                        },
                        TrackerAction::ReadClock,
                    )
                }
            } else {
                let (t2, a) = start_finish(t, c.now, Step::SwitchFinish(c, cur));
                match a {
                    Some(x) => (t2, x),
                    None => (follow(t2, cur, c.now), TrackerAction::Done),
                }
            },
        },
        _ => (t, TrackerAction::Done),
    }
}

/// The answer of the clock for a checkpoint: the span is saved when thirty seconds
/// passed since the last checkpoint; ignored unless the tracker waits for it.
pub open spec fn clock_spec(t: Tracker, now: i64) -> (Tracker, TrackerAction) {
    match t.step {
        Step::CheckpointClock => if now - t.session.last_checkpoint_at < 30000 {
            (at_step(t, Step::Ready), TrackerAction::Done)
        } else {
            match t.session.app {
                Some(a) => (
                    at_step(t, Step::CheckpointSave(now)),
                    TrackerAction::Save { app: a, started_at: t.session.started_at, ended_at: now },
                ),
                None => (at_step(t, Step::Ready), TrackerAction::Done),
            }
        },
        _ => (t, TrackerAction::Done),
    }
}

/// The answer of a save; ignored unless the tracker waits for one.
pub open spec fn saved_spec(t: Tracker, ok: bool) -> (Tracker, TrackerAction) {
    match t.step {
        Step::PendingFinish(c) => {
            let t1 = end_finish(t, ok);
            if ok {
                after_pending(t1, c)
            } else {
                (t1, TrackerAction::Done)
            }
        },
        Step::InterruptFinish(c) => {
            let t1 = end_finish(t, ok);
            if ok {
                after_interrupt(paused_now(t1), c)
            } else {
                (t1, TrackerAction::Done)
            }
        },
        Step::IdleFinish => (paused_now(end_finish(t, ok)), TrackerAction::Done),
        Step::NoAppFinish => (paused_now(end_finish(t, ok)), TrackerAction::Done),
        Step::SwitchIgnoredFinish(c, cur) => {
            let t1 = end_finish(t, ok);
            if ok {
                (
                    Tracker {
                        session: Session { app: Some(cur), started_at: c.now, last_checkpoint_at: c.now, ..t1.session },
                        ..t1
                    },
                    TrackerAction::Done,
                )
            } else {
                (t1, TrackerAction::Done)
            }
        },
        Step::CheckpointSave(n) => if ok {
            (
                Tracker {
                    session: Session { started_at: n, last_checkpoint_at: n, ..t.session },
                    step: Step::Ready,
                    ..t
                },
                TrackerAction::Done,
            )
        } else {
            (at_step(t, Step::Ready), TrackerAction::Done)
        },
        Step::SwitchFinish(c, cur) => {
            let t1 = end_finish(t, ok);
            if ok {
                (follow(t1, cur, c.now), TrackerAction::Done)
            } else {
                (t1, TrackerAction::Done)
            }
        },
        Step::PauseFinish => {
            let t1 = end_finish(t, ok);
            (
                Tracker { session: Session { manual_pause: true, paused: true, ..t1.session }, ..t1 },
                TrackerAction::Done,
            )
        },
        Step::FlushFinish => (end_finish(t, ok), TrackerAction::Done),
        _ => (t, TrackerAction::Done),
    }
}

/// Pausing (the span ends now) or resuming by hand; ignored unless the tracker is ready.
pub open spec fn pause_spec(t: Tracker, paused: bool, now: i64) -> (Tracker, TrackerAction) {
    if !(t.step is Ready) {
        (t, TrackerAction::Done)
    } else if paused {
        let (t2, a) = start_finish(t, now, Step::PauseFinish);
        match a {
            Some(x) => (t2, x),
            None => (
                Tracker { session: Session { manual_pause: true, paused: true, ..t2.session }, ..t2 },
                TrackerAction::Done,
            ),
        }
    } else {
        (with_session(t, Session { manual_pause: false, paused: false, ..t.session }), TrackerAction::Done)
    }
}

/// Ending the current span now; ignored unless the tracker is ready.
pub open spec fn flush_spec(t: Tracker, now: i64) -> (Tracker, TrackerAction) {
    if !(t.step is Ready) {
        (t, TrackerAction::Done)
    } else {
        let (t2, a) = start_finish(t, now, Step::FlushFinish);
        match a {
            Some(x) => (t2, x),
            None => (t2, TrackerAction::Done),
        }
    }
}

/// The tracker once the recorded usage is deleted: no span, none pending, and paused only
/// where it was paused by hand.
pub open spec fn usage_cleared(t: Tracker) -> Tracker {
    Tracker {
        session: Session {
            app: None,
            started_at: 0,
            last_checkpoint_at: 0,
            pending_end_at: None,
            paused: t.session.manual_pause,
            ..t.session
        },
        ..t
    }
}

/// The idle limit of a new tracker: the stored idle minutes, or five minutes where the
/// settings cannot be read.
pub open spec fn initial_idle_limit(settings: Seq<(Seq<char>, Seq<char>)>) -> u64 {
    match settings_from(settings) {
        Some(s) => (s.idle_minutes * 60) as u64,
        None => 300,
    }
}

impl Tracker {
    /// A tracker with no span, ready, with the idle limit of the stored settings.
    pub fn new(store: &Store) -> (r: Tracker)
        ensures
            r.idle_limit_seconds == initial_idle_limit(store@.settings),
            r.session.app is None,
            r.session.started_at == 0,
            r.session.last_checkpoint_at == 0,
            r.session.last_seen_at == 0,
            r.session.last_tick_ns is None,
            r.session.pending_end_at is None,
            !r.session.paused,
            !r.session.manual_pause,
            r.step is Ready,
    {
        let idle_limit: u64 = match store.settings() {
            Ok(s) => s.idle_minutes as u64 * 60,
            Err(_) => 300,
        };
        Tracker {
            session: Session {
                app: None,
                started_at: 0,
                last_checkpoint_at: 0,
                last_seen_at: 0,
                last_tick_ns: None,
                pending_end_at: None,
                paused: false,
                manual_pause: false,
            },
            idle_limit_seconds: idle_limit,
            step: Step::Ready,
            finishing_at: 0,
        }
    }

    /// Whether the tracker waits for no answer.
    pub fn is_ready(&self) -> (r: bool)
        ensures
            r == self.step is Ready,
    {
        match self.step {
            Step::Ready => true,
            _ => false,
        }
    }

    fn start_finish(&mut self, ended_at: i64, next: Step) -> (r: Option<TrackerAction>)
        ensures
            (*final(self), r) == start_finish(*old(self), ended_at, next),
    {
        let end = match self.session.pending_end_at {
            Some(p) => p,
            None => ended_at,
        };
        match &self.session.app {
            Some(a) => {
                let app = copy_app(a);
                self.step = next;
                self.finishing_at = end;
                Some(TrackerAction::Save { app, started_at: self.session.started_at, ended_at: end })
            },
            None => {
                self.session.app = None;
                self.session.started_at = 0;
                self.session.last_checkpoint_at = 0;
                self.session.pending_end_at = None;
                None
            },
        }
    }

    fn end_finish(&mut self, ok: bool)
        ensures
            *final(self) == end_finish(*old(self), ok),
    {
        if ok {
            self.session.app = None;
            self.session.started_at = 0;
            self.session.last_checkpoint_at = 0;
            self.session.pending_end_at = None;
        } else {
            self.session.pending_end_at = Some(self.finishing_at);
        }
        self.step = Step::Ready;
    }

    fn after_interrupt(&mut self, c: TickContext) -> (r: TrackerAction)
        ensures
            (*final(self), r) == after_interrupt(*old(self), c),
    {
        self.session.last_seen_at = c.now;
        if self.session.manual_pause || c.idle_seconds >= c.idle_limit {
            if !self.session.paused {
                let over: u64 = if c.idle_seconds > c.idle_limit {
                    c.idle_seconds - c.idle_limit
                } else {
                    0
                };
                let inactive: i128 = if over as i128 * 1000 > i64::MAX as i128 {
                    i64::MAX as i128
                } else {
                    over as i128 * 1000
                };
                let t: i128 = c.now as i128 - inactive;
                let until: i64 = if t < i64::MIN as i128 {
                    i64::MIN
                } else {
                    t as i64
                };
                match self.start_finish(until, Step::IdleFinish) {
                    Some(x) => x,
                    None => {
                        self.session.paused = true;
                        self.step = Step::Ready;
                        TrackerAction::Done
                    },
                }
            } else {
                self.step = Step::Ready;
                TrackerAction::Done
            }
        } else {
            self.step = Step::Foreground(c);
            TrackerAction::ResolveForeground
        }
    }

    fn after_pending(&mut self, c: TickContext) -> (r: TrackerAction)
        ensures
            (*final(self), r) == after_pending(*old(self), c),
    {
        if c.interrupted && self.session.app.is_some() {
            let hi: i128 = if (self.session.last_seen_at as i128) + 1000 < c.now as i128 {
                self.session.last_seen_at as i128 + 1000
            } else {
                c.now as i128
            };
            let end: i64 = if hi < self.session.started_at as i128 {
                self.session.started_at
            } else {
                hi as i64
            };
            match self.start_finish(end, Step::InterruptFinish(c)) {
                Some(x) => x,
                None => {
                    self.session.paused = true;
                    self.after_interrupt(c)
                },
            }
        } else {
            self.after_interrupt(c)
        }
    }

    /// One tick of tracking (see `tick_spec`): the host performs the action returned and
    /// answers it, until the action is `Done`.
    pub fn tick(&mut self, tick_ns: u64, now: i64, idle_seconds: u64) -> (r: TrackerAction)
        ensures
            (*final(self), r) == tick_spec(*old(self), tick_ns, now, idle_seconds),
    {
        if !self.is_ready() {
            return TrackerAction::Done;
        }
        let interrupted = match self.session.last_tick_ns {
            Some(l) => tick_ns > l && tick_ns - l > 5_000_000_000,
            None => false,
        };
        let c = TickContext { now, idle_seconds, idle_limit: self.idle_limit_seconds, interrupted };
        self.session.last_tick_ns = Some(tick_ns);
        if self.session.pending_end_at.is_some() {
            match self.start_finish(now, Step::PendingFinish(c)) {
                Some(x) => x,
                None => self.after_pending(c),
            }
        } else {
            self.after_pending(c)
        }
    }

    /// The answer naming the foreground application (see `foreground_spec`).
    pub fn foreground(&mut self, current: Option<AppInfo>) -> (r: TrackerAction)
        ensures
            (*final(self), r) == foreground_spec(*old(self), current),
    {
        let c = match self.step {
            Step::Foreground(c) => c,
            _ => return TrackerAction::Done,
        };
        match current {
            None => {
                if !self.session.paused {
                    match self.start_finish(c.now, Step::NoAppFinish) {
                        Some(x) => x,
                        None => {
                            self.session.paused = true;
                            self.step = Step::Ready;
                            TrackerAction::Done
                        },
                    }
                } else {
                    self.session.paused = true;
                    self.step = Step::Ready;
                    TrackerAction::Done
                }
            },
            Some(cur) => {
                let same = match &self.session.app {
                    Some(a) => !self.session.paused && a.executable == cur.executable,
                    None => false,
                };
                if same {
                    let ignored_changed = match &self.session.app {
                        Some(a) => a.ignored != cur.ignored,
                        None => false,
                    };
                    if ignored_changed {
                        let keep = copy_app(&cur);
                        match self.start_finish(c.now, Step::SwitchIgnoredFinish(c, cur)) {
                            Some(x) => x,
                            None => {
                                self.follow(keep, c.now);
                                TrackerAction::Done
                            },
                        }
                    } else {
                        self.session.app = Some(cur);
                        self.step = Step::CheckpointClock;
                        TrackerAction::ReadClock
                    }
                } else {
                    let keep = copy_app(&cur);
                    match self.start_finish(c.now, Step::SwitchFinish(c, cur)) {
                        Some(x) => x,
                        None => {
                            self.follow(keep, c.now);
                            TrackerAction::Done
                        },
                    }
                }
            },
        }
    }

    fn follow(&mut self, app: AppInfo, now: i64)
        ensures
            *final(self) == follow(*old(self), app, now),
    {
        self.session.app = Some(app);
        self.session.started_at = now;
        self.session.last_checkpoint_at = now;
        self.session.paused = false;
        self.step = Step::Ready;
    }

    /// The answer of the clock (see `clock_spec`).
    pub fn clock(&mut self, now: i64) -> (r: TrackerAction)
        ensures
            (*final(self), r) == clock_spec(*old(self), now),
    {
        match self.step {
            Step::CheckpointClock => {},
            _ => return TrackerAction::Done,
        }
        if (now as i128) - (self.session.last_checkpoint_at as i128) < 30000 {
            self.step = Step::Ready;
            return TrackerAction::Done;
        }
        match &self.session.app {
            Some(a) => {
                let app = copy_app(a);
                self.step = Step::CheckpointSave(now);
                TrackerAction::Save { app, started_at: self.session.started_at, ended_at: now }
            },
            None => {
                self.step = Step::Ready;
                TrackerAction::Done
            },
        }
    }

    /// The answer of a save (see `saved_spec`).
    pub fn saved(&mut self, ok: bool) -> (r: TrackerAction)
        ensures
            (*final(self), r) == saved_spec(*old(self), ok),
    {
        match &self.step {
            Step::PendingFinish(c) => {
                let c = *c;
                self.end_finish(ok);
                if ok {
                    self.after_pending(c)
                } else {
                    TrackerAction::Done
                }
            },
            Step::InterruptFinish(c) => {
                let c = *c;
                self.end_finish(ok);
                if ok {
                    self.session.paused = true;
                    self.after_interrupt(c)
                } else {
                    TrackerAction::Done
                }
            },
            Step::IdleFinish | Step::NoAppFinish => {
                self.end_finish(ok);
                self.session.paused = true;
                TrackerAction::Done
            },
            Step::SwitchIgnoredFinish(c, cur) => {
                let c = *c;
                let cur = copy_app(cur);
                self.end_finish(ok);
                if ok {
                    self.session.app = Some(cur);
                    self.session.started_at = c.now;
                    self.session.last_checkpoint_at = c.now;
                }
                TrackerAction::Done
            },
            Step::CheckpointSave(n) => {
                let n = *n;
                if ok {
                    self.session.started_at = n;
                    self.session.last_checkpoint_at = n;
                }
                self.step = Step::Ready;
                TrackerAction::Done
            },
            Step::SwitchFinish(c, cur) => {
                let c = *c;
                let cur = copy_app(cur);
                self.end_finish(ok);
                if ok {
                    self.follow(cur, c.now);
                }
                TrackerAction::Done
            },
            Step::PauseFinish => {
                self.end_finish(ok);
                self.session.manual_pause = true;
                self.session.paused = true;
                TrackerAction::Done
            },
            Step::FlushFinish => {
                self.end_finish(ok);
                TrackerAction::Done
            },
            _ => TrackerAction::Done,
        }
    }

    /// Pauses (ending the span at `now`) or resumes tracking by hand (see `pause_spec`).
    pub fn set_manual_pause(&mut self, paused: bool, now: i64) -> (r: TrackerAction)
        ensures
            (*final(self), r) == pause_spec(*old(self), paused, now),
    {
        if !self.is_ready() {
            return TrackerAction::Done;
        }
        if paused {
            match self.start_finish(now, Step::PauseFinish) {
                Some(x) => x,
                None => {
                    self.session.manual_pause = true;
                    self.session.paused = true;
                    TrackerAction::Done
                },
            }
        } else {
            self.session.manual_pause = false;
            self.session.paused = false;
            TrackerAction::Done
        }
    }

    /// Ends the current span at `now` (see `flush_spec`).
    pub fn flush(&mut self, now: i64) -> (r: TrackerAction)
        ensures
            (*final(self), r) == flush_spec(*old(self), now),
    {
        if !self.is_ready() {
            return TrackerAction::Done;
        }
        match self.start_finish(now, Step::FlushFinish) {
            Some(x) => x,
            None => TrackerAction::Done,
        }
    }

    /// Sets the idle limit to `minutes` (kept from 1 to 120) minutes.
    pub fn set_idle_minutes(&mut self, minutes: u32)
        ensures
            final(self).idle_limit_seconds == (if minutes < 1 {
                1
            } else if minutes > 120 {
                120
            } else {
                minutes
            }) * 60,
            final(self).session == old(self).session,
            final(self).step == old(self).step,
            final(self).finishing_at == old(self).finishing_at,
    {
        let m: u64 = if minutes < 1 {
            1
        } else if minutes > 120 {
            120
        } else {
            minutes as u64
        };
        self.idle_limit_seconds = m * 60;
    }

    /// After the recorded usage was deleted (`cleared` is the outcome of deleting it), drops
    /// the current span, and any pending one: the tracker pauses only where it was paused
    /// by hand. Where deleting failed, nothing changes and the error is returned.
    pub fn clear_usage(&mut self, cleared: Result<(), String>) -> (r: Result<(), String>)
        ensures
            r == cleared,
            cleared is Err ==> *final(self) == *old(self),
            cleared is Ok ==> *final(self) == usage_cleared(*old(self)),
    {
        if cleared.is_ok() {
            self.session.app = None;
            self.session.started_at = 0;
            self.session.last_checkpoint_at = 0;
            self.session.pending_end_at = None;
            self.session.paused = self.session.manual_pause;
        }
        cleared
    }

    /// What the tracker is doing, with the user idle for `idle_seconds`.
    pub fn status(&self, idle_seconds: u64) -> (r: LiveStatus)
        ensures
            r.tracking == !self.session.manual_pause,
            r.paused == self.session.paused,
            r.idle_seconds == idle_seconds,
            r.current_app == self.session.app,
    {
        LiveStatus {
            tracking: !self.session.manual_pause,
            paused: self.session.paused,
            idle_seconds,
            current_app: match &self.session.app {
                Some(a) => Some(copy_app(a)),
                None => None,
            },
        }
    }

    /// What the widget shows at wall time `now`: for an application tracked right now (not
    /// paused, not ignored), its seconds today, as `store` reads them, plus those of the
    /// current span (see `widget_status_from`). The day is today by the machine's clock;
    /// whatever the store's reading gives, the result is what `widget_status_from` makes of
    /// it, and an error of the reading is passed on unchanged.
    pub fn widget_status(&self, store: &Store, now: i64, idle_seconds: u64) -> (r: Result<WidgetStatus, String>)
        ensures
            exists|today: Result<i64, String>| (tracked_app(*self) matches Some(a) ==> today_seconds_read(
                store@,
                a.executable@,
                today,
            )) && #[trigger] widget_outcome(*self, today, now, idle_seconds, r),
    {
        let today = match &self.session.app {
            Some(a) => {
                if !self.session.paused && !a.ignored {
                    store.today_app_seconds(a.executable.as_str())
                } else {
                    Ok(0)
                }
            },
            None => Ok(0),
        };
        let r = self.widget_status_from(today, now, idle_seconds);
        assert(widget_outcome(*self, today, now, idle_seconds, r));
        r
    }

    /// What the widget shows at wall time `now`, given `today`, the tracked application's
    /// seconds today as the store read them (used only where an application is tracked):
    /// where one is tracked, those seconds plus the seconds of the current span, or the
    /// reading's error unchanged, or an error where the sum does not fit in an `i64`.
    pub fn widget_status_from(&self, today: Result<i64, String>, now: i64, idle_seconds: u64) -> (r: Result<WidgetStatus, String>)
        ensures
            widget_outcome(*self, today, now, idle_seconds, r),
    {
        let current_app = match &self.session.app {
            Some(a) => Some(copy_app(a)),
            None => None,
        };
        let seconds = match &self.session.app {
            Some(a) => {
                if !self.session.paused && !a.ignored {
                    let today = today?;
                    let span: i128 = now as i128 - self.session.started_at as i128;
                    let extra: i128 = if span > 0 {
                        span / 1000
                    } else {
                        0
                    };
                    let total: i128 = today as i128 + extra;
                    if total > i64::MAX as i128 || total < i64::MIN as i128 {
                        return Err(crate::usage::overflow_error());
                    }
                    Some(total as i64)
                } else {
                    None
                }
            },
            None => None,
        };
        Ok(WidgetStatus {
            tracking: !self.session.manual_pause,
            paused: self.session.paused,
            idle_seconds,
            current_app,
            current_app_seconds: seconds,
        })
    }
}

/// The application the tracker is tracking right now: one it follows, not paused, not
/// ignored.
pub open spec fn tracked_app(t: Tracker) -> Option<AppInfo> {
    match t.session.app {
        Some(a) => if !t.session.paused && !a.ignored {
            Some(a)
        } else {
            None
        },
        None => None,
    }
}

/// The whole seconds of the current span at wall time `now`, nothing where it has not
/// begun.
pub open spec fn span_seconds_at(now: i64, started_at: i64) -> int {
    if now - started_at > 0 {
        (now - started_at) / 1000
    } else {
        0
    }
}

/// Whether `w` shows the tracker's state: tracking unless paused by hand, paused, idle
/// time, the followed application.
pub open spec fn widget_fields(t: Tracker, idle_seconds: u64, w: WidgetStatus) -> bool {
    &&& w.tracking == !t.session.manual_pause
    &&& w.paused == t.session.paused
    &&& w.idle_seconds == idle_seconds
    &&& w.current_app == t.session.app
}

/// What the widget shows at wall time `now`, given today's reading `today` of the tracked
/// application's seconds.
pub open spec fn widget_outcome(
    t: Tracker,
    today: Result<i64, String>,
    now: i64,
    idle_seconds: u64,
    r: Result<WidgetStatus, String>,
) -> bool {
    match tracked_app(t) {
        Some(a) => match today {
            Err(e) => r == Err::<WidgetStatus, String>(e),
            Ok(v) => {
                let total = v + span_seconds_at(now, t.session.started_at);
                if i64::MIN <= total <= i64::MAX {
                    r matches Ok(w) && widget_fields(t, idle_seconds, w) && w.current_app_seconds == Some(total as i64)
                } else {
                    r matches Err(e) && e@ == "integer overflow"@
                }
            },
        },
        None => r matches Ok(w) && widget_fields(t, idle_seconds, w) && w.current_app_seconds is None,
    }
}

} // verus!
