//! Properties of the tracker across its answers: what clearing drops, how a failed save
//! is tried again, and what a pause leaves behind.
use vstd::prelude::*;

use crate::laws::{law_default_settings, setting_keys};
use crate::store::{setting_value, with_default_settings};
use crate::model::AppInfo;
use crate::tracker::{
    flush_spec, foreground_spec, initial_idle_limit, pause_spec, saved_spec, tick_spec, usage_cleared, Step,
    TickContext, Tracker, TrackerAction,
};

verus! {

/// Once the recorded usage is deleted, neither a flush nor the next tick asks to save the
/// span that was being tracked, nor one whose save had failed.
pub proof fn law_cleared_usage_saves_nothing(t: Tracker, now: i64, tick_ns: u64, idle_seconds: u64)
    requires
        t.step is Ready,
    ensures
        flush_spec(usage_cleared(t), now).1 is Done,
        flush_spec(usage_cleared(t), now).0.session.pending_end_at is None,
        !(tick_spec(usage_cleared(t), tick_ns, now, idle_seconds).1 is Save),
{
}

/// A save that fails keeps the end of the span, and the next tick asks to save the same
/// span again with that end.
pub proof fn law_failed_save_is_retried(t: Tracker, now: i64, tick_ns: u64, later: i64, idle_seconds: u64)
    requires
        t.step is Ready,
        t.session.app is Some,
        t.session.pending_end_at is None,
    ensures
        ({
            let (t1, a1) = flush_spec(t, now);
            let (t2, a2) = saved_spec(t1, false);
            &&& a1 == TrackerAction::Save {
                app: t.session.app.unwrap(),
                started_at: t.session.started_at,
                ended_at: now,
            }
            &&& a2 is Done
            &&& t2.step is Ready
            &&& t2.session.app == t.session.app
            &&& t2.session.pending_end_at == Some(now)
            &&& tick_spec(t2, tick_ns, later, idle_seconds).1 == TrackerAction::Save {
                app: t.session.app.unwrap(),
                started_at: t.session.started_at,
                ended_at: now,
            }
        }),
{
}

/// Pausing by hand always leaves the tracker paused and ready, whether or not the save of
/// the span it ends succeeds; the span is gone unless that save failed. Resuming clears
/// both pause flags.
pub proof fn law_pause_and_resume(t: Tracker, now: i64, ok: bool)
    requires
        t.step is Ready,
    ensures
        ({
            let (t1, a1) = pause_spec(t, true, now);
            let t2 = if a1 is Save {
                saved_spec(t1, ok).0
            } else {
                t1
            };
            &&& t2.session.manual_pause
            &&& t2.session.paused
            &&& t2.step is Ready
            &&& (ok || a1 is Done) ==> t2.session.app is None && t2.session.pending_end_at is None
        }),
        !pause_spec(t, false, now).0.session.manual_pause,
        !pause_spec(t, false, now).0.session.paused,
{
}

/// A tracker on a store where no setting was stored allows five minutes (300 seconds) of
/// idleness.
pub proof fn law_default_idle_limit(settings: Seq<(Seq<char>, Seq<char>)>)
    requires
        forall|i: int| 0 <= i < 7 ==> setting_value(settings, #[trigger] setting_keys()[i]) is None,
    ensures
        initial_idle_limit(with_default_settings(settings)) == 300,
{
    law_default_settings(settings);
}

/// When the foreground answer names another application than the one followed (not
/// paused, no failed save waiting), the span of the followed one is saved up to the
/// tick's time, and once saved the new application is followed from that time.
pub proof fn law_switch_saves_until_the_tick(t: Tracker, c: TickContext, cur: AppInfo)
    requires
        t.step == Step::Foreground(c),
        !t.session.paused,
        t.session.app is Some,
        t.session.app.unwrap().executable@ != cur.executable@,
        t.session.pending_end_at is None,
    ensures
        ({
            let (t1, a1) = foreground_spec(t, Some(cur));
            let t2 = saved_spec(t1, true).0;
            &&& a1 == TrackerAction::Save {
                app: t.session.app.unwrap(),
                started_at: t.session.started_at,
                ended_at: c.now,
            }
            &&& t2.session.app == Some(cur)
            &&& t2.session.started_at == c.now
            &&& t2.session.last_checkpoint_at == c.now
            &&& t2.step is Ready
        }),
{
}

} // verus!
