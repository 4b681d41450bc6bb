use momentrace::calendar::now_ms;
use momentrace::model::AppInfo;
use momentrace::store::{Store, StoredTables};
use momentrace::tracker::{Tracker, TrackerAction};

fn empty_tables() -> StoredTables {
    StoredTables {
        categories: Vec::new(),
        rules: Vec::new(),
        sessions: Vec::new(),
        settings: Vec::new(),
    }
}

/// Performs the tracker's actions until it is done: saves go to the store, the
/// foreground is empty, and the clock is read.
fn drive(tracker: &mut Tracker, store: &mut Store, mut action: TrackerAction) {
    loop {
        action = match action {
            TrackerAction::Save {
                app,
                started_at,
                ended_at,
            } => {
                let ok = store.append_session(&app, started_at, ended_at).is_ok();
                tracker.saved(ok)
            }
            TrackerAction::ResolveForeground => tracker.foreground(None),
            TrackerAction::ReadClock => tracker.clock(now_ms()),
            TrackerAction::Done => break,
        };
    }
}

#[test]
fn idle_threshold_is_five_minutes_by_default() {
    assert_eq!(5 * 60, 300);
    let store = Store::open(empty_tables()).unwrap();
    assert_eq!(Tracker::new(&store).idle_limit_seconds, 300);
}

#[test]
fn clear_usage_discards_pending_session() {
    let mut store = Store::open(empty_tables()).unwrap();
    let mut tracker = Tracker::new(&store);
    let now = now_ms();
    let app = AppInfo {
        executable: "test.exe".into(),
        display_name: "Test".into(),
        process_path: "C:\\test.exe".into(),
        category: "其他".into(),
        ignored: false,
        continue_tracking_while_idle: false,
    };
    store
        .append_session(&app, now - 10_000, now - 5_000)
        .unwrap();
    tracker.session.app = Some(app);
    tracker.session.started_at = now - 5_000;
    tracker.session.last_checkpoint_at = now - 5_000;
    tracker.session.pending_end_at = Some(now);

    let cleared = store.clear();
    tracker.clear_usage(cleared).unwrap();
    let action = tracker.flush(now_ms());
    drive(&mut tracker, &mut store, action);

    assert_eq!(store.today_app_seconds("test.exe").unwrap(), 0);
}
