use base64::{engine::general_purpose::STANDARD, Engine};
use chrono::{Local, TimeZone, Utc};
use momentrace::calendar::Date;
use momentrace::icon::{bgra_to_rgba, encode_icon, icon_path_checked, png_data_url};
use momentrace::model::{AppInfo, AppRulePatch, SessionRow, Settings};
use momentrace::sorting::{sort_positions, SortKey};
use momentrace::store::{normalize_color, normalize_font_family, Store, StoredTables};
use momentrace::tracker::{Tracker, TrackerAction};
use momentrace::widget::{position_in_range, widget_menu_label, widget_position, Rect};

fn empty_tables() -> StoredTables {
    StoredTables {
        categories: Vec::new(),
        rules: Vec::new(),
        sessions: Vec::new(),
        settings: Vec::new(),
    }
}

fn fresh_store() -> Store {
    Store::open(empty_tables()).unwrap()
}

fn local_ms(year: i32, month: u32, day: u32, hour: u32, minute: u32, second: u32) -> i64 {
    Local
        .with_ymd_and_hms(year, month, day, hour, minute, second)
        .single()
        .unwrap()
        .with_timezone(&Utc)
        .timestamp_millis()
}

fn app(executable: &str, name: &str) -> AppInfo {
    AppInfo {
        executable: executable.into(),
        display_name: name.into(),
        process_path: format!("C:\\{executable}"),
        category: "其他".into(),
        ignored: false,
        continue_tracking_while_idle: false,
    }
}

fn store_with_sessions(rows: &[(&str, &str, &str, i64, i64)]) -> Store {
    let mut tables = fresh_store().tables();
    for (index, (executable, name, path, start, end)) in rows.iter().enumerate() {
        tables.sessions.push(SessionRow {
            id: index as i64 + 1,
            executable: (*executable).into(),
            display_name: (*name).into(),
            process_path: (*path).into(),
            started_at: *start,
            ended_at: *end,
        });
    }
    Store::open(tables).unwrap()
}

#[test]
fn opening_seeds_default_categories_and_settings() {
    let store = fresh_store();
    let names: Vec<String> = store
        .categories()
        .unwrap()
        .into_iter()
        .map(|c| c.name)
        .collect();
    assert_eq!(names, ["工作", "学习", "沟通", "娱乐", "工具"]);
    let ids: Vec<i64> = store.categories().unwrap().iter().map(|c| c.id).collect();
    assert_eq!(ids, [1, 2, 3, 4, 5]);
    let settings = store.settings().unwrap();
    assert_eq!(
        settings,
        Settings {
            idle_minutes: 5,
            launch_at_login: false,
            show_widget: true,
            font_family: "classic".into(),
            widget_height: 64,
            widget_x_offset: 0,
            widget_y_offset: 0,
        }
    );
}

#[test]
fn reopening_does_not_seed_deleted_defaults_again() {
    let mut store = fresh_store();
    store.delete_category(1).unwrap();
    let reopened = Store::open(store.tables()).unwrap();
    assert_eq!(reopened.categories().unwrap().len(), 4);
    assert!(!reopened
        .categories()
        .unwrap()
        .iter()
        .any(|c| c.name == "工作"));
}

#[test]
fn open_refuses_a_session_that_ends_before_it_starts() {
    let mut tables = empty_tables();
    tables.sessions.push(SessionRow {
        id: 1,
        executable: "a.exe".into(),
        display_name: "A".into(),
        process_path: "C:\\a.exe".into(),
        started_at: 2_000,
        ended_at: 1_000,
    });
    assert!(Store::open(tables).is_err());
}

#[test]
fn open_refuses_two_categories_with_one_name() {
    let mut tables = empty_tables();
    for id in [1, 2] {
        tables.categories.push(momentrace::model::Category {
            id,
            name: "Games".into(),
            color: "#000000".into(),
        });
    }
    assert_eq!(
        Store::open(tables).err().unwrap(),
        "UNIQUE constraint failed: categories.name"
    );
}

#[test]
fn open_drops_the_reserved_category_and_clears_its_rules() {
    let mut tables = empty_tables();
    tables.categories.push(momentrace::model::Category {
        id: 7,
        name: "其他".into(),
        color: "#000000".into(),
    });
    tables.rules.push(momentrace::model::AppRule {
        executable: "a.exe".into(),
        display_name: "A".into(),
        process_path: "C:\\a.exe".into(),
        category_id: Some(7),
        ignored: false,
        continue_tracking_while_idle: true,
    });
    let store = Store::open(tables).unwrap();
    let categories = store.categories().unwrap();
    assert!(categories.iter().all(|c| c.name != "其他" && c.id != 7));
    let rules = store.rules().unwrap();
    assert_eq!(rules.len(), 1);
    assert_eq!(rules[0].category_id, None);
    assert!(rules[0].continue_tracking_while_idle);
}

#[test]
fn settings_read_back_within_their_ranges() {
    let mut store = fresh_store();
    let mut settings = store.settings().unwrap();
    settings.idle_minutes = 0;
    settings.launch_at_login = true;
    settings.show_widget = false;
    settings.font_family = "sans".into();
    settings.widget_height = 10;
    settings.widget_x_offset = 250;
    settings.widget_y_offset = -37;
    store.update_settings(&settings).unwrap();
    let read = store.settings().unwrap();
    assert_eq!(read.idle_minutes, 1);
    assert!(read.launch_at_login);
    assert!(!read.show_widget);
    assert_eq!(read.font_family, "sans");
    assert_eq!(read.widget_height, 48);
    assert_eq!(read.widget_x_offset, 250);
    assert_eq!(read.widget_y_offset, -37);

    settings.idle_minutes = 500;
    store.update_settings(&settings).unwrap();
    assert_eq!(store.settings().unwrap().idle_minutes, 120);
}

#[test]
fn unparsable_stored_settings_fall_back_to_defaults() {
    let mut tables = fresh_store().tables();
    for row in tables.settings.iter_mut() {
        if row.key == "idle_minutes" || row.key == "widget_height" || row.key == "widget_x_offset" {
            row.value = "not a number".into();
        }
        if row.key == "widget_y_offset" {
            row.value = "99999".into();
        }
    }
    let store = Store::open(tables).unwrap();
    let settings = store.settings().unwrap();
    assert_eq!(settings.idle_minutes, 5);
    assert_eq!(settings.widget_height, 64);
    assert_eq!(settings.widget_x_offset, 0);
    assert_eq!(settings.widget_y_offset, 1000);
}

#[test]
fn font_families_normalize_to_three_names() {
    assert_eq!(normalize_font_family("serif"), "serif");
    assert_eq!(normalize_font_family("sans"), "sans");
    assert_eq!(normalize_font_family("Serif"), "classic");
    assert_eq!(normalize_font_family(""), "classic");
    assert_eq!(normalize_font_family(normalize_font_family("mono")), "classic");
}

#[test]
fn colors_are_trimmed_and_upper_cased() {
    assert_eq!(normalize_color("  #abcdef \n").unwrap(), "#ABCDEF");
    assert_eq!(normalize_color("#ABCDEF").unwrap(), "#ABCDEF");
    assert_eq!(normalize_color("#0a1B2c").unwrap(), "#0A1B2C");
    let once = normalize_color(" #a0b1c2").unwrap();
    assert_eq!(normalize_color(&once).unwrap(), once);
    assert_eq!(
        normalize_color("#abcdeg").unwrap_err(),
        "分类颜色必须是 #RRGGBB 格式"
    );
    assert!(normalize_color("abcdef1").is_err());
    assert!(normalize_color("#abcdef0").is_err());
    assert!(normalize_color("").is_err());
}

#[test]
fn category_names_are_checked() {
    let mut store = fresh_store();
    assert_eq!(
        store.create_category("   ", "#000000").unwrap_err(),
        "分类名称需要包含 1 至 20 个字符"
    );
    assert_eq!(
        store
            .create_category("abcdefghijklmnopqrstu", "#000000")
            .unwrap_err(),
        "分类名称需要包含 1 至 20 个字符"
    );
    assert!(store
        .create_category("一二三四五六七八九十一二三四五六七八九十", "#000000")
        .is_ok());
    assert_eq!(
        store.create_category(" 其他 ", "#000000").unwrap_err(),
        "“其他”是未分类应用的保留名称"
    );
    let work = store.create_category("  Work ", "#00ff00").unwrap();
    assert_eq!(work.name, "Work");
    assert_eq!(work.color, "#00FF00");
    assert_eq!(work.id, 7);
    assert_eq!(
        store.create_category("wORK", "#111111").unwrap_err(),
        "分类名称已存在"
    );
    assert_eq!(
        store.create_category("Work", "red").unwrap_err(),
        "分类颜色必须是 #RRGGBB 格式"
    );
}

#[test]
fn deleting_a_missing_category_fails() {
    let mut store = fresh_store();
    assert_eq!(store.delete_category(42).unwrap_err(), "分类不存在");
    assert_eq!(store.categories().unwrap().len(), 5);
}

#[test]
fn deleted_category_leaves_its_applications_uncategorized() {
    let mut store = fresh_store();
    store.rule_for("a.exe", "A", "C:\\a.exe").unwrap();
    store
        .update_rule(
            "a.exe",
            &AppRulePatch {
                display_name: None,
                category_id: Some(2),
                category_id_changed: true,
                ignored: None,
                continue_tracking_while_idle: None,
            },
        )
        .unwrap();
    assert_eq!(store.rule_for("a.exe", "A", "C:\\a.exe").unwrap().category, "学习");
    store.delete_category(2).unwrap();
    assert_eq!(store.rules().unwrap()[0].category_id, None);
    assert_eq!(store.rule_for("a.exe", "A", "C:\\a.exe").unwrap().category, "其他");
    assert!(store.categories().unwrap().iter().all(|c| c.id != 2));
}

#[test]
fn rule_updates_are_checked() {
    let mut store = fresh_store();
    let patch = AppRulePatch {
        display_name: None,
        category_id: None,
        category_id_changed: false,
        ignored: Some(true),
        continue_tracking_while_idle: None,
    };
    assert_eq!(
        store.update_rule("missing.exe", &patch).unwrap_err(),
        "Query returned no rows"
    );
    store.rule_for("a.exe", "A", "C:\\a.exe").unwrap();
    let blank = AppRulePatch {
        display_name: Some("  ".into()),
        ..patch.clone()
    };
    assert_eq!(
        store.update_rule("a.exe", &blank).unwrap_err(),
        "应用名称需要包含 1 至 48 个字符"
    );
    let unknown_category = AppRulePatch {
        category_id: Some(99),
        category_id_changed: true,
        ..patch.clone()
    };
    assert_eq!(
        store.update_rule("a.exe", &unknown_category).unwrap_err(),
        "FOREIGN KEY constraint failed"
    );
    let renamed = AppRulePatch {
        display_name: Some("  Alpha  ".into()),
        ..patch
    };
    store.update_rule("a.exe", &renamed).unwrap();
    let rule = &store.rules().unwrap()[0];
    assert_eq!(rule.display_name, "Alpha");
    assert!(rule.ignored);
}

#[test]
fn rules_are_listed_by_name_ignoring_case() {
    let mut store = fresh_store();
    store.rule_for("c.exe", "charlie", "C:\\c.exe").unwrap();
    store.rule_for("a.exe", "Bravo", "C:\\a.exe").unwrap();
    store.rule_for("b.exe", "alpha", "C:\\b.exe").unwrap();
    let names: Vec<String> = store
        .rules()
        .unwrap()
        .into_iter()
        .map(|r| r.display_name)
        .collect();
    assert_eq!(names, ["alpha", "Bravo", "charlie"]);
}

#[test]
fn appended_spans_join_only_when_contiguous() {
    let mut store = fresh_store();
    let a = app("a.exe", "A");
    store.append_session(&a, 1_000, 2_000).unwrap();
    store.append_session(&a, 2_000, 3_000).unwrap();
    let sessions = store.tables().sessions;
    assert_eq!(sessions.len(), 1);
    assert_eq!((sessions[0].started_at, sessions[0].ended_at), (1_000, 3_000));

    store.append_session(&a, 3_500, 4_000).unwrap();
    assert_eq!(store.tables().sessions.len(), 2);

    store.append_session(&a, 5_000, 5_000).unwrap();
    let mut ignored = app("a.exe", "A");
    ignored.ignored = true;
    store.append_session(&ignored, 4_000, 9_000).unwrap();
    let sessions = store.tables().sessions;
    assert_eq!(sessions.len(), 2);
    let covered: i64 = sessions.iter().map(|s| s.ended_at - s.started_at).sum();
    assert_eq!(covered, 2_500);
    assert_eq!(sessions[1].id, 2);
}

#[test]
fn clearing_removes_every_session() {
    let mut store = fresh_store();
    store.append_session(&app("a.exe", "A"), 1_000, 2_000).unwrap();
    store.rule_for("a.exe", "A", "C:\\a.exe").unwrap();
    store.clear().unwrap();
    assert!(store.tables().sessions.is_empty());
    assert_eq!(store.rules().unwrap().len(), 1);
}

#[test]
fn icon_paths_skip_blanks_and_repeats() {
    let store = store_with_sessions(&[
        ("x.exe", "X", "C:\\one\\x.exe", 1_000, 2_000),
        ("x.exe", "X", "   ", 3_000, 4_000),
        ("x.exe", "X", "C:\\one\\x.exe", 5_000, 6_000),
        ("x.exe", "X", "C:\\two\\x.exe", 2_000, 2_500),
        ("y.exe", "Y", "C:\\y.exe", 7_000, 8_000),
    ]);
    assert_eq!(
        store.icon_paths("x.exe").unwrap(),
        ["C:\\one\\x.exe", "C:\\two\\x.exe"]
    );
    assert!(store.icon_paths("z.exe").unwrap().is_empty());
}

#[test]
fn reports_group_by_category_and_order_by_time() {
    let start = local_ms(2026, 3, 2, 9, 0, 0);
    let mut store = store_with_sessions(&[
        ("a.exe", "A", "C:\\a.exe", start, start + 30_000),
        ("b.exe", "B", "C:\\b.exe", start + 60_000, start + 150_000),
        ("c.exe", "C", "C:\\c.exe", start + 200_000, start + 210_000),
    ]);
    store.rule_for("a.exe", "A", "C:\\a.exe").unwrap();
    store.rule_for("c.exe", "C", "C:\\c.exe").unwrap();
    let to_work = AppRulePatch {
        display_name: None,
        category_id: Some(1),
        category_id_changed: true,
        ignored: None,
        continue_tracking_while_idle: None,
    };
    store.update_rule("a.exe", &to_work).unwrap();
    store.update_rule("c.exe", &to_work).unwrap();

    let summary = store.day_summary("2026-03-02").unwrap();
    assert_eq!(summary.date, "2026-03-02");
    assert_eq!(summary.total_seconds, 130);
    let categories: Vec<(String, i64, Option<String>)> = summary
        .categories
        .iter()
        .map(|c| (c.name.clone(), c.seconds, c.color.clone()))
        .collect();
    assert_eq!(
        categories,
        [
            ("其他".to_string(), 90, Some("#8391A5".to_string())),
            ("工作".to_string(), 40, Some("#6E8CFF".to_string())),
        ]
    );
    let applications: Vec<(String, i64)> = summary
        .applications
        .iter()
        .map(|a| (a.name.clone(), a.seconds))
        .collect();
    assert_eq!(
        applications,
        [("B".to_string(), 90), ("A".to_string(), 30), ("C".to_string(), 10)]
    );
    assert_eq!(summary.applications[0].executable.as_deref(), Some("b.exe"));
    assert_eq!(summary.hours.len(), 1);
    assert_eq!(summary.hours[0].name, "09:00");
    assert_eq!(summary.hours[0].seconds, 130);
}

#[test]
fn application_lines_use_the_rule_name() {
    let start = local_ms(2026, 3, 2, 9, 0, 0);
    let mut store = store_with_sessions(&[("a.exe", "A", "C:\\a.exe", start, start + 5_000)]);
    store.rule_for("a.exe", "A", "C:\\new\\a.exe").unwrap();
    store
        .update_rule(
            "a.exe",
            &AppRulePatch {
                display_name: Some("Alpha".into()),
                category_id: None,
                category_id_changed: false,
                ignored: None,
                continue_tracking_while_idle: None,
            },
        )
        .unwrap();
    let all = store.all_summary().unwrap();
    assert_eq!(all.applications.len(), 1);
    assert_eq!(all.applications[0].name, "Alpha");
    assert_eq!(all.applications[0].seconds, 5);
    assert_eq!(
        all.applications[0].process_path.as_deref(),
        Some("C:\\new\\a.exe")
    );
}

#[test]
fn range_summary_errors() {
    let store = fresh_store();
    assert_eq!(
        store.range_summary("2026-07-15", "2026-07-14").unwrap_err(),
        "End date must not be before start date"
    );
    assert_eq!(
        store.range_summary("2000-01-01", "2010-12-31").unwrap_err(),
        "Date range must not exceed 10 years"
    );
    assert!(store.range_summary("2000-01-01", "2010-01-07").is_ok());
    assert!(store.range_summary("2026-13-01", "2026-13-02").is_err());
    assert!(store.range_summary("yesterday", "2026-01-02").is_err());
    assert!(store.day_summary("2026-02-30").is_err());
}

#[test]
fn range_days_across_years_carry_the_year() {
    let store = store_with_sessions(&[
        ("a.exe", "A", "C:\\a.exe", local_ms(2025, 12, 31, 12, 0, 0), local_ms(2025, 12, 31, 12, 0, 10)),
        ("a.exe", "A", "C:\\a.exe", local_ms(2026, 1, 1, 12, 0, 0), local_ms(2026, 1, 1, 12, 0, 20)),
    ]);
    let summary = store.range_summary("2025-12-30", "2026-01-02").unwrap();
    let days: Vec<(String, i64)> = summary
        .days
        .iter()
        .map(|d| (d.name.clone(), d.seconds))
        .collect();
    assert_eq!(
        days,
        [("2025/12/31".to_string(), 10), ("2026/01/01".to_string(), 20)]
    );
    assert_eq!(summary.categories[0].seconds, 30);
}

#[test]
fn empty_store_reports_nothing() {
    let store = fresh_store();
    let all = store.all_summary().unwrap();
    assert!(all.months.is_empty());
    assert!(all.categories.is_empty());
    assert!(all.applications.is_empty());
    let day = store.day_summary("2026-01-01").unwrap();
    assert_eq!(day.total_seconds, 0);
    assert!(day.hours.is_empty());
    assert_eq!(store.today_app_seconds("a.exe").unwrap(), 0);
}

#[test]
fn sort_positions_is_stable_and_ordered() {
    let keys = vec![
        SortKey { first: 3, second: 0, text1: vec![], text2: vec![] },
        SortKey { first: 1, second: 0, text1: vec!['b'], text2: vec![] },
        SortKey { first: 1, second: 0, text1: vec!['a'], text2: vec![] },
        SortKey { first: 1, second: 0, text1: vec!['a'], text2: vec![] },
    ];
    assert_eq!(sort_positions(&keys), [2, 3, 1, 0]);
}

#[test]
fn pixels_swap_blue_and_red() {
    let mut pixels = vec![1, 2, 3, 4, 5, 6, 7, 8, 9];
    bgra_to_rgba(&mut pixels);
    assert_eq!(pixels, [3, 2, 1, 4, 7, 6, 5, 8, 9]);
}

#[test]
fn icons_encode_as_png_data_urls() {
    let mut pixels = Vec::new();
    for _ in 0..64 * 64 {
        pixels.extend_from_slice(&[10, 20, 30, 255]);
    }
    let url = encode_icon(pixels).unwrap();
    let prefix = "data:image/png;base64,";
    assert!(url.starts_with(prefix));
    let png = STANDARD.decode(&url[prefix.len()..]).unwrap();
    assert_eq!(&png[..8], &[0x89, b'P', b'N', b'G', 0x0d, 0x0a, 0x1a, 0x0a]);
    let image = image::load_from_memory(&png).unwrap().to_rgba8();
    assert_eq!(image.dimensions(), (64, 64));
    assert_eq!(image.get_pixel(0, 0).0, [30, 20, 10, 255]);
    assert!(encode_icon(vec![0; 100]).is_err());
}

#[test]
fn widget_sits_on_a_bottom_taskbar() {
    let monitor = Rect { left: 0, top: 0, right: 1920, bottom: 1080 };
    let work = Rect { left: 0, top: 0, right: 1920, bottom: 1032 };
    assert!(position_in_range(monitor, work, 40, 5, -3));
    assert_eq!(widget_position(monitor, work, 40, 5, -3), (5, 1032 + 4 - 12 - 3));
    let top_work = Rect { left: 0, top: 48, right: 1920, bottom: 1080 };
    assert_eq!(widget_position(monitor, top_work, 64, 0, 0), (0, 12));
    assert_eq!(widget_position(monitor, monitor, 64, 0, 0), (0, 1080 - 64 - 12));
    let shifted = Rect { left: 10, ..work };
    assert!(!position_in_range(monitor, shifted, 40, i32::MAX, 0));
    assert_eq!(widget_menu_label(true), "关闭悬浮窗");
    assert_eq!(widget_menu_label(false), "显示悬浮窗");
}

fn empty_session_tracker(store: &Store) -> Tracker {
    Tracker::new(store)
}

#[test]
fn failed_save_is_retried_with_the_same_end() {
    let store = fresh_store();
    let mut tracker = empty_session_tracker(&store);
    tracker.session.app = Some(app("a.exe", "A"));
    tracker.session.started_at = 1_000;
    let first = tracker.flush(5_000);
    match first {
        TrackerAction::Save { started_at, ended_at, .. } => assert_eq!((started_at, ended_at), (1_000, 5_000)),
        _ => panic!("expected a save"),
    }
    assert!(matches!(tracker.saved(false), TrackerAction::Done));
    assert_eq!(tracker.session.pending_end_at, Some(5_000));
    let retry = tracker.tick(1, 9_000, 0);
    match retry {
        TrackerAction::Save { app, started_at, ended_at } => {
            assert_eq!(app.executable, "a.exe");
            assert_eq!((started_at, ended_at), (1_000, 5_000));
        }
        _ => panic!("expected the save again"),
    }
    assert!(matches!(tracker.saved(true), TrackerAction::ResolveForeground));
    assert_eq!(tracker.session.pending_end_at, None);
    assert!(tracker.session.app.is_none());
}

#[test]
fn pausing_ends_the_span_and_resuming_tracks_again() {
    let mut store = fresh_store();
    let mut tracker = empty_session_tracker(&store);
    tracker.session.app = Some(app("a.exe", "A"));
    tracker.session.started_at = 1_000;
    let action = tracker.set_manual_pause(true, 4_000);
    match action {
        TrackerAction::Save { app, started_at, ended_at } => {
            store.append_session(&app, started_at, ended_at).unwrap();
            assert!(matches!(tracker.saved(true), TrackerAction::Done));
        }
        _ => panic!("expected a save"),
    }
    assert!(tracker.session.manual_pause && tracker.session.paused);
    assert!(tracker.session.app.is_none());
    let status = tracker.status(7);
    assert!(!status.tracking && status.paused);
    assert_eq!(status.idle_seconds, 7);
    assert!(matches!(tracker.tick(1, 5_000, 0), TrackerAction::Done));
    assert!(matches!(tracker.set_manual_pause(false, 6_000), TrackerAction::Done));
    assert!(!tracker.session.manual_pause && !tracker.session.paused);
    assert!(matches!(tracker.tick(2, 7_000, 0), TrackerAction::ResolveForeground));
    let followed = tracker.foreground(Some(app("b.exe", "B")));
    assert!(matches!(followed, TrackerAction::Done));
    assert_eq!(tracker.session.started_at, 7_000);
    assert_eq!(store.tables().sessions.len(), 1);
}

#[test]
fn idle_user_ends_the_span_when_activity_stopped() {
    let store = fresh_store();
    let mut tracker = empty_session_tracker(&store);
    tracker.session.app = Some(app("a.exe", "A"));
    tracker.session.started_at = 1_000;
    tracker.set_idle_minutes(1);
    assert_eq!(tracker.idle_limit_seconds, 60);
    let action = tracker.tick(1, 200_000, 90);
    match action {
        TrackerAction::Save { ended_at, .. } => assert_eq!(ended_at, 170_000),
        _ => panic!("expected a save"),
    }
    assert!(matches!(tracker.saved(true), TrackerAction::Done));
    assert!(tracker.session.paused);
    tracker.set_idle_minutes(0);
    assert_eq!(tracker.idle_limit_seconds, 60);
    tracker.set_idle_minutes(1_000);
    assert_eq!(tracker.idle_limit_seconds, 7_200);
}

#[test]
fn long_gap_between_ticks_ends_the_span_a_second_after_it_was_seen() {
    let store = fresh_store();
    let mut tracker = empty_session_tracker(&store);
    assert!(matches!(tracker.tick(1_000_000_000, 10_000, 0), TrackerAction::ResolveForeground));
    assert!(matches!(tracker.foreground(Some(app("a.exe", "A"))), TrackerAction::Done));
    let action = tracker.tick(20_000_000_000, 40_000, 0);
    match action {
        TrackerAction::Save { started_at, ended_at, .. } => assert_eq!((started_at, ended_at), (10_000, 11_000)),
        _ => panic!("expected a save"),
    }
    assert!(matches!(tracker.saved(true), TrackerAction::ResolveForeground));
    assert!(matches!(tracker.foreground(Some(app("a.exe", "A"))), TrackerAction::Done));
    assert_eq!(tracker.session.started_at, 40_000);
    assert!(!tracker.session.paused);
}

#[test]
fn checkpoints_save_every_thirty_seconds() {
    let mut store = fresh_store();
    let mut tracker = empty_session_tracker(&store);
    assert!(matches!(tracker.tick(1, 0, 0), TrackerAction::ResolveForeground));
    assert!(matches!(tracker.foreground(Some(app("a.exe", "A"))), TrackerAction::Done));
    assert!(matches!(tracker.tick(2, 10_000, 0), TrackerAction::ResolveForeground));
    assert!(matches!(tracker.foreground(Some(app("a.exe", "A"))), TrackerAction::ReadClock));
    assert!(matches!(tracker.clock(10_000), TrackerAction::Done));
    assert!(matches!(tracker.tick(3, 31_000, 0), TrackerAction::ResolveForeground));
    assert!(matches!(tracker.foreground(Some(app("a.exe", "A"))), TrackerAction::ReadClock));
    match tracker.clock(31_000) {
        TrackerAction::Save { app, started_at, ended_at } => {
            assert_eq!((started_at, ended_at), (0, 31_000));
            store.append_session(&app, started_at, ended_at).unwrap();
            assert!(matches!(tracker.saved(true), TrackerAction::Done));
        }
        _ => panic!("expected a checkpoint"),
    }
    assert_eq!(tracker.session.started_at, 31_000);
    assert_eq!(tracker.session.last_checkpoint_at, 31_000);
}

#[test]
fn widget_status_adds_the_current_span() {
    let mut store = fresh_store();
    let now = Utc::now().timestamp_millis();
    store.append_session(&app("a.exe", "A"), now - 20_000, now - 10_000).unwrap();
    let mut tracker = empty_session_tracker(&store);
    tracker.session.app = Some(app("a.exe", "A"));
    tracker.session.started_at = now - 4_000;
    let status = tracker.widget_status(&store, now, 3).unwrap();
    assert!(status.tracking);
    assert_eq!(status.idle_seconds, 3);
    let seconds = status.current_app_seconds.unwrap();
    assert!(seconds == 14 || seconds == 4);
    tracker.session.paused = true;
    assert_eq!(tracker.widget_status(&store, now, 0).unwrap().current_app_seconds, None);
}

#[test]
fn png_bytes_become_base64_data_urls() {
    assert_eq!(png_data_url(&vec![0, 1, 2]).unwrap(), "data:image/png;base64,AAEC");
    assert_eq!(png_data_url(&vec![255]).unwrap(), "data:image/png;base64,/w==");
    assert_eq!(png_data_url(&vec![]).unwrap(), "data:image/png;base64,");
}

#[test]
fn summaries_of_parsed_dates() {
    let store = store_with_sessions(&[(
        "a.exe",
        "A",
        "C:\\a.exe",
        local_ms(2026, 7, 13, 8, 0, 0),
        local_ms(2026, 7, 13, 8, 0, 42),
    )]);
    let day = store
        .day_summary_of("13 July", Date { year: 2026, month: 7, day: 13 })
        .unwrap();
    assert_eq!(day.date, "13 July");
    assert_eq!(day.total_seconds, 42);
    assert_eq!(day.hours[0].name, "08:00");
    let reversed = store.range_summary_of(
        Date { year: 2026, month: 7, day: 14 },
        Date { year: 2026, month: 7, day: 13 },
    );
    assert_eq!(reversed.unwrap_err(), "End date must not be before start date");
    let range = store
        .range_summary_of(
            Date { year: 2026, month: 7, day: 12 },
            Date { year: 2026, month: 7, day: 13 },
        )
        .unwrap();
    assert_eq!(range.days.len(), 1);
    assert_eq!(range.days[0].name, "07/13");
    assert_eq!(range.days[0].seconds, 42);
}

#[test]
fn new_rows_after_the_largest_id_take_an_unused_id() {
    let mut tables = fresh_store().tables();
    tables.categories.push(momentrace::model::Category {
        id: i64::MAX,
        name: "Last".into(),
        color: "#000000".into(),
    });
    tables.sessions.push(SessionRow {
        id: i64::MAX,
        executable: "a.exe".into(),
        display_name: "A".into(),
        process_path: "C:\\a.exe".into(),
        started_at: 0,
        ended_at: 1_000,
    });
    let mut store = Store::open(tables).unwrap();
    let more = store.create_category("More", "#111111").unwrap();
    assert!(more.id > 0);
    assert!(store
        .categories()
        .unwrap()
        .iter()
        .filter(|c| c.id == more.id)
        .count()
        == 1);
    store.append_session(&app("b.exe", "B"), 5_000, 6_000).unwrap();
    let sessions = store.tables().sessions;
    assert_eq!(sessions.len(), 2);
    assert!(sessions[1].id > 0 && sessions[1].id != i64::MAX);
    store.append_session(&app("a.exe", "A"), 1_000, 2_000).unwrap();
    assert_eq!(store.tables().sessions.len(), 2);
}

#[test]
fn sums_that_do_not_fit_are_errors() {
    let all = momentrace::usage::Window { bounded: false, start: 0, end: 0 };
    let wide = store_with_sessions(&[("a.exe", "A", "C:\\a.exe", -9_000_000_000_000_000_000, 9_000_000_000_000_000_000)]);
    assert_eq!(wide.usage_total(all).unwrap_err(), "integer overflow");
    let mut rows = Vec::new();
    for _ in 0..1_001 {
        rows.push(("a.exe", "A", "C:\\a.exe", 0, i64::MAX));
    }
    let many = store_with_sessions(&rows);
    assert_eq!(many.usage_total(all).unwrap_err(), "integer overflow");
    assert_eq!(many.application_usage(all).unwrap_err(), "integer overflow");
    assert_eq!(many.category_usage(all).unwrap_err(), "integer overflow");
}

#[test]
fn the_last_representable_day_has_no_next_day() {
    let store = fresh_store();
    let last = Date { year: 262142, month: 12, day: 31 };
    assert_eq!(store.range_summary_of(last, last).unwrap_err(), "Date is out of range");
    assert!(store.day_summary_of("end", last).is_err());
}

#[test]
fn hours_without_use_give_no_lines() {
    let rows: Vec<SessionRow> = Vec::new();
    assert!(momentrace::usage::hour_usage(&rows, 0, 7_200_000).unwrap().is_empty());
    let store = fresh_store();
    assert!(store.hours_in(0, 86_400_000).unwrap().is_empty());
}

#[test]
fn adding_under_a_label_that_overflows_changes_nothing() {
    let mut acc = vec![momentrace::model::UsageItem {
        name: "10:00".into(),
        seconds: i64::MAX,
        color: None,
        executable: None,
        process_path: None,
    }];
    assert_eq!(momentrace::usage::add_under_label(&mut acc, "10:00".into(), 1).unwrap_err(), "integer overflow");
    assert_eq!(acc.len(), 1);
    assert_eq!(acc[0].seconds, i64::MAX);
    momentrace::usage::add_under_label(&mut acc, "09:00".into(), 5).unwrap();
    assert_eq!(acc[0].name, "09:00");
    assert_eq!(acc[1].seconds, i64::MAX);
}

#[test]
fn icons_need_exactly_their_pixels() {
    assert!(encode_icon(vec![0; 64 * 64 * 4 + 4]).is_err());
    assert!(encode_icon(vec![0; 64 * 64 * 4 - 4]).is_err());
    assert!(encode_icon(vec![0; 64 * 64 * 4]).is_ok());
}

#[test]
fn month_lines_count_each_placed_month() {
    let rows = vec![
        SessionRow {
            id: 1,
            executable: "a.exe".into(),
            display_name: "A".into(),
            process_path: "C:\\a.exe".into(),
            started_at: 1_000,
            ended_at: 61_000,
        },
        SessionRow {
            id: 2,
            executable: "a.exe".into(),
            display_name: "A".into(),
            process_path: "C:\\a.exe".into(),
            started_at: 200_000,
            ended_at: 230_000,
        },
    ];
    let months = vec![
        Date { year: 2026, month: 6, day: 1 },
        Date { year: 2026, month: 7, day: 1 },
        Date { year: 2026, month: 8, day: 1 },
    ];
    let starts = vec![0, 100_000, 150_000, 300_000];
    let lines = momentrace::store::month_lines(&rows, &months, &starts).unwrap();
    let got: Vec<(String, i64)> = lines.iter().map(|l| (l.name.clone(), l.seconds)).collect();
    assert_eq!(got, [("2026/06".to_string(), 60), ("2026/08".to_string(), 30)]);
}

#[test]
fn icons_need_a_path() {
    assert_eq!(icon_path_checked("").unwrap_err(), "Application path is empty");
    assert!(icon_path_checked("C:\\a.exe").is_ok());
}

#[test]
fn open_refuses_a_rule_of_a_missing_category() {
    let mut tables = empty_tables();
    tables.rules.push(momentrace::model::AppRule {
        executable: "a.exe".into(),
        display_name: "A".into(),
        process_path: "C:\\a.exe".into(),
        category_id: Some(42),
        ignored: false,
        continue_tracking_while_idle: false,
    });
    assert_eq!(
        Store::open(tables).err().unwrap(),
        "FOREIGN KEY constraint failed"
    );
}

#[test]
fn a_one_day_range_reports_what_the_day_reports() {
    let mut store = fresh_store();
    let a = app("a.exe", "A");
    store
        .append_session(&a, local_ms(2026, 7, 13, 9, 0, 0), local_ms(2026, 7, 13, 9, 1, 30))
        .unwrap();
    let day = store.day_summary("2026-07-13").unwrap();
    let range = store.range_summary("2026-07-13", "2026-07-13").unwrap();
    assert_eq!(day.total_seconds, 90);
    assert_eq!(range.days.len(), 1);
    assert_eq!(range.days[0].name, "07/13");
    assert_eq!(range.days[0].seconds, day.total_seconds);
    assert_eq!(range.categories.len(), day.categories.len());
    assert_eq!(range.categories[0].name, day.categories[0].name);
    assert_eq!(range.categories[0].seconds, day.categories[0].seconds);
    assert_eq!(range.applications.len(), day.applications.len());
    assert_eq!(range.applications[0].executable, day.applications[0].executable);
    assert_eq!(range.applications[0].seconds, day.applications[0].seconds);
    let empty = store.range_summary("2026-07-14", "2026-07-14").unwrap();
    assert!(empty.days.is_empty());
}

#[test]
fn reopening_without_the_reserved_category_changes_no_rule() {
    let mut store = fresh_store();
    let games = store.create_category("Games", "#123456").unwrap();
    store.rule_for("g.exe", "G", "C:\\g.exe").unwrap();
    store
        .update_rule(
            "g.exe",
            &AppRulePatch {
                display_name: None,
                category_id: Some(games.id),
                category_id_changed: true,
                ignored: None,
                continue_tracking_while_idle: Some(true),
            },
        )
        .unwrap();
    let before = store.tables();
    let reopened = Store::open(store.tables()).unwrap();
    let after = reopened.tables();
    assert_eq!(after.categories.len(), before.categories.len());
    assert_eq!(after.rules.len(), 1);
    assert_eq!(after.rules[0].category_id, Some(games.id));
    assert!(after.rules[0].continue_tracking_while_idle);
}

#[test]
fn a_rule_cannot_name_a_missing_category() {
    let mut store = fresh_store();
    store.rule_for("g.exe", "G", "C:\\g.exe").unwrap();
    let err = store
        .update_rule(
            "g.exe",
            &AppRulePatch {
                display_name: None,
                category_id: Some(9_999),
                category_id_changed: true,
                ignored: None,
                continue_tracking_while_idle: None,
            },
        )
        .unwrap_err();
    assert_eq!(err, "FOREIGN KEY constraint failed");
}

#[test]
fn widget_status_from_adds_the_span_to_today() {
    let store = fresh_store();
    let mut tracker = empty_session_tracker(&store);
    tracker.session.app = Some(app("a.exe", "A"));
    tracker.session.started_at = 10_000;
    let status = tracker.widget_status_from(Ok(100), 15_500, 2).unwrap();
    assert_eq!(status.current_app_seconds, Some(105));
    assert_eq!(status.idle_seconds, 2);
    assert_eq!(tracker.widget_status_from(Ok(100), 9_000, 0).unwrap().current_app_seconds, Some(100));
    assert_eq!(
        tracker.widget_status_from(Err("read failed".to_string()), 15_500, 0).unwrap_err(),
        "read failed"
    );
    assert_eq!(
        tracker.widget_status_from(Ok(i64::MAX), 15_500, 0).unwrap_err(),
        "integer overflow"
    );
    tracker.session.paused = true;
    let paused = tracker.widget_status_from(Err("unused".to_string()), 15_500, 0).unwrap();
    assert_eq!(paused.current_app_seconds, None);
}

#[test]
fn sessions_outside_local_dates_have_no_first_month() {
    let mut tables = fresh_store().tables();
    tables.sessions.push(SessionRow {
        id: 1,
        executable: "a.exe".into(),
        display_name: "A".into(),
        process_path: "C:\\a.exe".into(),
        started_at: -9_000_000_000_000_000,
        ended_at: -8_999_999_999_999_000,
    });
    let store = Store::open(tables).unwrap();
    assert_eq!(
        store.all_summary().unwrap_err(),
        "Unable to determine first recorded month"
    );
}

#[test]
fn years_past_9999_are_named_with_a_sign() {
    let mut store = fresh_store();
    store
        .append_session(&app("a.exe", "A"), local_ms(9999, 12, 31, 10, 0, 0), local_ms(9999, 12, 31, 10, 0, 5))
        .unwrap();
    store
        .append_session(&app("b.exe", "B"), local_ms(10000, 1, 1, 10, 0, 0), local_ms(10000, 1, 1, 10, 0, 7))
        .unwrap();
    let range = store.range_summary("9999-12-31", "+10000-01-01").unwrap();
    assert_eq!(range.days.len(), 2);
    assert_eq!(range.days[0].name, "9999/12/31");
    assert_eq!(range.days[0].seconds, 5);
    assert_eq!(range.days[1].name, "+10000/01/01");
    assert_eq!(range.days[1].seconds, 7);
}
