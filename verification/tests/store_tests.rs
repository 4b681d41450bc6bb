use chrono::{Local, TimeZone, Utc};
use momentrace::model::{AppInfo, AppRulePatch, Category, SessionRow};
use momentrace::store::{Store, StoredTables};

fn empty_tables() -> StoredTables {
    StoredTables {
        categories: Vec::new(),
        rules: Vec::new(),
        sessions: Vec::new(),
        settings: Vec::new(),
    }
}

fn test_store() -> Store {
    Store::open(empty_tables()).unwrap()
}

fn local_ms(year: i32, month: u32, day: u32, hour: u32, minute: u32, second: u32) -> i64 {
    Local
        .with_ymd_and_hms(year, month, day, hour, minute, second)
        .single()
        .unwrap()
        .with_timezone(&Utc)
        .timestamp_millis()
}

fn next_session_id(tables: &StoredTables) -> i64 {
    tables.sessions.iter().map(|s| s.id).max().unwrap_or(0) + 1
}

fn with_session(
    store: Store,
    executable: &str,
    display_name: &str,
    process_path: &str,
    started_at: i64,
    ended_at: i64,
) -> Store {
    let mut tables = store.tables();
    let id = next_session_id(&tables);
    tables.sessions.push(SessionRow {
        id,
        executable: executable.into(),
        display_name: display_name.into(),
        process_path: process_path.into(),
        started_at,
        ended_at,
    });
    Store::open(tables).unwrap()
}

fn insert_session(store: Store, started_at: i64, ended_at: i64) -> Store {
    with_session(store, "test.exe", "Test", "C:\\test.exe", started_at, ended_at)
}

fn insert_app_session(store: Store, index: usize, started_at: i64, ended_at: i64) -> Store {
    let executable = format!("app-{index}.exe");
    let display_name = format!("App {index}");
    let process_path = format!("C:\\{executable}");
    with_session(store, &executable, &display_name, &process_path, started_at, ended_at)
}

#[test]
fn font_family_setting_is_persisted_and_validated() {
    let mut store = test_store();
    let mut settings = store.settings().unwrap();
    assert_eq!(settings.font_family, "classic");

    settings.font_family = "serif".into();
    store.update_settings(&settings).unwrap();
    assert_eq!(store.settings().unwrap().font_family, "serif");

    settings.font_family = "untrusted-value".into();
    settings.widget_height = 999;
    settings.widget_x_offset = -5000;
    settings.widget_y_offset = 5000;
    store.update_settings(&settings).unwrap();
    let settings = store.settings().unwrap();
    assert_eq!(settings.font_family, "classic");
    assert_eq!(settings.widget_height, 160);
    assert_eq!(settings.widget_x_offset, -1000);
    assert_eq!(settings.widget_y_offset, 1000);
}

#[test]
fn day_summary_splits_sessions_across_hours() {
    let store = insert_session(
        test_store(),
        local_ms(2026, 7, 13, 10, 59, 0),
        local_ms(2026, 7, 13, 11, 1, 0),
    );

    let summary = store.day_summary("2026-07-13").unwrap();

    assert_eq!(summary.total_seconds, 120);
    assert_eq!(
        summary
            .hours
            .iter()
            .map(|item| (item.name.as_str(), item.seconds))
            .collect::<Vec<_>>(),
        [("10:00", 60), ("11:00", 60)]
    );
}

#[test]
fn application_summaries_are_not_truncated() {
    let mut store = test_store();
    let start = local_ms(2026, 7, 13, 12, 0, 0);
    for index in 0..12 {
        let app_start = start + index as i64 * 2_000;
        store = insert_app_session(store, index, app_start, app_start + 1_000);
    }

    assert_eq!(
        store.day_summary("2026-07-13").unwrap().applications.len(),
        12
    );
    assert_eq!(
        store
            .range_summary("2026-07-13", "2026-07-13")
            .unwrap()
            .applications
            .len(),
        12
    );
    assert_eq!(store.all_summary().unwrap().applications.len(), 12);
}

#[test]
fn all_summary_splits_sessions_across_months() {
    let store = insert_session(
        test_store(),
        local_ms(2026, 6, 30, 23, 59, 30),
        local_ms(2026, 7, 1, 0, 0, 30),
    );

    let summary = store.all_summary().unwrap();

    assert_eq!(
        summary
            .months
            .iter()
            .map(|item| (item.name.as_str(), item.seconds))
            .collect::<Vec<_>>(),
        [("2026/06", 30), ("2026/07", 30)]
    );
    assert_eq!(summary.applications[0].seconds, 60);
}

#[test]
fn range_summary_includes_both_dates_and_clips_boundaries() {
    let store = insert_session(
        test_store(),
        local_ms(2026, 7, 12, 23, 59, 30),
        local_ms(2026, 7, 13, 0, 0, 30),
    );
    let store = insert_session(
        store,
        local_ms(2026, 7, 14, 23, 59, 30),
        local_ms(2026, 7, 15, 0, 0, 30),
    );

    let summary = store.range_summary("2026-07-13", "2026-07-14").unwrap();

    assert_eq!(
        summary
            .days
            .iter()
            .map(|item| (item.name.as_str(), item.seconds))
            .collect::<Vec<_>>(),
        [("07/13", 30), ("07/14", 30)]
    );
    assert_eq!(summary.applications[0].seconds, 60);
    assert!(store.range_summary("2026-07-15", "2026-07-14").is_err());
}

#[test]
fn rule_for_refreshes_path_without_losing_custom_name() {
    let mut store = test_store();
    store
        .rule_for("test.exe", "Test", "C:\\old\\test.exe")
        .unwrap();
    store
        .update_rule(
            "test.exe",
            &AppRulePatch {
                display_name: Some("Custom".into()),
                category_id: None,
                category_id_changed: false,
                ignored: None,
                continue_tracking_while_idle: Some(true),
            },
        )
        .unwrap();

    let rule = store
        .rule_for("test.exe", "Test", "D:\\new\\test.exe")
        .unwrap();

    assert_eq!(rule.display_name, "Custom");
    assert_eq!(rule.process_path, "D:\\new\\test.exe");
    assert!(rule.continue_tracking_while_idle);
    store
        .update_rule(
            "test.exe",
            &AppRulePatch {
                display_name: None,
                category_id: None,
                category_id_changed: false,
                ignored: Some(true),
                continue_tracking_while_idle: None,
            },
        )
        .unwrap();
    let saved = &store.rules().unwrap()[0];
    assert_eq!(saved.display_name, "Custom");
    assert!(saved.ignored);
    assert!(saved.continue_tracking_while_idle);
}

#[test]
fn icon_paths_prefer_the_current_rule_path_and_keep_recent_fallbacks() {
    let mut store = test_store();
    let start = local_ms(2026, 7, 13, 12, 0, 0);
    store
        .rule_for("icon.exe", "Icon", "D:\\current\\icon.exe")
        .unwrap();
    let store = with_session(
        store,
        "icon.exe",
        "Icon",
        "C:\\old\\icon.exe",
        start,
        start + 1_000,
    );
    let store = with_session(
        store,
        "icon.exe",
        "Icon",
        "E:\\recent\\icon.exe",
        start + 2_000,
        start + 3_000,
    );

    assert_eq!(
        store.icon_paths("icon.exe").unwrap(),
        [
            "D:\\current\\icon.exe",
            "E:\\recent\\icon.exe",
            "C:\\old\\icon.exe",
        ]
    );
    let applications = store.all_summary().unwrap().applications;
    assert_eq!(
        applications[0].process_path.as_deref(),
        Some("D:\\current\\icon.exe")
    );
}

#[test]
fn new_rules_do_not_track_while_idle() {
    let mut store = Store::open(empty_tables()).unwrap();
    let rule = store.rule_for("test.exe", "Test", "C:\\test.exe").unwrap();

    assert!(!rule.continue_tracking_while_idle);
}

#[test]
fn categories_can_be_created_and_deleted_without_returning() {
    let mut store = test_store();
    let category = store.create_category("影音", "#12abEF").unwrap();
    assert_eq!(category.color, "#12ABEF");
    assert!(store.create_category("影音", "#000000").is_err());
    assert!(store.create_category("无效颜色", "blue").is_err());
    assert!(store.create_category("其他", "#8391A5").is_err());

    store
        .rule_for("video.exe", "Video", "C:\\video.exe")
        .unwrap();
    store
        .update_rule(
            "video.exe",
            &AppRulePatch {
                display_name: None,
                category_id: Some(category.id),
                category_id_changed: true,
                ignored: None,
                continue_tracking_while_idle: Some(true),
            },
        )
        .unwrap();
    store.delete_category(category.id).unwrap();
    let rule = &store.rules().unwrap()[0];
    assert_eq!(rule.category_id, None);
    assert!(rule.continue_tracking_while_idle);

    let default_id = store
        .categories()
        .unwrap()
        .into_iter()
        .find(|value| value.name == "工作")
        .unwrap()
        .id;
    store.delete_category(default_id).unwrap();

    let mut tables = store.tables();
    let reserved_id = tables.categories.iter().map(|c| c.id).max().unwrap_or(0) + 1;
    tables.categories.push(Category {
        id: reserved_id,
        name: "其他".into(),
        color: "#8391A5".into(),
    });
    for rule in tables.rules.iter_mut() {
        if rule.executable == "video.exe" {
            rule.category_id = Some(reserved_id);
        }
    }
    tables.sessions.push(SessionRow {
        id: 1,
        executable: "video.exe".into(),
        display_name: "Video".into(),
        process_path: "C:\\video.exe".into(),
        started_at: 1000,
        ended_at: 2000,
    });
    tables.sessions.push(SessionRow {
        id: 2,
        executable: "other.exe".into(),
        display_name: "Other".into(),
        process_path: "C:\\other.exe".into(),
        started_at: 2000,
        ended_at: 3000,
    });

    let reopened = Store::open(tables).unwrap();
    assert!(!reopened
        .categories()
        .unwrap()
        .iter()
        .any(|value| value.name == "工作"));
    assert!(!reopened
        .categories()
        .unwrap()
        .iter()
        .any(|value| value.name == "其他"));
    assert_eq!(reopened.rules().unwrap()[0].category_id, None);
    let summary = reopened.all_summary().unwrap();
    assert_eq!(summary.categories.len(), 1);
    assert_eq!(summary.categories[0].name, "其他");
    assert_eq!(summary.categories[0].seconds, 2);
}

#[test]
fn append_session_does_not_merge_across_another_application() {
    let mut store = test_store();
    let first = AppInfo {
        executable: "a.exe".into(),
        display_name: "A".into(),
        process_path: "C:\\a.exe".into(),
        category: "其他".into(),
        ignored: false,
        continue_tracking_while_idle: false,
    };
    let other = AppInfo {
        executable: "b.exe".into(),
        display_name: "B".into(),
        process_path: "C:\\b.exe".into(),
        category: "其他".into(),
        ignored: false,
        continue_tracking_while_idle: false,
    };
    store.append_session(&first, 1_000, 2_000).unwrap();
    store.append_session(&other, 2_000, 2_500).unwrap();
    store.append_session(&first, 2_500, 3_000).unwrap();

    let count = store.tables().sessions.len() as i64;
    assert_eq!(count, 3);
}
