//! The records that the tracker stores and reports, with their mathematical views.
use vstd::prelude::*;

verus! {

/// An application as the tracker knows it: its rule, resolved to a category name.
#[derive(Debug, Clone, PartialEq, Eq)]
pub struct AppInfo {
    pub executable: String,
    pub display_name: String,
    pub process_path: String,
    pub category: String,
    pub ignored: bool,
    pub continue_tracking_while_idle: bool,
}

/// What the tracker is doing right now.
#[derive(Debug, Clone, PartialEq, Eq)]
pub struct LiveStatus {
    pub tracking: bool,
    pub paused: bool,
    pub idle_seconds: u64,
    pub current_app: Option<AppInfo>,
}

/// What the taskbar widget shows.
#[derive(Debug, Clone, PartialEq, Eq)]
pub struct WidgetStatus {
    pub tracking: bool,
    pub paused: bool,
    pub idle_seconds: u64,
    pub current_app: Option<AppInfo>,
    pub current_app_seconds: Option<i64>,
}

/// One line of a usage report.
#[derive(Debug, Clone, PartialEq, Eq)]
pub struct UsageItem {
    pub name: String,
    pub seconds: i64,
    pub color: Option<String>,
    pub executable: Option<String>,
    pub process_path: Option<String>,
}

/// Usage of one day.
#[derive(Debug, Clone, PartialEq, Eq)]
pub struct DaySummary {
    pub date: String,
    pub total_seconds: i64,
    pub categories: Vec<UsageItem>,
    pub applications: Vec<UsageItem>,
    pub hours: Vec<UsageItem>,
}

/// Usage over a range of days.
#[derive(Debug, Clone, PartialEq, Eq)]
pub struct RangeSummary {
    pub days: Vec<UsageItem>,
    pub categories: Vec<UsageItem>,
    pub applications: Vec<UsageItem>,
}

/// Usage over everything recorded.
#[derive(Debug, Clone, PartialEq, Eq)]
pub struct AllSummary {
    pub months: Vec<UsageItem>,
    pub categories: Vec<UsageItem>,
    pub applications: Vec<UsageItem>,
}

/// A user category of applications.
#[derive(Debug, Clone, PartialEq, Eq)]
pub struct Category {
    pub id: i64,
    pub name: String,
    pub color: String,
}

/// The stored rule of one executable.
#[derive(Debug, Clone, PartialEq, Eq)]
pub struct AppRule {
    pub executable: String,
    pub display_name: String,
    pub process_path: String,
    pub category_id: Option<i64>,
    pub ignored: bool,
    pub continue_tracking_while_idle: bool,
}

/// A change to a rule: each `Some` field replaces the stored value; the category
/// is replaced only where `category_id_changed` is set.
#[derive(Debug, Clone, PartialEq, Eq)]
pub struct AppRulePatch {
    pub display_name: Option<String>,
    pub category_id: Option<i64>,
    pub category_id_changed: bool,
    pub ignored: Option<bool>,
    pub continue_tracking_while_idle: Option<bool>,
}

/// The user's preferences.
#[derive(Debug, Clone, PartialEq, Eq)]
pub struct Settings {
    pub idle_minutes: u32,
    pub launch_at_login: bool,
    pub show_widget: bool,
    pub font_family: String,
    pub widget_height: u32,
    pub widget_x_offset: i32,
    pub widget_y_offset: i32,
}

/// One recorded span of use of an application, in milliseconds since the epoch.
#[derive(Debug, Clone, PartialEq, Eq)]
pub struct SessionRow {
    pub id: i64,
    pub executable: String,
    pub display_name: String,
    pub process_path: String,
    pub started_at: i64,
    pub ended_at: i64,
}

/// One key/value pair of the settings table.
#[derive(Debug, Clone, PartialEq, Eq)]
pub struct SettingRow {
    pub key: String,
    pub value: String,
}

pub struct AppInfoView {
    pub executable: Seq<char>,
    pub display_name: Seq<char>,
    pub process_path: Seq<char>,
    pub category: Seq<char>,
    pub ignored: bool,
    pub continue_tracking_while_idle: bool,
}

impl View for AppInfo {
    type V = AppInfoView;

    open spec fn view(&self) -> AppInfoView {
        AppInfoView {
            executable: self.executable@,
            display_name: self.display_name@,
            process_path: self.process_path@,
            category: self.category@,
            ignored: self.ignored,
            continue_tracking_while_idle: self.continue_tracking_while_idle,
        }
    }
}

impl DeepView for AppInfo {
    type V = AppInfoView;

    open spec fn deep_view(&self) -> AppInfoView {
        self@
    }
}

pub struct UsageItemView {
    pub name: Seq<char>,
    pub seconds: i64,
    pub color: Option<Seq<char>>,
    pub executable: Option<Seq<char>>,
    pub process_path: Option<Seq<char>>,
}

impl View for UsageItem {
    type V = UsageItemView;

    open spec fn view(&self) -> UsageItemView {
        UsageItemView {
            name: self.name@,
            seconds: self.seconds,
            color: self.color.deep_view(),
            executable: self.executable.deep_view(),
            process_path: self.process_path.deep_view(),
        }
    }
}

impl DeepView for UsageItem {
    type V = UsageItemView;

    open spec fn deep_view(&self) -> UsageItemView {
        self@
    }
}

pub struct CategoryView {
    pub id: i64,
    pub name: Seq<char>,
    pub color: Seq<char>,
}

impl View for Category {
    type V = CategoryView;

    open spec fn view(&self) -> CategoryView {
        CategoryView { id: self.id, name: self.name@, color: self.color@ }
    }
}

impl DeepView for Category {
    type V = CategoryView;

    open spec fn deep_view(&self) -> CategoryView {
        self@
    }
}

pub struct AppRuleView {
    pub executable: Seq<char>,
    pub display_name: Seq<char>,
    pub process_path: Seq<char>,
    pub category_id: Option<i64>,
    pub ignored: bool,
    pub continue_tracking_while_idle: bool,
}

impl View for AppRule {
    type V = AppRuleView;

    open spec fn view(&self) -> AppRuleView {
        AppRuleView {
            executable: self.executable@,
            display_name: self.display_name@,
            process_path: self.process_path@,
            category_id: self.category_id,
            ignored: self.ignored,
            continue_tracking_while_idle: self.continue_tracking_while_idle,
        }
    }
}

impl DeepView for AppRule {
    type V = AppRuleView;

    open spec fn deep_view(&self) -> AppRuleView {
        self@
    }
}

pub struct SettingsView {
    pub idle_minutes: u32,
    pub launch_at_login: bool,
    pub show_widget: bool,
    pub font_family: Seq<char>,
    pub widget_height: u32,
    pub widget_x_offset: i32,
    pub widget_y_offset: i32,
}

impl View for Settings {
    type V = SettingsView;

    open spec fn view(&self) -> SettingsView {
        SettingsView {
            idle_minutes: self.idle_minutes,
            launch_at_login: self.launch_at_login,
            show_widget: self.show_widget,
            font_family: self.font_family@,
            widget_height: self.widget_height,
            widget_x_offset: self.widget_x_offset,
            widget_y_offset: self.widget_y_offset,
        }
    }
}

pub struct SessionRowView {
    pub id: i64,
    pub executable: Seq<char>,
    pub display_name: Seq<char>,
    pub process_path: Seq<char>,
    pub started_at: i64,
    pub ended_at: i64,
}

impl View for SessionRow {
    type V = SessionRowView;

    open spec fn view(&self) -> SessionRowView {
        SessionRowView {
            id: self.id,
            executable: self.executable@,
            display_name: self.display_name@,
            process_path: self.process_path@,
            started_at: self.started_at,
            ended_at: self.ended_at,
        }
    }
}

impl DeepView for SessionRow {
    type V = SessionRowView;

    open spec fn deep_view(&self) -> SessionRowView {
        self@
    }
}

impl View for SettingRow {
    type V = (Seq<char>, Seq<char>);

    open spec fn view(&self) -> (Seq<char>, Seq<char>) {
        (self.key@, self.value@)
    }
}

impl DeepView for SettingRow {
    type V = (Seq<char>, Seq<char>);

    open spec fn deep_view(&self) -> (Seq<char>, Seq<char>) {
        self@
    }
}

/// Copies an application record field by field.
pub fn copy_app(a: &AppInfo) -> (r: AppInfo)
    ensures
        r@ == a@,
        r == *a,
{
    AppInfo {
        executable: a.executable.clone(),
        display_name: a.display_name.clone(),
        process_path: a.process_path.clone(),
        category: a.category.clone(),
        ignored: a.ignored,
        continue_tracking_while_idle: a.continue_tracking_while_idle,
    }
}

/// Copies an optional string.
pub fn copy_opt_string(s: &Option<String>) -> (r: Option<String>)
    ensures
        r.deep_view() == s.deep_view(),
{
    match s {
        Some(v) => Some(v.clone()),
        None => None,
    }
}

/// Copies a category.
pub fn copy_category(c: &Category) -> (r: Category)
    ensures
        r@ == c@,
{
    Category { id: c.id, name: c.name.clone(), color: c.color.clone() }
}

/// Copies a rule.
pub fn copy_rule(x: &AppRule) -> (r: AppRule)
    ensures
        r@ == x@,
{
    AppRule {
        executable: x.executable.clone(),
        display_name: x.display_name.clone(),
        process_path: x.process_path.clone(),
        category_id: x.category_id,
        ignored: x.ignored,
        continue_tracking_while_idle: x.continue_tracking_while_idle,
    }
}

/// Copies a session.
pub fn copy_session(s: &SessionRow) -> (r: SessionRow)
    ensures
        r@ == s@,
{
    SessionRow {
        id: s.id,
        executable: s.executable.clone(),
        display_name: s.display_name.clone(),
        process_path: s.process_path.clone(),
        started_at: s.started_at,
        ended_at: s.ended_at,
    }
}

/// Copies a setting.
pub fn copy_setting(s: &SettingRow) -> (r: SettingRow)
    ensures
        r@ == s@,
{
    SettingRow { key: s.key.clone(), value: s.value.clone() }
}

} // verus!
