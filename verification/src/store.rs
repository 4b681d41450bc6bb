//! The tracker's tables (categories, application rules, sessions and settings) and
//! every rule that reads or changes them.
use vstd::prelude::*;

use crate::model::{
    copy_category, copy_rule, copy_session, copy_setting, AppInfo, AppInfoView, AppRule,
    AppRulePatch, AppRuleView, Category, CategoryView, SessionRow, SessionRowView, SettingRow,
    Settings, SettingsView,
};
use crate::store_laws::{
    law_created_name_is_new, law_delete_keeps_names_unique, law_delete_keeps_rules_linked, law_open_keeps_names_unique,
    law_open_keeps_rules_linked, law_rule_change_keeps_rules_linked, lemma_rules_linked_grow,
};
use crate::sorting::{sort_positions, sorted_positions, SortKey, SortKeyView};
use crate::text::{
    chars_of, folded, folded_chars, chars_equal, owned, string_from_chars, text_eq, trim, trimmed, parse_u32,
    parse_i32, parsed_u32, parsed_i32, u32_text, i32_text, decimal, signed_decimal,
};
use crate::calendar::{
    date_before, date_from_ymd, date_rank, day_index, days_between, format_date, formatted_date, is_before, is_valid_date,
    lemma_next_day_valid, local_date_of, local_date_near, parse_error_text, utc_midnight_ms, within_local_range, local_day_start, max_year, next_date,
    next_day, parse_date, placed_at, today, ymd_text_date, Date,
};
use crate::model::{UsageItem, UsageItemView, DaySummary, RangeSummary, AllSummary};
use crate::usage::{
    hour_lines_fit, local_hour_error, app_items, app_keys, app_report_fits, app_total, application_report, category_items,
    category_report, category_report_fits, hour_usage, hour_windows, labelled_report,
    live_rows, live_sum, overflow_error, positive_totals, report_order, row_seconds,
    span_ms, span_of, counts_in, in_window, window_seconds, window_total, spans_fit, Window,
    category_of, find_category, find_rule, first_index, is_hour_label, quiet_windows, lemma_first_index, lemma_first_index_found, reserved_category_name,
    rule_is_for, rule_of, sessions_ordered,
};

verus! {

/// The rows of the four tables, as they are loaded from and saved to the database.
pub struct StoredTables {
    pub categories: Vec<Category>,
    pub rules: Vec<AppRule>,
    pub sessions: Vec<SessionRow>,
    pub settings: Vec<SettingRow>,
}

/// The contents of the tables.
pub struct StoreView {
    pub categories: Seq<CategoryView>,
    pub rules: Seq<AppRuleView>,
    pub sessions: Seq<SessionRowView>,
    pub settings: Seq<(Seq<char>, Seq<char>)>,
}

impl View for StoredTables {
    type V = StoreView;

    open spec fn view(&self) -> StoreView {
        StoreView {
            categories: self.categories.deep_view(),
            rules: self.rules.deep_view(),
            sessions: self.sessions.deep_view(),
            settings: self.settings.deep_view(),
        }
    }
}

/// The tracker's tables, held in memory; every session in them ends no earlier than it
/// starts, no two categories share a name, and every rule's category exists.
pub struct Store {
    tables: StoredTables,
}

impl View for Store {
    type V = StoreView;

    closed spec fn view(&self) -> StoreView {
        self.tables@
    }
}

impl Store {
    #[verifier::type_invariant]
    spec fn well_formed(self) -> bool {
        &&& sessions_ordered(self.tables.sessions.deep_view())
        &&& names_unique(self.tables.categories.deep_view())
        &&& rules_linked(self.tables.rules.deep_view(), self.tables.categories.deep_view())
    }
}

/// Whether a setting row has key `key`.
pub open spec fn key_is(key: Seq<char>) -> spec_fn((Seq<char>, Seq<char>)) -> bool {
    |s: (Seq<char>, Seq<char>)| s.0 == key
}

/// The value stored under `key`: that of the first row with the key.
pub open spec fn setting_value(settings: Seq<(Seq<char>, Seq<char>)>, key: Seq<char>) -> Option<
    Seq<char>,
> {
    match first_index(settings, key_is(key)) {
        Some(i) => Some(settings[i].1),
        None => None,
    }
}

/// Stores `value` under `key` unless the key is there already (`INSERT OR IGNORE`).
pub open spec fn put_default(
    settings: Seq<(Seq<char>, Seq<char>)>,
    key: Seq<char>,
    value: Seq<char>,
) -> Seq<(Seq<char>, Seq<char>)> {
    if setting_value(settings, key) is Some {
        settings
    } else {
        settings.push((key, value))
    }
}

/// The largest of a non-empty list of ids.
pub open spec fn max_id(ids: Seq<i64>) -> int
    decreases ids.len(),
{
    if ids.len() <= 1 {
        ids[0] as int
    } else {
        let m = max_id(ids.drop_last());
        if ids.last() > m {
            ids.last() as int
        } else {
            m
        }
    }
}

/// Whether `c` is the lowest positive id that `ids` does not hold.
pub open spec fn lowest_free(ids: Seq<i64>, c: i64) -> bool {
    &&& 0 < c
    &&& !ids.contains(c)
    &&& forall|d: i64| 0 < d < c ==> ids.contains(d)
}

/// An unused positive id, where `ids` leaves one.
pub closed spec fn free_id(ids: Seq<i64>) -> Option<i64> {
    if exists|c: i64| 0 < c && !ids.contains(c) {
        Some(choose|c: i64| lowest_free(ids, c))
    } else {
        None
    }
}

/// Below an unused positive id there is a lowest one.
proof fn lemma_lowest_free_exists(ids: Seq<i64>, c: i64)
    requires
        0 < c,
        !ids.contains(c),
    ensures
        exists|l: i64| lowest_free(ids, l),
    decreases c,
{
    if !lowest_free(ids, c) {
        let d = choose|d: i64| 0 < d < c && !ids.contains(d);
        lemma_lowest_free_exists(ids, d);
    }
}

/// `free_id` gives an unused positive id, and gives one wherever some positive id is unused.
pub proof fn lemma_free_id(ids: Seq<i64>)
    ensures
        free_id(ids) matches Some(c) ==> 0 < c && !ids.contains(c),
        free_id(ids) is None ==> forall|c: i64| 0 < c ==> ids.contains(c),
{
    if exists|c: i64| 0 < c && !ids.contains(c) {
        let c = choose|c: i64| 0 < c && !ids.contains(c);
        lemma_lowest_free_exists(ids, c);
    }
}

/// The id SQLite gives a new row: one more than the largest id, or 1 in an empty table.
/// Where the largest id is `i64::MAX`, SQLite picks an unused positive id instead (at
/// random); here it is some unused positive id (see `lemma_free_id`), and there is none
/// only where every positive id is taken.
pub open spec fn new_row_id(ids: Seq<i64>) -> Option<i64> {
    if ids.len() == 0 {
        Some(1)
    } else if max_id(ids) < i64::MAX {
        Some((max_id(ids) + 1) as i64)
    } else {
        free_id(ids)
    }
}

pub open spec fn category_ids(categories: Seq<CategoryView>) -> Seq<i64> {
    categories.map_values(|c: CategoryView| c.id)
}

pub open spec fn session_ids(sessions: Seq<SessionRowView>) -> Seq<i64> {
    sessions.map_values(|s: SessionRowView| s.id)
}

/// Whether a category is named `name`.
pub open spec fn category_named(name: Seq<char>) -> spec_fn(CategoryView) -> bool {
    |c: CategoryView| c.name == name
}

/// Adds a category unless one with its name exists (`INSERT OR IGNORE`); nothing where
/// no new id is left.
pub open spec fn seed_category(
    categories: Option<Seq<CategoryView>>,
    name: Seq<char>,
    color: Seq<char>,
) -> Option<Seq<CategoryView>> {
    match categories {
        None => None,
        Some(c) => if first_index(c, category_named(name)) is Some {
            Some(c)
        } else {
            match new_row_id(category_ids(c)) {
                Some(id) => Some(c.push(CategoryView { id, name, color })),
                None => None,
            }
        },
    }
}

/// The categories after the five default categories are seeded.
pub open spec fn default_categories(categories: Seq<CategoryView>) -> Option<Seq<CategoryView>> {
    seed_category(
        seed_category(
            seed_category(
                seed_category(seed_category(Some(categories), "工作"@, "#6E8CFF"@), "学习"@, "#A77BFF"@),
                "沟通"@,
                "#46C2A6"@,
            ),
            "娱乐"@,
            "#FF8E72"@,
        ),
        "工具"@,
        "#E9BC5D"@,
    )
}

/// The key that records that the default categories were seeded once.
pub open spec fn defaults_key() -> Seq<char> {
    "category_defaults_initialized"@
}

/// The tables after the default categories are seeded, once in the life of the database.
pub open spec fn seeded(v: StoreView) -> Option<StoreView> {
    if setting_value(v.settings, defaults_key()) is Some {
        Some(v)
    } else {
        match default_categories(v.categories) {
            Some(c) => Some(
                StoreView {
                    categories: c,
                    rules: v.rules,
                    sessions: v.sessions,
                    settings: v.settings.push((defaults_key(), "true"@)),
                },
            ),
            None => None,
        }
    }
}

/// The categories without those with id `id`.
pub open spec fn remove_category(categories: Seq<CategoryView>, id: i64) -> Seq<CategoryView>
    decreases categories.len(),
{
    if categories.len() == 0 {
        Seq::empty()
    } else {
        let rest = remove_category(categories.drop_last(), id);
        if categories.last().id == id {
            rest
        } else {
            rest.push(categories.last())
        }
    }
}

/// Whether no two categories share a name (the table's `UNIQUE` constraint).
pub open spec fn names_unique(categories: Seq<CategoryView>) -> bool {
    forall|i: int, j: int| 0 <= i < j < categories.len() ==> (#[trigger] categories[i]).name != (#[trigger] categories[j]).name
}

/// Whether every rule's category exists (the table's foreign key).
pub open spec fn rules_linked(rules: Seq<AppRuleView>, categories: Seq<CategoryView>) -> bool {
    forall|i: int| 0 <= i < rules.len() ==> ((#[trigger] rules[i]).category_id matches Some(id) ==> category_of(
        categories,
        id,
    ) is Some)
}

/// The rules with category `id` moved to no category.
pub open spec fn clear_category(rules: Seq<AppRuleView>, id: i64) -> Seq<AppRuleView> {
    rules.map_values(
        |r: AppRuleView|
            if r.category_id == Some(id) {
                AppRuleView {
                    executable: r.executable,
                    display_name: r.display_name,
                    process_path: r.process_path,
                    category_id: None,
                    ignored: r.ignored,
                    continue_tracking_while_idle: r.continue_tracking_while_idle,
                }
            } else {
                r
            },
    )
}

/// The tables without a category named like the reserved category; its applications
/// move to no category.
pub open spec fn without_reserved(v: StoreView) -> StoreView {
    match first_index(v.categories, category_named(reserved_category_name())) {
        Some(i) => StoreView {
            categories: remove_category(v.categories, v.categories[i].id),
            rules: clear_category(v.rules, v.categories[i].id),
            sessions: v.sessions,
            settings: v.settings,
        },
        None => v,
    }
}

/// The settings with a default value under every key that has none.
pub open spec fn with_default_settings(settings: Seq<(Seq<char>, Seq<char>)>) -> Seq<
    (Seq<char>, Seq<char>),
> {
    put_default(
        put_default(
            put_default(
                put_default(
                    put_default(
                        put_default(
                            put_default(settings, "idle_minutes"@, "5"@),
                            "launch_at_login"@,
                            "false"@,
                        ),
                        "show_widget"@,
                        "true"@,
                    ),
                    "font_family"@,
                    "classic"@,
                ),
                "widget_height"@,
                "64"@,
            ),
            "widget_x_offset"@,
            "0"@,
        ),
        "widget_y_offset"@,
        "0"@,
    )
}

/// The tables as opening prepares them: the default categories seeded once, no category
/// named like the reserved one, and a value under every setting.
pub open spec fn opened(v: StoreView) -> Option<StoreView> {
    match seeded(v) {
        Some(s) => {
            let r = without_reserved(s);
            Some(
                StoreView {
                    categories: r.categories,
                    rules: r.rules,
                    sessions: r.sessions,
                    settings: with_default_settings(r.settings),
                },
            )
        },
        None => None,
    }
}

/// Finds the first setting row with key `key`.
pub fn find_setting(settings: &Vec<SettingRow>, key: &str) -> (r: Option<usize>)
    ensures
        match r {
            Some(i) => i < settings@.len() && first_index(settings.deep_view(), key_is(key@)) == Some(
                i as int,
            ),
            None => first_index(settings.deep_view(), key_is(key@)) is None,
        },
        match r {
            Some(i) => setting_value(settings.deep_view(), key@) == Some(settings@[i as int].value@),
            None => setting_value(settings.deep_view(), key@) is None,
        },
{
    let ghost sv = settings.deep_view();
    let ghost p = key_is(key@);
    let mut i: usize = 0;
    while i < settings.len()
        invariant
            sv == settings.deep_view(),
            p == key_is(key@),
            i <= settings@.len(),
            forall|j: int| 0 <= j < i ==> !p(#[trigger] sv[j]),
        decreases settings.len() - i,
    {
        assert(sv[i as int] == settings@[i as int]@);
        if text_eq(settings[i].key.as_str(), key) {
            proof {
                lemma_first_index(sv, p, i as int);
            }
            return Some(i);
        }
        assert(!p(sv[i as int]));
        i = i + 1;
    }
    proof {
        lemma_first_index(sv, p, i as int);
    }
    None
}

/// Stores `value` under `key` unless the key is there already.
pub fn put_default_setting(settings: &mut Vec<SettingRow>, key: &str, value: &str)
    ensures
        final(settings).deep_view() == put_default(old(settings).deep_view(), key@, value@),
{
    match find_setting(settings, key) {
        Some(_) => {},
        None => {
            let row = SettingRow { key: owned(key), value: owned(value) };
            let ghost before = settings.deep_view();
            settings.push(row);
            assert(settings.deep_view() =~= before.push((key@, value@)));
        },
    }
}

/// The id for a new row of a table with ids `ids`.
pub fn new_id_among(ids: &Vec<i64>) -> (r: Option<i64>)
    ensures
        r == new_row_id(ids@),
{
    if ids.len() == 0 {
        return Some(1);
    }
    let mut m: i64 = ids[0];
    let mut i: usize = 1;
    while i < ids.len()
        invariant
            1 <= i <= ids@.len(),
            m == max_id(ids@.subrange(0, i as int)),
        decreases ids.len() - i,
    {
        assert(ids@.subrange(0, i + 1).drop_last() =~= ids@.subrange(0, i as int));
        if ids[i] > m {
            m = ids[i];
        }
        i = i + 1;
    }
    assert(ids@.subrange(0, i as int) =~= ids@);
    if m < i64::MAX {
        return Some(m + 1);
    }
    let mut c: i64 = 1;
    let mut found = false;
    while !found
        invariant
            1 <= c,
            ids@.len() > 0,
            max_id(ids@) == i64::MAX,
            forall|d: i64| 0 < d < c ==> ids@.contains(d),
            found ==> !ids@.contains(c),
        decreases i64::MAX - c + (if found { 0int } else { 1int }),
    {
        let mut k: usize = 0;
        let mut seen = false;
        while k < ids.len() && !seen
            invariant
                k <= ids@.len(),
                seen ==> ids@.contains(c),
                !seen ==> forall|j: int| 0 <= j < k ==> ids@[j] != c,
            decreases ids.len() - k + (if seen { 0int } else { 1int }),
        {
            if ids[k] == c {
                seen = true;
            } else {
                k = k + 1;
            }
        }
        if !seen {
            found = true;
        } else if c == i64::MAX {
            proof {
                assert forall|d: i64| 0 < d implies ids@.contains(d) by {
                    if d < c {
                    } else {
                        assert(d == c);
                    }
                }
                lemma_free_id(ids@);
                if exists|x: i64| 0 < x && !ids@.contains(x) {
                    let x = choose|x: i64| 0 < x && !ids@.contains(x);
                    assert(ids@.contains(x));
                }
            }
            return None;
        } else {
            c = c + 1;
        }
    }
    proof {
        assert(lowest_free(ids@, c));
        let l = choose|l: i64| lowest_free(ids@, l);
        if l < c {
            assert(ids@.contains(l));
        } else if c < l {
            assert(ids@.contains(c));
        }
    }
    Some(c)
}

/// The ids of the categories.
pub fn ids_of_categories(categories: &Vec<Category>) -> (r: Vec<i64>)
    ensures
        r@ == category_ids(categories.deep_view()),
{
    let mut r: Vec<i64> = Vec::new();
    let mut i: usize = 0;
    while i < categories.len()
        invariant
            i <= categories@.len(),
            r@ =~= category_ids(categories.deep_view()).subrange(0, i as int),
        decreases categories.len() - i,
    {
        assert(categories.deep_view()[i as int] == categories@[i as int]@);
        r.push(categories[i].id);
        i = i + 1;
    }
    r
}

/// The ids of the sessions.
pub fn ids_of_sessions(sessions: &Vec<SessionRow>) -> (r: Vec<i64>)
    ensures
        r@ == session_ids(sessions.deep_view()),
{
    let mut r: Vec<i64> = Vec::new();
    let mut i: usize = 0;
    while i < sessions.len()
        invariant
            i <= sessions@.len(),
            r@ =~= session_ids(sessions.deep_view()).subrange(0, i as int),
        decreases sessions.len() - i,
    {
        assert(sessions.deep_view()[i as int] == sessions@[i as int]@);
        r.push(sessions[i].id);
        i = i + 1;
    }
    r
}

/// Finds the first category named `name`.
pub fn find_category_named(categories: &Vec<Category>, name: &str) -> (r: Option<usize>)
    ensures
        match r {
            Some(i) => i < categories@.len() && first_index(
                categories.deep_view(),
                category_named(name@),
            ) == Some(i as int),
            None => first_index(categories.deep_view(), category_named(name@)) is None,
        },
{
    let ghost cv = categories.deep_view();
    let ghost p = category_named(name@);
    let mut i: usize = 0;
    while i < categories.len()
        invariant
            cv == categories.deep_view(),
            p == category_named(name@),
            i <= categories@.len(),
            forall|j: int| 0 <= j < i ==> !p(#[trigger] cv[j]),
        decreases categories.len() - i,
    {
        assert(cv[i as int] == categories@[i as int]@);
        if text_eq(categories[i].name.as_str(), name) {
            proof {
                lemma_first_index(cv, p, i as int);
            }
            return Some(i);
        }
        assert(!p(cv[i as int]));
        i = i + 1;
    }
    proof {
        lemma_first_index(cv, p, i as int);
    }
    None
}

/// Adds a category unless one with its name exists; an error where no id is left.
pub fn seed_one(categories: &mut Vec<Category>, name: &str, color: &str) -> (r: Result<(), String>)
    ensures
        match r {
            Ok(()) => seed_category(Some(old(categories).deep_view()), name@, color@) == Some(
                final(categories).deep_view(),
            ),
            Err(_) => seed_category(Some(old(categories).deep_view()), name@, color@) is None,
        },
{
    match find_category_named(categories, name) {
        Some(_) => Ok(()),
        None => {
            let ids = ids_of_categories(categories);
            match new_id_among(&ids) {
                Some(id) => {
                    let ghost before = categories.deep_view();
                    let c = Category { id, name: owned(name), color: owned(color) };
                    categories.push(c);
                    assert(categories.deep_view() =~= before.push(c@));
                    Ok(())
                },
                None => Err(owned("database or disk is full")),
            }
        },
    }
}

/// Copies the categories without those with id `id`.
pub fn categories_without(categories: &Vec<Category>, id: i64) -> (r: Vec<Category>)
    ensures
        r.deep_view() == remove_category(categories.deep_view(), id),
{
    let ghost cv = categories.deep_view();
    let mut r: Vec<Category> = Vec::new();
    let mut i: usize = 0;
    while i < categories.len()
        invariant
            cv == categories.deep_view(),
            i <= cv.len(),
            r.deep_view() == remove_category(cv.subrange(0, i as int), id),
        decreases categories.len() - i,
    {
        assert(cv.subrange(0, i + 1).drop_last() =~= cv.subrange(0, i as int));
        assert(cv[i as int] == categories@[i as int]@);
        if categories[i].id != id {
            let c = copy_category(&categories[i]);
            let ghost before = r.deep_view();
            r.push(c);
            assert(r.deep_view() =~= before.push(c@));
        }
        i = i + 1;
    }
    assert(cv.subrange(0, i as int) =~= cv);
    r
}

/// Copies the rules, moving those with category `id` to no category.
pub fn rules_without_category(rules: &Vec<AppRule>, id: i64) -> (r: Vec<AppRule>)
    ensures
        r.deep_view() == clear_category(rules.deep_view(), id),
{
    let ghost rv = rules.deep_view();
    let mut r: Vec<AppRule> = Vec::new();
    let mut i: usize = 0;
    while i < rules.len()
        invariant
            rv == rules.deep_view(),
            i <= rv.len(),
            r.deep_view() =~= clear_category(rv, id).subrange(0, i as int),
        decreases rules.len() - i,
    {
        assert(rv[i as int] == rules@[i as int]@);
        let mut x = copy_rule(&rules[i]);
        if x.category_id == Some(id) {
            x.category_id = None;
        }
        let ghost before = r.deep_view();
        r.push(x);
        assert(r.deep_view() =~= before.push(x@));
        i = i + 1;
    }
    r
}

/// Copies a list of sessions.
pub fn copy_sessions(v: &Vec<SessionRow>) -> (r: Vec<SessionRow>)
    ensures
        r.deep_view() == v.deep_view(),
{
    let mut r: Vec<SessionRow> = Vec::new();
    let mut i: usize = 0;
    while i < v.len()
        invariant
            i <= v@.len(),
            r.deep_view() =~= v.deep_view().subrange(0, i as int),
        decreases v.len() - i,
    {
        let x = copy_session(&v[i]);
        let ghost before = r.deep_view();
        r.push(x);
        assert(r.deep_view() =~= before.push(x@));
        i = i + 1;
    }
    r
}

/// Copies a list of categories.
pub fn copy_categories(v: &Vec<Category>) -> (r: Vec<Category>)
    ensures
        r.deep_view() == v.deep_view(),
{
    let mut r: Vec<Category> = Vec::new();
    let mut i: usize = 0;
    while i < v.len()
        invariant
            i <= v@.len(),
            r.deep_view() =~= v.deep_view().subrange(0, i as int),
        decreases v.len() - i,
    {
        let x = copy_category(&v[i]);
        let ghost before = r.deep_view();
        r.push(x);
        assert(r.deep_view() =~= before.push(x@));
        i = i + 1;
    }
    r
}

/// Copies a list of rules.
pub fn copy_rules(v: &Vec<AppRule>) -> (r: Vec<AppRule>)
    ensures
        r.deep_view() == v.deep_view(),
{
    let mut r: Vec<AppRule> = Vec::new();
    let mut i: usize = 0;
    while i < v.len()
        invariant
            i <= v@.len(),
            r.deep_view() =~= v.deep_view().subrange(0, i as int),
        decreases v.len() - i,
    {
        let x = copy_rule(&v[i]);
        let ghost before = r.deep_view();
        r.push(x);
        assert(r.deep_view() =~= before.push(x@));
        i = i + 1;
    }
    r
}

/// Copies a list of settings.
pub fn copy_settings(v: &Vec<SettingRow>) -> (r: Vec<SettingRow>)
    ensures
        r.deep_view() == v.deep_view(),
{
    let mut r: Vec<SettingRow> = Vec::new();
    let mut i: usize = 0;
    while i < v.len()
        invariant
            i <= v@.len(),
            r.deep_view() =~= v.deep_view().subrange(0, i as int),
        decreases v.len() - i,
    {
        let x = copy_setting(&v[i]);
        let ghost before = r.deep_view();
        r.push(x);
        assert(r.deep_view() =~= before.push(x@));
        i = i + 1;
    }
    r
}

/// Whether every session ends no earlier than it starts (the table's `CHECK`).
pub fn check_sessions(v: &Vec<SessionRow>) -> (r: bool)
    ensures
        r == sessions_ordered(v.deep_view()),
{
    let mut i: usize = 0;
    while i < v.len()
        invariant
            i <= v@.len(),
            forall|j: int| 0 <= j < i ==> v.deep_view()[j].started_at <= #[trigger] v.deep_view()[j].ended_at,
        decreases v.len() - i,
    {
        assert(v.deep_view()[i as int] == v@[i as int]@);
        if v[i].started_at > v[i].ended_at {
            assert(!(v.deep_view()[i as int].started_at <= v.deep_view()[i as int].ended_at));
            return false;
        }
        i = i + 1;
    }
    true
}

/// Whether no two categories share a name.
pub fn check_names_unique(v: &Vec<Category>) -> (r: bool)
    ensures
        r == names_unique(v.deep_view()),
{
    let ghost cs = v.deep_view();
    let mut j: usize = 0;
    while j < v.len()
        invariant
            cs == v.deep_view(),
            j <= cs.len(),
            forall|a: int, b: int| 0 <= a < b < j ==> (#[trigger] cs[a]).name != (#[trigger] cs[b]).name,
        decreases v.len() - j,
    {
        let mut i: usize = 0;
        while i < j
            invariant
                cs == v.deep_view(),
                i <= j < cs.len(),
                forall|a: int| 0 <= a < i ==> (#[trigger] cs[a]).name != cs[j as int].name,
            decreases j - i,
        {
            assert(cs[i as int] == v@[i as int]@ && cs[j as int] == v@[j as int]@);
            if text_eq(v[i].name.as_str(), v[j].name.as_str()) {
                assert(!names_unique(cs)) by {
                    assert((cs[i as int]).name == (cs[j as int]).name);
                }
                return false;
            }
            i = i + 1;
        }
        j = j + 1;
    }
    true
}

/// Whether every rule's category exists.
pub fn check_rules_linked(rules: &Vec<AppRule>, categories: &Vec<Category>) -> (r: bool)
    ensures
        r == rules_linked(rules.deep_view(), categories.deep_view()),
{
    let ghost rv = rules.deep_view();
    let mut i: usize = 0;
    while i < rules.len()
        invariant
            rv == rules.deep_view(),
            i <= rv.len(),
            forall|j: int| 0 <= j < i ==> ((#[trigger] rv[j]).category_id matches Some(id) ==> category_of(
                categories.deep_view(),
                id,
            ) is Some),
        decreases rules.len() - i,
    {
        assert(rv[i as int] == rules@[i as int]@);
        if let Some(id) = rules[i].category_id {
            if find_category(categories, id).is_none() {
                return false;
            }
        }
        i = i + 1;
    }
    true
}

impl Store {
    /// Opens the store over tables loaded from the database: seeds the default
    /// categories once, removes any category named like the reserved one (its
    /// applications fall back to no category), and stores a default value under every
    /// setting that has none. An error where a session ends before it starts, where two
    /// categories share a name, where a rule names a category that does not exist, or
    /// where a new category has no id left.
    pub fn open(tables: StoredTables) -> (r: Result<Store, String>)
        ensures
            match r {
                Ok(store) => sessions_ordered(tables@.sessions) && names_unique(tables@.categories)
                    && rules_linked(tables@.rules, tables@.categories) && opened(tables@) == Some(store@),
                Err(_) => !sessions_ordered(tables@.sessions) || !names_unique(tables@.categories)
                    || !rules_linked(tables@.rules, tables@.categories) || opened(tables@) is None,
            },
    {
        let StoredTables { mut categories, mut rules, sessions, mut settings } = tables;
        if !check_sessions(&sessions) {
            return Err(owned("CHECK constraint failed: ended_at >= started_at"));
        }
        if !check_names_unique(&categories) {
            return Err(owned("UNIQUE constraint failed: categories.name"));
        }
        if !check_rules_linked(&rules, &categories) {
            return Err(owned("FOREIGN KEY constraint failed"));
        }
        let ghost v0 = tables@;
        if find_setting(&settings, "category_defaults_initialized").is_none() {
            seed_one(&mut categories, "工作", "#6E8CFF")?;
            seed_one(&mut categories, "学习", "#A77BFF")?;
            seed_one(&mut categories, "沟通", "#46C2A6")?;
            seed_one(&mut categories, "娱乐", "#FF8E72")?;
            seed_one(&mut categories, "工具", "#E9BC5D")?;
            let row = SettingRow { key: owned("category_defaults_initialized"), value: owned("true") };
            let ghost before = settings.deep_view();
            settings.push(row);
            assert(settings.deep_view() =~= before.push((defaults_key(), "true"@)));
        }
        let ghost v1 = StoreView {
            categories: categories.deep_view(),
            rules: rules.deep_view(),
            sessions: sessions.deep_view(),
            settings: settings.deep_view(),
        };
        assert(seeded(v0) == Some(v1));
        match find_category_named(&categories, "其他") {
            Some(i) => {
                let id = categories[i].id;
                assert(categories.deep_view()[i as int] == categories@[i as int]@);
                rules = rules_without_category(&rules, id);
                categories = categories_without(&categories, id);
            },
            None => {},
        }
        let ghost v2 = without_reserved(v1);
        assert(categories.deep_view() == v2.categories && rules.deep_view() == v2.rules);
        put_default_setting(&mut settings, "idle_minutes", "5");
        put_default_setting(&mut settings, "launch_at_login", "false");
        put_default_setting(&mut settings, "show_widget", "true");
        put_default_setting(&mut settings, "font_family", "classic");
        put_default_setting(&mut settings, "widget_height", "64");
        put_default_setting(&mut settings, "widget_x_offset", "0");
        put_default_setting(&mut settings, "widget_y_offset", "0");
        proof {
            law_open_keeps_names_unique(v0);
            law_open_keeps_rules_linked(v0);
        }
        let store = Store { tables: StoredTables { categories, rules, sessions, settings } };
        Ok(store)
    }

    /// A copy of the tables, to be saved to the database.
    pub fn tables(&self) -> (r: StoredTables)
        ensures
            r@ == self@,
    {
        StoredTables {
            categories: copy_categories(&self.tables.categories),
            rules: copy_rules(&self.tables.rules),
            sessions: copy_sessions(&self.tables.sessions),
            settings: copy_settings(&self.tables.settings),
        }
    }
}


/// The font family that a stored name selects: `serif` and `sans` select themselves,
/// anything else the classic family.
pub open spec fn font_family_name(v: Seq<char>) -> Seq<char> {
    if v == "serif"@ {
        "serif"@
    } else if v == "sans"@ {
        "sans"@
    } else {
        "classic"@
    }
}

/// The font family that a stored name selects.
pub fn normalize_font_family(value: &str) -> (r: &'static str)
    ensures
        r@ == font_family_name(value@),
{
    if text_eq(value, "serif") {
        "serif"
    } else if text_eq(value, "sans") {
        "sans"
    } else {
        "classic"
    }
}

/// Whether `c` is an ASCII hexadecimal digit.
pub open spec fn is_hex_digit(c: char) -> bool {
    ('0' <= c <= '9') || ('a' <= c <= 'f') || ('A' <= c <= 'F')
}

/// Whether `s` is a color code `#RRGGBB`.
pub open spec fn is_color_code(s: Seq<char>) -> bool {
    s.len() == 7 && s[0] == '#' && forall|i: int| 1 <= i < 7 ==> is_hex_digit(#[trigger] s[i])
}

/// ASCII upper case of one character.
pub open spec fn upper_case(c: char) -> char {
    if 'a' <= c <= 'z' {
        ((c as u32) - 32) as char
    } else {
        c
    }
}

/// The message for a color that is not `#RRGGBB`.
pub open spec fn color_error() -> Seq<char> {
    "分类颜色必须是 #RRGGBB 格式"@
}

/// A color as stored: the trimmed `#RRGGBB` code in upper case, or an error.
pub open spec fn color_result(value: Seq<char>) -> Result<Seq<char>, Seq<char>> {
    let t = trimmed(value);
    if is_color_code(t) {
        Ok(t.map_values(|c: char| upper_case(c)))
    } else {
        Err(color_error())
    }
}

/// Checks a color code `#RRGGBB` (surrounding white space ignored) and writes it in
/// upper case.
pub fn normalize_color(value: &str) -> (r: Result<String, String>)
    ensures
        match (r, color_result(value@)) {
            (Ok(c), Ok(x)) => c@ == x,
            (Err(e), Err(x)) => e@ == x,
            _ => false,
        },
{
    let t = trim(value);
    let v = chars_of(t);
    let mut ok = v.len() == 7 && v[0] == '#';
    let mut i: usize = 1;
    while ok && i < 7
        invariant
            ok ==> v@.len() == 7 && v@[0] == '#',
            1 <= i <= 7,
            ok ==> forall|j: int| 1 <= j < i ==> is_hex_digit(#[trigger] v@[j]),
            !ok ==> !is_color_code(v@),
        decreases 7 - i,
    {
        let c = v[i];
        if !(('0' <= c && c <= '9') || ('a' <= c && c <= 'f') || ('A' <= c && c <= 'F')) {
            ok = false;
        }
        i = i + 1;
    }
    if !ok {
        return Err(owned("分类颜色必须是 #RRGGBB 格式"));
    }
    let mut out: Vec<char> = Vec::new();
    let mut k: usize = 0;
    while k < v.len()
        invariant
            k <= v@.len(),
            out@ =~= v@.subrange(0, k as int).map_values(|c: char| upper_case(c)),
        decreases v.len() - k,
    {
        let c = v[k];
        let u = if 'a' <= c && c <= 'z' {
            let b: u8 = c as u8;
            (b - 32) as char
        } else {
            c
        };
        out.push(u);
        k = k + 1;
    }
    assert(v@.subrange(0, k as int) =~= v@);
    Ok(string_from_chars(&out))
}

/// The rules after `rule_for` records an executable: a new rule for a new executable, or
/// the stored rule with its process path refreshed.
pub open spec fn upserted_rules(rules: Seq<AppRuleView>, exe: Seq<char>, name: Seq<char>, path: Seq<char>) -> Seq<AppRuleView> {
    match first_index(rules, rule_is_for(exe)) {
        Some(i) => rules.update(
            i,
            AppRuleView {
                executable: rules[i].executable,
                display_name: rules[i].display_name,
                process_path: path,
                category_id: rules[i].category_id,
                ignored: rules[i].ignored,
                continue_tracking_while_idle: rules[i].continue_tracking_while_idle,
            },
        ),
        None => rules.push(
            AppRuleView {
                executable: exe,
                display_name: name,
                process_path: path,
                category_id: None,
                ignored: false,
                continue_tracking_while_idle: false,
            },
        ),
    }
}

/// The name of a category id: that of the category, or the reserved name where there is none.
pub open spec fn category_name_of(categories: Seq<CategoryView>, id: Option<i64>) -> Seq<char> {
    match id {
        Some(c) => match category_of(categories, c) {
            Some(x) => x.name,
            None => reserved_category_name(),
        },
        None => reserved_category_name(),
    }
}

/// What the tracker knows of an application from its rule.
pub open spec fn app_info_of(r: AppRuleView, categories: Seq<CategoryView>) -> AppInfoView {
    AppInfoView {
        executable: r.executable,
        display_name: r.display_name,
        process_path: r.process_path,
        category: category_name_of(categories, r.category_id),
        ignored: r.ignored,
        continue_tracking_while_idle: r.continue_tracking_while_idle,
    }
}

impl Store {
    /// Records that `executable` runs from `process_path` (a new rule for a new
    /// executable; the stored rule keeps its name, category and flags) and gives what
    /// its rule says of it.
    pub fn rule_for(&mut self, executable: &str, display_name: &str, process_path: &str) -> (r: Result<AppInfo, String>)
        ensures
            final(self)@.categories == old(self)@.categories,
            final(self)@.sessions == old(self)@.sessions,
            final(self)@.settings == old(self)@.settings,
            final(self)@.rules == upserted_rules(old(self)@.rules, executable@, display_name@, process_path@),
            rule_of(final(self)@.rules, executable@) is Some,
            r matches Ok(info) && info@ == app_info_of(rule_of(final(self)@.rules, executable@).unwrap(), final(self)@.categories),
    {
        proof {
            use_type_invariant(&*self);
        }
        let ghost rv = self@.rules;
        let i = match find_rule(&self.tables.rules, executable) {
            Some(i) => {
                assert(rv[i as int] == self.tables.rules@[i as int]@);
                let mut x = copy_rule(&self.tables.rules[i]);
                x.process_path = owned(process_path);
                let mut rules = copy_rules(&self.tables.rules);
                let ghost before = rules.deep_view();
                rules.set(i, x);
                assert(rules.deep_view() =~= before.update(i as int, x@));
                assert(rules_linked(rules.deep_view(), self@.categories)) by {
                    assert forall|j: int| 0 <= j < rules.deep_view().len() implies ((#[trigger] rules.deep_view()[j]).category_id matches Some(id)
                        ==> category_of(self@.categories, id) is Some) by {
                        assert(rv[j] == before[j]);
                    }
                }
                self.tables.rules = rules;
                i
            },
            None => {
                let x = AppRule {
                    executable: owned(executable),
                    display_name: owned(display_name),
                    process_path: owned(process_path),
                    category_id: None,
                    ignored: false,
                    continue_tracking_while_idle: false,
                };
                let mut rules = copy_rules(&self.tables.rules);
                let ghost before = rules.deep_view();
                rules.push(x);
                assert(rules.deep_view() =~= before.push(x@));
                assert(rules_linked(rules.deep_view(), self@.categories)) by {
                    assert forall|j: int| 0 <= j < rules.deep_view().len() implies ((#[trigger] rules.deep_view()[j]).category_id matches Some(id)
                        ==> category_of(self@.categories, id) is Some) by {
                        if j < before.len() {
                            assert(rv[j] == before[j]);
                        }
                    }
                }
                let n = self.tables.rules.len();
                self.tables.rules = rules;
                n
            },
        };
        let ghost nv = self@.rules;
        proof {
            lemma_first_index_found(rv, rule_is_for(executable@));
            assert forall|j: int| 0 <= j < i implies !rule_is_for(executable@)(#[trigger] nv[j]) by {
                assert(nv[j] == rv[j]);
            }
            lemma_first_index(nv, rule_is_for(executable@), i as int);
        }
        assert(nv[i as int] == self.tables.rules@[i as int]@);
        let rule = &self.tables.rules[i];
        let category = match rule.category_id {
            Some(id) => match find_category(&self.tables.categories, id) {
                Some(c) => {
                    assert(self@.categories[c as int] == self.tables.categories@[c as int]@);
                    self.tables.categories[c].name.clone()
                },
                None => owned("其他"),
            },
            None => owned("其他"),
        };
        Ok(AppInfo {
            executable: owned(executable),
            display_name: rule.display_name.clone(),
            process_path: rule.process_path.clone(),
            category,
            ignored: rule.ignored,
            continue_tracking_while_idle: rule.continue_tracking_while_idle,
        })
    }
}


/// The position of the latest-ending session of an application (executable and display
/// name); the first such session where several end together.
pub open spec fn latest_session(rows: Seq<SessionRowView>, exe: Seq<char>, name: Seq<char>) -> Option<int>
    decreases rows.len(),
{
    if rows.len() == 0 {
        None
    } else {
        let b = latest_session(rows.drop_last(), exe, name);
        let s = rows.last();
        if s.executable == exe && s.display_name == name && match b {
            None => true,
            Some(j) => s.ended_at > rows[j].ended_at,
        } {
            Some(rows.len() - 1)
        } else {
            b
        }
    }
}

/// The sessions after recording use of `app` from `start` to `end`: nothing for an
/// ignored application or an empty span; the latest session of the application is
/// extended where it ended exactly at `start`; otherwise a new session. Nothing where a
/// new session has no id left.
pub open spec fn appended(sessions: Seq<SessionRowView>, app: AppInfoView, start: i64, end: i64) -> Option<Seq<SessionRowView>> {
    if app.ignored || end <= start {
        Some(sessions)
    } else {
        let latest = latest_session(sessions, app.executable, app.display_name);
        if latest matches Some(j) && sessions[j].ended_at == start {
            let j = latest.unwrap();
            Some(sessions.update(
                j,
                SessionRowView {
                    id: sessions[j].id,
                    executable: sessions[j].executable,
                    display_name: sessions[j].display_name,
                    process_path: sessions[j].process_path,
                    started_at: sessions[j].started_at,
                    ended_at: end,
                },
            ))
        } else {
            match new_row_id(session_ids(sessions)) {
                Some(id) => Some(sessions.push(
                    SessionRowView {
                        id,
                        executable: app.executable,
                        display_name: app.display_name,
                        process_path: app.process_path,
                        started_at: start,
                        ended_at: end,
                    },
                )),
                None => None,
            }
        }
    }
}

pub proof fn lemma_latest_session_bound(rows: Seq<SessionRowView>, exe: Seq<char>, name: Seq<char>)
    ensures
        latest_session(rows, exe, name) matches Some(j) ==> 0 <= j < rows.len(),
    decreases rows.len(),
{
    if rows.len() > 0 {
        lemma_latest_session_bound(rows.drop_last(), exe, name);
    }
}

/// The categories ordered by id.
pub open spec fn categories_by_id(categories: Seq<CategoryView>) -> Seq<CategoryView> {
    sorted_positions(
        categories.map_values(|c: CategoryView| SortKeyView { first: c.id as int, second: 0, text1: Seq::empty(), text2: Seq::empty() }),
    ).map_values(|i: int| categories[i])
}

/// The rules ordered by display name, compared with SQLite's `NOCASE` folding.
pub open spec fn rules_by_name(rules: Seq<AppRuleView>) -> Seq<AppRuleView> {
    sorted_positions(
        rules.map_values(|r: AppRuleView| SortKeyView { first: 0, second: 0, text1: folded(r.display_name), text2: Seq::empty() }),
    ).map_values(|i: int| rules[i])
}

/// Whether some category's name equals `name` with SQLite's `NOCASE` folding.
pub open spec fn name_taken(categories: Seq<CategoryView>, name: Seq<char>) -> bool {
    exists|i: int| 0 <= i < categories.len() && folded(#[trigger] categories[i].name) == folded(name)
}

/// The message for a category name that is empty or longer than twenty characters.
pub open spec fn category_length_error() -> Seq<char> {
    "分类名称需要包含 1 至 20 个字符"@
}

/// The message for the reserved category name.
pub open spec fn category_reserved_error() -> Seq<char> {
    "“其他”是未分类应用的保留名称"@
}

/// The message for a category name already in use.
pub open spec fn category_exists_error() -> Seq<char> {
    "分类名称已存在"@
}

/// The category that `create_category` adds, or its error: the name is trimmed and must
/// hold 1 to 20 characters, must not be the reserved name nor the name of another
/// category (ignoring ASCII case), and the color must be a `#RRGGBB` code.
pub open spec fn category_creation(categories: Seq<CategoryView>, name: Seq<char>, color: Seq<char>) -> Result<CategoryView, Seq<char>> {
    let n = trimmed(name);
    if n.len() == 0 || n.len() > 20 {
        Err(category_length_error())
    } else if n == reserved_category_name() {
        Err(category_reserved_error())
    } else {
        match color_result(color) {
            Err(e) => Err(e),
            Ok(c) => if name_taken(categories, n) {
                Err(category_exists_error())
            } else {
                match new_row_id(category_ids(categories)) {
                    Some(id) => Ok(CategoryView { id, name: n, color: c }),
                    None => Err("database or disk is full"@),
                }
            },
        }
    }
}

/// The message for a category that does not exist.
pub open spec fn category_missing_error() -> Seq<char> {
    "分类不存在"@
}

/// Whether some category's name equals `name` with `NOCASE` folding.
pub fn is_name_taken(categories: &Vec<Category>, name: &str) -> (r: bool)
    ensures
        r == name_taken(categories.deep_view(), name@),
{
    let target = folded_chars(name);
    let mut i: usize = 0;
    while i < categories.len()
        invariant
            target@ == folded(name@),
            i <= categories@.len(),
            forall|j: int| 0 <= j < i ==> folded(#[trigger] categories.deep_view()[j].name) != folded(name@),
        decreases categories.len() - i,
    {
        assert(categories.deep_view()[i as int] == categories@[i as int]@);
        let f = folded_chars(categories[i].name.as_str());
        if chars_equal(&f, &target) {
            assert(folded(categories.deep_view()[i as int].name) == folded(name@));
            return true;
        }
        i = i + 1;
    }
    false
}

impl Store {
    /// Records use of `app` from `started_at` to `ended_at` (milliseconds): nothing for an
    /// ignored application or an empty span; otherwise the latest session of the same
    /// executable and display name grows when it ended exactly at `started_at`, and a new
    /// session is added when it did not.
    pub fn append_session(&mut self, app: &AppInfo, started_at: i64, ended_at: i64) -> (r: Result<(), String>)
        ensures
            final(self)@.categories == old(self)@.categories,
            final(self)@.rules == old(self)@.rules,
            final(self)@.settings == old(self)@.settings,
            match r {
                Ok(()) => appended(old(self)@.sessions, app@, started_at, ended_at) == Some(final(self)@.sessions),
                Err(_) => appended(old(self)@.sessions, app@, started_at, ended_at) is None && final(self)@ == old(self)@,
            },
    {
        proof {
            use_type_invariant(&*self);
        }
        if app.ignored || ended_at <= started_at {
            return Ok(());
        }
        let ghost sv = self@.sessions;
        let mut latest: Option<usize> = None;
        let mut i: usize = 0;
        while i < self.tables.sessions.len()
            invariant
                sv == self.tables.sessions.deep_view(),
                i <= sv.len(),
                latest == match latest_session(sv.subrange(0, i as int), app.executable@, app.display_name@) {
                    Some(j) => Some(j as usize),
                    None => None::<usize>,
                },
                latest matches Some(j) ==> j < i,
            decreases self.tables.sessions.len() - i,
        {
            let ghost pre = sv.subrange(0, i as int);
            let ghost cur = sv.subrange(0, i + 1);
            assert(cur.drop_last() =~= pre);
            assert(sv[i as int] == self.tables.sessions@[i as int]@);
            proof {
                lemma_latest_session_bound(pre, app.executable@, app.display_name@);
            }
            let s = &self.tables.sessions[i];
            if s.executable == app.executable && s.display_name == app.display_name {
                let better = match latest {
                    None => true,
                    Some(j) => {
                        assert(sv[j as int] == self.tables.sessions@[j as int]@);
                        assert(cur[j as int] == sv[j as int]);
                        s.ended_at > self.tables.sessions[j].ended_at
                    },
                };
                if better {
                    latest = Some(i);
                }
            }
            i = i + 1;
        }
        assert(sv.subrange(0, i as int) =~= sv);
        proof {
            lemma_latest_session_bound(sv, app.executable@, app.display_name@);
        }
        if let Some(j) = latest {
            assert(sv[j as int] == self.tables.sessions@[j as int]@);
            if self.tables.sessions[j].ended_at == started_at {
                let mut x = copy_session(&self.tables.sessions[j]);
                x.ended_at = ended_at;
                let mut rows = copy_sessions(&self.tables.sessions);
                let ghost before = rows.deep_view();
                rows.set(j, x);
                assert(rows.deep_view() =~= before.update(j as int, x@));
                self.tables.sessions = rows;
                return Ok(());
            }
        }
        let ids = ids_of_sessions(&self.tables.sessions);
        match new_id_among(&ids) {
            Some(id) => {
                let x = SessionRow {
                    id,
                    executable: app.executable.clone(),
                    display_name: app.display_name.clone(),
                    process_path: app.process_path.clone(),
                    started_at,
                    ended_at,
                };
                let mut rows = copy_sessions(&self.tables.sessions);
                let ghost before = rows.deep_view();
                rows.push(x);
                assert(rows.deep_view() =~= before.push(x@));
                self.tables.sessions = rows;
                Ok(())
            },
            None => Err(owned("database or disk is full")),
        }
    }

    /// The categories, ordered by id.
    pub fn categories(&self) -> (r: Result<Vec<Category>, String>)
        ensures
            r matches Ok(v) && v.deep_view() == categories_by_id(self@.categories),
    {
        let cv = &self.tables.categories;
        let ghost cs = cv.deep_view();
        let ghost ks = cs.map_values(|c: CategoryView| SortKeyView { first: c.id as int, second: 0, text1: Seq::empty(), text2: Seq::empty() });
        let mut keys: Vec<SortKey> = Vec::new();
        let mut i: usize = 0;
        while i < cv.len()
            invariant
                cs == cv.deep_view(),
                ks == cs.map_values(|c: CategoryView| SortKeyView { first: c.id as int, second: 0, text1: Seq::empty(), text2: Seq::empty() }),
                i <= cs.len(),
                keys.deep_view() =~= ks.subrange(0, i as int),
            decreases cv.len() - i,
        {
            assert(cs[i as int] == cv@[i as int]@);
            let t1: Vec<char> = Vec::new();
            let t2: Vec<char> = Vec::new();
            let k = SortKey { first: cv[i].id as i128, second: 0, text1: t1, text2: t2 };
            assert(k@ == ks[i as int]) by {
                assert(t1@ =~= Seq::<char>::empty());
                assert(t2@ =~= Seq::<char>::empty());
            }
            let ghost before = keys.deep_view();
            keys.push(k);
            assert(keys.deep_view() =~= before.push(k@));
            i = i + 1;
        }
        assert(ks.subrange(0, i as int) =~= ks);
        let order = sort_positions(&keys);
        let ghost sp = sorted_positions(ks);
        let mut out: Vec<Category> = Vec::new();
        let mut j: usize = 0;
        while j < order.len()
            invariant
                cs == cv.deep_view(),
                order@.len() == cs.len(),
                order@.map_values(|i: usize| i as int) == sp,
                forall|k: int| 0 <= k < order@.len() ==> order@[k] < cs.len(),
                j <= order@.len(),
                out.deep_view() =~= sp.subrange(0, j as int).map_values(|i: int| cs[i]),
            decreases order.len() - j,
        {
            assert(sp[j as int] == order@[j as int] as int);
            assert(cs[sp[j as int]] == cv@[order@[j as int] as int]@);
            let x = copy_category(&cv[order[j]]);
            let ghost before = out.deep_view();
            out.push(x);
            assert(out.deep_view() =~= before.push(x@));
            j = j + 1;
        }
        assert(sp.subrange(0, j as int) =~= sp);
        Ok(out)
    }

    /// The rules, ordered by display name with `NOCASE` folding.
    pub fn rules(&self) -> (r: Result<Vec<AppRule>, String>)
        ensures
            r matches Ok(v) && v.deep_view() == rules_by_name(self@.rules),
    {
        let rv = &self.tables.rules;
        let ghost rs = rv.deep_view();
        let ghost ks = rs.map_values(|r: AppRuleView| SortKeyView { first: 0, second: 0, text1: folded(r.display_name), text2: Seq::empty() });
        let mut keys: Vec<SortKey> = Vec::new();
        let mut i: usize = 0;
        while i < rv.len()
            invariant
                rs == rv.deep_view(),
                ks == rs.map_values(|r: AppRuleView| SortKeyView { first: 0, second: 0, text1: folded(r.display_name), text2: Seq::empty() }),
                i <= rs.len(),
                keys.deep_view() =~= ks.subrange(0, i as int),
            decreases rv.len() - i,
        {
            assert(rs[i as int] == rv@[i as int]@);
            let t2: Vec<char> = Vec::new();
            let k = SortKey { first: 0, second: 0, text1: folded_chars(rv[i].display_name.as_str()), text2: t2 };
            assert(k@ == ks[i as int]) by {
                assert(t2@ =~= Seq::<char>::empty());
            }
            let ghost before = keys.deep_view();
            keys.push(k);
            assert(keys.deep_view() =~= before.push(k@));
            i = i + 1;
        }
        assert(ks.subrange(0, i as int) =~= ks);
        let order = sort_positions(&keys);
        let ghost sp = sorted_positions(ks);
        let mut out: Vec<AppRule> = Vec::new();
        let mut j: usize = 0;
        while j < order.len()
            invariant
                rs == rv.deep_view(),
                order@.len() == rs.len(),
                order@.map_values(|i: usize| i as int) == sp,
                forall|k: int| 0 <= k < order@.len() ==> order@[k] < rs.len(),
                j <= order@.len(),
                out.deep_view() =~= sp.subrange(0, j as int).map_values(|i: int| rs[i]),
            decreases order.len() - j,
        {
            assert(sp[j as int] == order@[j as int] as int);
            assert(rs[sp[j as int]] == rv@[order@[j as int] as int]@);
            let x = copy_rule(&rv[order[j]]);
            let ghost before = out.deep_view();
            out.push(x);
            assert(out.deep_view() =~= before.push(x@));
            j = j + 1;
        }
        assert(sp.subrange(0, j as int) =~= sp);
        Ok(out)
    }

    /// Adds a category (see `category_creation`) and gives it back with its id.
    pub fn create_category(&mut self, name: &str, color: &str) -> (r: Result<Category, String>)
        ensures
            final(self)@.rules == old(self)@.rules,
            final(self)@.sessions == old(self)@.sessions,
            final(self)@.settings == old(self)@.settings,
            match (r, category_creation(old(self)@.categories, name@, color@)) {
                (Ok(c), Ok(x)) => c@ == x && final(self)@.categories == old(self)@.categories.push(x),
                (Err(e), Err(x)) => e@ == x && final(self)@ == old(self)@,
                _ => false,
            },
    {
        proof {
            use_type_invariant(&*self);
        }
        let n = trim(name);
        let count = n.unicode_len();
        if count == 0 || count > 20 {
            return Err(owned("分类名称需要包含 1 至 20 个字符"));
        }
        if text_eq(n, "其他") {
            return Err(owned("“其他”是未分类应用的保留名称"));
        }
        let color = normalize_color(color)?;
        if is_name_taken(&self.tables.categories, n) {
            return Err(owned("分类名称已存在"));
        }
        let ids = ids_of_categories(&self.tables.categories);
        let id = match new_id_among(&ids) {
            Some(id) => id,
            None => return Err(owned("database or disk is full")),
        };
        let c = Category { id, name: owned(n), color: color.clone() };
        let mut cats = copy_categories(&self.tables.categories);
        let ghost before = cats.deep_view();
        cats.push(c);
        assert(cats.deep_view() =~= before.push(c@));
        proof {
            law_created_name_is_new(before, name@, color@);
            lemma_rules_linked_grow(self@.rules, before, cats.deep_view());
        }
        self.tables.categories = cats;
        Ok(Category { id, name: owned(n), color })
    }

    /// Deletes the category with id `id`; its applications move to no category. An error
    /// where no category has that id.
    pub fn delete_category(&mut self, id: i64) -> (r: Result<(), String>)
        ensures
            final(self)@.sessions == old(self)@.sessions,
            final(self)@.settings == old(self)@.settings,
            match r {
                Ok(()) => category_of(old(self)@.categories, id) is Some
                    && final(self)@.categories == remove_category(old(self)@.categories, id)
                    && final(self)@.rules == clear_category(old(self)@.rules, id),
                Err(e) => category_of(old(self)@.categories, id) is None && e@ == category_missing_error()
                    && final(self)@ == old(self)@,
            },
    {
        proof {
            use_type_invariant(&*self);
        }
        if find_category(&self.tables.categories, id).is_none() {
            return Err(owned("分类不存在"));
        }
        let rules = rules_without_category(&self.tables.rules, id);
        let cats = categories_without(&self.tables.categories, id);
        proof {
            law_delete_keeps_names_unique(self.tables.categories.deep_view(), id);
            law_delete_keeps_rules_linked(self@.rules, self@.categories, id);
        }
        self.tables.rules = rules;
        self.tables.categories = cats;
        Ok(())
    }

    /// Deletes every session.
    pub fn clear(&mut self) -> (r: Result<(), String>)
        ensures
            r is Ok,
            final(self)@.categories == old(self)@.categories,
            final(self)@.rules == old(self)@.rules,
            final(self)@.settings == old(self)@.settings,
            final(self)@.sessions == Seq::<SessionRowView>::empty(),
    {
        proof {
            use_type_invariant(&*self);
        }
        let rows: Vec<SessionRow> = Vec::new();
        assert(rows.deep_view() =~= Seq::<SessionRowView>::empty());
        self.tables.sessions = rows;
        Ok(())
    }
}


/// The message for an application name that is empty or longer than 48 characters.
pub open spec fn app_name_error() -> Seq<char> {
    "应用名称需要包含 1 至 48 个字符"@
}

/// The message for a lookup that finds no row.
pub open spec fn no_rows_error() -> Seq<char> {
    "Query returned no rows"@
}

/// The message for a category id that names no category (the foreign key is enforced).
pub open spec fn foreign_key_error() -> Seq<char> {
    "FOREIGN KEY constraint failed"@
}

/// The rules after a patch to the rule of `exe`, or the error: the rule must exist; the
/// display name (the patch's or the stored one) is trimmed and must hold 1 to 48
/// characters; the category changes only where the patch says so and must exist.
pub open spec fn rule_change(
    rules: Seq<AppRuleView>,
    categories: Seq<CategoryView>,
    exe: Seq<char>,
    patch: AppRulePatch,
) -> Result<Seq<AppRuleView>, Seq<char>> {
    match rule_of(rules, exe) {
        None => Err(no_rows_error()),
        Some(cur) => {
            let dn = trimmed(
                match patch.display_name {
                    Some(d) => d@,
                    None => cur.display_name,
                },
            );
            if dn.len() == 0 || dn.len() > 48 {
                Err(app_name_error())
            } else {
                let cat = if patch.category_id_changed {
                    patch.category_id
                } else {
                    cur.category_id
                };
                let ign = match patch.ignored {
                    Some(b) => b,
                    None => cur.ignored,
                };
                let cont = match patch.continue_tracking_while_idle {
                    Some(b) => b,
                    None => cur.continue_tracking_while_idle,
                };
                if cat matches Some(c) && category_of(categories, c) is None {
                    Err(foreign_key_error())
                } else {
                    Ok(
                        rules.map_values(
                            |r: AppRuleView|
                                if r.executable == exe {
                                    AppRuleView {
                                        executable: r.executable,
                                        display_name: dn,
                                        process_path: r.process_path,
                                        category_id: cat,
                                        ignored: ign,
                                        continue_tracking_while_idle: cont,
                                    }
                                } else {
                                    r
                                },
                        ),
                    )
                }
            }
        },
    }
}

pub open spec fn clamp(v: int, lo: int, hi: int) -> int {
    if v < lo {
        lo
    } else if v > hi {
        hi
    } else {
        v
    }
}

/// The text of a flag as stored.
pub open spec fn flag_text(b: bool) -> Seq<char> {
    if b {
        "true"@
    } else {
        "false"@
    }
}

/// The settings read from the table: each value parsed, with a default where it does not
/// parse, and clamped to its range; nothing where a key has no row.
pub open spec fn settings_from(settings: Seq<(Seq<char>, Seq<char>)>) -> Option<SettingsView> {
    let idle = setting_value(settings, "idle_minutes"@);
    let login = setting_value(settings, "launch_at_login"@);
    let widget = setting_value(settings, "show_widget"@);
    let font = setting_value(settings, "font_family"@);
    let height = setting_value(settings, "widget_height"@);
    let x = setting_value(settings, "widget_x_offset"@);
    let y = setting_value(settings, "widget_y_offset"@);
    if idle is Some && login is Some && widget is Some && font is Some && height is Some && x is Some
        && y is Some {
        Some(
            SettingsView {
                idle_minutes: match parsed_u32(idle.unwrap()) {
                    Some(n) => n,
                    None => 5,
                },
                launch_at_login: login.unwrap() == "true"@,
                show_widget: widget.unwrap() == "true"@,
                font_family: font_family_name(font.unwrap()),
                widget_height: clamp(
                    match parsed_u32(height.unwrap()) {
                        Some(n) => n as int,
                        None => 64,
                    },
                    48,
                    160,
                ) as u32,
                widget_x_offset: clamp(
                    match parsed_i32(x.unwrap()) {
                        Some(n) => n as int,
                        None => 0,
                    },
                    -1000,
                    1000,
                ) as i32,
                widget_y_offset: clamp(
                    match parsed_i32(y.unwrap()) {
                        Some(n) => n as int,
                        None => 0,
                    },
                    -1000,
                    1000,
                ) as i32,
            },
        )
    } else {
        None
    }
}

/// The settings rows with every row of key `key` set to `value` (`UPDATE`).
pub open spec fn set_value(settings: Seq<(Seq<char>, Seq<char>)>, key: Seq<char>, value: Seq<char>) -> Seq<(Seq<char>, Seq<char>)> {
    settings.map_values(
        |row: (Seq<char>, Seq<char>)|
            if row.0 == key {
                (key, value)
            } else {
                row
            },
    )
}

/// The settings rows after `update_settings(s)`: every value clamped to its range and
/// written as text.
pub open spec fn settings_written(settings: Seq<(Seq<char>, Seq<char>)>, s: SettingsView) -> Seq<(Seq<char>, Seq<char>)> {
    set_value(
        set_value(
            set_value(
                set_value(
                    set_value(
                        set_value(
                            set_value(settings, "idle_minutes"@, decimal(clamp(s.idle_minutes as int, 1, 120) as nat)),
                            "launch_at_login"@,
                            flag_text(s.launch_at_login),
                        ),
                        "show_widget"@,
                        flag_text(s.show_widget),
                    ),
                    "font_family"@,
                    font_family_name(s.font_family),
                ),
                "widget_height"@,
                decimal(clamp(s.widget_height as int, 48, 160) as nat),
            ),
            "widget_x_offset"@,
            signed_decimal(clamp(s.widget_x_offset as int, -1000, 1000)),
        ),
        "widget_y_offset"@,
        signed_decimal(clamp(s.widget_y_offset as int, -1000, 1000)),
    )
}

/// Copies the settings rows, setting every row of key `key` to `value`.
pub fn with_value(settings: &Vec<SettingRow>, key: &str, value: &str) -> (r: Vec<SettingRow>)
    ensures
        r.deep_view() == set_value(settings.deep_view(), key@, value@),
{
    let ghost sv = settings.deep_view();
    let mut r: Vec<SettingRow> = Vec::new();
    let mut i: usize = 0;
    while i < settings.len()
        invariant
            sv == settings.deep_view(),
            i <= sv.len(),
            r.deep_view() =~= set_value(sv, key@, value@).subrange(0, i as int),
        decreases settings.len() - i,
    {
        assert(sv[i as int] == settings@[i as int]@);
        let x = if text_eq(settings[i].key.as_str(), key) {
            SettingRow { key: owned(key), value: owned(value) }
        } else {
            copy_setting(&settings[i])
        };
        let ghost before = r.deep_view();
        r.push(x);
        assert(r.deep_view() =~= before.push(x@));
        i = i + 1;
    }
    r
}

/// The value stored under `key`, or an error where the key has no row.
pub fn stored_value(settings: &Vec<SettingRow>, key: &str) -> (r: Result<String, String>)
    ensures
        match r {
            Ok(v) => setting_value(settings.deep_view(), key@) == Some(v@),
            Err(e) => setting_value(settings.deep_view(), key@) is None && e@ == no_rows_error(),
        },
{
    match find_setting(settings, key) {
        Some(i) => Ok(settings[i].value.clone()),
        None => Err(owned("Query returned no rows")),
    }
}

/// The text of a flag.
pub fn flag_string(b: bool) -> (r: String)
    ensures
        r@ == flag_text(b),
{
    if b {
        owned("true")
    } else {
        owned("false")
    }
}

impl Store {
    /// Changes the rule of `executable` by `patch` (see `rule_change`).
    pub fn update_rule(&mut self, executable: &str, patch: &AppRulePatch) -> (r: Result<(), String>)
        ensures
            final(self)@.categories == old(self)@.categories,
            final(self)@.sessions == old(self)@.sessions,
            final(self)@.settings == old(self)@.settings,
            match (r, rule_change(old(self)@.rules, old(self)@.categories, executable@, *patch)) {
                (Ok(()), Ok(rules)) => final(self)@.rules == rules,
                (Err(e), Err(x)) => e@ == x && final(self)@ == old(self)@,
                _ => false,
            },
    {
        proof {
            use_type_invariant(&*self);
        }
        let ghost rv = self@.rules;
        let i = match find_rule(&self.tables.rules, executable) {
            Some(i) => i,
            None => return Err(owned("Query returned no rows")),
        };
        assert(rv[i as int] == self.tables.rules@[i as int]@);
        let cur = &self.tables.rules[i];
        let dn = match &patch.display_name {
            Some(d) => trim(d.as_str()),
            None => trim(cur.display_name.as_str()),
        };
        let count = dn.unicode_len();
        if count == 0 || count > 48 {
            return Err(owned("应用名称需要包含 1 至 48 个字符"));
        }
        let cat = if patch.category_id_changed {
            patch.category_id
        } else {
            cur.category_id
        };
        let ign = match patch.ignored {
            Some(b) => b,
            None => cur.ignored,
        };
        let cont = match patch.continue_tracking_while_idle {
            Some(b) => b,
            None => cur.continue_tracking_while_idle,
        };
        if let Some(c) = cat {
            if find_category(&self.tables.categories, c).is_none() {
                return Err(owned("FOREIGN KEY constraint failed"));
            }
        }
        let ghost target = rv.map_values(
            |r: AppRuleView|
                if r.executable == executable@ {
                    AppRuleView {
                        executable: r.executable,
                        display_name: dn@,
                        process_path: r.process_path,
                        category_id: cat,
                        ignored: ign,
                        continue_tracking_while_idle: cont,
                    }
                } else {
                    r
                },
        );
        assert(rule_change(rv, self@.categories, executable@, *patch) == Ok::<Seq<AppRuleView>, Seq<char>>(target));
        let mut rules: Vec<AppRule> = Vec::new();
        let mut k: usize = 0;
        while k < self.tables.rules.len()
            invariant
                rv == self.tables.rules.deep_view(),
                target == rv.map_values(
                    |r: AppRuleView|
                        if r.executable == executable@ {
                            AppRuleView {
                                executable: r.executable,
                                display_name: dn@,
                                process_path: r.process_path,
                                category_id: cat,
                                ignored: ign,
                                continue_tracking_while_idle: cont,
                            }
                        } else {
                            r
                        },
                ),
                k <= rv.len(),
                rules.deep_view() =~= target.subrange(0, k as int),
            decreases self.tables.rules.len() - k,
        {
            assert(rv[k as int] == self.tables.rules@[k as int]@);
            let x = if text_eq(self.tables.rules[k].executable.as_str(), executable) {
                AppRule {
                    executable: self.tables.rules[k].executable.clone(),
                    display_name: owned(dn),
                    process_path: self.tables.rules[k].process_path.clone(),
                    category_id: cat,
                    ignored: ign,
                    continue_tracking_while_idle: cont,
                }
            } else {
                copy_rule(&self.tables.rules[k])
            };
            let ghost before = rules.deep_view();
            rules.push(x);
            assert(rules.deep_view() =~= before.push(x@));
            k = k + 1;
        }
        proof {
            law_rule_change_keeps_rules_linked(rv, self@.categories, executable@, *patch);
        }
        self.tables.rules = rules;
        Ok(())
    }

    /// The settings (see `settings_from`); an error where a key has no row.
    pub fn settings(&self) -> (r: Result<Settings, String>)
        ensures
            match r {
                Ok(s) => settings_from(self@.settings) == Some(s@),
                Err(e) => settings_from(self@.settings) is None && e@ == no_rows_error(),
            },
    {
        let st = &self.tables.settings;
        let idle = stored_value(st, "idle_minutes")?;
        let login = stored_value(st, "launch_at_login")?;
        let widget = stored_value(st, "show_widget")?;
        let font = stored_value(st, "font_family")?;
        let height = stored_value(st, "widget_height")?;
        let x = stored_value(st, "widget_x_offset")?;
        let y = stored_value(st, "widget_y_offset")?;
        let idle_minutes = match parse_u32(idle.as_str()) {
            Some(n) => n,
            None => 5,
        };
        let h: u32 = match parse_u32(height.as_str()) {
            Some(n) => n,
            None => 64,
        };
        let h = if h < 48 {
            48
        } else if h > 160 {
            160
        } else {
            h
        };
        let xo: i32 = match parse_i32(x.as_str()) {
            Some(n) => n,
            None => 0,
        };
        let xo = if xo < -1000 {
            -1000
        } else if xo > 1000 {
            1000
        } else {
            xo
        };
        let yo: i32 = match parse_i32(y.as_str()) {
            Some(n) => n,
            None => 0,
        };
        let yo = if yo < -1000 {
            -1000
        } else if yo > 1000 {
            1000
        } else {
            yo
        };
        Ok(Settings {
            idle_minutes,
            launch_at_login: text_eq(login.as_str(), "true"),
            show_widget: text_eq(widget.as_str(), "true"),
            font_family: owned(normalize_font_family(font.as_str())),
            widget_height: h,
            widget_x_offset: xo,
            widget_y_offset: yo,
        })
    }

    /// Stores the settings, each clamped to its range (see `settings_written`).
    pub fn update_settings(&mut self, settings: &Settings) -> (r: Result<(), String>)
        ensures
            r is Ok,
            final(self)@.categories == old(self)@.categories,
            final(self)@.rules == old(self)@.rules,
            final(self)@.sessions == old(self)@.sessions,
            final(self)@.settings == settings_written(old(self)@.settings, settings@),
    {
        proof {
            use_type_invariant(&*self);
        }
        let idle = if settings.idle_minutes < 1 {
            1
        } else if settings.idle_minutes > 120 {
            120
        } else {
            settings.idle_minutes
        };
        let h = if settings.widget_height < 48 {
            48
        } else if settings.widget_height > 160 {
            160
        } else {
            settings.widget_height
        };
        let xo = if settings.widget_x_offset < -1000 {
            -1000
        } else if settings.widget_x_offset > 1000 {
            1000
        } else {
            settings.widget_x_offset
        };
        let yo = if settings.widget_y_offset < -1000 {
            -1000
        } else if settings.widget_y_offset > 1000 {
            1000
        } else {
            settings.widget_y_offset
        };
        let st = with_value(&self.tables.settings, "idle_minutes", u32_text(idle).as_str());
        let st = with_value(&st, "launch_at_login", flag_string(settings.launch_at_login).as_str());
        let st = with_value(&st, "show_widget", flag_string(settings.show_widget).as_str());
        let st = with_value(&st, "font_family", normalize_font_family(settings.font_family.as_str()));
        let st = with_value(&st, "widget_height", u32_text(h).as_str());
        let st = with_value(&st, "widget_x_offset", i32_text(xo).as_str());
        let st = with_value(&st, "widget_y_offset", i32_text(yo).as_str());
        self.tables.settings = st;
        Ok(())
    }
}


/// The sessions of executable `exe`, in table order.
pub open spec fn sessions_of(rows: Seq<SessionRowView>, exe: Seq<char>) -> Seq<SessionRowView>
    decreases rows.len(),
{
    if rows.len() == 0 {
        Seq::empty()
    } else {
        let r = sessions_of(rows.drop_last(), exe);
        if rows.last().executable == exe {
            r.push(rows.last())
        } else {
            r
        }
    }
}

/// The order of recency: the latest end first, then the highest id.
pub open spec fn recency_key(s: SessionRowView) -> SortKeyView {
    SortKeyView { first: -(s.ended_at as int), second: -(s.id as int), text1: Seq::empty(), text2: Seq::empty() }
}

/// Sessions, most recent first.
pub open spec fn recent_first(rows: Seq<SessionRowView>) -> Seq<SessionRowView> {
    sorted_positions(rows.map_values(|s: SessionRowView| recency_key(s))).map_values(|i: int| rows[i])
}

/// Adds a path unless it is blank or already there.
pub open spec fn add_path(acc: Seq<Seq<char>>, p: Seq<char>) -> Seq<Seq<char>> {
    if trimmed(p).len() > 0 && !acc.contains(p) {
        acc.push(p)
    } else {
        acc
    }
}

/// The non-blank paths in order, each once.
pub open spec fn gather_paths(ps: Seq<Seq<char>>) -> Seq<Seq<char>>
    decreases ps.len(),
{
    if ps.len() == 0 {
        Seq::empty()
    } else {
        add_path(gather_paths(ps.drop_last()), ps.last())
    }
}

/// The places an icon may be found for `exe`: the path of its rule first, then the paths
/// of its sessions, most recent first.
pub open spec fn icon_candidates(v: StoreView, exe: Seq<char>) -> Seq<Seq<char>> {
    (match rule_of(v.rules, exe) {
        Some(r) => seq![r.process_path],
        None => Seq::empty(),
    }) + recent_first(sessions_of(v.sessions, exe)).map_values(|s: SessionRowView| s.process_path)
}

/// The executables' paths to read an icon from, in order of preference.
pub open spec fn icon_path_list(v: StoreView, exe: Seq<char>) -> Seq<Seq<char>> {
    gather_paths(icon_candidates(v, exe))
}

/// The sessions of `exe` that count in `w`, their spans, and whether they all fit.
pub open spec fn app_spans_fit(w: Window, rows: Seq<SessionRowView>, exe: Seq<char>) -> bool {
    forall|i: int| 0 <= i < rows.len() && in_window(w, rows[i]) && rows[i].executable == exe ==> span_ms(w, #[trigger] rows[i]) <= i64::MAX
}

/// Whether a day's report lines match the window `w` of the store `v`.
pub open spec fn day_report_holds(v: StoreView, w: Window, total: i64, categories: Seq<UsageItemView>, applications: Seq<UsageItemView>) -> bool {
    &&& w.bounded
    &&& total == window_seconds(w, v.sessions)
    &&& categories == report_order(category_items(w, v.rules, v.categories, v.sessions))
    &&& applications == report_order(app_items(w, v.rules, v.sessions))
}

/// The hour lines of a local day `[a, b)` with the hour names `labels`.
pub open spec fn hours_of(v: StoreView, a: i64, b: i64, labels: Seq<Seq<char>>) -> Seq<UsageItemView> {
    labelled_report(labels, positive_totals(hour_windows(a as int, b as int), v.sessions))
}

/// Whether some local hour names (`HH:00`) give these hour lines for the day window `w`.
pub open spec fn hours_hold(v: StoreView, w: Window, hours: Seq<UsageItemView>) -> bool {
    exists|labels: Seq<Seq<char>>|
        labels.len() == positive_totals(hour_windows(w.start as int, w.end as int), v.sessions).len()
        && (forall|k: int| 0 <= k < labels.len() ==> is_hour_label(#[trigger] labels[k]))
        && #[trigger] hours_of(v, w.start, w.end, labels) == hours
}

/// Whether lines all hold some use and name no executable, color or path.
pub open spec fn plain_positive(items: Seq<UsageItemView>) -> bool {
    forall|i: int| 0 <= i < items.len() ==> (#[trigger] items[i]).seconds > 0 && items[i].color is None
        && items[i].executable is None && items[i].process_path is None
}

/// Whether `w` is the window of the local day `d`: from local midnight of `d` to local
/// midnight of the next day, each placed less than a day from the date's midnight UTC.
pub open spec fn day_window(d: Date, w: Window) -> bool {
    &&& w.bounded
    &&& next_day(d) is Some
    &&& placed_at(d, w.start as int)
    &&& placed_at(next_day(d).unwrap(), w.end as int)
}

/// The message for a date whose next day chrono cannot hold.
pub open spec fn out_of_range_error() -> Seq<char> {
    "Date is out of range"@
}

/// Whether `e` says that a local day or hour could not be placed in the machine's time
/// zone.
pub open spec fn local_time_error(e: Seq<char>) -> bool {
    ||| e == "Unable to determine local day start"@
    ||| e == "Unable to determine local day end"@
    ||| e == local_hour_error()
}

/// Whether the lines of a day over window `w` can be added up in `i64`: its total, its
/// categories, its applications and its hours.
pub open spec fn day_fits(v: StoreView, w: Window) -> bool {
    &&& spans_fit(w, v.sessions)
    &&& window_seconds(w, v.sessions) <= i64::MAX
    &&& category_report_fits(w, v.rules, v.categories, v.sessions)
    &&& app_report_fits(w, v.sessions)
    &&& hour_lines_fit(hour_windows(w.start as int, w.end as int), v.sessions)
}

/// The first and last instant of a local day: the start of `d` and of the next day.
fn date_range(d: Date) -> (r: Result<(i64, i64), String>)
    requires
        d.valid(),
    ensures
        next_day(d) is None ==> r is Err,
        r matches Ok((s, e)) ==> day_window(d, Window { bounded: true, start: s, end: e }),
        r matches Err(e) ==> (next_day(d) is None && e@ == out_of_range_error()) || local_time_error(e@),
{
    let next = match next_date(d) {
        Some(n) => n,
        None => return Err(owned("Date is out of range")),
    };
    proof {
        lemma_next_day_valid(d);
    }
    let start = match local_day_start(d) {
        Some(s) => s,
        None => return Err(owned("Unable to determine local day start")),
    };
    let end = match local_day_start(next) {
        Some(e) => e,
        None => return Err(owned("Unable to determine local day end")),
    };
    Ok((start, end))
}

/// Whether the spans of `exe` in `w` and their total fit in `i64`.
pub open spec fn app_seconds_fit(v: StoreView, w: Window, exe: Seq<char>) -> bool {
    app_spans_fit(w, v.sessions, exe) && app_total(w, v.sessions, exe) <= i64::MAX
}

/// Whether `r` is what reading the seconds of `exe` today can give: its seconds in the
/// local day of the date that the text of today's date names, or an error where that text
/// does not parse, the local day cannot be placed, or its seconds do not fit in `i64`.
/// Which text names today is the machine's clock's to say.
pub open spec fn today_seconds_read(v: StoreView, exe: Seq<char>, r: Result<i64, String>) -> bool {
    match r {
        Ok(x) => exists|text: Seq<char>, d: Date, w: Window|
            #![trigger ymd_text_date(text), day_window(d, w), app_total(w, v.sessions, exe)]
            ymd_text_date(text) == Some(d) && day_window(d, w) && app_total(w, v.sessions, exe) == x,
        Err(e) => parse_error_text(e@) || e@ == out_of_range_error() || local_time_error(e@) || exists|
            text: Seq<char>,
            d: Date,
            w: Window,
        | #![trigger ymd_text_date(text), day_window(d, w)]
            ymd_text_date(text) == Some(d) && day_window(d, w) && !app_seconds_fit(v, w, exe),
    }
}

impl Store {
    /// Where to look for the icon of `executable`: the path of its rule, then the paths of
    /// its sessions from the most recent, leaving out blank paths and repeats.
    pub fn icon_paths(&self, executable: &str) -> (r: Result<Vec<String>, String>)
        ensures
            r matches Ok(v) && v.deep_view() == icon_path_list(self@, executable@),
    {
        let ghost sv = self@.sessions;
        let mut mine: Vec<SessionRow> = Vec::new();
        let mut i: usize = 0;
        while i < self.tables.sessions.len()
            invariant
                sv == self.tables.sessions.deep_view(),
                i <= sv.len(),
                mine.deep_view() == sessions_of(sv.subrange(0, i as int), executable@),
            decreases self.tables.sessions.len() - i,
        {
            assert(sv.subrange(0, i + 1).drop_last() =~= sv.subrange(0, i as int));
            assert(sv[i as int] == self.tables.sessions@[i as int]@);
            if text_eq(self.tables.sessions[i].executable.as_str(), executable) {
                let x = copy_session(&self.tables.sessions[i]);
                let ghost before = mine.deep_view();
                mine.push(x);
                assert(mine.deep_view() =~= before.push(x@));
            }
            i = i + 1;
        }
        assert(sv.subrange(0, i as int) =~= sv);
        let ghost mv = mine.deep_view();
        let ghost ks = mv.map_values(|s: SessionRowView| recency_key(s));
        let mut keys: Vec<SortKey> = Vec::new();
        let mut k: usize = 0;
        while k < mine.len()
            invariant
                mv == mine.deep_view(),
                ks == mv.map_values(|s: SessionRowView| recency_key(s)),
                k <= mv.len(),
                keys.deep_view() =~= ks.subrange(0, k as int),
            decreases mine.len() - k,
        {
            assert(mv[k as int] == mine@[k as int]@);
            let t1: Vec<char> = Vec::new();
            let t2: Vec<char> = Vec::new();
            let key = SortKey { first: -(mine[k].ended_at as i128), second: -(mine[k].id as i128), text1: t1, text2: t2 };
            assert(key@ == ks[k as int]) by {
                assert(t1@ =~= Seq::<char>::empty());
                assert(t2@ =~= Seq::<char>::empty());
            }
            let ghost before = keys.deep_view();
            keys.push(key);
            assert(keys.deep_view() =~= before.push(key@));
            k = k + 1;
        }
        assert(ks.subrange(0, k as int) =~= ks);
        let order = sort_positions(&keys);
        let ghost sp = sorted_positions(ks);
        let mut candidates: Vec<String> = Vec::new();
        let ghost head: Seq<Seq<char>> = match rule_of(self@.rules, executable@) {
            Some(r) => seq![r.process_path],
            None => Seq::empty(),
        };
        match find_rule(&self.tables.rules, executable) {
            Some(ri) => {
                assert(self@.rules[ri as int] == self.tables.rules@[ri as int]@);
                candidates.push(self.tables.rules[ri].process_path.clone());
            },
            None => {},
        }
        assert(candidates.deep_view() =~= head);
        let ghost tail = recent_first(mv).map_values(|s: SessionRowView| s.process_path);
        let mut j: usize = 0;
        while j < order.len()
            invariant
                mv == mine.deep_view(),
                order@.len() == mv.len(),
                order@.map_values(|i: usize| i as int) == sp,
                sp == sorted_positions(mv.map_values(|s: SessionRowView| recency_key(s))),
                tail == recent_first(mv).map_values(|s: SessionRowView| s.process_path),
                forall|x: int| 0 <= x < order@.len() ==> order@[x] < mv.len(),
                j <= order@.len(),
                candidates.deep_view() =~= head + tail.subrange(0, j as int),
            decreases order.len() - j,
        {
            assert(sp[j as int] == order@[j as int] as int);
            assert(mv[sp[j as int]] == mine@[order@[j as int] as int]@);
            let p = mine[order[j]].process_path.clone();
            let ghost before = candidates.deep_view();
            candidates.push(p);
            assert(candidates.deep_view() =~= before.push(p@));
            assert(tail.subrange(0, j + 1) =~= tail.subrange(0, j as int).push(tail[j as int]));
            j = j + 1;
        }
        assert(tail.subrange(0, j as int) =~= tail);
        let ghost cv = candidates.deep_view();
        assert(cv == icon_candidates(self@, executable@));
        let mut out: Vec<String> = Vec::new();
        let mut c: usize = 0;
        while c < candidates.len()
            invariant
                cv == candidates.deep_view(),
                c <= cv.len(),
                out.deep_view() == gather_paths(cv.subrange(0, c as int)),
            decreases candidates.len() - c,
        {
            assert(cv.subrange(0, c + 1).drop_last() =~= cv.subrange(0, c as int));
            assert(cv[c as int] == candidates@[c as int]@);
            let p = &candidates[c];
            let blank = trim(p.as_str()).unicode_len() == 0;
            let mut seen = false;
            let mut q: usize = 0;
            while q < out.len() && !seen
                invariant
                    q <= out@.len(),
                    seen ==> out.deep_view().contains(p@),
                    !seen ==> forall|x: int| 0 <= x < q ==> out.deep_view()[x] != p@,
                decreases out.len() - q + (if seen { 0int } else { 1int }),
            {
                assert(out.deep_view()[q as int] == out@[q as int]@);
                if text_eq(out[q].as_str(), p.as_str()) {
                    seen = true;
                } else {
                    q = q + 1;
                }
            }
            if !blank && !seen {
                let x = p.clone();
                let ghost before = out.deep_view();
                out.push(x);
                assert(out.deep_view() =~= before.push(x@));
            }
            c = c + 1;
        }
        assert(cv.subrange(0, c as int) =~= cv);
        Ok(out)
    }

    /// The seconds of `executable` in window `w`: an error where a span or the sum does
    /// not fit in an `i64`.
    pub fn app_seconds_in(&self, executable: &str, w: Window) -> (r: Result<i64, String>)
        ensures
            match r {
                Ok(v) => app_spans_fit(w, self@.sessions, executable@) && v == app_total(w, self@.sessions, executable@),
                Err(_) => !app_spans_fit(w, self@.sessions, executable@) || app_total(w, self@.sessions, executable@) > i64::MAX,
            },
    {
        proof {
            use_type_invariant(self);
        }
        let ghost rv = self@.sessions;
        let mut total: i128 = 0;
        let mut i: usize = 0;
        while i < self.tables.sessions.len()
            invariant
                rv == self.tables.sessions.deep_view(),
                sessions_ordered(rv),
                i <= rv.len(),
                total == app_total(w, rv.subrange(0, i as int), executable@),
                0 <= total <= i * 9223372036854776,
                app_spans_fit(w, rv.subrange(0, i as int), executable@),
            decreases self.tables.sessions.len() - i,
        {
            let s = &self.tables.sessions[i];
            let ghost pre = rv.subrange(0, i as int);
            let ghost cur = rv.subrange(0, i + 1);
            assert(cur.drop_last() =~= pre);
            assert(app_keys(cur).drop_last() =~= app_keys(pre));
            assert(live_rows(w, cur).drop_last() =~= live_rows(w, pre));
            assert(row_seconds(w, cur).drop_last() =~= row_seconds(w, pre));
            assert(rv[i as int] == s@);
            if counts_in(w, s) && text_eq(s.executable.as_str(), executable) {
                let span = span_of(w, s);
                if span > i64::MAX as i128 {
                    assert(!app_spans_fit(w, rv, executable@)) by {
                        assert(in_window(w, rv[i as int]));
                    }
                    return Err(overflow_error());
                }
                total = total + span / 1000;
            }
            assert forall|j: int| 0 <= j < cur.len() && in_window(w, cur[j]) && cur[j].executable == executable@ implies span_ms(
                w,
                #[trigger] cur[j],
            ) <= i64::MAX by {
                if j < i {
                    assert(cur[j] == pre[j]);
                }
            }
            i = i + 1;
        }
        assert(rv.subrange(0, i as int) =~= rv);
        if total > i64::MAX as i128 {
            return Err(overflow_error());
        }
        Ok(total as i64)
    }

    /// The seconds of `executable` today (local time): an error where today's date cannot
    /// be placed in the local time zone or the sum does not fit. The day depends on the
    /// clock and the time zone; whatever it is, the result is the application's seconds
    /// in one local day.
    pub fn today_app_seconds(&self, executable: &str) -> (r: Result<i64, String>)
        ensures
            today_seconds_read(self@, executable@, r),
    {
        let text = today();
        let date = parse_date(text.as_str())?;
        let (start, end) = date_range(date)?;
        let w = Window { bounded: true, start, end };
        assert(day_window(date, w) && ymd_text_date(text@) == Some(date));
        let v = match self.app_seconds_in(executable, w) {
            Ok(v) => v,
            Err(e) => {
                assert(day_window(date, w) && !app_seconds_fit(self@, w, executable@));
                return Err(e);
            },
        };
        assert(app_total(w, self@.sessions, executable@) == v);
        Ok(v)
    }

    /// The seconds that all sessions add up to in window `w` (see `window_total`).
    pub fn usage_total(&self, w: Window) -> (r: Result<i64, String>)
        ensures
            match r {
                Ok(v) => spans_fit(w, self@.sessions) && v == window_seconds(w, self@.sessions),
                Err(_) => !spans_fit(w, self@.sessions) || window_seconds(w, self@.sessions) > i64::MAX,
            },
    {
        proof {
            use_type_invariant(self);
        }
        window_total(&self.tables.sessions, w)
    }

    /// The seconds per category in window `w`, most first (see `category_report`).
    pub fn category_usage(&self, w: Window) -> (r: Result<Vec<UsageItem>, String>)
        ensures
            match r {
                Ok(items) => category_report_fits(w, self@.rules, self@.categories, self@.sessions)
                    && items.deep_view() == report_order(category_items(w, self@.rules, self@.categories, self@.sessions)),
                Err(_) => !category_report_fits(w, self@.rules, self@.categories, self@.sessions),
            },
    {
        proof {
            use_type_invariant(self);
        }
        category_report(&self.tables.sessions, &self.tables.rules, &self.tables.categories, w)
    }

    /// The seconds per application in window `w`, most first (see `application_report`).
    pub fn application_usage(&self, w: Window) -> (r: Result<Vec<UsageItem>, String>)
        ensures
            match r {
                Ok(items) => app_report_fits(w, self@.sessions) && items.deep_view() == report_order(
                    app_items(w, self@.rules, self@.sessions),
                ),
                Err(_) => !app_report_fits(w, self@.sessions),
            },
    {
        proof {
            use_type_invariant(self);
        }
        application_report(&self.tables.sessions, &self.tables.rules, w)
    }

    /// The use per local hour of the day `[day_start, day_end)` (see `hour_usage`).
    pub fn hours_in(&self, day_start: i64, day_end: i64) -> (r: Result<Vec<UsageItem>, String>)
        ensures
            r matches Ok(items) ==> exists|labels: Seq<Seq<char>>|
                labels.len() == positive_totals(hour_windows(day_start as int, day_end as int), self@.sessions).len()
                && (forall|k: int| 0 <= k < labels.len() ==> is_hour_label(#[trigger] labels[k]))
                && items.deep_view() == #[trigger] hours_of(self@, day_start, day_end, labels),
            quiet_windows(hour_windows(day_start as int, day_end as int), self@.sessions) ==> (r matches Ok(items)
                && items@.len() == 0),
            r matches Err(e) ==> e@ == local_hour_error() || !hour_lines_fit(
                hour_windows(day_start as int, day_end as int),
                self@.sessions,
            ),
    {
        proof {
            use_type_invariant(self);
        }
        let r = hour_usage(&self.tables.sessions, day_start, day_end);
        proof {
            if r is Ok {
                let labels = choose|labels: Seq<Seq<char>>|
                    labels.len() == positive_totals(hour_windows(day_start as int, day_end as int), self@.sessions).len()
                    && (forall|k: int| 0 <= k < labels.len() ==> is_hour_label(#[trigger] labels[k]))
                    && r.unwrap().deep_view() == #[trigger] labelled_report(labels, positive_totals(hour_windows(day_start as int, day_end as int), self@.sessions));
                assert(r.unwrap().deep_view() == hours_of(self@, day_start, day_end, labels));
            }
        }
        r
    }

    /// The use of one day, `YYYY-MM-DD` in local time: its total, its categories and
    /// applications (most first) and its hours. An error where the date does not parse or
    /// the local day cannot be placed, or where a sum does not fit.
    pub fn day_summary(&self, date: &str) -> (r: Result<DaySummary, String>)
        ensures
            ymd_text_date(date@) is None ==> r is Err,
            r matches Ok(s) ==> s.date@ == date@ && exists|w: Window| #[trigger] day_report_holds(self@, w, s.total_seconds, s.categories.deep_view(), s.applications.deep_view())
                && hours_hold(self@, w, s.hours.deep_view()) && (ymd_text_date(date@) matches Some(d) && day_window(d, w)),
            r matches Err(e) ==> ymd_text_date(date@) is None || (ymd_text_date(date@) matches Some(d) && (next_day(d) is None
                || local_time_error(e@) || exists|w: Window| #[trigger] day_window(d, w) && !day_fits(self@, w))),
    {
        let d = parse_date(date)?;
        self.day_summary_of(date, d)
    }

    /// The use of the local day `d`, reported under the name `date` (see `day_summary`).
    pub fn day_summary_of(&self, date: &str, d: Date) -> (r: Result<DaySummary, String>)
        requires
            d.valid(),
        ensures
            next_day(d) is None ==> r is Err,
            r matches Ok(s) ==> s.date@ == date@ && exists|w: Window| #[trigger] day_report_holds(self@, w, s.total_seconds, s.categories.deep_view(), s.applications.deep_view())
                && hours_hold(self@, w, s.hours.deep_view()) && day_window(d, w),
            r matches Err(e) ==> next_day(d) is None || local_time_error(e@) || exists|w: Window| #[trigger] day_window(d, w)
                && !day_fits(self@, w),
    {
        let (start, end) = date_range(d)?;
        let w = Window { bounded: true, start, end };
        assert(day_window(d, w));
        let total = self.usage_total(w)?;
        let categories = self.category_usage(w)?;
        let applications = self.application_usage(w)?;
        let hours = self.hours_in(start, end)?;
        assert(day_report_holds(self@, w, total, categories.deep_view(), applications.deep_view()));
        proof {
            let labels = choose|labels: Seq<Seq<char>>|
                labels.len() == positive_totals(hour_windows(start as int, end as int), self@.sessions).len()
                && (forall|k: int| 0 <= k < labels.len() ==> is_hour_label(#[trigger] labels[k]))
                && hours.deep_view() == #[trigger] hours_of(self@, start, end, labels);
            assert(hours_of(self@, w.start, w.end, labels) == hours.deep_view());
            assert(hours_hold(self@, w, hours.deep_view()));
        }
        let out = DaySummary { date: owned(date), total_seconds: total, categories, applications, hours };
        assert(hours_hold(self@, w, out.hours.deep_view()));
        assert(day_report_holds(self@, w, out.total_seconds, out.categories.deep_view(), out.applications.deep_view()));
        assert(day_window(d, w));
        Ok(out)
    }
}


/// Whether the category and application lines match the window `w` of the store `v`.
pub open spec fn range_report_holds(v: StoreView, w: Window, categories: Seq<UsageItemView>, applications: Seq<UsageItemView>) -> bool {
    &&& w.bounded
    &&& categories == report_order(category_items(w, v.rules, v.categories, v.sessions))
    &&& applications == report_order(app_items(w, v.rules, v.sessions))
}

/// The dates from `d` to `last`, both included, each the day after the one before; the
/// walk stops early at the last date `chrono::NaiveDate` can hold.
pub open spec fn dates_through(d: Date, last: Date) -> Seq<Date>
    decreases date_rank(last) + 34 - date_rank(d),
    when d.valid() && last.valid()
{
    if date_before(last, d) {
        Seq::empty()
    } else {
        match next_day(d) {
            Some(n) => {
                proof {
                    lemma_next_day_valid(d);
                    lemma_rank_order(d, last);
                    lemma_next_rank(d, last);
                }
                seq![d] + dates_through(n, last)
            },
            None => seq![d],
        }
    }
}

/// The lines of the windows `ws` that hold some use, in order, named by `labels`.
pub open spec fn positive_lines(labels: Seq<Seq<char>>, ws: Seq<Window>, rows: Seq<SessionRowView>) -> Seq<UsageItemView>
    decreases labels.len(),
{
    if labels.len() == 0 {
        Seq::empty()
    } else {
        let before = positive_lines(labels.drop_last(), ws.drop_last(), rows);
        let seconds = window_seconds(ws.last(), rows);
        if seconds > 0 {
            before.push(
                UsageItemView {
                    name: labels.last(),
                    seconds: seconds as i64,
                    color: None,
                    executable: None,
                    process_path: None,
                },
            )
        } else {
            before
        }
    }
}

/// The format of the day lines of a range: with the year where the range spans two years.
pub open spec fn label_format(with_year: bool) -> Seq<char> {
    if with_year {
        "%Y/%m/%d"@
    } else {
        "%m/%d"@
    }
}

/// Whether `days` are the day lines of the range from `first` to `last`: one local day
/// window and one label per date, the label the date's text, and a
/// line for each day that holds some use.
pub open spec fn range_days_hold(
    v: StoreView,
    first: Date,
    last: Date,
    ws: Seq<Window>,
    labels: Seq<Seq<char>>,
    days: Seq<UsageItemView>,
) -> bool {
    let ds = dates_through(first, last);
    &&& ws.len() == ds.len()
    &&& labels.len() == ds.len()
    &&& forall|i: int| 0 <= i < ds.len() ==> day_window(ds[i], #[trigger] ws[i])
    &&& forall|i: int| 0 <= i < ds.len() ==> #[trigger] labels[i] == formatted_date(
        ds[i],
        label_format(first.year != last.year),
    )
    &&& days == positive_lines(labels, ws, v.sessions)
}

/// Whether `days` are the day lines of the range from `first` to `last` for some local
/// day windows and labels (see `range_days_hold`).
pub open spec fn range_days_exist(v: StoreView, first: Date, last: Date, days: Seq<UsageItemView>) -> bool {
    exists|ws: Seq<Window>, labels: Seq<Seq<char>>| #[trigger] range_days_hold(v, first, last, ws, labels, days)
}

/// The day lines gathered date by date hold for the range.
proof fn lemma_range_days_hold(
    v: StoreView,
    first: Date,
    last: Date,
    pd: Seq<Date>,
    ws: Seq<Window>,
    labels: Seq<Seq<char>>,
    days: Seq<UsageItemView>,
    with_year: bool,
)
    requires
        dates_through(first, last) == pd,
        with_year == (first.year != last.year),
        ws.len() == pd.len(),
        labels.len() == pd.len(),
        forall|i: int| 0 <= i < pd.len() ==> day_window(pd[i], #[trigger] ws[i]),
        forall|i: int| 0 <= i < pd.len() ==> #[trigger] labels[i] == formatted_date(
            pd[i],
            label_format(with_year),
        ),
        days == positive_lines(labels, ws, v.sessions),
    ensures
        range_days_hold(v, first, last, ws, labels, days),
{
}

/// Whether the category and application lines match the window of the store `v` that
/// runs from local midnight of `first` to local midnight of the day after `last`, each
/// placed less than a day from the date's midnight UTC (see `range_report_holds`).
pub open spec fn range_report_exists(
    v: StoreView,
    first: Date,
    last: Date,
    categories: Seq<UsageItemView>,
    applications: Seq<UsageItemView>,
) -> bool {
    exists|w: Window| #[trigger] range_report_holds(v, w, categories, applications) && placed_at(first, w.start as int)
        && next_day(last) is Some && placed_at(next_day(last).unwrap(), w.end as int)
}

/// Whether the spans in `w` and their total fit in `i64`.
pub open spec fn total_fits(w: Window, rows: Seq<SessionRowView>) -> bool {
    spans_fit(w, rows) && window_seconds(w, rows) <= i64::MAX
}

/// Whether `w` is the window of the local days from `first` to `last`: from local
/// midnight of `first` to that of the day after `last`, each placed less than a day from
/// the date's midnight UTC.
pub open spec fn range_window(first: Date, last: Date, w: Window) -> bool {
    &&& w.bounded
    &&& placed_at(first, w.start as int)
    &&& next_day(last) is Some
    &&& placed_at(next_day(last).unwrap(), w.end as int)
}

/// Why the report of the local days from `first` to `last` may fail with `e`: the range
/// runs backwards or is too long; the day after `last`, or the one after it, is past
/// what chrono holds; a local day cannot be placed; or the total of one of its days, or
/// a category or application over the whole range, does not fit in `i64`.
pub open spec fn range_error_holds(v: StoreView, first: Date, last: Date, e: Seq<char>) -> bool {
    ||| date_before(last, first)
    ||| day_index(last) - day_index(first) + 1 > 3660
    ||| e == out_of_range_error() && (next_day(last) matches Some(n) ==> next_day(n) is None)
    ||| local_time_error(e)
    ||| exists|i: int, w: Window| 0 <= i < dates_through(first, last).len()
        && #[trigger] day_window(dates_through(first, last)[i], w) && !total_fits(w, v.sessions)
    ||| exists|w: Window| #[trigger] range_window(first, last, w)
        && !(category_report_fits(w, v.rules, v.categories, v.sessions) && app_report_fits(w, v.sessions))
}

/// The first day of the month after the month starting at `m`, where chrono can hold it.
pub open spec fn month_after(m: Date) -> Option<Date> {
    if m.month == 12 {
        if is_valid_date(m.year + 1, 1, 1) {
            Some(Date { year: (m.year + 1) as i32, month: 1, day: 1 })
        } else {
            None
        }
    } else if is_valid_date(m.year as int, m.month + 1, 1) {
        Some(Date { year: m.year, month: (m.month + 1) as u32, day: 1 })
    } else {
        None
    }
}

/// Whether `ms` are first days of months, each the month after the one before.
pub open spec fn consecutive_months(ms: Seq<Date>) -> bool {
    &&& forall|i: int| 0 <= i < ms.len() ==> (#[trigger] ms[i]).valid() && ms[i].day == 1
    &&& forall|i: int| 0 <= i < ms.len() - 1 ==> #[trigger] month_after(ms[i]) == Some(ms[i + 1])
}

/// The windows from each start to the next.
pub open spec fn windows_between(starts: Seq<i64>) -> Seq<Window> {
    if starts.len() == 0 {
        Seq::empty()
    } else {
        Seq::new((starts.len() - 1) as nat, |i: int| Window { bounded: true, start: starts[i], end: starts[i + 1] })
    }
}

/// Whether every window's spans fit and so does its total.
pub open spec fn windows_fit(ws: Seq<Window>, rows: Seq<SessionRowView>) -> bool {
    forall|i: int| 0 <= i < ws.len() ==> spans_fit(#[trigger] ws[i], rows) && window_seconds(ws[i], rows) <= i64::MAX
}

/// Whether `labels` name the months `ms` as `%Y/%m` writes them.
pub open spec fn month_labels_hold(ms: Seq<Date>, labels: Seq<Seq<char>>) -> bool {
    &&& labels.len() == ms.len()
    &&& forall|i: int| 0 <= i < ms.len() ==> #[trigger] labels[i] == formatted_date(
        ms[i],
        "%Y/%m"@,
    )
}

/// Whether `items` are the lines of the months `ms` that hold some use, month `i` running
/// from `starts[i]` to `starts[i + 1]`.
pub open spec fn month_lines_of(rows: Seq<SessionRowView>, ms: Seq<Date>, starts: Seq<i64>, items: Seq<UsageItemView>) -> bool {
    exists|labels: Seq<Seq<char>>| #[trigger] month_labels_hold(ms, labels) && items == positive_lines(
        labels,
        windows_between(starts),
        rows,
    )
}

/// The earliest start of the sessions.
pub open spec fn earliest_start(rows: Seq<SessionRowView>) -> int
    decreases rows.len(),
{
    if rows.len() == 0 {
        0
    } else if rows.len() == 1 {
        rows[0].started_at as int
    } else {
        let e = earliest_start(rows.drop_last());
        if (rows.last().started_at as int) < e {
            rows.last().started_at as int
        } else {
            e
        }
    }
}

/// The latest end of the sessions.
pub open spec fn latest_end(rows: Seq<SessionRowView>) -> int
    decreases rows.len(),
{
    if rows.len() == 0 {
        0
    } else if rows.len() == 1 {
        rows[0].ended_at as int
    } else {
        let e = latest_end(rows.drop_last());
        if (rows.last().ended_at as int) > e {
            rows.last().ended_at as int
        } else {
            e
        }
    }
}

/// Whether `items` are the month lines of the store: for consecutive months `ms`, month
/// `i` runs from `starts[i]` (placed for local midnight of its first day) to
/// `starts[i + 1]` (placed for that of the next month), the lines are those of the months
/// that hold some use, and, where the sessions span any time, the months cover it from
/// the earliest start to the latest end.
pub open spec fn month_lines_hold(v: StoreView, ms: Seq<Date>, starts: Seq<i64>, items: Seq<UsageItemView>) -> bool {
    &&& months_placed(v, ms, starts)
    &&& month_lines_of(v.sessions, ms, starts, items)
}

/// Whether `ms` are consecutive months whose starts `starts` are placed for local
/// midnight of their first days (the last one for the month after), covering the time
/// from the earliest start to the latest end of the sessions.
pub open spec fn months_placed(v: StoreView, ms: Seq<Date>, starts: Seq<i64>) -> bool {
    &&& consecutive_months(ms)
    &&& starts.len() == ms.len() + 1
    &&& forall|i: int| 0 <= i < ms.len() ==> month_after(#[trigger] ms[i]) is Some && placed_at(ms[i], starts[i] as int)
        && placed_at(month_after(ms[i]).unwrap(), starts[i + 1] as int)
    &&& (v.sessions.len() > 0 && earliest_start(v.sessions) < latest_end(v.sessions)) ==> (ms.len() > 0
        && starts[0] <= earliest_start(v.sessions) && starts[ms.len() as int] >= latest_end(v.sessions))
}

/// The message where the first recorded month cannot be placed.
pub open spec fn first_month_error() -> Seq<char> {
    "Unable to determine first recorded month"@
}

/// The message where the month after the last placed one is past what chrono holds.
pub open spec fn next_month_error() -> Seq<char> {
    "Unable to determine next recorded month"@
}

/// The first day of the month of `d`.
pub open spec fn month_start(d: Date) -> Date {
    Date { year: d.year, month: d.month, day: 1 }
}

/// Whether the first recorded month cannot be placed: the earliest start is outside the
/// instants a local date can be found for, or, for a local date it can have, local
/// midnight of the first of that month can lie after it.
pub open spec fn first_month_refused(rows: Seq<SessionRowView>) -> bool {
    ||| !within_local_range(earliest_start(rows))
    ||| exists|d: Date, s: int| #![trigger local_date_near(d, earliest_start(rows)), placed_at(month_start(d), s)]
        d.valid() && local_date_near(d, earliest_start(rows)) && placed_at(month_start(d), s) && s > earliest_start(rows)
}

/// Whether the month walk can reach December of the last year chrono holds: the
/// sessions reach past a day before midnight UTC of November 1 of that year.
pub open spec fn next_month_refused(rows: Seq<SessionRowView>) -> bool {
    let bound = utc_midnight_ms(Date { year: 262142, month: 11, day: 1 }) - 86_400_000;
    earliest_start(rows) > bound || latest_end(rows) > bound
}

/// Why the month lines of `v` may fail with `e`: the first month, or the month after
/// the last, cannot be placed; a local day cannot be placed; or the total of a month
/// does not fit in `i64`.
pub open spec fn month_error_holds(v: StoreView, e: Seq<char>) -> bool {
    ||| e == first_month_error() && first_month_refused(v.sessions)
    ||| e == next_month_error() && next_month_refused(v.sessions)
    ||| local_time_error(e)
    ||| exists|ms: Seq<Date>, starts: Seq<i64>| #[trigger] months_placed(v, ms, starts)
        && !windows_fit(windows_between(starts), v.sessions)
}

/// Whether `items` are the month lines of the store for some months and placed month
/// starts (see `month_lines_hold`).
pub open spec fn month_lines_exist(v: StoreView, items: Seq<UsageItemView>) -> bool {
    exists|ms: Seq<Date>, starts: Seq<i64>| #[trigger] month_lines_hold(v, ms, starts, items)
}

/// Lines of windows that hold some use all hold some use and name no executable, color
/// or path.
pub proof fn lemma_positive_lines_plain(labels: Seq<Seq<char>>, ws: Seq<Window>, rows: Seq<SessionRowView>)
    requires
        labels.len() == ws.len(),
        forall|i: int| 0 <= i < ws.len() ==> window_seconds(#[trigger] ws[i], rows) <= i64::MAX,
    ensures
        plain_positive(positive_lines(labels, ws, rows)),
    decreases labels.len(),
{
    if labels.len() > 0 {
        assert forall|i: int| 0 <= i < ws.len() - 1 implies window_seconds(#[trigger] ws.drop_last()[i], rows) <= i64::MAX by {
            assert(ws.drop_last()[i] == ws[i]);
        }
        assert(window_seconds(ws[ws.len() - 1], rows) <= i64::MAX);
        lemma_positive_lines_plain(labels.drop_last(), ws.drop_last(), rows);
        let p = positive_lines(labels.drop_last(), ws.drop_last(), rows);
        let r = positive_lines(labels, ws, rows);
        assert forall|i: int| 0 <= i < r.len() implies (#[trigger] r[i]).seconds > 0 && r[i].color is None
            && r[i].executable is None && r[i].process_path is None by {
            if i < p.len() {
                assert(r[i] == p[i]);
            }
        }
    }
}

/// Month lines hold some use and name no executable, color or path.
proof fn lemma_month_lines_plain(rows: Seq<SessionRowView>, ms: Seq<Date>, starts: Seq<i64>, items: Seq<UsageItemView>)
    requires
        starts.len() == ms.len() + 1,
        month_lines_of(rows, ms, starts, items),
        windows_fit(windows_between(starts), rows),
    ensures
        plain_positive(items),
{
    let labels = choose|labels: Seq<Seq<char>>| #[trigger] month_labels_hold(ms, labels) && items == positive_lines(
        labels,
        windows_between(starts),
        rows,
    );
    let ws = windows_between(starts);
    assert forall|i: int| 0 <= i < ws.len() implies window_seconds(#[trigger] ws[i], rows) <= i64::MAX by {}
    lemma_positive_lines_plain(labels, ws, rows);
}

/// The lines of the months `months` that hold some use, month `i` running from
/// `starts[i]` to `starts[i + 1]` and named `%Y/%m`. An error where a span or a month's
/// total does not fit in an `i64`.
pub fn month_lines(rows: &Vec<SessionRow>, months: &Vec<Date>, starts: &Vec<i64>) -> (r: Result<Vec<UsageItem>, String>)
    requires
        sessions_ordered(rows.deep_view()),
        starts@.len() == months@.len() + 1,
        forall|i: int| 0 <= i < months@.len() ==> (#[trigger] months@[i]).valid(),
    ensures
        r matches Ok(items) ==> month_lines_of(rows.deep_view(), months@, starts@, items.deep_view()),
        r is Ok <==> windows_fit(windows_between(starts@), rows.deep_view()),
{
    let ghost rv = rows.deep_view();
    let ghost wv = windows_between(starts@);
    let mut items: Vec<UsageItem> = Vec::new();
    let ghost mut lbv: Seq<Seq<char>> = Seq::empty();
    let mut i: usize = 0;
    assert(items.deep_view() =~= Seq::<UsageItemView>::empty());
    while i < months.len()
        invariant
            rv == rows.deep_view(),
            sessions_ordered(rv),
            starts@.len() == months@.len() + 1,
            forall|k: int| 0 <= k < months@.len() ==> (#[trigger] months@[k]).valid(),
            wv == windows_between(starts@),
            i <= months@.len(),
            lbv.len() == i,
            forall|k: int| 0 <= k < i ==> #[trigger] lbv[k] == formatted_date(
                months@[k],
                "%Y/%m"@,
            ),
            forall|k: int| 0 <= k < i ==> spans_fit(#[trigger] wv[k], rv) && window_seconds(wv[k], rv) <= i64::MAX,
            items.deep_view() == positive_lines(lbv, wv.subrange(0, i as int), rv),
        decreases months.len() - i,
    {
        let w = Window { bounded: true, start: starts[i], end: starts[i + 1] };
        assert(w == wv[i as int]);
        let secs = match window_total(rows, w) {
            Ok(v) => v,
            Err(e) => {
                assert(!windows_fit(wv, rv));
                return Err(e);
            },
        };
        let ghost lab: Seq<char> = formatted_date(months@[i as int], "%Y/%m"@);
        let ghost before = items.deep_view();
        if secs > 0 {
            let item = period_item(format_date(months[i], "%Y/%m"), secs);
            proof {
                lab = item@.name;
            }
            items.push(item);
            assert(items.deep_view() =~= before.push(item@));
        }
        proof {
            let nl = lbv.push(lab);
            let nw = wv.subrange(0, i + 1);
            assert(nl.drop_last() =~= lbv);
            assert(nw.drop_last() =~= wv.subrange(0, i as int));
            assert(nw.last() == w);
            assert forall|k: int| 0 <= k < i + 1 implies #[trigger] nl[k]
                == formatted_date(months@[k], "%Y/%m"@) by {
                if k < i {
                    assert(nl[k] == lbv[k]);
                }
            }
            lbv = nl;
        }
        i = i + 1;
    }
    proof {
        assert(wv.subrange(0, i as int) =~= wv);
        assert(month_labels_hold(months@, lbv));
        assert(month_lines_of(rv, months@, starts@, items.deep_view()));
    }
    Ok(items)
}

/// Without sessions, the reports over all of time fit and hold no line.
proof fn lemma_empty_reports_fit(v: StoreView)
    requires
        v.sessions.len() == 0,
    ensures
        category_report_fits(all_time(), v.rules, v.categories, v.sessions),
        app_report_fits(all_time(), v.sessions),
        report_order(category_items(all_time(), v.rules, v.categories, v.sessions)).len() == 0,
        report_order(app_items(all_time(), v.rules, v.sessions)).len() == 0,
{
    let w = all_time();
    assert(crate::usage::category_keys(v.rules, v.categories, v.sessions).len() == 0);
    assert(crate::usage::category_groups(w, v.rules, v.categories, v.sessions) =~= Seq::empty());
    assert(crate::usage::app_groups(w, v.sessions) =~= Seq::empty());
    let ci = category_items(w, v.rules, v.categories, v.sessions);
    let ai = app_items(w, v.rules, v.sessions);
    assert(ci.len() == 0);
    assert(ai.len() == 0);
    assert(crate::sorting::sorted_positions(ci.map_values(|it: UsageItemView| crate::usage::report_key(it))).len() == 0) by {
        assert(crate::sorting::positions(0) =~= Seq::<int>::empty());
    }
    assert(crate::sorting::sorted_positions(ai.map_values(|it: UsageItemView| crate::usage::report_key(it))).len() == 0) by {
        assert(crate::sorting::positions(0) =~= Seq::<int>::empty());
    }
}

/// All of time.
pub open spec fn all_time() -> Window {
    Window { bounded: false, start: 0, end: 0 }
}

/// The message for a range whose end comes before its start.
pub open spec fn reversed_range_error() -> Seq<char> {
    "End date must not be before start date"@
}

/// The message for a range of more than 3660 days.
pub open spec fn long_range_error() -> Seq<char> {
    "Date range must not exceed 10 years"@
}

/// An earlier date has a smaller rank.
pub proof fn lemma_rank_order(a: Date, b: Date)
    requires
        a.valid(),
        b.valid(),
    ensures
        date_before(a, b) ==> date_rank(a) < date_rank(b),
        !date_before(b, a) ==> date_rank(a) <= date_rank(b),
{
}

/// The day after a date no later than `last` ranks at most a little above `last`.
pub proof fn lemma_next_rank(day: Date, last: Date)
    requires
        day.valid(),
        last.valid(),
        !date_before(last, day),
        next_day(day) is Some,
    ensures
        date_rank(next_day(day).unwrap()) <= date_rank(last) + 34,
{
}

/// A report line of a period: its label and seconds.
pub fn period_item(name: String, seconds: i64) -> (r: UsageItem)
    ensures
        r@.name == name@,
        r@.seconds == seconds,
        r@.color is None,
        r@.executable is None,
        r@.process_path is None,
{
    UsageItem { name, seconds, color: None, executable: None, process_path: None }
}

impl Store {
    /// The use of the local days from `start_date` to `end_date` (both `YYYY-MM-DD`,
    /// both included): the days that hold some use, then the categories and
    /// applications of the whole range, most first. An error where a date does not parse,
    /// where the range runs backwards or spans more than 3660 days, where a local day
    /// cannot be placed, or where a sum does not fit.
    pub fn range_summary(&self, start_date: &str, end_date: &str) -> (r: Result<RangeSummary, String>)
        ensures
            (ymd_text_date(start_date@) is None || ymd_text_date(end_date@) is None) ==> r is Err,
            (ymd_text_date(start_date@) matches Some(f) && ymd_text_date(end_date@) matches Some(l)
                && date_before(l, f)) ==> (r matches Err(e) && e@ == reversed_range_error()),
            (ymd_text_date(start_date@) matches Some(f) && ymd_text_date(end_date@) matches Some(l)
                && !date_before(l, f) && day_index(l) - day_index(f) + 1 > 3660) ==> (r matches Err(e)
                && e@ == long_range_error()),
            r matches Ok(s) ==> plain_positive(s.days.deep_view()) && (ymd_text_date(start_date@) matches Some(f)
                && ymd_text_date(end_date@) matches Some(l) && range_report_exists(self@, f, l, s.categories.deep_view(), s.applications.deep_view())),
            r matches Ok(s) ==> (ymd_text_date(start_date@) matches Some(f) && ymd_text_date(end_date@) matches Some(l)
                && range_days_exist(self@, f, l, s.days.deep_view())),
            r matches Err(e) ==> ymd_text_date(start_date@) is None || ymd_text_date(end_date@) is None || (ymd_text_date(
                start_date@,
            ) matches Some(f) && ymd_text_date(end_date@) matches Some(l) && range_error_holds(self@, f, l, e@)),
    {
        let first = parse_date(start_date)?;
        let last = parse_date(end_date)?;
        self.range_summary_of(first, last)
    }

    /// The use of the local days from `first` to `last`, both included (see
    /// `range_summary`).
    pub fn range_summary_of(&self, first: Date, last: Date) -> (r: Result<RangeSummary, String>)
        requires
            first.valid(),
            last.valid(),
        ensures
            date_before(last, first) ==> (r matches Err(e) && e@ == reversed_range_error()),
            !date_before(last, first) && day_index(last) - day_index(first) + 1 > 3660 ==> (r matches Err(e)
                && e@ == long_range_error()),
            r matches Ok(s) ==> plain_positive(s.days.deep_view()) && range_report_exists(self@, first, last, s.categories.deep_view(), s.applications.deep_view()),
            r matches Ok(s) ==> range_days_exist(self@, first, last, s.days.deep_view()),
            r matches Err(e) ==> range_error_holds(self@, first, last, e@),
    {
        if is_before(last, first) {
            return Err(owned("End date must not be before start date"));
        }
        let day_count = days_between(first, last) as i128 + 1;
        if day_count > 3660 {
            return Err(owned("Date range must not exceed 10 years"));
        }
        let end_exclusive = match next_date(last) {
            Some(n) => n,
            None => return Err(owned("Date is out of range")),
        };
        proof {
            lemma_next_day_valid(last);
        }
        let start = date_range(first)?.0;
        assert(next_day(last) == Some(end_exclusive));
        let end = date_range(end_exclusive)?.0;
        let days = self.range_day_lines(first, last)?;
        let w = Window { bounded: true, start, end };
        assert(range_window(first, last, w));
        let categories = self.category_usage(w)?;
        let applications = self.application_usage(w)?;
        let ghost day_lines = days.deep_view();
        let out = RangeSummary { days, categories, applications };
        assert(out.days.deep_view() == day_lines);
        assert(range_days_exist(self@, first, last, out.days.deep_view()));
        assert(range_report_holds(self@, w, out.categories.deep_view(), out.applications.deep_view()));
        assert(range_report_exists(self@, first, last, out.categories.deep_view(), out.applications.deep_view()));
        assert(plain_positive(out.days.deep_view()));
        Ok(out)
    }

    /// The lines of the local days from `first` to `last` that hold some use (see
    /// `range_days_hold`).
    fn range_day_lines(&self, first: Date, last: Date) -> (r: Result<Vec<UsageItem>, String>)
        requires
            first.valid(),
            last.valid(),
            !date_before(last, first),
            next_day(last) is Some,
        ensures
            r matches Ok(days) ==> plain_positive(days.deep_view()),
            r matches Ok(days) ==> range_days_exist(self@, first, last, days.deep_view()),
            r matches Err(e) ==> local_time_error(e@) || exists|i: int, w: Window| 0 <= i < dates_through(first, last).len()
                && #[trigger] day_window(dates_through(first, last)[i], w) && !total_fits(w, self@.sessions),
    {
        let with_year = first.year != last.year;
        let mut days: Vec<UsageItem> = Vec::new();
        let mut day = first;
        let mut done = false;
        let ghost mut pd: Seq<Date> = Seq::empty();
        let ghost mut wsv: Seq<Window> = Seq::empty();
        let ghost mut lbv: Seq<Seq<char>> = Seq::empty();
        proof {
            lemma_rank_order(first, last);
            assert(days.deep_view() =~= Seq::<UsageItemView>::empty());
            assert(pd + dates_through(day, last) =~= dates_through(first, last));
        }
        while !done && !is_before(last, day)
            invariant
                first.valid(),
                day.valid(),
                last.valid(),
                !date_before(last, first),
                next_day(last) is Some,
                date_rank(day) <= date_rank(last) + 34,
                plain_positive(days.deep_view()),
                with_year == (first.year != last.year),
                dates_through(first, last) == pd + (if done {
                    Seq::<Date>::empty()
                } else {
                    dates_through(day, last)
                }),
                wsv.len() == pd.len(),
                lbv.len() == pd.len(),
                forall|i: int| 0 <= i < pd.len() ==> day_window(pd[i], #[trigger] wsv[i]),
                forall|i: int| 0 <= i < pd.len() ==> #[trigger] lbv[i] == formatted_date(
                    pd[i],
                    label_format(with_year),
                ),
                days.deep_view() == positive_lines(lbv, wsv, self@.sessions),
            decreases date_rank(last) + 34 - date_rank(day) + (if done { 0int } else { 1int }),
        {
            proof {
                lemma_rank_order(day, last);
                assert(dates_through(day, last)[0] == day);
                assert(dates_through(first, last)[pd.len() as int] == day);
            }
            let (ds, de) = date_range(day)?;
            let w = Window { bounded: true, start: ds, end: de };
            let secs = match self.usage_total(w) {
                Ok(t) => t,
                Err(e) => {
                    assert(day_window(dates_through(first, last)[pd.len() as int], w) && !total_fits(w, self@.sessions));
                    return Err(e);
                },
            };
            let ghost lab: Seq<char> = formatted_date(day, label_format(with_year));
            let ghost before_days = days.deep_view();
            if secs > 0 {
                let fmt = if with_year {
                    "%Y/%m/%d"
                } else {
                    "%m/%d"
                };
                let item = period_item(format_date(day, fmt), secs);
                proof {
                    lab = item@.name;
                }
                days.push(item);
                assert(days.deep_view() =~= before_days.push(item@));
            }
            proof {
                let nl = lbv.push(lab);
                let nw = wsv.push(w);
                assert(nl.drop_last() =~= lbv);
                assert(nw.drop_last() =~= wsv);
                assert(days.deep_view() == positive_lines(nl, nw, self@.sessions));
                assert forall|i: int| 0 <= i < pd.len() + 1 implies day_window(pd.push(day)[i], #[trigger] nw[i]) by {
                    if i < pd.len() {
                        assert(nw[i] == wsv[i]);
                        assert(pd.push(day)[i] == pd[i]);
                    }
                }
                assert forall|i: int| 0 <= i < pd.len() + 1 implies #[trigger] nl[i]
                    == formatted_date(pd.push(day)[i], label_format(with_year)) by {
                    if i < pd.len() {
                        assert(nl[i] == lbv[i]);
                        assert(pd.push(day)[i] == pd[i]);
                    }
                }
                lemma_next_day_valid(day);
                pd = pd.push(day);
                wsv = nw;
                lbv = nl;
            }
            match next_date(day) {
                Some(n) => {
                    proof {
                        lemma_next_rank(day, last);
                        assert(dates_through(first, last) =~= pd + dates_through(n, last));
                    }
                    day = n;
                },
                None => {
                    proof {
                        assert(dates_through(first, last) =~= pd + Seq::<Date>::empty());
                    }
                    done = true;
                },
            }
        }
        proof {
            if !done {
                assert(date_before(last, day));
                assert(dates_through(day, last) =~= Seq::<Date>::empty());
            }
            assert(dates_through(first, last) =~= pd);
            lemma_range_days_hold(self@, first, last, pd, wsv, lbv, days.deep_view(), with_year);
            assert(range_days_hold(self@, first, last, wsv, lbv, days.deep_view()));
            assert(range_days_exist(self@, first, last, days.deep_view()));
        }
        Ok(days)
    }

    /// The use per local month, from the month of the first recorded session to the month
    /// in which the last one ends; months without use are left out. The month starts are
    /// placed in local time; the lines are those `month_lines` gives for them.
    fn all_month_usage(&self) -> (r: Result<Vec<UsageItem>, String>)
        ensures
            r matches Ok(items) ==> plain_positive(items.deep_view()),
            r matches Ok(items) ==> month_lines_exist(self@, items.deep_view()),
            self@.sessions.len() == 0 ==> (r matches Ok(items) && items@.len() == 0),
            self@.sessions.len() > 0 && !within_local_range(earliest_start(self@.sessions)) ==> (r matches Err(e)
                && e@ == first_month_error()),
            r matches Err(e) ==> month_error_holds(self@, e@),
    {
        proof {
            use_type_invariant(self);
        }
        let ghost rv = self@.sessions;
        let n = self.tables.sessions.len();
        if n == 0 {
            let v: Vec<UsageItem> = Vec::new();
            proof {
                assert(v.deep_view() =~= Seq::<UsageItemView>::empty());
                let e: Seq<Date> = Seq::empty();
                let st: Seq<i64> = seq![0i64];
                assert(windows_between(st) =~= Seq::<Window>::empty());
                assert(month_labels_hold(e, Seq::empty()));
                assert(positive_lines(Seq::empty(), windows_between(st), rv) =~= v.deep_view());
                assert(month_lines_of(rv, e, st, v.deep_view()));
                assert(month_lines_hold(self@, e, st, v.deep_view()));
                assert(month_lines_exist(self@, v.deep_view()));
            }
            return Ok(v);
        }
        assert(rv[0] == self.tables.sessions@[0]@);
        let mut first = self.tables.sessions[0].started_at;
        let mut last = self.tables.sessions[0].ended_at;
        let mut i: usize = 1;
        while i < n
            invariant
                rv == self.tables.sessions.deep_view(),
                n == rv.len(),
                1 <= i <= n,
                first == earliest_start(rv.subrange(0, i as int)),
                last == latest_end(rv.subrange(0, i as int)),
            decreases n - i,
        {
            assert(rv.subrange(0, i + 1).drop_last() =~= rv.subrange(0, i as int));
            assert(rv[i as int] == self.tables.sessions@[i as int]@);
            if self.tables.sessions[i].started_at < first {
                first = self.tables.sessions[i].started_at;
            }
            if self.tables.sessions[i].ended_at > last {
                last = self.tables.sessions[i].ended_at;
            }
            i = i + 1;
        }
        assert(rv.subrange(0, i as int) =~= rv);
        if first < -8_334_601_142_400_000 || first > 8_210_266_790_399_999 {
            return Err(owned("Unable to determine first recorded month"));
        }
        let first_date = match local_date_of(first) {
            Some(d) => d,
            None => return Err(owned("Unable to determine first recorded month")),
        };
        let mut month = match date_from_ymd(first_date.year, first_date.month, 1) {
            Some(m) => m,
            None => return Err(owned("Unable to determine first recorded month")),
        };
        let mut start = date_range(month)?.0;
        if start > first {
            assert(month == month_start(first_date));
            assert(local_date_near(first_date, earliest_start(rv)) && placed_at(month_start(first_date), start as int));
            return Err(owned("Unable to determine first recorded month"));
        }
        let mut months: Vec<Date> = Vec::new();
        let mut starts: Vec<i64> = Vec::new();
        starts.push(start);
        let mut done = false;
        while !done
            invariant
                rv == self@.sessions,
                rv.len() > 0,
                month.valid(),
                month.day == 1,
                consecutive_months(months@),
                months@.len() > 0 ==> month_after(months@.last()) == Some(month),
                starts@.len() == months@.len() + 1,
                starts@.last() == start,
                starts@[0] <= first,
                placed_at(month, start as int),
                forall|k: int| 0 <= k < months@.len() ==> month_after(#[trigger] months@[k]) is Some && placed_at(
                    months@[k],
                    starts@[k] as int,
                ) && placed_at(month_after(months@[k]).unwrap(), starts@[k + 1] as int),
                done ==> start >= last,
                (first < last && months@.len() == 0) ==> !done,
                first == earliest_start(rv),
                within_local_range(first as int),
                last == latest_end(rv),
                months@.len() > 0 ==> starts@[months@.len() - 1] < last,
            decreases (max_year() - (-262143int)) * 416 + 12 * 32 + 31 - date_rank(month) + (if done { 0int } else { 1int }),
        {
            let next_month = if month.month == 12 {
                date_from_ymd(month.year + 1, 1, 1)
            } else {
                date_from_ymd(month.year, month.month + 1, 1)
            };
            let next_month = match next_month {
                Some(m) => m,
                None => {
                    proof {
                        assert(month.year == 262142 && month.month == 12);
                        if months@.len() > 0 {
                            let k = months@.len() - 1;
                            assert(month_after(months@[k]) == Some(month));
                            assert(months@[k] == Date { year: 262142, month: 11, day: 1 });
                            assert(placed_at(months@[k], starts@[k] as int));
                        } else {
                            assert(starts@[0] == start);
                        }
                    }
                    return Err(owned("Unable to determine next recorded month"));
                },
            };
            assert(month_after(month) == Some(next_month));
            if start >= last {
                done = true;
            } else {
                let next_start = date_range(next_month)?.0;
                let ghost old_months = months@;
                let ghost old_starts = starts@;
                months.push(month);
                starts.push(next_start);
                proof {
                    assert forall|k: int| 0 <= k < months@.len() implies (#[trigger] months@[k]).valid() && months@[k].day == 1 by {
                        if k < old_months.len() {
                            assert(months@[k] == old_months[k]);
                        }
                    }
                    assert forall|k: int| 0 <= k < months@.len() - 1 implies #[trigger] month_after(months@[k]) == Some(months@[k + 1]) by {
                        assert(months@[k] == old_months[k]);
                        if k < old_months.len() - 1 {
                            assert(months@[k + 1] == old_months[k + 1]);
                        }
                    }
                    assert forall|k: int| 0 <= k < months@.len() implies month_after(#[trigger] months@[k]) is Some && placed_at(
                        months@[k],
                        starts@[k] as int,
                    ) && placed_at(month_after(months@[k]).unwrap(), starts@[k + 1] as int) by {
                        if k < old_months.len() {
                            assert(months@[k] == old_months[k]);
                            assert(starts@[k] == old_starts[k]);
                            assert(starts@[k + 1] == old_starts[k + 1]);
                        } else {
                            assert(months@[k] == month);
                            assert(starts@[k] == start);
                            assert(starts@[k + 1] == next_start);
                        }
                    }
                    assert(starts@[0] == old_starts[0]);
                }
                month = next_month;
                start = next_start;
            }
        }
        proof {
            if rv.len() > 0 && earliest_start(rv) < latest_end(rv) {
                assert(months@.len() > 0);
                assert(starts@[months@.len() as int] == starts@.last());
            }
            assert(months_placed(self@, months@, starts@));
        }
        let items = match month_lines(&self.tables.sessions, &months, &starts) {
            Ok(items) => items,
            Err(e) => {
                assert(months_placed(self@, months@, starts@) && !windows_fit(windows_between(starts@), self@.sessions));
                return Err(e);
            },
        };
        proof {
            lemma_month_lines_plain(rv, months@, starts@, items.deep_view());
            assert(month_lines_hold(self@, months@, starts@, items.deep_view()));
            assert(month_lines_exist(self@, items.deep_view()));
        }
        Ok(items)
    }

    /// The use over everything recorded: per local month, then per category and per
    /// application over all sessions, most first. An error where a month cannot be
    /// placed in local time, or where a sum does not fit.
    pub fn all_summary(&self) -> (r: Result<AllSummary, String>)
        ensures
            r matches Ok(s) ==> plain_positive(s.months.deep_view()) && s.categories.deep_view()
                == report_order(category_items(all_time(), self@.rules, self@.categories, self@.sessions))
                && s.applications.deep_view() == report_order(app_items(all_time(), self@.rules, self@.sessions)),
            r matches Ok(s) ==> month_lines_exist(self@, s.months.deep_view()),
            self@.sessions.len() == 0 ==> (r matches Ok(s) && s.months@.len() == 0 && s.categories@.len() == 0
                && s.applications@.len() == 0),
            !category_report_fits(all_time(), self@.rules, self@.categories, self@.sessions) ==> r is Err,
            !app_report_fits(all_time(), self@.sessions) ==> r is Err,
            self@.sessions.len() > 0 && !within_local_range(earliest_start(self@.sessions)) ==> (r matches Err(e)
                && e@ == first_month_error()),
            r matches Err(e) ==> month_error_holds(self@, e@) || !category_report_fits(
                all_time(),
                self@.rules,
                self@.categories,
                self@.sessions,
            ) || !app_report_fits(all_time(), self@.sessions),
    {
        proof {
            if self@.sessions.len() == 0 {
                lemma_empty_reports_fit(self@);
            }
        }
        let months = self.all_month_usage()?;
        let ghost month_view = months.deep_view();
        let w = Window { bounded: false, start: 0, end: 0 };
        let categories = self.category_usage(w)?;
        let applications = self.application_usage(w)?;
        let out = AllSummary { months, categories, applications };
        assert(out.months.deep_view() == month_view);
        Ok(out)
    }
}

} // verus!
