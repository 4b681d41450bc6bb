//! Properties of the store that span its operations: categories, rules, sessions and
//! the icon paths.
use vstd::prelude::*;

use crate::calendar::{formatted_date, date_before, date_rank, day_index, law_day_index_steps_by_one, lemma_next_day_valid, next_day, Date};
use crate::model::{AppInfoView, AppRulePatch, AppRuleView, CategoryView, SessionRowView, UsageItemView};
use crate::store::{
    add_path, appended, category_creation, category_named, clear_category, color_result, dates_through,
    default_categories, defaults_key, rule_change, rules_linked, gather_paths, names_unique, opened, setting_value, seed_category, seeded, without_reserved,
    lemma_rank_order,
    icon_candidates, icon_path_list, is_color_code, latest_session, lemma_latest_session_bound,
    remove_category, upper_case, upserted_rules, StoreView,
    day_report_holds, label_format, positive_lines, range_days_hold, range_report_holds,
};
use crate::text::{folded, trim_end, trim_start, trimmed, is_white_space};
use crate::usage::{
    category_has_id, category_of, first_index, lemma_first_index, lemma_first_index_found,
    reserved_category_name, rule_is_for, rule_of, Window,
};

verus! {

/// A name that a category was created with is refused for any later category, whatever
/// the ASCII case and the white space around it.
pub proof fn law_category_name_used_once(
    categories: Seq<CategoryView>,
    name: Seq<char>,
    color: Seq<char>,
    other_name: Seq<char>,
    other_color: Seq<char>,
)
    requires
        category_creation(categories, name, color) is Ok,
        folded(trimmed(other_name)) == folded(trimmed(name)),
    ensures
        category_creation(
            categories.push(category_creation(categories, name, color)->Ok_0),
            other_name,
            other_color,
        ) is Err,
{
    let x = category_creation(categories, name, color)->Ok_0;
    let cs = categories.push(x);
    assert(cs[categories.len() as int] == x);
    assert(x.name == trimmed(name));
    assert(folded(cs[categories.len() as int].name) == folded(trimmed(other_name)));
}

/// What `remove_category` keeps: every category without the id, and nothing with it.
pub proof fn lemma_remove_category(categories: Seq<CategoryView>, id: i64)
    ensures
        forall|j: int| 0 <= j < remove_category(categories, id).len() ==> (#[trigger] remove_category(categories, id)[j]).id != id,
        forall|j: int| 0 <= j < categories.len() && (#[trigger] categories[j]).id != id ==> remove_category(categories, id).contains(categories[j]),
        forall|j: int| 0 <= j < remove_category(categories, id).len() ==> categories.contains(#[trigger] remove_category(categories, id)[j]),
    decreases categories.len(),
{
    if categories.len() > 0 {
        let rest = remove_category(categories.drop_last(), id);
        lemma_remove_category(categories.drop_last(), id);
        let r = remove_category(categories, id);
        assert forall|j: int| 0 <= j < r.len() implies categories.contains(#[trigger] r[j]) by {
            if j < rest.len() {
                assert(r[j] == rest[j]);
                let k = choose|k: int| 0 <= k < categories.drop_last().len() && categories.drop_last()[k] == rest[j];
                assert(categories[k] == categories.drop_last()[k]);
            } else {
                assert(r[j] == categories.last());
                assert(categories[categories.len() - 1] == categories.last());
            }
        }
        assert forall|j: int| 0 <= j < categories.len() && (#[trigger] categories[j]).id != id implies remove_category(categories, id).contains(categories[j]) by {
            if j < categories.len() - 1 {
                assert(categories[j] == categories.drop_last()[j]);
                let k = choose|k: int| 0 <= k < rest.len() && rest[k] == categories.drop_last()[j];
                if categories.last().id != id {
                    assert(rest.push(categories.last())[k] == rest[k]);
                }
            } else {
                assert(rest.push(categories.last())[rest.len() as int] == categories.last());
            }
        }
    }
}

/// After a category is deleted, no category has its id and no rule names it; every other
/// category stays.
pub proof fn law_deleted_category_is_gone(categories: Seq<CategoryView>, rules: Seq<AppRuleView>, id: i64)
    ensures
        category_of(remove_category(categories, id), id) is None,
        forall|j: int| 0 <= j < categories.len() && (#[trigger] categories[j]).id != id ==> remove_category(categories, id).contains(categories[j]),
        forall|j: int| 0 <= j < rules.len() ==> (#[trigger] clear_category(rules, id)[j]).category_id != Some(id),
        clear_category(rules, id).len() == rules.len(),
{
    lemma_remove_category(categories, id);
    let rest = remove_category(categories, id);
    assert forall|j: int| 0 <= j < rest.len() implies !category_has_id(id)(#[trigger] rest[j]) by {}
    lemma_first_index(rest, category_has_id(id), rest.len() as int);
}

/// Two lists on which a property holds at the same places have the same first match.
pub proof fn lemma_first_index_same<T>(a: Seq<T>, b: Seq<T>, p: spec_fn(T) -> bool)
    requires
        a.len() == b.len(),
        forall|j: int| 0 <= j < a.len() ==> p(#[trigger] a[j]) == p(b[j]),
    ensures
        first_index(a, p) == first_index(b, p),
{
    lemma_first_index_found(a, p);
    match first_index(a, p) {
        Some(i) => {
            assert forall|j: int| 0 <= j < i implies !p(#[trigger] b[j]) by {
                assert(p(a[j]) == p(b[j]));
            }
            assert(p(a[i]) == p(b[i]));
            lemma_first_index(b, p, i);
        },
        None => {
            assert forall|j: int| 0 <= j < b.len() implies !p(#[trigger] b[j]) by {
                assert(p(a[j]) == p(b[j]));
            }
            lemma_first_index(b, p, b.len() as int);
        },
    }
}

/// The rule that `rule_for` leaves for an executable: the stored rule with the new path,
/// or a new rule with the name and path given.
pub open spec fn refreshed_rule(rules: Seq<AppRuleView>, exe: Seq<char>, name: Seq<char>, path: Seq<char>) -> AppRuleView {
    match rule_of(rules, exe) {
        Some(r) => AppRuleView { process_path: path, ..r },
        None => AppRuleView {
            executable: exe,
            display_name: name,
            process_path: path,
            category_id: None,
            ignored: false,
            continue_tracking_while_idle: false,
        },
    }
}

/// Recording where an executable runs changes only the path of its rule (its name,
/// category and flags stay), or adds a rule for a new executable; the rules of other
/// executables do not change.
pub proof fn law_rule_for_refreshes_path(rules: Seq<AppRuleView>, exe: Seq<char>, name: Seq<char>, path: Seq<char>)
    ensures
        rule_of(upserted_rules(rules, exe, name, path), exe) == Some(refreshed_rule(rules, exe, name, path)),
        forall|q: Seq<char>| q != exe ==> #[trigger] rule_of(upserted_rules(rules, exe, name, path), q) == rule_of(rules, q),
{
    let u = upserted_rules(rules, exe, name, path);
    lemma_first_index_found(rules, rule_is_for(exe));
    match first_index(rules, rule_is_for(exe)) {
        Some(i) => {
            assert forall|q: Seq<char>| #[trigger] first_index(u, rule_is_for(q)) == first_index(rules, rule_is_for(q)) by {
                assert forall|j: int| 0 <= j < u.len() implies rule_is_for(q)(#[trigger] u[j]) == rule_is_for(q)(rules[j]) by {}
                lemma_first_index_same(u, rules, rule_is_for(q));
            }
            assert forall|q: Seq<char>| q != exe implies #[trigger] rule_of(u, q) == rule_of(rules, q) by {
                assert(first_index(u, rule_is_for(q)) == first_index(rules, rule_is_for(q)));
                lemma_first_index_found(rules, rule_is_for(q));
            }
            assert(first_index(u, rule_is_for(exe)) == Some(i));
        },
        None => {
            let x = AppRuleView {
                executable: exe,
                display_name: name,
                process_path: path,
                category_id: None,
                ignored: false,
                continue_tracking_while_idle: false,
            };
            assert forall|q: Seq<char>| q != exe implies #[trigger] rule_of(u, q) == rule_of(rules, q) by {
                crate::laws::lemma_first_index_push(rules, x, rule_is_for(q));
                lemma_first_index_found(rules, rule_is_for(q));
                if let Some(k) = first_index(rules, rule_is_for(q)) {
                    assert(u[k] == rules[k]);
                }
            }
            crate::laws::lemma_first_index_push(rules, x, rule_is_for(exe));
        },
    }
}

/// The milliseconds that the sessions cover, summed.
pub open spec fn recorded_ms(rows: Seq<SessionRowView>) -> int
    decreases rows.len(),
{
    if rows.len() == 0 {
        0
    } else {
        recorded_ms(rows.drop_last()) + (rows.last().ended_at - rows.last().started_at)
    }
}

/// Replacing one session changes the sum by the difference of their spans.
pub proof fn lemma_recorded_update(rows: Seq<SessionRowView>, j: int, x: SessionRowView)
    requires
        0 <= j < rows.len(),
    ensures
        recorded_ms(rows.update(j, x)) == recorded_ms(rows) - (rows[j].ended_at - rows[j].started_at) + (x.ended_at - x.started_at),
    decreases rows.len(),
{
    let u = rows.update(j, x);
    if j == rows.len() - 1 {
        assert(u.drop_last() =~= rows.drop_last());
    } else {
        assert(u.drop_last() =~= rows.drop_last().update(j, x));
        lemma_recorded_update(rows.drop_last(), j, x);
    }
}

/// Recording use of an application adds exactly the length of the span to the time the
/// sessions cover (nothing for an ignored application or an empty span), whether the
/// span extends the latest session or starts a new one.
pub proof fn law_append_records_the_span(sessions: Seq<SessionRowView>, app: AppInfoView, start: i64, end: i64)
    ensures
        appended(sessions, app, start, end) matches Some(after) ==> recorded_ms(after) == recorded_ms(sessions) + if app.ignored || end <= start {
            0
        } else {
            end - start
        },
{
    lemma_latest_session_bound(sessions, app.executable, app.display_name);
    if !(app.ignored || end <= start) {
        let latest = latest_session(sessions, app.executable, app.display_name);
        if latest matches Some(j) && sessions[j].ended_at == start {
            let j = latest.unwrap();
            let x = SessionRowView { ended_at: end, ..sessions[j] };
            lemma_recorded_update(sessions, j, x);
        } else if let Some(after) = appended(sessions, app, start, end) {
            assert(after.drop_last() =~= sessions);
        }
    }
}

/// The paths gathered from a list: each once, none blank, every non-blank one of the list,
/// nothing else, and the first of the list first where it is not blank.
pub proof fn lemma_gather_paths(ps: Seq<Seq<char>>)
    ensures
        forall|i: int, j: int| 0 <= i < j < gather_paths(ps).len() ==> gather_paths(ps)[i] != gather_paths(ps)[j],
        forall|i: int| 0 <= i < gather_paths(ps).len() ==> trimmed(#[trigger] gather_paths(ps)[i]).len() > 0,
        forall|i: int| 0 <= i < gather_paths(ps).len() ==> ps.contains(#[trigger] gather_paths(ps)[i]),
        forall|k: int| 0 <= k < ps.len() && trimmed(#[trigger] ps[k]).len() > 0 ==> gather_paths(ps).contains(ps[k]),
        ps.len() > 0 && trimmed(ps[0]).len() > 0 ==> gather_paths(ps).len() > 0 && gather_paths(ps)[0] == ps[0],
    decreases ps.len(),
{
    if ps.len() > 0 {
        let init = ps.drop_last();
        let g0 = gather_paths(init);
        let g = gather_paths(ps);
        lemma_gather_paths(init);
        assert(g == add_path(g0, ps.last()));
        assert forall|i: int| 0 <= i < g.len() implies ps.contains(#[trigger] g[i]) by {
            if i < g0.len() {
                assert(g[i] == g0[i]);
                let k = choose|k: int| 0 <= k < init.len() && init[k] == g0[i];
                assert(ps[k] == init[k]);
            } else {
                assert(ps[ps.len() - 1] == ps.last());
            }
        }
        assert forall|k: int| 0 <= k < ps.len() && trimmed(#[trigger] ps[k]).len() > 0 implies g.contains(ps[k]) by {
            if k < ps.len() - 1 {
                assert(ps[k] == init[k]);
                let i = choose|i: int| 0 <= i < g0.len() && g0[i] == init[k];
                if trimmed(ps.last()).len() > 0 && !g0.contains(ps.last()) {
                    assert(g[i] == g0[i]);
                }
            } else if g0.contains(ps.last()) {
            } else {
                assert(g[g0.len() as int] == ps.last());
            }
        }
        if ps.len() > 1 && trimmed(ps[0]).len() > 0 {
            assert(init[0] == ps[0]);
        }
        if ps.len() == 1 && trimmed(ps[0]).len() > 0 {
            assert(init.len() == 0);
            assert(g0.len() == 0);
            assert(!g0.contains(ps.last()));
        }
    }
}

/// The paths where an icon is looked for: each once, none blank, every non-blank path of
/// the rule or of a session of the executable, nothing else, and the path of the rule
/// first where it is not blank.
pub proof fn law_icon_paths(v: StoreView, exe: Seq<char>)
    ensures
        forall|i: int, j: int| 0 <= i < j < icon_path_list(v, exe).len() ==> icon_path_list(v, exe)[i] != icon_path_list(v, exe)[j],
        forall|i: int| 0 <= i < icon_path_list(v, exe).len() ==> trimmed(#[trigger] icon_path_list(v, exe)[i]).len() > 0,
        forall|i: int| 0 <= i < icon_path_list(v, exe).len() ==> icon_candidates(v, exe).contains(#[trigger] icon_path_list(v, exe)[i]),
        forall|k: int| 0 <= k < icon_candidates(v, exe).len() && trimmed(#[trigger] icon_candidates(v, exe)[k]).len() > 0 ==> icon_path_list(v, exe).contains(icon_candidates(v, exe)[k]),
        rule_of(v.rules, exe) matches Some(r) ==> (trimmed(r.process_path).len() > 0 ==> icon_path_list(v, exe).len() > 0 && icon_path_list(v, exe)[0] == r.process_path),
{
    lemma_gather_paths(icon_candidates(v, exe));
    if let Some(r) = rule_of(v.rules, exe) {
        assert(icon_candidates(v, exe)[0] == r.process_path);
    }
}

/// A character that starts or ends a color code is not white space.
proof fn lemma_code_ends_not_space(c: char)
    requires
        c == '#' || ('0' <= c <= '9') || ('A' <= c <= 'F') || ('a' <= c <= 'f'),
    ensures
        !is_white_space(c),
{
}

/// A stored color is accepted again as it is.
pub proof fn law_color_normal_form(value: Seq<char>)
    ensures
        color_result(value) matches Ok(c) ==> color_result(c) == Ok::<Seq<char>, Seq<char>>(c),
{
    if let Ok(c) = color_result(value) {
        let t = trimmed(value);
        assert(is_color_code(t));
        assert(c.len() == 7);
        assert forall|i: int| 0 <= i < 7 implies #[trigger] c[i] == upper_case(t[i]) by {}
        assert(c[0] == '#');
        assert forall|i: int| 1 <= i < 7 implies ('0' <= #[trigger] c[i] <= '9') || ('A' <= c[i] <= 'F') by {
            assert(crate::store::is_hex_digit(t[i]));
        }
        lemma_code_ends_not_space(c[0]);
        lemma_code_ends_not_space(c[6]);
        assert(trim_start(c) == c);
        assert(trim_end(c) == c);
        assert(trimmed(c) == c);
        assert(is_color_code(c));
        assert(c.map_values(|x: char| upper_case(x)) =~= c);
    }
}

/// No date lies strictly between a date and the next one: a later date comes no earlier
/// than the next day.
pub proof fn lemma_next_day_is_next(a: Date, b: Date)
    requires
        a.valid(),
        b.valid(),
        date_before(a, b),
    ensures
        next_day(a) is Some,
        !date_before(b, next_day(a).unwrap()),
{
}

/// An earlier date has a smaller count of days.
pub proof fn lemma_day_index_order(a: Date, b: Date)
    requires
        a.valid(),
        b.valid(),
        date_before(a, b),
    ensures
        day_index(a) < day_index(b),
    decreases date_rank(b) - date_rank(a),
{
    lemma_next_day_is_next(a, b);
    let n = next_day(a).unwrap();
    lemma_next_day_valid(a);
    law_day_index_steps_by_one(a);
    if n != b {
        lemma_rank_order(n, b);
        assert(date_before(n, b));
        lemma_day_index_order(n, b);
    }
}

/// The walk from `d` to `last` visits as many dates as the count of days says: one more
/// than the days between them.
pub proof fn lemma_dates_through_len(d: Date, last: Date)
    requires
        d.valid(),
        last.valid(),
        !date_before(last, d),
    ensures
        dates_through(d, last).len() == day_index(last) - day_index(d) + 1,
    decreases date_rank(last) + 34 - date_rank(d),
{
    lemma_rank_order(d, last);
    match next_day(d) {
        Some(n) => {
            lemma_next_day_valid(d);
            law_day_index_steps_by_one(d);
            crate::store::lemma_next_rank(d, last);
            if date_before(last, n) {
                if d != last {
                    assert(date_before(d, last));
                    lemma_day_index_order(d, last);
                    lemma_day_index_order(last, n);
                }
                assert(dates_through(n, last) =~= Seq::<Date>::empty());
            } else {
                lemma_dates_through_len(n, last);
            }
        },
        None => {
            if d != last {
                assert(date_before(d, last));
                lemma_next_day_is_next(d, last);
            }
        },
    }
}

/// A range of dates covers one day more than the days between its ends, the count that
/// the ten-year limit is checked against.
pub proof fn law_range_covers_counted_days(first: Date, last: Date)
    requires
        first.valid(),
        last.valid(),
        !date_before(last, first),
    ensures
        dates_through(first, last).len() == day_index(last) - day_index(first) + 1,
        forall|i: int| 0 <= i < dates_through(first, last).len() ==> day_index(#[trigger] dates_through(first, last)[i]) == day_index(first) + i,
{
    lemma_dates_through_len(first, last);
    lemma_dates_through_steps(first, last);
}

/// The `i`-th date of a walk is `i` days after its first.
pub proof fn lemma_dates_through_steps(d: Date, last: Date)
    requires
        d.valid(),
        last.valid(),
    ensures
        forall|i: int| 0 <= i < dates_through(d, last).len() ==> day_index(#[trigger] dates_through(d, last)[i]) == day_index(d) + i,
    decreases date_rank(last) + 34 - date_rank(d),
{
    if !date_before(last, d) {
        lemma_rank_order(d, last);
        match next_day(d) {
            Some(n) => {
                lemma_next_day_valid(d);
                law_day_index_steps_by_one(d);
                crate::store::lemma_next_rank(d, last);
                lemma_dates_through_steps(n, last);
                let w = dates_through(d, last);
                assert(w == seq![d] + dates_through(n, last));
                assert forall|i: int| 0 <= i < w.len() implies day_index(#[trigger] w[i]) == day_index(d) + i by {
                    if i > 0 {
                        assert(w[i] == dates_through(n, last)[i - 1]);
                    }
                }
            },
            None => {},
        }
    }
}

/// Seeding a category keeps the categories there before, first and unchanged, and keeps
/// names unique.
proof fn lemma_seed_keeps(categories: Seq<CategoryView>, name: Seq<char>, color: Seq<char>)
    requires
        names_unique(categories),
    ensures
        seed_category(Some(categories), name, color) matches Some(c) ==> names_unique(c) && c.len() >= categories.len()
            && forall|i: int| 0 <= i < categories.len() ==> #[trigger] c[i] == categories[i],
{
    if let Some(c) = seed_category(Some(categories), name, color) {
        if c != categories {
            lemma_first_index_found(categories, category_named(name));
            assert forall|i: int, j: int| 0 <= i < j < c.len() implies (#[trigger] c[i]).name != (#[trigger] c[j]).name by {
                if j == categories.len() {
                    assert(!category_named(name)(categories[i]));
                }
            }
        }
    }
}

/// Seeding the default categories keeps the categories there before, first and unchanged,
/// and keeps names unique.
proof fn lemma_defaults_keep(categories: Seq<CategoryView>)
    requires
        names_unique(categories),
    ensures
        default_categories(categories) matches Some(c) ==> names_unique(c) && c.len() >= categories.len()
            && forall|i: int| 0 <= i < categories.len() ==> #[trigger] c[i] == categories[i],
{
    let c1 = seed_category(Some(categories), "工作"@, "#6E8CFF"@);
    lemma_seed_keeps(categories, "工作"@, "#6E8CFF"@);
    if let Some(a) = c1 {
        let c2 = seed_category(Some(a), "学习"@, "#A77BFF"@);
        lemma_seed_keeps(a, "学习"@, "#A77BFF"@);
        if let Some(b) = c2 {
            let c3 = seed_category(Some(b), "沟通"@, "#46C2A6"@);
            lemma_seed_keeps(b, "沟通"@, "#46C2A6"@);
            if let Some(c) = c3 {
                let c4 = seed_category(Some(c), "娱乐"@, "#FF8E72"@);
                lemma_seed_keeps(c, "娱乐"@, "#FF8E72"@);
                if let Some(d) = c4 {
                    lemma_seed_keeps(d, "工具"@, "#E9BC5D"@);
                    if let Some(e) = seed_category(Some(d), "工具"@, "#E9BC5D"@) {
                        assert forall|i: int| 0 <= i < categories.len() implies #[trigger] e[i] == categories[i] by {
                            assert(a[i] == categories[i]);
                            assert(b[i] == a[i]);
                            assert(c[i] == b[i]);
                            assert(d[i] == c[i]);
                        }
                    }
                }
            }
        }
    }
}

/// Opening tables whose category names are unique removes the category named like the
/// reserved one: none is left with that name, the rules of its id fall back to no
/// category (their other fields unchanged), every category with another id stays, and
/// the sessions do not change.
pub proof fn law_open_removes_reserved_category(v: StoreView, i: int)
    requires
        names_unique(v.categories),
        0 <= i < v.categories.len(),
        v.categories[i].name == reserved_category_name(),
    ensures
        opened(v) matches Some(o) ==> {
            &&& forall|j: int| 0 <= j < o.categories.len() ==> (#[trigger] o.categories[j]).name != reserved_category_name()
            &&& o.rules == clear_category(v.rules, v.categories[i].id)
            &&& o.sessions == v.sessions
            &&& forall|j: int| 0 <= j < v.categories.len() && (#[trigger] v.categories[j]).id != v.categories[i].id
                ==> o.categories.contains(v.categories[j])
        },
{
    if let Some(o) = opened(v) {
        let s = seeded(v).unwrap();
        lemma_defaults_keep(v.categories);
        let cs = s.categories;
        assert(names_unique(cs) && cs.len() >= v.categories.len() && forall|j: int| 0 <= j < v.categories.len() ==> #[trigger] cs[j] == v.categories[j]);
        let p = category_named(reserved_category_name());
        assert forall|j: int| 0 <= j < i implies !p(#[trigger] cs[j]) by {
            assert(cs[j] == v.categories[j]);
            assert(v.categories[j].name != v.categories[i].name);
        }
        assert(cs[i] == v.categories[i]);
        lemma_first_index(cs, p, i);
        let k = v.categories[i].id;
        let r = without_reserved(s);
        assert(r.categories == remove_category(cs, k));
        lemma_remove_category(cs, k);
        let rc = remove_category(cs, k);
        assert forall|j: int| 0 <= j < rc.len() implies (#[trigger] rc[j]).name != reserved_category_name() by {
            assert(cs.contains(rc[j]));
            let m = choose|m: int| 0 <= m < cs.len() && cs[m] == rc[j];
            if rc[j].name == reserved_category_name() {
                if m != i {
                    assert(cs[m].name == cs[i].name);
                }
                assert(rc[j].id == k);
            }
        }
        assert forall|j: int| 0 <= j < v.categories.len() && (#[trigger] v.categories[j]).id != k implies rc.contains(
            v.categories[j],
        ) by {
            assert(cs[j] == v.categories[j]);
        }
    }
}

/// Deleting a category keeps the names of the others unique.
pub proof fn law_delete_keeps_names_unique(categories: Seq<CategoryView>, id: i64)
    requires
        names_unique(categories),
    ensures
        names_unique(remove_category(categories, id)),
    decreases categories.len(),
{
    if categories.len() > 0 {
        let init = categories.drop_last();
        assert forall|i: int, j: int| 0 <= i < j < init.len() implies (#[trigger] init[i]).name != (#[trigger] init[j]).name by {
            assert(init[i] == categories[i] && init[j] == categories[j]);
        }
        law_delete_keeps_names_unique(init, id);
        lemma_remove_category(init, id);
        let rest = remove_category(init, id);
        let last = categories.last();
        if last.id != id {
            let r = rest.push(last);
            assert forall|i: int, j: int| 0 <= i < j < r.len() implies (#[trigger] r[i]).name != (#[trigger] r[j]).name by {
                if j == rest.len() {
                    assert(r[i] == rest[i]);
                    assert(init.contains(rest[i]));
                    let k = choose|k: int| 0 <= k < init.len() && init[k] == rest[i];
                    assert(categories[k] == init[k]);
                    assert(categories[categories.len() - 1] == last);
                } else {
                    assert(r[i] == rest[i] && r[j] == rest[j]);
                }
            }
        }
    }
}

/// A category that `create_category` adds has a name that no category had, so names
/// stay unique.
pub proof fn law_created_name_is_new(categories: Seq<CategoryView>, name: Seq<char>, color: Seq<char>)
    requires
        names_unique(categories),
    ensures
        category_creation(categories, name, color) matches Ok(c) ==> {
            &&& forall|i: int| 0 <= i < categories.len() ==> (#[trigger] categories[i]).name != c.name
            &&& names_unique(categories.push(c))
        },
{
    if let Ok(c) = category_creation(categories, name, color) {
        assert forall|i: int| 0 <= i < categories.len() implies (#[trigger] categories[i]).name != c.name by {
            if categories[i].name == c.name {
                assert(folded(categories[i].name) == folded(trimmed(name)));
            }
        }
        let r = categories.push(c);
        assert forall|i: int, j: int| 0 <= i < j < r.len() implies (#[trigger] r[i]).name != (#[trigger] r[j]).name by {
            assert(r[i] == categories[i]);
            if j < categories.len() {
                assert(r[j] == categories[j]);
            }
        }
    }
}

/// Opening tables whose category names are unique leaves them unique: the seeded
/// defaults take only names not yet used, and removing the reserved category keeps the
/// rest unique.
pub proof fn law_open_keeps_names_unique(v: StoreView)
    requires
        names_unique(v.categories),
    ensures
        opened(v) matches Some(o) ==> names_unique(o.categories),
{
    if let Some(o) = opened(v) {
        let s = seeded(v).unwrap();
        lemma_defaults_keep(v.categories);
        assert(names_unique(s.categories));
        match first_index(s.categories, category_named(reserved_category_name())) {
            Some(i) => {
                law_delete_keeps_names_unique(s.categories, s.categories[i].id);
            },
            None => {},
        }
    }
}

/// Whether no category is named like the reserved category.
pub open spec fn no_reserved_category(categories: Seq<CategoryView>) -> bool {
    forall|j: int| 0 <= j < categories.len() ==> (#[trigger] categories[j]).name != reserved_category_name()
}

/// Seeding a category with another name than the reserved one adds no category with
/// the reserved name.
proof fn lemma_seed_no_reserved(categories: Seq<CategoryView>, name: Seq<char>, color: Seq<char>)
    requires
        no_reserved_category(categories),
        name != reserved_category_name(),
    ensures
        seed_category(Some(categories), name, color) matches Some(c) ==> no_reserved_category(c),
{
    if let Some(c) = seed_category(Some(categories), name, color) {
        assert forall|j: int| 0 <= j < c.len() implies (#[trigger] c[j]).name != reserved_category_name() by {
            if j < categories.len() {
                assert(c[j] == categories[j]);
            }
        }
    }
}

/// Seeding the default categories adds none with the reserved name.
proof fn lemma_defaults_no_reserved(categories: Seq<CategoryView>)
    requires
        no_reserved_category(categories),
    ensures
        default_categories(categories) matches Some(c) ==> no_reserved_category(c),
{
    reveal_strlit("其他");
    reveal_strlit("工作");
    reveal_strlit("学习");
    reveal_strlit("沟通");
    reveal_strlit("娱乐");
    reveal_strlit("工具");
    assert("工作"@ != reserved_category_name()) by {
        assert("工作"@[0] != "其他"@[0]);
    }
    assert("学习"@ != reserved_category_name()) by {
        assert("学习"@[0] != "其他"@[0]);
    }
    assert("沟通"@ != reserved_category_name()) by {
        assert("沟通"@[0] != "其他"@[0]);
    }
    assert("娱乐"@ != reserved_category_name()) by {
        assert("娱乐"@[0] != "其他"@[0]);
    }
    assert("工具"@ != reserved_category_name()) by {
        assert("工具"@[0] != "其他"@[0]);
    }
    lemma_seed_no_reserved(categories, "工作"@, "#6E8CFF"@);
    if let Some(a) = seed_category(Some(categories), "工作"@, "#6E8CFF"@) {
        lemma_seed_no_reserved(a, "学习"@, "#A77BFF"@);
        if let Some(b) = seed_category(Some(a), "学习"@, "#A77BFF"@) {
            lemma_seed_no_reserved(b, "沟通"@, "#46C2A6"@);
            if let Some(c) = seed_category(Some(b), "沟通"@, "#46C2A6"@) {
                lemma_seed_no_reserved(c, "娱乐"@, "#FF8E72"@);
                if let Some(d) = seed_category(Some(c), "娱乐"@, "#FF8E72"@) {
                    lemma_seed_no_reserved(d, "工具"@, "#E9BC5D"@);
                }
            }
        }
    }
}

/// Opening tables without a category named like the reserved one changes no rule and
/// no session, and removes no category: the categories there before stay first and
/// unchanged, and where the defaults were seeded before, the categories do not change
/// at all. No category with the reserved name appears.
pub proof fn law_open_without_reserved_category(v: StoreView)
    requires
        names_unique(v.categories),
        no_reserved_category(v.categories),
    ensures
        opened(v) matches Some(o) ==> {
            &&& o.rules == v.rules
            &&& o.sessions == v.sessions
            &&& no_reserved_category(o.categories)
            &&& o.categories.len() >= v.categories.len()
            &&& forall|j: int| 0 <= j < v.categories.len() ==> #[trigger] o.categories[j] == v.categories[j]
            &&& setting_value(v.settings, defaults_key()) is Some ==> o.categories == v.categories
        },
{
    if let Some(o) = opened(v) {
        let s = seeded(v).unwrap();
        lemma_defaults_keep(v.categories);
        lemma_defaults_no_reserved(v.categories);
        assert(no_reserved_category(s.categories));
        lemma_first_index_found(s.categories, category_named(reserved_category_name()));
        assert(first_index(s.categories, category_named(reserved_category_name())) is None) by {
            if let Some(i) = first_index(s.categories, category_named(reserved_category_name())) {
                assert(category_named(reserved_category_name())(s.categories[i]));
            }
        }
    }
}

/// A range of one day reports what the day reports, where both are taken over the same
/// local day window `w`: the same categories and applications, and one day line, named
/// `%m/%d`, holding the day's total, or none where the day holds no use.
pub proof fn law_one_day_range_is_the_day(
    v: StoreView,
    d: Date,
    w: Window,
    total: i64,
    categories: Seq<UsageItemView>,
    applications: Seq<UsageItemView>,
    range_categories: Seq<UsageItemView>,
    range_applications: Seq<UsageItemView>,
    ws: Seq<Window>,
    labels: Seq<Seq<char>>,
    days: Seq<UsageItemView>,
)
    requires
        d.valid(),
        day_report_holds(v, w, total, categories, applications),
        range_report_holds(v, w, range_categories, range_applications),
        range_days_hold(v, d, d, ws, labels, days),
        ws.len() > 0 && ws[0] == w,
    ensures
        range_categories == categories,
        range_applications == applications,
        days == if total > 0 {
            seq![UsageItemView { name: formatted_date(d, "%m/%d"@), seconds: total, color: None, executable: None, process_path: None }]
        } else {
            Seq::<UsageItemView>::empty()
        },
{
    let ds = dates_through(d, d);
    assert(ds =~= seq![d]) by {
        match next_day(d) {
            Some(n) => {
                assert(date_before(d, n));
                assert(dates_through(n, d) =~= Seq::<Date>::empty());
            },
            None => {},
        }
    }
    assert(labels.len() == 1 && ws.len() == 1);
    assert(labels[0] == formatted_date(ds[0], label_format(false)));
    assert(labels.drop_last() =~= Seq::<Seq<char>>::empty());
    assert(positive_lines(labels.drop_last(), ws.drop_last(), v.sessions) =~= Seq::<UsageItemView>::empty());
    assert(ws.last() == w);
}

/// Categories that keep those there before, first and unchanged, keep every rule's
/// category.
pub proof fn lemma_rules_linked_grow(rules: Seq<AppRuleView>, categories: Seq<CategoryView>, grown: Seq<CategoryView>)
    requires
        rules_linked(rules, categories),
        grown.len() >= categories.len(),
        forall|j: int| 0 <= j < categories.len() ==> #[trigger] grown[j] == categories[j],
    ensures
        rules_linked(rules, grown),
{
    assert forall|i: int| 0 <= i < rules.len() implies ((#[trigger] rules[i]).category_id matches Some(id) ==> category_of(
        grown,
        id,
    ) is Some) by {
        if let Some(id) = rules[i].category_id {
            lemma_first_index_found(categories, category_has_id(id));
            let k = first_index(categories, category_has_id(id)).unwrap();
            assert(grown[k] == categories[k]);
            lemma_first_index_found(grown, category_has_id(id));
            if first_index(grown, category_has_id(id)) is None {
                assert(!category_has_id(id)(grown[k]));
            }
        }
    }
}

/// Deleting a category, and moving its rules to no category, keeps every other rule's
/// category; so does moving the rules alone.
pub proof fn law_delete_keeps_rules_linked(rules: Seq<AppRuleView>, categories: Seq<CategoryView>, id: i64)
    requires
        rules_linked(rules, categories),
    ensures
        rules_linked(clear_category(rules, id), categories),
        rules_linked(clear_category(rules, id), remove_category(categories, id)),
{
    let cleared = clear_category(rules, id);
    let rest = remove_category(categories, id);
    lemma_remove_category(categories, id);
    assert forall|i: int| 0 <= i < cleared.len() implies ((#[trigger] cleared[i]).category_id matches Some(c) ==> category_of(
        rest,
        c,
    ) is Some && category_of(categories, c) is Some) by {
        if let Some(c) = cleared[i].category_id {
            assert(rules[i].category_id == Some(c) && c != id);
            lemma_first_index_found(categories, category_has_id(c));
            let k = first_index(categories, category_has_id(c)).unwrap();
            assert(rest.contains(categories[k]));
            let m = choose|m: int| 0 <= m < rest.len() && rest[m] == categories[k];
            lemma_first_index_found(rest, category_has_id(c));
            if first_index(rest, category_has_id(c)) is None {
                assert(!category_has_id(c)(rest[m]));
            }
        }
    }
}

/// Opening tables whose rules all name existing categories keeps them so.
pub proof fn law_open_keeps_rules_linked(v: StoreView)
    requires
        rules_linked(v.rules, v.categories),
    ensures
        opened(v) matches Some(o) ==> rules_linked(o.rules, o.categories),
{
    if let Some(o) = opened(v) {
        let s = seeded(v).unwrap();
        lemma_defaults_prefix(v.categories);
        lemma_rules_linked_grow(v.rules, v.categories, s.categories);
        match first_index(s.categories, category_named(reserved_category_name())) {
            Some(i) => {
                law_delete_keeps_rules_linked(s.rules, s.categories, s.categories[i].id);
            },
            None => {},
        }
    }
}

/// Seeding a category keeps the categories there before, first and unchanged.
proof fn lemma_seed_prefix(categories: Seq<CategoryView>, name: Seq<char>, color: Seq<char>)
    ensures
        seed_category(Some(categories), name, color) matches Some(c) ==> c.len() >= categories.len()
            && forall|i: int| 0 <= i < categories.len() ==> #[trigger] c[i] == categories[i],
{
}

/// Seeding the default categories keeps the categories there before, first and
/// unchanged.
proof fn lemma_defaults_prefix(categories: Seq<CategoryView>)
    ensures
        default_categories(categories) matches Some(c) ==> c.len() >= categories.len()
            && forall|i: int| 0 <= i < categories.len() ==> #[trigger] c[i] == categories[i],
{
    lemma_seed_prefix(categories, "工作"@, "#6E8CFF"@);
    if let Some(a) = seed_category(Some(categories), "工作"@, "#6E8CFF"@) {
        lemma_seed_prefix(a, "学习"@, "#A77BFF"@);
        if let Some(b) = seed_category(Some(a), "学习"@, "#A77BFF"@) {
            lemma_seed_prefix(b, "沟通"@, "#46C2A6"@);
            if let Some(c) = seed_category(Some(b), "沟通"@, "#46C2A6"@) {
                lemma_seed_prefix(c, "娱乐"@, "#FF8E72"@);
                if let Some(d) = seed_category(Some(c), "娱乐"@, "#FF8E72"@) {
                    lemma_seed_prefix(d, "工具"@, "#E9BC5D"@);
                    if let Some(e) = seed_category(Some(d), "工具"@, "#E9BC5D"@) {
                        assert forall|i: int| 0 <= i < categories.len() implies #[trigger] e[i] == categories[i] by {
                            assert(a[i] == categories[i]);
                            assert(b[i] == a[i]);
                            assert(c[i] == b[i]);
                            assert(d[i] == c[i]);
                        }
                    }
                }
            }
        }
    }
}

/// A change to a rule keeps every rule's category: a new category is refused unless it
/// exists.
pub proof fn law_rule_change_keeps_rules_linked(
    rules: Seq<AppRuleView>,
    categories: Seq<CategoryView>,
    exe: Seq<char>,
    patch: AppRulePatch,
)
    requires
        rules_linked(rules, categories),
    ensures
        rule_change(rules, categories, exe, patch) matches Ok(r) ==> rules_linked(r, categories),
{
    if let Ok(r) = rule_change(rules, categories, exe, patch) {
        let cur = rule_of(rules, exe).unwrap();
        lemma_first_index_found(rules, rule_is_for(exe));
        assert forall|i: int| 0 <= i < r.len() implies ((#[trigger] r[i]).category_id matches Some(id) ==> category_of(
            categories,
            id,
        ) is Some) by {
            let k = first_index(rules, rule_is_for(exe)).unwrap();
            assert(rules[k] == cur);
        }
    }
}

/// A change to the rule of `exe` that succeeds sets exactly what the patch gives and
/// keeps the rest as stored: the display name is the patch's (or the stored one),
/// trimmed; the category changes only where the patch says so; the ignored flag and the
/// idle policy are the patch's where it has them and the stored ones where it has none;
/// the executable and path stay. Rules of other executables do not change.
pub proof fn law_rule_change_sets_what_the_patch_gives(
    rules: Seq<AppRuleView>,
    categories: Seq<CategoryView>,
    exe: Seq<char>,
    patch: AppRulePatch,
)
    ensures
        rule_change(rules, categories, exe, patch) matches Ok(r) ==> {
            &&& rule_of(rules, exe) is Some
            &&& rule_of(r, exe) is Some
            &&& r.len() == rules.len()
            &&& forall|i: int| 0 <= i < rules.len() && (#[trigger] rules[i]).executable != exe ==> r[i] == rules[i]
            &&& ({
                let old = rule_of(rules, exe).unwrap();
                let new = rule_of(r, exe).unwrap();
                &&& new.executable == exe
                &&& new.process_path == old.process_path
                &&& new.display_name == trimmed(
                    match patch.display_name {
                        Some(d) => d@,
                        None => old.display_name,
                    },
                )
                &&& new.category_id == (if patch.category_id_changed {
                    patch.category_id
                } else {
                    old.category_id
                })
                &&& new.ignored == (match patch.ignored {
                    Some(b) => b,
                    None => old.ignored,
                })
                &&& new.continue_tracking_while_idle == (match patch.continue_tracking_while_idle {
                    Some(b) => b,
                    None => old.continue_tracking_while_idle,
                })
            })
        },
{
    if let Ok(r) = rule_change(rules, categories, exe, patch) {
        let p = rule_is_for(exe);
        assert forall|j: int| 0 <= j < r.len() implies p(#[trigger] r[j]) == p(rules[j]) by {}
        lemma_first_index_same(r, rules, p);
        lemma_first_index_found(rules, p);
    }
}

} // verus!
