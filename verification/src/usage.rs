//! How much use the recorded sessions add up to within a window of time, in total,
//! by category and by application.
use vstd::prelude::*;

use crate::model::{
    copy_opt_string, AppRule, AppRuleView, Category, CategoryView, SessionRow, SessionRowView,
    UsageItem, UsageItemView,
};
use crate::sorting::{sort_positions, sorted_positions, SortKey, SortKeyView};
use crate::calendar::{local_hour_label, two_digits};
use crate::text::{compare_chars, chars_of, folded, folded_chars, owned, text_eq, text_order, Order};

verus! {

/// The name under which applications without a category are reported.
pub open spec fn reserved_category_name() -> Seq<char> {
    "其他"@
}

/// The color of the reserved category.
pub open spec fn reserved_category_color() -> Seq<char> {
    "#8391A5"@
}

/// A span of time `[start, end)` in milliseconds, or all of time where `bounded` is unset.
#[derive(Clone, Copy, Debug, PartialEq, Eq, Structural)]
pub struct Window {
    pub bounded: bool,
    pub start: i64,
    pub end: i64,
}

/// Whether every session ends no earlier than it starts.
pub open spec fn sessions_ordered(rows: Seq<SessionRowView>) -> bool {
    forall|i: int| 0 <= i < rows.len() ==> rows[i].started_at <= #[trigger] rows[i].ended_at
}

/// Whether session `s` counts in window `w`: it ends after the window starts and starts
/// before the window ends.
pub open spec fn in_window(w: Window, s: SessionRowView) -> bool {
    !w.bounded || (s.ended_at > w.start && s.started_at < w.end)
}

/// The milliseconds of session `s` that fall in window `w`.
pub open spec fn span_ms(w: Window, s: SessionRowView) -> int {
    if w.bounded {
        let hi = if s.ended_at < w.end {
            s.ended_at as int
        } else {
            w.end as int
        };
        let lo = if s.started_at > w.start {
            s.started_at as int
        } else {
            w.start as int
        };
        if hi - lo > 0 {
            hi - lo
        } else {
            0
        }
    } else {
        s.ended_at - s.started_at
    }
}

/// The whole seconds of session `s` in window `w`, rounded down per session.
pub open spec fn span_seconds(w: Window, s: SessionRowView) -> int {
    span_ms(w, s) / 1000
}

/// Whether the span of every session that counts in `w` fits in an `i64` (SQLite turns a
/// larger difference into a floating-point value, which the report cannot read back).
pub open spec fn spans_fit(w: Window, rows: Seq<SessionRowView>) -> bool {
    forall|i: int| 0 <= i < rows.len() && in_window(w, rows[i]) ==> span_ms(w, #[trigger] rows[i]) <= i64::MAX
}

/// The seconds that all sessions add up to in window `w`.
pub open spec fn window_seconds(w: Window, rows: Seq<SessionRowView>) -> int
    decreases rows.len(),
{
    if rows.len() == 0 {
        0
    } else {
        window_seconds(w, rows.drop_last()) + if in_window(w, rows.last()) {
            span_seconds(w, rows.last())
        } else {
            0
        }
    }
}

/// The position of the first element of `s` that satisfies `p`.
pub open spec fn first_index<T>(s: Seq<T>, p: spec_fn(T) -> bool) -> Option<int>
    decreases s.len(),
{
    if s.len() == 0 {
        None
    } else if p(s[0]) {
        Some(0)
    } else {
        match first_index(s.drop_first(), p) {
            Some(i) => Some(i + 1),
            None => None,
        }
    }
}

/// The first search that passes over the first `i` elements finds the `i`-th, or nothing.
pub proof fn lemma_first_index<T>(s: Seq<T>, p: spec_fn(T) -> bool, i: int)
    requires
        0 <= i <= s.len(),
        forall|j: int| 0 <= j < i ==> !p(#[trigger] s[j]),
        i < s.len() ==> p(s[i]),
    ensures
        first_index(s, p) == if i < s.len() {
            Some(i)
        } else {
            None
        },
    decreases i,
{
    if i > 0 {
        assert forall|j: int| 0 <= j < i - 1 implies !p(#[trigger] s.drop_first()[j]) by {
            assert(s.drop_first()[j] == s[j + 1]);
        }
        lemma_first_index(s.drop_first(), p, i - 1);
    }
}

/// Whether a rule is the rule of executable `exe`.
pub open spec fn rule_is_for(exe: Seq<char>) -> spec_fn(AppRuleView) -> bool {
    |r: AppRuleView| r.executable == exe
}

/// Whether a category has id `id`.
pub open spec fn category_has_id(id: i64) -> spec_fn(CategoryView) -> bool {
    |c: CategoryView| c.id == id
}

/// What the first search finds satisfies `p`, and nothing before it does.
pub proof fn lemma_first_index_found<T>(s: Seq<T>, p: spec_fn(T) -> bool)
    ensures
        first_index(s, p) matches Some(i) ==> 0 <= i < s.len() && p(s[i]) && forall|j: int|
            0 <= j < i ==> !p(#[trigger] s[j]),
        first_index(s, p) is None ==> forall|j: int| 0 <= j < s.len() ==> !p(#[trigger] s[j]),
    decreases s.len(),
{
    if s.len() > 0 {
        lemma_first_index_found(s.drop_first(), p);
        assert forall|j: int| 0 < j < s.len() implies #[trigger] s[j] == s.drop_first()[j - 1] by {}
    }
}

/// The rule of an executable: the first rule with that executable.
pub open spec fn rule_of(rules: Seq<AppRuleView>, exe: Seq<char>) -> Option<AppRuleView> {
    match first_index(rules, rule_is_for(exe)) {
        Some(i) => Some(rules[i]),
        None => None,
    }
}

/// The category with an id: the first category with that id.
pub open spec fn category_of(categories: Seq<CategoryView>, id: i64) -> Option<CategoryView> {
    match first_index(categories, category_has_id(id)) {
        Some(i) => Some(categories[i]),
        None => None,
    }
}

/// Finds the first rule of an executable.
pub fn find_rule(rules: &Vec<AppRule>, exe: &str) -> (r: Option<usize>)
    ensures
        match r {
            Some(i) => i < rules@.len() && rule_of(rules.deep_view(), exe@) == Some(
                rules.deep_view()[i as int],
            ) && first_index(rules.deep_view(), rule_is_for(exe@)) == Some(i as int),
            None => rule_of(rules.deep_view(), exe@) is None && first_index(rules.deep_view(), rule_is_for(exe@)) is None,
        },
{
    let ghost rv = rules.deep_view();
    let ghost p = rule_is_for(exe@);
    let mut i: usize = 0;
    while i < rules.len()
        invariant
            rv == rules.deep_view(),
            p == rule_is_for(exe@),
            i <= rules@.len(),
            forall|j: int| 0 <= j < i ==> !p(#[trigger] rv[j]),
        decreases rules.len() - i,
    {
        assert(rv[i as int] == rules@[i as int]@);
        if text_eq(rules[i].executable.as_str(), exe) {
            proof {
                lemma_first_index(rv, p, i as int);
            }
            return Some(i);
        }
        assert(!p(rv[i as int]));
        i = i + 1;
    }
    proof {
        lemma_first_index(rv, p, i as int);
    }
    None
}

/// Finds the first category with an id.
pub fn find_category(categories: &Vec<Category>, id: i64) -> (r: Option<usize>)
    ensures
        match r {
            Some(i) => i < categories@.len() && category_of(categories.deep_view(), id) == Some(
                categories.deep_view()[i as int],
            ),
            None => category_of(categories.deep_view(), id) is None,
        },
{
    let ghost cv = categories.deep_view();
    let ghost p = category_has_id(id);
    let mut i: usize = 0;
    while i < categories.len()
        invariant
            cv == categories.deep_view(),
            p == category_has_id(id),
            i <= categories@.len(),
            forall|j: int| 0 <= j < i ==> !p(#[trigger] cv[j]),
        decreases categories.len() - i,
    {
        assert(cv[i as int] == categories@[i as int]@);
        if categories[i].id == id {
            proof {
                lemma_first_index(cv, p, i as int);
            }
            return Some(i);
        }
        assert(!p(cv[i as int]));
        i = i + 1;
    }
    proof {
        lemma_first_index(cv, p, i as int);
    }
    None
}

/// Whether session `s` counts in window `w`.
pub fn counts_in(w: Window, s: &SessionRow) -> (r: bool)
    ensures
        r == in_window(w, s@),
{
    !w.bounded || (s.ended_at > w.start && s.started_at < w.end)
}

/// The milliseconds of session `s` in window `w`.
pub fn span_of(w: Window, s: &SessionRow) -> (r: i128)
    ensures
        r == span_ms(w, s@),
{
    if w.bounded {
        let hi: i64 = if s.ended_at < w.end {
            s.ended_at
        } else {
            w.end
        };
        let lo: i64 = if s.started_at > w.start {
            s.started_at
        } else {
            w.start
        };
        let d: i128 = hi as i128 - lo as i128;
        if d > 0 {
            d
        } else {
            0
        }
    } else {
        s.ended_at as i128 - s.started_at as i128
    }
}

/// The error that SQLite reports when a sum leaves the `i64` range.
pub fn overflow_error() -> (r: String)
    ensures
        r@ == "integer overflow"@,
{
    owned("integer overflow")
}

/// The seconds that all sessions add up to in window `w`: an error where a span or the
/// sum does not fit in an `i64`.
pub fn window_total(rows: &Vec<SessionRow>, w: Window) -> (r: Result<i64, String>)
    requires
        sessions_ordered(rows.deep_view()),
    ensures
        match r {
            Ok(v) => spans_fit(w, rows.deep_view()) && v == window_seconds(w, rows.deep_view()),
            Err(_) => !spans_fit(w, rows.deep_view()) || window_seconds(w, rows.deep_view())
                > i64::MAX,
        },
{
    let ghost rv = rows.deep_view();
    let mut total: i128 = 0;
    let mut i: usize = 0;
    while i < rows.len()
        invariant
            rv == rows.deep_view(),
            sessions_ordered(rv),
            i <= rv.len(),
            total == window_seconds(w, rv.subrange(0, i as int)),
            0 <= total <= i * 9223372036854776,
            spans_fit(w, rv.subrange(0, i as int)),
        decreases rows.len() - i,
    {
        let s = &rows[i];
        assert(rv.subrange(0, i + 1).drop_last() =~= rv.subrange(0, i as int));
        assert(rv[i as int] == s@);
        if counts_in(w, s) {
            let span = span_of(w, s);
            if span > i64::MAX as i128 {
                assert(!spans_fit(w, rv)) by {
                    assert(in_window(w, rv[i as int]));
                }
                return Err(overflow_error());
            }
            assert(span >= 0);
            total = total + span / 1000;
        }
        assert forall|j: int| 0 <= j < i + 1 && in_window(w, rv.subrange(0, i + 1)[j]) implies span_ms(
            w,
            #[trigger] rv.subrange(0, i + 1)[j],
        ) <= i64::MAX by {
            if j < i {
                assert(rv.subrange(0, i + 1)[j] == rv.subrange(0, i as int)[j]);
            }
        }
        i = i + 1;
    }
    assert(rv.subrange(0, i as int) =~= rv);
    if total > i64::MAX as i128 {
        return Err(overflow_error());
    }
    Ok(total as i64)
}


/// The distinct keys of the live rows, in the order in which they first appear.
pub open spec fn distinct_live<K>(keys: Seq<K>, live: Seq<bool>) -> Seq<K>
    decreases keys.len(),
{
    if keys.len() == 0 {
        Seq::empty()
    } else {
        let g = distinct_live(keys.drop_last(), live.drop_last());
        if live.last() && !g.contains(keys.last()) {
            g.push(keys.last())
        } else {
            g
        }
    }
}

/// The sum of the values of the live rows whose key is `k`.
pub open spec fn live_sum<K>(keys: Seq<K>, live: Seq<bool>, vals: Seq<int>, k: K) -> int
    decreases keys.len(),
{
    if keys.len() == 0 {
        0
    } else {
        live_sum(keys.drop_last(), live.drop_last(), vals.drop_last(), k) + if live.last()
            && keys.last() == k {
            vals.last()
        } else {
            0
        }
    }
}

/// The distinct keys hold no key twice, and only keys of live rows.
pub proof fn lemma_distinct_live<K>(keys: Seq<K>, live: Seq<bool>)
    requires
        keys.len() == live.len(),
    ensures
        distinct_live(keys, live).no_duplicates(),
        forall|k: K| #[trigger] distinct_live(keys, live).contains(k) ==> exists|i: int|
            0 <= i < keys.len() && live[i] && keys[i] == k,
        forall|i: int| 0 <= i < keys.len() && live[i] ==> distinct_live(keys, live).contains(
            #[trigger] keys[i],
        ),
    decreases keys.len(),
{
    if keys.len() > 0 {
        let kd = keys.drop_last();
        let ld = live.drop_last();
        lemma_distinct_live(kd, ld);
        let g = distinct_live(kd, ld);
        let n = keys.len() - 1;
        assert forall|k: K| #[trigger] distinct_live(keys, live).contains(k) implies exists|i: int|
            0 <= i < keys.len() && live[i] && keys[i] == k by {
            if g.contains(k) {
                let i = choose|i: int| 0 <= i < kd.len() && ld[i] && kd[i] == k;
                assert(live[i] && keys[i] == k);
            } else {
                assert(live[n] && keys[n] == k);
            }
        }
        assert forall|i: int| 0 <= i < keys.len() && live[i] implies distinct_live(
            keys,
            live,
        ).contains(#[trigger] keys[i]) by {
            if i < n {
                assert(kd[i] == keys[i] && ld[i] == live[i]);
                assert(g.contains(kd[i]));
                if live.last() && !g.contains(keys.last()) {
                    assert(g.push(keys.last())[g.index_of(kd[i])] == kd[i]);
                }
            } else {
                if !g.contains(keys.last()) {
                    assert(g.push(keys.last())[g.len() as int] == keys[i]);
                }
            }
        }
    }
}

/// A key that no live row has adds up to nothing.
pub proof fn lemma_live_sum_absent<K>(keys: Seq<K>, live: Seq<bool>, vals: Seq<int>, k: K)
    requires
        keys.len() == live.len(),
        keys.len() == vals.len(),
        !distinct_live(keys, live).contains(k),
    ensures
        live_sum(keys, live, vals, k) == 0,
    decreases keys.len(),
{
    if keys.len() > 0 {
        let g = distinct_live(keys.drop_last(), live.drop_last());
        if g.contains(k) {
            assert(distinct_live(keys, live).contains(k)) by {
                let j = g.index_of(k);
                if live.last() && !g.contains(keys.last()) {
                    assert(g.push(keys.last())[j] == k);
                }
            }
        }
        lemma_live_sum_absent(keys.drop_last(), live.drop_last(), vals.drop_last(), k);
        if live.last() && keys.last() == k {
            assert(g.push(keys.last())[g.len() as int] == k);
        }
    }
}

/// Whether each session counts in `w`.
pub open spec fn live_rows(w: Window, rows: Seq<SessionRowView>) -> Seq<bool> {
    rows.map_values(|s: SessionRowView| in_window(w, s))
}

/// The seconds of each session in `w`.
pub open spec fn row_seconds(w: Window, rows: Seq<SessionRowView>) -> Seq<int> {
    rows.map_values(|s: SessionRowView| span_seconds(w, s))
}

/// The category of a session through its application's rule, as a name and a color;
/// nothing where the application has no rule, no category, or a category that does not exist.
pub open spec fn row_category(
    rules: Seq<AppRuleView>,
    categories: Seq<CategoryView>,
    s: SessionRowView,
) -> Option<(Seq<char>, Seq<char>)> {
    match rule_of(rules, s.executable) {
        Some(r) => match r.category_id {
            Some(id) => match category_of(categories, id) {
                Some(c) => Some((c.name, c.color)),
                None => None,
            },
            None => None,
        },
        None => None,
    }
}

pub open spec fn category_keys(
    rules: Seq<AppRuleView>,
    categories: Seq<CategoryView>,
    rows: Seq<SessionRowView>,
) -> Seq<Option<(Seq<char>, Seq<char>)>> {
    rows.map_values(|s: SessionRowView| row_category(rules, categories, s))
}

/// The categories that sessions in `w` fall in, in order of first appearance.
pub open spec fn category_groups(
    w: Window,
    rules: Seq<AppRuleView>,
    categories: Seq<CategoryView>,
    rows: Seq<SessionRowView>,
) -> Seq<Option<(Seq<char>, Seq<char>)>> {
    distinct_live(category_keys(rules, categories, rows), live_rows(w, rows))
}

/// The seconds that the sessions of category `k` add up to in `w`.
pub open spec fn category_total(
    w: Window,
    rules: Seq<AppRuleView>,
    categories: Seq<CategoryView>,
    rows: Seq<SessionRowView>,
    k: Option<(Seq<char>, Seq<char>)>,
) -> int {
    live_sum(category_keys(rules, categories, rows), live_rows(w, rows), row_seconds(w, rows), k)
}

/// The report line of a category: its name and color, or those of the reserved category.
pub open spec fn category_item(k: Option<(Seq<char>, Seq<char>)>, seconds: int) -> UsageItemView {
    UsageItemView {
        name: match k {
            Some(c) => c.0,
            None => reserved_category_name(),
        },
        seconds: seconds as i64,
        color: Some(
            match k {
                Some(c) => c.1,
                None => reserved_category_color(),
            },
        ),
        executable: None,
        process_path: None,
    }
}

/// The report lines of the categories, in order of first appearance.
pub open spec fn category_items(
    w: Window,
    rules: Seq<AppRuleView>,
    categories: Seq<CategoryView>,
    rows: Seq<SessionRowView>,
) -> Seq<UsageItemView> {
    category_groups(w, rules, categories, rows).map_values(
        |k: Option<(Seq<char>, Seq<char>)>|
            category_item(k, category_total(w, rules, categories, rows, k)),
    )
}

/// Whether the category report can be read back: every span fits, and so does the total
/// of every category.
pub open spec fn category_report_fits(
    w: Window,
    rules: Seq<AppRuleView>,
    categories: Seq<CategoryView>,
    rows: Seq<SessionRowView>,
) -> bool {
    &&& spans_fit(w, rows)
    &&& forall|k: Option<(Seq<char>, Seq<char>)>| #[trigger]
        category_groups(w, rules, categories, rows).contains(k) ==> category_total(
            w,
            rules,
            categories,
            rows,
            k,
        ) <= i64::MAX
}

/// The order of report lines: most seconds first, then by name and by executable,
/// both compared with SQLite's `NOCASE` folding.
pub open spec fn report_key(it: UsageItemView) -> SortKeyView {
    SortKeyView {
        first: -(it.seconds as int),
        second: 0,
        text1: folded(it.name),
        text2: match it.executable {
            Some(e) => folded(e),
            None => Seq::empty(),
        },
    }
}

/// Report lines in report order; lines that tie keep their order.
pub open spec fn report_order(items: Seq<UsageItemView>) -> Seq<UsageItemView> {
    sorted_positions(items.map_values(|it: UsageItemView| report_key(it))).map_values(
        |i: int| items[i],
    )
}

/// The sort key of a report line.
pub fn report_key_of(it: &UsageItem) -> (r: SortKey)
    ensures
        r@ == report_key(it@),
{
    let text2 = match &it.executable {
        Some(e) => folded_chars(e.as_str()),
        None => {
            let v: Vec<char> = Vec::new();
            assert(v@ =~= Seq::<char>::empty());
            v
        },
    };
    SortKey {
        first: -(it.seconds as i128),
        second: 0,
        text1: folded_chars(it.name.as_str()),
        text2,
    }
}

/// Copies a report line.
pub fn copy_item(it: &UsageItem) -> (r: UsageItem)
    ensures
        r@ == it@,
{
    UsageItem {
        name: it.name.clone(),
        seconds: it.seconds,
        color: copy_opt_string(&it.color),
        executable: copy_opt_string(&it.executable),
        process_path: copy_opt_string(&it.process_path),
    }
}

/// Puts report lines in report order.
pub fn in_report_order(items: &Vec<UsageItem>) -> (r: Vec<UsageItem>)
    ensures
        r.deep_view() == report_order(items.deep_view()),
{
    let ghost iv = items.deep_view();
    let mut keys: Vec<SortKey> = Vec::new();
    let mut i: usize = 0;
    while i < items.len()
        invariant
            iv == items.deep_view(),
            i <= items@.len(),
            keys.deep_view() =~= iv.subrange(0, i as int).map_values(|it: UsageItemView| report_key(it)),
        decreases items.len() - i,
    {
        let k = report_key_of(&items[i]);
        let ghost before = keys.deep_view();
        keys.push(k);
        assert(keys.deep_view() =~= before.push(k@));
        assert(iv[i as int] == items@[i as int]@);
        assert(iv.subrange(0, i + 1).map_values(|it: UsageItemView| report_key(it))
            =~= iv.subrange(0, i as int).map_values(|it: UsageItemView| report_key(it)).push(
            report_key(iv[i as int])));
        i = i + 1;
    }
    assert(iv.subrange(0, i as int) =~= iv);
    let order = sort_positions(&keys);
    let ghost sp = sorted_positions(keys.deep_view());
    let mut out: Vec<UsageItem> = Vec::new();
    let mut j: usize = 0;
    while j < order.len()
        invariant
            iv == items.deep_view(),
            order@.len() == items@.len(),
            order@.map_values(|i: usize| i as int) == sp,
            sp == sorted_positions(iv.map_values(|it: UsageItemView| report_key(it))),
            forall|k: int| 0 <= k < order@.len() ==> order@[k] < items@.len(),
            j <= order@.len(),
            out.deep_view() =~= sp.subrange(0, j as int).map_values(|i: int| iv[i]),
        decreases order.len() - j,
    {
        assert(sp[j as int] == order@[j as int] as int);
        let it = copy_item(&items[order[j]]);
        let ghost before = out.deep_view();
        out.push(it);
        assert(out.deep_view() =~= before.push(it@));
        assert(iv[sp[j as int]] == items@[order@[j as int] as int]@);
        assert(sp.subrange(0, j + 1).map_values(|i: int| iv[i]) =~= sp.subrange(0, j as int).map_values(
            |i: int| iv[i],
        ).push(iv[sp[j as int]]));
        j = j + 1;
    }
    assert(sp.subrange(0, j as int) =~= sp);
    out
}


/// The name and color of the category at a position, or nothing.
pub open spec fn position_key(categories: Seq<CategoryView>, p: Option<usize>) -> Option<(Seq<char>, Seq<char>)> {
    match p {
        Some(c) => Some((categories[c as int].name, categories[c as int].color)),
        None => None,
    }
}

/// The position in `categories` of the category of session `s`.
pub fn category_position(rules: &Vec<AppRule>, categories: &Vec<Category>, s: &SessionRow) -> (r:
    Option<usize>)
    ensures
        match r {
            Some(c) => c < categories@.len(),
            None => true,
        },
        position_key(categories.deep_view(), r) == row_category(
            rules.deep_view(),
            categories.deep_view(),
            s@,
        ),
{
    match find_rule(rules, s.executable.as_str()) {
        Some(ri) => {
            assert(rules.deep_view()[ri as int] == rules@[ri as int]@);
            match rules[ri].category_id {
                Some(id) => {
                    let c = find_category(categories, id);
                    match c {
                        Some(ci) => {
                            assert(categories.deep_view()[ci as int] == categories@[ci as int]@);
                        },
                        None => {},
                    }
                    c
                },
                None => None,
            }
        },
        None => None,
    }
}

/// Whether two positions name the same category name and color.
pub fn same_category(categories: &Vec<Category>, a: Option<usize>, b: Option<usize>) -> (r: bool)
    requires
        a matches Some(x) ==> x < categories@.len(),
        b matches Some(y) ==> y < categories@.len(),
    ensures
        r == (position_key(categories.deep_view(), a) == position_key(categories.deep_view(), b)),
{
    let ghost cv = categories.deep_view();
    match (a, b) {
        (Some(x), Some(y)) => {
            assert(cv[x as int] == categories@[x as int]@);
            assert(cv[y as int] == categories@[y as int]@);
            text_eq(categories[x].name.as_str(), categories[y].name.as_str()) && text_eq(
                categories[x].color.as_str(),
                categories[y].color.as_str(),
            )
        },
        (None, None) => true,
        _ => false,
    }
}

/// The seconds per category in window `w`, most first: an error where a span or a
/// category's total does not fit in an `i64`.
pub fn category_report(
    rows: &Vec<SessionRow>,
    rules: &Vec<AppRule>,
    categories: &Vec<Category>,
    w: Window,
) -> (r: Result<Vec<UsageItem>, String>)
    requires
        sessions_ordered(rows.deep_view()),
    ensures
        match r {
            Ok(items) => category_report_fits(
                w,
                rules.deep_view(),
                categories.deep_view(),
                rows.deep_view(),
            ) && items.deep_view() == report_order(
                category_items(w, rules.deep_view(), categories.deep_view(), rows.deep_view()),
            ),
            Err(_) => !category_report_fits(
                w,
                rules.deep_view(),
                categories.deep_view(),
                rows.deep_view(),
            ),
        },
{
    let ghost rv = rows.deep_view();
    let ghost ruv = rules.deep_view();
    let ghost cv = categories.deep_view();
    let mut groups: Vec<Option<usize>> = Vec::new();
    let mut totals: Vec<i128> = Vec::new();
    let mut i: usize = 0;
    while i < rows.len()
        invariant
            rv == rows.deep_view(),
            ruv == rules.deep_view(),
            cv == categories.deep_view(),
            sessions_ordered(rv),
            i <= rv.len(),
            groups@.len() == totals@.len(),
            forall|g: int| 0 <= g < groups@.len() ==> (#[trigger] groups@[g] matches Some(c) ==> c
                < cv.len()),
            groups@.map_values(|p: Option<usize>| position_key(cv, p)) == category_groups(
                w,
                ruv,
                cv,
                rv.subrange(0, i as int),
            ),
            forall|g: int|
                0 <= g < groups@.len() ==> #[trigger] totals@[g] == category_total(
                    w,
                    ruv,
                    cv,
                    rv.subrange(0, i as int),
                    position_key(cv, groups@[g]),
                ),
            forall|g: int| 0 <= g < groups@.len() ==> 0 <= #[trigger] totals@[g] <= i * 9223372036854776,
            spans_fit(w, rv.subrange(0, i as int)),
        decreases rows.len() - i,
    {
        let s = &rows[i];
        let ghost pre = rv.subrange(0, i as int);
        let ghost cur = rv.subrange(0, i + 1);
        let ghost keys = category_keys(ruv, cv, cur);
        let ghost live = live_rows(w, cur);
        let ghost vals = row_seconds(w, cur);
        assert(rv[i as int] == s@);
        assert(cur.drop_last() =~= pre);
        assert(keys.drop_last() =~= category_keys(ruv, cv, pre));
        assert(live.drop_last() =~= live_rows(w, pre));
        assert(vals.drop_last() =~= row_seconds(w, pre));
        proof {
            lemma_distinct_live(category_keys(ruv, cv, pre), live_rows(w, pre));
        }
        let ghost old_groups = groups@;
        let ghost old_totals = totals@;
        if counts_in(w, s) {
            let span = span_of(w, s);
            if span > i64::MAX as i128 {
                assert(!spans_fit(w, rv)) by {
                    assert(in_window(w, rv[i as int]));
                }
                assert(!category_report_fits(w, ruv, cv, rv));
                return Err(overflow_error());
            }
            let secs: i128 = span / 1000;
            let key = category_position(rules, categories, s);
            assert(keys.last() == position_key(cv, key));
            let mut g: usize = 0;
            let mut found = false;
            while g < groups.len() && !found
                invariant
                    groups@ == old_groups,
                    groups@.len() == totals@.len(),
                    forall|x: int| 0 <= x < groups@.len() ==> (#[trigger] groups@[x] matches Some(c)
                        ==> c < cv.len()),
                    cv == categories.deep_view(),
                    key matches Some(c) ==> c < cv.len(),
                    g <= groups@.len(),
                    found ==> g < groups@.len() && position_key(cv, groups@[g as int]) == position_key(cv, key),
                    !found ==> forall|x: int| 0 <= x < g ==> position_key(cv, #[trigger] groups@[x]) != position_key(
                        cv,
                        key,
                    ),
                decreases groups.len() - g + (if found { 0int } else { 1int }),
            {
                if same_category(categories, groups[g], key) {
                    found = true;
                } else {
                    g = g + 1;
                }
            }
            if found {
                let t = totals[g] + secs;
                totals.set(g, t);
                assert forall|x: int| 0 <= x < groups@.len() implies #[trigger] totals@[x]
                    == category_total(w, ruv, cv, cur, position_key(cv, groups@[x])) by {
                    if x != g {
                        assert(groups@.map_values(|p: Option<usize>| position_key(cv, p))[x]
                            != groups@.map_values(|p: Option<usize>| position_key(cv, p))[g as int]);
                    }
                }
                assert(groups@.map_values(|p: Option<usize>| position_key(cv, p)).contains(position_key(cv, key))) by {
                    assert(groups@.map_values(|p: Option<usize>| position_key(cv, p))[g as int] == position_key(cv, key));
                }
            } else {
                assert(!groups@.map_values(|p: Option<usize>| position_key(cv, p)).contains(
                    position_key(cv, key),
                )) by {
                    if groups@.map_values(|p: Option<usize>| position_key(cv, p)).contains(position_key(cv, key)) {
                        let x = groups@.map_values(|p: Option<usize>| position_key(cv, p)).index_of(position_key(cv, key));
                        assert(position_key(cv, groups@[x]) == position_key(cv, key));
                    }
                }
                proof {
                    lemma_live_sum_absent(
                        category_keys(ruv, cv, pre),
                        live_rows(w, pre),
                        row_seconds(w, pre),
                        position_key(cv, key),
                    );
                }
                groups.push(key);
                totals.push(secs);
                assert(groups@.map_values(|p: Option<usize>| position_key(cv, p)) =~= old_groups.map_values(
                    |p: Option<usize>| position_key(cv, p),
                ).push(position_key(cv, key)));
                assert forall|x: int| 0 <= x < groups@.len() implies #[trigger] totals@[x]
                    == category_total(w, ruv, cv, cur, position_key(cv, groups@[x])) by {
                    if x < old_groups.len() {
                        assert(groups@[x] == old_groups[x]);
                        assert(totals@[x] == old_totals[x]);
                        assert(old_groups.map_values(|p: Option<usize>| position_key(cv, p))[x]
                            == position_key(cv, groups@[x]));
                        assert(position_key(cv, groups@[x]) != position_key(cv, key));
                    }
                }
            }
        } else {
            assert forall|x: int| 0 <= x < groups@.len() implies #[trigger] totals@[x]
                == category_total(w, ruv, cv, cur, position_key(cv, groups@[x])) by {
            }
        }
        assert forall|j: int| 0 <= j < cur.len() && in_window(w, cur[j]) implies span_ms(
            w,
            #[trigger] cur[j],
        ) <= i64::MAX by {
            if j < i {
                assert(cur[j] == pre[j]);
            }
        }
        i = i + 1;
    }
    assert(rv.subrange(0, i as int) =~= rv);
    let ghost gv = groups@.map_values(|p: Option<usize>| position_key(cv, p));
    let mut items: Vec<UsageItem> = Vec::new();
    let mut g: usize = 0;
    while g < groups.len()
        invariant
            rv == rows.deep_view(),
            ruv == rules.deep_view(),
            cv == categories.deep_view(),
            groups@.len() == totals@.len(),
            forall|x: int| 0 <= x < groups@.len() ==> (#[trigger] groups@[x] matches Some(c) ==> c
                < cv.len()),
            gv == groups@.map_values(|p: Option<usize>| position_key(cv, p)),
            gv == category_groups(w, ruv, cv, rv),
            forall|x: int|
                0 <= x < groups@.len() ==> #[trigger] totals@[x] == category_total(
                    w,
                    ruv,
                    cv,
                    rv,
                    position_key(cv, groups@[x]),
                ),
            spans_fit(w, rv),
            g <= groups@.len(),
            forall|x: int| 0 <= x < g ==> #[trigger] totals@[x] <= i64::MAX,
            items.deep_view() =~= gv.subrange(0, g as int).map_values(
                |k: Option<(Seq<char>, Seq<char>)>| category_item(k, category_total(w, ruv, cv, rv, k)),
            ),
        decreases groups.len() - g,
    {
        if totals[g] > i64::MAX as i128 {
            assert(gv.contains(gv[g as int]));
            return Err(overflow_error());
        }
        let (name, color) = match groups[g] {
            Some(c) => {
                assert(cv[c as int] == categories@[c as int]@);
                (categories[c].name.clone(), categories[c].color.clone())
            },
            None => (owned("其他"), owned("#8391A5")),
        };
        let item = UsageItem {
            name,
            seconds: totals[g] as i64,
            color: Some(color),
            executable: None,
            process_path: None,
        };
        assert(item@ == category_item(gv[g as int], category_total(w, ruv, cv, rv, gv[g as int])));
        let ghost before = items.deep_view();
        items.push(item);
        assert(items.deep_view() =~= before.push(item@));
        g = g + 1;
    }
    assert(gv.subrange(0, g as int) =~= gv);
    assert(category_report_fits(w, ruv, cv, rv)) by {
        assert forall|k: Option<(Seq<char>, Seq<char>)>| #[trigger] gv.contains(k) implies category_total(
            w,
            ruv,
            cv,
            rv,
            k,
        ) <= i64::MAX by {
            let x = gv.index_of(k);
            assert(totals@[x] <= i64::MAX);
        }
    }
    Ok(in_report_order(&items))
}


pub open spec fn app_keys(rows: Seq<SessionRowView>) -> Seq<Seq<char>> {
    rows.map_values(|s: SessionRowView| s.executable)
}

/// The executables that have sessions in `w`, in order of first appearance.
pub open spec fn app_groups(w: Window, rows: Seq<SessionRowView>) -> Seq<Seq<char>> {
    distinct_live(app_keys(rows), live_rows(w, rows))
}

/// The seconds that the sessions of executable `exe` add up to in `w`.
pub open spec fn app_total(w: Window, rows: Seq<SessionRowView>, exe: Seq<char>) -> int {
    live_sum(app_keys(rows), live_rows(w, rows), row_seconds(w, rows), exe)
}

/// The position of the first session of `exe` in `w` with the greatest process path
/// (SQLite takes the bare columns of a group from the row where its one `MAX` is found).
pub open spec fn best_row(w: Window, rows: Seq<SessionRowView>, exe: Seq<char>) -> Option<int>
    decreases rows.len(),
{
    if rows.len() == 0 {
        None
    } else {
        let b = best_row(w, rows.drop_last(), exe);
        let s = rows.last();
        if in_window(w, s) && s.executable == exe && match b {
            None => true,
            Some(j) => text_order(s.process_path, rows[j].process_path) == Order::Greater,
        } {
            Some(rows.len() - 1)
        } else {
            b
        }
    }
}

/// The report line of an application: the name and path of its rule, or else those of
/// the session with the greatest process path.
pub open spec fn app_item(
    w: Window,
    rules: Seq<AppRuleView>,
    rows: Seq<SessionRowView>,
    exe: Seq<char>,
) -> UsageItemView {
    let seconds = app_total(w, rows, exe) as i64;
    match rule_of(rules, exe) {
        Some(r) => UsageItemView {
            name: r.display_name,
            seconds,
            color: None,
            executable: Some(exe),
            process_path: Some(r.process_path),
        },
        None => {
            let b = rows[best_row(w, rows, exe).unwrap()];
            UsageItemView {
                name: b.display_name,
                seconds,
                color: None,
                executable: Some(exe),
                process_path: Some(b.process_path),
            }
        },
    }
}

/// The report lines of the applications, in order of first appearance.
pub open spec fn app_items(w: Window, rules: Seq<AppRuleView>, rows: Seq<SessionRowView>) -> Seq<
    UsageItemView,
> {
    app_groups(w, rows).map_values(|e: Seq<char>| app_item(w, rules, rows, e))
}

/// Whether the application report can be read back: every span fits, and so does the
/// total of every application.
pub open spec fn app_report_fits(w: Window, rows: Seq<SessionRowView>) -> bool {
    &&& spans_fit(w, rows)
    &&& forall|e: Seq<char>| #[trigger] app_groups(w, rows).contains(e) ==> app_total(w, rows, e)
        <= i64::MAX
}

/// An executable without sessions in `w` has no best session.
pub proof fn lemma_best_row_absent(w: Window, rows: Seq<SessionRowView>, exe: Seq<char>)
    requires
        !app_groups(w, rows).contains(exe),
    ensures
        best_row(w, rows, exe) is None,
    decreases rows.len(),
{
    if rows.len() > 0 {
        let pre = rows.drop_last();
        assert(app_keys(rows).drop_last() =~= app_keys(pre));
        assert(live_rows(w, rows).drop_last() =~= live_rows(w, pre));
        let g = app_groups(w, pre);
        if g.contains(exe) {
            let j = g.index_of(exe);
            if live_rows(w, rows).last() && !g.contains(app_keys(rows).last()) {
                assert(g.push(app_keys(rows).last())[j] == exe);
            }
        }
        lemma_best_row_absent(w, pre, exe);
        if in_window(w, rows.last()) && rows.last().executable == exe {
            assert(app_keys(rows).last() == exe);
            assert(g.push(exe)[g.len() as int] == exe);
        }
    }
}

/// The best session of an executable is one of its sessions in `w`.
pub proof fn lemma_best_row_bound(w: Window, rows: Seq<SessionRowView>, exe: Seq<char>)
    ensures
        best_row(w, rows, exe) matches Some(j) ==> 0 <= j < rows.len() && rows[j].executable == exe,
    decreases rows.len(),
{
    if rows.len() > 0 {
        lemma_best_row_bound(w, rows.drop_last(), exe);
    }
}

/// The seconds per application in window `w`, most first: an error where a span or an
/// application's total does not fit in an `i64`.
pub fn application_report(rows: &Vec<SessionRow>, rules: &Vec<AppRule>, w: Window) -> (r: Result<
    Vec<UsageItem>,
    String,
>)
    requires
        sessions_ordered(rows.deep_view()),
    ensures
        match r {
            Ok(items) => app_report_fits(w, rows.deep_view()) && items.deep_view() == report_order(
                app_items(w, rules.deep_view(), rows.deep_view()),
            ),
            Err(_) => !app_report_fits(w, rows.deep_view()),
        },
{
    let ghost rv = rows.deep_view();
    let ghost ruv = rules.deep_view();
    let mut groups: Vec<usize> = Vec::new();
    let mut totals: Vec<i128> = Vec::new();
    let mut best: Vec<usize> = Vec::new();
    let mut i: usize = 0;
    while i < rows.len()
        invariant
            rv == rows.deep_view(),
            ruv == rules.deep_view(),
            sessions_ordered(rv),
            i <= rv.len(),
            groups@.len() == totals@.len(),
            groups@.len() == best@.len(),
            forall|g: int| 0 <= g < groups@.len() ==> #[trigger] groups@[g] < i,
            forall|g: int| 0 <= g < groups@.len() ==> #[trigger] best@[g] < i,
            groups@.map_values(|f: usize| rv[f as int].executable) == app_groups(
                w,
                rv.subrange(0, i as int),
            ),
            forall|g: int|
                0 <= g < groups@.len() ==> #[trigger] totals@[g] == app_total(
                    w,
                    rv.subrange(0, i as int),
                    rv[groups@[g] as int].executable,
                ),
            forall|g: int|
                0 <= g < groups@.len() ==> best_row(
                    w,
                    rv.subrange(0, i as int),
                    rv[#[trigger] groups@[g] as int].executable,
                ) == Some(best@[g] as int),
            forall|g: int| 0 <= g < groups@.len() ==> 0 <= #[trigger] totals@[g] <= i * 9223372036854776,
            spans_fit(w, rv.subrange(0, i as int)),
        decreases rows.len() - i,
    {
        let s = &rows[i];
        let ghost pre = rv.subrange(0, i as int);
        let ghost cur = rv.subrange(0, i + 1);
        assert(rv[i as int] == s@);
        assert(cur.drop_last() =~= pre);
        assert(app_keys(cur).drop_last() =~= app_keys(pre));
        assert(live_rows(w, cur).drop_last() =~= live_rows(w, pre));
        assert(row_seconds(w, cur).drop_last() =~= row_seconds(w, pre));
        assert forall|j: int| 0 <= j < i implies #[trigger] cur[j] == pre[j] && cur[j] == rv[j] by {}
        proof {
            lemma_distinct_live(app_keys(pre), live_rows(w, pre));
        }
        let ghost old_groups = groups@;
        let ghost old_totals = totals@;
        let ghost old_best = best@;
        let ghost gk = old_groups.map_values(|f: usize| rv[f as int].executable);
        if counts_in(w, s) {
            let span = span_of(w, s);
            if span > i64::MAX as i128 {
                assert(!spans_fit(w, rv)) by {
                    assert(in_window(w, rv[i as int]));
                }
                return Err(overflow_error());
            }
            let secs: i128 = span / 1000;
            let mut g: usize = 0;
            let mut found = false;
            while g < groups.len() && !found
                invariant
                    groups@ == old_groups,
                    rv == rows.deep_view(),
                    i < rv.len(),
                    rv[i as int] == s@,
                    forall|x: int| 0 <= x < groups@.len() ==> #[trigger] groups@[x] < i,
                    g <= groups@.len(),
                    found ==> g < groups@.len() && rv[groups@[g as int] as int].executable
                        == rv[i as int].executable,
                    !found ==> forall|x: int| 0 <= x < g ==> rv[#[trigger] groups@[x] as int].executable
                        != rv[i as int].executable,
                decreases groups.len() - g + (if found { 0int } else { 1int }),
            {
                assert(rv[groups@[g as int] as int] == rows@[groups@[g as int] as int]@);
                if rows[groups[g]].executable == s.executable {
                    found = true;
                } else {
                    g = g + 1;
                }
            }
            if found {
                let t = totals[g] + secs;
                totals.set(g, t);
                let b = best[g];
                assert(rv[b as int] == rows@[b as int]@);
                proof {
                    lemma_best_row_bound(w, pre, rv[groups@[g as int] as int].executable);
                }
                assert(pre[b as int] == rv[b as int]);
                if compare_chars(&chars_of(s.process_path.as_str()), &chars_of(rows[b].process_path.as_str()))
                    == Order::Greater {
                    best.set(g, i);
                }
                assert forall|x: int| #![trigger totals@[x]] #![trigger groups@[x]] 0 <= x < groups@.len() implies totals@[x] == app_total(
                    w,
                    cur,
                    rv[groups@[x] as int].executable,
                ) && best_row(w, cur, rv[groups@[x] as int].executable) == Some(best@[x] as int) by {
                    if x != g {
                        assert(gk[x] != gk[g as int]);
                    }
                }
                assert(gk.contains(rv[i as int].executable)) by {
                    assert(gk[g as int] == rv[i as int].executable);
                }
            } else {
                assert(!gk.contains(rv[i as int].executable)) by {
                    if gk.contains(rv[i as int].executable) {
                        let x = gk.index_of(rv[i as int].executable);
                        assert(rv[groups@[x] as int].executable == rv[i as int].executable);
                    }
                }
                proof {
                    lemma_live_sum_absent(app_keys(pre), live_rows(w, pre), row_seconds(w, pre), rv[i as int].executable);
                    lemma_best_row_absent(w, pre, rv[i as int].executable);
                }
                groups.push(i);
                totals.push(secs);
                best.push(i);
                assert(groups@.map_values(|f: usize| rv[f as int].executable) =~= gk.push(rv[i as int].executable));
                assert forall|x: int| #![trigger totals@[x]] #![trigger groups@[x]] 0 <= x < groups@.len() implies totals@[x] == app_total(
                    w,
                    cur,
                    rv[groups@[x] as int].executable,
                ) && best_row(w, cur, rv[groups@[x] as int].executable) == Some(best@[x] as int) by {
                    if x < old_groups.len() {
                        assert(groups@[x] == old_groups[x]);
                        assert(gk[x] == rv[groups@[x] as int].executable);
                        assert(rv[groups@[x] as int].executable != rv[i as int].executable);
                    }
                }
            }
        } else {
            assert forall|x: int| #![trigger totals@[x]] #![trigger groups@[x]] 0 <= x < groups@.len() implies totals@[x] == app_total(
                w,
                cur,
                rv[groups@[x] as int].executable,
            ) && best_row(w, cur, rv[groups@[x] as int].executable) == Some(best@[x] as int) by {}
        }
        assert forall|j: int| 0 <= j < cur.len() && in_window(w, cur[j]) implies span_ms(
            w,
            #[trigger] cur[j],
        ) <= i64::MAX by {
            if j < i {
                assert(cur[j] == pre[j]);
            }
        }
        i = i + 1;
    }
    assert(rv.subrange(0, i as int) =~= rv);
    let ghost gv = groups@.map_values(|f: usize| rv[f as int].executable);
    let mut items: Vec<UsageItem> = Vec::new();
    let mut g: usize = 0;
    while g < groups.len()
        invariant
            rv == rows.deep_view(),
            ruv == rules.deep_view(),
            groups@.len() == totals@.len(),
            groups@.len() == best@.len(),
            forall|x: int| 0 <= x < groups@.len() ==> #[trigger] groups@[x] < rv.len(),
            forall|x: int| 0 <= x < groups@.len() ==> #[trigger] best@[x] < rv.len(),
            gv == groups@.map_values(|f: usize| rv[f as int].executable),
            gv == app_groups(w, rv),
            forall|x: int|
                0 <= x < groups@.len() ==> #[trigger] totals@[x] == app_total(
                    w,
                    rv,
                    rv[groups@[x] as int].executable,
                ),
            forall|x: int|
                0 <= x < groups@.len() ==> best_row(w, rv, rv[#[trigger] groups@[x] as int].executable)
                    == Some(best@[x] as int),
            spans_fit(w, rv),
            g <= groups@.len(),
            forall|x: int| 0 <= x < g ==> #[trigger] totals@[x] <= i64::MAX,
            items.deep_view() =~= gv.subrange(0, g as int).map_values(
                |e: Seq<char>| app_item(w, ruv, rv, e),
            ),
        decreases groups.len() - g,
    {
        if totals[g] > i64::MAX as i128 {
            assert(gv[g as int] == rv[groups@[g as int] as int].executable);
            assert(gv.contains(gv[g as int]));
            return Err(overflow_error());
        }
        let first = groups[g];
        assert(rv[first as int] == rows@[first as int]@);
        let exe = rows[first].executable.clone();
        let (name, path) = match find_rule(rules, exe.as_str()) {
            Some(ri) => {
                assert(ruv[ri as int] == rules@[ri as int]@);
                (rules[ri].display_name.clone(), rules[ri].process_path.clone())
            },
            None => {
                let b = best[g];
                assert(rv[b as int] == rows@[b as int]@);
                (rows[b].display_name.clone(), rows[b].process_path.clone())
            },
        };
        let item = UsageItem {
            name,
            seconds: totals[g] as i64,
            color: None,
            executable: Some(exe),
            process_path: Some(path),
        };
        assert(item@ == app_item(w, ruv, rv, gv[g as int]));
        let ghost before = items.deep_view();
        items.push(item);
        assert(items.deep_view() =~= before.push(item@));
        g = g + 1;
    }
    assert(gv.subrange(0, g as int) =~= gv);
    assert(app_report_fits(w, rv)) by {
        assert forall|e: Seq<char>| #[trigger] gv.contains(e) implies app_total(w, rv, e) <= i64::MAX by {
            let x = gv.index_of(e);
            assert(totals@[x] <= i64::MAX);
        }
    }
    Ok(in_report_order(&items))
}


/// The hours of the span `[start, end)`: windows of one hour from `start`, the last one
/// cut at `end`.
pub open spec fn hour_windows(start: int, end: int) -> Seq<Window>
    decreases end - start,
{
    if start >= end {
        Seq::empty()
    } else {
        let next = if start + 3600000 < end {
            start + 3600000
        } else {
            end
        };
        seq![Window { bounded: true, start: start as i64, end: next as i64 }] + hour_windows(next, end)
    }
}

/// The windows of one hour that cover `[start, end)`.
pub fn hour_windows_of(start: i64, end: i64) -> (r: Vec<Window>)
    ensures
        r@ == hour_windows(start as int, end as int),
{
    let mut out: Vec<Window> = Vec::new();
    let mut cur: i64 = start;
    assert(out@ + hour_windows(start as int, end as int) =~= hour_windows(start as int, end as int));
    while cur < end
        invariant
            start <= cur,
            cur < end ==> cur <= end,
            out@ + hour_windows(cur as int, end as int) == hour_windows(start as int, end as int),
        decreases end - cur,
    {
        let next: i64 = if (cur as i128) + 3600000 < end as i128 {
            cur + 3600000
        } else {
            end
        };
        let piece = Window { bounded: true, start: cur, end: next };
        assert(hour_windows(cur as int, end as int) == seq![piece] + hour_windows(next as int, end as int));
        out.push(piece);
        assert(out@ + hour_windows(next as int, end as int) =~= out@.drop_last() + (seq![piece]
            + hour_windows(next as int, end as int)));
        cur = next;
    }
    assert(out@ + hour_windows(cur as int, end as int) =~= out@);
    out
}

/// Whether an entry carries label `label`.
pub open spec fn label_is(label: Seq<char>) -> spec_fn((Seq<char>, int)) -> bool {
    |e: (Seq<char>, int)| e.0 == label
}

/// Whether an entry's label sorts after `label`.
pub open spec fn label_after(label: Seq<char>) -> spec_fn((Seq<char>, int)) -> bool {
    |e: (Seq<char>, int)| text_order(label, e.0) == Order::Less
}

/// Adds `secs` under `label` to entries kept in label order, as a sorted map does.
pub open spec fn merge_label(acc: Seq<(Seq<char>, int)>, label: Seq<char>, secs: int) -> Seq<(Seq<char>, int)> {
    match first_index(acc, label_is(label)) {
        Some(i) => acc.update(i, (label, acc[i].1 + secs)),
        None => {
            let p = match first_index(acc, label_after(label)) {
                Some(j) => j,
                None => acc.len() as int,
            };
            acc.insert(p, (label, secs))
        },
    }
}

/// The sum of some integers.
pub open spec fn int_sum(s: Seq<int>) -> int
    decreases s.len(),
{
    if s.len() == 0 {
        0
    } else {
        int_sum(s.drop_last()) + s.last()
    }
}

/// The sum of the seconds of labelled entries.
pub open spec fn entry_sum(s: Seq<(Seq<char>, int)>) -> int
    decreases s.len(),
{
    if s.len() == 0 {
        0
    } else {
        entry_sum(s.drop_last()) + s.last().1
    }
}

/// Whether the hour lines of `windows` can be added up in `i64`: every hour's spans and
/// total fit, and so does the sum of all hours.
pub open spec fn hour_lines_fit(windows: Seq<Window>, rows: Seq<SessionRowView>) -> bool {
    &&& forall|k: int| 0 <= k < windows.len() ==> spans_fit(#[trigger] windows[k], rows) && window_seconds(windows[k], rows) <= i64::MAX
    &&& int_sum(positive_totals(windows, rows)) <= i64::MAX
}

/// Changing one entry's seconds changes the sum by as much.
proof fn lemma_entry_sum_update(s: Seq<(Seq<char>, int)>, i: int, e: (Seq<char>, int))
    requires
        0 <= i < s.len(),
    ensures
        entry_sum(s.update(i, e)) == entry_sum(s) - s[i].1 + e.1,
    decreases s.len(),
{
    if i < s.len() - 1 {
        assert(s.update(i, e).drop_last() =~= s.drop_last().update(i, e));
        lemma_entry_sum_update(s.drop_last(), i, e);
    } else {
        assert(s.update(i, e).drop_last() =~= s.drop_last());
    }
}

/// Inserting an entry adds its seconds to the sum.
proof fn lemma_entry_sum_insert(s: Seq<(Seq<char>, int)>, p: int, e: (Seq<char>, int))
    requires
        0 <= p <= s.len(),
    ensures
        entry_sum(s.insert(p, e)) == entry_sum(s) + e.1,
    decreases s.len(),
{
    if p < s.len() {
        assert(s.insert(p, e).drop_last() =~= s.drop_last().insert(p, e));
        lemma_entry_sum_insert(s.drop_last(), p, e);
    } else {
        assert(s.insert(p, e).drop_last() =~= s);
    }
}

/// With no negative entry, each entry is at most the sum.
proof fn lemma_entry_below_sum(s: Seq<(Seq<char>, int)>, i: int)
    requires
        0 <= i < s.len(),
        forall|k: int| 0 <= k < s.len() ==> (#[trigger] s[k]).1 >= 0,
    ensures
        0 <= s[i].1 <= entry_sum(s),
    decreases s.len(),
{
    if i < s.len() - 1 {
        assert forall|k: int| 0 <= k < s.drop_last().len() implies (#[trigger] s.drop_last()[k]).1 >= 0 by {
            assert(s.drop_last()[k] == s[k]);
        }
        lemma_entry_below_sum(s.drop_last(), i);
        lemma_entry_sum_nonneg(s.drop_last());
    } else {
        lemma_entry_sum_nonneg(s.drop_last());
    }
}

/// With no negative entry, the sum is not negative.
proof fn lemma_entry_sum_nonneg(s: Seq<(Seq<char>, int)>)
    requires
        forall|k: int| 0 <= k < s.len() ==> (#[trigger] s[k]).1 >= 0,
    ensures
        entry_sum(s) >= 0,
    decreases s.len(),
{
    if s.len() > 0 {
        assert forall|k: int| 0 <= k < s.drop_last().len() implies (#[trigger] s.drop_last()[k]).1 >= 0 by {
            assert(s.drop_last()[k] == s[k]);
        }
        lemma_entry_sum_nonneg(s.drop_last());
        assert(s.last() == s[s.len() - 1]);
    }
}

/// Merging non-negative seconds under a label adds them to the sum and keeps every entry
/// non-negative; where the merge does not fit, the sum and the seconds exceed `i64`.
proof fn lemma_merge_sum(acc: Seq<(Seq<char>, int)>, label: Seq<char>, secs: int)
    requires
        secs >= 0,
        forall|k: int| 0 <= k < acc.len() ==> (#[trigger] acc[k]).1 >= 0,
    ensures
        entry_sum(merge_label(acc, label, secs)) == entry_sum(acc) + secs,
        forall|k: int| 0 <= k < merge_label(acc, label, secs).len() ==> (#[trigger] merge_label(acc, label, secs)[k]).1 >= 0,
        !merge_fits(acc, label, secs) ==> entry_sum(acc) + secs > i64::MAX,
{
    lemma_first_index_found(acc, label_is(label));
    match first_index(acc, label_is(label)) {
        Some(i) => {
            lemma_entry_sum_update(acc, i, (label, acc[i].1 + secs));
            lemma_entry_below_sum(acc, i);
        },
        None => {
            lemma_first_index_found(acc, label_after(label));
            let p = match first_index(acc, label_after(label)) {
                Some(j) => j,
                None => acc.len() as int,
            };
            lemma_entry_sum_insert(acc, p, (label, secs));
            let m = acc.insert(p, (label, secs));
            assert forall|k: int| 0 <= k < m.len() implies (#[trigger] m[k]).1 >= 0 by {
                if k < p {
                    assert(m[k] == acc[k]);
                } else if k > p {
                    assert(m[k] == acc[k - 1]);
                }
            }
        },
    }
}

/// The totals of a prefix of the windows add up to no more than those of all of them.
proof fn lemma_positive_totals_prefix(windows: Seq<Window>, rows: Seq<SessionRowView>, i: int)
    requires
        0 <= i <= windows.len(),
    ensures
        int_sum(positive_totals(windows.subrange(0, i), rows)) <= int_sum(positive_totals(windows, rows)),
    decreases windows.len() - i,
{
    if i < windows.len() {
        lemma_positive_totals_prefix(windows, rows, i + 1);
        let a = windows.subrange(0, i);
        let b = windows.subrange(0, i + 1);
        assert(b.drop_last() =~= a);
        let pa = positive_totals(a, rows);
        let t = window_seconds(b.last(), rows);
        if t > 0 {
            assert(pa.push(t).drop_last() =~= pa);
            assert(positive_totals(b, rows) == pa.push(t));
        }
    } else {
        assert(windows.subrange(0, i) =~= windows);
    }
}

/// Labelled seconds gathered by label, in label order.
pub open spec fn merged_labels(entries: Seq<(Seq<char>, int)>) -> Seq<(Seq<char>, int)>
    decreases entries.len(),
{
    if entries.len() == 0 {
        Seq::empty()
    } else {
        merge_label(merged_labels(entries.drop_last()), entries.last().0, entries.last().1)
    }
}

/// The totals of the windows that hold some use, in window order.
pub open spec fn positive_totals(windows: Seq<Window>, rows: Seq<SessionRowView>) -> Seq<int>
    decreases windows.len(),
{
    if windows.len() == 0 {
        Seq::empty()
    } else {
        let t = window_seconds(windows.last(), rows);
        if t > 0 {
            positive_totals(windows.drop_last(), rows).push(t)
        } else {
            positive_totals(windows.drop_last(), rows)
        }
    }
}

/// A report line named by a label.
pub open spec fn labelled_item(e: (Seq<char>, int)) -> UsageItemView {
    UsageItemView { name: e.0, seconds: e.1 as i64, color: None, executable: None, process_path: None }
}

/// Whether adding `secs` under `label` keeps the sum of an existing entry with that label
/// within `i64`.
pub open spec fn merge_fits(acc: Seq<(Seq<char>, int)>, label: Seq<char>, secs: int) -> bool {
    match first_index(acc, label_is(label)) {
        Some(i) => i64::MIN <= acc[i].1 + secs <= i64::MAX,
        None => true,
    }
}

/// Adds seconds under a label to lines kept in label order: an error where a sum leaves `i64`.
pub fn add_under_label(acc: &mut Vec<UsageItem>, label: String, secs: i64) -> (r: Result<(), String>)
    requires
        forall|k: int| 0 <= k < old(acc)@.len() ==> (#[trigger] old(acc)@[k])@.color is None
            && old(acc)@[k]@.executable is None && old(acc)@[k]@.process_path is None,
    ensures
        forall|k: int| 0 <= k < final(acc)@.len() ==> (#[trigger] final(acc)@[k])@.color is None
            && final(acc)@[k]@.executable is None && final(acc)@[k]@.process_path is None,
        r is Ok ==> final(acc).deep_view().map_values(|it: UsageItemView| (it.name, it.seconds as int))
            == merge_label(
            old(acc).deep_view().map_values(|it: UsageItemView| (it.name, it.seconds as int)),
            label@,
            secs as int,
        ),
        r is Ok <==> merge_fits(
            old(acc).deep_view().map_values(|it: UsageItemView| (it.name, it.seconds as int)),
            label@,
            secs as int,
        ),
        r matches Err(e) ==> e@ == "integer overflow"@ && final(acc)@ == old(acc)@,
{
    let ghost ev = acc.deep_view().map_values(|it: UsageItemView| (it.name, it.seconds as int));
    let ghost p = label_is(label@);
    let ghost q = label_after(label@);
    let mut i: usize = 0;
    while i < acc.len()
        invariant
            ev == acc.deep_view().map_values(|it: UsageItemView| (it.name, it.seconds as int)),
            acc@ == old(acc)@,
            forall|j: int| 0 <= j < old(acc)@.len() ==> (#[trigger] old(acc)@[j])@.color is None
                && old(acc)@[j]@.executable is None && old(acc)@[j]@.process_path is None,
            p == label_is(label@),
            i <= acc@.len(),
            forall|j: int| 0 <= j < i ==> !p(#[trigger] ev[j]),
        decreases acc.len() - i,
    {
        assert(ev[i as int] == (acc@[i as int].name@, acc@[i as int].seconds as int));
        if text_eq(acc[i].name.as_str(), label.as_str()) {
            proof {
                lemma_first_index(ev, p, i as int);
            }
            let total = acc[i].seconds as i128 + secs as i128;
            if total > i64::MAX as i128 || total < i64::MIN as i128 {
                return Err(overflow_error());
            }
            let item = UsageItem {
                name: label,
                seconds: total as i64,
                color: None,
                executable: None,
                process_path: None,
            };
            let ghost before = acc.deep_view();
            acc.set(i, item);
            assert(acc.deep_view() =~= before.update(i as int, item@));
            assert forall|k: int| 0 <= k < acc@.len() implies (#[trigger] acc@[k])@.color is None
                && acc@[k]@.executable is None && acc@[k]@.process_path is None by {
                if k != i {
                    assert(acc@[k] == old(acc)@[k]);
                }
            }
            assert(acc.deep_view().map_values(|it: UsageItemView| (it.name, it.seconds as int))
                =~= ev.update(i as int, (label@, ev[i as int].1 + secs)));
            return Ok(());
        }
        i = i + 1;
    }
    proof {
        lemma_first_index(ev, p, i as int);
    }
    let chars = chars_of(label.as_str());
    let mut k: usize = 0;
    let mut stop = false;
    while k < acc.len() && !stop
        invariant
            ev == acc.deep_view().map_values(|it: UsageItemView| (it.name, it.seconds as int)),
            acc@ == old(acc)@,
            forall|j: int| 0 <= j < old(acc)@.len() ==> (#[trigger] old(acc)@[j])@.color is None
                && old(acc)@[j]@.executable is None && old(acc)@[j]@.process_path is None,
            q == label_after(label@),
            chars@ == label@,
            k <= acc@.len(),
            stop ==> k < acc@.len() && q(ev[k as int]),
            forall|j: int| 0 <= j < k ==> !q(#[trigger] ev[j]),
        decreases acc.len() - k + (if stop { 0int } else { 1int }),
    {
        assert(ev[k as int] == (acc@[k as int].name@, acc@[k as int].seconds as int));
        if compare_chars(&chars, &chars_of(acc[k].name.as_str())) == Order::Less {
            stop = true;
        } else {
            k = k + 1;
        }
    }
    proof {
        lemma_first_index(ev, q, k as int);
    }
    let item = UsageItem { name: label, seconds: secs, color: None, executable: None, process_path: None };
    let ghost before = acc.deep_view();
    acc.insert(k, item);
    assert(acc.deep_view() =~= before.insert(k as int, item@));
    assert forall|j: int| 0 <= j < acc@.len() implies (#[trigger] acc@[j])@.color is None
        && acc@[j]@.executable is None && acc@[j]@.process_path is None by {
        if j < k {
            assert(acc@[j] == old(acc)@[j]);
        } else if j > k {
            assert(acc@[j] == old(acc)@[j - 1]);
        }
    }
    assert(acc.deep_view().map_values(|it: UsageItemView| (it.name, it.seconds as int))
        =~= ev.insert(k as int, (label@, secs as int)));
    Ok(())
}

/// The use per local hour of the day `[day.start, day.end)`: the seconds of each hour
/// that holds some use, named by its local hour and gathered by name in name order.
/// The names come from the machine's time zone; what holds whatever they are is that the
/// lines gather, in name order, exactly the non-zero hourly totals.
pub fn hour_usage(rows: &Vec<SessionRow>, day_start: i64, day_end: i64) -> (r: Result<Vec<UsageItem>, String>)
    requires
        sessions_ordered(rows.deep_view()),
    ensures
        r matches Ok(items) ==> exists|labels: Seq<Seq<char>>|
            labels.len() == positive_totals(hour_windows(day_start as int, day_end as int), rows.deep_view()).len()
            && (forall|k: int| 0 <= k < labels.len() ==> is_hour_label(#[trigger] labels[k]))
            && items.deep_view() == #[trigger] labelled_report(labels, positive_totals(hour_windows(day_start as int, day_end as int), rows.deep_view())),
        quiet_windows(hour_windows(day_start as int, day_end as int), rows.deep_view()) ==> (r matches Ok(items)
            && items@.len() == 0),
        r matches Err(e) ==> e@ == local_hour_error() || !hour_lines_fit(
            hour_windows(day_start as int, day_end as int),
            rows.deep_view(),
        ),
{
    let ghost rv = rows.deep_view();
    let windows = hour_windows_of(day_start, day_end);
    let ghost wv = windows@;
    let mut items: Vec<UsageItem> = Vec::new();
    let ghost mut labels: Seq<Seq<char>> = Seq::empty();
    let mut i: usize = 0;
    while i < windows.len()
        invariant
            rv == rows.deep_view(),
            sessions_ordered(rv),
            wv == windows@,
            i <= wv.len(),
            labels.len() == positive_totals(wv.subrange(0, i as int), rv).len(),
            wv == hour_windows(day_start as int, day_end as int),
            quiet_windows(wv, rv) ==> items@.len() == 0,
            forall|k: int| 0 <= k < labels.len() ==> is_hour_label(#[trigger] labels[k]),
            forall|k: int| 0 <= k < items@.len() ==> (#[trigger] items@[k])@.color is None
                && items@[k]@.executable is None && items@[k]@.process_path is None,
            items.deep_view().map_values(|it: UsageItemView| (it.name, it.seconds as int)) == merged_labels(
                Seq::new(labels.len(), |k: int| (labels[k], positive_totals(wv.subrange(0, i as int), rv)[k])),
            ),
            entry_sum(items.deep_view().map_values(|it: UsageItemView| (it.name, it.seconds as int))) == int_sum(
                positive_totals(wv.subrange(0, i as int), rv),
            ),
            forall|k: int| 0 <= k < items@.len() ==> (#[trigger] items.deep_view()[k]).seconds >= 0,
        decreases windows.len() - i,
    {
        let w = windows[i];
        let ghost pre = wv.subrange(0, i as int);
        let ghost cur = wv.subrange(0, i + 1);
        assert(cur.drop_last() =~= pre);
        assert(w == wv[i as int]);
        let secs = match window_total(rows, w) {
            Ok(t) => t,
            Err(e) => {
                assert(!hour_lines_fit(wv, rv)) by {
                    assert(wv[i as int] == w);
                }
                return Err(e);
            },
        };
        if secs > 0 {
            let label = match local_hour_label(w.start) {
                Some(l) => l,
                None => return Err(owned("Unable to determine local hour")),
            };
            let ghost old_entries = Seq::new(labels.len(), |k: int| (labels[k], positive_totals(pre, rv)[k]));
            let ghost ev0 = items.deep_view().map_values(|it: UsageItemView| (it.name, it.seconds as int));
            proof {
                assert forall|k: int| 0 <= k < ev0.len() implies (#[trigger] ev0[k]).1 >= 0 by {
                    assert(ev0[k].1 == items.deep_view()[k].seconds);
                }
                lemma_merge_sum(ev0, label@, secs as int);
                assert(positive_totals(cur, rv) == positive_totals(pre, rv).push(secs as int));
                assert(positive_totals(pre, rv).push(secs as int).drop_last() =~= positive_totals(pre, rv));
            }
            match add_under_label(&mut items, copy_label(&label), secs) {
                Ok(()) => {},
                Err(e) => {
                    proof {
                        lemma_positive_totals_prefix(wv, rv, i + 1);
                        assert(!hour_lines_fit(wv, rv));
                    }
                    return Err(e);
                },
            }
            proof {
                let new_labels = labels.push(label@);
                let entries = Seq::new(new_labels.len(), |k: int| (new_labels[k], positive_totals(cur, rv)[k]));
                assert(positive_totals(cur, rv) == positive_totals(pre, rv).push(secs as int));
                assert(entries.drop_last() =~= old_entries);
                assert forall|k: int| 0 <= k < new_labels.len() implies is_hour_label(#[trigger] new_labels[k]) by {
                    if k < labels.len() {
                        assert(new_labels[k] == labels[k]);
                    }
                }
                labels = new_labels;
                let ev1 = items.deep_view().map_values(|it: UsageItemView| (it.name, it.seconds as int));
                assert(ev1 == merge_label(ev0, label@, secs as int));
                assert forall|k: int| 0 <= k < items@.len() implies (#[trigger] items.deep_view()[k]).seconds >= 0 by {
                    assert(ev1[k].1 == items.deep_view()[k].seconds);
                }
            }
        } else {
            assert(positive_totals(cur, rv) == positive_totals(pre, rv));
            assert(Seq::new(labels.len(), |k: int| (labels[k], positive_totals(cur, rv)[k])) =~= Seq::new(labels.len(), |k: int| (labels[k], positive_totals(pre, rv)[k])));
        }
        i = i + 1;
    }
    assert(wv.subrange(0, i as int) =~= wv);
    assert(items.deep_view() =~= items.deep_view().map_values(|it: UsageItemView| (it.name, it.seconds as int)).map_values(|e: (Seq<char>, int)| labelled_item(e))) by {
        assert forall|k: int| 0 <= k < items@.len() implies #[trigger] items.deep_view()[k] == labelled_item((items.deep_view()[k].name, items.deep_view()[k].seconds as int)) by {
            assert(items.deep_view()[k] == items@[k]@);
        }
    }
    assert(items.deep_view() == labelled_report(labels, positive_totals(wv, rv)));
    Ok(items)
}

/// The message where a local hour cannot be named.
pub open spec fn local_hour_error() -> Seq<char> {
    "Unable to determine local hour"@
}

/// Whether `s` names a local hour as chrono's `%H:00` writes it.
pub open spec fn is_hour_label(s: Seq<char>) -> bool {
    exists|h: int| 0 <= h < 24 && s == two_digits(h) + seq![':', '0', '0']
}

/// Whether every window's spans fit and no window holds any use.
pub open spec fn quiet_windows(windows: Seq<Window>, rows: Seq<SessionRowView>) -> bool {
    forall|k: int| 0 <= k < windows.len() ==> spans_fit(#[trigger] windows[k], rows) && window_seconds(windows[k], rows) == 0
}

/// Lines named by labels, one per total, gathered by label in label order.
pub open spec fn labelled_report(labels: Seq<Seq<char>>, totals: Seq<int>) -> Seq<UsageItemView> {
    merged_labels(Seq::new(labels.len(), |k: int| (labels[k], totals[k]))).map_values(
        |e: (Seq<char>, int)| labelled_item(e),
    )
}

/// Copies a label.
pub fn copy_label(s: &String) -> (r: String)
    ensures
        r@ == s@,
{
    s.clone()
}

} // verus!
