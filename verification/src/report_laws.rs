//! Properties of the usage reports: the lines of a report, by category or by
//! application, add up to the total of its window.
use vstd::prelude::*;

use crate::model::{AppRuleView, CategoryView, SessionRowView, UsageItemView};
use crate::sorting::{first_min, lemma_first_min_bound, key_less, positions, sort_order, sorted_positions, SortKeyView};
use crate::text::{folded, text_order, Order};
use crate::usage::{report_key, report_order,
    app_groups, app_keys, app_total, category_groups, category_keys, category_total,
    distinct_live, lemma_distinct_live, lemma_live_sum_absent, live_rows, live_sum, row_seconds,
    span_seconds, in_window, window_seconds, Window,
};

verus! {

/// The sum of `f` over the elements of `s`.
pub open spec fn sum_over<K>(s: Seq<K>, f: spec_fn(K) -> int) -> int
    decreases s.len(),
{
    if s.len() == 0 {
        0
    } else {
        sum_over(s.drop_last(), f) + f(s.last())
    }
}

/// The sum of the values of the live rows.
pub open spec fn live_total(live: Seq<bool>, vals: Seq<int>) -> int
    decreases live.len(),
{
    if live.len() == 0 {
        0
    } else {
        live_total(live.drop_last(), vals.drop_last()) + if live.last() {
            vals.last()
        } else {
            0
        }
    }
}

/// Sums of two functions that agree on the elements are equal.
pub proof fn lemma_sum_over_agree<K>(s: Seq<K>, f: spec_fn(K) -> int, g: spec_fn(K) -> int)
    requires
        forall|i: int| 0 <= i < s.len() ==> f(#[trigger] s[i]) == g(s[i]),
    ensures
        sum_over(s, f) == sum_over(s, g),
    decreases s.len(),
{
    if s.len() > 0 {
        assert forall|i: int| 0 <= i < s.len() - 1 implies f(#[trigger] s.drop_last()[i]) == g(s.drop_last()[i]) by {
            assert(s.drop_last()[i] == s[i]);
        }
        lemma_sum_over_agree(s.drop_last(), f, g);
        assert(f(s[s.len() - 1]) == g(s[s.len() - 1]));
    }
}

/// Adding `v` to the function at one element adds `v` to a sum over distinct elements
/// where the element occurs.
pub proof fn lemma_sum_over_bump<K>(s: Seq<K>, f: spec_fn(K) -> int, h: spec_fn(K) -> int, a: K, v: int)
    requires
        s.no_duplicates(),
        forall|i: int| 0 <= i < s.len() ==> h(#[trigger] s[i]) == f(s[i]) + if s[i] == a {
            v
        } else {
            0
        },
    ensures
        sum_over(s, h) == sum_over(s, f) + if s.contains(a) {
            v
        } else {
            0
        },
    decreases s.len(),
{
    if s.len() > 0 {
        let p = s.drop_last();
        assert forall|i: int| 0 <= i < p.len() implies h(#[trigger] p[i]) == f(p[i]) + if p[i] == a {
            v
        } else {
            0
        } by {
            assert(p[i] == s[i]);
        }
        assert(p.no_duplicates()) by {
            assert forall|i: int, j: int| 0 <= i < p.len() && 0 <= j < p.len() && i != j implies p[i] != p[j] by {
                assert(p[i] == s[i] && p[j] == s[j]);
            }
        }
        lemma_sum_over_bump(p, f, h, a, v);
        let n = s.len() - 1;
        assert(h(s[n]) == f(s[n]) + if s[n] == a {
            v
        } else {
            0
        });
        if s[n] == a {
            assert(s.contains(a));
            assert(!p.contains(a)) by {
                if p.contains(a) {
                    let j = p.index_of(a);
                    assert(s[j] == a && j != n);
                }
            }
        } else if p.contains(a) {
            let j = p.index_of(a);
            assert(s[j] == a);
        } else {
            assert(!s.contains(a)) by {
                if s.contains(a) {
                    let j = s.index_of(a);
                    assert(j != n);
                    assert(p[j] == a);
                }
            }
        }
    }
}

/// The sums of the groups of live rows, one per distinct key, add up to the sum of all
/// live rows.
pub proof fn lemma_group_sums<K>(keys: Seq<K>, live: Seq<bool>, vals: Seq<int>)
    requires
        keys.len() == live.len(),
        keys.len() == vals.len(),
    ensures
        sum_over(distinct_live(keys, live), |k: K| live_sum(keys, live, vals, k)) == live_total(live, vals),
    decreases keys.len(),
{
    if keys.len() > 0 {
        let kp = keys.drop_last();
        let lp = live.drop_last();
        let vp = vals.drop_last();
        let g = distinct_live(kp, lp);
        let fp = |k: K| live_sum(kp, lp, vp, k);
        let f = |k: K| live_sum(keys, live, vals, k);
        lemma_group_sums(kp, lp, vp);
        lemma_distinct_live(kp, lp);
        let kn = keys.last();
        let v = vals.last();
        if !live.last() {
            assert forall|i: int| 0 <= i < g.len() implies f(#[trigger] g[i]) == fp(g[i]) by {}
            lemma_sum_over_agree(g, f, fp);
        } else {
            assert forall|i: int| 0 <= i < g.len() implies f(#[trigger] g[i]) == fp(g[i]) + if g[i] == kn {
                v
            } else {
                0
            } by {}
            lemma_sum_over_bump(g, fp, f, kn, v);
            if !g.contains(kn) {
                let d = g.push(kn);
                assert(d.drop_last() =~= g);
                lemma_live_sum_absent(kp, lp, vp, kn);
            }
        }
    }
}

/// The seconds of a window are the sum over its live rows.
pub proof fn lemma_window_seconds_live(w: Window, rows: Seq<SessionRowView>)
    ensures
        window_seconds(w, rows) == live_total(live_rows(w, rows), row_seconds(w, rows)),
    decreases rows.len(),
{
    if rows.len() > 0 {
        let p = rows.drop_last();
        lemma_window_seconds_live(w, p);
        assert(live_rows(w, rows).drop_last() =~= live_rows(w, p));
        assert(row_seconds(w, rows).drop_last() =~= row_seconds(w, p));
        assert(live_rows(w, rows).last() == in_window(w, rows.last()));
        assert(row_seconds(w, rows).last() == span_seconds(w, rows.last()));
    }
}

/// The seconds of the categories of a window add up to the seconds of the window.
pub proof fn law_categories_add_up(
    w: Window,
    rules: Seq<AppRuleView>,
    categories: Seq<CategoryView>,
    rows: Seq<SessionRowView>,
)
    ensures
        sum_over(
            category_groups(w, rules, categories, rows),
            |k: Option<(Seq<char>, Seq<char>)>| category_total(w, rules, categories, rows, k),
        ) == window_seconds(w, rows),
{
    let keys = category_keys(rules, categories, rows);
    let live = live_rows(w, rows);
    let vals = row_seconds(w, rows);
    lemma_group_sums(keys, live, vals);
    lemma_window_seconds_live(w, rows);
    let g = category_groups(w, rules, categories, rows);
    lemma_sum_over_agree(
        g,
        |k: Option<(Seq<char>, Seq<char>)>| category_total(w, rules, categories, rows, k),
        |k: Option<(Seq<char>, Seq<char>)>| live_sum(keys, live, vals, k),
    );
}

/// The seconds of the applications of a window add up to the seconds of the window.
pub proof fn law_applications_add_up(w: Window, rows: Seq<SessionRowView>)
    ensures
        sum_over(app_groups(w, rows), |e: Seq<char>| app_total(w, rows, e)) == window_seconds(w, rows),
{
    let keys = app_keys(rows);
    let live = live_rows(w, rows);
    let vals = row_seconds(w, rows);
    lemma_group_sums(keys, live, vals);
    lemma_window_seconds_live(w, rows);
    lemma_sum_over_agree(
        app_groups(w, rows),
        |e: Seq<char>| app_total(w, rows, e),
        |e: Seq<char>| live_sum(keys, live, vals, e),
    );
}

/// The first smallest entry has a first component no greater than that of any entry.
pub proof fn lemma_first_min_least(keys: Seq<SortKeyView>, idx: Seq<int>)
    requires
        idx.len() > 0,
    ensures
        forall|i: int| 0 <= i < idx.len() ==> keys[idx[first_min(keys, idx)]].first <= #[trigger] keys[idx[i]].first,
    decreases idx.len(),
{
    if idx.len() > 1 {
        let p = idx.drop_last();
        lemma_first_min_least(keys, p);
        lemma_first_min_bound(keys, p);
        let m = first_min(keys, p);
        assert(p[m] == idx[m]);
        assert forall|i: int| 0 <= i < idx.len() implies keys[idx[first_min(keys, idx)]].first <= #[trigger] keys[idx[i]].first by {
            if i < idx.len() - 1 {
                assert(p[i] == idx[i]);
            }
        }
    }
}

/// Ordering entries keeps them all, each as often, and puts them in order of their first
/// components.
pub proof fn lemma_sort_order(keys: Seq<SortKeyView>, idx: Seq<int>)
    ensures
        sort_order(keys, idx).to_multiset() =~= idx.to_multiset(),
        sort_order(keys, idx).len() == idx.len(),
        forall|i: int, j: int| 0 <= i < j < idx.len() ==> #[trigger] keys[sort_order(keys, idx)[i]].first
            <= #[trigger] keys[sort_order(keys, idx)[j]].first,
    decreases idx.len(),
{
    broadcast use vstd::seq_lib::group_to_multiset_ensures;
    if idx.len() == 0 {
        assert(sort_order(keys, idx) =~= Seq::<int>::empty());
    } else {
        lemma_first_min_bound(keys, idx);
        let m = first_min(keys, idx);
        let rest_idx = idx.remove(m);
        let rest = sort_order(keys, rest_idx);
        lemma_sort_order(keys, rest_idx);
        lemma_first_min_least(keys, idx);
        let r = sort_order(keys, idx);
        assert(r == seq![idx[m]] + rest);
        vstd::seq_lib::lemma_multiset_commutative(seq![idx[m]], rest);
        assert(seq![idx[m]].to_multiset() =~= vstd::multiset::Multiset::<int>::empty().insert(idx[m])) by {
            assert(Seq::<int>::empty().push(idx[m]) =~= seq![idx[m]]);
            assert(Seq::<int>::empty().to_multiset() =~= vstd::multiset::Multiset::<int>::empty());
        }
        assert forall|j: int| 0 <= j < rest.len() implies keys[idx[m]].first <= #[trigger] keys[rest[j]].first by {
            assert(rest.contains(rest[j]));
            assert(rest.to_multiset().count(rest[j]) > 0);
            assert(rest_idx.contains(rest[j]));
            let k = choose|k: int| 0 <= k < rest_idx.len() && rest_idx[k] == rest[j];
            if k < m {
                assert(rest_idx[k] == idx[k]);
            } else {
                assert(rest_idx[k] == idx[k + 1]);
            }
        }
        assert forall|i: int, j: int| 0 <= i < j < idx.len() implies #[trigger] keys[r[i]].first <= #[trigger] keys[r[j]].first by {
            assert(r[j] == rest[j - 1]);
            if i == 0 {
                assert(r[0] == idx[m]);
            } else {
                assert(r[i] == rest[i - 1]);
            }
        }
    }
}

/// A report holds each line once for each time it came, ordered with the most seconds
/// first.
pub proof fn law_report_order(items: Seq<UsageItemView>)
    ensures
        sorted_positions(items.map_values(|it: UsageItemView| report_key(it))).to_multiset()
            =~= positions(items.len()).to_multiset(),
        report_order(items).len() == items.len(),
        forall|i: int, j: int| 0 <= i < j < items.len() ==> (#[trigger] report_order(items)[i]).seconds
            >= (#[trigger] report_order(items)[j]).seconds,
{
    broadcast use vstd::seq_lib::group_to_multiset_ensures;
    let keys = items.map_values(|it: UsageItemView| report_key(it));
    let p = sorted_positions(keys);
    lemma_sort_order(keys, positions(items.len()));
    assert forall|i: int| 0 <= i < p.len() implies 0 <= #[trigger] p[i] < items.len() by {
        assert(p.contains(p[i]));
        assert(p.to_multiset().count(p[i]) > 0);
        assert(positions(items.len()).contains(p[i]));
    }
    assert forall|i: int, j: int| 0 <= i < j < items.len() implies (#[trigger] report_order(items)[i]).seconds
        >= (#[trigger] report_order(items)[j]).seconds by {
        assert(keys[p[i]].first <= keys[p[j]].first);
        assert(report_order(items)[i] == items[p[i]]);
        assert(report_order(items)[j] == items[p[j]]);
        assert(keys[p[i]] == report_key(items[p[i]]));
        assert(keys[p[j]] == report_key(items[p[j]]));
    }
}

/// Two texts compare the other way round when swapped, and compare equal exactly when
/// they are the same.
pub proof fn lemma_text_order_swap(a: Seq<char>, b: Seq<char>)
    ensures
        (text_order(a, b) == Order::Less) == (text_order(b, a) == Order::Greater),
        (text_order(a, b) == Order::Equal) == (a == b),
    decreases a.len(),
{
    if a.len() > 0 && b.len() > 0 && (a[0] as u32) == (b[0] as u32) {
        lemma_text_order_swap(a.drop_first(), b.drop_first());
        assert(a[0] == b[0]) by {
            vstd::utf8::char_u32_cast(a[0], a[0] as u32);
            vstd::utf8::char_u32_cast(b[0], b[0] as u32);
        }
        if a.drop_first() == b.drop_first() {
            assert(a =~= seq![a[0]] + a.drop_first());
            assert(b =~= seq![b[0]] + b.drop_first());
        }
    } else if a.len() > 0 && b.len() > 0 {
        assert(a[0] != b[0]);
        assert(a != b);
    } else if a.len() == 0 && b.len() == 0 {
        assert(a =~= b);
    } else {
        assert(a.len() != b.len());
    }
}

/// Text order is transitive.
pub proof fn lemma_text_order_transitive(a: Seq<char>, b: Seq<char>, c: Seq<char>)
    requires
        text_order(a, b) == Order::Less,
        text_order(b, c) == Order::Less,
    ensures
        text_order(a, c) == Order::Less,
    decreases a.len(),
{
    if a.len() > 0 && (a[0] as u32) == (b[0] as u32) && (b[0] as u32) == (c[0] as u32) {
        lemma_text_order_transitive(a.drop_first(), b.drop_first(), c.drop_first());
    }
}

/// Key order is irreflexive and transitive.
pub proof fn lemma_key_less_order(a: SortKeyView, b: SortKeyView, c: SortKeyView)
    ensures
        !key_less(a, a),
        key_less(a, b) && key_less(b, c) ==> key_less(a, c),
{
    lemma_text_order_swap(a.text1, a.text1);
    lemma_text_order_swap(a.text2, a.text2);
    lemma_text_order_swap(a.text1, b.text1);
    lemma_text_order_swap(b.text1, c.text1);
    lemma_text_order_swap(a.text1, c.text1);
    lemma_text_order_swap(a.text2, b.text2);
    lemma_text_order_swap(b.text2, c.text2);
    if text_order(a.text1, b.text1) == Order::Less && text_order(b.text1, c.text1) == Order::Less {
        lemma_text_order_transitive(a.text1, b.text1, c.text1);
    }
    if text_order(a.text2, b.text2) == Order::Less && text_order(b.text2, c.text2) == Order::Less {
        lemma_text_order_transitive(a.text2, b.text2, c.text2);
    }
}

/// No key sorts before the first smallest one.
pub proof fn lemma_first_min_least_key(keys: Seq<SortKeyView>, idx: Seq<int>)
    requires
        idx.len() > 0,
    ensures
        forall|i: int| 0 <= i < idx.len() ==> !key_less(#[trigger] keys[idx[i]], keys[idx[first_min(keys, idx)]]),
    decreases idx.len(),
{
    lemma_first_min_bound(keys, idx);
    let m = first_min(keys, idx);
    lemma_key_less_order(keys[idx[m]], keys[idx[m]], keys[idx[m]]);
    if idx.len() > 1 {
        let p = idx.drop_last();
        lemma_first_min_least_key(keys, p);
        lemma_first_min_bound(keys, p);
        let pm = first_min(keys, p);
        assert(p[pm] == idx[pm]);
        let l = keys[idx.last()];
        assert forall|i: int| 0 <= i < idx.len() implies !key_less(#[trigger] keys[idx[i]], keys[idx[m]]) by {
            if i < idx.len() - 1 {
                assert(p[i] == idx[i]);
                lemma_key_less_order(keys[idx[i]], l, keys[p[pm]]);
            } else {
                lemma_key_less_order(l, l, l);
            }
        }
    }
}

/// Ordering entries puts no entry after one whose key sorts after its own.
pub proof fn lemma_sort_order_keys(keys: Seq<SortKeyView>, idx: Seq<int>)
    ensures
        forall|i: int, j: int| 0 <= i < j < idx.len() ==> !key_less(
            #[trigger] keys[sort_order(keys, idx)[j]],
            #[trigger] keys[sort_order(keys, idx)[i]],
        ),
    decreases idx.len(),
{
    broadcast use vstd::seq_lib::group_to_multiset_ensures;
    if idx.len() > 0 {
        lemma_first_min_bound(keys, idx);
        let m = first_min(keys, idx);
        let rest_idx = idx.remove(m);
        let rest = sort_order(keys, rest_idx);
        lemma_sort_order(keys, rest_idx);
        lemma_sort_order_keys(keys, rest_idx);
        lemma_first_min_least_key(keys, idx);
        let r = sort_order(keys, idx);
        assert(r == seq![idx[m]] + rest);
        assert forall|j: int| 0 <= j < rest.len() implies !key_less(#[trigger] keys[rest[j]], keys[idx[m]]) by {
            assert(rest.contains(rest[j]));
            assert(rest.to_multiset().count(rest[j]) > 0);
            assert(rest_idx.contains(rest[j]));
            let k = choose|k: int| 0 <= k < rest_idx.len() && rest_idx[k] == rest[j];
            if k < m {
                assert(rest_idx[k] == idx[k]);
            } else {
                assert(rest_idx[k] == idx[k + 1]);
            }
        }
        assert forall|i: int, j: int| 0 <= i < j < idx.len() implies !key_less(
            #[trigger] keys[r[j]],
            #[trigger] keys[r[i]],
        ) by {
            assert(r[j] == rest[j - 1]);
            if i == 0 {
                assert(r[0] == idx[m]);
            } else {
                assert(r[i] == rest[i - 1]);
            }
        }
    }
}

/// The folded executable of a report line, empty where it names none.
pub open spec fn folded_executable(it: UsageItemView) -> Seq<char> {
    match it.executable {
        Some(e) => folded(e),
        None => Seq::empty(),
    }
}

/// In a report, a line comes before another only where it has more seconds, or as many
/// and a name no later in `NOCASE` order, or the same name and an executable no later in
/// that order.
pub proof fn law_report_order_by_name(items: Seq<UsageItemView>)
    ensures
        forall|i: int, j: int| 0 <= i < j < items.len() ==> {
            let a = #[trigger] report_order(items)[i];
            let b = #[trigger] report_order(items)[j];
            ||| a.seconds > b.seconds
            ||| a.seconds == b.seconds && text_order(folded(a.name), folded(b.name)) == Order::Less
            ||| a.seconds == b.seconds && folded(a.name) == folded(b.name)
                && text_order(folded_executable(a), folded_executable(b)) != Order::Greater
        },
{
    let keys = items.map_values(|it: UsageItemView| report_key(it));
    let p = sorted_positions(keys);
    law_report_order(items);
    lemma_sort_order(keys, positions(items.len()));
    lemma_sort_order_keys(keys, positions(items.len()));
    assert forall|i: int| 0 <= i < p.len() implies 0 <= #[trigger] p[i] < items.len() by {
        broadcast use vstd::seq_lib::group_to_multiset_ensures;
        assert(p.contains(p[i]));
        assert(p.to_multiset().count(p[i]) > 0);
        assert(positions(items.len()).contains(p[i]));
    }
    assert forall|i: int, j: int| 0 <= i < j < items.len() implies {
        let a = #[trigger] report_order(items)[i];
        let b = #[trigger] report_order(items)[j];
        ||| a.seconds > b.seconds
        ||| a.seconds == b.seconds && text_order(folded(a.name), folded(b.name)) == Order::Less
        ||| a.seconds == b.seconds && folded(a.name) == folded(b.name)
            && text_order(folded_executable(a), folded_executable(b)) != Order::Greater
    } by {
        let a = report_order(items)[i];
        let b = report_order(items)[j];
        assert(a == items[p[i]]);
        assert(b == items[p[j]]);
        assert(keys[p[i]] == report_key(a));
        assert(keys[p[j]] == report_key(b));
        assert(!key_less(keys[p[j]], keys[p[i]]));
        lemma_text_order_swap(folded(a.name), folded(b.name));
        lemma_text_order_swap(folded(b.name), folded(a.name));
        lemma_text_order_swap(folded_executable(a), folded_executable(b));
        lemma_text_order_swap(folded_executable(b), folded_executable(a));
        assert(report_key(a).text2 == folded_executable(a));
        assert(report_key(b).text2 == folded_executable(b));
    }
}

} // verus!
