//! A stable selection order over sort keys, as the reports and listings use it.
use vstd::prelude::*;

use crate::text::{compare_chars, text_order, Order};

verus! {

/// A sort key: two numbers, then two texts, compared in that order, each ascending.
pub struct SortKey {
    pub first: i128,
    pub second: i128,
    pub text1: Vec<char>,
    pub text2: Vec<char>,
}

pub struct SortKeyView {
    pub first: int,
    pub second: int,
    pub text1: Seq<char>,
    pub text2: Seq<char>,
}

impl View for SortKey {
    type V = SortKeyView;

    open spec fn view(&self) -> SortKeyView {
        SortKeyView { first: self.first as int, second: self.second as int, text1: self.text1@, text2: self.text2@ }
    }
}

impl DeepView for SortKey {
    type V = SortKeyView;

    open spec fn deep_view(&self) -> SortKeyView {
        self@
    }
}

/// Whether key `a` sorts strictly before key `b`.
pub open spec fn key_less(a: SortKeyView, b: SortKeyView) -> bool {
    ||| a.first < b.first
    ||| a.first == b.first && a.second < b.second
    ||| a.first == b.first && a.second == b.second && text_order(a.text1, b.text1) == Order::Less
    ||| a.first == b.first && a.second == b.second && text_order(a.text1, b.text1) == Order::Equal
        && text_order(a.text2, b.text2) == Order::Less
}

/// The position in `idx` of the first entry whose key is smallest.
pub open spec fn first_min(keys: Seq<SortKeyView>, idx: Seq<int>) -> int
    decreases idx.len(),
{
    if idx.len() <= 1 {
        0
    } else {
        let m = first_min(keys, idx.drop_last());
        if key_less(keys[idx.last()], keys[idx[m]]) {
            idx.len() - 1
        } else {
            m
        }
    }
}

/// The entries of `idx` ordered by their keys; among equal keys the earlier entry comes first.
pub open spec fn sort_order(keys: Seq<SortKeyView>, idx: Seq<int>) -> Seq<int>
    decreases idx.len(),
{
    if idx.len() == 0 {
        Seq::empty()
    } else {
        let m = first_min(keys, idx);
        proof {
            lemma_first_min_bound(keys, idx);
        }
        seq![idx[m]] + sort_order(keys, idx.remove(m))
    }
}

/// The positions `0..n`.
pub open spec fn positions(n: nat) -> Seq<int> {
    Seq::new(n, |i: int| i)
}

/// The positions of `keys`, in the order of their keys.
pub open spec fn sorted_positions(keys: Seq<SortKeyView>) -> Seq<int> {
    sort_order(keys, positions(keys.len()))
}

/// Compares two keys.
pub fn key_precedes(a: &SortKey, b: &SortKey) -> (r: bool)
    ensures
        r == key_less(a@, b@),
{
    if a.first < b.first {
        return true;
    }
    if a.first > b.first {
        return false;
    }
    if a.second < b.second {
        return true;
    }
    if a.second > b.second {
        return false;
    }
    match compare_chars(&a.text1, &b.text1) {
        Order::Less => true,
        Order::Greater => false,
        Order::Equal => match compare_chars(&a.text2, &b.text2) {
            Order::Less => true,
            _ => false,
        },
    }
}

/// The first smallest entry is a position of a non-empty `idx`.
pub proof fn lemma_first_min_bound(keys: Seq<SortKeyView>, idx: Seq<int>)
    requires
        idx.len() > 0,
    ensures
        0 <= first_min(keys, idx) < idx.len(),
    decreases idx.len(),
{
    if idx.len() > 1 {
        lemma_first_min_bound(keys, idx.drop_last());
    }
}

/// The positions of `keys` in the order of their keys (a stable order).
pub fn sort_positions(keys: &Vec<SortKey>) -> (r: Vec<usize>)
    ensures
        r@.len() == keys@.len(),
        r@.map_values(|i: usize| i as int) == sorted_positions(keys.deep_view()),
        forall|i: int| 0 <= i < r@.len() ==> r@[i] < keys@.len(),
{
    let ghost kv = keys.deep_view();
    let mut remaining: Vec<usize> = Vec::new();
    let n = keys.len();
    let mut i: usize = 0;
    while i < n
        invariant
            n == keys@.len(),
            i <= n,
            remaining@.len() == i,
            remaining@.map_values(|j: usize| j as int) =~= positions(i as nat),
            forall|j: int| 0 <= j < remaining@.len() ==> remaining@[j] == j,
        decreases n - i,
    {
        remaining.push(i);
        assert(remaining@.map_values(|j: usize| j as int) =~= positions((i + 1) as nat));
        i = i + 1;
    }
    let mut out: Vec<usize> = Vec::new();
    assert(out@.map_values(|j: usize| j as int) + sort_order(kv, remaining@.map_values(|j: usize| j as int))
        =~= sorted_positions(kv));
    while remaining.len() > 0
        invariant
            n == keys@.len(),
            kv == keys.deep_view(),
            out@.map_values(|j: usize| j as int) + sort_order(kv, remaining@.map_values(|j: usize| j as int))
                == sorted_positions(kv),
            out@.len() + remaining@.len() == n,
            forall|j: int| 0 <= j < remaining@.len() ==> remaining@[j] < n,
            forall|j: int| 0 <= j < out@.len() ==> out@[j] < n,
        decreases remaining.len(),
    {
        let ghost idx = remaining@.map_values(|j: usize| j as int);
        let mut m: usize = 0;
        let mut k: usize = 1;
        while k < remaining.len()
            invariant
                n == keys@.len(),
                kv == keys.deep_view(),
                idx == remaining@.map_values(|j: usize| j as int),
                1 <= k <= remaining.len(),
                forall|j: int| 0 <= j < remaining@.len() ==> remaining@[j] < n,
                m as int == first_min(kv, idx.subrange(0, k as int)),
                m < k,
            decreases remaining.len() - k,
        {
            assert(idx.subrange(0, k + 1).drop_last() =~= idx.subrange(0, k as int));
            if key_precedes(&keys[remaining[k]], &keys[remaining[m]]) {
                m = k;
            }
            k = k + 1;
        }
        assert(idx.subrange(0, k as int) =~= idx);
        let ghost before = out@.map_values(|j: usize| j as int);
        let chosen = remaining.remove(m);
        assert(remaining@.map_values(|j: usize| j as int) =~= idx.remove(m as int));
        out.push(chosen);
        assert(out@.map_values(|j: usize| j as int) =~= before + seq![chosen as int]);
        assert(before + seq![chosen as int] + sort_order(kv, idx.remove(m as int)) =~= before + (seq![
            idx[m as int]] + sort_order(kv, idx.remove(m as int))));
    }
    out
}

} // verus!
