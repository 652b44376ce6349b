//! The Heatmap tab: requests per hour of the day, per day and per ISO week, each in
//! a list of its own.
use vstd::prelude::*;
use std::collections::HashMap;
use crate::keys::{KeyCode, KeyInput};
use crate::log_data::{LogData, lists_entries};
use crate::datetime::{utc_representable, utc_day_label, utc_week_label, day_label, week_label};
use crate::file_selector::{text_lt, text_less, lemma_text_lt_irreflexive, lemma_text_lt_transitive, lemma_text_lt_total};
use crate::text::{chars_of, string_of};
use vstd::std_specs::iter::IteratorSpec;
use crate::selection::{TabInput, list_next, list_next_of, list_previous, list_previous_of};

verus! {

/// The Heatmap tab's state: the selection of each of its three lists, and the active
/// list (0 hourly, 1 daily, 2 weekly).
#[derive(Clone, Copy)]
pub struct HeatmapTab {
    pub hourly_selected: Option<usize>,
    pub daily_selected: Option<usize>,
    pub weekly_selected: Option<usize>,
    pub active_panel: usize,
}

/// The state after a key press: Up and Down step through the active list, Left and
/// Right make the previous or next list active (cyclically).
pub open spec fn heatmap_step(t: HeatmapTab, k: KeyInput) -> (HeatmapTab, TabInput) {
    match k.code {
        KeyCode::Up => (
            if t.active_panel == 0 {
                HeatmapTab { hourly_selected: list_previous(t.hourly_selected), ..t }
            } else if t.active_panel == 1 {
                HeatmapTab { daily_selected: list_previous(t.daily_selected), ..t }
            } else if t.active_panel == 2 {
                HeatmapTab { weekly_selected: list_previous(t.weekly_selected), ..t }
            } else {
                t
            },
            TabInput::Handled,
        ),
        KeyCode::Down => (
            if t.active_panel == 0 {
                HeatmapTab { hourly_selected: list_next(t.hourly_selected), ..t }
            } else if t.active_panel == 1 {
                HeatmapTab { daily_selected: list_next(t.daily_selected), ..t }
            } else if t.active_panel == 2 {
                HeatmapTab { weekly_selected: list_next(t.weekly_selected), ..t }
            } else {
                t
            },
            TabInput::Handled,
        ),
        KeyCode::Left => (HeatmapTab {
            active_panel: if t.active_panel > 0 { (t.active_panel - 1) as usize } else { 2 },
            ..t
        }, TabInput::Handled),
        KeyCode::Right => (HeatmapTab {
            active_panel: if t.active_panel < 2 { (t.active_panel + 1) as usize } else { 0 },
            ..t
        }, TabInput::Handled),
        _ => (t, TabInput::Ignored),
    }
}

impl HeatmapTab {
    /// The tab with no selection in any list and the hourly list active.
    pub fn new() -> (r: Self)
        ensures
            r == (HeatmapTab { hourly_selected: None, daily_selected: None, weekly_selected: None, active_panel: 0 }),
    {
        HeatmapTab { hourly_selected: None, daily_selected: None, weekly_selected: None, active_panel: 0 }
    }

    /// Handles a key (see `heatmap_step`).
    pub fn handle_input(&mut self, key: KeyInput) -> (r: TabInput)
        ensures
            (*final(self), r) == heatmap_step(*old(self), key),
    {
        match key.code {
            KeyCode::Up => {
                if self.active_panel == 0 {
                    self.hourly_selected = list_previous_of(self.hourly_selected);
                } else if self.active_panel == 1 {
                    self.daily_selected = list_previous_of(self.daily_selected);
                } else if self.active_panel == 2 {
                    self.weekly_selected = list_previous_of(self.weekly_selected);
                }
                TabInput::Handled
            },
            KeyCode::Down => {
                if self.active_panel == 0 {
                    self.hourly_selected = list_next_of(self.hourly_selected);
                } else if self.active_panel == 1 {
                    self.daily_selected = list_next_of(self.daily_selected);
                } else if self.active_panel == 2 {
                    self.weekly_selected = list_next_of(self.weekly_selected);
                }
                TabInput::Handled
            },
            KeyCode::Left => {
                if self.active_panel > 0 {
                    self.active_panel = self.active_panel - 1;
                } else {
                    self.active_panel = 2;
                }
                TabInput::Handled
            },
            KeyCode::Right => {
                if self.active_panel < 2 {
                    self.active_panel = self.active_panel + 1;
                } else {
                    self.active_panel = 0;
                }
                TabInput::Handled
            },
            _ => TabInput::Ignored,
        }
    }
}

impl Default for HeatmapTab {
    /// The tab as `HeatmapTab::new` makes it.
    fn default() -> (r: Self)
        ensures
            r == (HeatmapTab { hourly_selected: None, daily_selected: None, weekly_selected: None, active_panel: 0 }),
    {
        HeatmapTab::new()
    }
}

// ---------------------------------------------------------------------------
// Counting the requests of each interval by hour of the day.
// ---------------------------------------------------------------------------

/// The hour of the day (UTC) of a Unix timestamp.
pub open spec fn hour_of(ts: int) -> nat {
    ((ts % 86400) / 3600) as nat
}

/// The sum of the counts of `s`.
pub open spec fn total_count(s: Seq<(i64, usize)>) -> nat
    decreases s.len(),
{
    if s.len() == 0 { 0 } else { total_count(s.drop_last()) + (s.last().1 as nat) }
}

/// The sum of the counts of the timestamps of `s` in hour `h`.
pub open spec fn hour_total(s: Seq<(i64, usize)>, h: nat) -> nat
    decreases s.len(),
{
    if s.len() == 0 {
        0
    } else {
        hour_total(s.drop_last(), h) + (if hour_of(s.last().0 as int) == h { s.last().1 as nat } else { 0 })
    }
}

/// Whether some timestamp of `s` lies in hour `h`.
pub open spec fn hour_seen(s: Seq<(i64, usize)>, h: nat) -> bool
    decreases s.len(),
{
    s.len() > 0 && (hour_seen(s.drop_last(), h) || hour_of(s.last().0 as int) == h)
}

/// The hours below `n` in which some timestamp of `s` lies, in order, each with its total.
pub open spec fn hours_upto(s: Seq<(i64, usize)>, n: nat) -> Seq<(u32, nat)>
    decreases n,
{
    if n == 0 {
        Seq::empty()
    } else {
        let r = hours_upto(s, (n - 1) as nat);
        if hour_seen(s, (n - 1) as nat) { r.push(((n - 1) as u32, hour_total(s, (n - 1) as nat))) } else { r }
    }
}

/// The rows of the hourly list: each hour of the day in which requests were counted,
/// in order, with its number of requests.
pub open spec fn hourly_rows(s: Seq<(i64, usize)>) -> Seq<(u32, nat)> {
    hours_upto(s, 24)
}

/// Every timestamp of `s` is representable.
pub open spec fn all_representable(s: Seq<(i64, usize)>) -> bool {
    forall|i: int| 0 <= i < s.len() ==> utc_representable(#[trigger] s[i].0 as int)
}

/// Rows of counts, with the counts as numbers.
pub open spec fn rows_view<K>(v: Seq<(K, u64)>) -> Seq<(K, nat)> {
    v.map_values(|p: (K, u64)| (p.0, p.1 as nat))
}

proof fn lemma_hour_total_le(s: Seq<(i64, usize)>, h: nat)
    ensures
        hour_total(s, h) <= total_count(s),
    decreases s.len(),
{
    if s.len() > 0 {
        lemma_hour_total_le(s.drop_last(), h);
    }
}

proof fn lemma_total_prefix(s: Seq<(i64, usize)>, i: int)
    requires
        0 <= i <= s.len(),
    ensures
        total_count(s.take(i)) <= total_count(s),
    decreases s.len(),
{
    if i < s.len() {
        assert(s.drop_last().take(i) =~= s.take(i));
        lemma_total_prefix(s.drop_last(), i);
    } else {
        assert(s.take(i) =~= s);
    }
}

/// The hour of the day of a representable timestamp.
fn hour_of_timestamp(ts: i64) -> (h: usize)
    requires
        utc_representable(ts as int),
    ensures
        h == hour_of(ts as int),
        h < 24,
{
    let shifted: u64 = (ts + 8334601228800i64) as u64;
    proof {
        vstd::arithmetic::div_mod::lemma_mod_multiples_vanish(96465292, ts as int, 86400);
        assert(86400 * 96465292 + ts as int == shifted as int);
    }
    ((shifted % 86400) / 3600) as usize
}

/// The rows of the hourly list for the `(timestamp, count)` pairs `entries`.
pub fn hourly_counts(entries: &Vec<(i64, usize)>) -> (r: Vec<(u32, u64)>)
    requires
        all_representable(entries@),
        total_count(entries@) <= u64::MAX,
    ensures
        rows_view(r@) == hourly_rows(entries@),
{
    let mut totals: Vec<u64> = Vec::new();
    let mut seen: Vec<bool> = Vec::new();
    let mut h: usize = 0;
    while h < 24
        invariant
            h <= 24,
            totals@.len() == h,
            seen@.len() == h,
            forall|j: int| 0 <= j < h ==> totals@[j] == 0 && !seen@[j],
        decreases 24 - h,
    {
        totals.push(0);
        seen.push(false);
        h += 1;
    }
    let ghost s = entries@;
    let mut i: usize = 0;
    while i < entries.len()
        invariant
            s == entries@,
            i <= s.len(),
            all_representable(s),
            total_count(s) <= u64::MAX,
            totals@.len() == 24,
            seen@.len() == 24,
            forall|j: nat| j < 24 ==> #[trigger] totals@[j as int] == hour_total(s.take(i as int), j)
                && seen@[j as int] == hour_seen(s.take(i as int), j),
        decreases s.len() - i,
    {
        let (ts, c) = entries[i];
        assert(utc_representable(s[i as int].0 as int));
        let hr = hour_of_timestamp(ts);
        proof {
            let t1 = s.take(i as int + 1);
            assert(t1.drop_last() =~= s.take(i as int));
            lemma_hour_total_le(t1, hr as nat);
            lemma_total_prefix(s, i as int + 1);
            assert forall|j: nat| j < 24 implies hour_total(t1, j) == hour_total(s.take(i as int), j)
                + (if hr == j { c as nat } else { 0 })
                && hour_seen(t1, j) == (hour_seen(s.take(i as int), j) || hr == j) by {}
            assert(totals@[hr as int] + c == hour_total(t1, hr as nat));
        }
        let cur = totals[hr];
        totals.set(hr, cur + c as u64);
        seen.set(hr, true);
        i += 1;
    }
    assert(s.take(i as int) =~= s);
    let mut r: Vec<(u32, u64)> = Vec::new();
    let mut h: usize = 0;
    while h < 24
        invariant
            h <= 24,
            s == entries@,
            totals@.len() == 24,
            seen@.len() == 24,
            forall|j: nat| j < 24 ==> #[trigger] totals@[j as int] == hour_total(s, j) && seen@[j as int] == hour_seen(s, j),
            rows_view(r@) == hours_upto(s, h as nat),
        decreases 24 - h,
    {
        assert(totals@[h as int] == hour_total(s, h as nat));
        if seen[h] {
            let ghost prev = r@;
            r.push((h as u32, totals[h]));
            assert(rows_view(r@) =~= rows_view(prev).push((h as u32, hour_total(s, h as nat))));
        }
        h += 1;
    }
    r
}

/// The sum of the counts of rows.
pub open spec fn rows_sum(r: Seq<(u32, nat)>) -> nat
    decreases r.len(),
{
    if r.len() == 0 { 0 } else { rows_sum(r.drop_last()) + r.last().1 }
}

/// The sum of the hourly totals of `s` over the hours below `n`.
pub open spec fn hours_sum(s: Seq<(i64, usize)>, n: nat) -> nat
    decreases n,
{
    if n == 0 { 0 } else { hours_sum(s, (n - 1) as nat) + hour_total(s, (n - 1) as nat) }
}

proof fn lemma_hour_total_unseen(s: Seq<(i64, usize)>, h: nat)
    requires
        !hour_seen(s, h),
    ensures
        hour_total(s, h) == 0,
    decreases s.len(),
{
    if s.len() > 0 {
        lemma_hour_total_unseen(s.drop_last(), h);
    }
}

proof fn lemma_rows_sum_upto(s: Seq<(i64, usize)>, n: nat)
    ensures
        rows_sum(hours_upto(s, n)) == hours_sum(s, n),
    decreases n,
{
    if n > 0 {
        lemma_rows_sum_upto(s, (n - 1) as nat);
        let r = hours_upto(s, (n - 1) as nat);
        if hour_seen(s, (n - 1) as nat) {
            assert(r.push(((n - 1) as u32, hour_total(s, (n - 1) as nat))).drop_last() =~= r);
        } else {
            lemma_hour_total_unseen(s, (n - 1) as nat);
        }
    }
}

proof fn lemma_hours_sum_step(s: Seq<(i64, usize)>, n: nat)
    requires
        s.len() > 0,
    ensures
        hours_sum(s, n) == hours_sum(s.drop_last(), n)
            + (if hour_of(s.last().0 as int) < n { s.last().1 as nat } else { 0 }),
    decreases n,
{
    if n > 0 {
        lemma_hours_sum_step(s, (n - 1) as nat);
    }
}

proof fn lemma_hours_sum_total(s: Seq<(i64, usize)>)
    ensures
        hours_sum(s, 24) == total_count(s),
    decreases s.len(),
{
    if s.len() == 0 {
        lemma_hours_sum_empty(s, 24);
    } else {
        lemma_hours_sum_total(s.drop_last());
        lemma_hours_sum_step(s, 24);
        let t = s.last().0 as int;
        assert(0 <= t % 86400 < 86400);
        assert(hour_of(t) < 24);
    }
}

proof fn lemma_hours_sum_empty(s: Seq<(i64, usize)>, n: nat)
    requires
        s.len() == 0,
    ensures
        hours_sum(s, n) == 0,
    decreases n,
{
    if n > 0 {
        lemma_hours_sum_empty(s, (n - 1) as nat);
    }
}

/// Every request counted in an interval appears in exactly one row of the hourly
/// list: the rows add up to all the counted requests.
pub proof fn law_hourly_rows_count_every_request(s: Seq<(i64, usize)>)
    ensures
        rows_sum(hourly_rows(s)) == total_count(s),
{
    lemma_rows_sum_upto(s, 24);
    lemma_hours_sum_total(s);
}

/// The `(timestamp, count)` pairs of a map, in its iteration order.
fn interval_pairs(m: &HashMap<i64, usize>) -> (r: Vec<(i64, usize)>)
    ensures
        lists_entries(r@, m@),
{
    let mut v: Vec<(i64, usize)> = Vec::new();
    let iter = m.iter();
    let ghost full = iter.remaining();
    proof {
        broadcast use vstd::std_specs::hash::axiom_spec_hash_map_iter;
        assert(full.no_duplicates());
        assert(full == vstd::std_specs::hash::spec_hash_map_iter(m).remaining());
    }
    for kv in it: iter
        invariant
            it.seq() == full,
            v@ == full.take(it.index()).unref(),
    {
        let (k, c) = kv;
        let ghost prev = v@;
        v.push((*k, *c));
        assert(full.take(it.index() + 1).unref() =~= prev.push((*k, *c)));
    }
    assert(v@ =~= full.unref());
    proof {
        broadcast use vstd::std_specs::hash::axiom_spec_hash_map_iter;
        let r = v@;
        assert forall|i: int, j: int| 0 <= i < r.len() && 0 <= j < r.len() && i != j implies r[i] != r[j] by {
            assert(full[i] != full[j]);
        }
        assert forall|k: i64| #[trigger] m@.contains_key(k) implies r.contains((k, m@[k])) by {
            assert(full.contains((&k, &m@[k])));
            let i = choose|i: int| 0 <= i < full.len() && full[i] == (&k, &m@[k]);
            assert(r[i] == (k, m@[k]));
        }
        assert forall|i: int| 0 <= i < r.len() implies m@.contains_key(#[trigger] r[i].0) && m@[r[i].0] == r[i].1 by {
            assert(m@.contains_key(*full[i].0));
        }
    }
    v
}

/// The interval counts of `log_data` can be summed without overflow, whatever their order.
pub open spec fn counts_fit(m: Map<i64, usize>) -> bool {
    forall|s: Seq<(i64, usize)>| lists_entries(s, m) ==> #[trigger] total_count(s) <= u64::MAX
}

/// The interval timestamps of `m` all name representable dates.
pub open spec fn keys_representable(m: Map<i64, usize>) -> bool {
    forall|k: i64| #[trigger] m.contains_key(k) ==> utc_representable(k as int)
}

/// The rows of the hourly list for the requests counted per interval in `log_data`.
pub fn hourly_data(log_data: &LogData) -> (r: Vec<(u32, u64)>)
    requires
        keys_representable(log_data.requests_per_interval@),
        counts_fit(log_data.requests_per_interval@),
    ensures
        exists|s: Seq<(i64, usize)>| lists_entries(s, log_data.requests_per_interval@)
            && rows_view(r@) == hourly_rows(s),
{
    let entries = interval_pairs(&log_data.requests_per_interval);
    proof {
        let s = entries@;
        assert(total_count(s) <= u64::MAX);
        assert forall|i: int| 0 <= i < s.len() implies utc_representable(#[trigger] s[i].0 as int) by {
            assert(log_data.requests_per_interval@.contains_key(s[i].0));
        }
    }
    hourly_counts(&entries)
}

// ---------------------------------------------------------------------------
// Counting the requests of each interval by day and by week.
// ---------------------------------------------------------------------------

/// The sum of the counts of the labels of `s` equal to `k`.
pub open spec fn label_total(s: Seq<(Seq<char>, usize)>, k: Seq<char>) -> nat
    decreases s.len(),
{
    if s.len() == 0 {
        0
    } else {
        label_total(s.drop_last(), k) + (if s.last().0 == k { s.last().1 as nat } else { 0 })
    }
}

/// Whether some label of `s` equals `k`.
pub open spec fn label_seen(s: Seq<(Seq<char>, usize)>, k: Seq<char>) -> bool
    decreases s.len(),
{
    s.len() > 0 && (label_seen(s.drop_last(), k) || s.last().0 == k)
}

/// The sum of all the counts of `s`.
pub open spec fn label_sum(s: Seq<(Seq<char>, usize)>) -> nat
    decreases s.len(),
{
    if s.len() == 0 { 0 } else { label_sum(s.drop_last()) + (s.last().1 as nat) }
}

/// `r` lists each label of `s` once, in increasing order, with the sum of its counts.
pub open spec fn grouped(r: Seq<(Seq<char>, nat)>, s: Seq<(Seq<char>, usize)>) -> bool {
    &&& forall|i: int, j: int| 0 <= i < j < r.len() ==> text_lt(#[trigger] r[i].0, #[trigger] r[j].0)
    &&& forall|i: int| 0 <= i < r.len() ==> label_seen(s, #[trigger] r[i].0) && r[i].1 == label_total(s, r[i].0)
    &&& forall|k: Seq<char>| #[trigger] label_seen(s, k) ==> exists|i: int| 0 <= i < r.len() && r[i].0 == k
}

/// The texts and counts of labelled rows.
pub open spec fn labels_view<N>(v: Seq<(String, N)>) -> Seq<(Seq<char>, N)> {
    v.map_values(|p: (String, N)| (p.0@, p.1))
}

/// Parallel key and count columns as rows.
pub open spec fn columns(keys: Seq<Vec<char>>, counts: Seq<u64>) -> Seq<(Seq<char>, nat)> {
    Seq::new(keys.len(), |i: int| (keys[i]@, counts[i] as nat))
}

proof fn lemma_label_total_unseen(s: Seq<(Seq<char>, usize)>, k: Seq<char>)
    requires
        !label_seen(s, k),
    ensures
        label_total(s, k) == 0,
    decreases s.len(),
{
    if s.len() > 0 {
        lemma_label_total_unseen(s.drop_last(), k);
    }
}

proof fn lemma_label_total_le(s: Seq<(Seq<char>, usize)>, k: Seq<char>)
    ensures
        label_total(s, k) <= label_sum(s),
    decreases s.len(),
{
    if s.len() > 0 {
        lemma_label_total_le(s.drop_last(), k);
    }
}

proof fn lemma_label_sum_prefix(s: Seq<(Seq<char>, usize)>, i: int)
    requires
        0 <= i <= s.len(),
    ensures
        label_sum(s.take(i)) <= label_sum(s),
    decreases s.len(),
{
    if i < s.len() {
        assert(s.drop_last().take(i) =~= s.take(i));
        lemma_label_sum_prefix(s.drop_last(), i);
    } else {
        assert(s.take(i) =~= s);
    }
}

/// Whether two texts are equal.
pub fn same_text(a: &[char], b: &[char]) -> (r: bool)
    ensures
        r == (a@ == b@),
{
    let ab = text_less(a, b);
    let ba = text_less(b, a);
    proof {
        if a@ == b@ {
            lemma_text_lt_irreflexive(a@);
        } else {
            lemma_text_lt_total(a@, b@);
        }
    }
    !ab && !ba
}

/// The labels of `labels` in increasing order, each with the sum of its counts.
pub fn group_labels(labels: &Vec<(String, usize)>) -> (r: Vec<(String, u64)>)
    requires
        label_sum(labels_view(labels@)) <= u64::MAX,
    ensures
        grouped(labels_view(r@).map_values(|p: (Seq<char>, u64)| (p.0, p.1 as nat)), labels_view(labels@)),
{
    let ghost s = labels_view(labels@);
    let mut keys: Vec<Vec<char>> = Vec::new();
    let mut counts: Vec<u64> = Vec::new();
    let mut i: usize = 0;
    while i < labels.len()
        invariant
            s == labels_view(labels@),
            i <= s.len(),
            label_sum(s) <= u64::MAX,
            keys@.len() == counts@.len(),
            grouped(columns(keys@, counts@), s.take(i as int)),
        decreases s.len() - i,
    {
        let k = chars_of(labels[i].0.as_str());
        let c = labels[i].1;
        let ghost before = s.take(i as int);
        let ghost after = s.take(i as int + 1);
        let ghost old_cols = columns(keys@, counts@);
        proof {
            assert(after.drop_last() =~= before);
            assert(after.last() == (k@, c));
            lemma_label_sum_prefix(s, i as int + 1);
            lemma_label_total_le(after, k@);
            assert forall|kk: Seq<char>| #[trigger] label_total(after, kk) == label_total(before, kk) + (if kk == k@ { c as nat } else { 0 })
                && label_seen(after, kk) == (label_seen(before, kk) || kk == k@) by {}
        }
        let mut j: usize = 0;
        while j < keys.len() && text_less(keys[j].as_slice(), k.as_slice())
            invariant
                j <= keys@.len(),
                forall|m: int| 0 <= m < j ==> text_lt(#[trigger] keys@[m]@, k@),
            decreases keys.len() - j,
        {
            j += 1;
        }
        if j < keys.len() && same_text(keys[j].as_slice(), k.as_slice()) {
            proof {
                assert(old_cols[j as int].0 == k@);
                assert(label_seen(before, k@));
                assert(counts@[j as int] + c == label_total(after, k@));
            }
            let cur = counts[j];
            counts.set(j, cur + c as u64);
            proof {
                let cols = columns(keys@, counts@);
                assert forall|m: int| 0 <= m < cols.len() implies label_seen(after, #[trigger] cols[m].0)
                    && cols[m].1 == label_total(after, cols[m].0) by {
                    assert(old_cols[m].0 == cols[m].0);
                    if m != j {
                        if cols[m].0 == k@ {
                            if m < j {
                                lemma_text_lt_irreflexive(k@);
                            } else {
                                assert(text_lt(old_cols[j as int].0, old_cols[m].0));
                                lemma_text_lt_irreflexive(k@);
                            }
                        }
                    }
                }
                assert forall|kk: Seq<char>| #[trigger] label_seen(after, kk) implies exists|m: int| 0 <= m < cols.len() && cols[m].0 == kk by {
                    if kk == k@ {
                        assert(cols[j as int].0 == kk);
                    } else {
                        assert(label_seen(before, kk));
                        let m = choose|m: int| 0 <= m < old_cols.len() && old_cols[m].0 == kk;
                        assert(cols[m].0 == kk);
                    }
                }
                assert forall|a: int, b: int| 0 <= a < b < cols.len() implies text_lt(#[trigger] cols[a].0, #[trigger] cols[b].0) by {
                    assert(old_cols[a].0 == cols[a].0 && old_cols[b].0 == cols[b].0);
                }
            }
        } else {
            proof {
                if j < keys@.len() {
                    assert(!text_lt(keys@[j as int]@, k@));
                    assert(keys@[j as int]@ != k@);
                    lemma_text_lt_total(keys@[j as int]@, k@);
                    assert(text_lt(k@, keys@[j as int]@));
                }
                if label_seen(before, k@) {
                    let m = choose|m: int| 0 <= m < old_cols.len() && old_cols[m].0 == k@;
                    if m < j {
                        lemma_text_lt_irreflexive(k@);
                    } else if m == j {
                    } else {
                        assert(text_lt(old_cols[j as int].0, old_cols[m].0));
                    }
                    assert(false);
                }
                lemma_label_total_unseen(before, k@);
            }
            keys.insert(j, k);
            counts.insert(j, c as u64);
            proof {
                let cols = columns(keys@, counts@);
                assert forall|m: int| 0 <= m < cols.len() implies
                    cols[m] == (if m < j { old_cols[m] } else if m == j { (k@, c as nat) } else { old_cols[m - 1] }) by {}
                assert forall|a: int, b: int| 0 <= a < b < cols.len() implies text_lt(#[trigger] cols[a].0, #[trigger] cols[b].0) by {
                    if b == j {
                        assert(text_lt(old_cols[a].0, k@));
                    } else if a == j {
                        if b - 1 > j {
                            assert(text_lt(old_cols[j as int].0, old_cols[b - 1].0));
                            lemma_text_lt_transitive(k@, old_cols[j as int].0, old_cols[b - 1].0);
                        }
                    } else if a < j && b > j {
                        assert(text_lt(old_cols[a].0, k@));
                        if b - 1 > j {
                            assert(text_lt(old_cols[j as int].0, old_cols[b - 1].0));
                            lemma_text_lt_transitive(k@, old_cols[j as int].0, old_cols[b - 1].0);
                        }
                        lemma_text_lt_transitive(old_cols[a].0, k@, old_cols[b - 1].0);
                    } else if a > j {
                        assert(text_lt(old_cols[a - 1].0, old_cols[b - 1].0));
                    } else {
                        assert(text_lt(old_cols[a].0, old_cols[b].0));
                    }
                }
                assert forall|m: int| 0 <= m < cols.len() implies label_seen(after, #[trigger] cols[m].0)
                    && cols[m].1 == label_total(after, cols[m].0) by {
                    if m < j {
                        assert(text_lt(old_cols[m].0, k@));
                        if old_cols[m].0 == k@ { lemma_text_lt_irreflexive(k@); }
                    } else if m > j {
                        if old_cols[m - 1].0 == k@ {
                            if m - 1 == j {
                                lemma_text_lt_irreflexive(k@);
                            } else {
                                assert(text_lt(old_cols[j as int].0, old_cols[m - 1].0));
                                lemma_text_lt_transitive(k@, old_cols[j as int].0, k@);
                                lemma_text_lt_irreflexive(k@);
                            }
                        }
                    }
                }
                assert forall|kk: Seq<char>| #[trigger] label_seen(after, kk) implies exists|m: int| 0 <= m < cols.len() && cols[m].0 == kk by {
                    if kk == k@ {
                        assert(cols[j as int].0 == kk);
                    } else {
                        assert(label_seen(before, kk));
                        let m = choose|m: int| 0 <= m < old_cols.len() && old_cols[m].0 == kk;
                        if m < j {
                            assert(cols[m].0 == kk);
                        } else {
                            assert(cols[m + 1].0 == kk);
                        }
                    }
                }
            }
        }
        i += 1;
    }
    assert(s.take(i as int) =~= s);
    let ghost cols = columns(keys@, counts@);
    let mut r: Vec<(String, u64)> = Vec::new();
    let mut m: usize = 0;
    while m < keys.len()
        invariant
            keys@.len() == counts@.len(),
            cols == columns(keys@, counts@),
            m <= keys@.len(),
            labels_view(r@).map_values(|p: (Seq<char>, u64)| (p.0, p.1 as nat)) == cols.take(m as int),
        decreases keys.len() - m,
    {
        let ghost prev = r@;
        r.push((string_of(keys[m].as_slice()), counts[m]));
        assert(labels_view(r@) =~= labels_view(prev).push((keys@[m as int]@, counts@[m as int])));
        assert(labels_view(r@).map_values(|p: (Seq<char>, u64)| (p.0, p.1 as nat)) =~=
            labels_view(prev).map_values(|p: (Seq<char>, u64)| (p.0, p.1 as nat)).push((keys@[m as int]@, counts@[m as int] as nat)));
        assert(labels_view(r@).map_values(|p: (Seq<char>, u64)| (p.0, p.1 as nat)) =~= cols.take(m as int + 1));
        m += 1;
    }
    assert(cols.take(m as int) =~= cols);
    r
}

/// The sum of the counts of grouped rows.
pub open spec fn grouped_sum(r: Seq<(Seq<char>, nat)>) -> nat
    decreases r.len(),
{
    if r.len() == 0 { 0 } else { grouped_sum(r.drop_last()) + r.last().1 }
}

/// The sum of the totals in `s` of the labels `keys`.
pub open spec fn sum_totals(keys: Seq<Seq<char>>, s: Seq<(Seq<char>, usize)>) -> nat
    decreases keys.len(),
{
    if keys.len() == 0 { 0 } else { sum_totals(keys.drop_last(), s) + label_total(s, keys.last()) }
}

proof fn lemma_sum_totals_empty(keys: Seq<Seq<char>>, s: Seq<(Seq<char>, usize)>)
    requires
        s.len() == 0,
    ensures
        sum_totals(keys, s) == 0,
    decreases keys.len(),
{
    if keys.len() > 0 {
        lemma_sum_totals_empty(keys.drop_last(), s);
    }
}

proof fn lemma_sum_totals_step(keys: Seq<Seq<char>>, s: Seq<(Seq<char>, usize)>)
    requires
        s.len() > 0,
        keys.no_duplicates(),
    ensures
        sum_totals(keys, s) == sum_totals(keys, s.drop_last())
            + (if keys.contains(s.last().0) { s.last().1 as nat } else { 0 }),
    decreases keys.len(),
{
    if keys.len() > 0 {
        let init = keys.drop_last();
        assert(init.no_duplicates()) by {
            assert forall|a: int, b: int| 0 <= a < init.len() && 0 <= b < init.len() && a != b implies init[a] != init[b] by {
                assert(init[a] == keys[a] && init[b] == keys[b]);
            }
        }
        lemma_sum_totals_step(init, s);
        let k0 = s.last().0;
        if keys.last() == k0 {
            assert(!init.contains(k0)) by {
                if init.contains(k0) {
                    let a = choose|a: int| 0 <= a < init.len() && init[a] == k0;
                    assert(keys[a] == keys[keys.len() - 1]);
                }
            }
            assert(keys.contains(k0)) by { assert(keys[keys.len() - 1] == k0); }
        } else {
            assert(keys.contains(k0) == init.contains(k0)) by {
                if keys.contains(k0) {
                    let a = choose|a: int| 0 <= a < keys.len() && keys[a] == k0;
                    assert(a < keys.len() - 1);
                    assert(init[a] == k0);
                }
                if init.contains(k0) {
                    let a = choose|a: int| 0 <= a < init.len() && init[a] == k0;
                    assert(keys[a] == k0);
                }
            }
        }
    }
}

proof fn lemma_sum_totals_all(keys: Seq<Seq<char>>, s: Seq<(Seq<char>, usize)>)
    requires
        keys.no_duplicates(),
        forall|k: Seq<char>| #[trigger] label_seen(s, k) ==> keys.contains(k),
    ensures
        sum_totals(keys, s) == label_sum(s),
    decreases s.len(),
{
    if s.len() == 0 {
        lemma_sum_totals_empty(keys, s);
    } else {
        let init = s.drop_last();
        assert forall|k: Seq<char>| #[trigger] label_seen(init, k) implies keys.contains(k) by {
            assert(label_seen(s, k));
        }
        lemma_sum_totals_all(keys, init);
        lemma_sum_totals_step(keys, s);
        assert(label_seen(s, s.last().0));
    }
}

proof fn lemma_grouped_sum_totals(r: Seq<(Seq<char>, nat)>, s: Seq<(Seq<char>, usize)>)
    requires
        forall|i: int| 0 <= i < r.len() ==> #[trigger] r[i].1 == label_total(s, r[i].0),
    ensures
        grouped_sum(r) == sum_totals(r.map_values(|p: (Seq<char>, nat)| p.0), s),
    decreases r.len(),
{
    if r.len() > 0 {
        let init = r.drop_last();
        assert forall|i: int| 0 <= i < init.len() implies #[trigger] init[i].1 == label_total(s, init[i].0) by {
            assert(init[i] == r[i]);
        }
        lemma_grouped_sum_totals(init, s);
        assert(r.map_values(|p: (Seq<char>, nat)| p.0).drop_last() =~= init.map_values(|p: (Seq<char>, nat)| p.0));
        assert(r.last().1 == label_total(s, r.last().0)) by {
            assert(r[r.len() - 1] == r.last());
        }
    }
}

/// Every request counted in an interval appears in exactly one row of the daily or
/// weekly list: grouped rows add up to all the counts they group.
pub proof fn law_grouped_rows_count_every_request(r: Seq<(Seq<char>, nat)>, s: Seq<(Seq<char>, usize)>)
    requires
        grouped(r, s),
    ensures
        grouped_sum(r) == label_sum(s),
{
    let keys = r.map_values(|p: (Seq<char>, nat)| p.0);
    assert(keys.no_duplicates()) by {
        assert forall|a: int, b: int| 0 <= a < keys.len() && 0 <= b < keys.len() && a != b implies keys[a] != keys[b] by {
            if a < b {
                assert(text_lt(r[a].0, r[b].0));
            } else {
                assert(text_lt(r[b].0, r[a].0));
            }
            lemma_text_lt_irreflexive(r[a].0);
        }
    }
    assert forall|k: Seq<char>| #[trigger] label_seen(s, k) implies keys.contains(k) by {
        let i = choose|i: int| 0 <= i < r.len() && r[i].0 == k;
        assert(keys[i] == k);
    }
    assert forall|i: int| 0 <= i < r.len() implies #[trigger] r[i].1 == label_total(s, r[i].0) by {
        assert(label_seen(s, r[i].0));
    }
    lemma_grouped_sum_totals(r, s);
    lemma_sum_totals_all(keys, s);
}

/// The intervals of `s` labelled with their UTC dates.
pub open spec fn day_labels(s: Seq<(i64, usize)>) -> Seq<(Seq<char>, usize)> {
    s.map_values(|p: (i64, usize)| (utc_day_label(p.0), p.1))
}

/// The intervals of `s` labelled with their ISO weeks.
pub open spec fn week_labels(s: Seq<(i64, usize)>) -> Seq<(Seq<char>, usize)> {
    s.map_values(|p: (i64, usize)| (utc_week_label(p.0), p.1))
}

/// Grouped rows with their counts as numbers.
pub open spec fn grouped_view(r: Seq<(String, u64)>) -> Seq<(Seq<char>, nat)> {
    labels_view(r).map_values(|p: (Seq<char>, u64)| (p.0, p.1 as nat))
}

proof fn lemma_label_sum_relabel(s: Seq<(i64, usize)>, t: Seq<(Seq<char>, usize)>)
    requires
        t.len() == s.len(),
        forall|i: int| 0 <= i < s.len() ==> #[trigger] t[i].1 == s[i].1,
    ensures
        label_sum(t) == total_count(s),
    decreases s.len(),
{
    if s.len() > 0 {
        lemma_label_sum_relabel(s.drop_last(), t.drop_last());
    }
}

/// The daily and weekly lists count every request of the intervals exactly once.
pub proof fn law_calendar_rows_count_every_request(r: Seq<(Seq<char>, nat)>, s: Seq<(i64, usize)>, weekly: bool)
    requires
        grouped(r, if weekly { week_labels(s) } else { day_labels(s) }),
    ensures
        grouped_sum(r) == total_count(s),
{
    let t = if weekly { week_labels(s) } else { day_labels(s) };
    law_grouped_rows_count_every_request(r, t);
    assert forall|i: int| 0 <= i < s.len() implies #[trigger] t[i].1 == s[i].1 by {}
    lemma_label_sum_relabel(s, t);
}

/// Labels each interval of `entries` with its date (`weekly` false) or its ISO week.
fn label_intervals(entries: &Vec<(i64, usize)>, weekly: bool) -> (r: Vec<(String, usize)>)
    requires
        all_representable(entries@),
    ensures
        labels_view(r@) == (if weekly { week_labels(entries@) } else { day_labels(entries@) }),
{
    let mut r: Vec<(String, usize)> = Vec::new();
    let mut i: usize = 0;
    while i < entries.len()
        invariant
            i <= entries@.len(),
            all_representable(entries@),
            labels_view(r@) == (if weekly { week_labels(entries@) } else { day_labels(entries@) }).take(i as int),
        decreases entries.len() - i,
    {
        let (ts, c) = entries[i];
        assert(utc_representable(entries@[i as int].0 as int));
        let label = if weekly { week_label(ts) } else { day_label(ts) };
        let ghost prev = r@;
        r.push((label, c));
        assert(labels_view(r@) =~= labels_view(prev).push((label@, c)));
        assert(labels_view(r@) =~= (if weekly { week_labels(entries@) } else { day_labels(entries@) }).take(i as int + 1));
        i += 1;
    }
    assert((if weekly { week_labels(entries@) } else { day_labels(entries@) }).take(i as int)
        =~= (if weekly { week_labels(entries@) } else { day_labels(entries@) }));
    r
}

fn grouped_intervals(log_data: &LogData, weekly: bool) -> (r: Vec<(String, u64)>)
    requires
        keys_representable(log_data.requests_per_interval@),
        counts_fit(log_data.requests_per_interval@),
    ensures
        exists|s: Seq<(i64, usize)>| lists_entries(s, log_data.requests_per_interval@)
            && grouped(grouped_view(r@), if weekly { week_labels(s) } else { day_labels(s) }),
{
    let entries = interval_pairs(&log_data.requests_per_interval);
    proof {
        let s = entries@;
        assert(total_count(s) <= u64::MAX);
        assert forall|i: int| 0 <= i < s.len() implies utc_representable(#[trigger] s[i].0 as int) by {
            assert(log_data.requests_per_interval@.contains_key(s[i].0));
        }
    }
    let labels = label_intervals(&entries, weekly);
    proof {
        let t = if weekly { week_labels(entries@) } else { day_labels(entries@) };
        assert forall|i: int| 0 <= i < entries@.len() implies #[trigger] t[i].1 == entries@[i].1 by {}
        lemma_label_sum_relabel(entries@, t);
    }
    let r = group_labels(&labels);
    assert(grouped_view(r@) == labels_view(r@).map_values(|p: (Seq<char>, u64)| (p.0, p.1 as nat)));
    r
}

/// The rows of the daily list: each UTC date on which requests were counted, in
/// increasing order, with its number of requests.
pub fn daily_data(log_data: &LogData) -> (r: Vec<(String, u64)>)
    requires
        keys_representable(log_data.requests_per_interval@),
        counts_fit(log_data.requests_per_interval@),
    ensures
        exists|s: Seq<(i64, usize)>| lists_entries(s, log_data.requests_per_interval@)
            && grouped(grouped_view(r@), day_labels(s)),
{
    grouped_intervals(log_data, false)
}

/// The rows of the weekly list: each ISO week (with the calendar year) in which
/// requests were counted, in increasing order of its label, with its number of requests.
pub fn weekly_data(log_data: &LogData) -> (r: Vec<(String, u64)>)
    requires
        keys_representable(log_data.requests_per_interval@),
        counts_fit(log_data.requests_per_interval@),
    ensures
        exists|s: Seq<(i64, usize)>| lists_entries(s, log_data.requests_per_interval@)
            && grouped(grouped_view(r@), week_labels(s)),
{
    grouped_intervals(log_data, true)
}

} // verus!
