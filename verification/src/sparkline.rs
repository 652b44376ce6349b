//! The request-trend tab: the counts it plots and the figures in its title.
use vstd::prelude::*;
use crate::text::{decimal, push_decimal, push_str, string_of};

verus! {

/// The request-trend tab.
pub struct SparklineTab;

/// The sum of `s`.
pub open spec fn total(s: Seq<u64>) -> nat
    decreases s.len(),
{
    if s.len() == 0 { 0 } else { total(s.drop_last()) + (s.last() as nat) }
}

/// The largest element of `s` (0 for none).
pub open spec fn largest(s: Seq<u64>) -> nat
    decreases s.len(),
{
    if s.len() == 0 {
        0
    } else if s.last() >= largest(s.drop_last()) {
        s.last() as nat
    } else {
        largest(s.drop_last())
    }
}

/// The counts of a series of `(interval, count)` pairs, at most `width` of them.
pub open spec fn plotted(series: Seq<(i64, usize)>, width: nat) -> Seq<u64> {
    let c = series.map_values(|p: (i64, usize)| p.1 as u64);
    if c.len() > width { c.take(width as int) } else { c }
}

/// The title of a plot of `data`: its total, its mean (rounded down) and its largest value.
pub open spec fn plot_title(data: Seq<u64>) -> Seq<char> {
    "📈 Requests Sparkline (Total: "@ + decimal(total(data)) + ", Avg: "@
        + decimal(total(data) / data.len()) + ", Max: "@ + decimal(largest(data)) + ")"@
}

impl SparklineTab {
    /// The tab.
    pub fn new() -> (r: Self)
        ensures
            r == SparklineTab,
    {
        SparklineTab
    }

    /// The counts to plot, one per interval, as many as fit in `width` columns.
    pub fn plotted_counts(series: &Vec<(i64, usize)>, width: usize) -> (r: Vec<u64>)
        ensures
            r@ == plotted(series@, width as nat),
    {
        let mut r: Vec<u64> = Vec::new();
        let mut i: usize = 0;
        while i < series.len()
            invariant
                i <= series@.len(),
                r@ == series@.take(i as int).map_values(|p: (i64, usize)| p.1 as u64),
            decreases series.len() - i,
        {
            r.push(series[i].1 as u64);
            assert(series@.take(i as int + 1).map_values(|p: (i64, usize)| p.1 as u64)
                =~= series@.take(i as int).map_values(|p: (i64, usize)| p.1 as u64).push(series@[i as int].1 as u64));
            i += 1;
        }
        assert(series@.take(i as int) =~= series@);
        r.truncate(width);
        assert(r@ =~= plotted(series@, width as nat));
        r
    }

    /// The title of the plot of `data`, or nothing when there is no data.
    pub fn plot_title(data: &Vec<u64>) -> (r: Option<String>)
        requires
            total(data@) <= u64::MAX,
        ensures
            data@.len() == 0 ==> r is None,
            data@.len() > 0 ==> (r matches Some(t) && t@ == plot_title(data@)),
    {
        if data.len() == 0 {
            return None;
        }
        let mut sum: u64 = 0;
        let mut max: u64 = 0;
        let mut i: usize = 0;
        while i < data.len()
            invariant
                i <= data@.len(),
                total(data@) <= u64::MAX,
                sum == total(data@.take(i as int)),
                max == largest(data@.take(i as int)),
            decreases data.len() - i,
        {
            proof {
                assert(data@.take(i as int + 1).drop_last() =~= data@.take(i as int));
                lemma_total_prefix(data@, i as int + 1);
            }
            sum = sum + data[i];
            if data[i] >= max {
                max = data[i];
            }
            i += 1;
        }
        assert(data@.take(i as int) =~= data@);
        let avg = sum / (data.len() as u64);
        let mut v: Vec<char> = Vec::new();
        push_str(&mut v, "📈 Requests Sparkline (Total: ");
        push_decimal(&mut v, sum);
        push_str(&mut v, ", Avg: ");
        push_decimal(&mut v, avg);
        push_str(&mut v, ", Max: ");
        push_decimal(&mut v, max);
        push_str(&mut v, ")");
        Some(string_of(v.as_slice()))
    }
}

proof fn lemma_total_prefix(s: Seq<u64>, i: int)
    requires
        0 <= i <= s.len(),
    ensures
        total(s.take(i)) <= total(s),
    decreases s.len(),
{
    if i < s.len() {
        assert(s.drop_last().take(i) =~= s.take(i));
        lemma_total_prefix(s.drop_last(), i);
    } else {
        assert(s.take(i) =~= s);
    }
}

impl Default for SparklineTab {
    /// The tab (as `SparklineTab::new`).
    fn default() -> (r: Self)
        ensures
            r == SparklineTab,
    {
        SparklineTab::new()
    }
}

} // verus!
