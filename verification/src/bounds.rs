//! How large the sums of a report can get: every sum of cells is bounded by
//! the number of intervals that count towards it.

use vstd::prelude::*;
use crate::interval::IntervalModel;
use crate::order::{ascending, lemma_precedes_irreflexive};
use crate::sums::{cell, cells_sum, column_total, columns_sum, seconds_in, tenths};

verus! {

/// Largest magnitude that the lengths of `count` intervals can add up to.
pub open spec fn span(count: nat) -> int {
    0x8000_0000_0000_0000int * count
}

/// Whether the magnitude of `value` is at most what `count` intervals can
/// add up to.
pub open spec fn within(value: int, count: nat) -> bool {
    -span(count) <= value <= span(count)
}

/// Whether the length of every interval fits in 64 bits.
pub open spec fn lengths_fit(ivs: Seq<IntervalModel>) -> bool {
    forall|i: int| 0 <= i < ivs.len() ==> -span(1) <= (#[trigger] ivs[i]).seconds < span(1)
}

/// Number of intervals whose project is among `labels` and whose weekday is
/// at least `lo` and below `hi`.
pub open spec fn tally(ivs: Seq<IntervalModel>, labels: Seq<Seq<char>>, lo: int, hi: int) -> nat
    decreases ivs.len(),
{
    if ivs.len() == 0 {
        0
    } else if labels.contains(ivs.last().project) && lo <= ivs.last().weekday < hi {
        tally(ivs.drop_last(), labels, lo, hi) + 1
    } else {
        tally(ivs.drop_last(), labels, lo, hi)
    }
}

/// No more intervals are counted than there are.
pub proof fn lemma_tally_bound(ivs: Seq<IntervalModel>, labels: Seq<Seq<char>>, lo: int, hi: int)
    ensures
        tally(ivs, labels, lo, hi) <= ivs.len(),
    decreases ivs.len(),
{
    if ivs.len() > 0 {
        lemma_tally_bound(ivs.drop_last(), labels, lo, hi);
    }
}

/// Counting for one more label adds the count of that label alone.
pub proof fn lemma_tally_push(
    ivs: Seq<IntervalModel>,
    labels: Seq<Seq<char>>,
    label: Seq<char>,
    lo: int,
    hi: int,
)
    requires
        !labels.contains(label),
    ensures
        tally(ivs, labels.push(label), lo, hi) == tally(ivs, labels, lo, hi) + tally(
            ivs,
            seq![label],
            lo,
            hi,
        ),
    decreases ivs.len(),
{
    broadcast use vstd::seq_lib::lemma_seq_contains_after_push;

    if ivs.len() > 0 {
        lemma_tally_push(ivs.drop_last(), labels, label, lo, hi);
        let p = ivs.last().project;
        assert(seq![label][0] == label);
        assert(seq![label].contains(p) <==> p == label);
    }
}

/// Counting over a range of weekdays adds the counts of its two parts.
pub proof fn lemma_tally_split(
    ivs: Seq<IntervalModel>,
    labels: Seq<Seq<char>>,
    lo: int,
    mid: int,
    hi: int,
)
    requires
        lo <= mid <= hi,
    ensures
        tally(ivs, labels, lo, hi) == tally(ivs, labels, lo, mid) + tally(ivs, labels, mid, hi),
    decreases ivs.len(),
{
    if ivs.len() > 0 {
        lemma_tally_split(ivs.drop_last(), labels, lo, mid, hi);
    }
}

/// Rounding to tenths of an hour never moves a value away from zero.
pub proof fn lemma_tenths_bound(seconds: int)
    ensures
        seconds >= 0 ==> 0 <= tenths(seconds) <= seconds,
        seconds <= 0 ==> seconds <= tenths(seconds) <= 0,
{
}

/// The seconds of one project on one weekday are bounded by the number of
/// intervals that count towards them.
pub proof fn lemma_seconds_bound(ivs: Seq<IntervalModel>, label: Seq<char>, day: int)
    requires
        lengths_fit(ivs),
    ensures
        within(seconds_in(ivs, label, day), tally(ivs, seq![label], day, day + 1)),
    decreases ivs.len(),
{
    if ivs.len() > 0 {
        let rest = ivs.drop_last();
        assert forall|i: int| 0 <= i < rest.len() implies -span(1) <= (#[trigger] rest[i]).seconds
            < span(1) by {
            assert(rest[i] == ivs[i]);
        }
        lemma_seconds_bound(rest, label, day);
        let p = ivs.last().project;
        assert(seq![label][0] == label);
        assert(seq![label].contains(p) <==> p == label);
        assert(-span(1) <= ivs[ivs.len() - 1].seconds < span(1));
    }
}

/// A cell is bounded as the seconds behind it are.
pub proof fn lemma_cell_bound(ivs: Seq<IntervalModel>, label: Seq<char>, day: int)
    requires
        lengths_fit(ivs),
    ensures
        within(cell(ivs, label, day), tally(ivs, seq![label], day, day + 1)),
{
    lemma_seconds_bound(ivs, label, day);
    lemma_tenths_bound(seconds_in(ivs, label, day));
}

/// The sum of the cells of a row is bounded by the intervals of its project.
pub proof fn lemma_cells_sum_bound(ivs: Seq<IntervalModel>, label: Seq<char>, days: int)
    requires
        lengths_fit(ivs),
        0 <= days,
    ensures
        within(cells_sum(ivs, label, days), tally(ivs, seq![label], 0, days)),
    decreases days,
{
    if days > 0 {
        lemma_cells_sum_bound(ivs, label, days - 1);
        lemma_cell_bound(ivs, label, days - 1);
        lemma_tally_split(ivs, seq![label], 0, days - 1, days);
    } else {
        lemma_tally_empty_range(ivs, seq![label], 0, days);
    }
}

/// An empty range of weekdays counts nothing.
pub proof fn lemma_tally_empty_range(
    ivs: Seq<IntervalModel>,
    labels: Seq<Seq<char>>,
    lo: int,
    hi: int,
)
    requires
        hi <= lo,
    ensures
        tally(ivs, labels, lo, hi) == 0,
    decreases ivs.len(),
{
    if ivs.len() > 0 {
        lemma_tally_empty_range(ivs.drop_last(), labels, lo, hi);
    }
}

/// No labels count nothing.
pub proof fn lemma_tally_no_labels(ivs: Seq<IntervalModel>, lo: int, hi: int)
    ensures
        tally(ivs, Seq::<Seq<char>>::empty(), lo, hi) == 0,
    decreases ivs.len(),
{
    if ivs.len() > 0 {
        lemma_tally_no_labels(ivs.drop_last(), lo, hi);
    }
}

/// A column total is bounded by the intervals on its weekday.
pub proof fn lemma_column_total_bound(ivs: Seq<IntervalModel>, labels: Seq<Seq<char>>, day: int)
    requires
        lengths_fit(ivs),
        ascending(labels),
    ensures
        within(column_total(ivs, labels, day), tally(ivs, labels, day, day + 1)),
    decreases labels.len(),
{
    if labels.len() > 0 {
        let rest = labels.drop_last();
        let last = labels.last();
        assert forall|i: int, j: int| 0 <= i < j < rest.len() implies crate::order::precedes(
            rest[i],
            rest[j],
        ) by {
            assert(rest[i] == labels[i] && rest[j] == labels[j]);
        }
        lemma_column_total_bound(ivs, rest, day);
        lemma_cell_bound(ivs, last, day);
        assert(!rest.contains(last)) by {
            if rest.contains(last) {
                let k = choose|k: int| 0 <= k < rest.len() && rest[k] == last;
                assert(rest[k] == labels[k]);
                lemma_precedes_irreflexive(last);
            }
        }
        lemma_tally_push(ivs, rest, last, day, day + 1);
        assert(labels =~= rest.push(last));
    } else {
        assert(labels =~= Seq::<Seq<char>>::empty());
        lemma_tally_no_labels(ivs, day, day + 1);
    }
}

/// The sum of the column totals is bounded by the intervals of the week.
pub proof fn lemma_columns_sum_bound(ivs: Seq<IntervalModel>, labels: Seq<Seq<char>>, days: int)
    requires
        lengths_fit(ivs),
        ascending(labels),
        0 <= days,
    ensures
        within(columns_sum(ivs, labels, days), tally(ivs, labels, 0, days)),
    decreases days,
{
    if days > 0 {
        lemma_columns_sum_bound(ivs, labels, days - 1);
        lemma_column_total_bound(ivs, labels, days - 1);
        lemma_tally_split(ivs, labels, 0, days - 1, days);
    } else {
        lemma_tally_empty_range(ivs, labels, 0, days);
    }
}

} // verus!
