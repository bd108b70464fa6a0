//! Reports: intervals summed into a table of projects by weekdays.

use vstd::prelude::*;
use crate::bounds::{
    lemma_cells_sum_bound, lemma_column_total_bound, lemma_columns_sum_bound,
    lemma_seconds_bound, lemma_tally_bound, lengths_fit, span, tally, within,
};
use crate::interval::{Interval, IntervalModel};
use crate::options::Options;
use crate::order::{ascending, precedes, rank, Rank, lemma_precedes_irreflexive};
use crate::render::{push_header, push_row, push_separator, render_text, rows_text};
use crate::sums::{
    cell, cell_values, cells_sum, column_total, columns_sum, falls_in, insert_label, label_width,
    lemma_absent_project, lemma_insert_label_at, lemma_project_labels, occurs, project_labels,
    project_rows, report_of, row_cells, seconds_in, tenths, totals_cells, ReportModel, RowModel,
    COLUMN_WIDTH, TOTALS_WIDTH, WEEKDAYS,
};

verus! {

/// What a sequence of intervals stands for.
pub open spec fn models(intervals: Seq<Interval>) -> Seq<IntervalModel> {
    intervals.map_values(|iv: Interval| iv@)
}

/// The seconds of one project, by weekday.
struct Tally {
    label: String,
    seconds: Vec<i128>,
}

/// The labels of `rows`, in their order.
spec fn tally_labels(rows: Seq<Tally>) -> Seq<Seq<char>> {
    rows.map_values(|t: Tally| t.label@)
}

/// Whether `rows` holds the seconds of the intervals `ivs`, by project in
/// ascending order and by weekday.
spec fn tallies(rows: Seq<Tally>, ivs: Seq<IntervalModel>) -> bool {
    &&& tally_labels(rows) == project_labels(ivs)
    &&& forall|r: int|
        0 <= r < rows.len() ==> (#[trigger] rows[r]).seconds@.len() == WEEKDAYS as nat
    &&& forall|r: int, d: int|
        0 <= r < rows.len() && 0 <= d < WEEKDAYS as int ==> (#[trigger] rows[r].seconds@[d]) as int
            == seconds_in(ivs, rows[r].label@, d)
}

/// A vector of `n` zeros.
fn zeros(n: usize) -> (r: Vec<i128>)
    ensures
        r@.len() == n,
        forall|i: int| 0 <= i < n ==> r@[i] == 0,
{
    let mut v: Vec<i128> = Vec::new();
    let mut i: usize = 0;
    while i < n
        invariant
            i <= n,
            v@.len() == i,
            forall|k: int| 0 <= k < i ==> v@[k] == 0,
        decreases n - i,
    {
        v.push(0);
        i += 1;
    }
    v
}

/// The position in `rows` at which `label` stands or belongs.
fn find_slot(rows: &Vec<Tally>, label: &str) -> (r: (usize, bool))
    ensures
        r.0 <= rows@.len(),
        forall|k: int| 0 <= k < r.0 ==> precedes(#[trigger] tally_labels(rows@)[k], label@),
        r.1 ==> r.0 < rows@.len() && tally_labels(rows@)[r.0 as int] == label@,
        !r.1 && r.0 < rows@.len() ==> precedes(label@, tally_labels(rows@)[r.0 as int]),
{
    let mut pos: usize = 0;
    while pos < rows.len()
        invariant
            pos <= rows@.len(),
            forall|k: int| 0 <= k < pos ==> precedes(#[trigger] tally_labels(rows@)[k], label@),
        decreases rows@.len() - pos,
    {
        match rank(rows[pos].label.as_str(), label) {
            Rank::Before => {
                pos += 1;
            },
            Rank::Same => {
                return (pos, true);
            },
            Rank::After => {
                return (pos, false);
            },
        }
    }
    (pos, false)
}

/// What one more interval changes in the labels and in the seconds.
proof fn lemma_one_more_interval(ivs: Seq<IntervalModel>, v: IntervalModel)
    ensures
        project_labels(ivs.push(v)) == insert_label(project_labels(ivs), v.project),
        forall|label: Seq<char>, d: int| #[trigger]
            seconds_in(ivs.push(v), label, d) == seconds_in(ivs, label, d) + if falls_in(
                v,
                label,
                d,
            ) {
                v.seconds
            } else {
                0
            },
        lengths_fit(ivs) && -span(1) <= v.seconds < span(1) ==> lengths_fit(ivs.push(v)),
{
    assert(ivs.push(v).drop_last() =~= ivs);
    assert(ivs.push(v).last() == v);
}

/// Sums the seconds of `intervals` by project and weekday.
fn accumulate(intervals: &Vec<Interval>) -> (rows: Vec<Tally>)
    ensures
        tallies(rows@, models(intervals@)),
        lengths_fit(models(intervals@)),
        models(intervals@).len() <= usize::MAX,
{
    let mut rows: Vec<Tally> = Vec::new();
    let mut k: usize = 0;
    let ghost all = models(intervals@);
    proof {
        assert(all.take(0) =~= Seq::empty());
        assert(tally_labels(rows@) =~= project_labels(all.take(0)));
    }
    while k < intervals.len()
        invariant
            k <= intervals@.len(),
            all == models(intervals@),
            tallies(rows@, all.take(k as int)),
            lengths_fit(all.take(k as int)),
        decreases intervals@.len() - k,
    {
        let iv = &intervals[k];
        let label = iv.project();
        let day: usize = iv.weekday() as usize;
        let secs: i64 = iv.total_seconds();
        let ghost before = all.take(k as int);
        let ghost next = all.take(k + 1);
        let ghost labels = tally_labels(rows@);
        let ghost was = rows@;
        let (pos, found) = find_slot(&rows, label);
        proof {
            assert(next =~= before.push(iv@));
            lemma_one_more_interval(before, iv@);
            lemma_project_labels(before);
            if pos < rows@.len() {
                if found {
                    lemma_precedes_irreflexive(label@);
                } else {
                    crate::order::lemma_precedes_asymmetric(label@, labels[pos as int]);
                }
            }
            lemma_insert_label_at(labels, label@, pos as int);
            lemma_seconds_bound(before, label@, day as int);
            lemma_tally_bound(before, seq![label@], day as int, day + 1);
        }
        if found {
            let sum: i128 = rows[pos].seconds[day] + secs as i128;
            rows[pos].seconds[day] = sum;
            proof {
                assert(tally_labels(rows@) =~= labels);
                assert forall|r: int, d: int|
                    0 <= r < rows@.len() && 0 <= d < WEEKDAYS as int implies (
                #[trigger] rows@[r].seconds@[d]) as int == seconds_in(next, rows@[r].label@, d) by {
                    assert(rows@[r].label@ == labels[r]);
                    assert(was[r].label@ == labels[r]);
                    if r != pos {
                        if labels[r] == label@ {
                            if r < pos {
                                lemma_precedes_irreflexive(label@);
                            } else {
                                assert(precedes(labels[pos as int], labels[r]));
                                lemma_precedes_irreflexive(label@);
                            }
                        }
                    }
                }
            }
        } else {
            let mut seconds = zeros(WEEKDAYS);
            seconds[day] = secs as i128;
            rows.insert(pos, Tally { label: label.to_owned(), seconds });
            proof {
                assert(tally_labels(rows@) =~= labels.insert(pos as int, label@));
                assert(!occurs(before, label@)) by {
                    if labels.contains(label@) {
                        let j = choose|j: int| 0 <= j < labels.len() && labels[j] == label@;
                        lemma_precedes_irreflexive(label@);
                        if j > pos {
                            assert(precedes(labels[pos as int], labels[j]));
                            crate::order::lemma_precedes_asymmetric(label@, labels[pos as int]);
                        }
                    }
                }
                assert forall|r: int, d: int|
                    0 <= r < rows@.len() && 0 <= d < WEEKDAYS as int implies (
                #[trigger] rows@[r].seconds@[d]) as int == seconds_in(next, rows@[r].label@, d) by {
                    if r == pos {
                        lemma_absent_project(before, label@, d);
                    } else if r < pos {
                        assert(rows@[r] == was[r]);
                        assert(was[r].label@ == labels[r]);
                        lemma_precedes_irreflexive(label@);
                    } else {
                        assert(rows@[r] == was[r - 1]);
                        assert(was[r - 1].label@ == labels[r - 1]);
                        if labels[r - 1] == label@ {
                            assert(labels.contains(label@));
                        }
                    }
                }
            }
        }
        k += 1;
    }
    proof {
        assert(all.take(k as int) =~= all);
    }
    rows
}

/// A number of seconds as tenths of an hour.
fn to_tenths(seconds: i128) -> (r: i128)
    requires
        within(seconds as int, usize::MAX as nat),
    ensures
        r == tenths(seconds as int),
{
    if seconds >= 0 {
        (seconds + 180) / 360
    } else {
        -((180 - seconds) / 360)
    }
}

/// One row of a report.
#[derive(Debug)]
struct Row {
    label: String,
    cells: Vec<i128>,
}

impl View for Row {
    type V = RowModel;

    closed spec fn view(&self) -> RowModel {
        RowModel { label: self.label@, cells: cell_values(self.cells@) }
    }
}

/// The weekly table: hours by project and weekday, in tenths of an hour.
#[derive(Debug)]
pub struct Report {
    data: Vec<Row>,
    totals: Vec<i128>,
    column_width: usize,
    tag_width: usize,
}

impl View for Report {
    type V = ReportModel;

    closed spec fn view(&self) -> ReportModel {
        ReportModel {
            rows: self.data@.map_values(|row: Row| row@),
            totals: cell_values(self.totals@),
            column_width: self.column_width as nat,
            tag_width: self.tag_width as nat,
        }
    }
}

/// The row of the project whose seconds `tally` holds, with its cells added
/// to the column totals.
fn make_row(
    tally: &Tally,
    totals: &mut Vec<i128>,
    Ghost(ivs): Ghost<Seq<IntervalModel>>,
    Ghost(done): Ghost<Seq<Seq<char>>>,
) -> (row: Row)
    requires
        lengths_fit(ivs),
        ivs.len() <= usize::MAX,
        ascending(done.push(tally.label@)),
        tally.seconds@.len() == WEEKDAYS as nat,
        forall|d: int|
            0 <= d < WEEKDAYS as int ==> (#[trigger] tally.seconds@[d]) as int == seconds_in(
                ivs,
                tally.label@,
                d,
            ),
        old(totals)@.len() == WEEKDAYS + 1,
        forall|d: int|
            0 <= d < WEEKDAYS as int ==> (#[trigger] old(totals)@[d]) as int == column_total(
                ivs,
                done,
                d,
            ),
    ensures
        row@ == (RowModel { label: tally.label@, cells: row_cells(ivs, tally.label@) }),
        final(totals)@.len() == WEEKDAYS + 1,
        forall|d: int|
            0 <= d < WEEKDAYS as int ==> (#[trigger] final(totals)@[d]) as int == column_total(
                ivs,
                done.push(tally.label@),
                d,
            ),
        final(totals)@[WEEKDAYS as int] == old(totals)@[WEEKDAYS as int],
{
    let ghost label = tally.label@;
    let ghost labels = done.push(label);
    let mut cells: Vec<i128> = Vec::new();
    let mut total: i128 = 0;
    let mut d: usize = 0;
    let ghost grand = totals@[WEEKDAYS as int];
    proof {
        assert(labels.drop_last() =~= done);
    }
    while d < WEEKDAYS
        invariant
            d <= WEEKDAYS,
            lengths_fit(ivs),
            ivs.len() <= usize::MAX,
            ascending(labels),
            labels == done.push(label),
            labels.drop_last() == done,
            label == tally.label@,
            tally.seconds@.len() == WEEKDAYS as nat,
            forall|e: int|
                0 <= e < WEEKDAYS as int ==> (#[trigger] tally.seconds@[e]) as int == seconds_in(
                    ivs,
                    label,
                    e,
                ),
            cells@.len() == d,
            forall|e: int| 0 <= e < d ==> (#[trigger] cells@[e]) as int == cell(ivs, label, e),
            total == cells_sum(ivs, label, d as int),
            totals@.len() == WEEKDAYS + 1,
            totals@[WEEKDAYS as int] == grand,
            forall|e: int| 0 <= e < d ==> (#[trigger] totals@[e]) as int == column_total(ivs, labels, e),
            forall|e: int|
                d <= e < WEEKDAYS as int ==> (#[trigger] totals@[e]) as int == column_total(
                    ivs,
                    done,
                    e,
                ),
        decreases WEEKDAYS - d,
    {
        proof {
            lemma_seconds_bound(ivs, label, d as int);
            lemma_tally_bound(ivs, seq![label], d as int, d + 1);
            lemma_cells_sum_bound(ivs, label, d + 1);
            lemma_tally_bound(ivs, seq![label], 0, d + 1);
            lemma_column_total_bound(ivs, labels, d as int);
            lemma_tally_bound(ivs, labels, d as int, d + 1);
        }
        let c: i128 = to_tenths(tally.seconds[d]);
        cells.push(c);
        total = total + c;
        let column: i128 = totals[d] + c;
        totals[d] = column;
        d += 1;
    }
    cells.push(total);
    let row = Row { label: tally.label.clone(), cells };
    proof {
        assert(row@.cells =~= row_cells(ivs, label));
    }
    row
}

impl Report {
    /// Builds the report on `intervals`: one row for each project that
    /// occurs, in ascending order of label, and the row of totals.
    ///
    /// The seconds of each project and weekday are summed and then rounded
    /// to tenths of an hour; every total is a sum of rounded cells.
    pub fn from_intervals(_options: &Options, intervals: &Vec<Interval>) -> (report: Report)
        ensures
            report@ == report_of(models(intervals@)),
    {
        let rows = accumulate(intervals);
        let ghost ivs = models(intervals@);
        let ghost labels = tally_labels(rows@);
        let mut data: Vec<Row> = Vec::new();
        let mut totals = zeros(WEEKDAYS + 1);
        let mut tag_width: usize = TOTALS_WIDTH;
        let mut r: usize = 0;
        proof {
            lemma_project_labels(ivs);
            assert(labels.take(0) =~= Seq::empty());
        }
        while r < rows.len()
            invariant
                r <= rows@.len(),
                tallies(rows@, ivs),
                labels == tally_labels(rows@),
                ascending(labels),
                lengths_fit(ivs),
                ivs.len() <= usize::MAX,
                data@.len() == r,
                forall|i: int|
                    0 <= i < r ==> (#[trigger] data@[i])@ == (RowModel {
                        label: labels[i],
                        cells: row_cells(ivs, labels[i]),
                    }),
                totals@.len() == WEEKDAYS + 1,
                totals@[WEEKDAYS as int] == 0,
                forall|d: int|
                    0 <= d < WEEKDAYS as int ==> (#[trigger] totals@[d]) as int == column_total(
                        ivs,
                        labels.take(r as int),
                        d,
                    ),
                tag_width == label_width(labels.take(r as int)),
            decreases rows@.len() - r,
        {
            let ghost done = labels.take(r as int);
            proof {
                assert(labels[r as int] == rows@[r as int].label@);
                assert(done.push(labels[r as int]) =~= labels.take(r + 1));
                assert(labels.take(r + 1).drop_last() =~= done);
            }
            let row = make_row(&rows[r], &mut totals, Ghost(ivs), Ghost(done));
            let n: usize = rows[r].label.as_str().as_bytes().len();
            if n > tag_width {
                tag_width = n;
            }
            data.push(row);
            r += 1;
        }
        proof {
            assert(labels.take(r as int) =~= labels);
        }
        let mut total: i128 = 0;
        let mut d: usize = 0;
        while d < WEEKDAYS
            invariant
                d <= WEEKDAYS,
                ascending(labels),
                lengths_fit(ivs),
                ivs.len() <= usize::MAX,
                totals@.len() == WEEKDAYS + 1,
                forall|e: int|
                    0 <= e < WEEKDAYS as int ==> (#[trigger] totals@[e]) as int == column_total(
                        ivs,
                        labels,
                        e,
                    ),
                total == columns_sum(ivs, labels, d as int),
            decreases WEEKDAYS - d,
        {
            proof {
                lemma_columns_sum_bound(ivs, labels, d + 1);
                lemma_tally_bound(ivs, labels, 0, d + 1);
            }
            total = total + totals[d];
            d += 1;
        }
        totals[WEEKDAYS] = total;
        let report = Report { data, totals, column_width: COLUMN_WIDTH, tag_width };
        proof {
            assert(report@.rows =~= project_rows(ivs, labels));
            assert(report@.totals =~= totals_cells(ivs, labels));
        }
        report
    }

    /// The report as a table: header, separator, one line for each project,
    /// separator, totals; every line ends with a newline.
    pub fn render(&self) -> (text: String)
        ensures
            text@ == render_text(self@),
    {
        let ghost rows = self@.rows;
        let ghost tw = self.tag_width as nat;
        let ghost cw = self.column_width as nat;
        let mut out = String::new();
        push_header(&mut out, self.tag_width, self.column_width);
        push_separator(&mut out, self.tag_width, self.column_width);
        let ghost head = out@;
        let mut i: usize = 0;
        proof {
            assert(rows.take(0) =~= Seq::empty());
            assert(out@ =~= head + rows_text(rows.take(0), tw, cw));
        }
        while i < self.data.len()
            invariant
                i <= self.data@.len(),
                rows == self@.rows,
                tw == self.tag_width as nat,
                cw == self.column_width as nat,
                out@ == head + rows_text(rows.take(i as int), tw, cw),
            decreases self.data@.len() - i,
        {
            let row = &self.data[i];
            push_row(&mut out, row.label.as_str(), &row.cells, self.tag_width, self.column_width);
            proof {
                let next = rows.take(i + 1);
                assert(next.drop_last() =~= rows.take(i as int));
                assert(next.last() == row@);
                assert(out@ =~= head + rows_text(next, tw, cw));
            }
            i += 1;
        }
        proof {
            assert(rows.take(i as int) =~= rows);
        }
        push_separator(&mut out, self.tag_width, self.column_width);
        push_row(&mut out, "totals", &self.totals, self.tag_width, self.column_width);
        proof {
            assert(out@ =~= render_text(self@));
        }
        out
    }
}

} // verus!
