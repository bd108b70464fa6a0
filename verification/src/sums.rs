//! What a report holds, stated over the sequence of intervals it is built from.

use vstd::prelude::*;
use vstd::utf8::encode_utf8;
use crate::interval::IntervalModel;
use crate::order::{ascending, precedes, lemma_precedes_irreflexive, lemma_precedes_total, lemma_precedes_transitive};

verus! {

/// Number of weekdays.
pub const WEEKDAYS: usize = 7;

/// Narrowest that the label column of a report can be: the length of the
/// label of the last row.
pub const TOTALS_WIDTH: usize = 6;

/// Width of each numeric column of a report.
pub const COLUMN_WIDTH: usize = 6;

/// A number of seconds as tenths of an hour, rounded to the nearest tenth
/// with ties away from zero.
pub open spec fn tenths(seconds: int) -> int {
    if seconds >= 0 {
        (seconds + 180) / 360
    } else {
        -((180 - seconds) / 360)
    }
}

/// Whether `iv` counts towards project `label` on weekday `day`.
pub open spec fn falls_in(iv: IntervalModel, label: Seq<char>, day: int) -> bool {
    iv.project == label && iv.weekday == day
}

/// Seconds worked on project `label` on weekday `day`.
pub open spec fn seconds_in(ivs: Seq<IntervalModel>, label: Seq<char>, day: int) -> int
    decreases ivs.len(),
{
    if ivs.len() == 0 {
        0
    } else if falls_in(ivs.last(), label, day) {
        seconds_in(ivs.drop_last(), label, day) + ivs.last().seconds
    } else {
        seconds_in(ivs.drop_last(), label, day)
    }
}

/// The cell of project `label` on weekday `day`, in tenths of an hour.
pub open spec fn cell(ivs: Seq<IntervalModel>, label: Seq<char>, day: int) -> int {
    tenths(seconds_in(ivs, label, day))
}

/// Sum of the cells of project `label` on the first `days` weekdays.
pub open spec fn cells_sum(ivs: Seq<IntervalModel>, label: Seq<char>, days: int) -> int
    decreases days,
{
    if days <= 0 {
        0
    } else {
        cells_sum(ivs, label, days - 1) + cell(ivs, label, days - 1)
    }
}

/// The row of project `label`: seven weekday cells, then their sum.
pub open spec fn row_cells(ivs: Seq<IntervalModel>, label: Seq<char>) -> Seq<int> {
    Seq::new(
        8,
        |d: int|
            if d < 7 {
                cell(ivs, label, d)
            } else {
                cells_sum(ivs, label, 7)
            },
    )
}

/// Sum over the projects `labels` of their cells on weekday `day`.
pub open spec fn column_total(ivs: Seq<IntervalModel>, labels: Seq<Seq<char>>, day: int) -> int
    decreases labels.len(),
{
    if labels.len() == 0 {
        0
    } else {
        column_total(ivs, labels.drop_last(), day) + cell(ivs, labels.last(), day)
    }
}

/// Sum of the column totals of the first `days` weekdays.
pub open spec fn columns_sum(ivs: Seq<IntervalModel>, labels: Seq<Seq<char>>, days: int) -> int
    decreases days,
{
    if days <= 0 {
        0
    } else {
        columns_sum(ivs, labels, days - 1) + column_total(ivs, labels, days - 1)
    }
}

/// The last row: seven column totals, then their sum.
pub open spec fn totals_cells(ivs: Seq<IntervalModel>, labels: Seq<Seq<char>>) -> Seq<int> {
    Seq::new(
        8,
        |d: int|
            if d < 7 {
                column_total(ivs, labels, d)
            } else {
                columns_sum(ivs, labels, 7)
            },
    )
}

/// `labels`, which is ascending, with `label` put in its place unless it is
/// there already.
pub open spec fn insert_label(labels: Seq<Seq<char>>, label: Seq<char>) -> Seq<Seq<char>>
    decreases labels.len(),
{
    if labels.len() == 0 {
        seq![label]
    } else if labels.last() == label {
        labels
    } else if precedes(labels.last(), label) {
        labels.push(label)
    } else {
        insert_label(labels.drop_last(), label).push(labels.last())
    }
}

/// The projects that occur in `ivs`, each once, in ascending order.
pub open spec fn project_labels(ivs: Seq<IntervalModel>) -> Seq<Seq<char>>
    decreases ivs.len(),
{
    if ivs.len() == 0 {
        Seq::empty()
    } else {
        insert_label(project_labels(ivs.drop_last()), ivs.last().project)
    }
}

/// Width of the label column: the longest label in bytes of UTF-8, and at
/// least the length of the label of the last row.
pub open spec fn label_width(labels: Seq<Seq<char>>) -> nat
    decreases labels.len(),
{
    if labels.len() == 0 {
        TOTALS_WIDTH as nat
    } else {
        let rest = label_width(labels.drop_last());
        let this = encode_utf8(labels.last()).len();
        if this > rest {
            this
        } else {
            rest
        }
    }
}

/// What a sequence of cells stands for.
pub open spec fn cell_values(cells: Seq<i128>) -> Seq<int> {
    cells.map_values(|c: i128| c as int)
}

/// What one row of a report stands for.
pub struct RowModel {
    /// Label of the row.
    pub label: Seq<char>,
    /// Seven weekday cells and their sum, in tenths of an hour.
    pub cells: Seq<int>,
}

/// What a report stands for.
pub struct ReportModel {
    /// One row for each project, in ascending order of label.
    pub rows: Seq<RowModel>,
    /// Seven column totals and their sum, in tenths of an hour.
    pub totals: Seq<int>,
    /// Width of each numeric column.
    pub column_width: nat,
    /// Width of the label column.
    pub tag_width: nat,
}

/// The rows of the projects `labels`, in that order.
pub open spec fn project_rows(ivs: Seq<IntervalModel>, labels: Seq<Seq<char>>) -> Seq<RowModel> {
    Seq::new(
        labels.len(),
        |r: int| RowModel { label: labels[r], cells: row_cells(ivs, labels[r]) },
    )
}

/// The report on the intervals `ivs`.
pub open spec fn report_of(ivs: Seq<IntervalModel>) -> ReportModel {
    let labels = project_labels(ivs);
    ReportModel {
        rows: project_rows(ivs, labels),
        totals: totals_cells(ivs, labels),
        column_width: COLUMN_WIDTH as nat,
        tag_width: label_width(labels),
    }
}

/// Whether some interval of `ivs` belongs to project `label`.
pub open spec fn occurs(ivs: Seq<IntervalModel>, label: Seq<char>) -> bool {
    exists|i: int| 0 <= i < ivs.len() && (#[trigger] ivs[i]).project == label
}

/// After `insert_label` the sequence holds what it held before, and `label`.
pub proof fn lemma_insert_label_contains(labels: Seq<Seq<char>>, label: Seq<char>, y: Seq<char>)
    ensures
        insert_label(labels, label).contains(y) <==> (labels.contains(y) || y == label),
    decreases labels.len(),
{
    broadcast use vstd::seq_lib::lemma_seq_contains_after_push;

    if labels.len() == 0 {
        assert(seq![label][0] == label);
    } else {
        let last = labels.last();
        let rest = labels.drop_last();
        assert(labels =~= rest.push(last));
        if last != label && !precedes(last, label) {
            lemma_insert_label_contains(rest, label, y);
        }
    }
}

/// `insert_label` keeps an ascending sequence ascending.
pub proof fn lemma_insert_label_ascending(labels: Seq<Seq<char>>, label: Seq<char>)
    requires
        ascending(labels),
    ensures
        ascending(insert_label(labels, label)),
    decreases labels.len(),
{
    if labels.len() > 0 {
        let last = labels.last();
        let rest = labels.drop_last();
        let n = labels.len() as int;
        if last == label {
        } else if precedes(last, label) {
            let out = labels.push(label);
            assert forall|i: int, j: int| 0 <= i < j < out.len() implies precedes(
                out[i],
                out[j],
            ) by {
                if j == n && i < n - 1 {
                    lemma_precedes_transitive(labels[i], last, label);
                }
            }
        } else {
            assert forall|i: int, j: int| 0 <= i < j < rest.len() implies precedes(
                rest[i],
                rest[j],
            ) by {
                assert(rest[i] == labels[i] && rest[j] == labels[j]);
            }
            lemma_insert_label_ascending(rest, label);
            lemma_precedes_total(last, label);
            let head = insert_label(rest, label);
            let out = head.push(last);
            assert forall|i: int, j: int| 0 <= i < j < out.len() implies precedes(
                out[i],
                out[j],
            ) by {
                if j == head.len() {
                    lemma_insert_label_contains(rest, label, head[i]);
                    assert(head.contains(head[i]));
                    if head[i] != label {
                        let k = choose|k: int| 0 <= k < rest.len() && rest[k] == head[i];
                        assert(rest[k] == labels[k]);
                    }
                }
            }
        }
    }
}

/// In an ascending sequence `label` belongs at the position before which
/// every label precedes it and at which none does.
pub proof fn lemma_insert_label_at(labels: Seq<Seq<char>>, label: Seq<char>, pos: int)
    requires
        ascending(labels),
        0 <= pos <= labels.len(),
        forall|k: int| 0 <= k < pos ==> precedes(#[trigger] labels[k], label),
        pos < labels.len() ==> !precedes(labels[pos], label),
    ensures
        insert_label(labels, label) == if pos < labels.len() && labels[pos] == label {
            labels
        } else {
            labels.insert(pos, label)
        },
    decreases labels.len(),
{
    let n = labels.len() as int;
    if n == 0 {
        assert(seq![label] =~= labels.insert(0, label));
    } else {
        let last = labels.last();
        let rest = labels.drop_last();
        if pos == n {
            assert(precedes(labels[n - 1], label));
            lemma_precedes_irreflexive(label);
            assert(labels.push(label) =~= labels.insert(n, label));
        } else {
            assert forall|i: int, j: int| 0 <= i < j < rest.len() implies precedes(
                rest[i],
                rest[j],
            ) by {
                assert(rest[i] == labels[i] && rest[j] == labels[j]);
            }
            assert forall|k: int| 0 <= k < pos implies precedes(#[trigger] rest[k], label) by {
                assert(rest[k] == labels[k]);
            }
            if pos == n - 1 {
                if last != label {
                    lemma_insert_label_at(rest, label, pos);
                    assert(rest.insert(pos, label).push(last) =~= labels.insert(pos, label));
                }
            } else {
                assert(precedes(labels[pos], last));
                if precedes(last, label) {
                    lemma_precedes_transitive(labels[pos], last, label);
                }
                assert(rest[pos] == labels[pos]);
                lemma_insert_label_at(rest, label, pos);
                if labels[pos] == label {
                    assert(rest.push(last) =~= labels);
                } else {
                    assert(rest.insert(pos, label).push(last) =~= labels.insert(pos, label));
                }
            }
        }
    }
}

/// The labels of a report are ascending, and they are the projects that
/// occur among the intervals.
pub proof fn lemma_project_labels(ivs: Seq<IntervalModel>)
    ensures
        ascending(project_labels(ivs)),
        forall|y: Seq<char>| #[trigger] project_labels(ivs).contains(y) <==> occurs(ivs, y),
    decreases ivs.len(),
{
    if ivs.len() > 0 {
        let rest = ivs.drop_last();
        let last = ivs.last();
        lemma_project_labels(rest);
        lemma_insert_label_ascending(project_labels(rest), last.project);
        assert forall|y: Seq<char>| #[trigger]
            project_labels(ivs).contains(y) <==> occurs(ivs, y) by {
            lemma_insert_label_contains(project_labels(rest), last.project, y);
            if occurs(ivs, y) {
                let i = choose|i: int| 0 <= i < ivs.len() && (#[trigger] ivs[i]).project == y;
                if i < rest.len() {
                    assert(rest[i].project == y);
                }
            }
            if occurs(rest, y) {
                let i = choose|i: int| 0 <= i < rest.len() && (#[trigger] rest[i]).project == y;
                assert(ivs[i].project == y);
            }
            if y == last.project {
                assert(ivs[ivs.len() - 1].project == y);
            }
        }
    } else {
        assert forall|y: Seq<char>| #[trigger]
            project_labels(ivs).contains(y) <==> occurs(ivs, y) by {}
    }
}

/// A project that does not occur among the intervals has no seconds.
pub proof fn lemma_absent_project(ivs: Seq<IntervalModel>, label: Seq<char>, day: int)
    requires
        !occurs(ivs, label),
    ensures
        seconds_in(ivs, label, day) == 0,
    decreases ivs.len(),
{
    if ivs.len() > 0 {
        let rest = ivs.drop_last();
        assert(ivs[ivs.len() - 1].project != label);
        assert(!occurs(rest, label)) by {
            if occurs(rest, label) {
                let i = choose|i: int| 0 <= i < rest.len() && (#[trigger] rest[i]).project == label;
                assert(ivs[i].project == label);
            }
        }
        lemma_absent_project(rest, label, day);
    }
}

} // verus!
