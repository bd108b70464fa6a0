//! What holds of every report.

use vstd::prelude::*;
use crate::clock::{elapsed_seconds, InstantModel};
use crate::interval::IntervalModel;
use crate::order::{ascending, lemma_precedes_asymmetric, lemma_precedes_irreflexive, precedes};
use crate::render::{
    cell_text, header_text, render_text, repeated, row_text, rows_text, separator_text,
    totals_label,
};
use crate::sums::{
    cell, cells_sum, column_total, columns_sum, falls_in, lemma_project_labels,
    occurs, project_labels, project_rows, report_of, row_cells, seconds_in, totals_cells,
    RowModel, COLUMN_WIDTH, TOTALS_WIDTH,
};

verus! {

/// Sum of the cells of `rows` in column `column`.
pub open spec fn column_sum(rows: Seq<RowModel>, column: int) -> int
    decreases rows.len(),
{
    if rows.len() == 0 {
        0
    } else {
        column_sum(rows.drop_last(), column) + rows.last().cells[column]
    }
}

/// The labels of `rows`, in their order.
pub open spec fn row_labels(rows: Seq<RowModel>) -> Seq<Seq<char>> {
    rows.map_values(|row: RowModel| row.label)
}

/// In every row of a report the last cell is the sum of the seven weekday
/// cells, which are each rounded to tenths of an hour on their own.
pub proof fn lemma_row_total_is_sum_of_cells(ivs: Seq<IntervalModel>, r: int)
    requires
        0 <= r < report_of(ivs).rows.len(),
    ensures
        ({
            let cells = report_of(ivs).rows[r].cells;
            &&& cells.len() == 8
            &&& cells[7] == cells[0] + cells[1] + cells[2] + cells[3] + cells[4] + cells[5]
                + cells[6]
        }),
{
    let label = project_labels(ivs)[r];
    reveal_with_fuel(cells_sum, 8);
    assert(cells_sum(ivs, label, 7) == cell(ivs, label, 0) + cell(ivs, label, 1) + cell(
        ivs,
        label,
        2,
    ) + cell(ivs, label, 3) + cell(ivs, label, 4) + cell(ivs, label, 5) + cell(ivs, label, 6));
}

/// The sum of a column over the rows of the projects `labels` is the column
/// total of those projects.
proof fn lemma_column_sum(ivs: Seq<IntervalModel>, labels: Seq<Seq<char>>, day: int)
    requires
        0 <= day < 7,
    ensures
        column_sum(project_rows(ivs, labels), day) == column_total(ivs, labels, day),
    decreases labels.len(),
{
    if labels.len() > 0 {
        lemma_column_sum(ivs, labels.drop_last(), day);
        assert(project_rows(ivs, labels).drop_last() =~= project_rows(ivs, labels.drop_last()));
    }
}

/// In a report the total of every weekday column is the sum of the cells of
/// the projects in that column, and the grand total is the sum of the seven
/// column totals.
pub proof fn lemma_column_total_is_sum_of_cells(ivs: Seq<IntervalModel>, day: int)
    requires
        0 <= day < 7,
    ensures
        report_of(ivs).totals.len() == 8,
        report_of(ivs).totals[day] == column_sum(report_of(ivs).rows, day),
        ({
            let totals = report_of(ivs).totals;
            totals[7] == totals[0] + totals[1] + totals[2] + totals[3] + totals[4] + totals[5]
                + totals[6]
        }),
{
    let labels = project_labels(ivs);
    lemma_column_sum(ivs, labels, day);
    reveal_with_fuel(columns_sum, 8);
    assert(columns_sum(ivs, labels, 7) == column_total(ivs, labels, 0) + column_total(
        ivs,
        labels,
        1,
    ) + column_total(ivs, labels, 2) + column_total(ivs, labels, 3) + column_total(ivs, labels, 4)
        + column_total(ivs, labels, 5) + column_total(ivs, labels, 6));
}

/// The sum of the column totals of no projects is zero.
proof fn lemma_columns_sum_of_nothing(ivs: Seq<IntervalModel>, days: int)
    ensures
        columns_sum(ivs, Seq::empty(), days) == 0,
    decreases days,
{
    if days > 0 {
        lemma_columns_sum_of_nothing(ivs, days - 1);
    }
}

/// One more project adds the sum of its cells to the sum of the column
/// totals.
proof fn lemma_columns_sum_push(ivs: Seq<IntervalModel>, labels: Seq<Seq<char>>, days: int)
    requires
        labels.len() > 0,
    ensures
        columns_sum(ivs, labels, days) == columns_sum(ivs, labels.drop_last(), days) + cells_sum(
            ivs,
            labels.last(),
            days,
        ),
    decreases days,
{
    if days > 0 {
        lemma_columns_sum_push(ivs, labels, days - 1);
    }
}

/// The sum of the column totals is the sum of the row totals.
proof fn lemma_columns_sum_by_rows(ivs: Seq<IntervalModel>, labels: Seq<Seq<char>>)
    ensures
        column_sum(project_rows(ivs, labels), 7) == columns_sum(ivs, labels, 7),
    decreases labels.len(),
{
    if labels.len() > 0 {
        lemma_columns_sum_by_rows(ivs, labels.drop_last());
        lemma_columns_sum_push(ivs, labels, 7);
        assert(project_rows(ivs, labels).drop_last() =~= project_rows(ivs, labels.drop_last()));
    } else {
        assert(labels =~= Seq::<Seq<char>>::empty());
        lemma_columns_sum_of_nothing(ivs, 7);
    }
}

/// The grand total of a report is also the sum of the totals of its rows:
/// every total is a sum of cells that are rounded already.
pub proof fn lemma_grand_total_is_sum_of_row_totals(ivs: Seq<IntervalModel>)
    ensures
        report_of(ivs).totals[7] == column_sum(report_of(ivs).rows, 7),
{
    lemma_columns_sum_by_rows(ivs, project_labels(ivs));
}

/// The rows of a report stand in strictly ascending order of label, one for
/// each project that occurs among the intervals.
pub proof fn lemma_rows_ascend(ivs: Seq<IntervalModel>)
    ensures
        ascending(row_labels(report_of(ivs).rows)),
        forall|label: Seq<char>| #[trigger]
            row_labels(report_of(ivs).rows).contains(label) <==> occurs(ivs, label),
{
    lemma_project_labels(ivs);
    assert(row_labels(report_of(ivs).rows) =~= project_labels(ivs));
}

/// The report on no intervals has no rows, and all its totals are zero.
pub proof fn lemma_report_on_nothing()
    ensures
        report_of(Seq::empty()).rows.len() == 0,
        report_of(Seq::empty()).totals == Seq::new(8, |d: int| 0int),
        report_of(Seq::empty()).tag_width == TOTALS_WIDTH,
        report_of(Seq::empty()).column_width == COLUMN_WIDTH,
{
    let ivs = Seq::<IntervalModel>::empty();
    let labels = project_labels(ivs);
    reveal_with_fuel(columns_sum, 8);
    assert(totals_cells(ivs, labels) =~= Seq::new(8, |d: int| 0int));
}

/// The numeric area of a cell that holds zero is blank.
pub proof fn lemma_zero_cell_is_blank(width: nat)
    ensures
        cell_text(0, width) == repeated(
            ' ',
            if width == 0 {
                1
            } else {
                width
            },
        ),
{
    assert(cell_text(0, width) =~= repeated(
        ' ',
        if width == 0 {
            1
        } else {
            width
        },
    ));
}

/// The text of the report on no intervals is the header, two separators
/// and the line of totals, all of whose cells hold zero.
pub proof fn lemma_text_of_report_on_nothing()
    ensures
        render_text(report_of(Seq::empty())) == header_text(TOTALS_WIDTH as nat, COLUMN_WIDTH as nat)
            + separator_text(TOTALS_WIDTH as nat, COLUMN_WIDTH as nat) + separator_text(
            TOTALS_WIDTH as nat,
            COLUMN_WIDTH as nat,
        ) + row_text(
            RowModel { label: totals_label(), cells: Seq::new(8, |d: int| 0int) },
            TOTALS_WIDTH as nat,
            COLUMN_WIDTH as nat,
        ),
{
    lemma_report_on_nothing();
    let report = report_of(Seq::empty());
    assert(report.rows =~= Seq::empty());
    assert(rows_text(report.rows, report.tag_width, report.column_width) =~= Seq::empty());
    let head = header_text(TOTALS_WIDTH as nat, COLUMN_WIDTH as nat) + separator_text(
        TOTALS_WIDTH as nat,
        COLUMN_WIDTH as nat,
    );
    assert(head + Seq::<char>::empty() =~= head);
}

/// No time passes from an instant to itself.
pub proof fn lemma_nothing_elapses(at: InstantModel)
    ensures
        elapsed_seconds(at, at) == 0,
{
}

/// An interval of no length, put anywhere among the others, changes no cell
/// of the report.
pub proof fn lemma_zero_length_changes_no_cell(
    ivs: Seq<IntervalModel>,
    at: int,
    zero: IntervalModel,
    label: Seq<char>,
    day: int,
)
    requires
        0 <= at <= ivs.len(),
        zero.seconds == 0,
    ensures
        seconds_in(ivs.insert(at, zero), label, day) == seconds_in(ivs, label, day),
        cell(ivs.insert(at, zero), label, day) == cell(ivs, label, day),
    decreases ivs.len() - at,
{
    let with = ivs.insert(at, zero);
    if at == ivs.len() {
        assert(with.drop_last() =~= ivs);
        assert(with.last() == zero);
    } else {
        assert(with.drop_last() =~= ivs.drop_last().insert(at, zero));
        assert(with.last() == ivs.last());
        lemma_zero_length_changes_no_cell(ivs.drop_last(), at, zero, label, day);
    }
}

/// An interval of no length, put anywhere among the others, changes no
/// total of the report: neither that of a row nor that of a column, nor the
/// grand total over any projects.
pub proof fn lemma_zero_length_changes_no_total(
    ivs: Seq<IntervalModel>,
    at: int,
    zero: IntervalModel,
    labels: Seq<Seq<char>>,
    days: int,
)
    requires
        0 <= at <= ivs.len(),
        zero.seconds == 0,
    ensures
        forall|label: Seq<char>| #[trigger]
            cells_sum(ivs.insert(at, zero), label, days) == cells_sum(ivs, label, days),
        forall|day: int| #[trigger]
            column_total(ivs.insert(at, zero), labels, day) == column_total(ivs, labels, day),
        columns_sum(ivs.insert(at, zero), labels, days) == columns_sum(ivs, labels, days),
    decreases labels.len() + if days > 0 {
        days
    } else {
        0
    },
{
    let with = ivs.insert(at, zero);
    assert forall|label: Seq<char>| #[trigger]
        cells_sum(with, label, days) == cells_sum(ivs, label, days) by {
        lemma_zero_length_cells_sum(ivs, at, zero, label, days);
    }
    assert forall|day: int| #[trigger]
        column_total(with, labels, day) == column_total(ivs, labels, day) by {
        lemma_zero_length_column_total(ivs, at, zero, labels, day);
    }
    if days > 0 {
        lemma_zero_length_changes_no_total(ivs, at, zero, labels, days - 1);
    }
}

/// An interval of no length changes no sum of the cells of a row.
proof fn lemma_zero_length_cells_sum(
    ivs: Seq<IntervalModel>,
    at: int,
    zero: IntervalModel,
    label: Seq<char>,
    days: int,
)
    requires
        0 <= at <= ivs.len(),
        zero.seconds == 0,
    ensures
        cells_sum(ivs.insert(at, zero), label, days) == cells_sum(ivs, label, days),
    decreases days,
{
    if days > 0 {
        lemma_zero_length_cells_sum(ivs, at, zero, label, days - 1);
        lemma_zero_length_changes_no_cell(ivs, at, zero, label, days - 1);
    }
}

/// An interval of no length changes no column total.
proof fn lemma_zero_length_column_total(
    ivs: Seq<IntervalModel>,
    at: int,
    zero: IntervalModel,
    labels: Seq<Seq<char>>,
    day: int,
)
    requires
        0 <= at <= ivs.len(),
        zero.seconds == 0,
    ensures
        column_total(ivs.insert(at, zero), labels, day) == column_total(ivs, labels, day),
    decreases labels.len(),
{
    if labels.len() > 0 {
        lemma_zero_length_column_total(ivs, at, zero, labels.drop_last(), day);
        lemma_zero_length_changes_no_cell(ivs, at, zero, labels.last(), day);
    }
}

/// The seconds of a project on a weekday with one interval taken out are
/// those with it, less what it adds.
proof fn lemma_seconds_without(ivs: Seq<IntervalModel>, at: int, label: Seq<char>, day: int)
    requires
        0 <= at < ivs.len(),
    ensures
        seconds_in(ivs, label, day) == seconds_in(ivs.remove(at), label, day) + if falls_in(
            ivs[at],
            label,
            day,
        ) {
            ivs[at].seconds
        } else {
            0
        },
    decreases ivs.len(),
{
    if at == ivs.len() - 1 {
        assert(ivs.remove(at) =~= ivs.drop_last());
    } else {
        let rest = ivs.drop_last();
        lemma_seconds_without(rest, at, label, day);
        assert(ivs.remove(at).drop_last() =~= rest.remove(at));
        assert(ivs.remove(at).last() == ivs.last());
    }
}

/// The seconds of a project on a weekday do not depend on the order of the
/// intervals.
pub proof fn lemma_seconds_in_any_order(
    a: Seq<IntervalModel>,
    b: Seq<IntervalModel>,
    label: Seq<char>,
    day: int,
)
    requires
        a.to_multiset() == b.to_multiset(),
    ensures
        seconds_in(a, label, day) == seconds_in(b, label, day),
    decreases a.len(),
{
    broadcast use vstd::seq_lib::group_to_multiset_ensures;

    a.to_multiset_ensures();
    b.to_multiset_ensures();
    if a.len() == 0 {
        assert(b.len() == 0);
    } else {
        let x = a.last();
        let rest = a.drop_last();
        assert(a.contains(x)) by {
            assert(a[a.len() - 1] == x);
        }
        assert(b.to_multiset().count(x) > 0);
        assert(b.contains(x));
        let at = choose|at: int| 0 <= at < b.len() && b[at] == x;
        assert(rest =~= a.remove(a.len() - 1));
        assert(rest.to_multiset() =~= a.to_multiset().remove(x));
        assert(b.remove(at).to_multiset() =~= b.to_multiset().remove(x));
        lemma_seconds_in_any_order(rest, b.remove(at), label, day);
        lemma_seconds_without(b, at, label, day);
    }
}

/// The projects that occur do not depend on the order of the intervals.
proof fn lemma_occurs_in_any_order(a: Seq<IntervalModel>, b: Seq<IntervalModel>, label: Seq<char>)
    requires
        a.to_multiset() == b.to_multiset(),
        occurs(a, label),
    ensures
        occurs(b, label),
{
    broadcast use vstd::seq_lib::group_to_multiset_ensures;

    a.to_multiset_ensures();
    b.to_multiset_ensures();
    let i = choose|i: int| 0 <= i < a.len() && (#[trigger] a[i]).project == label;
    assert(a.contains(a[i]));
    assert(b.to_multiset().count(a[i]) > 0);
    assert(b.contains(a[i]));
    let j = choose|j: int| 0 <= j < b.len() && b[j] == a[i];
    assert(b[j].project == label);
}

/// Two ascending sequences that hold the same labels are equal.
pub proof fn lemma_ascending_unique(x: Seq<Seq<char>>, y: Seq<Seq<char>>)
    requires
        ascending(x),
        ascending(y),
        forall|label: Seq<char>| x.contains(label) <==> y.contains(label),
    ensures
        x == y,
    decreases x.len(),
{
    if x.len() == 0 {
        if y.len() > 0 {
            assert(y.contains(y[0]));
        }
        assert(x =~= y);
    } else {
        let top = x.last();
        assert(x.contains(top)) by {
            assert(x[x.len() - 1] == top);
        }
        assert(y.contains(top));
        let j = choose|j: int| 0 <= j < y.len() && y[j] == top;
        let other = y.last();
        assert(y.contains(other)) by {
            assert(y[y.len() - 1] == other);
        }
        let i = choose|i: int| 0 <= i < x.len() && x[i] == other;
        if j < y.len() - 1 {
            assert(precedes(top, other));
            if i < x.len() - 1 {
                assert(precedes(other, top));
                lemma_precedes_asymmetric(top, other);
            } else {
                lemma_precedes_irreflexive(top);
            }
        }
        assert(top == other);
        let xs = x.drop_last();
        let ys = y.drop_last();
        assert forall|label: Seq<char>| xs.contains(label) <==> ys.contains(label) by {
            if xs.contains(label) {
                let k = choose|k: int| 0 <= k < xs.len() && xs[k] == label;
                assert(x[k] == label);
                assert(precedes(label, top));
                assert(x.contains(label));
                let m = choose|m: int| 0 <= m < y.len() && y[m] == label;
                if m == y.len() - 1 {
                    lemma_precedes_irreflexive(top);
                }
                assert(ys[m] == label);
            }
            if ys.contains(label) {
                let k = choose|k: int| 0 <= k < ys.len() && ys[k] == label;
                assert(y[k] == label);
                assert(precedes(label, other));
                assert(y.contains(label));
                let m = choose|m: int| 0 <= m < x.len() && x[m] == label;
                if m == x.len() - 1 {
                    lemma_precedes_irreflexive(top);
                }
                assert(xs[m] == label);
            }
        }
        assert(ascending(xs)) by {
            assert forall|p: int, q: int| 0 <= p < q < xs.len() implies precedes(xs[p], xs[q]) by {
                assert(xs[p] == x[p] && xs[q] == x[q]);
            }
        }
        assert(ascending(ys)) by {
            assert forall|p: int, q: int| 0 <= p < q < ys.len() implies precedes(ys[p], ys[q]) by {
                assert(ys[p] == y[p] && ys[q] == y[q]);
            }
        }
        lemma_ascending_unique(xs, ys);
        assert(x =~= xs.push(top));
        assert(y =~= ys.push(other));
    }
}

/// The column totals of the same projects do not depend on the order of
/// the intervals.
proof fn lemma_column_total_in_any_order(
    a: Seq<IntervalModel>,
    b: Seq<IntervalModel>,
    labels: Seq<Seq<char>>,
    day: int,
)
    requires
        a.to_multiset() == b.to_multiset(),
    ensures
        column_total(a, labels, day) == column_total(b, labels, day),
    decreases labels.len(),
{
    if labels.len() > 0 {
        lemma_column_total_in_any_order(a, b, labels.drop_last(), day);
        lemma_seconds_in_any_order(a, b, labels.last(), day);
    }
}

/// The sum of the cells of a row does not depend on the order of the
/// intervals.
proof fn lemma_cells_sum_in_any_order(
    a: Seq<IntervalModel>,
    b: Seq<IntervalModel>,
    label: Seq<char>,
    days: int,
)
    requires
        a.to_multiset() == b.to_multiset(),
    ensures
        cells_sum(a, label, days) == cells_sum(b, label, days),
    decreases days,
{
    if days > 0 {
        lemma_cells_sum_in_any_order(a, b, label, days - 1);
        lemma_seconds_in_any_order(a, b, label, days - 1);
    }
}

/// The sum of the column totals does not depend on the order of the
/// intervals.
proof fn lemma_columns_sum_in_any_order(
    a: Seq<IntervalModel>,
    b: Seq<IntervalModel>,
    labels: Seq<Seq<char>>,
    days: int,
)
    requires
        a.to_multiset() == b.to_multiset(),
    ensures
        columns_sum(a, labels, days) == columns_sum(b, labels, days),
    decreases days,
{
    if days > 0 {
        lemma_columns_sum_in_any_order(a, b, labels, days - 1);
        lemma_column_total_in_any_order(a, b, labels, days - 1);
    }
}

/// The same intervals in another order give the same report, and so the
/// same text.
pub proof fn lemma_report_in_any_order(a: Seq<IntervalModel>, b: Seq<IntervalModel>)
    requires
        a.to_multiset() == b.to_multiset(),
    ensures
        report_of(a) == report_of(b),
        render_text(report_of(a)) == render_text(report_of(b)),
{
    lemma_project_labels(a);
    lemma_project_labels(b);
    let la = project_labels(a);
    let lb = project_labels(b);
    assert forall|label: Seq<char>| la.contains(label) <==> lb.contains(label) by {
        if occurs(a, label) {
            lemma_occurs_in_any_order(a, b, label);
        }
        if occurs(b, label) {
            lemma_occurs_in_any_order(b, a, label);
        }
    }
    lemma_ascending_unique(la, lb);
    assert forall|r: int| 0 <= r < la.len() implies #[trigger] row_cells(a, la[r]) == row_cells(
        b,
        la[r],
    ) by {
        let label = la[r];
        lemma_cells_sum_in_any_order(a, b, label, 7);
        assert forall|d: int| 0 <= d < 7 implies cell(a, label, d) == cell(b, label, d) by {
            lemma_seconds_in_any_order(a, b, label, d);
        }
        assert(row_cells(a, label) =~= row_cells(b, label));
    }
    assert(project_rows(a, la) =~= project_rows(b, la));
    lemma_columns_sum_in_any_order(a, b, la, 7);
    assert forall|d: int| 0 <= d < 7 implies column_total(a, la, d) == column_total(b, la, d) by {
        lemma_column_total_in_any_order(a, b, la, d);
    }
    assert(totals_cells(a, la) =~= totals_cells(b, la));
}

} // verus!
