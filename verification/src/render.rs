//! The text of a report: a table of fixed shape.

use vstd::prelude::*;
use vstd::string::*;
use crate::sums::{cell_values, ReportModel, RowModel};

verus! {

/// `n` copies of `c`.
pub open spec fn repeated(c: char, n: nat) -> Seq<char> {
    Seq::new(n, |i: int| c)
}

/// As many spaces as `text` is short of `width` characters.
pub open spec fn padding(text: Seq<char>, width: nat) -> Seq<char> {
    if text.len() < width {
        repeated(' ', (width - text.len()) as nat)
    } else {
        Seq::empty()
    }
}

/// `text` aligned to the right in `width` characters; a longer text is left
/// as it is.
pub open spec fn right_aligned(text: Seq<char>, width: nat) -> Seq<char> {
    padding(text, width) + text
}

/// `text` aligned to the left in `width` characters; a longer text is left
/// as it is.
pub open spec fn left_aligned(text: Seq<char>, width: nat) -> Seq<char> {
    text + padding(text, width)
}

/// The character of the decimal digit `d`.
pub open spec fn digit_char(d: int) -> char {
    if d == 0 {
        '0'
    } else if d == 1 {
        '1'
    } else if d == 2 {
        '2'
    } else if d == 3 {
        '3'
    } else if d == 4 {
        '4'
    } else if d == 5 {
        '5'
    } else if d == 6 {
        '6'
    } else if d == 7 {
        '7'
    } else if d == 8 {
        '8'
    } else {
        '9'
    }
}

/// The decimal digits of `n`, without leading zeros.
pub open spec fn digits(n: nat) -> Seq<char>
    decreases n,
{
    if n < 10 {
        seq![digit_char(n as int)]
    } else {
        digits(n / 10).push(digit_char((n % 10) as int))
    }
}

/// A number of tenths as a decimal with one fractional digit.
pub open spec fn decimal_text(tenths: int) -> Seq<char> {
    let magnitude = if tenths < 0 {
        -tenths
    } else {
        tenths
    };
    let sign = if tenths < 0 {
        seq!['-']
    } else {
        Seq::empty()
    };
    sign + digits((magnitude / 10) as nat) + seq!['.', digit_char(magnitude % 10)]
}

/// The numeric area of a cell: blank where the value is zero.
pub open spec fn cell_text(tenths: int, width: nat) -> Seq<char> {
    if tenths == 0 {
        right_aligned(seq![' '], width)
    } else {
        right_aligned(decimal_text(tenths), width)
    }
}

/// The cells of a row, each between a space and a delimiter.
pub open spec fn cells_text(cells: Seq<int>, width: nat) -> Seq<char>
    decreases cells.len(),
{
    if cells.len() == 0 {
        Seq::empty()
    } else {
        cells_text(cells.drop_last(), width) + seq![' '] + cell_text(cells.last(), width) + seq![
            ' ',
            '|',
        ]
    }
}

/// One line of the table: label, delimiter, cells, newline.
pub open spec fn row_text(row: RowModel, tag_width: nat, column_width: nat) -> Seq<char> {
    left_aligned(row.label, tag_width) + seq![' ', '|'] + cells_text(row.cells, column_width)
        + seq!['\n']
}

/// The lines of `rows`, in order.
pub open spec fn rows_text(rows: Seq<RowModel>, tag_width: nat, column_width: nat) -> Seq<char>
    decreases rows.len(),
{
    if rows.len() == 0 {
        Seq::empty()
    } else {
        rows_text(rows.drop_last(), tag_width, column_width) + row_text(
            rows.last(),
            tag_width,
            column_width,
        )
    }
}

/// The names at the head of the eight numeric columns.
pub open spec fn column_names() -> Seq<Seq<char>> {
    seq!["Mon"@, "Tue"@, "Wed"@, "Thu"@, "Fri"@, "Sat"@, "Sun"@, "Tot"@]
}

/// The first `count` column names, each aligned to the right and followed
/// by a delimiter between spaces.
pub open spec fn names_text(count: int, column_width: nat) -> Seq<char>
    decreases count,
{
    if count <= 0 {
        Seq::empty()
    } else {
        names_text(count - 1, column_width) + right_aligned(
            column_names()[count - 1],
            column_width,
        ) + seq![' ', '|', ' ']
    }
}

/// The first line of the table.
pub open spec fn header_text(tag_width: nat, column_width: nat) -> Seq<char> {
    repeated(' ', tag_width) + seq![' ', '|', ' '] + names_text(8, column_width) + seq!['\n']
}

/// `count` column segments of a separator line.
pub open spec fn rules_text(count: int, column_width: nat) -> Seq<char>
    decreases count,
{
    if count <= 0 {
        Seq::empty()
    } else {
        rules_text(count - 1, column_width) + seq!['='] + repeated('=', column_width) + seq![
            '=',
            '|',
        ]
    }
}

/// The line that separates the header from the rows, and the rows from the
/// totals.
pub open spec fn separator_text(tag_width: nat, column_width: nat) -> Seq<char> {
    repeated('=', tag_width) + seq!['=', '|'] + rules_text(8, column_width) + seq!['\n']
}

/// The label of the last row.
pub open spec fn totals_label() -> Seq<char> {
    "totals"@
}

/// The whole table: header, separator, one line for each project, separator,
/// totals.
pub open spec fn render_text(report: ReportModel) -> Seq<char> {
    header_text(report.tag_width, report.column_width) + separator_text(
        report.tag_width,
        report.column_width,
    ) + rows_text(report.rows, report.tag_width, report.column_width) + separator_text(
        report.tag_width,
        report.column_width,
    ) + row_text(
        RowModel { label: totals_label(), cells: report.totals },
        report.tag_width,
        report.column_width,
    )
}

/// Appends `n` copies of the one-character string `piece`.
fn push_repeated(out: &mut String, piece: &str, Ghost(c): Ghost<char>, n: usize)
    requires
        piece@ == seq![c],
    ensures
        final(out)@ == old(out)@ + repeated(c, n as nat),
{
    let ghost start = out@;
    let mut i: usize = 0;
    proof {
        assert(out@ =~= start + repeated(c, 0));
    }
    while i < n
        invariant
            i <= n,
            piece@ == seq![c],
            out@ == start + repeated(c, i as nat),
        decreases n - i,
    {
        out.append(piece);
        i += 1;
        proof {
            assert(out@ =~= start + repeated(c, i as nat));
        }
    }
}

/// Appends the spaces that a text of `len` characters is short of `width`.
fn push_padding(out: &mut String, Ghost(text): Ghost<Seq<char>>, len: usize, width: usize)
    requires
        text.len() == len,
    ensures
        final(out)@ == old(out)@ + padding(text, width as nat),
{
    if len < width {
        proof {
            reveal_strlit(" ");
            assert(" "@ =~= seq![' ']);
        }
        push_repeated(out, " ", Ghost(' '), width - len);
    } else {
        assert(out@ =~= out@ + Seq::<char>::empty());
    }
}

/// Appends `text`, aligned to the right in `width` characters.
fn push_right_aligned(out: &mut String, text: &str, width: usize)
    ensures
        final(out)@ == old(out)@ + right_aligned(text@, width as nat),
{
    let ghost start = out@;
    let len: usize = text.unicode_len();
    push_padding(out, Ghost(text@), len, width);
    out.append(text);
    proof {
        assert(out@ =~= start + right_aligned(text@, width as nat));
    }
}

/// Appends `text`, aligned to the left in `width` characters.
fn push_left_aligned(out: &mut String, text: &str, width: usize)
    ensures
        final(out)@ == old(out)@ + left_aligned(text@, width as nat),
{
    let ghost start = out@;
    let len: usize = text.unicode_len();
    out.append(text);
    push_padding(out, Ghost(text@), len, width);
    proof {
        assert(out@ =~= start + left_aligned(text@, width as nat));
    }
}

/// The decimal digit `d` as a string.
fn digit_str(d: u8) -> (r: &'static str)
    requires
        d < 10,
    ensures
        r@ == seq![digit_char(d as int)],
{
    proof {
        reveal_strlit("0");
        reveal_strlit("1");
        reveal_strlit("2");
        reveal_strlit("3");
        reveal_strlit("4");
        reveal_strlit("5");
        reveal_strlit("6");
        reveal_strlit("7");
        reveal_strlit("8");
        reveal_strlit("9");
    }
    let r = if d == 0 {
        "0"
    } else if d == 1 {
        "1"
    } else if d == 2 {
        "2"
    } else if d == 3 {
        "3"
    } else if d == 4 {
        "4"
    } else if d == 5 {
        "5"
    } else if d == 6 {
        "6"
    } else if d == 7 {
        "7"
    } else if d == 8 {
        "8"
    } else {
        "9"
    };
    assert(r@ =~= seq![digit_char(d as int)]);
    r
}

/// The decimal digits of `n`.
fn digits_string(n: u128) -> (r: String)
    ensures
        r@ == digits(n as nat),
    decreases n,
{
    if n < 10 {
        digit_str(n as u8).to_owned()
    } else {
        let mut r = digits_string(n / 10);
        r.append(digit_str((n % 10) as u8));
        proof {
            assert(r@ =~= digits(n as nat));
        }
        r
    }
}

/// A number of tenths as a decimal with one fractional digit.
pub fn decimal_string(tenths: i128) -> (r: String)
    ensures
        r@ == decimal_text(tenths as int),
{
    let negative: bool = tenths < 0;
    let magnitude: u128 = if negative {
        (-(tenths + 1)) as u128 + 1
    } else {
        tenths as u128
    };
    let mut r = String::new();
    proof {
        reveal_strlit("-");
        reveal_strlit(".");
    }
    if negative {
        r.append("-");
    }
    let whole = digits_string(magnitude / 10);
    r.append(whole.as_str());
    r.append(".");
    r.append(digit_str((magnitude % 10) as u8));
    proof {
        assert(r@ =~= decimal_text(tenths as int));
    }
    r
}

/// Appends one cell between a space and a delimiter.
fn push_cell(out: &mut String, tenths: i128, width: usize)
    ensures
        final(out)@ == old(out)@ + seq![' '] + cell_text(tenths as int, width as nat) + seq![
            ' ',
            '|',
        ],
{
    let ghost start = out@;
    proof {
        reveal_strlit(" ");
        reveal_strlit(" |");
    }
    out.append(" ");
    if tenths == 0 {
        push_right_aligned(out, " ", width);
    } else {
        let text = decimal_string(tenths);
        push_right_aligned(out, text.as_str(), width);
    }
    out.append(" |");
    proof {
        assert(" "@ =~= seq![' ']);
        assert(" |"@ =~= seq![' ', '|']);
        assert(out@ =~= start + seq![' '] + cell_text(tenths as int, width as nat) + seq![
            ' ',
            '|',
        ]);
    }
}

/// Appends the cells of a row.
fn push_cells(out: &mut String, cells: &Vec<i128>, width: usize)
    ensures
        final(out)@ == old(out)@ + cells_text(cell_values(cells@), width as nat),
{
    let ghost start = out@;
    let ghost values = cell_values(cells@);
    let mut i: usize = 0;
    proof {
        assert(values.take(0) =~= Seq::empty());
        assert(out@ =~= start + cells_text(values.take(0), width as nat));
    }
    while i < cells.len()
        invariant
            i <= cells@.len(),
            values == cell_values(cells@),
            out@ == start + cells_text(values.take(i as int), width as nat),
        decreases cells@.len() - i,
    {
        let ghost before = out@;
        push_cell(out, cells[i], width);
        proof {
            let next = values.take(i + 1);
            assert(next.drop_last() =~= values.take(i as int));
            assert(next.last() == cells@[i as int] as int);
            assert(out@ =~= start + cells_text(next, width as nat));
        }
        i += 1;
    }
    proof {
        assert(values.take(i as int) =~= values);
    }
}

/// Appends one line of the table.
pub fn push_row(
    out: &mut String,
    label: &str,
    cells: &Vec<i128>,
    tag_width: usize,
    column_width: usize,
)
    ensures
        final(out)@ == old(out)@ + row_text(
            RowModel { label: label@, cells: cell_values(cells@) },
            tag_width as nat,
            column_width as nat,
        ),
{
    let ghost start = out@;
    proof {
        reveal_strlit(" |");
        reveal_strlit("\n");
    }
    push_left_aligned(out, label, tag_width);
    out.append(" |");
    push_cells(out, cells, column_width);
    out.append("\n");
    proof {
        assert(" |"@ =~= seq![' ', '|']);
        assert("\n"@ =~= seq!['\n']);
        assert(out@ =~= start + row_text(
            RowModel { label: label@, cells: cell_values(cells@) },
            tag_width as nat,
            column_width as nat,
        ));
    }
}

/// The name at the head of numeric column `i`.
fn column_name(i: usize) -> (r: &'static str)
    requires
        i < 8,
    ensures
        r@ == column_names()[i as int],
{
    if i == 0 {
        "Mon"
    } else if i == 1 {
        "Tue"
    } else if i == 2 {
        "Wed"
    } else if i == 3 {
        "Thu"
    } else if i == 4 {
        "Fri"
    } else if i == 5 {
        "Sat"
    } else if i == 6 {
        "Sun"
    } else {
        "Tot"
    }
}

/// Appends the first line of the table.
pub fn push_header(out: &mut String, tag_width: usize, column_width: usize)
    ensures
        final(out)@ == old(out)@ + header_text(tag_width as nat, column_width as nat),
{
    let ghost start = out@;
    proof {
        reveal_strlit(" ");
        reveal_strlit(" | ");
        reveal_strlit("\n");
        assert(" "@ =~= seq![' ']);
        assert(" | "@ =~= seq![' ', '|', ' ']);
        assert("\n"@ =~= seq!['\n']);
    }
    push_repeated(out, " ", Ghost(' '), tag_width);
    out.append(" | ");
    let ghost mid = out@;
    let mut i: usize = 0;
    proof {
        assert(out@ =~= mid + names_text(0, column_width as nat));
    }
    while i < 8
        invariant
            i <= 8,
            " | "@ == seq![' ', '|', ' '],
            out@ == mid + names_text(i as int, column_width as nat),
        decreases 8 - i,
    {
        push_right_aligned(out, column_name(i), column_width);
        out.append(" | ");
        i += 1;
        proof {
            assert(out@ =~= mid + names_text(i as int, column_width as nat));
        }
    }
    out.append("\n");
    proof {
        assert(out@ =~= start + header_text(tag_width as nat, column_width as nat));
    }
}

/// Appends a separator line.
pub fn push_separator(out: &mut String, tag_width: usize, column_width: usize)
    ensures
        final(out)@ == old(out)@ + separator_text(tag_width as nat, column_width as nat),
{
    let ghost start = out@;
    proof {
        reveal_strlit("=");
        reveal_strlit("=|");
        reveal_strlit("\n");
        assert("="@ =~= seq!['=']);
        assert("=|"@ =~= seq!['=', '|']);
        assert("\n"@ =~= seq!['\n']);
    }
    push_repeated(out, "=", Ghost('='), tag_width);
    out.append("=|");
    let ghost mid = out@;
    let mut i: usize = 0;
    proof {
        assert(out@ =~= mid + rules_text(0, column_width as nat));
    }
    while i < 8
        invariant
            i <= 8,
            "="@ == seq!['='],
            "=|"@ == seq!['=', '|'],
            out@ == mid + rules_text(i as int, column_width as nat),
        decreases 8 - i,
    {
        out.append("=");
        push_repeated(out, "=", Ghost('='), column_width);
        out.append("=|");
        i += 1;
        proof {
            assert(out@ =~= mid + rules_text(i as int, column_width as nat));
        }
    }
    out.append("\n");
    proof {
        assert(out@ =~= start + separator_text(tag_width as nat, column_width as nat));
    }
}

} // verus!
