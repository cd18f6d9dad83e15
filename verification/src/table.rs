//! The table: five columns between borders, each as wide as its widest
//! plain text, the colored text written in the cells.

use crate::palette;
use crate::palette::{paint, painted};
use crate::row::{row_views, EntryRow, RowView};
use crate::text::{byte_len, decimal, decimal_string, push_char, push_repeated, string_texts, width_of};
use vstd::prelude::*;
use vstd::string::*;

verus! {

/// The side of a cell on which its text stands.
#[derive(Clone, Copy, Debug, PartialEq, Eq, Structural)]
pub enum Align {
    Left,
    Right,
}

/// The place of a border in the table.
#[derive(Clone, Copy, Debug, PartialEq, Eq, Structural)]
pub enum BorderKind {
    Top,
    Middle,
    Bottom,
}

/// `count` times the character `c`.
pub open spec fn repeated(c: char, count: nat) -> Seq<char> {
    Seq::new(count, |i: int| c)
}

/// The number of spaces that fill a cell of width `width` beside the
/// plain text `plain`: none where the text is as wide as the cell or wider.
pub open spec fn padding(plain: Seq<char>, width: usize) -> nat {
    if width > byte_len(plain) {
        (width - byte_len(plain)) as nat
    } else {
        0
    }
}

/// The text of a cell: the colored text, with the padding that the plain
/// text leaves, behind it where the cell is aligned left and before it
/// where the cell is aligned right.
pub open spec fn padded(colored: Seq<char>, plain: Seq<char>, width: usize, align: Align) -> Seq<
    char,
> {
    match align {
        Align::Left => colored + repeated(' ', padding(plain, width)),
        Align::Right => repeated(' ', padding(plain, width)) + colored,
    }
}

/// Pads the colored text of a cell to the width of its column, which the
/// plain text measures.
pub fn pad_cell(colored: &str, plain: &str, width: usize, align: Align) -> (cell: String)
    ensures
        cell@ == padded(colored@, plain@, width, align),
{
    let taken = width_of(plain);
    let pad: usize = if width > taken {
        width - taken
    } else {
        0
    };
    let mut cell = String::new();
    match align {
        Align::Left => {
            cell.append(colored);
            push_repeated(&mut cell, ' ', pad);
        },
        Align::Right => {
            push_repeated(&mut cell, ' ', pad);
            cell.append(colored);
        },
    }
    assert(cell@ =~= padded(colored@, plain@, width, align));
    cell
}

/// The upright stroke between two cells, in the color of the borders.
pub open spec fn stroke() -> Seq<char> {
    painted("│"@, palette::BORDER@)
}

/// The columns of a row as texts: of each the plain text, the colored
/// text and the alignment.
pub open spec fn cell_texts(columns: Seq<(String, String, Align)>) -> Seq<
    (Seq<char>, Seq<char>, Align),
> {
    Seq::new(columns.len(), |i: int| (columns[i].0@, columns[i].1@, columns[i].2))
}

/// The first `count` cells of a row, each between two spaces and
/// followed by a stroke, after the stroke that opens the row.
pub open spec fn cells_text(
    columns: Seq<(Seq<char>, Seq<char>, Align)>,
    widths: Seq<usize>,
    count: nat,
) -> Seq<char>
    decreases count,
{
    if count == 0 {
        stroke()
    } else {
        let at = (count - 1) as int;
        cells_text(columns, widths, (count - 1) as nat) + " "@ + padded(
            columns[at].1,
            columns[at].0,
            widths[at],
            columns[at].2,
        ) + " "@ + stroke()
    }
}

/// The line of a row: as many cells as there are both columns and widths.
pub open spec fn row_text(columns: Seq<(Seq<char>, Seq<char>, Align)>, widths: Seq<usize>) -> Seq<
    char,
> {
    cells_text(
        columns,
        widths,
        if columns.len() <= widths.len() {
            columns.len()
        } else {
            widths.len()
        },
    )
}

/// Writes the line of a row. A column is its plain text, its colored
/// text and its alignment.
pub fn render_row(columns: &[(String, String, Align)], widths: &[usize]) -> (line: String)
    ensures
        line@ == row_text(cell_texts(columns@), widths@),
{
    let mut line = paint("│", palette::BORDER);
    let count = if columns.len() <= widths.len() {
        columns.len()
    } else {
        widths.len()
    };
    let mut i: usize = 0;
    while i < count
        invariant
            i <= count,
            count <= columns.len(),
            count <= widths.len(),
            line@ == cells_text(cell_texts(columns@), widths@, i as nat),
        decreases count - i,
    {
        let column = &columns[i];
        let cell = pad_cell(column.1.as_str(), column.0.as_str(), widths[i], column.2);
        line.append(" ");
        line.append(cell.as_str());
        line.append(" ");
        let bar = paint("│", palette::BORDER);
        line.append(bar.as_str());
        i += 1;
    }
    line
}

/// The character with which a border starts.
pub open spec fn border_start(kind: BorderKind) -> char {
    match kind {
        BorderKind::Top => '┌',
        BorderKind::Middle => '├',
        BorderKind::Bottom => '└',
    }
}

/// The character at which a border crosses the stroke between two columns.
pub open spec fn border_joint(kind: BorderKind) -> char {
    match kind {
        BorderKind::Top => '┬',
        BorderKind::Middle => '┼',
        BorderKind::Bottom => '┴',
    }
}

/// The character with which a border ends.
pub open spec fn border_end(kind: BorderKind) -> char {
    match kind {
        BorderKind::Top => '┐',
        BorderKind::Middle => '┤',
        BorderKind::Bottom => '┘',
    }
}

/// A border over its first `count` columns: its start, then for every
/// column a line two longer than the column is wide, followed by a joint,
/// or by the end after the last of all columns.
pub open spec fn border_line(widths: Seq<usize>, kind: BorderKind, count: nat) -> Seq<char>
    decreases count,
{
    if count == 0 {
        seq![border_start(kind)]
    } else {
        border_line(widths, kind, (count - 1) as nat) + repeated(
            '─',
            (widths[count - 1] + 2) as nat,
        ) + seq![
            if count == widths.len() {
                border_end(kind)
            } else {
                border_joint(kind)
            },
        ]
    }
}

/// The text of a border, in the color of the borders.
pub open spec fn border_text(widths: Seq<usize>, kind: BorderKind) -> Seq<char> {
    painted(border_line(widths, kind, widths.len()), palette::BORDER@)
}

/// Writes a border of the table for columns of the given widths.
pub fn horizontal_border(widths: &[usize], kind: BorderKind) -> (border: String)
    ensures
        border@ == border_text(widths@, kind),
{
    let (start, sep, end) = match kind {
        BorderKind::Top => ('┌', '┬', '┐'),
        BorderKind::Middle => ('├', '┼', '┤'),
        BorderKind::Bottom => ('└', '┴', '┘'),
    };
    let mut line = String::new();
    push_char(&mut line, start);
    assert(line@ =~= seq![border_start(kind)]);
    let mut i: usize = 0;
    while i < widths.len()
        invariant
            i <= widths.len(),
            sep == border_joint(kind),
            end == border_end(kind),
            line@ == border_line(widths@, kind, i as nat),
        decreases widths.len() - i,
    {
        let ghost had = line@;
        push_repeated(&mut line, '─', widths[i]);
        push_repeated(&mut line, '─', 2);
        assert(had + repeated('─', widths@[i as int] as nat) + repeated('─', 2) =~= had + repeated(
            '─',
            (widths@[i as int] + 2) as nat,
        ));
        if i + 1 == widths.len() {
            push_char(&mut line, end);
        } else {
            push_char(&mut line, sep);
        }
        i += 1;
    }
    paint(line.as_str(), palette::BORDER)
}

/// The columns of the table that show a text of the row.
#[derive(Clone, Copy, Debug, PartialEq, Eq, Structural)]
pub enum Column {
    Name,
    Type,
    Size,
    Modified,
}

/// The plain text of a row in a column.
pub open spec fn plain_in(row: RowView, column: Column) -> Seq<char> {
    match column {
        Column::Name => row.name_with_git_plain,
        Column::Type => row.entry_type_plain,
        Column::Size => row.size_plain,
        Column::Modified => row.modified_plain,
    }
}

/// The colored text of a row in a column.
pub open spec fn colored_in(row: RowView, column: Column) -> Seq<char> {
    match column {
        Column::Name => row.name_with_git_colored,
        Column::Type => row.entry_type_colored,
        Column::Size => row.size_colored,
        Column::Modified => row.modified_colored,
    }
}

/// The label of a column in the header.
pub open spec fn label_of(column: Column) -> Seq<char> {
    match column {
        Column::Name => "name"@,
        Column::Type => "type"@,
        Column::Size => "size"@,
        Column::Modified => "modified"@,
    }
}

/// The width of a column: that of its label, or that of the widest plain
/// text that a row has in it, if that is more.
pub open spec fn column_width(rows: Seq<RowView>, column: Column) -> usize
    decreases rows.len(),
{
    if rows.len() == 0 {
        byte_len(label_of(column))
    } else {
        let before = column_width(rows.drop_last(), column);
        let last = byte_len(plain_in(rows.last(), column));
        if last > before {
            last
        } else {
            before
        }
    }
}

/// The width of the index column: that of the largest index that is
/// shown, which is 0 for an empty table too, and at least 1.
pub open spec fn index_width(count: nat) -> usize {
    let largest = if count == 0 {
        0
    } else {
        (count - 1) as nat
    };
    if byte_len(decimal(largest)) < 1 {
        1
    } else {
        byte_len(decimal(largest))
    }
}

/// The widths of the five columns: index, name, type, size, modified.
pub open spec fn column_widths(rows: Seq<RowView>) -> Seq<usize> {
    seq![
        index_width(rows.len()),
        column_width(rows, Column::Name),
        column_width(rows, Column::Type),
        column_width(rows, Column::Size),
        column_width(rows, Column::Modified),
    ]
}

/// A cell of the header: its label, the label in color, its alignment.
pub open spec fn header_cell(label: Seq<char>, color: Seq<char>, align: Align) -> (
    Seq<char>,
    Seq<char>,
    Align,
) {
    (label, painted(label, color), align)
}

/// The cells of the header. The index and the size stand on the right.
pub open spec fn header_cells() -> Seq<(Seq<char>, Seq<char>, Align)> {
    seq![
        header_cell("#"@, palette::INDEX@, Align::Right),
        header_cell(label_of(Column::Name), palette::HEADER@, Align::Left),
        header_cell(label_of(Column::Type), palette::HEADER@, Align::Left),
        header_cell(label_of(Column::Size), palette::HEADER@, Align::Right),
        header_cell(label_of(Column::Modified), palette::HEADER@, Align::Left),
    ]
}

/// A cell of a row in a column.
pub open spec fn data_cell(row: RowView, column: Column, align: Align) -> (
    Seq<char>,
    Seq<char>,
    Align,
) {
    (plain_in(row, column), colored_in(row, column), align)
}

/// The cells of the row that stands at `index`.
pub open spec fn data_cells(index: nat, row: RowView) -> Seq<(Seq<char>, Seq<char>, Align)> {
    seq![
        header_cell(decimal(index), palette::INDEX@, Align::Right),
        data_cell(row, Column::Name, Align::Left),
        data_cell(row, Column::Type, Align::Left),
        data_cell(row, Column::Size, Align::Right),
        data_cell(row, Column::Modified, Align::Left),
    ]
}

/// The lines of the table: the top border, the header, a border, one
/// line for every row, the bottom border.
pub open spec fn table_lines(rows: Seq<RowView>) -> Seq<Seq<char>> {
    let widths = column_widths(rows);
    seq![
        border_text(widths, BorderKind::Top),
        row_text(header_cells(), widths),
        border_text(widths, BorderKind::Middle),
    ] + Seq::new(rows.len(), |i: int| row_text(data_cells(i as nat, rows[i]), widths)) + seq![
        border_text(widths, BorderKind::Bottom),
    ]
}

fn plain_text_in(row: &EntryRow, column: Column) -> (text: &String)
    ensures
        text@ == plain_in(row@, column),
{
    match column {
        Column::Name => &row.name_with_git_plain,
        Column::Type => &row.entry_type_plain,
        Column::Size => &row.size_plain,
        Column::Modified => &row.modified_plain,
    }
}

fn colored_text_in(row: &EntryRow, column: Column) -> (text: &String)
    ensures
        text@ == colored_in(row@, column),
{
    match column {
        Column::Name => &row.name_with_git_colored,
        Column::Type => &row.entry_type_colored,
        Column::Size => &row.size_colored,
        Column::Modified => &row.modified_colored,
    }
}

fn label(column: Column) -> (text: &'static str)
    ensures
        text@ == label_of(column),
{
    match column {
        Column::Name => "name",
        Column::Type => "type",
        Column::Size => "size",
        Column::Modified => "modified",
    }
}

fn measure_column(rows: &Vec<EntryRow>, column: Column) -> (width: usize)
    ensures
        width == column_width(row_views(rows@), column),
{
    let ghost all = row_views(rows@);
    let mut width = width_of(label(column));
    let mut i: usize = 0;
    assert(all.take(0) =~= Seq::<RowView>::empty());
    while i < rows.len()
        invariant
            i <= rows.len(),
            all == row_views(rows@),
            width == column_width(all.take(i as int), column),
        decreases rows.len() - i,
    {
        assert(all.take(i + 1).drop_last() =~= all.take(i as int));
        assert(all.take(i + 1).last() == rows@[i as int]@);
        let taken = width_of(plain_text_in(&rows[i], column).as_str());
        if taken > width {
            width = taken;
        }
        i += 1;
    }
    assert(all.take(i as int) =~= all);
    width
}

fn labelled(text: &str, color: &str, align: Align) -> (cell: (String, String, Align))
    ensures
        (cell.0@, cell.1@, cell.2) == header_cell(text@, color@, align),
{
    (String::from_str(text), paint(text, color), align)
}

fn cell_in(row: &EntryRow, column: Column, align: Align) -> (cell: (String, String, Align))
    ensures
        (cell.0@, cell.1@, cell.2) == data_cell(row@, column, align),
{
    (plain_text_in(row, column).clone(), colored_text_in(row, column).clone(), align)
}

/// Writes the table of the rows, line by line: the top border, the
/// header, a border, the rows with their indices, the bottom border. A
/// column is as wide as the widest plain text in it, its label included.
pub fn render_table(rows: Vec<EntryRow>) -> (lines: Vec<String>)
    ensures
        string_texts(lines@) == table_lines(row_views(rows@)),
{
    let ghost shown = row_views(rows@);
    let largest: usize = if rows.len() == 0 {
        0
    } else {
        rows.len() - 1
    };
    let numeral = decimal_string(largest as u64);
    let digits = width_of(numeral.as_str());
    let index_column: usize = if digits < 1 {
        1
    } else {
        digits
    };
    let mut widths: Vec<usize> = Vec::new();
    widths.push(index_column);
    widths.push(measure_column(&rows, Column::Name));
    widths.push(measure_column(&rows, Column::Type));
    widths.push(measure_column(&rows, Column::Size));
    widths.push(measure_column(&rows, Column::Modified));
    assert(widths@ =~= column_widths(shown));
    let mut lines: Vec<String> = Vec::new();
    lines.push(horizontal_border(widths.as_slice(), BorderKind::Top));
    let mut header: Vec<(String, String, Align)> = Vec::new();
    header.push(labelled("#", palette::INDEX, Align::Right));
    header.push(labelled(label(Column::Name), palette::HEADER, Align::Left));
    header.push(labelled(label(Column::Type), palette::HEADER, Align::Left));
    header.push(labelled(label(Column::Size), palette::HEADER, Align::Right));
    header.push(labelled(label(Column::Modified), palette::HEADER, Align::Left));
    assert(cell_texts(header@) =~= header_cells());
    lines.push(render_row(header.as_slice(), widths.as_slice()));
    lines.push(horizontal_border(widths.as_slice(), BorderKind::Middle));
    let ghost head = seq![
        border_text(widths@, BorderKind::Top),
        row_text(header_cells(), widths@),
        border_text(widths@, BorderKind::Middle),
    ];
    assert(string_texts(lines@) =~= head);
    let mut i: usize = 0;
    while i < rows.len()
        invariant
            i <= rows.len(),
            shown == row_views(rows@),
            widths@ == column_widths(shown),
            string_texts(lines@) == head + Seq::new(
                i as nat,
                |k: int| row_text(data_cells(k as nat, shown[k]), widths@),
            ),
        decreases rows.len() - i,
    {
        let row = &rows[i];
        let numeral = decimal_string(i as u64);
        let mut cells: Vec<(String, String, Align)> = Vec::new();
        cells.push(labelled(numeral.as_str(), palette::INDEX, Align::Right));
        cells.push(cell_in(row, Column::Name, Align::Left));
        cells.push(cell_in(row, Column::Type, Align::Left));
        cells.push(cell_in(row, Column::Size, Align::Right));
        cells.push(cell_in(row, Column::Modified, Align::Left));
        assert(cell_texts(cells@) =~= data_cells(i as nat, shown[i as int]));
        let ghost had = string_texts(lines@);
        let line = render_row(cells.as_slice(), widths.as_slice());
        lines.push(line);
        assert(string_texts(lines@) =~= had.push(line@));
        assert(head + Seq::new(
            (i + 1) as nat,
            |k: int| row_text(data_cells(k as nat, shown[k]), widths@),
        ) =~= (head + Seq::new(
            i as nat,
            |k: int| row_text(data_cells(k as nat, shown[k]), widths@),
        )).push(line@));
        i += 1;
    }
    let ghost had = string_texts(lines@);
    let bottom = horizontal_border(widths.as_slice(), BorderKind::Bottom);
    lines.push(bottom);
    assert(string_texts(lines@) =~= had.push(bottom@));
    assert(string_texts(lines@) =~= table_lines(shown));
    lines
}

} // verus!
