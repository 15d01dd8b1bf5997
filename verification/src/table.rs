//! The table that lays out a menu: `tabular::Table`, kept behind a few
//! contracts.
//!
//! A `Sheet` holds one such table where nothing else can reach it. It
//! is made empty, with the line ending that `tabular` starts with, and
//! grows by rows of plain cells and by headings only: so what it prints
//! depends on its row format and its lines alone. The calls into
//! `tabular` are not proved; their contracts say how each call changes
//! the list of lines, as the source of `tabular` shows it, and name the
//! text that the table prints.

use vstd::prelude::*;
use tabular::Table;
use crate::text::texts_view;

verus! {

/// `tabular::Table`.
#[verifier::external_type_specification]
#[verifier::external_body]
pub struct ExTable(tabular::Table);

/// One line of a table.
pub enum Line {
    /// A row of cells, one for each column.
    Cells(Seq<Seq<char>>),
    /// A text that spans the table and takes no part in its layout.
    Heading(Seq<char>),
}

/// The row format that a table was made with.
pub uninterp spec fn table_format(table: Table) -> Seq<char>;

/// The lines of a table, in the order in which they were added.
pub uninterp spec fn table_lines(table: Table) -> Seq<Line>;

/// The number of columns that `tabular` reads from a row format, if it
/// accepts the format.
pub uninterp spec fn format_columns(format: Seq<char>) -> Option<nat>;

/// The text that `tabular` prints for a table of this format and these
/// lines, where every line ends as `tabular` ends lines from the start
/// and every cell is as wide as `tabular` measures its text.
pub uninterp spec fn table_text(format: Seq<char>, lines: Seq<Line>) -> Seq<char>;

/// A table of the library's own: made empty by `Sheet::new`, and
/// changed by `Sheet::add_row` and `Sheet::add_heading` only.
pub struct Sheet {
    table: Table,
}

/// `tabular::Table::new_safe`: an empty table of this row format, or
/// `None` where `tabular` does not accept the format.
#[verifier::external_body]
fn new_table(format: &str) -> (r: Option<Sheet>)
    ensures
        r is Some <==> format_columns(format@) is Some,
        r matches Some(sheet) ==> table_format(sheet.table) == format@ && table_lines(sheet.table)
            == Seq::<Line>::empty(),
{
    Table::new_safe(format).ok().map(|table| Sheet { table })
}

/// `tabular::Table::column_count`: the number of columns that the
/// table's format has.
#[verifier::external_body]
fn count_columns(sheet: &Sheet) -> (r: usize)
    ensures
        format_columns(table_format(sheet.table)) == Some(r as nat),
{
    sheet.table.column_count()
}

/// `tabular::Table::add_row`, with a row made by
/// `tabular::Row::from_cells`. It panics unless there is one cell for
/// each column, which `requires` asks for. The row becomes the last
/// line; the format stays.
#[verifier::external_body]
fn put_row(sheet: &mut Sheet, cells: &Vec<String>)
    requires
        format_columns(table_format(old(sheet).table)) == Some(cells.len() as nat),
    ensures
        table_format(final(sheet).table) == table_format(old(sheet).table),
        table_lines(final(sheet).table) == table_lines(old(sheet).table).push(
            Line::Cells(texts_view(cells@)),
        ),
{
    sheet.table.add_row(tabular::Row::from_cells(cells.iter().cloned()));
}

/// `tabular::Table::add_heading`: the heading becomes the last line;
/// the format stays.
#[verifier::external_body]
fn put_heading(sheet: &mut Sheet, heading: &str)
    ensures
        table_format(final(sheet).table) == table_format(old(sheet).table),
        table_lines(final(sheet).table) == table_lines(old(sheet).table).push(
            Line::Heading(heading@),
        ),
{
    sheet.table.add_heading(heading);
}

/// `to_string` on the `tabular::Table` of a sheet, which prints it by
/// its `Display`. The contract only names the result. It holds of a
/// sheet because no sheet has another line ending than the one that
/// `tabular` starts with, nor a cell of a width that was set by hand.
#[verifier::external_body]
fn render(sheet: &Sheet) -> (text: String)
    ensures
        text@ == table_text(table_format(sheet.table), table_lines(sheet.table)),
{
    sheet.table.to_string()
}

impl Sheet {
    /// The row format that the sheet was made with.
    pub closed spec fn format(&self) -> Seq<char> {
        table_format(self.table)
    }

    /// The lines of the sheet, in the order in which they were added.
    pub closed spec fn lines(&self) -> Seq<Line> {
        table_lines(self.table)
    }

    /// An empty sheet of this row format, or `None` where `tabular`
    /// does not accept the format.
    pub fn new(format: &str) -> (r: Option<Sheet>)
        ensures
            r is Some <==> format_columns(format@) is Some,
            r matches Some(sheet) ==> sheet.format() == format@ && sheet.lines() == Seq::<
                Line,
            >::empty(),
    {
        new_table(format)
    }

    /// The number of columns of the sheet.
    pub fn column_count(&self) -> (r: usize)
        ensures
            format_columns(self.format()) == Some(r as nat),
    {
        count_columns(self)
    }

    /// Adds a row of cells as the last line, if there is one cell for
    /// each column; else the sheet stays as it is. Says whether the
    /// row was added.
    pub fn add_row(&mut self, cells: &Vec<String>) -> (added: bool)
        ensures
            final(self).format() == old(self).format(),
            added == (format_columns(old(self).format()) == Some(cells.len() as nat)),
            final(self).lines() == if added {
                old(self).lines().push(Line::Cells(texts_view(cells@)))
            } else {
                old(self).lines()
            },
    {
        if count_columns(self) == cells.len() {
            put_row(self, cells);
            true
        } else {
            false
        }
    }

    /// Adds a heading as the last line.
    pub fn add_heading(&mut self, heading: &str)
        ensures
            final(self).format() == old(self).format(),
            final(self).lines() == old(self).lines().push(Line::Heading(heading@)),
    {
        put_heading(self, heading);
    }

    /// The text that the sheet prints.
    pub fn text(&self) -> (text: String)
        ensures
            text@ == table_text(self.format(), self.lines()),
    {
        render(self)
    }
}

} // verus!
