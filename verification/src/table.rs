//! The rows of a report as a table that can be printed.

use crate::args::HistoryMode;
use crate::clock::current_second;
use crate::data::Data;
use crate::report::{running_rows, shows_history, Row, TaskRow};
use crate::task_map::lists;
use crate::text::{decimal, decimal_string};
use comfy_table::Table;
use vstd::prelude::*;

verus! {

/// `comfy_table::Table`. Contracts see of a table what `table_rows` and
/// `table_header` name, and nothing else.
#[verifier::external_type_specification]
#[verifier::external_body]
pub struct ExTable(comfy_table::Table);

/// The rows of a table from the top, and of each row the text of its cells
/// from the left: what `Table::row_iter`, `Row::cell_iter` and `Cell::content`
/// hand out. The header is no row.
pub uninterp spec fn table_rows(table: Table) -> Seq<Seq<Seq<char>>>;

/// The text of the cells of a table's header, from the left: what
/// `Table::header`, `Row::cell_iter` and `Cell::content` hand out, and no
/// cell for a table without a header.
pub uninterp spec fn table_header(table: Table) -> Seq<Seq<char>>;

/// `comfy_table::Table::new`. The contract claims that the new table has no
/// rows and no header.
#[verifier::external_body]
fn new_table() -> (table: Table)
    ensures
        table_rows(table) == Seq::<Seq<Seq<char>>>::empty(),
        table_header(table) == Seq::<Seq<char>>::empty(),
{
    Table::new()
}

/// `comfy_table::Table::load_style`, with the preset
/// `comfy_table::presets::UTF8_FULL`. The contract claims that the style of
/// the borders leaves rows and header as they are.
#[verifier::external_body]
fn draw_full_borders(table: &mut Table)
    ensures
        table_rows(*final(table)) == table_rows(*old(table)),
        table_header(*final(table)) == table_header(*old(table)),
{
    table.load_style(comfy_table::presets::UTF8_FULL);
}

/// `comfy_table::Table::set_header`. The contract claims that the header then
/// holds one cell for each string of `cells`, with that string as its text,
/// and that the rows stay as they are.
#[verifier::external_body]
fn set_header(table: &mut Table, cells: Vec<String>)
    ensures
        table_header(*final(table)) == cells.deep_view(),
        table_rows(*final(table)) == table_rows(*old(table)),
{
    table.set_header(cells);
}

/// `comfy_table::Table::add_row`. The contract claims that the table then has
/// one more row, below the others, with one cell for each string of `cells`
/// and that string as its text, and that the header stays as it is.
#[verifier::external_body]
fn add_row(table: &mut Table, cells: Vec<String>)
    ensures
        table_rows(*final(table)) == table_rows(*old(table)).push(cells.deep_view()),
        table_header(*final(table)) == table_header(*old(table)),
{
    table.add_row(cells);
}

/// The header of every report.
pub open spec fn header_cells() -> Seq<Seq<char>> {
    seq!["Task"@, "Days"@, "Hours"@, "Minutes"@, "Seconds"@]
}

/// The cells of a row: the task, then days, hours, minutes and seconds in
/// decimal notation.
pub open spec fn row_cells(row: Row) -> Seq<Seq<char>> {
    seq![
        row.0,
        decimal(row.1.days as nat),
        decimal(row.1.hours as nat),
        decimal(row.1.minutes as nat),
        decimal(row.1.seconds as nat),
    ]
}

/// The cells of some rows.
pub open spec fn cells_of(rows: Seq<Row>) -> Seq<Seq<Seq<char>>> {
    Seq::new(rows.len(), |i: int| row_cells(rows[i]))
}

/// A table with full borders that shows `rows` under the header `Task`,
/// `Days`, `Hours`, `Minutes`, `Seconds`.
pub fn table(rows: &Vec<TaskRow>) -> (t: Table)
    ensures
        table_header(t) == header_cells(),
        table_rows(t) == cells_of(rows.deep_view()),
{
    let mut t = new_table();
    draw_full_borders(&mut t);
    let mut header: Vec<String> = Vec::new();
    header.push(String::from_str("Task"));
    header.push(String::from_str("Days"));
    header.push(String::from_str("Hours"));
    header.push(String::from_str("Minutes"));
    header.push(String::from_str("Seconds"));
    assert(header.deep_view() =~= header_cells());
    set_header(&mut t, header);
    let mut i: usize = 0;
    while i < rows.len()
        invariant
            i <= rows.len(),
            table_header(t) == header_cells(),
            table_rows(t) == cells_of(rows.deep_view()).take(i as int),
        decreases rows.len() - i,
    {
        let mut cells: Vec<String> = Vec::new();
        cells.push(rows[i].task.clone());
        cells.push(decimal_string(rows[i].duration.days));
        cells.push(decimal_string(rows[i].duration.hours));
        cells.push(decimal_string(rows[i].duration.minutes));
        cells.push(decimal_string(rows[i].duration.seconds));
        proof {
            let all = cells_of(rows.deep_view());
            assert(cells.deep_view() =~= row_cells(rows.deep_view()[i as int]));
            assert(all.take(i + 1) =~= all.take(i as int).push(all[i as int]));
        }
        add_row(&mut t, cells);
        i += 1;
    }
    assert(cells_of(rows.deep_view()).take(i as int) =~= cells_of(rows.deep_view()));
    t
}

impl Data {
    /// The table of the running tasks at the second `now`: one row for each,
    /// in the order of `running_snapshot`, with the time since its start.
    pub fn table_running_at(&self, now: i64) -> (t: Table)
        ensures
            table_header(t) == header_cells(),
            table_rows(t) == cells_of(running_rows(self.running.listing(), now)),
            lists(self.running.listing(), self@.running),
    {
        let rows = self.render_running(now);
        table(&rows)
    }

    /// The table of the running tasks at the second that the clock shows.
    pub fn table_running(&self) -> (t: Table)
        ensures
            table_header(t) == header_cells(),
            exists|now: i64|
                table_rows(t) == cells_of(#[trigger] running_rows(self.running.listing(), now)),
            lists(self.running.listing(), self@.running),
    {
        let now: i64 = current_second();
        let t = self.table_running_at(now);
        assert(table_rows(t) == cells_of(running_rows(self.running.listing(), now)));
        t
    }

    /// The table of the finished work: one row for each task, the longest
    /// work first. Both modes show the sum of a task's seconds.
    pub fn table_history(&self, mode: HistoryMode) -> (t: Table)
        ensures
            table_header(t) == header_cells(),
            exists|rows: Seq<Row>| #[trigger]
                shows_history(rows, self@.history) && table_rows(t) == cells_of(rows),
    {
        let rows = self.render_history(mode);
        let t = table(&rows);
        assert(shows_history(rows.deep_view(), self@.history));
        t
    }
}

} // verus!
