//! The report as a table of `comfy_table`, ready to be printed.
//!
//! Nothing in this module is proved of `comfy_table` itself: what its
//! functions do is stated here as its source shows it, and the filling of the
//! table is proved from those statements.

use crate::messages::{header, spec_header};
use crate::report::{row_views, Row, RowView, Significance};
use crate::text::spaces;
use comfy_table::{Cell, CellAlignment, Color, Table};
use vstd::prelude::*;

verus! {

/// The side of its column to which a cell's text is moved.
#[derive(Copy, Clone, Debug, PartialEq, Eq, Structural)]
pub enum Alignment {
    Left,
    Right,
}

/// The colour of a cell's text.
#[derive(Copy, Clone, Debug, PartialEq, Eq, Structural)]
pub enum Tint {
    Green,
    Red,
    Magenta,
}

/// A cell as a mathematical value: its text, and its alignment and colour
/// where they were set.
pub type CellModel = (Seq<char>, Option<Alignment>, Option<Tint>);

#[verifier::external_type_specification]
#[verifier::external_body]
pub struct ExTable(Table);

#[verifier::external_type_specification]
#[verifier::external_body]
pub struct ExCell(Cell);

/// What a cell holds: the text it was made of, and the alignment and the
/// foreground colour that were set on it.
pub uninterp spec fn cell_model(cell: Cell) -> (Seq<char>, Option<Alignment>, Option<Tint>);

/// The cells of a table's header row; no cells where no header was set.
pub uninterp spec fn table_header(table: Table) -> Seq<(Seq<char>, Option<Alignment>, Option<Tint>)>;

/// The cells of a table's rows, in the order in which the rows were added.
pub uninterp spec fn table_rows(table: Table) -> Seq<Seq<(Seq<char>, Option<Alignment>, Option<Tint>)>>;

/// The characters with which a table draws its borders and lines, as
/// `Table::current_style_as_preset` gives them: one for each of the nineteen
/// parts that can be drawn, a space for a part that is not drawn.
pub uninterp spec fn table_style(table: Table) -> Seq<char>;

/// What a list of cells holds.
pub open spec fn cell_models(cells: Seq<Cell>) -> Seq<CellModel> {
    Seq::new(cells.len(), |i: int| cell_model(cells[i]))
}

/// `Cell::new` on a string: the cell holds that text, which `Cell::content`
/// gives back, and neither an alignment nor a colour.
#[verifier::external_body]
fn new_cell(text: &str) -> (cell: Cell)
    ensures
        cell_model(cell) == (text@, None::<Alignment>, None::<Tint>),
{
    Cell::new(text)
}

/// `Cell::set_alignment`: the cell with its alignment set, and nothing else
/// changed.
#[verifier::external_body]
fn aligned(cell: Cell, alignment: Alignment) -> (r: Cell)
    ensures
        cell_model(r) == (cell_model(cell).0, Some(alignment), cell_model(cell).2),
{
    cell.set_alignment(
        match alignment {
            Alignment::Left => CellAlignment::Left,
            Alignment::Right => CellAlignment::Right,
        },
    )
}

/// `Cell::fg`: the cell with its foreground colour set, and nothing else
/// changed.
#[verifier::external_body]
fn tinted(cell: Cell, tint: Tint) -> (r: Cell)
    ensures
        cell_model(r) == (cell_model(cell).0, cell_model(cell).1, Some(tint)),
{
    cell.fg(
        match tint {
            Tint::Green => Color::Green,
            Tint::Red => Color::Red,
            Tint::Magenta => Color::Magenta,
        },
    )
}

/// `Table::new`: a table without a header and without rows.
#[verifier::external_body]
fn new_table() -> (table: Table)
    ensures
        table_header(table).len() == 0,
        table_rows(table).len() == 0,
{
    Table::new()
}

/// `Table::load_preset` with the preset `NOTHING`, which is nineteen spaces:
/// none of the nineteen parts is drawn any more, and the header and the rows
/// stay as they are.
#[verifier::external_body]
fn draw_no_borders(table: &mut Table)
    ensures
        table_style(*final(table)) == spaces(19),
        table_header(*final(table)) == table_header(*old(table)),
        table_rows(*final(table)) == table_rows(*old(table)),
{
    table.load_preset(comfy_table::presets::NOTHING);
}

/// `Table::set_header`: the header row holds the given cells, and the rows
/// and the style stay as they are.
#[verifier::external_body]
fn set_header(table: &mut Table, cells: Vec<Cell>)
    ensures
        table_header(*final(table)) == cell_models(cells@),
        table_rows(*final(table)) == table_rows(*old(table)),
        table_style(*final(table)) == table_style(*old(table)),
{
    table.set_header(cells);
}

/// `Table::add_row`: a row of the given cells comes after the rows that the
/// table has, and the header and the style stay as they are.
#[verifier::external_body]
fn add_row(table: &mut Table, cells: Vec<Cell>)
    ensures
        table_header(*final(table)) == table_header(*old(table)),
        table_rows(*final(table)) == table_rows(*old(table)).push(cell_models(cells@)),
        table_style(*final(table)) == table_style(*old(table)),
{
    table.add_row(cells);
}

/// The colour in which a row's last cell is shown.
pub open spec fn tint_of(significance: Significance) -> Tint {
    match significance {
        Significance::Faster => Tint::Green,
        Significance::Slower => Tint::Red,
        Significance::Indistinguishable => Tint::Magenta,
    }
}

/// The alignment of the title of column `i`: the numbers of the three middle
/// columns stand to the right, the texts of the outer two to the left.
pub open spec fn title_alignment(i: int) -> Alignment {
    if 1 <= i <= 3 {
        Alignment::Right
    } else {
        Alignment::Left
    }
}

/// The header cells of a comparison of datums `id1` and `id2`.
pub open spec fn header_cells(id1: usize, id2: usize) -> Seq<CellModel> {
    Seq::new(5, |i: int| (spec_header(id1, id2)[i], Some(title_alignment(i)), None::<Tint>))
}

/// The cells of a row: the key, the two means and the ratio to the right of
/// their columns, and the summary in the colour of its significance.
pub open spec fn row_cells(row: RowView) -> Seq<CellModel> {
    seq![
        (row.key, None::<Alignment>, None::<Tint>),
        (row.before_text, Some(Alignment::Right), None::<Tint>),
        (row.after_text, Some(Alignment::Right), None::<Tint>),
        (row.ratio_text, Some(Alignment::Right), None::<Tint>),
        (row.summary, None::<Alignment>, Some(tint_of(row.significance))),
    ]
}

/// The rows of a table that shows `rows`.
pub open spec fn rows_cells(rows: Seq<RowView>) -> Seq<Seq<CellModel>> {
    Seq::new(rows.len(), |i: int| row_cells(rows[i]))
}

/// Makes the table that shows the rows of a comparison of datums `id1` and
/// `id2`: without borders, under a header, one table row for each row and
/// in their order.
pub fn build_table(id1: usize, id2: usize, rows: &Vec<Row>) -> (table: Table)
    ensures
        table_style(table) == spaces(19),
        table_header(table) == header_cells(id1, id2),
        table_rows(table) == rows_cells(row_views(rows@)),
{
    let mut table: Table = new_table();
    draw_no_borders(&mut table);
    let titles: Vec<String> = header(id1, id2);
    let mut cells: Vec<Cell> = Vec::new();
    let mut i: usize = 0;
    proof {
        assert(crate::text::views(titles@).len() == 5);
        assert(cell_models(cells@) =~= header_cells(id1, id2).take(0));
    }
    while i < 5
        invariant
            i <= 5,
            titles.len() == 5,
            crate::text::views(titles@) == spec_header(id1, id2),
            cell_models(cells@) == header_cells(id1, id2).take(i as int),
        decreases 5 - i,
    {
        let alignment: Alignment = if 1 <= i && i <= 3 {
            Alignment::Right
        } else {
            Alignment::Left
        };
        let ghost earlier: Seq<Cell> = cells@;
        assert(crate::text::views(titles@)[i as int] == titles[i as int]@);
        let cell: Cell = aligned(new_cell(titles[i].as_str()), alignment);
        cells.push(cell);
        proof {
            assert(cell_models(cells@) =~= cell_models(earlier).push(cell_model(cell)));
            assert(header_cells(id1, id2).take(i + 1) =~= header_cells(id1, id2).take(
                i as int,
            ).push(header_cells(id1, id2)[i as int]));
        }
        i += 1;
    }
    assert(header_cells(id1, id2).take(5) =~= header_cells(id1, id2));
    set_header(&mut table, cells);
    let ghost wanted: Seq<Seq<CellModel>> = rows_cells(row_views(rows@));
    let mut i: usize = 0;
    assert(table_rows(table) =~= wanted.take(0));
    while i < rows.len()
        invariant
            i <= rows.len(),
            wanted == rows_cells(row_views(rows@)),
            table_style(table) == spaces(19),
            table_header(table) == header_cells(id1, id2),
            table_rows(table) == wanted.take(i as int),
        decreases rows.len() - i,
    {
        let row: &Row = &rows[i];
        let summary: Cell = tinted(
            new_cell(row.summary.as_str()),
            match row.significance {
                Significance::Faster => Tint::Green,
                Significance::Slower => Tint::Red,
                Significance::Indistinguishable => Tint::Magenta,
            },
        );
        let mut cells: Vec<Cell> = Vec::new();
        cells.push(new_cell(row.key.as_str()));
        cells.push(aligned(new_cell(row.before_text.as_str()), Alignment::Right));
        cells.push(aligned(new_cell(row.after_text.as_str()), Alignment::Right));
        cells.push(aligned(new_cell(row.ratio_text.as_str()), Alignment::Right));
        cells.push(summary);
        proof {
            assert(row_views(rows@)[i as int] == row@);
            assert(cell_models(cells@) =~= row_cells(row@));
            assert(wanted.take(i + 1) =~= wanted.take(i as int).push(row_cells(row@)));
        }
        add_row(&mut table, cells);
        i += 1;
    }
    assert(wanted.take(rows.len() as int) =~= wanted);
    table
}

} // verus!
