//! Box-drawn text tables, drawn by the `comfy-table` crate.
//!
//! What a table holds is described by the names below; what `comfy-table` draws
//! from it is named, not restated.

use vstd::prelude::*;
use comfy_table::{Cell, CellAlignment, Table};

verus! {

#[verifier::external_type_specification]
#[verifier::external_body]
pub struct ExTable(Table);

#[verifier::external_type_specification]
#[verifier::external_body]
pub struct ExCell(Cell);

/// Horizontal alignment of a cell's content.
#[derive(Clone, Copy, Debug, PartialEq, Eq, Structural)]
pub enum Alignment {
    Left,
    Right,
    Center,
}

/// What a cell holds: its text (its lines joined by newlines), the alignment set on
/// it, and whether it carries no colour, attribute or delimiter of its own.
pub struct CellForm {
    pub text: Seq<char>,
    pub alignment: Option<Alignment>,
    pub plain: bool,
}

/// A plain cell with the given text and no alignment of its own.
pub open spec fn plain_cell(text: Seq<char>) -> CellForm {
    CellForm { text, alignment: None, plain: true }
}

/// A plain cell with the given text, centred.
pub open spec fn centered_cell(text: Seq<char>) -> CellForm {
    CellForm { text, alignment: Some(Alignment::Center), plain: true }
}

/// What a `comfy_table::Cell` holds.
pub uninterp spec fn cell_form(c: Cell) -> CellForm;

/// What a sequence of cells holds.
pub open spec fn cell_forms(cells: Seq<Cell>) -> Seq<CellForm> {
    cells.map_values(|c: Cell| cell_form(c))
}

/// The border characters of a table, in the order of a `comfy-table` preset string
/// (a space where a component is not drawn).
pub uninterp spec fn table_style(t: Table) -> Seq<char>;

/// The header row of a table, if one is set.
pub uninterp spec fn table_header(t: Table) -> Option<Seq<CellForm>>;

/// The data rows of a table, in order.
pub uninterp spec fn table_rows(t: Table) -> Seq<Seq<CellForm>>;

/// Whether a table has every setting other than its style, header and rows as
/// `Table::new` makes them: content arrangement disabled, no fixed width, no
/// delimiter, no column or row constraints and no forced styling.
pub uninterp spec fn table_default_settings(t: Table) -> bool;

/// The text that `comfy-table` draws for a table with default settings and plain
/// cells, given its style, header and rows.
pub uninterp spec fn drawn_table(
    style: Seq<char>,
    header: Option<Seq<CellForm>>,
    rows: Seq<Seq<CellForm>>,
) -> Seq<char>;

/// Whether every cell of the optional header and of the rows is plain.
pub open spec fn all_plain(header: Option<Seq<CellForm>>, rows: Seq<Seq<CellForm>>) -> bool {
    &&& (match header {
        Some(h) => forall|k: int| 0 <= k < h.len() ==> (#[trigger] h[k]).plain,
        None => true,
    })
    &&& forall|r: int, k: int|
        0 <= r < rows.len() && 0 <= k < rows[r].len() ==> (#[trigger] rows[r][k]).plain
}

/// `comfy_table::Cell::new`: a cell whose content is `text` split at newlines,
/// with no alignment, colour, attribute or delimiter.
#[verifier::external_body]
pub(crate) fn cell_new(text: &str) -> (c: Cell)
    ensures
        cell_form(c) == plain_cell(text@),
{
    Cell::new(text)
}

/// `comfy_table::Cell::set_alignment`: the same cell with its alignment set.
#[verifier::external_body]
pub(crate) fn cell_set_alignment(c: Cell, alignment: Alignment) -> (r: Cell)
    ensures
        cell_form(r) == (CellForm { alignment: Some(alignment), ..cell_form(c) }),
{
    c.set_alignment(
        match alignment {
            Alignment::Left => CellAlignment::Left,
            Alignment::Right => CellAlignment::Right,
            Alignment::Center => CellAlignment::Center,
        },
    )
}

/// `comfy_table::Table::new`: a table with default settings, no header, no rows and
/// the `ASCII_FULL` preset as its style.
#[verifier::external_body]
pub(crate) fn table_new() -> (t: Table)
    ensures
        table_default_settings(t),
        table_header(t) is None,
        table_rows(t) == Seq::<Seq<CellForm>>::empty(),
        table_style(t) == "||--+==+|-+||++++++"@,
{
    Table::new()
}

/// `comfy_table::Table::load_preset` with a preset of one character per border
/// component (19): the style becomes the preset; nothing else changes.
#[verifier::external_body]
pub(crate) fn table_load_preset(t: &mut Table, preset: &str)
    requires
        preset@.len() == 19,
    ensures
        table_style(*final(t)) == preset@,
        table_header(*final(t)) == table_header(*old(t)),
        table_rows(*final(t)) == table_rows(*old(t)),
        table_default_settings(*final(t)) == table_default_settings(*old(t)),
{
    t.load_preset(preset);
}

/// `comfy_table::Table::set_header`: the header becomes these cells; nothing else
/// changes.
#[verifier::external_body]
pub(crate) fn table_set_header(t: &mut Table, cells: Vec<Cell>)
    ensures
        table_header(*final(t)) == Some(cell_forms(cells@)),
        table_style(*final(t)) == table_style(*old(t)),
        table_rows(*final(t)) == table_rows(*old(t)),
        table_default_settings(*final(t)) == table_default_settings(*old(t)),
{
    t.set_header(cells);
}

/// `comfy_table::Table::add_row`: these cells become the last row; nothing else
/// changes.
#[verifier::external_body]
pub(crate) fn table_add_row(t: &mut Table, cells: Vec<Cell>)
    ensures
        table_rows(*final(t)) == table_rows(*old(t)).push(cell_forms(cells@)),
        table_style(*final(t)) == table_style(*old(t)),
        table_header(*final(t)) == table_header(*old(t)),
        table_default_settings(*final(t)) == table_default_settings(*old(t)),
{
    t.add_row(cells);
}

/// `Table::to_string` (its `Display`): for a table with default settings and plain
/// cells, the drawing of its style, header and rows. For other tables nothing is
/// stated: their drawing may depend on the terminal.
#[verifier::external_body]
pub(crate) fn table_to_string(t: &Table) -> (s: String)
    ensures
        table_default_settings(*t) && all_plain(table_header(*t), table_rows(*t)) ==> s@
            == drawn_table(table_style(*t), table_header(*t), table_rows(*t)),
{
    t.to_string()
}

/// The `UTF8_FULL` preset of `comfy-table`.
#[verifier::external_body]
pub(crate) fn utf8_full_preset() -> (p: &'static str)
    ensures
        p@ == "││──╞═╪╡┆╌┼├┤┬┴┌┐└┘"@,
{
    comfy_table::presets::UTF8_FULL
}

} // verus!
