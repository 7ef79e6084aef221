//! Terminal tables, drawn by `comfy_table`: the cells and rows that go into
//! a table, and the table drawn as text.

use vstd::prelude::*;

verus! {

/// A table of `comfy_table`.
#[verifier::external_type_specification]
#[verifier::external_body]
pub struct ExTable(comfy_table::Table);

/// A cell of a `comfy_table` table.
#[verifier::external_type_specification]
#[verifier::external_body]
pub struct ExCell(comfy_table::Cell);

/// The text colours the reports use.
#[derive(Debug, Clone, Copy, PartialEq, Eq, Structural)]
pub enum TextColor {
    Cyan,
    Green,
    Yellow,
    Blue,
    White,
    Magenta,
    Red,
}

/// The text a cell holds (`Cell::content`).
pub uninterp spec fn cell_content(c: comfy_table::Cell) -> Seq<char>;

/// The foreground colour set on a cell (`Cell::fg`), if any; a terminal
/// that takes styling draws the text in it.
pub uninterp spec fn cell_color(c: comfy_table::Cell) -> Option<TextColor>;

/// A cell as its text and colour.
pub open spec fn cell_view(c: comfy_table::Cell) -> (Seq<char>, Option<TextColor>) {
    (cell_content(c), cell_color(c))
}

/// A row of cells as their texts and colours.
pub open spec fn cell_views(cells: Seq<comfy_table::Cell>) -> Seq<(Seq<char>, Option<TextColor>)> {
    cells.map_values(|c: comfy_table::Cell| cell_view(c))
}

/// The header cells of a table as texts and colours (none before a header
/// is set).
pub uninterp spec fn table_header(t: comfy_table::Table) -> Seq<(Seq<char>, Option<TextColor>)>;

/// The cells of each row of a table as texts and colours, in the order the
/// rows were added.
pub uninterp spec fn table_rows(t: comfy_table::Table) -> Seq<Seq<(Seq<char>, Option<TextColor>)>>;

/// `Cell::new`: a cell holding the given text, with no colour set.
#[verifier::external_body]
pub(crate) fn cell_new(text: &str) -> (c: comfy_table::Cell)
    ensures
        cell_content(c) == text@,
        cell_color(c) is None,
{
    comfy_table::Cell::new(text)
}

/// `Cell::fg`: the same cell drawn in the given colour; its text is
/// unchanged.
#[verifier::external_body]
pub(crate) fn cell_fg(c: comfy_table::Cell, color: TextColor) -> (r: comfy_table::Cell)
    ensures
        cell_content(r) == cell_content(c),
        cell_color(r) == Some(color),
{
    c.fg(
        match color {
            TextColor::Cyan => comfy_table::Color::Cyan,
            TextColor::Green => comfy_table::Color::Green,
            TextColor::Yellow => comfy_table::Color::Yellow,
            TextColor::Blue => comfy_table::Color::Blue,
            TextColor::White => comfy_table::Color::White,
            TextColor::Magenta => comfy_table::Color::Magenta,
            TextColor::Red => comfy_table::Color::Red,
        },
    )
}

/// `Table::new`: a table without header or rows.
#[verifier::external_body]
pub(crate) fn table_new() -> (t: comfy_table::Table)
    ensures
        table_header(t).len() == 0,
        table_rows(t).len() == 0,
{
    comfy_table::Table::new()
}

/// `Table::load_preset` with the `UTF8_FULL` borders: the header and rows
/// are unchanged.
#[verifier::external_body]
pub(crate) fn table_load_utf8_full(t: &mut comfy_table::Table)
    ensures
        table_header(*final(t)) == table_header(*old(t)),
        table_rows(*final(t)) == table_rows(*old(t)),
{
    t.load_preset(comfy_table::presets::UTF8_FULL);
}

/// `Table::set_content_arrangement` with `Dynamic` (columns fit the
/// terminal): the header and rows are unchanged.
#[verifier::external_body]
pub(crate) fn table_arrange_dynamic(t: &mut comfy_table::Table)
    ensures
        table_header(*final(t)) == table_header(*old(t)),
        table_rows(*final(t)) == table_rows(*old(t)),
{
    t.set_content_arrangement(comfy_table::ContentArrangement::Dynamic);
}

/// `Table::set_header`: the header becomes the given cells; the rows are
/// unchanged.
#[verifier::external_body]
pub(crate) fn table_set_header(t: &mut comfy_table::Table, cells: Vec<comfy_table::Cell>)
    ensures
        table_header(*final(t)) == cell_views(cells@),
        table_rows(*final(t)) == table_rows(*old(t)),
{
    t.set_header(cells);
}

/// `Table::add_row`: the given cells become the last row; the header is
/// unchanged.
#[verifier::external_body]
pub(crate) fn table_add_row(t: &mut comfy_table::Table, cells: Vec<comfy_table::Cell>)
    ensures
        table_header(*final(t)) == table_header(*old(t)),
        table_rows(*final(t)) == table_rows(*old(t)).push(cell_views(cells@)),
{
    t.add_row(cells);
}

/// `text` is a drawing of the table `t`: its header and rows laid out in
/// borders (`Display` of `Table`). The layout, and whether colours are
/// written, depends on the terminal, so this names the relation only.
pub uninterp spec fn drawn_from(t: comfy_table::Table, text: Seq<char>) -> bool;

/// The table drawn as text (`Display` of `Table`): a drawing of `t`
/// (`drawn_from`). How it is drawn depends on the terminal (its width, and
/// whether it takes colours), so nothing is claimed of the layout.
#[verifier::external_body]
pub(crate) fn table_render(t: &comfy_table::Table) -> (r: String)
    ensures
        drawn_from(*t, r@),
{
    format!("{}", t)
}

/// A cell with the given text, in the given colour where there is one.
pub fn styled_cell(text: &str, color: Option<TextColor>) -> (c: comfy_table::Cell)
    ensures
        cell_view(c) == (text@, color),
{
    let c = cell_new(text);
    match color {
        Some(k) => cell_fg(c, k),
        None => c,
    }
}

} // verus!
