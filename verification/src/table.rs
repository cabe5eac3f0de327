//! The terminal table of `comfy_table` that items are drawn in.
//!
//! A `comfy_table::Table` is opaque here.  Four names stand for what it holds:
//! its header row and its body rows, each row as the texts of its cells (the
//! text that `Cell::content` gives back); its drawing characters; and whether
//! it fits its columns to the terminal.  The items below call the table's
//! methods; their contracts say what each call does to those four, as the
//! crate's source shows it.
use vstd::prelude::*;

use comfy_table::Table;

use crate::strings::views;

verus! {

#[verifier::external_type_specification]
#[verifier::external_body]
pub struct ExTable(Table);

/// The header row of a table, as the texts of its cells, if one was set.
pub uninterp spec fn table_header(table: Table) -> Option<Seq<Seq<char>>>;

/// The body rows of a table, in the order they were added, each as the texts of its cells.
pub uninterp spec fn table_rows(table: Table) -> Seq<Seq<Seq<char>>>;

/// The drawing characters of a table: one per component of the table's
/// frame, in the order of `TableComponent`, a space for one not drawn (the
/// text that `Table::current_style_as_preset` gives back).
pub uninterp spec fn table_style(table: Table) -> Seq<char>;

/// Whether the table's content arrangement is `ContentArrangement::Dynamic`.
pub uninterp spec fn table_arranged_dynamically(table: Table) -> bool;

/// The number of components of a table's frame (the variants of `TableComponent`).
pub open spec fn frame_components() -> nat {
    19
}

/// The drawing characters of `presets::ASCII_FULL`.
pub open spec fn ascii_full_style() -> Seq<char> {
    "||--+==+|-+||++++++"@
}

/// The drawing characters of `presets::UTF8_FULL`.
pub open spec fn utf8_full_style() -> Seq<char> {
    "││──╞═╪╡┆╌┼├┤┬┴┌┐└┘"@
}

/// The corner characters that `modifiers::UTF8_ROUND_CORNERS` sets on the
/// last four components (the top-left, top-right, bottom-left and
/// bottom-right corners); it leaves the others as they are.
pub open spec fn round_corners() -> Seq<char> {
    "╭╮╰╯"@
}

/// `Table::new`: a table with no header and no rows, drawn with the
/// characters of `ASCII_FULL`, its content arrangement `Disabled`.
#[verifier::external_body]
pub(crate) fn new_table() -> (table: Table)
    ensures
        table_header(table) == None::<Seq<Seq<char>>>,
        table_rows(table) == Seq::<Seq<Seq<char>>>::empty(),
        table_style(table) == ascii_full_style(),
        !table_arranged_dynamically(table),
{
    Table::new()
}

/// `Table::load_preset` with `presets::UTF8_FULL`: the drawing characters
/// become those of `UTF8_FULL` (it has one, not a space, for every
/// component); the rest stays.
#[verifier::external_body]
pub(crate) fn load_utf8_full_preset(table: &mut Table)
    ensures
        table_header(*final(table)) == table_header(*old(table)),
        table_rows(*final(table)) == table_rows(*old(table)),
        table_style(*final(table)) == utf8_full_style(),
        table_arranged_dynamically(*final(table)) == table_arranged_dynamically(*old(table)),
{
    table.load_preset(comfy_table::presets::UTF8_FULL);
}

/// `Table::apply_modifier` with `modifiers::UTF8_ROUND_CORNERS`: the four
/// corners are drawn round; the other drawing characters (the modifier has a
/// space for each, which skips it), and the rest, stay.
#[verifier::external_body]
pub(crate) fn apply_round_corners(table: &mut Table)
    ensures
        table_header(*final(table)) == table_header(*old(table)),
        table_rows(*final(table)) == table_rows(*old(table)),
        table_style(*final(table)) == table_style(*old(table)).take(
            frame_components() - round_corners().len(),
        ) + round_corners(),
        table_arranged_dynamically(*final(table)) == table_arranged_dynamically(*old(table)),
{
    table.apply_modifier(comfy_table::modifiers::UTF8_ROUND_CORNERS);
}

/// `Table::set_content_arrangement` with `ContentArrangement::Dynamic`: the
/// columns are fitted to the terminal; the rest stays.
#[verifier::external_body]
pub(crate) fn set_dynamic_arrangement(table: &mut Table)
    ensures
        table_header(*final(table)) == table_header(*old(table)),
        table_rows(*final(table)) == table_rows(*old(table)),
        table_style(*final(table)) == table_style(*old(table)),
        table_arranged_dynamically(*final(table)),
{
    table.set_content_arrangement(comfy_table::ContentArrangement::Dynamic);
}

/// `Table::set_header`: the header becomes one cell per given text, in order
/// (a cell made from a text gives that text back); the rest stays.
#[verifier::external_body]
pub(crate) fn set_table_header(table: &mut Table, header: Vec<String>)
    ensures
        table_header(*final(table)) == Some(views(header@)),
        table_rows(*final(table)) == table_rows(*old(table)),
        table_style(*final(table)) == table_style(*old(table)),
        table_arranged_dynamically(*final(table)) == table_arranged_dynamically(*old(table)),
{
    table.set_header(header);
}

/// `Table::add_row`: one more row at the end, with one cell per given text, in
/// order; the header stays.
#[verifier::external_body]
pub(crate) fn add_table_row(table: &mut Table, cells: Vec<String>)
    ensures
        table_header(*final(table)) == table_header(*old(table)),
        table_rows(*final(table)) == table_rows(*old(table)).push(views(cells@)),
        table_style(*final(table)) == table_style(*old(table)),
        table_arranged_dynamically(*final(table)) == table_arranged_dynamically(*old(table)),
{
    table.add_row(cells);
}

/// How the items are drawn: the characters of `UTF8_FULL` with round corners.
pub open spec fn rounded_utf8_style() -> Seq<char> {
    "││──╞═╪╡┆╌┼├┤┬┴╭╮╰╯"@
}

/// `UTF8_FULL` with `UTF8_ROUND_CORNERS` applied gives the rounded style.
pub proof fn lemma_rounded_utf8_style()
    ensures
        utf8_full_style().take(frame_components() - round_corners().len()) + round_corners()
            == rounded_utf8_style(),
{
    reveal_strlit("││──╞═╪╡┆╌┼├┤┬┴┌┐└┘");
    reveal_strlit("╭╮╰╯");
    reveal_strlit("││──╞═╪╡┆╌┼├┤┬┴╭╮╰╯");
    assert(utf8_full_style().take(15) + round_corners() =~= rounded_utf8_style());
}

} // verus!
