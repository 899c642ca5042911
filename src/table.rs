//! Drawing a table of text cells with comfy-table.

use vstd::prelude::*;

verus! {

/// The characters of each string of `v`.
pub open spec fn strings_view(v: Seq<String>) -> Seq<Seq<char>> {
    v.map_values(|s: String| s@)
}

/// The characters of each cell of each row of `rows`.
pub open spec fn cells_view(rows: Seq<Vec<String>>) -> Seq<Seq<Seq<char>>> {
    rows.map_values(|row: Vec<String>| strings_view(row@))
}

/// The text that comfy-table draws for `header` over `rows`, with rounded
/// corners and no lines between columns.
pub uninterp spec fn drawn_table(header: Seq<Seq<char>>, rows: Seq<Seq<Seq<char>>>) -> Seq<char>;

/// Relies on `comfy_table::Table` and its `Display`: the drawn text depends
/// on the header and the rows alone.
#[verifier::external_body]
pub(crate) fn draw_table(header: &Vec<String>, rows: &Vec<Vec<String>>) -> (r: String)
    ensures
        r@ == drawn_table(strings_view(header@), cells_view(rows@)),
{
    let mut style = comfy_table::presets::UTF8_FULL.with_rounded_corners();
    style.header_lines.junction = Some(' ');
    style.content_lines.junction = Some(' ');
    let mut table = comfy_table::Table::new();
    table.load_style(style).set_header(header.clone()).add_rows(rows.clone());
    table.to_string()
}

} // verus!
