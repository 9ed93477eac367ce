//! Text tables, drawn by `comfy_table`. A table is known here by its
//! style, its header and its rows; its drawing is named, not restated.

use vstd::prelude::*;
use comfy_table::Table;

verus! {

#[verifier::external_type_specification]
#[verifier::external_body]
pub struct ExTable(Table);

/// The table's border style, one character per component in the order of
/// `comfy_table::TableComponent` (a space where nothing is drawn), as
/// `Table::current_style_as_preset` reports it.
pub uninterp spec fn table_style(t: Table) -> Seq<char>;

/// The header row, if one was set.
pub uninterp spec fn table_header(t: Table) -> Option<Seq<Seq<char>>>;

/// The body rows, in the order they were added.
pub uninterp spec fn table_rows(t: Table) -> Seq<Seq<Seq<char>>>;

/// The table's other settings (content arrangement, width, column
/// constraints, cell alignment and styling, delimiter) are those that
/// `Table::new` gives; only style, header and rows were set.
pub uninterp spec fn table_default_layout(t: Table) -> bool;

/// The text that `comfy_table` draws for a table with this style, header
/// and rows and otherwise default settings.
pub uninterp spec fn rendered_table(
    style: Seq<char>,
    header: Option<Seq<Seq<char>>>,
    rows: Seq<Seq<Seq<char>>>,
) -> Seq<char>;

/// `comfy_table::presets::ASCII_FULL`.
pub open spec fn ascii_full_style() -> Seq<char> {
    seq![
        '|', '|', '-', '-', '+', '=', '=', '+', '|', '-', '+', '|', '|', '+', '+', '+', '+', '+',
        '+',
    ]
}

/// `comfy_table::presets::UTF8_FULL`.
pub open spec fn utf8_full_style() -> Seq<char> {
    seq![
        '│', '│', '─', '─', '╞', '═', '╪', '╡', '┆', '╌', '┼', '├', '┤', '┬', '┴', '┌', '┐', '└',
        '┘',
    ]
}

/// The views of a row of cells.
pub open spec fn cells_view(cells: Seq<String>) -> Seq<Seq<char>> {
    cells.map_values(|c: String| c@)
}

/// `Table::new`: no header, no rows, the ASCII_FULL style.
#[verifier::external_body]
pub(crate) fn table_new() -> (t: Table)
    ensures
        table_header(t) is None,
        table_rows(t) == Seq::<Seq<Seq<char>>>::empty(),
        table_style(t) == ascii_full_style(),
        table_default_layout(t),
{
    Table::new()
}

/// `Table::load_preset` with `presets::UTF8_FULL`, which names every
/// component: the style becomes that preset, header and rows stay.
#[verifier::external_body]
pub(crate) fn table_load_utf8_full(t: &mut Table)
    ensures
        table_style(*final(t)) == utf8_full_style(),
        table_header(*final(t)) == table_header(*old(t)),
        table_rows(*final(t)) == table_rows(*old(t)),
        table_default_layout(*final(t)) == table_default_layout(*old(t)),
{
    t.load_preset(comfy_table::presets::UTF8_FULL);
}

/// `Table::set_header`: the header becomes these cells.
#[verifier::external_body]
pub(crate) fn table_set_header(t: &mut Table, header: Vec<String>)
    ensures
        table_header(*final(t)) == Some(cells_view(header@)),
        table_style(*final(t)) == table_style(*old(t)),
        table_rows(*final(t)) == table_rows(*old(t)),
        table_default_layout(*final(t)) == table_default_layout(*old(t)),
{
    t.set_header(header);
}

/// `Table::add_row`: the cells become the last row.
#[verifier::external_body]
pub(crate) fn table_add_row(t: &mut Table, row: Vec<String>)
    ensures
        table_rows(*final(t)) == table_rows(*old(t)).push(cells_view(row@)),
        table_style(*final(t)) == table_style(*old(t)),
        table_header(*final(t)) == table_header(*old(t)),
        table_default_layout(*final(t)) == table_default_layout(*old(t)),
{
    t.add_row(row);
}

/// `Table::to_string` (its `Display`): the drawn table, for a table with
/// default settings.
#[verifier::external_body]
pub(crate) fn table_to_string(t: &Table) -> (s: String)
    requires
        table_default_layout(*t),
    ensures
        s@ == rendered_table(table_style(*t), table_header(*t), table_rows(*t)),
{
    t.to_string()
}

/// Draws a table in the UTF8_FULL style with the given header and rows.
pub fn draw_table(header: Vec<String>, rows: Vec<Vec<String>>) -> (s: String)
    ensures
        s@ == rendered_table(
            utf8_full_style(),
            Some(cells_view(header@)),
            rows@.map_values(|r: Vec<String>| cells_view(r@)),
        ),
{
    let mut t = table_new();
    table_load_utf8_full(&mut t);
    table_set_header(&mut t, header);
    let n = rows.len();
    let mut rows = rows;
    let ghost all = rows@;
    let mut i: usize = 0;
    while i < n
        invariant
            n == all.len(),
            i <= n,
            rows@ == all.subrange(i as int, n as int),
            table_style(t) == utf8_full_style(),
            table_header(t) == Some(cells_view(header@)),
            table_default_layout(t),
            table_rows(t) == all.subrange(0, i as int).map_values(|r: Vec<String>| cells_view(r@)),
        decreases n - i,
    {
        let row = rows.remove(0);
        assert(row == all[i as int]);
        table_add_row(&mut t, row);
        i = i + 1;
        assert(all.subrange(0, i as int).map_values(|r: Vec<String>| cells_view(r@)) =~= all.subrange(
            0,
            (i - 1) as int,
        ).map_values(|r: Vec<String>| cells_view(r@)).push(cells_view(all[(i - 1) as int]@)));
        assert(rows@ =~= all.subrange(i as int, n as int));
    }
    assert(all.subrange(0, n as int) =~= all);
    table_to_string(&t)
}

} // verus!
