//! SBAT data as tables for people to read.
//!
//! The rows of a table are put together here; drawing the table is left
//! to the `tabled` crate.

use crate::component::{Component, ComponentView};
use crate::csv::{char_allowed, is_ascii};
use crate::format::component_views;
use crate::generation::Generation;
use crate::image::{Entry, EntryView, ImageSbat};
use crate::metadata::entry_views;
use crate::revocations::RevocationSbat;
use crate::round_trip::clean_field;
use crate::text::{append_decimal, decimal_text};
use vstd::prelude::*;
use vstd::string::StringExecFns;

verus! {

/// The cells of one row.
pub open spec fn row_view(row: Vec<String>) -> Seq<Seq<char>> {
    row@.map_values(|cell: String| cell@)
}

/// The cells of each of `rows`.
pub open spec fn rows_view(rows: Seq<Vec<String>>) -> Seq<Seq<Seq<char>>> {
    rows.map_values(|row: Vec<String>| row_view(row))
}

/// Each byte as the character of the same code.
pub open spec fn ascii_chars(bytes: Seq<u8>) -> Seq<char> {
    bytes.map_values(|b: u8| b as char)
}

/// The text that bytes are shown as when they are read as UTF-8.
pub uninterp spec fn shown_text(bytes: Seq<u8>) -> Seq<char>;

/// `String::from_utf8_lossy`: the bytes read as UTF-8 text. What comes
/// out depends on the bytes alone. ASCII is valid UTF-8 in which each
/// byte is one character, so ASCII bytes come out as the characters of
/// the same codes.
#[verifier::external_body]
fn show_text(bytes: &[u8]) -> (text: String)
    ensures
        text@ == shown_text(bytes@),
        is_ascii(bytes@) ==> text@ == ascii_chars(bytes@),
{
    String::from_utf8_lossy(bytes).into_owned()
}

/// The text of the cell that shows a field: for ASCII, which every
/// parsed field is, the characters of the same codes.
pub open spec fn cell_text(bytes: Seq<u8>) -> Seq<char> {
    if is_ascii(bytes) {
        ascii_chars(bytes)
    } else {
        shown_text(bytes)
    }
}

/// The cell that shows a field.
pub fn text_cell(bytes: &[u8]) -> (cell: String)
    ensures
        cell@ == cell_text(bytes@),
{
    show_text(bytes)
}

/// A field in which every byte may stand is shown character for
/// character.
pub proof fn lemma_clean_field_cell(field: Seq<u8>)
    requires
        clean_field(field),
    ensures
        cell_text(field) == ascii_chars(field),
        cell_text(field).len() == field.len(),
{
    assert(is_ascii(field)) by {
        assert forall|i: int| 0 <= i < field.len() implies field[i] < 0x80 by {
            assert(char_allowed(field[i]));
        }
    }
}

/// The text that `tabled` draws for a table with the given rows of
/// cells, in its default style.
pub uninterp spec fn rendered_table(rows: Seq<Seq<Seq<char>>>) -> Seq<char>;

/// `tabled::builder::Builder`: collects the rows, builds the table and
/// formats it. What is drawn depends on the rows alone.
#[verifier::external_body]
fn render_table(rows: Vec<Vec<String>>) -> (text: String)
    ensures
        text@ == rendered_table(rows_view(rows@)),
{
    tabled::builder::Builder::from_iter(rows).build().to_string()
}

/// The first row of the table of an image's entries.
pub open spec fn image_table_header() -> Seq<Seq<char>> {
    seq!["component"@, "gen"@, "vendor"@, "package"@, "version"@, "url"@]
}

/// The cell for an optional field: empty if the field is absent.
pub open spec fn optional_cell(text: Option<Seq<u8>>) -> Seq<char> {
    match text {
        Some(t) => cell_text(t),
        None => Seq::empty(),
    }
}

/// The row that shows `entry`: name, generation, and the four vendor
/// fields, each empty if it is absent.
pub open spec fn entry_row(entry: EntryView) -> Seq<Seq<char>> {
    seq![
        cell_text(entry.component.name),
        decimal_text(entry.component.generation as nat),
        optional_cell(entry.vendor.name),
        optional_cell(entry.vendor.package_name),
        optional_cell(entry.vendor.version),
        optional_cell(entry.vendor.url),
    ]
}

/// The rows of the table of an image's entries: the header, then one
/// row for each entry, in order.
pub open spec fn image_table(entries: Seq<EntryView>) -> Seq<Seq<Seq<char>>> {
    seq![image_table_header()] + entries.map_values(|e: EntryView| entry_row(e))
}

/// The first row of the table of a revocation section.
pub open spec fn level_table_header() -> Seq<Seq<char>> {
    seq!["previous name"@, "previous gen"@, "latest name"@, "latest gen"@]
}

/// The two cells that show the component at `index` of `list`: its name
/// and generation, or two empty cells if the list is shorter.
pub open spec fn component_cells(list: Seq<ComponentView>, index: int) -> Seq<Seq<char>> {
    if 0 <= index < list.len() {
        seq![cell_text(list[index].name), decimal_text(list[index].generation as nat)]
    } else {
        seq![Seq::empty(), Seq::empty()]
    }
}

/// The number of rows that show two lists side by side.
pub open spec fn longer_len(a: nat, b: nat) -> nat {
    if a >= b {
        a
    } else {
        b
    }
}

/// The rows of the table of a revocation section: the header, then the
/// components of the two lists side by side, in order. Where one list
/// has ended its cells are empty.
pub open spec fn level_table(previous: Seq<ComponentView>, latest: Seq<ComponentView>) -> Seq<
    Seq<Seq<char>>,
> {
    seq![level_table_header()] + Seq::new(
        longer_len(previous.len(), latest.len()),
        |i: int| component_cells(previous, i) + component_cells(latest, i),
    )
}

/// The cell for an optional field.
fn cell_of(text: Option<&[u8]>) -> (cell: String)
    ensures
        cell@ == optional_cell(crate::image::optional_text(text)),
{
    match text {
        Some(t) => text_cell(t),
        None => String::new(),
    }
}

/// The cell for a generation.
fn generation_cell(generation: Generation) -> (cell: String)
    ensures
        cell@ == decimal_text(generation@ as nat),
{
    let mut cell = String::new();
    append_decimal(&mut cell, generation.to_u32());
    assert(cell@ =~= decimal_text(generation@ as nat));
    cell
}

/// Puts together the rows of the table of an image's entries.
pub fn image_table_rows(entries: &[Entry]) -> (rows: Vec<Vec<String>>)
    ensures
        rows_view(rows@) == image_table(entry_views(entries@)),
{
    let ghost views = entry_views(entries@);
    let mut rows: Vec<Vec<String>> = Vec::new();
    let mut header: Vec<String> = Vec::new();
    header.push(String::from_str("component"));
    header.push(String::from_str("gen"));
    header.push(String::from_str("vendor"));
    header.push(String::from_str("package"));
    header.push(String::from_str("version"));
    header.push(String::from_str("url"));
    assert(row_view(header) =~= image_table_header());
    rows.push(header);
    assert(rows_view(rows@) =~= image_table(views.take(0)));
    let mut i: usize = 0;
    while i < entries.len()
        invariant
            i <= entries.len(),
            views == entry_views(entries@),
            rows_view(rows@) == image_table(views.take(i as int)),
        decreases entries.len() - i,
    {
        let entry = &entries[i];
        let mut row: Vec<String> = Vec::new();
        row.push(text_cell(entry.component.name));
        row.push(generation_cell(entry.component.generation));
        row.push(cell_of(entry.vendor.name));
        row.push(cell_of(entry.vendor.package_name));
        row.push(cell_of(entry.vendor.version));
        row.push(cell_of(entry.vendor.url));
        assert(row_view(row) =~= entry_row(entry@));
        assert(views[i as int] == entry@);
        let ghost before = rows@;
        rows.push(row);
        assert(rows_view(rows@) =~= image_table(views.take(i + 1))) by {
            assert(rows_view(rows@) =~= rows_view(before).push(row_view(row)));
            assert(views.take(i + 1) =~= views.take(i as int).push(views[i as int]));
        }
        i += 1;
    }
    assert(views.take(i as int) =~= views);
    rows
}

/// Appends the two cells that show the component at `index` of
/// `components` to `row`.
fn push_component_cells(row: &mut Vec<String>, components: &[Component], index: usize)
    ensures
        row_view(*final(row)) == row_view(*old(row)) + component_cells(
            component_views(components@),
            index as int,
        ),
{
    if index < components.len() {
        let component = &components[index];
        assert(component_views(components@)[index as int] == component@);
        row.push(text_cell(component.name));
        row.push(generation_cell(component.generation));
    } else {
        row.push(String::new());
        row.push(String::new());
    }
    assert(row_view(*row) =~= row_view(*old(row)) + component_cells(
        component_views(components@),
        index as int,
    ));
}

/// Puts together the rows of the table of a revocation section.
pub fn sbat_level_table_rows(previous: &[Component], latest: &[Component]) -> (rows: Vec<
    Vec<String>,
>)
    ensures
        rows_view(rows@) == level_table(component_views(previous@), component_views(latest@)),
{
    let ghost prev = component_views(previous@);
    let ghost last = component_views(latest@);
    let count = if previous.len() >= latest.len() {
        previous.len()
    } else {
        latest.len()
    };
    let mut rows: Vec<Vec<String>> = Vec::new();
    let mut header: Vec<String> = Vec::new();
    header.push(String::from_str("previous name"));
    header.push(String::from_str("previous gen"));
    header.push(String::from_str("latest name"));
    header.push(String::from_str("latest gen"));
    assert(row_view(header) =~= level_table_header());
    rows.push(header);
    let mut i: usize = 0;
    assert(rows_view(rows@) =~= seq![level_table_header()]);
    while i < count
        invariant
            i <= count,
            count == longer_len(prev.len(), last.len()),
            prev == component_views(previous@),
            last == component_views(latest@),
            rows_view(rows@).len() == i + 1,
            rows_view(rows@)[0] == level_table_header(),
            forall|k: int|
                0 <= k < i ==> #[trigger] rows_view(rows@)[k + 1] == component_cells(prev, k)
                    + component_cells(last, k),
        decreases count - i,
    {
        let mut row: Vec<String> = Vec::new();
        assert(row_view(row) =~= Seq::<Seq<char>>::empty());
        push_component_cells(&mut row, previous, i);
        push_component_cells(&mut row, latest, i);
        assert(row_view(row) =~= component_cells(prev, i as int) + component_cells(
            last,
            i as int,
        ));
        let ghost before = rows@;
        rows.push(row);
        assert(rows_view(rows@) =~= rows_view(before).push(row_view(row)));
        i += 1;
    }
    proof {
        let built = rows_view(rows@);
        let table = level_table(prev, last);
        assert(built.len() == table.len());
        assert forall|k: int| 0 <= k < built.len() implies built[k] == table[k] by {
            if k > 0 {
                assert(built[(k - 1) + 1] == component_cells(prev, k - 1) + component_cells(
                    last,
                    k - 1,
                ));
            }
        }
        assert(built =~= table);
    }
    rows
}

/// The entries of `image_sbat` as a table with a header row.
pub fn image_sbat_to_table_string(image_sbat: &ImageSbat) -> (table: String)
    ensures
        table@ == rendered_table(image_table(image_sbat.entries_view())),
{
    let entries = image_sbat.entries().collect();
    assert(entry_views(entries@) =~= image_sbat.entries_view());
    render_table(image_table_rows(entries.as_slice()))
}

/// The components of the previous and the latest revocation data of a
/// revocation section, side by side, as a table with a header row.
pub fn sbat_level_section_to_table_string(
    previous: &RevocationSbat,
    latest: &RevocationSbat,
) -> (table: String)
    ensures
        table@ == rendered_table(level_table(previous.components_view(), latest.components_view())),
{
    let previous_components = previous.revoked_components().collect();
    let latest_components = latest.revoked_components().collect();
    assert(component_views(previous_components@) =~= previous.components_view());
    assert(component_views(latest_components@) =~= latest.components_view());
    render_table(
        sbat_level_table_rows(previous_components.as_slice(), latest_components.as_slice()),
    )
}

} // verus!
