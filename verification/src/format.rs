//! Writing SBAT data out as CSV.
//!
//! Each entry or component becomes one line that ends with a line
//! feed. The text that is written parses back to what was written; see
//! `lemma_entries_round_trip`.

use crate::component::{Component, ComponentView};
use crate::csv::COMMA;
use crate::generation::decimal_digits;
use crate::image::{Entry, EntryView, VendorView};
use crate::lines::LINE_FEED;
use crate::metadata::entry_views;
use vstd::prelude::*;

verus! {

/// `fields` with a comma between each two of them.
pub open spec fn join_fields(fields: Seq<Seq<u8>>) -> Seq<u8>
    decreases fields.len(),
{
    if fields.len() == 0 {
        Seq::empty()
    } else if fields.len() == 1 {
        fields[0]
    } else {
        join_fields(fields.drop_last()) + seq![COMMA] + fields.last()
    }
}

/// The bytes of an optional text; none if it is absent.
pub open spec fn text_or_empty(text: Option<Seq<u8>>) -> Seq<u8> {
    match text {
        Some(t) => t,
        None => Seq::empty(),
    }
}

/// The number of vendor fields that are written: up to the last one
/// that is there.
pub open spec fn vendor_field_count(vendor: VendorView) -> nat {
    if vendor.url is Some {
        4
    } else if vendor.version is Some {
        3
    } else if vendor.package_name is Some {
        2
    } else if vendor.name is Some {
        1
    } else {
        0
    }
}

/// The fields of the line that stands for `entry`: name, generation,
/// and the vendor fields up to the last one that is there. An absent
/// vendor field before that one is written as an empty field.
pub open spec fn entry_fields(entry: EntryView) -> Seq<Seq<u8>> {
    seq![entry.component.name, decimal_digits(entry.component.generation as nat)] + seq![
        text_or_empty(entry.vendor.name),
        text_or_empty(entry.vendor.package_name),
        text_or_empty(entry.vendor.version),
        text_or_empty(entry.vendor.url),
    ].take(vendor_field_count(entry.vendor) as int)
}

/// The CSV text for `entries`: one line each, in order.
pub open spec fn entries_csv(entries: Seq<EntryView>) -> Seq<u8>
    decreases entries.len(),
{
    if entries.len() == 0 {
        Seq::empty()
    } else {
        join_fields(entry_fields(entries[0])) + seq![LINE_FEED] + entries_csv(
            entries.drop_first(),
        )
    }
}

/// The fields of the line that stands for `component`, with the date
/// of the list as a third field if one is given.
pub open spec fn component_fields(component: ComponentView, date: Option<Seq<u8>>) -> Seq<
    Seq<u8>,
> {
    let fields = seq![component.name, decimal_digits(component.generation as nat)];
    match date {
        Some(d) => fields.push(d),
        None => fields,
    }
}

/// The CSV text for `components`, none of which carries a date.
pub open spec fn components_csv(components: Seq<ComponentView>) -> Seq<u8>
    decreases components.len(),
{
    if components.len() == 0 {
        Seq::empty()
    } else {
        join_fields(component_fields(components[0], None)) + seq![LINE_FEED] + components_csv(
            components.drop_first(),
        )
    }
}

/// The CSV text for a revocation list: one line for each component, in
/// order; the first line carries the date, if there is one.
pub open spec fn revocations_csv(date: Option<Seq<u8>>, components: Seq<ComponentView>) -> Seq<
    u8,
> {
    if components.len() == 0 {
        Seq::empty()
    } else {
        join_fields(component_fields(components[0], date)) + seq![LINE_FEED] + components_csv(
            components.drop_first(),
        )
    }
}

/// What each of `components` stands for.
pub open spec fn component_views(components: Seq<Component>) -> Seq<ComponentView> {
    components.map_values(|c: Component| c@)
}

/// Appends `bytes` to `out`.
pub fn append_bytes(out: &mut Vec<u8>, bytes: &[u8])
    ensures
        final(out)@ == old(out)@ + bytes@,
{
    let mut i: usize = 0;
    while i < bytes.len()
        invariant
            i <= bytes.len(),
            out@ == old(out)@ + bytes@.take(i as int),
        decreases bytes.len() - i,
    {
        out.push(bytes[i]);
        assert(out@ =~= old(out)@ + bytes@.take(i + 1));
        i += 1;
    }
    assert(bytes@.take(i as int) =~= bytes@);
}

/// Appends a comma and `field` to `out`.
fn append_field(out: &mut Vec<u8>, field: &[u8], Ghost(fields): Ghost<Seq<Seq<u8>>>, Ghost(
    start,
): Ghost<Seq<u8>>)
    requires
        fields.len() >= 1,
        old(out)@ == start + join_fields(fields),
    ensures
        final(out)@ == start + join_fields(fields.push(field@)),
{
    out.push(COMMA);
    append_bytes(out, field);
    proof {
        let more = fields.push(field@);
        assert(more.drop_last() =~= fields);
        assert(out@ =~= start + join_fields(more));
    }
}

/// Appends an optional field to `out`, as an empty field if it is
/// absent.
fn append_optional_field(
    out: &mut Vec<u8>,
    field: Option<&[u8]>,
    Ghost(fields): Ghost<Seq<Seq<u8>>>,
    Ghost(start): Ghost<Seq<u8>>,
)
    requires
        fields.len() >= 1,
        old(out)@ == start + join_fields(fields),
    ensures
        final(out)@ == start + join_fields(
            fields.push(text_or_empty(crate::image::optional_text(field))),
        ),
{
    match field {
        Some(text) => append_field(out, text, Ghost(fields), Ghost(start)),
        None => {
            let empty: [u8; 0] = [];
            append_field(out, vstd::array::array_as_slice(&empty), Ghost(fields), Ghost(start));
            assert(empty@ =~= Seq::<u8>::empty());
        },
    }
}

/// Appends the name and the generation of `component` to `out`.
fn append_component(out: &mut Vec<u8>, component: &Component)
    ensures
        final(out)@ == old(out)@ + join_fields(component_fields(component@, None)),
{
    let ghost start = out@;
    append_bytes(out, component.name);
    assert(join_fields(seq![component.name@]) == component.name@);
    let digits = component.generation.to_ascii();
    let ghost first = seq![component.name@];
    append_field(out, digits.as_slice(), Ghost(first), Ghost(start));
    assert(first.push(digits@) =~= component_fields(component@, None));
}

/// Appends the line that stands for `entry` to `out`.
pub fn append_entry(out: &mut Vec<u8>, entry: &Entry)
    ensures
        final(out)@ == old(out)@ + join_fields(entry_fields(entry@)) + seq![LINE_FEED],
{
    let ghost start = out@;
    append_component(out, &entry.component);
    let ghost base = component_fields(entry.component@, None);
    let vendor = &entry.vendor;
    let ghost all = seq![
        text_or_empty(entry@.vendor.name),
        text_or_empty(entry@.vendor.package_name),
        text_or_empty(entry@.vendor.version),
        text_or_empty(entry@.vendor.url),
    ];
    let count: usize = if vendor.url.is_some() {
        4
    } else if vendor.version.is_some() {
        3
    } else if vendor.package_name.is_some() {
        2
    } else if vendor.name.is_some() {
        1
    } else {
        0
    };
    assert(count == vendor_field_count(entry@.vendor));
    assert(base + all.take(0) =~= base);
    if count >= 1 {
        let ghost fields = base + all.take(0);
        append_optional_field(out, vendor.name, Ghost(fields), Ghost(start));
        assert((base + all.take(0)).push(all[0]) =~= base + all.take(1));
    }
    if count >= 2 {
        let ghost fields = base + all.take(1);
        append_optional_field(out, vendor.package_name, Ghost(fields), Ghost(start));
        assert((base + all.take(1)).push(all[1]) =~= base + all.take(2));
    }
    if count >= 3 {
        let ghost fields = base + all.take(2);
        append_optional_field(out, vendor.version, Ghost(fields), Ghost(start));
        assert((base + all.take(2)).push(all[2]) =~= base + all.take(3));
    }
    if count >= 4 {
        let ghost fields = base + all.take(3);
        append_optional_field(out, vendor.url, Ghost(fields), Ghost(start));
        assert((base + all.take(3)).push(all[3]) =~= base + all.take(4));
    }
    assert(base + all.take(count as int) =~= entry_fields(entry@));
    out.push(LINE_FEED);
    assert(out@ =~= start + join_fields(entry_fields(entry@)) + seq![LINE_FEED]);
}

/// Writes `entries` as CSV text.
pub fn entries_to_csv(entries: &[Entry]) -> (out: Vec<u8>)
    ensures
        out@ == entries_csv(entry_views(entries@)),
{
    let ghost views = entry_views(entries@);
    let mut out: Vec<u8> = Vec::new();
    let mut i: usize = 0;
    assert(views.skip(0) =~= views);
    while i < entries.len()
        invariant
            i <= entries.len(),
            views == entry_views(entries@),
            out@ + entries_csv(views.skip(i as int)) == entries_csv(views),
        decreases entries.len() - i,
    {
        let ghost before = out@;
        append_entry(&mut out, &entries[i]);
        proof {
            let rest = views.skip(i as int);
            assert(rest[0] == entries@[i as int]@);
            assert(rest.drop_first() =~= views.skip(i + 1));
            assert(out@ + entries_csv(views.skip(i + 1)) =~= before + entries_csv(rest));
        }
        i += 1;
    }
    assert(out@ + Seq::<u8>::empty() =~= out@);
    out
}

/// Writes a revocation list as CSV text. The date goes on the first
/// line; a list without components is written as empty text.
pub fn revocations_to_csv(date: Option<&[u8]>, components: &[Component]) -> (out: Vec<u8>)
    ensures
        out@ == revocations_csv(crate::image::optional_text(date), component_views(components@)),
{
    let ghost views = component_views(components@);
    let mut out: Vec<u8> = Vec::new();
    if components.len() == 0 {
        return out;
    }
    append_component(&mut out, &components[0]);
    assert(views[0] == components@[0]@);
    match date {
        Some(d) => {
            let ghost fields = component_fields(views[0], None);
            let ghost start = Seq::<u8>::empty();
            assert(out@ =~= start + join_fields(fields));
            append_field(&mut out, d, Ghost(fields), Ghost(start));
        },
        None => {},
    }
    out.push(LINE_FEED);
    assert(out@ =~= join_fields(component_fields(views[0], crate::image::optional_text(date)))
        + seq![LINE_FEED]);
    let mut i: usize = 1;
    assert(views.drop_first() =~= views.skip(1));
    while i < components.len()
        invariant
            1 <= i <= components.len(),
            views == component_views(components@),
            out@ + components_csv(views.skip(i as int)) == revocations_csv(
                crate::image::optional_text(date),
                views,
            ),
        decreases components.len() - i,
    {
        let ghost before = out@;
        append_component(&mut out, &components[i]);
        out.push(LINE_FEED);
        proof {
            let rest = views.skip(i as int);
            assert(rest[0] == components@[i as int]@);
            assert(rest.drop_first() =~= views.skip(i + 1));
            assert(out@ + components_csv(views.skip(i + 1)) =~= before + components_csv(rest));
        }
        i += 1;
    }
    assert(out@ + Seq::<u8>::empty() =~= out@);
    out
}

} // verus!
