//! Revocation data that is stored as it is parsed.
//!
//! These functions decode the same text and apply the same comparison
//! as `RevocationSbat`, but work on components that are held in
//! storage of the caller's choice.

use crate::component::{Component, ComponentView};
use crate::csv::{
    is_ascii, lemma_bounded_storage, lemma_skip_blank_lines, lemma_skip_blank_lines_bounded,
    lemma_unbounded_storage, parse_text_bounded, prepend,
    room_after_one, skip_blank_lines, trim_ascii_at_null, trim_at_null, CsvIter,
};
use crate::error::ParseError;
use crate::format::component_views;
use crate::image::{optional_text, Entry};
use crate::lines::after_first_line;
use crate::metadata::{entry_views, room_left};
use crate::revocations::{
    component_decoder, component_revoked, first_revoked_at, none_revoked, revocation_components,
    revokes, same_bytes, text_date, ValidationResult, MAX_HEADER_FIELDS,
};
use crate::vec::Veclike;
use vstd::prelude::*;

verus! {

/// The components that raw revocation data puts into storage with the
/// given limit: what precedes the first null byte must be ASCII, each
/// of its non-blank lines a component, and the storage must have room
/// for all of them. The first line that fails decides the error.
pub open spec fn stored_components(input: Seq<u8>, limit: Option<nat>) -> Result<
    Seq<ComponentView>,
    ParseError,
> {
    if is_ascii(trim_at_null(input)) {
        parse_text_bounded(trim_at_null(input), component_decoder(), limit)
    } else {
        Err(ParseError::InvalidAscii)
    }
}

/// Storage that grows as needed holds exactly the components that the
/// revocation data denotes, and fails exactly where the data is
/// invalid.
pub proof fn lemma_stored_components_unbounded(input: Seq<u8>)
    ensures
        stored_components(input, None) == revocation_components(input),
{
    lemma_unbounded_storage(trim_at_null(input), component_decoder());
}

/// Storage with room for `room` components holds the components that
/// valid revocation data denotes if there are no more than `room` of
/// them, and otherwise fails with `TooManyRecords`. Invalid data fails.
pub proof fn lemma_stored_components_bounded(input: Seq<u8>, room: nat)
    ensures
        match revocation_components(input) {
            Ok(components) => if components.len() <= room {
                stored_components(input, Some(room)) == Ok::<Seq<ComponentView>, ParseError>(
                    components,
                )
            } else {
                stored_components(input, Some(room)) == Err::<Seq<ComponentView>, ParseError>(
                    ParseError::TooManyRecords,
                )
            },
            Err(_) => stored_components(input, Some(room)) is Err,
        },
{
    lemma_bounded_storage(trim_at_null(input), component_decoder(), room);
}

/// Parse SBAT revocation data from raw CSV into `storage`, one
/// `Component` for each record, and return the date of the data.
///
/// Any existing data is cleared before parsing. If parsing fails,
/// nothing is left in the storage.
pub fn parse_components_into<'a, S: Veclike<Component<'a>>>(
    storage: &mut S,
    input: &'a [u8],
) -> (r: Result<Option<&'a [u8]>, ParseError>)
    requires
        old(storage).wf(),
    ensures
        final(storage).wf(),
        final(storage).limit() == old(storage).limit(),
        match r {
            Ok(date) => {
                &&& stored_components(input@, old(storage).limit()) == Ok::<
                    Seq<ComponentView>,
                    ParseError,
                >(component_views(final(storage).elems()))
                &&& optional_text(date) == text_date(trim_at_null(input@))
            },
            Err(e) => {
                &&& stored_components(input@, old(storage).limit()) == Err::<
                    Seq<ComponentView>,
                    ParseError,
                >(e)
                &&& final(storage).elems().len() == 0
            },
        },
{
    storage.clear();
    let ghost limit = storage.limit();
    let text = match trim_ascii_at_null(input) {
        Ok(text) => text,
        Err(e) => {
            return Err(e);
        },
    };
    let mut header = CsvIter::new(text, MAX_HEADER_FIELDS);
    let date = match header.next() {
        Some(Ok(record)) => record.get_field(2),
        _ => None,
    };
    let mut iter = CsvIter::new(text, MAX_HEADER_FIELDS);
    assert(component_views(storage.elems()) =~= Seq::<ComponentView>::empty());
    assert(Seq::<ComponentView>::empty() + parse_text_bounded(
        text@,
        component_decoder(),
        limit,
    )->Ok_0 =~= parse_text_bounded(text@, component_decoder(), limit)->Ok_0);
    loop
        invariant
            iter.max_fields() == MAX_HEADER_FIELDS,
            text@ == trim_at_null(input@),
            is_ascii(text@),
            optional_text(date) == text_date(text@),
            storage.wf(),
            storage.limit() == limit,
            limit == old(storage).limit(),
            limit matches Some(n) ==> storage.elems().len() <= n,
            parse_text_bounded(text@, component_decoder(), limit) == prepend(
                component_views(storage.elems()),
                parse_text_bounded(
                    iter@,
                    component_decoder(),
                    room_left(limit, storage.elems().len()),
                ),
            ),
        decreases iter@.len(),
    {
        let ghost room = room_left(limit, storage.elems().len());
        let ghost stored = storage.elems();
        proof {
            lemma_skip_blank_lines_bounded(iter@, component_decoder(), room);
            lemma_skip_blank_lines(iter@, component_decoder());
            crate::lines::lemma_index_of(skip_blank_lines(iter@), crate::lines::LINE_FEED);
        }
        let ghost rest = skip_blank_lines(iter@);
        let record = match iter.next() {
            None => {
                assert(component_views(stored) + Seq::<ComponentView>::empty()
                    =~= component_views(stored));
                return Ok(date);
            },
            Some(Err(e)) => {
                storage.clear();
                return Err(e);
            },
            Some(Ok(record)) => record,
        };
        let component = match Component::from_record(&record) {
            Err(e) => {
                storage.clear();
                return Err(e);
            },
            Ok(component) => component,
        };
        match storage.try_push(component) {
            Err(e) => {
                storage.clear();
                return Err(e);
            },
            Ok(()) => {
                proof {
                    let tail = parse_text_bounded(
                        after_first_line(rest),
                        component_decoder(),
                        room_after_one(room),
                    );
                    assert(component_views(stored.push(component)) =~= component_views(
                        stored,
                    ).push(component@));
                    if tail is Ok {
                        assert(component_views(stored) + (seq![component@] + tail->Ok_0)
                            =~= component_views(stored).push(component@) + tail->Ok_0);
                    }
                    assert(room_after_one(room) == room_left(limit, stored.push(component).len()));
                }
            },
        }
    }
}

/// Check if the `input` component is revoked by one of `revocations`.
pub fn is_revoked_by(revocations: &[Component], input: &Component) -> (revoked: bool)
    ensures
        revoked == component_revoked(component_views(revocations@), input@),
{
    let ghost list = component_views(revocations@);
    let mut i: usize = 0;
    while i < revocations.len()
        invariant
            i <= revocations.len(),
            list == component_views(revocations@),
            forall|j: int| 0 <= j < i ==> !revokes(#[trigger] list[j], input@),
        decreases revocations.len() - i,
    {
        let revoked_component = &revocations[i];
        assert(list[i as int] == revoked_component@);
        if same_bytes(input.name, revoked_component.name) && input.generation
            < revoked_component.generation {
            assert(revokes(list[i as int], input@));
            return true;
        }
        i += 1;
    }
    false
}

/// Check if any of `entries` is revoked by one of `revocations`. The
/// entries are looked at in order, and the first revoked one is
/// reported.
pub fn validate_entries<'i>(revocations: &[Component], entries: &[Entry<'i>]) -> (r:
    ValidationResult<'i>)
    ensures
        match r {
            ValidationResult::Allowed => none_revoked(
                component_views(revocations@),
                entry_views(entries@),
            ),
            ValidationResult::Revoked(entry) => exists|i: int|
                first_revoked_at(component_views(revocations@), entry_views(entries@), i)
                    && entry@ == #[trigger] entry_views(entries@)[i],
        },
{
    let ghost list = component_views(revocations@);
    let ghost views = entry_views(entries@);
    let mut i: usize = 0;
    while i < entries.len()
        invariant
            i <= entries.len(),
            list == component_views(revocations@),
            views == entry_views(entries@),
            forall|j: int| 0 <= j < i ==> !component_revoked(list, (#[trigger] views[j]).component),
        decreases entries.len() - i,
    {
        let entry = entries[i];
        assert(views[i as int] == entry@);
        if is_revoked_by(revocations, &entry.component) {
            assert(first_revoked_at(list, views, i as int));
            return ValidationResult::Revoked(entry);
        }
        i += 1;
    }
    ValidationResult::Allowed
}

} // verus!
