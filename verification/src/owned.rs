//! SBAT data held in vectors that grow as needed.

use crate::component::{Component, ComponentView};
use crate::csv::{lemma_unbounded_storage, trim_at_null};
use crate::error::ParseError;
use crate::format::{
    component_views, entries_csv, entries_to_csv, revocations_csv, revocations_to_csv,
};
use crate::image::{entry_decoder, image_entries, optional_text, Entry, EntryView};
use crate::metadata::{entry_views, parse_entries_into};
use crate::revocation_list::{is_revoked_by, parse_components_into, validate_entries};
use crate::revocations::{
    component_decoder, component_revoked, first_revoked_at, none_revoked, revocation_components,
    text_date, ValidationResult,
};
use vstd::prelude::*;

verus! {

/// Image SBAT metadata.
///
/// This contains SBAT entries parsed from the `.sbat` section of a UEFI
/// PE executable, held in a vector.
#[derive(Clone, Debug, Default, PartialEq, Eq)]
pub struct ImageSbatOwned<'a> {
    entries: Vec<Entry<'a>>,
}

impl<'a> ImageSbatOwned<'a> {
    /// The entries held, in the order in which they were added.
    pub closed spec fn elems(&self) -> Seq<Entry<'a>> {
        self.entries@
    }

    /// What the entries held stand for.
    pub open spec fn entries_view(&self) -> Seq<EntryView> {
        entry_views(self.elems())
    }

    /// Create a new `ImageSbatOwned` without entries.
    pub fn new() -> (image: Self)
        ensures
            image.elems() == Seq::<Entry<'a>>::empty(),
    {
        ImageSbatOwned { entries: Vec::new() }
    }

    /// Parse SBAT metadata from raw CSV. Each record is parsed as an
    /// `Entry`. Any data past the first null in `input` is ignored.
    pub fn parse(input: &'a [u8]) -> (r: Result<Self, ParseError>)
        ensures
            match r {
                Ok(image) => image_entries(input@) == Ok::<Seq<EntryView>, ParseError>(
                    image.entries_view(),
                ),
                Err(e) => image_entries(input@) == Err::<Seq<EntryView>, ParseError>(e),
            },
    {
        let mut entries: Vec<Entry<'a>> = Vec::new();
        proof {
            lemma_unbounded_storage(trim_at_null(input@), entry_decoder());
        }
        match parse_entries_into(&mut entries, input) {
            Ok(()) => Ok(ImageSbatOwned { entries }),
            Err(e) => Err(e),
        }
    }

    /// Add an SBAT entry.
    pub fn push(&mut self, entry: Entry<'a>)
        ensures
            final(self).elems() == old(self).elems().push(entry),
    {
        self.entries.push(entry);
    }

    /// Add an SBAT entry. A vector always has room, so this does not
    /// fail.
    pub fn try_push(&mut self, entry: Entry<'a>) -> (r: Result<(), ParseError>)
        ensures
            r is Ok,
            final(self).elems() == old(self).elems().push(entry),
    {
        self.push(entry);
        Ok(())
    }

    /// Get the SBAT entries.
    pub fn entries(&self) -> (s: &[Entry<'a>])
        ensures
            s@ == self.elems(),
    {
        self.entries.as_slice()
    }

    /// The entries as CSV text, one line each.
    pub fn to_csv(&self) -> (text: Vec<u8>)
        ensures
            text@ == entries_csv(self.entries_view()),
    {
        entries_to_csv(self.entries.as_slice())
    }
}

/// SBAT revocation data.
///
/// This contains SBAT revocation data parsed from a UEFI variable such
/// as `SbatLevel`, held in a vector.
#[derive(Clone, Debug, Default, PartialEq, Eq)]
pub struct RevocationSbatOwned<'a> {
    date: Option<&'a [u8]>,
    components: Vec<Component<'a>>,
}

impl<'a> RevocationSbatOwned<'a> {
    /// The components held, in the order in which they were added.
    pub closed spec fn elems(&self) -> Seq<Component<'a>> {
        self.components@
    }

    /// What the components held stand for.
    pub open spec fn components_view(&self) -> Seq<ComponentView> {
        component_views(self.elems())
    }

    /// The date of the revocation data, if it has one.
    pub closed spec fn date_view(&self) -> Option<Seq<u8>> {
        optional_text(self.date)
    }

    /// Create an empty `RevocationSbatOwned` without a date.
    pub fn new() -> (revocations: Self)
        ensures
            revocations.elems() == Seq::<Component<'a>>::empty(),
            revocations.date_view() is None,
    {
        RevocationSbatOwned { date: None, components: Vec::new() }
    }

    /// Parse SBAT revocation data from raw CSV. Each record is parsed
    /// as a `Component`; the third field of the first record is the
    /// date. Any data past the first null in `input` is ignored.
    pub fn parse(input: &'a [u8]) -> (r: Result<Self, ParseError>)
        ensures
            match r {
                Ok(revocations) => {
                    &&& revocation_components(input@) == Ok::<Seq<ComponentView>, ParseError>(
                        revocations.components_view(),
                    )
                    &&& revocations.date_view() == text_date(trim_at_null(input@))
                },
                Err(e) => revocation_components(input@) == Err::<Seq<ComponentView>, ParseError>(
                    e,
                ),
            },
    {
        let mut components: Vec<Component<'a>> = Vec::new();
        proof {
            lemma_unbounded_storage(trim_at_null(input@), component_decoder());
        }
        match parse_components_into(&mut components, input) {
            Ok(date) => Ok(RevocationSbatOwned { date, components }),
            Err(e) => Err(e),
        }
    }

    /// Add a revoked component.
    pub fn push(&mut self, component: Component<'a>)
        ensures
            final(self).elems() == old(self).elems().push(component),
            final(self).date_view() == old(self).date_view(),
    {
        self.components.push(component);
    }

    /// Add a revoked component. A vector always has room, so this does
    /// not fail.
    pub fn try_push(&mut self, component: Component<'a>) -> (r: Result<(), ParseError>)
        ensures
            r is Ok,
            final(self).elems() == old(self).elems().push(component),
            final(self).date_view() == old(self).date_view(),
    {
        self.push(component);
        Ok(())
    }

    /// Date of the revocation data, used as a comparable version. This
    /// is optional and may not be present.
    pub fn date(&self) -> (date: Option<&'a [u8]>)
        ensures
            optional_text(date) == self.date_view(),
    {
        self.date
    }

    /// Set the date of the revocation data.
    pub fn set_date(&mut self, date: Option<&'a [u8]>)
        ensures
            final(self).date_view() == optional_text(date),
            final(self).elems() == old(self).elems(),
    {
        self.date = date;
    }

    /// Get the revoked components.
    pub fn revoked_components(&self) -> (s: &[Component<'a>])
        ensures
            s@ == self.elems(),
    {
        self.components.as_slice()
    }

    /// Check if the `input` component is revoked.
    pub fn is_component_revoked(&self, input: &Component) -> (revoked: bool)
        ensures
            revoked == component_revoked(self.components_view(), input@),
    {
        is_revoked_by(self.components.as_slice(), input)
    }

    /// Check if any of the image's `entries` is revoked. The first
    /// revoked entry, in the order of `entries`, is reported.
    pub fn validate_image<'i>(&self, entries: &[Entry<'i>]) -> (r: ValidationResult<'i>)
        ensures
            match r {
                ValidationResult::Allowed => none_revoked(
                    self.components_view(),
                    entry_views(entries@),
                ),
                ValidationResult::Revoked(entry) => exists|i: int|
                    first_revoked_at(self.components_view(), entry_views(entries@), i) && entry@
                        == #[trigger] entry_views(entries@)[i],
            },
    {
        validate_entries(self.components.as_slice(), entries)
    }

    /// The revocation data as CSV text, one line for each component;
    /// the first line carries the date.
    pub fn to_csv(&self) -> (text: Vec<u8>)
        ensures
            text@ == revocations_csv(self.date_view(), self.components_view()),
    {
        revocations_to_csv(self.date, self.components.as_slice())
    }
}

} // verus!
