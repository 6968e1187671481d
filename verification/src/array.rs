//! SBAT data held in storage of a fixed size, without allocation.

use crate::component::{Component, ComponentView};
use crate::csv::trim_at_null;
use crate::error::ParseError;
use crate::format::{
    component_views, entries_csv, entries_to_csv, revocations_csv, revocations_to_csv,
};
use crate::generation::Generation;
use crate::image::{optional_text, Entry, EntryView, Vendor};
use crate::metadata::{entry_views, parse_entries_into, stored_entries};
use crate::revocation_list::{
    is_revoked_by, parse_components_into, stored_components, validate_entries,
};
use crate::revocations::{
    component_revoked, first_revoked_at, none_revoked, text_date, ValidationResult,
};
use crate::vec::{ArrayStorage, Veclike};
use vstd::prelude::*;

verus! {

/// A component without a name, of the first generation.
fn blank_component<'a>() -> (c: Component<'a>)
    ensures
        c@ == (ComponentView { name: Seq::<u8>::empty(), generation: 1 }),
{
    let name: &'static [u8] = &[];
    assert(name@ =~= Seq::<u8>::empty());
    Component { name, generation: Generation::default() }
}

/// Image SBAT metadata.
///
/// This contains SBAT entries parsed from the `.sbat` section of a UEFI
/// PE executable, held in storage for up to `N` entries.
#[derive(Clone, Copy, Debug)]
pub struct ImageSbatArray<'a, const N: usize> {
    entries: ArrayStorage<Entry<'a>, N>,
}

impl<'a, const N: usize> ImageSbatArray<'a, N> {
    /// The entries held, in the order in which they were added.
    pub closed spec fn elems(&self) -> Seq<Entry<'a>> {
        self.entries.elems()
    }

    /// Whether the storage is in a consistent state.
    pub closed spec fn wf(&self) -> bool {
        self.entries.wf() && self.entries.limit() == Some(N as nat)
    }

    /// What the entries held stand for.
    pub open spec fn entries_view(&self) -> Seq<EntryView> {
        entry_views(self.elems())
    }

    /// Create an empty `ImageSbatArray`.
    pub fn new() -> (image: Self)
        ensures
            image.wf(),
            image.elems() == Seq::<Entry<'a>>::empty(),
    {
        let blank = Entry {
            component: blank_component(),
            vendor: Vendor { name: None, package_name: None, version: None, url: None },
        };
        ImageSbatArray { entries: ArrayStorage::new(blank) }
    }

    /// Parse SBAT metadata from raw CSV. Each record is parsed as an
    /// `Entry`. Any data past the first null in `input` is ignored.
    /// Valid data with more than `N` entries is rejected with
    /// `TooManyRecords`.
    pub fn parse(input: &'a [u8]) -> (r: Result<Self, ParseError>)
        ensures
            match r {
                Ok(image) => {
                    &&& image.wf()
                    &&& stored_entries(input@, Some(N as nat)) == Ok::<
                        Seq<EntryView>,
                        ParseError,
                    >(image.entries_view())
                },
                Err(e) => stored_entries(input@, Some(N as nat)) == Err::<
                    Seq<EntryView>,
                    ParseError,
                >(e),
            },
    {
        let mut image = Self::new();
        match parse_entries_into(&mut image.entries, input) {
            Ok(()) => Ok(image),
            Err(e) => Err(e),
        }
    }

    /// Add an SBAT entry. If `N` entries are held already, this returns
    /// `TooManyRecords` and changes nothing.
    pub fn try_push(&mut self, entry: Entry<'a>) -> (r: Result<(), ParseError>)
        requires
            old(self).wf(),
        ensures
            final(self).wf(),
            r is Ok <==> old(self).elems().len() < N,
            r is Ok ==> final(self).elems() == old(self).elems().push(entry),
            r matches Err(e) ==> e == ParseError::TooManyRecords && final(self).elems() == old(
                self,
            ).elems(),
    {
        self.entries.try_push(entry)
    }

    /// Get the SBAT entries.
    pub fn entries(&self) -> (s: &[Entry<'a>])
        requires
            self.wf(),
        ensures
            s@ == self.elems(),
            s@.len() <= N,
    {
        self.entries.as_slice()
    }

    /// The entries as CSV text, one line each.
    pub fn to_csv(&self) -> (text: Vec<u8>)
        requires
            self.wf(),
        ensures
            text@ == entries_csv(self.entries_view()),
    {
        entries_to_csv(self.entries.as_slice())
    }
}

/// SBAT revocation data.
///
/// This contains SBAT revocation data parsed from a UEFI variable such
/// as `SbatLevel`, held in storage for up to `N` components.
#[derive(Clone, Copy, Debug)]
pub struct RevocationSbatArray<'a, const N: usize> {
    date: Option<&'a [u8]>,
    components: ArrayStorage<Component<'a>, N>,
}

impl<'a, const N: usize> RevocationSbatArray<'a, N> {
    /// The components held, in the order in which they were added.
    pub closed spec fn elems(&self) -> Seq<Component<'a>> {
        self.components.elems()
    }

    /// Whether the storage is in a consistent state.
    pub closed spec fn wf(&self) -> bool {
        self.components.wf() && self.components.limit() == Some(N as nat)
    }

    /// What the components held stand for.
    pub open spec fn components_view(&self) -> Seq<ComponentView> {
        component_views(self.elems())
    }

    /// The date of the revocation data, if it has one.
    pub closed spec fn date_view(&self) -> Option<Seq<u8>> {
        optional_text(self.date)
    }

    /// Create an empty `RevocationSbatArray` without a date.
    pub fn new() -> (revocations: Self)
        ensures
            revocations.wf(),
            revocations.elems() == Seq::<Component<'a>>::empty(),
            revocations.date_view() is None,
    {
        RevocationSbatArray { date: None, components: ArrayStorage::new(blank_component()) }
    }

    /// Parse SBAT revocation data from raw CSV. Each record is parsed
    /// as a `Component`; the third field of the first record is the
    /// date. Any data past the first null in `input` is ignored. Valid
    /// data with more than `N` components is rejected with
    /// `TooManyRecords`.
    pub fn parse(input: &'a [u8]) -> (r: Result<Self, ParseError>)
        ensures
            match r {
                Ok(revocations) => {
                    &&& revocations.wf()
                    &&& stored_components(input@, Some(N as nat)) == Ok::<
                        Seq<ComponentView>,
                        ParseError,
                    >(revocations.components_view())
                    &&& revocations.date_view() == text_date(trim_at_null(input@))
                },
                Err(e) => stored_components(input@, Some(N as nat)) == Err::<
                    Seq<ComponentView>,
                    ParseError,
                >(e),
            },
    {
        let mut revocations = Self::new();
        match parse_components_into(&mut revocations.components, input) {
            Ok(date) => {
                revocations.date = date;
                Ok(revocations)
            },
            Err(e) => Err(e),
        }
    }

    /// Add a revoked component. If `N` components are held already,
    /// this returns `TooManyRecords` and changes nothing.
    pub fn try_push(&mut self, component: Component<'a>) -> (r: Result<(), ParseError>)
        requires
            old(self).wf(),
        ensures
            final(self).wf(),
            final(self).date_view() == old(self).date_view(),
            r is Ok <==> old(self).elems().len() < N,
            r is Ok ==> final(self).elems() == old(self).elems().push(component),
            r matches Err(e) ==> e == ParseError::TooManyRecords && final(self).elems() == old(
                self,
            ).elems(),
    {
        self.components.try_push(component)
    }

    /// Date of the revocation data, used as a comparable version. This
    /// is optional and may not be present.
    pub fn date(&self) -> (date: Option<&'a [u8]>)
        ensures
            optional_text(date) == self.date_view(),
    {
        self.date
    }

    /// Set the date of the revocation data.
    pub fn set_date(&mut self, date: Option<&'a [u8]>)
        ensures
            final(self).date_view() == optional_text(date),
            final(self).elems() == old(self).elems(),
            final(self).wf() == old(self).wf(),
    {
        self.date = date;
    }

    /// Get the revoked components.
    pub fn revoked_components(&self) -> (s: &[Component<'a>])
        requires
            self.wf(),
        ensures
            s@ == self.elems(),
            s@.len() <= N,
    {
        self.components.as_slice()
    }

    /// Check if the `input` component is revoked.
    pub fn is_component_revoked(&self, input: &Component) -> (revoked: bool)
        requires
            self.wf(),
        ensures
            revoked == component_revoked(self.components_view(), input@),
    {
        is_revoked_by(self.components.as_slice(), input)
    }

    /// Check if any of the image's `entries` is revoked. The first
    /// revoked entry, in the order of `entries`, is reported.
    pub fn validate_image<'i>(&self, entries: &[Entry<'i>]) -> (r: ValidationResult<'i>)
        requires
            self.wf(),
        ensures
            match r {
                ValidationResult::Allowed => none_revoked(
                    self.components_view(),
                    entry_views(entries@),
                ),
                ValidationResult::Revoked(entry) => exists|i: int|
                    first_revoked_at(self.components_view(), entry_views(entries@), i) && entry@
                        == #[trigger] entry_views(entries@)[i],
            },
    {
        validate_entries(self.components.as_slice(), entries)
    }

    /// The revocation data as CSV text, one line for each component;
    /// the first line carries the date.
    pub fn to_csv(&self) -> (text: Vec<u8>)
        requires
            self.wf(),
        ensures
            text@ == revocations_csv(self.date_view(), self.components_view()),
    {
        revocations_to_csv(self.date, self.components.as_slice())
    }
}

} // verus!
