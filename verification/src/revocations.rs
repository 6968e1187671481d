//! SBAT revocations.
//!
//! Typically this data is read from a UEFI variable. A revocation list
//! names, for each component it knows, the lowest generation that may
//! still boot.

use crate::component::{record_component, Component, ComponentView};
use crate::csv::{
    is_ascii, lemma_skip_blank_lines, line_record, parse_text, prepend, skip_blank_lines,
    trim_ascii_at_null, trim_at_null, CsvIter,
};
use crate::error::ParseError;
use crate::image::{field_at, Entry, EntryView, ImageSbat};
use crate::lines::{after_first_line, first_line};
use vstd::prelude::*;

verus! {

/// The first record of a revocation list has the component name and
/// generation like the others, but may also have a date field.
pub const MAX_HEADER_FIELDS: usize = 3;

/// Whether an image is allowed or revoked.
#[derive(Clone, Copy, Debug, PartialEq, Eq)]
pub enum ValidationResult<'a> {
    /// The image has not been revoked.
    Allowed,
    /// The image has been revoked. The first revoked entry is provided
    /// (there could be additional revoked components).
    Revoked(Entry<'a>),
}

/// The component that a non-blank line of a revocation list denotes.
pub open spec fn line_component(line: Seq<u8>) -> Result<ComponentView, ParseError> {
    match line_record(line, MAX_HEADER_FIELDS) {
        Err(e) => Err(e),
        Ok(fields) => record_component(fields),
    }
}

/// `line_component` as a value.
pub open spec fn component_decoder() -> spec_fn(Seq<u8>) -> Result<ComponentView, ParseError> {
    |line: Seq<u8>| line_component(line)
}

/// The components that ASCII text denotes, or the first error in it.
pub open spec fn text_components(text: Seq<u8>) -> Result<Seq<ComponentView>, ParseError> {
    parse_text(text, component_decoder())
}

/// The components that raw revocation data denotes: what precedes the
/// first null byte must be ASCII, and each of its non-blank lines a
/// component. The first line that is none decides the error.
pub open spec fn revocation_components(input: Seq<u8>) -> Result<Seq<ComponentView>, ParseError> {
    if is_ascii(trim_at_null(input)) {
        text_components(trim_at_null(input))
    } else {
        Err(ParseError::InvalidAscii)
    }
}

/// The date of a revocation list: the third field of its first
/// non-blank line, if that line has one.
pub open spec fn text_date(text: Seq<u8>) -> Option<Seq<u8>> {
    let rest = skip_blank_lines(text);
    if rest.len() == 0 {
        None
    } else {
        match line_record(first_line(rest), MAX_HEADER_FIELDS) {
            Ok(fields) => field_at(fields, 2),
            Err(_) => None,
        }
    }
}

/// Whether the revocation `by` revokes the component `c`: the names are
/// the same, byte for byte, and the generation of `c` is lower.
pub open spec fn revokes(by: ComponentView, c: ComponentView) -> bool {
    by.name == c.name && c.generation < by.generation
}

/// Whether some revocation of `list` revokes the component `c`.
pub open spec fn component_revoked(list: Seq<ComponentView>, c: ComponentView) -> bool {
    exists|i: int| 0 <= i < list.len() && revokes(#[trigger] list[i], c)
}

/// Whether the entry at `index` is the first of `entries` whose
/// component `list` revokes.
pub open spec fn first_revoked_at(
    list: Seq<ComponentView>,
    entries: Seq<EntryView>,
    index: int,
) -> bool {
    &&& 0 <= index < entries.len()
    &&& component_revoked(list, entries[index].component)
    &&& forall|j: int| 0 <= j < index ==> !component_revoked(list, (#[trigger] entries[j]).component)
}

/// Whether `list` revokes no component of `entries`.
pub open spec fn none_revoked(list: Seq<ComponentView>, entries: Seq<EntryView>) -> bool {
    forall|j: int|
        0 <= j < entries.len() ==> !component_revoked(list, (#[trigger] entries[j]).component)
}

/// A revocation revokes a component of its own name exactly when the
/// component's generation is lower than the revocation's: not when the
/// two are equal, and not when the component's is higher.
pub proof fn lemma_generation_ordering(name: Seq<u8>, g1: u32, g2: u32)
    ensures
        component_revoked(
            seq![ComponentView { name, generation: g2 }],
            ComponentView { name, generation: g1 },
        ) <==> g1 < g2,
{
    let list = seq![ComponentView { name, generation: g2 }];
    let c = ComponentView { name, generation: g1 };
    if g1 < g2 {
        assert(revokes(list[0], c));
    }
}

/// A component whose name no revocation has is not revoked, whatever
/// its generation.
pub proof fn lemma_unknown_component_allowed(list: Seq<ComponentView>, c: ComponentView)
    requires
        forall|i: int| 0 <= i < list.len() ==> (#[trigger] list[i]).name != c.name,
    ensures
        !component_revoked(list, c),
{
}

/// An image none of whose components the list names is allowed.
pub proof fn lemma_unknown_components_allowed(list: Seq<ComponentView>, entries: Seq<EntryView>)
    requires
        forall|i: int, j: int|
            0 <= i < list.len() && 0 <= j < entries.len() ==> (#[trigger] list[i]).name != (
            #[trigger] entries[j]).component.name,
    ensures
        none_revoked(list, entries),
{
    assert forall|j: int| 0 <= j < entries.len() implies !component_revoked(
        list,
        (#[trigger] entries[j]).component,
    ) by {
        lemma_unknown_component_allowed(list, entries[j].component);
    }
}

/// At most one entry is the first revoked one, so what `validate_image`
/// reports is determined by the two lists.
pub proof fn lemma_first_revoked_unique(
    list: Seq<ComponentView>,
    entries: Seq<EntryView>,
    i: int,
    j: int,
)
    requires
        first_revoked_at(list, entries, i),
        first_revoked_at(list, entries, j),
    ensures
        i == j,
{
    if i < j {
        assert(!component_revoked(list, entries[i].component));
    } else if j < i {
        assert(!component_revoked(list, entries[j].component));
    }
}

/// Tells whether two texts hold the same bytes.
pub fn same_bytes(a: &[u8], b: &[u8]) -> (same: bool)
    ensures
        same == (a@ == b@),
{
    if a.len() != b.len() {
        return false;
    }
    let mut i: usize = 0;
    while i < a.len()
        invariant
            i <= a.len(),
            a.len() == b.len(),
            forall|j: int| 0 <= j < i ==> a@[j] == b@[j],
        decreases a.len() - i,
    {
        if a[i] != b[i] {
            return false;
        }
        i += 1;
    }
    assert(a@ =~= b@);
    true
}

/// Iterator over the revoked components of a `RevocationSbat`.
///
/// See `RevocationSbat::revoked_components`.
pub struct RevokedComponents<'a> {
    csv: CsvIter<'a>,
}

impl<'a> View for RevokedComponents<'a> {
    type V = Seq<ComponentView>;

    /// The components that have not been handed out yet.
    closed spec fn view(&self) -> Seq<ComponentView> {
        match text_components(self.csv@) {
            Ok(components) => components,
            Err(_) => Seq::empty(),
        }
    }
}

impl<'a> RevokedComponents<'a> {
    #[verifier::type_invariant]
    spec fn valid(self) -> bool {
        text_components(self.csv@) is Ok && self.csv.max_fields() == MAX_HEADER_FIELDS
    }

    /// Hands out the next component, or `None` when there is none left.
    pub fn next(&mut self) -> (r: Option<Component<'a>>)
        ensures
            match r {
                None => old(self)@.len() == 0 && final(self)@.len() == 0,
                Some(component) => {
                    &&& old(self)@.len() > 0
                    &&& component@ == old(self)@[0]
                    &&& final(self)@ == old(self)@.skip(1)
                },
            },
    {
        proof {
            use_type_invariant(&*self);
            lemma_skip_blank_lines(self.csv@, component_decoder());
        }
        let ghost text = skip_blank_lines(self.csv@);
        let mut csv = self.csv;
        match csv.next() {
            None => None,
            Some(Ok(record)) => {
                match Component::from_record(&record) {
                    Ok(component) => {
                        proof {
                            let rest = text_components(after_first_line(text))->Ok_0;
                            assert((seq![component@] + rest).skip(1) =~= rest);
                        }
                        self.csv = csv;
                        Some(component)
                    },
                    Err(_) => {
                        proof {
                            assert(false);
                        }
                        None
                    },
                }
            },
            Some(Err(_)) => {
                proof {
                    assert(false);
                }
                None
            },
        }
    }

    /// Collects the components that are left into a vector.
    pub fn collect(self) -> (v: Vec<Component<'a>>)
        ensures
            v@.len() == self@.len(),
            forall|i: int| 0 <= i < v@.len() ==> (#[trigger] v@[i])@ == self@[i],
    {
        let mut it = self;
        let mut v: Vec<Component<'a>> = Vec::new();
        loop
            invariant
                v@.len() + it@.len() == self@.len(),
                forall|i: int| 0 <= i < v@.len() ==> (#[trigger] v@[i])@ == self@[i],
                forall|i: int| 0 <= i < it@.len() ==> it@[i] == self@[v@.len() + i],
            decreases it@.len(),
        {
            let ghost before = it@;
            match it.next() {
                None => {
                    return v;
                },
                Some(component) => {
                    v.push(component);
                    assert forall|i: int| 0 <= i < it@.len() implies it@[i] == self@[v@.len()
                        + i] by {
                        assert(it@[i] == before[i + 1]);
                    }
                },
            }
        }
    }
}

/// Revocation SBAT data.
///
/// Typically this data comes from a UEFI variable such as `SbatLevel`.
/// The value borrows the text it was parsed from and decodes the
/// components again each time they are asked for.
#[derive(Clone, Copy, Debug, PartialEq, Eq, PartialOrd, Ord)]
pub struct RevocationSbat<'a> {
    csv: &'a [u8],
}

impl<'a> RevocationSbat<'a> {
    /// The validated ASCII text that the value borrows.
    pub closed spec fn csv(&self) -> Seq<u8> {
        self.csv@
    }

    /// The revoked components, in the order of their lines.
    pub open spec fn components_view(&self) -> Seq<ComponentView> {
        match text_components(self.csv()) {
            Ok(components) => components,
            Err(_) => Seq::empty(),
        }
    }

    /// The date of the revocation data, if it has one.
    pub open spec fn date_view(&self) -> Option<Seq<u8>> {
        text_date(self.csv())
    }

    #[verifier::type_invariant]
    spec fn valid(self) -> bool {
        text_components(self.csv@) is Ok
    }

    /// Parse SBAT data from raw CSV. This data typically comes from a
    /// UEFI variable or a `RevocationSection`. Each record is parsed as
    /// a `Component`.
    ///
    /// Any data past the first null in `input` is ignored. A null byte
    /// is not required to be present.
    pub fn parse(input: &'a [u8]) -> (r: Result<RevocationSbat<'a>, ParseError>)
        ensures
            match r {
                Ok(revocations) => {
                    &&& revocation_components(input@) == Ok::<Seq<ComponentView>, ParseError>(
                        revocations.components_view(),
                    )
                    &&& revocations.csv() == trim_at_null(input@)
                },
                Err(e) => revocation_components(input@) == Err::<Seq<ComponentView>, ParseError>(
                    e,
                ),
            },
    {
        let text = match trim_ascii_at_null(input) {
            Ok(text) => text,
            Err(e) => {
                return Err(e);
            },
        };
        let mut iter = CsvIter::new(text, MAX_HEADER_FIELDS);
        let ghost mut seen: Seq<ComponentView> = Seq::empty();
        assert(Seq::<ComponentView>::empty() + text_components(text@)->Ok_0 =~= text_components(
            text@,
        )->Ok_0);
        loop
            invariant
                iter.max_fields() == MAX_HEADER_FIELDS,
                text@ == trim_at_null(input@),
                is_ascii(text@),
                text_components(text@) == prepend(seen, text_components(iter@)),
            decreases iter@.len(),
        {
            proof {
                lemma_skip_blank_lines(iter@, component_decoder());
                crate::lines::lemma_index_of(skip_blank_lines(iter@), crate::lines::LINE_FEED);
            }
            let ghost rest = skip_blank_lines(iter@);
            match iter.next() {
                None => {
                    assert(seen + Seq::<ComponentView>::empty() =~= seen);
                    return Ok(RevocationSbat { csv: text });
                },
                Some(Err(e)) => {
                    return Err(e);
                },
                Some(Ok(record)) => {
                    match Component::from_record(&record) {
                        Err(e) => {
                            return Err(e);
                        },
                        Ok(component) => {
                            proof {
                                let tail = text_components(after_first_line(rest));
                                if tail is Ok {
                                    assert(seen + (seq![component@] + tail->Ok_0) =~= seen.push(
                                        component@,
                                    ) + tail->Ok_0);
                                }
                                seen = seen.push(component@);
                            }
                        },
                    }
                },
            }
        }
    }

    /// Get the underlying ASCII CSV string.
    pub fn as_csv(&self) -> (text: &'a [u8])
        ensures
            text@ == self.csv(),
            text_components(text@) is Ok,
    {
        proof {
            use_type_invariant(self);
        }
        self.csv
    }

    /// Date of the revocation data, used as a comparable version. This
    /// is optional and may not be present. Versions should be compared
    /// lexicographically.
    pub fn date(&self) -> (r: Option<&'a [u8]>)
        ensures
            match r {
                Some(date) => self.date_view() == Some(date@),
                None => self.date_view() is None,
            },
    {
        proof {
            use_type_invariant(self);
            lemma_skip_blank_lines(self.csv@, component_decoder());
        }
        let mut iter = CsvIter::new(self.csv, MAX_HEADER_FIELDS);
        match iter.next() {
            Some(Ok(record)) => record.get_field(2),
            Some(Err(_)) => {
                proof {
                    assert(false);
                }
                None
            },
            None => None,
        }
    }

    /// Get an iterator over the revoked components.
    pub fn revoked_components(&self) -> (it: RevokedComponents<'a>)
        ensures
            it@ == self.components_view(),
    {
        proof {
            use_type_invariant(self);
        }
        RevokedComponents { csv: CsvIter::new(self.csv, MAX_HEADER_FIELDS) }
    }

    /// Check if the `input` component is revoked.
    ///
    /// The `input` is checked against each revocation component. If the
    /// names match, and if the `input`'s generation is less than the
    /// generation in the corresponding revocation component, the
    /// `input` is considered revoked and the image will not pass
    /// validation. If the `input` is not in the revocation list then it
    /// is implicitly allowed.
    pub fn is_component_revoked(&self, input: &Component) -> (revoked: bool)
        ensures
            revoked == component_revoked(self.components_view(), input@),
    {
        let ghost list = self.components_view();
        let ghost mut seen: int = 0;
        let mut it = self.revoked_components();
        assert(list.skip(0) =~= list);
        loop
            invariant
                0 <= seen <= list.len(),
                list == self.components_view(),
                it@ == list.skip(seen),
                forall|j: int| 0 <= j < seen ==> !revokes(#[trigger] list[j], input@),
            decreases it@.len(),
        {
            match it.next() {
                None => {
                    return false;
                },
                Some(revoked_component) => {
                    assert(revoked_component@ == list[seen]);
                    if same_bytes(input.name, revoked_component.name) && input.generation
                        < revoked_component.generation {
                        assert(revokes(list[seen], input@));
                        return true;
                    }
                    proof {
                        assert(list.skip(seen).skip(1) =~= list.skip(seen + 1));
                        seen = seen + 1;
                    }
                },
            }
        }
    }

    /// Check if any component in `image_sbat` is revoked.
    ///
    /// Each component in the image metadata is checked against the
    /// revocation entries, in the order of the image's entries. The
    /// first entry whose component is revoked is reported. If a
    /// component is not in the revocation list then it is implicitly
    /// allowed. The date of the revocation list plays no part.
    pub fn validate_image<'i>(&self, image_sbat: &ImageSbat<'i>) -> (r: ValidationResult<'i>)
        ensures
            match r {
                ValidationResult::Allowed => none_revoked(
                    self.components_view(),
                    image_sbat.entries_view(),
                ),
                ValidationResult::Revoked(entry) => exists|i: int|
                    first_revoked_at(self.components_view(), image_sbat.entries_view(), i)
                        && entry@ == #[trigger] image_sbat.entries_view()[i],
            },
    {
        let ghost list = self.components_view();
        let ghost entries = image_sbat.entries_view();
        let ghost mut seen: int = 0;
        let mut it = image_sbat.entries();
        assert(entries.skip(0) =~= entries);
        loop
            invariant
                0 <= seen <= entries.len(),
                list == self.components_view(),
                entries == image_sbat.entries_view(),
                it@ == entries.skip(seen),
                forall|j: int|
                    0 <= j < seen ==> !component_revoked(list, (#[trigger] entries[j]).component),
            decreases it@.len(),
        {
            match it.next() {
                None => {
                    return ValidationResult::Allowed;
                },
                Some(entry) => {
                    assert(entry@ == entries[seen]);
                    if self.is_component_revoked(&entry.component) {
                        assert(first_revoked_at(list, entries, seen));
                        return ValidationResult::Revoked(entry);
                    }
                    proof {
                        assert(entries.skip(seen).skip(1) =~= entries.skip(seen + 1));
                        seen = seen + 1;
                    }
                },
            }
        }
    }
}

} // verus!
