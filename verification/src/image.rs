//! SBAT metadata associated with an executable.
//!
//! Typically this data is read from the `.sbat` section of a UEFI PE
//! executable.

use crate::component::{record_component, Component, ComponentView};
use crate::csv::{
    is_ascii, lemma_skip_blank_lines, lemma_special_char_fails, line_record, parse_text, prepend,
    skip_blank_lines, trim_ascii_at_null, trim_at_null, CsvIter, Record, BACKSLASH, QUOTATION,
};
use crate::error::ParseError;
use crate::lines::{after_first_line, first_line, index_of, lemma_index_of};
use vstd::prelude::*;

verus! {

/// Standard PE section name for SBAT metadata.
pub const SBAT_SECTION_NAME: &'static str = ".sbat";

/// The number of fields of a record of image metadata that are read.
pub const NUM_ENTRY_FIELDS: usize = 6;

/// What a `Vendor` stands for: the bytes of each field that is there.
pub struct VendorView {
    pub name: Option<Seq<u8>>,
    pub package_name: Option<Seq<u8>>,
    pub version: Option<Seq<u8>>,
    pub url: Option<Seq<u8>>,
}

/// What an `Entry` stands for.
pub struct EntryView {
    pub component: ComponentView,
    pub vendor: VendorView,
}

/// The bytes of an optional text.
pub open spec fn optional_text(text: Option<&[u8]>) -> Option<Seq<u8>> {
    match text {
        Some(t) => Some(t@),
        None => None,
    }
}

/// Vendor data. This is optional human-readable data that is not used
/// for SBAT comparison.
#[derive(Clone, Copy, Debug, Default, PartialEq, Eq)]
pub struct Vendor<'a> {
    /// Human-readable vendor name.
    pub name: Option<&'a [u8]>,
    /// Human-readable package name.
    pub package_name: Option<&'a [u8]>,
    /// Human-readable package version.
    pub version: Option<&'a [u8]>,
    /// Url to look stuff up, contact, etc.
    pub url: Option<&'a [u8]>,
}

impl<'a> View for Vendor<'a> {
    type V = VendorView;

    open spec fn view(&self) -> VendorView {
        VendorView {
            name: optional_text(self.name),
            package_name: optional_text(self.package_name),
            version: optional_text(self.version),
            url: optional_text(self.url),
        }
    }
}

/// Entry in image SBAT metadata. This contains a `Component`, which is
/// what gets used for revocation comparisons, as well as `Vendor` data,
/// which is extra data that serves as a human-readable comment.
#[derive(Clone, Copy, Debug, Default, PartialEq, Eq)]
pub struct Entry<'a> {
    /// Component data. This is used for SBAT comparison.
    pub component: Component<'a>,
    /// Vendor data. This is human-readable and not used for SBAT
    /// comparison.
    pub vendor: Vendor<'a>,
}

impl<'a> View for Entry<'a> {
    type V = EntryView;

    open spec fn view(&self) -> EntryView {
        EntryView { component: self.component@, vendor: self.vendor@ }
    }
}

/// The field at `index`, if there are that many.
pub open spec fn field_at(fields: Seq<Seq<u8>>, index: int) -> Option<Seq<u8>> {
    if 0 <= index < fields.len() {
        Some(fields[index])
    } else {
        None
    }
}

/// The entry that the fields of a record denote: a component from the
/// first two fields, vendor data from the four that follow, as far as
/// they are there.
pub open spec fn record_entry(fields: Seq<Seq<u8>>) -> Result<EntryView, ParseError> {
    match record_component(fields) {
        Err(e) => Err(e),
        Ok(component) => Ok(
            EntryView {
                component,
                vendor: VendorView {
                    name: field_at(fields, 2),
                    package_name: field_at(fields, 3),
                    version: field_at(fields, 4),
                    url: field_at(fields, 5),
                },
            },
        ),
    }
}

/// The entry that a non-blank line of image metadata denotes.
pub open spec fn line_entry(line: Seq<u8>) -> Result<EntryView, ParseError> {
    match line_record(line, NUM_ENTRY_FIELDS) {
        Err(e) => Err(e),
        Ok(fields) => record_entry(fields),
    }
}

/// `line_entry` as a value.
pub open spec fn entry_decoder() -> spec_fn(Seq<u8>) -> Result<EntryView, ParseError> {
    |line: Seq<u8>| line_entry(line)
}

/// The entries that ASCII text denotes, or the first error in it.
pub open spec fn text_entries(text: Seq<u8>) -> Result<Seq<EntryView>, ParseError> {
    parse_text(text, entry_decoder())
}

/// The entries that raw image metadata denotes: what precedes the
/// first null byte must be ASCII, and each of its non-blank lines an
/// entry. The first line that is none decides the error.
pub open spec fn image_entries(input: Seq<u8>) -> Result<Seq<EntryView>, ParseError> {
    if is_ascii(trim_at_null(input)) {
        text_entries(trim_at_null(input))
    } else {
        Err(ParseError::InvalidAscii)
    }
}

/// Image metadata that holds a backslash or a double quote before its
/// first null byte is rejected as a whole.
pub proof fn lemma_image_special_char_rejected(input: Seq<u8>, at: int)
    requires
        0 <= at < index_of(input, 0),
        input[at] == BACKSLASH || input[at] == QUOTATION,
    ensures
        image_entries(input) is Err,
{
    lemma_index_of(input, 0);
    let text = trim_at_null(input);
    assert(text[at] == input[at]);
    if is_ascii(text) {
        lemma_special_char_fails(text, entry_decoder(), at);
    }
}

impl<'a> Entry<'a> {
    /// Make a new `Entry`.
    pub fn new(component: Component<'a>, vendor: Vendor<'a>) -> (e: Entry<'a>)
        ensures
            e.component == component,
            e.vendor == vendor,
    {
        Entry { component, vendor }
    }

    /// Parse an `Entry` from a `Record`.
    pub fn from_record(record: &Record<'a>) -> (r: Result<Self, ParseError>)
        ensures
            match r {
                Ok(entry) => record_entry(record@) == Ok::<EntryView, ParseError>(entry@),
                Err(e) => record_entry(record@) == Err::<EntryView, ParseError>(e),
            },
    {
        match Component::from_record(record) {
            Err(e) => Err(e),
            Ok(component) => Ok(
                Entry {
                    component,
                    vendor: Vendor {
                        name: record.get_field(2),
                        package_name: record.get_field(3),
                        version: record.get_field(4),
                        url: record.get_field(5),
                    },
                },
            ),
        }
    }
}

/// Iterator over the entries of an `ImageSbat`.
///
/// See `ImageSbat::entries`.
pub struct Entries<'a> {
    csv: CsvIter<'a>,
}

impl<'a> View for Entries<'a> {
    type V = Seq<EntryView>;

    /// The entries that have not been handed out yet.
    closed spec fn view(&self) -> Seq<EntryView> {
        match text_entries(self.csv@) {
            Ok(entries) => entries,
            Err(_) => Seq::empty(),
        }
    }
}

impl<'a> Entries<'a> {
    #[verifier::type_invariant]
    spec fn valid(self) -> bool {
        text_entries(self.csv@) is Ok && self.csv.max_fields() == NUM_ENTRY_FIELDS
    }

    /// Hands out the next entry, or `None` when there is none left.
    pub fn next(&mut self) -> (r: Option<Entry<'a>>)
        ensures
            match r {
                None => old(self)@.len() == 0 && final(self)@.len() == 0,
                Some(entry) => {
                    &&& old(self)@.len() > 0
                    &&& entry@ == old(self)@[0]
                    &&& final(self)@ == old(self)@.skip(1)
                },
            },
    {
        proof {
            use_type_invariant(&*self);
            lemma_skip_blank_lines(self.csv@, entry_decoder());
        }
        let ghost text = skip_blank_lines(self.csv@);
        let mut csv = self.csv;
        match csv.next() {
            None => None,
            Some(Ok(record)) => {
                match Entry::from_record(&record) {
                    Ok(entry) => {
                        proof {
                            let rest = text_entries(after_first_line(text))->Ok_0;
                            assert((seq![entry@] + rest).skip(1) =~= rest);
                        }
                        self.csv = csv;
                        Some(entry)
                    },
                    Err(_) => {
                        proof {
                            assert(false);
                        }
                        None
                    },
                }
            },
            Some(Err(_)) => {
                proof {
                    assert(false);
                }
                None
            },
        }
    }

    /// Collects the entries that are left into a vector.
    pub fn collect(self) -> (v: Vec<Entry<'a>>)
        ensures
            v@.len() == self@.len(),
            forall|i: int| 0 <= i < v@.len() ==> (#[trigger] v@[i])@ == self@[i],
    {
        let mut it = self;
        let mut v: Vec<Entry<'a>> = Vec::new();
        loop
            invariant
                v@.len() + it@.len() == self@.len(),
                forall|i: int| 0 <= i < v@.len() ==> (#[trigger] v@[i])@ == self@[i],
                forall|i: int| 0 <= i < it@.len() ==> it@[i] == self@[v@.len() + i],
            decreases it@.len(),
        {
            let ghost before = it@;
            match it.next() {
                None => {
                    return v;
                },
                Some(entry) => {
                    v.push(entry);
                    assert forall|i: int| 0 <= i < it@.len() implies it@[i] == self@[v@.len()
                        + i] by {
                        assert(it@[i] == before[i + 1]);
                    }
                },
            }
        }
    }
}

/// Image SBAT metadata.
///
/// Typically this data comes from the `.sbat` section of a UEFI PE
/// executable. The value borrows the text it was parsed from and
/// decodes the entries again each time they are asked for.
#[derive(Clone, Copy, Debug, PartialEq, Eq, PartialOrd, Ord)]
pub struct ImageSbat<'a> {
    csv: &'a [u8],
}

impl<'a> ImageSbat<'a> {
    /// The validated ASCII text that the value borrows.
    pub closed spec fn csv(&self) -> Seq<u8> {
        self.csv@
    }

    /// The entries of the metadata, in the order of their lines.
    pub open spec fn entries_view(&self) -> Seq<EntryView> {
        match text_entries(self.csv()) {
            Ok(entries) => entries,
            Err(_) => Seq::empty(),
        }
    }

    #[verifier::type_invariant]
    spec fn valid(self) -> bool {
        text_entries(self.csv@) is Ok
    }

    /// Parse SBAT metadata from raw CSV. This data typically comes from
    /// the `.sbat` section of a UEFI PE executable. Each record is
    /// parsed as an `Entry`.
    ///
    /// Any data past the first null in `input` is ignored. A null byte
    /// is not required to be present.
    pub fn parse(input: &'a [u8]) -> (r: Result<ImageSbat<'a>, ParseError>)
        ensures
            match r {
                Ok(image) => {
                    &&& image_entries(input@) == Ok::<Seq<EntryView>, ParseError>(
                        image.entries_view(),
                    )
                    &&& image.csv() == trim_at_null(input@)
                },
                Err(e) => image_entries(input@) == Err::<Seq<EntryView>, ParseError>(e),
            },
    {
        let text = match trim_ascii_at_null(input) {
            Ok(text) => text,
            Err(e) => {
                return Err(e);
            },
        };
        let mut iter = CsvIter::new(text, NUM_ENTRY_FIELDS);
        let ghost mut seen: Seq<EntryView> = Seq::empty();
        assert(Seq::<EntryView>::empty() + text_entries(text@)->Ok_0 =~= text_entries(text@)->Ok_0);
        loop
            invariant
                iter.max_fields() == NUM_ENTRY_FIELDS,
                text@ == trim_at_null(input@),
                is_ascii(text@),
                text_entries(text@) == prepend(seen, text_entries(iter@)),
            decreases iter@.len(),
        {
            proof {
                lemma_skip_blank_lines(iter@, entry_decoder());
                crate::lines::lemma_index_of(skip_blank_lines(iter@), crate::lines::LINE_FEED);
            }
            let ghost rest = skip_blank_lines(iter@);
            match iter.next() {
                None => {
                    assert(seen + Seq::<EntryView>::empty() =~= seen);
                    return Ok(ImageSbat { csv: text });
                },
                Some(Err(e)) => {
                    return Err(e);
                },
                Some(Ok(record)) => {
                    match Component::from_record(&record) {
                        Err(e) => {
                            return Err(e);
                        },
                        Ok(_) => {
                            proof {
                                let entry = line_entry(first_line(rest))->Ok_0;
                                let tail = text_entries(after_first_line(rest));
                                if tail is Ok {
                                    assert(seen + (seq![entry] + tail->Ok_0) =~= seen.push(entry)
                                        + tail->Ok_0);
                                }
                                seen = seen.push(entry);
                            }
                        },
                    }
                },
            }
        }
    }

    /// Get the underlying ASCII CSV string.
    pub fn as_csv(&self) -> (text: &'a [u8])
        ensures
            text@ == self.csv(),
            text_entries(text@) is Ok,
    {
        proof {
            use_type_invariant(self);
        }
        self.csv
    }

    /// Get an iterator over the entries.
    pub fn entries(&self) -> (it: Entries<'a>)
        ensures
            it@ == self.entries_view(),
    {
        proof {
            use_type_invariant(self);
        }
        Entries { csv: CsvIter::new(self.csv, NUM_ENTRY_FIELDS) }
    }
}

} // verus!
