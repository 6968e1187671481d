//! Image metadata that is stored as it is parsed.
//!
//! `Metadata` decodes the same text as `ImageSbat`, but keeps the
//! entries in storage that the caller provides: of a fixed size, or
//! growing as needed.

use crate::csv::{
    is_ascii, lemma_bounded_storage, lemma_skip_blank_lines, lemma_skip_blank_lines_bounded,
    lemma_unbounded_storage, parse_text_bounded, prepend, room_after_one,
    skip_blank_lines, trim_ascii_at_null, trim_at_null, CsvIter,
};
use crate::error::ParseError;
use crate::image::{entry_decoder, image_entries, Entry, EntryView, NUM_ENTRY_FIELDS};
use crate::lines::after_first_line;
use crate::vec::{within_limit, Veclike};
use core::marker::PhantomData;
use vstd::prelude::*;

verus! {

/// What each of `entries` stands for.
pub open spec fn entry_views(entries: Seq<Entry>) -> Seq<EntryView> {
    entries.map_values(|e: Entry| e@)
}

/// The room that is left in storage with the given limit once it holds
/// `len` elements.
pub open spec fn room_left(limit: Option<nat>, len: nat) -> Option<nat> {
    match limit {
        Some(n) => Some((n - len) as nat),
        None => None,
    }
}

/// The entries that raw image metadata puts into storage with the
/// given limit: what precedes the first null byte must be ASCII, each
/// of its non-blank lines an entry, and the storage must have room for
/// all of them. The first line that fails decides the error.
pub open spec fn stored_entries(input: Seq<u8>, limit: Option<nat>) -> Result<
    Seq<EntryView>,
    ParseError,
> {
    if is_ascii(trim_at_null(input)) {
        parse_text_bounded(trim_at_null(input), entry_decoder(), limit)
    } else {
        Err(ParseError::InvalidAscii)
    }
}

/// Storage that grows as needed holds exactly the entries that the
/// metadata denotes, and fails exactly where the metadata is invalid.
pub proof fn lemma_stored_entries_unbounded(input: Seq<u8>)
    ensures
        stored_entries(input, None) == image_entries(input),
{
    lemma_unbounded_storage(trim_at_null(input), entry_decoder());
}

/// Storage with room for `room` entries holds the entries that valid
/// metadata denotes if there are no more than `room` of them, and
/// otherwise fails with `TooManyRecords`. Invalid metadata fails.
pub proof fn lemma_stored_entries_bounded(input: Seq<u8>, room: nat)
    ensures
        match image_entries(input) {
            Ok(entries) => if entries.len() <= room {
                stored_entries(input, Some(room)) == Ok::<Seq<EntryView>, ParseError>(entries)
            } else {
                stored_entries(input, Some(room)) == Err::<Seq<EntryView>, ParseError>(
                    ParseError::TooManyRecords,
                )
            },
            Err(_) => stored_entries(input, Some(room)) is Err,
        },
{
    lemma_bounded_storage(trim_at_null(input), entry_decoder(), room);
}

/// Parse SBAT metadata from raw CSV into `storage`, one `Entry` for each
/// record.
///
/// Any existing data is cleared before parsing. If parsing fails,
/// nothing is left in the storage.
pub fn parse_entries_into<'a, S: Veclike<Entry<'a>>>(storage: &mut S, input: &'a [u8]) -> (r: Result<
(),
ParseError,
>)
    requires
        old(storage).wf(),
    ensures
        final(storage).wf(),
        final(storage).limit() == old(storage).limit(),
        match r {
            Ok(()) => stored_entries(input@, old(storage).limit()) == Ok::<
                Seq<EntryView>,
                ParseError,
            >(entry_views(final(storage).elems())),
            Err(e) => {
                &&& stored_entries(input@, old(storage).limit()) == Err::<
                    Seq<EntryView>,
                    ParseError,
                >(e)
                &&& final(storage).elems().len() == 0
            },
        },
{
    storage.clear();
    let ghost limit = storage.limit();
    let text = match trim_ascii_at_null(input) {
        Ok(text) => text,
        Err(e) => {
            return Err(e);
        },
    };
    let mut iter = CsvIter::new(text, NUM_ENTRY_FIELDS);
    assert(entry_views(storage.elems()) =~= Seq::<EntryView>::empty());
    assert(Seq::<EntryView>::empty() + parse_text_bounded(
        text@,
        entry_decoder(),
        limit,
    )->Ok_0 =~= parse_text_bounded(text@, entry_decoder(), limit)->Ok_0);
    loop
        invariant
            iter.max_fields() == NUM_ENTRY_FIELDS,
            text@ == trim_at_null(input@),
            is_ascii(text@),
            storage.wf(),
            storage.limit() == limit,
            limit == old(storage).limit(),
            limit matches Some(n) ==> storage.elems().len() <= n,
            parse_text_bounded(text@, entry_decoder(), limit) == prepend(
                entry_views(storage.elems()),
                parse_text_bounded(
                    iter@,
                    entry_decoder(),
                    room_left(limit, storage.elems().len()),
                ),
            ),
        decreases iter@.len(),
    {
        let ghost room = room_left(limit, storage.elems().len());
        let ghost stored = storage.elems();
        proof {
            lemma_skip_blank_lines_bounded(iter@, entry_decoder(), room);
            lemma_skip_blank_lines(iter@, entry_decoder());
            crate::lines::lemma_index_of(skip_blank_lines(iter@), crate::lines::LINE_FEED);
        }
        let ghost rest = skip_blank_lines(iter@);
        let record = match iter.next() {
            None => {
                assert(entry_views(stored) + Seq::<EntryView>::empty() =~= entry_views(stored));
                return Ok(());
            },
            Some(Err(e)) => {
                storage.clear();
                return Err(e);
            },
            Some(Ok(record)) => record,
        };
        let entry = match Entry::from_record(&record) {
            Err(e) => {
                storage.clear();
                return Err(e);
            },
            Ok(entry) => entry,
        };
        match storage.try_push(entry) {
            Err(e) => {
                storage.clear();
                return Err(e);
            },
            Ok(()) => {
                proof {
                    let tail = parse_text_bounded(
                        after_first_line(rest),
                        entry_decoder(),
                        room_after_one(room),
                    );
                    assert(entry_views(stored.push(entry)) =~= entry_views(stored).push(
                        entry@,
                    ));
                    if tail is Ok {
                        assert(entry_views(stored) + (seq![entry@] + tail->Ok_0)
                            =~= entry_views(stored).push(entry@) + tail->Ok_0);
                    }
                    assert(room_after_one(room) == room_left(limit, stored.push(entry).len()));
                }
            },
        }
    }
}

/// Image SBAT metadata.
///
/// This contains SBAT entries parsed from the `.sbat` section of a UEFI
/// PE executable.
pub struct Metadata<'a, Storage: Veclike<Entry<'a>>> {
    entries: Storage,
    /// This is needed for the otherwise-unused lifetime.
    _phantom: PhantomData<Entry<'a>>,
}

impl<'a, Storage: Veclike<Entry<'a>>> Metadata<'a, Storage> {
    /// The entries held, in the order in which they were stored.
    pub closed spec fn elems(&self) -> Seq<Entry<'a>> {
        self.entries.elems()
    }

    /// The number of entries that the storage has room for; `None` if
    /// it grows as needed.
    pub closed spec fn limit(&self) -> Option<nat> {
        self.entries.limit()
    }

    /// Whether the storage is in a consistent state.
    pub closed spec fn wf(&self) -> bool {
        self.entries.wf()
    }

    /// What the entries held stand for.
    pub open spec fn entries_view(&self) -> Seq<EntryView> {
        entry_views(self.elems())
    }

    /// Create a new `Metadata` using `entries` for storage. Existing
    /// data in `entries` is not cleared.
    pub fn new(entries: Storage) -> (m: Self)
        requires
            entries.wf(),
        ensures
            m.wf(),
            m.elems() == entries.elems(),
            m.limit() == entries.limit(),
    {
        Metadata { entries, _phantom: PhantomData }
    }

    /// Parse SBAT metadata from raw CSV. This data typically comes from
    /// the `.sbat` section of a UEFI PE executable. Each record is
    /// parsed as an `Entry`.
    ///
    /// Any existing data is cleared before parsing. If parsing fails,
    /// nothing is left in the storage.
    pub fn parse(&mut self, input: &'a [u8]) -> (r: Result<(), ParseError>)
        requires
            old(self).wf(),
        ensures
            final(self).wf(),
            final(self).limit() == old(self).limit(),
            match r {
                Ok(()) => stored_entries(input@, old(self).limit()) == Ok::<
                    Seq<EntryView>,
                    ParseError,
                >(final(self).entries_view()),
                Err(e) => {
                    &&& stored_entries(input@, old(self).limit()) == Err::<
                        Seq<EntryView>,
                        ParseError,
                    >(e)
                    &&& final(self).elems().len() == 0
                },
            },
    {
        parse_entries_into(&mut self.entries, input)
    }

    /// Get the SBAT entries.
    pub fn entries(&self) -> (s: &[Entry<'a>])
        requires
            self.wf(),
        ensures
            s@ == self.elems(),
            within_limit(self.limit(), s@.len()),
    {
        self.entries.as_slice()
    }
}

} // verus!
