//! Simple CSV parser.
//!
//! This parser is restricted in various ways because it is only used
//! for SBAT data, which allows the implementation to be much simpler:
//!
//! * Only ASCII bytes are allowed.
//!
//! * No quoting or escaping is allowed; besides alphanumeric bytes only
//!   a fixed set of punctuation bytes may stand in a field.
//!
//! * A record keeps a bounded number of fields. Fields beyond the bound
//!   are dropped: SBAT treats all but the first fields of a line as
//!   human-readable comments.

use crate::error::ParseError;
use crate::generation::{generation_of, Generation};
use crate::lines::{
    after_first_line, find_byte, first_line, index_of, lemma_index_of, lemma_index_of_is, LineIter,
};
use arrayvec::ArrayVec;
use vstd::prelude::*;
use vstd::slice::slice_subrange;

verus! {

/// The byte that separates the fields of a record.
pub const COMMA: u8 = 0x2c;

/// The largest number of fields that a record can hold.
pub const RECORD_CAPACITY: usize = 6;

/// Whether every byte of `s` is a 7-bit ASCII value.
pub open spec fn is_ascii(s: Seq<u8>) -> bool {
    forall|i: int| 0 <= i < s.len() ==> s[i] < 0x80
}

/// Whether `b` is an ASCII letter or digit.
pub open spec fn is_alphanumeric(b: u8) -> bool {
    ||| 0x30 <= b <= 0x39
    ||| 0x41 <= b <= 0x5a
    ||| 0x61 <= b <= 0x7a
}

/// The punctuation bytes that may stand in a field, besides letters and
/// digits: `' * @ ] [ ^ : } { $ . ! > # < - ) ( + ? ; /`, the space,
/// `~` and `_`.
pub const ALLOWED_SPECIAL_CHARS: [u8; 25] = [
    0x27,
    0x2a,
    0x40,
    0x5d,
    0x5b,
    0x5e,
    0x3a,
    0x7d,
    0x7b,
    0x24,
    0x2e,
    0x21,
    0x3e,
    0x23,
    0x3c,
    0x2d,
    0x29,
    0x28,
    0x2b,
    0x3f,
    0x3b,
    0x2f,
    0x20,
    0x7e,
    0x5f,
];

/// Whether `b` is one of `ALLOWED_SPECIAL_CHARS`.
pub open spec fn is_allowed_special(b: u8) -> bool {
    exists|i: int| 0 <= i < 25 && ALLOWED_SPECIAL_CHARS@[i] == b
}

/// Whether `b` may stand in a field.
pub open spec fn char_allowed(b: u8) -> bool {
    is_alphanumeric(b) || is_allowed_special(b)
}

/// Whether `b` may stand in a line: a byte of a field, or the comma
/// between two fields.
pub open spec fn line_byte_allowed(b: u8) -> bool {
    b == COMMA || char_allowed(b)
}

/// Tells whether `chr` may stand in a field.
pub fn is_char_allowed_in_field(chr: u8) -> (ok: bool)
    ensures
        ok == char_allowed(chr),
{
    if (0x30 <= chr && chr <= 0x39) || (0x41 <= chr && chr <= 0x5a) || (0x61 <= chr && chr
        <= 0x7a) {
        return true;
    }
    let mut i: usize = 0;
    while i < 25
        invariant
            i <= 25,
            !is_alphanumeric(chr),
            forall|j: int| 0 <= j < i ==> ALLOWED_SPECIAL_CHARS@[j] != chr,
        decreases 25 - i,
    {
        if ALLOWED_SPECIAL_CHARS[i] == chr {
            return true;
        }
        i += 1;
    }
    false
}

/// `s` up to, and without, its first null byte; all of `s` if it holds
/// none.
pub open spec fn trim_at_null(s: Seq<u8>) -> Seq<u8> {
    s.take(index_of(s, 0))
}

/// Take raw bytes and check that they are ASCII, stopping at the first
/// null byte. If no null byte is present, the entire input is checked
/// and returned.
pub fn trim_ascii_at_null(input: &[u8]) -> (r: Result<&[u8], ParseError>)
    ensures
        match r {
            Ok(text) => is_ascii(trim_at_null(input@)) && text@ == trim_at_null(input@),
            Err(e) => !is_ascii(trim_at_null(input@)) && e == ParseError::InvalidAscii,
        },
{
    let end = find_byte(input, 0);
    let text = slice_subrange(input, 0, end);
    assert(text@ =~= trim_at_null(input@));
    let mut i: usize = 0;
    while i < end
        invariant
            i <= end,
            end == text@.len(),
            text@ == trim_at_null(input@),
            forall|j: int| 0 <= j < i ==> text@[j] < 0x80,
        decreases end - i,
    {
        if text[i] >= 0x80 {
            assert(!(trim_at_null(input@)[i as int] < 0x80));
            return Err(ParseError::InvalidAscii);
        }
        i += 1;
    }
    Ok(text)
}

/// The fields of `line`: the pieces between its commas, in order. A
/// line without a comma is one field; two commas in a row enclose an
/// empty field.
pub open spec fn split_fields(line: Seq<u8>) -> Seq<Seq<u8>>
    decreases line.len(),
    via split_fields_terminates
{
    let end = index_of(line, COMMA);
    if end < line.len() {
        seq![line.take(end)] + split_fields(line.skip(end + 1))
    } else {
        seq![line]
    }
}

#[via_fn]
proof fn split_fields_terminates(line: Seq<u8>) {
    lemma_index_of(line, COMMA);
}

/// The index of the first byte of `line` that may not stand in a line,
/// or `line.len()` if there is none.
pub open spec fn first_special_index(line: Seq<u8>) -> int
    decreases line.len(),
{
    if line.len() == 0 {
        0
    } else if !line_byte_allowed(line[0]) {
        0
    } else {
        1 + first_special_index(line.drop_first())
    }
}

/// `first_special_index` is the one position before which every byte
/// may stand in a line and at which a byte may not, or the line ends.
pub proof fn lemma_first_special_index(line: Seq<u8>)
    ensures
        0 <= first_special_index(line) <= line.len(),
        forall|j: int| 0 <= j < first_special_index(line) ==> line_byte_allowed(line[j]),
        first_special_index(line) < line.len() ==> !line_byte_allowed(
            line[first_special_index(line)],
        ),
    decreases line.len(),
{
    if line.len() != 0 && line_byte_allowed(line[0]) {
        let t = line.drop_first();
        lemma_first_special_index(t);
        assert forall|j: int| 0 <= j < first_special_index(line) implies line_byte_allowed(
            line[j],
        ) by {
            if j > 0 {
                assert(t[j - 1] == line[j]);
            }
        }
        assert(first_special_index(line) < line.len() ==> line[first_special_index(line)]
            == t[first_special_index(t)]);
    }
}

/// A position with the two properties of `lemma_first_special_index` is
/// `first_special_index`.
pub proof fn lemma_first_special_index_is(line: Seq<u8>, i: int)
    requires
        0 <= i <= line.len(),
        forall|j: int| 0 <= j < i ==> line_byte_allowed(line[j]),
        i < line.len() ==> !line_byte_allowed(line[i]),
    ensures
        first_special_index(line) == i,
{
    lemma_first_special_index(line);
    let k = first_special_index(line);
    if k < i {
        assert(line_byte_allowed(line[k]));
    } else if i < k {
        assert(line_byte_allowed(line[i]));
    }
}

/// The first byte of `line` that may not stand in it, if any.
pub open spec fn first_special(line: Seq<u8>) -> Option<u8> {
    let i = first_special_index(line);
    if i < line.len() {
        Some(line[i])
    } else {
        None
    }
}

/// The first `limit` of `fields`, or all of them if there are fewer.
pub open spec fn keep_fields(fields: Seq<Seq<u8>>, limit: nat) -> Seq<Seq<u8>> {
    if fields.len() <= limit {
        fields
    } else {
        fields.take(limit as int)
    }
}

/// The record that a non-blank `line` decodes to: its first
/// `max_fields` fields, or all of them if there are fewer; or the first
/// byte that may not stand in it.
pub open spec fn line_record(line: Seq<u8>, max_fields: usize) -> Result<Seq<Seq<u8>>, ParseError> {
    match first_special(line) {
        Some(c) => Err(ParseError::SpecialChar(c)),
        None => Ok(keep_fields(split_fields(line), max_fields as nat)),
    }
}

/// `line_record` as a function of the line alone.
pub open spec fn record_decoder(max_fields: usize) -> spec_fn(Seq<u8>) -> Result<
    Seq<Seq<u8>>,
    ParseError,
> {
    |line: Seq<u8>| line_record(line, max_fields)
}

/// `items` in front of what the rest of a parse gives; the error of the
/// rest if it gives one.
pub open spec fn prepend<T>(items: Seq<T>, rest: Result<Seq<T>, ParseError>) -> Result<
    Seq<T>,
    ParseError,
> {
    match rest {
        Ok(more) => Ok(items + more),
        Err(e) => Err(e),
    }
}

/// What decoding the text `s` line by line gives, where `decode` says
/// what one non-blank line gives: the items of all non-blank lines in
/// order, or the error of the first line that has one. Lines after
/// that line are not looked at.
pub open spec fn parse_text<T>(
    s: Seq<u8>,
    decode: spec_fn(Seq<u8>) -> Result<T, ParseError>,
) -> Result<Seq<T>, ParseError>
    decreases s.len(),
    via parse_text_terminates::<T>
{
    if s.len() == 0 {
        Ok(Seq::empty())
    } else if first_line(s).len() == 0 {
        parse_text(after_first_line(s), decode)
    } else {
        match decode(first_line(s)) {
            Err(e) => Err(e),
            Ok(item) => prepend(seq![item], parse_text(after_first_line(s), decode)),
        }
    }
}

#[via_fn]
proof fn parse_text_terminates<T>(s: Seq<u8>, decode: spec_fn(Seq<u8>) -> Result<T, ParseError>) {
    lemma_index_of(s, crate::lines::LINE_FEED);
}

/// `s` without the blank lines that it starts with.
pub open spec fn skip_blank_lines(s: Seq<u8>) -> Seq<u8>
    decreases s.len(),
    via skip_blank_lines_terminates
{
    if s.len() == 0 {
        s
    } else if first_line(s).len() == 0 {
        skip_blank_lines(after_first_line(s))
    } else {
        s
    }
}

#[via_fn]
proof fn skip_blank_lines_terminates(s: Seq<u8>) {
    lemma_index_of(s, crate::lines::LINE_FEED);
}

/// Blank lines at the start of a text change nothing in what it decodes
/// to, and what is left after them is empty or starts with a non-blank
/// line.
pub proof fn lemma_skip_blank_lines<T>(
    s: Seq<u8>,
    decode: spec_fn(Seq<u8>) -> Result<T, ParseError>,
)
    ensures
        parse_text(s, decode) == parse_text(skip_blank_lines(s), decode),
        skip_blank_lines(s).len() > 0 ==> first_line(skip_blank_lines(s)).len() > 0,
        skip_blank_lines(s).len() <= s.len(),
    decreases s.len(),
{
    if s.len() != 0 && first_line(s).len() == 0 {
        lemma_index_of(s, crate::lines::LINE_FEED);
        lemma_skip_blank_lines(after_first_line(s), decode);
    }
}

/// The backslash, which would escape a byte in other CSV dialects.
pub const BACKSLASH: u8 = 0x5c;

/// The double quote, which would quote a field in other CSV dialects.
pub const QUOTATION: u8 = 0x22;

/// A backslash or a double quote anywhere in a text makes the whole
/// parse fail, whatever the lines before it hold, as long as `decode`
/// rejects every line that holds a byte which may not stand in it.
pub proof fn lemma_special_char_fails<T>(
    text: Seq<u8>,
    decode: spec_fn(Seq<u8>) -> Result<T, ParseError>,
    at: int,
)
    requires
        0 <= at < text.len(),
        text[at] == BACKSLASH || text[at] == QUOTATION,
        forall|line: Seq<u8>| first_special(line) is Some ==> #[trigger] decode(line) is Err,
    ensures
        parse_text(text, decode) is Err,
    decreases text.len(),
{
    lemma_index_of(text, crate::lines::LINE_FEED);
    let end = index_of(text, crate::lines::LINE_FEED);
    let line = first_line(text);
    if at < end {
        if end < text.len() {
            let whole = text.take(end);
            assert(whole[at] == text[at]);
            assert(line.len() > at);
            assert(line[at] == text[at]);
        }
        lemma_first_special_index(line);
        assert(!line_byte_allowed(line[at]));
        assert(first_special(line) is Some);
        assert(decode(line) is Err);
    } else {
        let rest = after_first_line(text);
        assert(rest[at - end - 1] == text[at]);
        lemma_special_char_fails(rest, decode, at - end - 1);
    }
}

/// A backslash or a double quote anywhere in a text makes decoding it
/// into records fail with `SpecialChar`: no record is handed out as
/// the result, not even those of the lines before.
pub proof fn lemma_special_char_rejected(text: Seq<u8>, max_fields: usize, at: int)
    requires
        0 <= at < text.len(),
        text[at] == BACKSLASH || text[at] == QUOTATION,
    ensures
        parse_text(text, record_decoder(max_fields)) matches Err(e) && e is SpecialChar,
    decreases text.len(),
{
    lemma_special_char_fails(text, record_decoder(max_fields), at);
    lemma_record_errors(text, max_fields);
}

/// Decoding text into records fails with `SpecialChar` or not at all.
pub proof fn lemma_record_errors(text: Seq<u8>, max_fields: usize)
    ensures
        parse_text(text, record_decoder(max_fields)) matches Err(e) ==> e is SpecialChar,
    decreases text.len(),
{
    if text.len() != 0 {
        lemma_index_of(text, crate::lines::LINE_FEED);
        lemma_record_errors(after_first_line(text), max_fields);
    }
}

/// The room that is left after one more element is stored.
pub open spec fn room_after_one(room: Option<nat>) -> Option<nat> {
    match room {
        Some(n) => Some((n - 1) as nat),
        None => None,
    }
}

/// What decoding the text `s` line by line into storage with room for
/// `room` items gives (`None`: as many as there are). It is what
/// `parse_text` gives, except that a line which decodes to an item for
/// which no room is left ends the parse with `TooManyRecords`. A line
/// is decoded before room is looked for, so an invalid line reports its
/// own error even when the storage is full.
pub open spec fn parse_text_bounded<T>(
    s: Seq<u8>,
    decode: spec_fn(Seq<u8>) -> Result<T, ParseError>,
    room: Option<nat>,
) -> Result<Seq<T>, ParseError>
    decreases s.len(),
    via parse_text_bounded_terminates::<T>
{
    if s.len() == 0 {
        Ok(Seq::empty())
    } else if first_line(s).len() == 0 {
        parse_text_bounded(after_first_line(s), decode, room)
    } else {
        match decode(first_line(s)) {
            Err(e) => Err(e),
            Ok(item) => if room == Some(0nat) {
                Err(ParseError::TooManyRecords)
            } else {
                prepend(
                    seq![item],
                    parse_text_bounded(after_first_line(s), decode, room_after_one(room)),
                )
            },
        }
    }
}

#[via_fn]
proof fn parse_text_bounded_terminates<T>(
    s: Seq<u8>,
    decode: spec_fn(Seq<u8>) -> Result<T, ParseError>,
    room: Option<nat>,
) {
    lemma_index_of(s, crate::lines::LINE_FEED);
}

/// Blank lines at the start of a text change nothing in what it decodes
/// to, whatever the room.
pub proof fn lemma_skip_blank_lines_bounded<T>(
    s: Seq<u8>,
    decode: spec_fn(Seq<u8>) -> Result<T, ParseError>,
    room: Option<nat>,
)
    ensures
        parse_text_bounded(s, decode, room) == parse_text_bounded(
            skip_blank_lines(s),
            decode,
            room,
        ),
    decreases s.len(),
{
    if s.len() != 0 && first_line(s).len() == 0 {
        lemma_index_of(s, crate::lines::LINE_FEED);
        lemma_skip_blank_lines_bounded(after_first_line(s), decode, room);
    }
}

/// Storage that grows as needed takes whatever the text decodes to.
pub proof fn lemma_unbounded_storage<T>(
    s: Seq<u8>,
    decode: spec_fn(Seq<u8>) -> Result<T, ParseError>,
)
    ensures
        parse_text_bounded(s, decode, None) == parse_text(s, decode),
    decreases s.len(),
{
    if s.len() != 0 {
        lemma_index_of(s, crate::lines::LINE_FEED);
        lemma_unbounded_storage(after_first_line(s), decode);
    }
}

/// Storage of a fixed size takes what the text decodes to if that fits,
/// and fails with `TooManyRecords` if the text is valid but holds more
/// records than there is room for. An invalid text fails either way;
/// with its own error if the storage is large enough to reach it.
pub proof fn lemma_bounded_storage<T>(
    s: Seq<u8>,
    decode: spec_fn(Seq<u8>) -> Result<T, ParseError>,
    room: nat,
)
    ensures
        match parse_text(s, decode) {
            Ok(items) => if items.len() <= room {
                parse_text_bounded(s, decode, Some(room)) == Ok::<Seq<T>, ParseError>(items)
            } else {
                parse_text_bounded(s, decode, Some(room)) == Err::<Seq<T>, ParseError>(
                    ParseError::TooManyRecords,
                )
            },
            Err(e) => parse_text_bounded(s, decode, Some(room)) == Err::<Seq<T>, ParseError>(e)
                || parse_text_bounded(s, decode, Some(room)) == Err::<Seq<T>, ParseError>(
                ParseError::TooManyRecords,
            ),
        },
    decreases s.len(),
{
    if s.len() != 0 {
        lemma_index_of(s, crate::lines::LINE_FEED);
        if first_line(s).len() == 0 {
            lemma_bounded_storage(after_first_line(s), decode, room);
        } else if decode(first_line(s)) is Ok && room > 0 {
            lemma_bounded_storage(after_first_line(s), decode, (room - 1) as nat);
        }
    }
}

/// `arrayvec::ArrayVec`, the fixed-capacity vector that holds the fields
/// of a record. Its contents are known only through `record_fields`.
#[verifier::external_type_specification]
#[verifier::external_body]
#[verifier::reject_recursive_types(T)]
pub struct ExArrayVec<T, const CAP: usize>(ArrayVec<T, CAP>);

/// The contents of a vector of fields: the bytes of each field it
/// holds, in the order in which they were pushed.
pub uninterp spec fn record_fields(v: ArrayVec<&[u8], 6>) -> Seq<Seq<u8>>;

/// `ArrayVec::new`: a vector that holds nothing. It panics only for a
/// capacity above `u32::MAX`, which 6 is not.
#[verifier::external_body]
fn fields_new<'a>() -> (v: ArrayVec<&'a [u8], 6>)
    ensures
        record_fields(v) == Seq::<Seq<u8>>::empty(),
{
    ArrayVec::new()
}

/// `ArrayVec::try_push`: appends the item if fewer than 6 are held and
/// says so; otherwise it leaves the vector as it is.
#[verifier::external_body]
fn fields_try_push<'a>(v: &mut ArrayVec<&'a [u8], 6>, field: &'a [u8]) -> (pushed: bool)
    ensures
        pushed == (record_fields(*old(v)).len() < 6),
        pushed ==> record_fields(*final(v)) == record_fields(*old(v)).push(field@),
        !pushed ==> record_fields(*final(v)) == record_fields(*old(v)),
{
    v.try_push(field).is_ok()
}

/// `ArrayVec::as_slice`: the items held, in order, as a slice.
#[verifier::external_body]
fn fields_as_slice<'a, 'b>(v: &'b ArrayVec<&'a [u8], 6>) -> (s: &'b [&'a [u8]])
    ensures
        s@.len() == record_fields(*v).len(),
        forall|i: int| 0 <= i < s@.len() ==> (#[trigger] s@[i])@ == record_fields(*v)[i],
{
    v.as_slice()
}

/// CSV record. This represents a line of comma-separated fields, of
/// which it keeps the first few.
pub struct Record<'a> {
    fields: ArrayVec<&'a [u8], 6>,
    max_fields: usize,
}

impl<'a> View for Record<'a> {
    type V = Seq<Seq<u8>>;

    /// The fields that the record holds.
    closed spec fn view(&self) -> Seq<Seq<u8>> {
        record_fields(self.fields)
    }
}

impl<'a> Record<'a> {
    /// The number of fields that the record was asked to keep.
    pub closed spec fn max_fields(&self) -> usize {
        self.max_fields
    }

    /// Creates a record without fields that keeps up to `max_fields` of
    /// them. A record has room for `RECORD_CAPACITY` fields, so no more
    /// can be asked for.
    pub fn new(max_fields: usize) -> (r: Self)
        requires
            max_fields <= RECORD_CAPACITY,
        ensures
            r@ == Seq::<Seq<u8>>::empty(),
            r.max_fields() == max_fields,
    {
        Record { fields: fields_new(), max_fields }
    }

    /// The number of fields that the record holds.
    pub fn len(&self) -> (n: usize)
        ensures
            n == self@.len(),
    {
        fields_as_slice(&self.fields).len()
    }

    /// The field at `index`, if the record holds that many.
    pub fn get_field(&self, index: usize) -> (r: Option<&'a [u8]>)
        ensures
            match r {
                Some(field) => index < self@.len() && field@ == self@[index as int],
                None => index >= self@.len(),
            },
    {
        let fields = fields_as_slice(&self.fields);
        if index < fields.len() {
            Some(fields[index])
        } else {
            None
        }
    }

    /// Get the contents of the record's field at `index` as a
    /// `Generation`.
    pub fn get_field_as_generation(&self, index: usize) -> (r: Result<
        Option<Generation>,
        ParseError,
    >)
        ensures
            match r {
                Ok(None) => index >= self@.len(),
                Ok(Some(g)) => index < self@.len() && generation_of(self@[index as int]) == Some(
                    g@,
                ),
                Err(e) => index < self@.len() && generation_of(self@[index as int]) is None && e
                    == ParseError::InvalidGeneration,
            },
    {
        match self.get_field(index) {
            Some(ascii) => match Generation::from_ascii(ascii) {
                Ok(g) => Ok(Some(g)),
                Err(e) => Err(e),
            },
            None => Ok(None),
        }
    }

    /// Add a field to the record if possible. If there is no more room,
    /// the field is dropped: SBAT only really cares about the first two
    /// fields of a record, the others act as human-readable comments.
    pub fn add_field(&mut self, field: &'a [u8])
        requires
            old(self).max_fields() <= RECORD_CAPACITY,
        ensures
            final(self).max_fields() == old(self).max_fields(),
            final(self)@ == if old(self)@.len() < old(self).max_fields() {
                old(self)@.push(field@)
            } else {
                old(self)@
            },
    {
        if fields_as_slice(&self.fields).len() < self.max_fields {
            let _ = fields_try_push(&mut self.fields, field);
        }
    }
}

/// Splitting a line at its first comma: the field before it, then the
/// fields of what follows it.
proof fn lemma_split_fields_at(line: Seq<u8>, start: int, i: int)
    requires
        0 <= start <= i <= line.len(),
        forall|j: int| start <= j < i ==> line[j] != COMMA,
        i < line.len() ==> line[i] == COMMA,
    ensures
        split_fields(line.skip(start)) == if i < line.len() {
            seq![line.subrange(start, i)] + split_fields(line.skip(i + 1))
        } else {
            seq![line.skip(start)]
        },
{
    let rest = line.skip(start);
    lemma_index_of_is(rest, COMMA, i - start);
    if i < line.len() {
        assert(rest.take(i - start) =~= line.subrange(start, i));
        assert(rest.skip(i - start + 1) =~= line.skip(i + 1));
    }
}

/// Decodes one non-blank line into a record that keeps up to
/// `max_fields` fields. A record has room for `RECORD_CAPACITY` fields,
/// so no more can be asked for.
pub fn decode_line<'a>(line: &'a [u8], max_fields: usize) -> (r: Result<Record<'a>, ParseError>)
    requires
        max_fields <= RECORD_CAPACITY,
    ensures
        match r {
            Ok(record) => line_record(line@, max_fields) == Ok::<Seq<Seq<u8>>, ParseError>(
                record@,
            ) && record.max_fields() == max_fields,
            Err(e) => line_record(line@, max_fields) == Err::<Seq<Seq<u8>>, ParseError>(e),
        },
{
    let mut record = Record::new(max_fields);
    let ghost mut done: Seq<Seq<u8>> = Seq::empty();
    let mut start: usize = 0;
    let mut i: usize = 0;
    assert(line@.skip(0) =~= line@);
    while i < line.len()
        invariant
            start <= i <= line.len(),
            forall|j: int| 0 <= j < i ==> line_byte_allowed(line@[j]),
            forall|j: int| start <= j < i ==> line@[j] != COMMA,
            split_fields(line@) == done + split_fields(line@.skip(start as int)),
            max_fields <= RECORD_CAPACITY,
            record@ == keep_fields(done, max_fields as nat),
            record.max_fields() == max_fields,
        decreases line.len() - i,
    {
        let b = line[i];
        if b == COMMA {
            let field = slice_subrange(line, start, i);
            proof {
                lemma_split_fields_at(line@, start as int, i as int);
                assert(done + (seq![field@] + split_fields(line@.skip(i + 1))) =~= done.push(
                    field@,
                ) + split_fields(line@.skip(i + 1)));
                assert(keep_fields(done.push(field@), max_fields as nat) =~= if record@.len()
                    < max_fields {
                    record@.push(field@)
                } else {
                    record@
                });
                done = done.push(field@);
            }
            record.add_field(field);
            start = i + 1;
        } else if !is_char_allowed_in_field(b) {
            proof {
                lemma_first_special_index_is(line@, i as int);
            }
            return Err(ParseError::SpecialChar(b));
        }
        i += 1;
    }
    let field = slice_subrange(line, start, line.len());
    proof {
        lemma_split_fields_at(line@, start as int, i as int);
        lemma_first_special_index_is(line@, i as int);
        assert(field@ =~= line@.skip(start as int));
        assert(done + seq![field@] =~= done.push(field@));
        assert(keep_fields(done.push(field@), max_fields as nat) =~= if record@.len()
            < max_fields {
            record@.push(field@)
        } else {
            record@
        });
    }
    record.add_field(field);
    Ok(record)
}

/// CSV iterator.
///
/// This iterator parses ASCII text into records, one for each line that
/// is not blank. Each record keeps a bounded number of fields.
#[derive(Clone, Copy, Debug)]
pub struct CsvIter<'a> {
    line_iter: Option<LineIter<'a>>,
    max_fields: usize,
}

impl<'a> View for CsvIter<'a> {
    type V = Seq<u8>;

    /// The text that has not been decoded yet; empty once a line was
    /// found invalid.
    closed spec fn view(&self) -> Seq<u8> {
        match self.line_iter {
            Some(it) => it@,
            None => Seq::empty(),
        }
    }
}

impl<'a> CsvIter<'a> {
    /// The number of fields that each record is asked to keep.
    pub closed spec fn max_fields(&self) -> usize {
        self.max_fields
    }

    #[verifier::type_invariant]
    spec fn within_capacity(self) -> bool {
        self.max_fields <= RECORD_CAPACITY
    }

    /// Create a new CSV iterator over `input`, whose records keep up to
    /// `max_fields` fields. A record has room for `RECORD_CAPACITY`
    /// fields, so no more can be asked for.
    pub fn new(input: &'a [u8], max_fields: usize) -> (it: Self)
        requires
            max_fields <= RECORD_CAPACITY,
        ensures
            it@ == input@,
            it.max_fields() == max_fields,
    {
        CsvIter { line_iter: Some(LineIter::new(input)), max_fields }
    }

    /// Create a new CSV iterator over `input`, whose records keep up to
    /// `max_fields` fields, if a record has room for that many.
    pub fn try_new(input: &'a [u8], max_fields: usize) -> (r: Option<Self>)
        ensures
            match r {
                Some(it) => max_fields <= RECORD_CAPACITY && it@ == input@ && it.max_fields()
                    == max_fields,
                None => max_fields > RECORD_CAPACITY,
            },
    {
        if max_fields <= RECORD_CAPACITY {
            Some(CsvIter::new(input, max_fields))
        } else {
            None
        }
    }

    /// Decodes the next line that is not blank. Returns `None` when no
    /// such line is left. After an error nothing more is handed out.
    pub fn next(&mut self) -> (r: Option<Result<Record<'a>, ParseError>>)
        ensures
            final(self).max_fields() == old(self).max_fields(),
            ({
                let text = skip_blank_lines(old(self)@);
                match r {
                    None => text.len() == 0 && final(self)@.len() == 0,
                    Some(Ok(record)) => {
                        &&& text.len() > 0
                        &&& line_record(first_line(text), old(self).max_fields()) == Ok::<
                            Seq<Seq<u8>>,
                            ParseError,
                        >(record@)
                        &&& record.max_fields() == old(self).max_fields()
                        &&& final(self)@ == after_first_line(text)
                    },
                    Some(Err(e)) => {
                        &&& text.len() > 0
                        &&& line_record(first_line(text), old(self).max_fields()) == Err::<
                            Seq<Seq<u8>>,
                            ParseError,
                        >(e)
                        &&& final(self)@.len() == 0
                    },
                }
            }),
    {
        proof {
            use_type_invariant(&*self);
        }
        let max_fields = self.max_fields;
        let mut line_iter = match self.line_iter {
            Some(it) => it,
            None => {
                return None;
            },
        };
        self.line_iter = None;
        loop
            invariant
                max_fields <= RECORD_CAPACITY,
                skip_blank_lines(line_iter@) == skip_blank_lines(old(self)@),
                self.line_iter is None,
                self.max_fields == max_fields,
                max_fields == old(self).max_fields(),
            decreases line_iter@.len(),
        {
            proof {
                lemma_index_of(line_iter@, crate::lines::LINE_FEED);
            }
            match line_iter.next() {
                None => {
                    return None;
                },
                Some(line) => {
                    if line.len() != 0 {
                        return match decode_line(line, max_fields) {
                            Ok(record) => {
                                self.line_iter = Some(line_iter);
                                Some(Ok(record))
                            },
                            Err(e) => Some(Err(e)),
                        };
                    }
                },
            }
        }
    }
}

} // verus!
