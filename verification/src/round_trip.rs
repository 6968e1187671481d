//! Writing image metadata out and parsing it again gives the same
//! entries.

use crate::csv::{
    char_allowed, first_special, is_ascii, keep_fields, lemma_first_special_index,
    lemma_first_special_index_is, line_byte_allowed, line_record, split_fields, trim_at_null,
    COMMA,
};
use crate::error::ParseError;
use crate::format::{entries_csv, entry_fields, join_fields, text_or_empty, vendor_field_count};
use crate::generation::{
    decimal_digits, is_digit, lemma_decimal_digits, lemma_generation_round_trip,
};
use crate::image::{image_entries, line_entry, record_entry, text_entries, EntryView};
use crate::lines::{
    after_first_line, first_line, index_of, lemma_index_of, lemma_index_of_is, CARRIAGE_RETURN,
    LINE_FEED,
};
use vstd::prelude::*;

verus! {

/// Whether every byte of `field` may stand in a field.
pub open spec fn clean_field(field: Seq<u8>) -> bool {
    forall|i: int| 0 <= i < field.len() ==> char_allowed(#[trigger] field[i])
}

/// Whether every one of `fields` is clean.
pub open spec fn clean_fields(fields: Seq<Seq<u8>>) -> bool {
    forall|i: int| 0 <= i < fields.len() ==> clean_field(#[trigger] fields[i])
}

/// Whether an optional text is absent or clean.
pub open spec fn clean_optional(text: Option<Seq<u8>>) -> bool {
    text matches Some(t) ==> clean_field(t)
}

/// Whether `entry` is one that parsing can give: the name is not
/// empty, the generation is positive, every text is clean, and no
/// vendor field is there without the ones before it.
pub open spec fn parsable_entry(entry: EntryView) -> bool {
    &&& entry.component.name.len() > 0
    &&& entry.component.generation >= 1
    &&& clean_field(entry.component.name)
    &&& clean_optional(entry.vendor.name)
    &&& clean_optional(entry.vendor.package_name)
    &&& clean_optional(entry.vendor.version)
    &&& clean_optional(entry.vendor.url)
    &&& entry.vendor.url is Some ==> entry.vendor.version is Some
    &&& entry.vendor.version is Some ==> entry.vendor.package_name is Some
    &&& entry.vendor.package_name is Some ==> entry.vendor.name is Some
}

/// Whether every one of `entries` is parsable.
pub open spec fn parsable_entries(entries: Seq<EntryView>) -> bool {
    forall|i: int| 0 <= i < entries.len() ==> parsable_entry(#[trigger] entries[i])
}

/// Joined fields are the first field, a comma, and the rest joined.
pub proof fn lemma_join_fields_front(fields: Seq<Seq<u8>>)
    requires
        fields.len() >= 2,
    ensures
        join_fields(fields) == fields[0] + seq![COMMA] + join_fields(fields.drop_first()),
    decreases fields.len(),
{
    let front = fields.drop_last();
    let rest = fields.drop_first();
    if fields.len() == 2 {
        assert(front =~= seq![fields[0]]);
        assert(rest =~= seq![fields[1]]);
        assert(join_fields(front) == fields[0]);
        assert(join_fields(rest) == fields[1]);
    } else {
        lemma_join_fields_front(front);
        assert(front.drop_first() =~= rest.drop_last());
        assert(rest.last() == fields.last());
        assert(front[0] == fields[0]);
        assert(join_fields(fields) =~= fields[0] + seq![COMMA] + join_fields(rest));
    }
}

/// In joined clean fields every byte may stand in a line.
pub proof fn lemma_join_fields_allowed(fields: Seq<Seq<u8>>)
    requires
        clean_fields(fields),
    ensures
        forall|i: int|
            0 <= i < join_fields(fields).len() ==> line_byte_allowed(
                #[trigger] join_fields(fields)[i],
            ),
        fields.len() >= 2 ==> join_fields(fields).len() > 0,
    decreases fields.len(),
{
    if fields.len() == 1 {
        assert(clean_field(fields[0]));
    } else if fields.len() >= 2 {
        lemma_join_fields_allowed(fields.drop_last());
        let front = join_fields(fields.drop_last());
        let joined = join_fields(fields);
        assert(clean_field(fields.last()));
        assert(clean_fields(fields.drop_last())) by {
            assert forall|i: int| 0 <= i < fields.drop_last().len() implies clean_field(
                #[trigger] fields.drop_last()[i],
            ) by {
                assert(fields.drop_last()[i] == fields[i]);
            }
        }
        assert forall|i: int| 0 <= i < joined.len() implies line_byte_allowed(
            #[trigger] joined[i],
        ) by {
            if i < front.len() {
                assert(joined[i] == front[i]);
            } else if i == front.len() {
                assert(joined[i] == COMMA);
            } else {
                assert(joined[i] == fields.last()[i - front.len() - 1]);
            }
        }
    }
}

/// Splitting joined clean fields gives the fields back.
pub proof fn lemma_split_joined_fields(fields: Seq<Seq<u8>>)
    requires
        fields.len() >= 1,
        clean_fields(fields),
    ensures
        split_fields(join_fields(fields)) == fields,
    decreases fields.len(),
{
    let first = fields[0];
    assert(clean_field(first));
    assert forall|j: int| 0 <= j < first.len() implies first[j] != COMMA by {
        assert(char_allowed(first[j]));
    }
    if fields.len() == 1 {
        lemma_index_of_is(first, COMMA, first.len() as int);
        assert(split_fields(first) =~= fields);
    } else {
        let rest = fields.drop_first();
        let joined = join_fields(fields);
        lemma_join_fields_front(fields);
        assert(clean_fields(rest)) by {
            assert forall|i: int| 0 <= i < rest.len() implies clean_field(#[trigger] rest[i]) by {
                assert(rest[i] == fields[i + 1]);
            }
        }
        lemma_split_joined_fields(rest);
        assert forall|j: int| 0 <= j < first.len() implies joined[j] != COMMA by {
            assert(joined[j] == first[j]);
        }
        assert(joined[first.len() as int] == COMMA);
        lemma_index_of_is(joined, COMMA, first.len() as int);
        assert(joined.take(first.len() as int) =~= first);
        assert(joined.skip(first.len() as int + 1) =~= join_fields(rest));
        assert(seq![first] + rest =~= fields);
    }
}

/// The digits of a number are clean.
pub proof fn lemma_digits_clean(n: nat)
    ensures
        clean_field(decimal_digits(n)),
{
    lemma_decimal_digits(n);
    let d = decimal_digits(n);
    assert forall|i: int| 0 <= i < d.len() implies char_allowed(#[trigger] d[i]) by {
        assert(is_digit(d[i]));
    }
}

/// The line that is written for a parsable entry decodes to that
/// entry. It is not blank, holds no line feed and does not end with a
/// carriage return.
pub proof fn lemma_entry_line_round_trip(entry: EntryView)
    requires
        parsable_entry(entry),
    ensures
        line_entry(join_fields(entry_fields(entry))) == Ok::<EntryView, ParseError>(entry),
        join_fields(entry_fields(entry)).len() > 0,
        forall|i: int|
            0 <= i < join_fields(entry_fields(entry)).len() ==> line_byte_allowed(
                #[trigger] join_fields(entry_fields(entry))[i],
            ),
{
    let fields = entry_fields(entry);
    let line = join_fields(fields);
    let digits = decimal_digits(entry.component.generation as nat);
    lemma_digits_clean(entry.component.generation as nat);
    lemma_generation_round_trip(entry.component.generation);
    assert(fields.len() == 2 + vendor_field_count(entry.vendor));
    assert(fields[0] == entry.component.name);
    assert(fields[1] == digits);
    assert(clean_fields(fields)) by {
        assert forall|i: int| 0 <= i < fields.len() implies clean_field(#[trigger] fields[i]) by {
            if i == 2 {
                assert(fields[i] == text_or_empty(entry.vendor.name));
            } else if i == 3 {
                assert(fields[i] == text_or_empty(entry.vendor.package_name));
            } else if i == 4 {
                assert(fields[i] == text_or_empty(entry.vendor.version));
            } else if i == 5 {
                assert(fields[i] == text_or_empty(entry.vendor.url));
            }
        }
    }
    lemma_join_fields_allowed(fields);
    lemma_split_joined_fields(fields);
    lemma_first_special_index_is(line, line.len() as int);
    assert(first_special(line) is None);
    assert(keep_fields(fields, 6) == fields);
    assert(line_record(line, 6) == Ok::<Seq<Seq<u8>>, ParseError>(fields));
    let decoded = record_entry(fields)->Ok_0;
    assert(decoded.vendor.name == entry.vendor.name);
    assert(decoded.vendor.package_name == entry.vendor.package_name);
    assert(decoded.vendor.version == entry.vendor.version);
    assert(decoded.vendor.url == entry.vendor.url);
    assert(decoded.component.name == entry.component.name);
    assert(decoded.component.generation == entry.component.generation);
}

/// A line that is followed by a line feed is read back as it is, if it
/// holds no line feed itself and does not end with a carriage return.
pub proof fn lemma_first_line_of_written(line: Seq<u8>, rest: Seq<u8>)
    requires
        forall|i: int| 0 <= i < line.len() ==> line_byte_allowed(#[trigger] line[i]),
    ensures
        first_line(line + seq![LINE_FEED] + rest) == line,
        after_first_line(line + seq![LINE_FEED] + rest) == rest,
{
    let text = line + seq![LINE_FEED] + rest;
    assert forall|j: int| 0 <= j < line.len() implies text[j] != LINE_FEED by {
        assert(text[j] == line[j]);
        assert(line_byte_allowed(line[j]));
    }
    assert(text[line.len() as int] == LINE_FEED);
    lemma_index_of_is(text, LINE_FEED, line.len() as int);
    assert(text.take(line.len() as int) =~= line);
    assert(text.skip(line.len() as int + 1) =~= rest);
    if line.len() > 0 {
        assert(line_byte_allowed(line[line.len() - 1]));
        assert(line.last() != CARRIAGE_RETURN);
    }
}

/// The text that is written for parsable entries decodes to those
/// entries.
pub proof fn lemma_written_entries_decode(entries: Seq<EntryView>)
    requires
        parsable_entries(entries),
    ensures
        text_entries(entries_csv(entries)) == Ok::<Seq<EntryView>, ParseError>(entries),
    decreases entries.len(),
{
    if entries.len() == 0 {
        assert(entries =~= Seq::<EntryView>::empty());
    } else {
        let line = join_fields(entry_fields(entries[0]));
        let rest = entries.drop_first();
        assert(parsable_entry(entries[0]));
        assert(parsable_entries(rest)) by {
            assert forall|i: int| 0 <= i < rest.len() implies parsable_entry(#[trigger] rest[i]) by {
                assert(rest[i] == entries[i + 1]);
            }
        }
        lemma_entry_line_round_trip(entries[0]);
        lemma_first_line_of_written(line, entries_csv(rest));
        lemma_written_entries_decode(rest);
        assert(seq![entries[0]] + rest =~= entries);
    }
}

/// In the text that is written for parsable entries every byte is a
/// line feed or may stand in a line.
pub proof fn lemma_written_entries_bytes(entries: Seq<EntryView>)
    requires
        parsable_entries(entries),
    ensures
        forall|i: int|
            0 <= i < entries_csv(entries).len() ==> {
                let b = #[trigger] entries_csv(entries)[i];
                b == LINE_FEED || line_byte_allowed(b)
            },
    decreases entries.len(),
{
    if entries.len() > 0 {
        let line = join_fields(entry_fields(entries[0]));
        let rest = entries.drop_first();
        let tail = entries_csv(rest);
        let text = entries_csv(entries);
        assert(parsable_entry(entries[0]));
        assert(parsable_entries(rest)) by {
            assert forall|i: int| 0 <= i < rest.len() implies parsable_entry(#[trigger] rest[i]) by {
                assert(rest[i] == entries[i + 1]);
            }
        }
        lemma_entry_line_round_trip(entries[0]);
        lemma_written_entries_bytes(rest);
        assert forall|i: int| 0 <= i < text.len() implies {
            let b = #[trigger] text[i];
            b == LINE_FEED || line_byte_allowed(b)
        } by {
            if i < line.len() {
                assert(text[i] == line[i]);
            } else if i == line.len() {
                assert(text[i] == LINE_FEED);
            } else {
                assert(text[i] == tail[i - line.len() - 1]);
            }
        }
    }
}

/// The fields of a line in which every byte may stand are clean.
pub proof fn lemma_split_fields_clean(line: Seq<u8>)
    requires
        forall|i: int| 0 <= i < line.len() ==> line_byte_allowed(#[trigger] line[i]),
    ensures
        clean_fields(split_fields(line)),
    decreases line.len(),
{
    lemma_index_of(line, COMMA);
    let end = index_of(line, COMMA);
    if end < line.len() {
        let first = line.take(end);
        let rest = line.skip(end + 1);
        assert forall|i: int| 0 <= i < rest.len() implies line_byte_allowed(#[trigger] rest[i]) by {
            assert(rest[i] == line[i + end + 1]);
        }
        lemma_split_fields_clean(rest);
        assert(clean_field(first)) by {
            assert forall|i: int| 0 <= i < first.len() implies char_allowed(#[trigger] first[i]) by {
                assert(first[i] == line[i]);
                assert(line_byte_allowed(line[i]));
            }
        }
        let fields = split_fields(line);
        assert forall|i: int| 0 <= i < fields.len() implies clean_field(#[trigger] fields[i]) by {
            if i > 0 {
                assert(fields[i] == split_fields(rest)[i - 1]);
            }
        }
    } else {
        assert(clean_field(line)) by {
            assert forall|i: int| 0 <= i < line.len() implies char_allowed(#[trigger] line[i]) by {
                assert(line_byte_allowed(line[i]));
            }
        }
    }
}

/// An entry that a line decodes to is parsable.
pub proof fn lemma_decoded_entry_parsable(line: Seq<u8>)
    requires
        line_entry(line) is Ok,
    ensures
        parsable_entry(line_entry(line)->Ok_0),
{
    lemma_first_special_index(line);
    assert forall|i: int| 0 <= i < line.len() implies line_byte_allowed(#[trigger] line[i]) by {}
    lemma_split_fields_clean(line);
    let all = split_fields(line);
    let fields = keep_fields(all, 6);
    assert(clean_fields(fields)) by {
        assert forall|i: int| 0 <= i < fields.len() implies clean_field(#[trigger] fields[i]) by {
            assert(fields[i] == all[i]);
        }
    }
    assert(clean_field(fields[0]));
    if fields.len() > 2 {
        assert(clean_field(fields[2]));
    }
    if fields.len() > 3 {
        assert(clean_field(fields[3]));
    }
    if fields.len() > 4 {
        assert(clean_field(fields[4]));
    }
    if fields.len() > 5 {
        assert(clean_field(fields[5]));
    }
}

/// Every entry that a text decodes to is parsable.
pub proof fn lemma_decoded_entries_parsable(text: Seq<u8>)
    requires
        text_entries(text) is Ok,
    ensures
        parsable_entries(text_entries(text)->Ok_0),
    decreases text.len(),
{
    if text.len() != 0 {
        lemma_index_of(text, LINE_FEED);
        let rest = after_first_line(text);
        if first_line(text).len() == 0 {
            lemma_decoded_entries_parsable(rest);
        } else {
            lemma_decoded_entry_parsable(first_line(text));
            lemma_decoded_entries_parsable(rest);
            let entry = line_entry(first_line(text))->Ok_0;
            let tail = text_entries(rest)->Ok_0;
            let entries = text_entries(text)->Ok_0;
            assert(entries == seq![entry] + tail);
            assert forall|i: int| 0 <= i < entries.len() implies parsable_entry(
                #[trigger] entries[i],
            ) by {
                if i > 0 {
                    assert(entries[i] == tail[i - 1]);
                }
            }
        }
    }
}

/// Writing the entries of successfully parsed image metadata out as
/// CSV and parsing that text again gives the same entries: names,
/// generations and vendor fields are all preserved.
pub proof fn lemma_entries_round_trip(input: Seq<u8>)
    requires
        image_entries(input) is Ok,
    ensures
        image_entries(entries_csv(image_entries(input)->Ok_0)) == image_entries(input),
{
    let entries = image_entries(input)->Ok_0;
    lemma_decoded_entries_parsable(trim_at_null(input));
    lemma_written_entries_decode(entries);
    lemma_written_entries_bytes(entries);
    let written = entries_csv(entries);
    assert forall|j: int| 0 <= j < written.len() implies written[j] != 0 by {
        let b = written[j];
        assert(b == LINE_FEED || line_byte_allowed(b));
    }
    lemma_index_of_is(written, 0, written.len() as int);
    assert(trim_at_null(written) =~= written);
    assert(is_ascii(written)) by {
        assert forall|j: int| 0 <= j < written.len() implies written[j] < 0x80 by {
            let b = written[j];
            assert(b == LINE_FEED || line_byte_allowed(b));
        }
    }
}

} // verus!
