//! The machine-readable part of an SBAT record.

use crate::csv::Record;
use crate::error::ParseError;
use crate::generation::{generation_of, Generation};
use vstd::prelude::*;

verus! {

/// What a `Component` stands for: the bytes of its name and the number
/// of its generation.
pub struct ComponentView {
    pub name: Seq<u8>,
    pub generation: u32,
}

/// SBAT component. This is the machine-readable portion of SBAT that is
/// actually used for revocation (other fields are human-readable and
/// not used for comparisons).
#[derive(Clone, Copy, Debug, Default, PartialEq, Eq)]
pub struct Component<'a> {
    /// Component name.
    pub name: &'a [u8],
    /// Component generation.
    pub generation: Generation,
}

impl<'a> View for Component<'a> {
    type V = ComponentView;

    open spec fn view(&self) -> ComponentView {
        ComponentView { name: self.name@, generation: self.generation@ }
    }
}

/// The component that the fields of a record denote: the first field
/// is the name, the second the generation. A record with fewer than two
/// fields has too few, and so has one whose name is empty: a name
/// that holds nothing is no name. A second field that is no generation
/// is invalid. The name is looked at before the generation.
pub open spec fn record_component(fields: Seq<Seq<u8>>) -> Result<ComponentView, ParseError> {
    if fields.len() < 2 || fields[0].len() == 0 {
        Err(ParseError::TooFewFields)
    } else {
        match generation_of(fields[1]) {
            Some(g) => Ok(ComponentView { name: fields[0], generation: g }),
            None => Err(ParseError::InvalidGeneration),
        }
    }
}

/// Only the first two fields of a record decide its component: a
/// date or a comment after them plays no part.
pub proof fn lemma_later_fields_play_no_part(fields: Seq<Seq<u8>>)
    requires
        fields.len() >= 2,
    ensures
        record_component(fields) == record_component(fields.take(2)),
{
    assert(fields.take(2)[0] == fields[0]);
    assert(fields.take(2)[1] == fields[1]);
}

impl<'a> Component<'a> {
    /// Create a `Component`.
    pub fn new(name: &'a [u8], generation: Generation) -> (c: Self)
        ensures
            c.name == name,
            c.generation == generation,
    {
        Component { name, generation }
    }

    /// Parse a `Component` from a `Record`.
    pub fn from_record(record: &Record<'a>) -> (r: Result<Self, ParseError>)
        ensures
            match r {
                Ok(c) => record_component(record@) == Ok::<ComponentView, ParseError>(c@),
                Err(e) => record_component(record@) == Err::<ComponentView, ParseError>(e),
            },
    {
        let name = match record.get_field(0) {
            Some(name) => name,
            None => {
                return Err(ParseError::TooFewFields);
            },
        };
        if name.len() == 0 {
            return Err(ParseError::TooFewFields);
        }
        match record.get_field_as_generation(1) {
            Ok(Some(generation)) => Ok(Component { name, generation }),
            Ok(None) => Err(ParseError::TooFewFields),
            Err(e) => Err(e),
        }
    }
}

} // verus!
