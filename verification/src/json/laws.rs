//! What holds of reading and writing together.

use vstd::prelude::*;
use crate::json::equal::{lemma_same_value_reflexive, same_value};
use crate::json::error::ParseError;
use crate::json::grammar::{lemma_parse_value_wf, parse_document};
use crate::json::render::render;
use crate::json::round_trip::lemma_parse_rendered;
use crate::json::value::JsonModel;

verus! {

/// Round trip: writing a well-formed value and reading the text gives the
/// value back. A value is well formed when no object in it has a key twice
/// and every number in it is the literal of a number.
pub proof fn theorem_round_trip(value: JsonModel)
    requires
        value.wf(),
    ensures
        parse_document(render(value)) == Ok::<JsonModel, ParseError>(value),
{
    let s = render(value);
    assert(s.subrange(0, s.len() as int) =~= s);
    lemma_parse_rendered(s, 0, value);
}

/// Round trip up to the order of members: what is read from the text of a
/// well-formed value is the same value.
pub proof fn theorem_round_trip_same(value: JsonModel)
    requires
        value.wf(),
    ensures
        parse_document(render(value)) matches Ok(read) && same_value(read, value),
{
    theorem_round_trip(value);
    lemma_same_value_reflexive(value);
}

/// Two well-formed values with one text are one value.
pub proof fn theorem_render_injective(left: JsonModel, right: JsonModel)
    requires
        left.wf(),
        right.wf(),
        render(left) == render(right),
    ensures
        left == right,
{
    theorem_round_trip(left);
    theorem_round_trip(right);
}

/// What is read from a text is well formed: no object in it has a key
/// twice, and every number in it is the literal of a number.
pub proof fn theorem_parsed_is_well_formed(s: Seq<char>)
    ensures
        parse_document(s) matches Ok(value) ==> value.wf(),
{
    lemma_parse_value_wf(s, 0);
}

} // verus!
