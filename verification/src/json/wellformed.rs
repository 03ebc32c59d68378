//! Checking at run time that a value is well formed.

use vstd::prelude::*;
use crate::json::number::{is_number_literal, lemma_number_span_bounds};
use crate::json::object::{find_key, find_member, lemma_find_key};
use crate::json::parser::{is_ascii_digit, JsonParser};
use crate::json::value::{
    items_model, keys_distinct, lemma_view_unfolds, lemma_wf_unfolds, members_model, JsonModel,
    JsonValue,
};

verus! {

/// Whether `text` is, from its first to its last character, the literal of
/// a number.
pub fn is_number_text(text: &str) -> (r: bool)
    ensures
        r == is_number_literal(text@),
{
    let mut parser = JsonParser::new(text);
    if parser.chars.len() == 0 {
        return false;
    }
    let first = parser.chars[0];
    if !(is_ascii_digit(first) || first == '-') {
        return false;
    }
    proof {
        lemma_number_span_bounds(text@, 0);
    }
    match parser.parse_number() {
        Ok(_) => parser.index == parser.chars.len(),
        Err(_) => false,
    }
}

/// Every one of the first `n` members is the first with its key.
pub open spec fn first_of_their_key(members: Seq<(Seq<char>, JsonModel)>, n: int) -> bool {
    forall|i: int| 0 <= i < n ==> find_key(members, (#[trigger] members[i]).0, 0) == i
}

/// The keys of a list of members are distinct when every member is the
/// first with its key.
pub proof fn lemma_keys_distinct_by_lookup(members: Seq<(Seq<char>, JsonModel)>)
    ensures
        keys_distinct(members) <==> first_of_their_key(members, members.len() as int),
{
    if keys_distinct(members) {
        assert forall|i: int| 0 <= i < members.len() implies find_key(
            members,
            (#[trigger] members[i]).0,
            0,
        ) == i by {
            lemma_find_key(members, members[i].0, 0);
        }
    }
    if first_of_their_key(members, members.len() as int) {
        assert forall|i: int, j: int| 0 <= i < j < members.len() implies members[i].0
            != members[j].0 by {
            lemma_find_key(members, members[j].0, 0);
            assert(find_key(members, members[j].0, 0) == j);
        }
    }
}

impl JsonValue {
    /// Whether the value is well formed: no object in it has a key twice,
    /// and every number in it is the literal of a number.
    pub fn is_well_formed(&self) -> (r: bool)
        ensures
            r == self@.wf(),
        decreases self,
    {
        proof {
            lemma_view_unfolds(*self);
            lemma_wf_unfolds(self@);
        }
        match self {
            JsonValue::Object(members) => {
                let ghost model = members_model(members@);
                proof {
                    lemma_keys_distinct_by_lookup(model);
                }
                let mut i: usize = 0;
                while i < members.len()
                    invariant
                        *self == JsonValue::Object(*members),
                        self@ == JsonModel::Object(model),
                        model == members_model(members@),
                        i <= members.len(),
                        first_of_their_key(model, i as int),
                        forall|k: int| 0 <= k < i ==> (#[trigger] model[k]).1.wf(),
                        keys_distinct(model) <==> first_of_their_key(model, model.len() as int),
                        self@.wf() <==> keys_distinct(model) && forall|k: int|
                            0 <= k < model.len() ==> (#[trigger] model[k]).1.wf(),
                    decreases members.len() - i,
                {
                    if find_member(members, &members[i].0) != i {
                        assert(model[i as int].0 == members@[i as int].0@);
                        return false;
                    }
                    assert(decreases_to!(*self => self->Object_0[i as int].1));
                    if !members[i].1.is_well_formed() {
                        assert(model[i as int].1 == members@[i as int].1@);
                        return false;
                    }
                    assert(model[i as int].0 == members@[i as int].0@);
                    assert(model[i as int].1 == members@[i as int].1@);
                    i += 1;
                }
                true
            },
            JsonValue::Array(items) => {
                let ghost model = items_model(items@);
                let mut i: usize = 0;
                while i < items.len()
                    invariant
                        *self == JsonValue::Array(*items),
                        self@ == JsonModel::Array(model),
                        model == items_model(items@),
                        i <= items.len(),
                        forall|k: int| 0 <= k < i ==> (#[trigger] model[k]).wf(),
                        self@.wf() <==> forall|k: int|
                            0 <= k < model.len() ==> (#[trigger] model[k]).wf(),
                    decreases items.len() - i,
                {
                    assert(decreases_to!(*self => self->Array_0[i as int]));
                    if !items[i].is_well_formed() {
                        assert(model[i as int] == items@[i as int]@);
                        return false;
                    }
                    assert(model[i as int] == items@[i as int]@);
                    i += 1;
                }
                true
            },
            JsonValue::Number(text) => is_number_text(text.as_str()),
            _ => true,
        }
    }
}

} // verus!
