//! The value tree and the mathematical tree it stands for.

use vstd::prelude::*;
use crate::json::number::is_number_literal;

verus! {

/// The mathematical tree that a [`JsonValue`] stands for.
pub enum JsonModel {
    /// Members in the order in which their keys first appeared.
    Object(Seq<(Seq<char>, JsonModel)>),
    Array(Seq<JsonModel>),
    String(Seq<char>),
    /// The decimal literal of the number.
    Number(Seq<char>),
    Boolean(bool),
    Null,
}

/// No two members have the same key.
pub open spec fn keys_distinct(members: Seq<(Seq<char>, JsonModel)>) -> bool {
    forall|i: int, j: int| 0 <= i < j < members.len() ==> members[i].0 != members[j].0
}

impl JsonModel {
    /// The tree is well formed: in every object no key occurs twice, and
    /// every number is the literal of a number.
    pub open spec fn wf(self) -> bool
        decreases self,
    {
        match self {
            JsonModel::Object(members) => {
                &&& keys_distinct(members)
                &&& forall|i: int| 0 <= i < members.len() ==> (#[trigger] members[i]).1.wf()
            },
            JsonModel::Array(items) => forall|i: int|
                0 <= i < items.len() ==> (#[trigger] items[i]).wf(),
            JsonModel::Number(text) => is_number_literal(text),
            _ => true,
        }
    }
}

/// An array is well formed when its elements are; an object, when its keys
/// are distinct and its values well formed.
pub proof fn lemma_wf_unfolds(value: JsonModel)
    ensures
        value matches JsonModel::Array(items) ==> (value.wf() <==> forall|i: int|
            0 <= i < items.len() ==> (#[trigger] items[i]).wf()),
        value matches JsonModel::Object(members) ==> (value.wf() <==> keys_distinct(members)
            && forall|i: int| 0 <= i < members.len() ==> (#[trigger] members[i]).1.wf()),
{
}

/// A node of a JSON-like document.
///
/// A number is held as its decimal literal; an object as its members in the
/// order in which their keys were first inserted.
#[derive(Debug)]
pub enum JsonValue {
    /// The members, in the order in which their keys were first inserted.
    Object(Vec<(String, JsonValue)>),
    Array(Vec<JsonValue>),
    String(String),
    /// The decimal literal of the number.
    Number(String),
    Boolean(bool),
    Null,
}

/// The tree that `value` stands for.
pub open spec fn model_of(value: JsonValue) -> JsonModel
    decreases value,
{
    match value {
        JsonValue::Object(members) => JsonModel::Object(
            Seq::new(
                members@.len(),
                |i: int|
                    if 0 <= i < members@.len() {
                        (members@[i].0@, model_of(members@[i].1))
                    } else {
                        (Seq::empty(), JsonModel::Null)
                    },
            ),
        ),
        JsonValue::Array(items) => JsonModel::Array(
            Seq::new(
                items@.len(),
                |i: int|
                    if 0 <= i < items@.len() {
                        model_of(items@[i])
                    } else {
                        JsonModel::Null
                    },
            ),
        ),
        JsonValue::String(text) => JsonModel::String(text@),
        JsonValue::Number(text) => JsonModel::Number(text@),
        JsonValue::Boolean(b) => JsonModel::Boolean(b),
        JsonValue::Null => JsonModel::Null,
    }
}

impl View for JsonValue {
    type V = JsonModel;

    open spec fn view(&self) -> JsonModel {
        model_of(*self)
    }
}

/// The members that a vector of keys and values stands for.
pub open spec fn members_model(members: Seq<(String, JsonValue)>) -> Seq<(Seq<char>, JsonModel)> {
    Seq::new(members.len(), |i: int| (members[i].0@, members[i].1@))
}

/// The values that a vector of values stands for.
pub open spec fn items_model(items: Seq<JsonValue>) -> Seq<JsonModel> {
    Seq::new(items.len(), |i: int| items[i]@)
}

/// What the view of an object and of an array is, without the recursion.
pub proof fn lemma_view_unfolds(value: JsonValue)
    ensures
        value matches JsonValue::Object(members) ==> value@ == JsonModel::Object(
            members_model(members@),
        ),
        value matches JsonValue::Array(items) ==> value@ == JsonModel::Array(items_model(items@)),
{
    if value is Object {
        let members = value->Object_0;
        assert(value@ is Object);
        assert(value@->Object_0.len() == members@.len());
        assert(value@->Object_0 =~= members_model(members@));
    }
    if value is Array {
        assert(value@->Array_0 =~= items_model(value->Array_0@));
    }
}

impl Clone for JsonValue {
    fn clone(&self) -> (copy: Self)
        ensures
            copy@ == self@,
        decreases self,
    {
        proof {
            lemma_view_unfolds(*self);
        }
        match self {
            JsonValue::Object(members) => {
                let mut copies: Vec<(String, JsonValue)> = Vec::new();
                for i in 0..members.len()
                    invariant
                        *self == JsonValue::Object(*members),
                        members_model(copies@) == members_model(members@).take(i as int),
                {
                    assert(decreases_to!(*self => self->Object_0[i as int].1));
                    let member = (members[i].0.clone(), members[i].1.clone());
                    proof {
                        let all = members_model(members@);
                        assert(member.0@ == all[i as int].0);
                        assert(member.1@ == all[i as int].1);
                        assert(all.take(i + 1) =~= all.take(i as int).push(all[i as int]));
                        assert(members_model(copies@.push(member)) =~= members_model(
                            copies@,
                        ).push((member.0@, member.1@)));
                    }
                    copies.push(member);
                }
                let copy = JsonValue::Object(copies);
                proof {
                    lemma_view_unfolds(copy);
                    assert(members_model(members@).take(members.len() as int) =~= members_model(
                        members@,
                    ));
                }
                copy
            },
            JsonValue::Array(items) => {
                let mut copies: Vec<JsonValue> = Vec::new();
                for i in 0..items.len()
                    invariant
                        *self == JsonValue::Array(*items),
                        items_model(copies@) == items_model(items@).take(i as int),
                {
                    assert(decreases_to!(*self => self->Array_0[i as int]));
                    let item = items[i].clone();
                    proof {
                        let all = items_model(items@);
                        assert(item@ == all[i as int]);
                        assert(all.take(i + 1) =~= all.take(i as int).push(all[i as int]));
                        assert(items_model(copies@.push(item)) =~= items_model(copies@).push(
                            item@,
                        ));
                    }
                    copies.push(item);
                }
                let copy = JsonValue::Array(copies);
                proof {
                    lemma_view_unfolds(copy);
                    assert(items_model(items@).take(items.len() as int) =~= items_model(items@));
                }
                copy
            },
            JsonValue::String(text) => JsonValue::String(text.clone()),
            JsonValue::Number(text) => JsonValue::Number(text.clone()),
            JsonValue::Boolean(b) => JsonValue::Boolean(*b),
            JsonValue::Null => JsonValue::Null,
        }
    }
}

} // verus!
