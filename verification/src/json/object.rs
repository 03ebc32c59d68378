//! The members of an object: a list of keys and values in which a key is
//! looked up from the front.

use vstd::prelude::*;
use vstd::string::StringExecFns;
use crate::json::value::{members_model, JsonModel, JsonValue};

verus! {

/// The index of the first member of `members` from `from` on whose key is
/// `key`, or the length of `members` if there is none.
pub open spec fn find_key(members: Seq<(Seq<char>, JsonModel)>, key: Seq<char>, from: int) -> int
    decreases members.len() - from,
{
    if !(0 <= from < members.len()) {
        members.len() as int
    } else if members[from].0 == key {
        from
    } else {
        find_key(members, key, from + 1)
    }
}

/// `members` with `key` bound to `value`: a member with that key keeps its
/// place and gets the new value, a new key goes to the end.
pub open spec fn members_with(
    members: Seq<(Seq<char>, JsonModel)>,
    key: Seq<char>,
    value: JsonModel,
) -> Seq<(Seq<char>, JsonModel)> {
    let at = find_key(members, key, 0);
    if at < members.len() {
        members.update(at, (key, value))
    } else {
        members.push((key, value))
    }
}

/// What `find_key` returns is the first place of the key, if it has one.
pub proof fn lemma_find_key(members: Seq<(Seq<char>, JsonModel)>, key: Seq<char>, from: int)
    requires
        0 <= from <= members.len(),
    ensures
        from <= find_key(members, key, from) <= members.len(),
        find_key(members, key, from) < members.len() ==> members[find_key(
            members,
            key,
            from,
        )].0 == key,
        forall|j: int|
            from <= j < find_key(members, key, from) ==> (#[trigger] members[j]).0 != key,
    decreases members.len() - from,
{
    if from < members.len() && members[from].0 != key {
        lemma_find_key(members, key, from + 1);
    }
}

/// Binding a key keeps the keys of an object distinct and its values well
/// formed.
pub proof fn lemma_members_with_wf(
    members: Seq<(Seq<char>, JsonModel)>,
    key: Seq<char>,
    value: JsonModel,
)
    requires
        JsonModel::Object(members).wf(),
        value.wf(),
    ensures
        JsonModel::Object(members_with(members, key, value)).wf(),
{
    lemma_find_key(members, key, 0);
    let after = members_with(members, key, value);
    let at = find_key(members, key, 0);
    assert forall|i: int, j: int| 0 <= i < j < after.len() implies after[i].0 != after[j].0 by {
        if at < members.len() {
            assert(after[i].0 == members[i].0);
            assert(after[j].0 == members[j].0);
        } else if j == members.len() {
            assert(after[i] == members[i]);
        } else {
            assert(after[i] == members[i]);
            assert(after[j] == members[j]);
        }
    }
    assert forall|i: int| 0 <= i < after.len() implies (#[trigger] after[i]).1.wf() by {
        if i != at {
            assert(after[i] == members[i]);
        }
    }
}

/// The value under `key`, if a member has that key.
pub open spec fn lookup(members: Seq<(Seq<char>, JsonModel)>, key: Seq<char>) -> Option<JsonModel> {
    let at = find_key(members, key, 0);
    if at < members.len() {
        Some(members[at].1)
    } else {
        None
    }
}

/// The last binding of a key wins: after a key was bound, the new value
/// stands under it, and under every other key stands what stood there.
pub proof fn lemma_members_with_binds(
    members: Seq<(Seq<char>, JsonModel)>,
    key: Seq<char>,
    value: JsonModel,
    other: Seq<char>,
)
    ensures
        lookup(members_with(members, key, value), key) == Some(value),
        other != key ==> lookup(members_with(members, key, value), other) == lookup(
            members,
            other,
        ),
{
    let after = members_with(members, key, value);
    let at = find_key(members, key, 0);
    lemma_find_key(members, key, 0);
    lemma_find_key(after, key, 0);
    if at < members.len() {
        assert(after[at].0 == key);
    } else {
        assert(after[members.len() as int].0 == key);
        assert forall|j: int| 0 <= j < members.len() implies (#[trigger] after[j]).0 != key by {
            assert(after[j] == members[j]);
        }
    }
    if other != key {
        lemma_find_key(members, other, 0);
        lemma_find_key(after, other, 0);
        let was = find_key(members, other, 0);
        let is = find_key(after, other, 0);
        if was < members.len() {
            assert(after[was].0 == other);
            if is < was {
                assert(after[is].0 == members[is].0);
            }
        } else if is < members.len() {
            assert(after[is].0 == members[is].0);
        }
    }
}

/// The index of the first member whose key is `key`, or the number of
/// members if there is none.
pub fn find_member(members: &Vec<(String, JsonValue)>, key: &String) -> (at: usize)
    ensures
        at == find_key(members_model(members@), key@, 0),
        at <= members.len(),
{
    let ghost model = members_model(members@);
    let mut i: usize = 0;
    while i < members.len()
        invariant
            i <= members.len(),
            model == members_model(members@),
            find_key(model, key@, 0) == find_key(model, key@, i as int),
        decreases members.len() - i,
    {
        if members[i].0 == *key {
            return i;
        }
        i += 1;
    }
    i
}

/// Binds `key` to `value` in `members`: a member with that key keeps its
/// place and gets the new value, a new key goes to the end.
pub fn insert_member(members: &mut Vec<(String, JsonValue)>, key: String, value: JsonValue)
    ensures
        members_model(final(members)@) == members_with(
            members_model(old(members)@),
            key@,
            value@,
        ),
{
    let ghost before = members_model(members@);
    let at = find_member(members, &key);
    if at < members.len() {
        members[at] = (key, value);
        assert(members_model(members@) =~= before.update(at as int, (key@, value@)));
    } else {
        members.push((key, value));
        assert(members_model(members@) =~= before.push((key@, value@)));
    }
}

/// The value under `key`, if a member has that key.
pub fn get_member<'a>(members: &'a Vec<(String, JsonValue)>, key: &str) -> (found: Option<
    &'a JsonValue,
>)
    ensures
        match found {
            Some(value) => lookup(members_model(members@), key@) == Some(value@),
            None => lookup(members_model(members@), key@) is None,
        },
{
    let at = find_member(members, &String::from_str(key));
    if at < members.len() {
        Some(&members[at].1)
    } else {
        None
    }
}

} // verus!
