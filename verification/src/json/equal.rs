//! When two values are the same: members are compared by key, whatever
//! their order; elements in order.

use vstd::prelude::*;
use vstd::std_specs::cmp::PartialEqSpecImpl;
use crate::json::object::{find_key, find_member, lemma_find_key};
use crate::json::value::{
    items_model, keys_distinct, lemma_view_unfolds, lemma_wf_unfolds, members_model, JsonModel,
    JsonValue,
};

verus! {

/// Every one of the first `n` members of `left` has, under its key in
/// `right`, the same value.
pub open spec fn same_members(
    left: Seq<(Seq<char>, JsonModel)>,
    right: Seq<(Seq<char>, JsonModel)>,
    n: int,
) -> bool
    decreases left, n,
{
    if n <= 0 || n > left.len() {
        true
    } else {
        let at = find_key(right, left[n - 1].0, 0);
        &&& same_members(left, right, n - 1)
        &&& at < right.len()
        &&& same_value(left[n - 1].1, right[at].1)
    }
}

/// Each of the first `n` elements of `left` is the same as the element of
/// `right` at its place.
pub open spec fn same_items(left: Seq<JsonModel>, right: Seq<JsonModel>, n: int) -> bool
    decreases left, n,
{
    if n <= 0 || n > left.len() || n > right.len() {
        true
    } else {
        same_items(left, right, n - 1) && same_value(left[n - 1], right[n - 1])
    }
}

/// Two values are the same: they are of one kind, and two objects have as
/// many members and the same value under each key, two arrays as many
/// elements and the same at each place, two strings the same text, two
/// numbers the same literal, two booleans the same truth value.
pub open spec fn same_value(left: JsonModel, right: JsonModel) -> bool
    decreases left, 0int,
{
    match (left, right) {
        (JsonModel::Object(a), JsonModel::Object(b)) => a.len() == b.len() && same_members(
            a,
            b,
            a.len() as int,
        ),
        (JsonModel::Array(a), JsonModel::Array(b)) => a.len() == b.len() && same_items(
            a,
            b,
            a.len() as int,
        ),
        (JsonModel::String(a), JsonModel::String(b)) => a == b,
        (JsonModel::Number(a), JsonModel::Number(b)) => a == b,
        (JsonModel::Boolean(a), JsonModel::Boolean(b)) => a == b,
        (JsonModel::Null, JsonModel::Null) => true,
        _ => false,
    }
}

/// Whether two values are the same.
pub fn values_equal(left: &JsonValue, right: &JsonValue) -> (same: bool)
    ensures
        same == same_value(left@, right@),
    decreases left,
{
    proof {
        lemma_view_unfolds(*left);
        lemma_view_unfolds(*right);
    }
    match (left, right) {
        (JsonValue::Object(a), JsonValue::Object(b)) => {
            if a.len() != b.len() {
                return false;
            }
            let ghost ma = members_model(a@);
            let ghost mb = members_model(b@);
            let mut i: usize = 0;
            while i < a.len()
                invariant
                    *left == JsonValue::Object(*a),
                    left@ == JsonModel::Object(ma),
                    right@ == JsonModel::Object(mb),
                    ma == members_model(a@),
                    mb == members_model(b@),
                    a.len() == b.len(),
                    i <= a.len(),
                    same_members(ma, mb, i as int),
                decreases a.len() - i,
            {
                let at = find_member(b, &a[i].0);
                if at >= b.len() {
                    proof {
                        if same_members(ma, mb, a.len() as int) {
                            lemma_same_members_prefix(ma, mb, i + 1, a.len() as int);
                        }
                    }
                    return false;
                }
                assert(decreases_to!(*left => left->Object_0[i as int].1));
                if !values_equal(&a[i].1, &b[at].1) {
                    proof {
                        if same_members(ma, mb, a.len() as int) {
                            lemma_same_members_prefix(ma, mb, i + 1, a.len() as int);
                        }
                    }
                    return false;
                }
                i += 1;
            }
            true
        },
        (JsonValue::Array(a), JsonValue::Array(b)) => {
            if a.len() != b.len() {
                return false;
            }
            let ghost ma = items_model(a@);
            let ghost mb = items_model(b@);
            let mut i: usize = 0;
            while i < a.len()
                invariant
                    *left == JsonValue::Array(*a),
                    left@ == JsonModel::Array(ma),
                    right@ == JsonModel::Array(mb),
                    ma == items_model(a@),
                    mb == items_model(b@),
                    a.len() == b.len(),
                    i <= a.len(),
                    same_items(ma, mb, i as int),
                decreases a.len() - i,
            {
                assert(decreases_to!(*left => left->Array_0[i as int]));
                if !values_equal(&a[i], &b[i]) {
                    proof {
                        if same_items(ma, mb, a.len() as int) {
                            lemma_same_items_prefix(ma, mb, i + 1, a.len() as int);
                        }
                    }
                    return false;
                }
                i += 1;
            }
            true
        },
        (JsonValue::String(a), JsonValue::String(b)) => *a == *b,
        (JsonValue::Number(a), JsonValue::Number(b)) => *a == *b,
        (JsonValue::Boolean(a), JsonValue::Boolean(b)) => *a == *b,
        (JsonValue::Null, JsonValue::Null) => true,
        _ => false,
    }
}

/// What holds of the first `n` members holds of the first `m` of them.
pub proof fn lemma_same_members_prefix(
    left: Seq<(Seq<char>, JsonModel)>,
    right: Seq<(Seq<char>, JsonModel)>,
    m: int,
    n: int,
)
    requires
        0 <= m <= n <= left.len(),
        same_members(left, right, n),
    ensures
        same_members(left, right, m),
    decreases n - m,
{
    if m < n {
        lemma_same_members_prefix(left, right, m, n - 1);
    }
}

/// What holds of the first `n` elements holds of the first `m` of them.
pub proof fn lemma_same_items_prefix(left: Seq<JsonModel>, right: Seq<JsonModel>, m: int, n: int)
    requires
        0 <= m <= n <= left.len(),
        n <= right.len(),
        same_items(left, right, n),
    ensures
        same_items(left, right, m),
    decreases n - m,
{
    if m < n {
        lemma_same_items_prefix(left, right, m, n - 1);
    }
}

/// A well-formed value is the same as itself.
pub proof fn lemma_same_value_reflexive(value: JsonModel)
    requires
        value.wf(),
    ensures
        same_value(value, value),
    decreases value, 0int,
{
    lemma_wf_unfolds(value);
    match value {
        JsonModel::Object(members) => {
            lemma_same_members_reflexive(members, members.len() as int);
        },
        JsonModel::Array(items) => {
            lemma_same_items_reflexive(items, items.len() as int);
        },
        _ => {},
    }
}

/// The first `n` members of a well-formed object are found in it, each
/// with its own value.
pub proof fn lemma_same_members_reflexive(members: Seq<(Seq<char>, JsonModel)>, n: int)
    requires
        JsonModel::Object(members).wf(),
        0 <= n <= members.len(),
    ensures
        same_members(members, members, n),
    decreases members, n,
{
    lemma_wf_unfolds(JsonModel::Object(members));
    if n > 0 {
        lemma_same_members_reflexive(members, n - 1);
        lemma_find_key(members, members[n - 1].0, 0);
        assert(find_key(members, members[n - 1].0, 0) == n - 1);
        lemma_same_value_reflexive(members[n - 1].1);
    }
}

/// The first `n` elements of a well-formed array are the same as
/// themselves.
pub proof fn lemma_same_items_reflexive(items: Seq<JsonModel>, n: int)
    requires
        JsonModel::Array(items).wf(),
        0 <= n <= items.len(),
    ensures
        same_items(items, items, n),
    decreases items, n,
{
    lemma_wf_unfolds(JsonModel::Array(items));
    if n > 0 {
        lemma_same_items_reflexive(items, n - 1);
        lemma_same_value_reflexive(items[n - 1]);
    }
}

/// The keys of a list of members, in order.
pub open spec fn keys_of(members: Seq<(Seq<char>, JsonModel)>) -> Seq<Seq<char>> {
    Seq::new(members.len(), |i: int| members[i].0)
}

/// What `same_members` says of each single member.
pub proof fn lemma_same_members_at(
    left: Seq<(Seq<char>, JsonModel)>,
    right: Seq<(Seq<char>, JsonModel)>,
    n: int,
    i: int,
)
    requires
        0 <= i < n <= left.len(),
        same_members(left, right, n),
    ensures
        find_key(right, left[i].0, 0) < right.len(),
        same_value(left[i].1, right[find_key(right, left[i].0, 0)].1),
    decreases n,
{
    if i < n - 1 {
        lemma_same_members_at(left, right, n - 1, i);
    }
}

/// `same_members` holds when it holds of each single member.
pub proof fn lemma_same_members_from(
    left: Seq<(Seq<char>, JsonModel)>,
    right: Seq<(Seq<char>, JsonModel)>,
    n: int,
)
    requires
        0 <= n <= left.len(),
        forall|i: int|
            0 <= i < n ==> find_key(right, (#[trigger] left[i]).0, 0) < right.len() && same_value(
                left[i].1,
                right[find_key(right, left[i].0, 0)].1,
            ),
    ensures
        same_members(left, right, n),
    decreases n,
{
    if n > 0 {
        lemma_same_members_from(left, right, n - 1);
        assert(find_key(right, left[n - 1].0, 0) < right.len());
    }
}

/// What `same_items` says of each single element.
pub proof fn lemma_same_items_at(left: Seq<JsonModel>, right: Seq<JsonModel>, n: int, i: int)
    requires
        0 <= i < n <= left.len(),
        n <= right.len(),
        same_items(left, right, n),
    ensures
        same_value(left[i], right[i]),
    decreases n,
{
    if i < n - 1 {
        lemma_same_items_at(left, right, n - 1, i);
    }
}

/// `same_items` holds when it holds of each single element.
pub proof fn lemma_same_items_from(left: Seq<JsonModel>, right: Seq<JsonModel>, n: int)
    requires
        0 <= n <= left.len(),
        n <= right.len(),
        forall|i: int| 0 <= i < n ==> same_value(#[trigger] left[i], right[i]),
    ensures
        same_items(left, right, n),
    decreases n,
{
    if n > 0 {
        lemma_same_items_from(left, right, n - 1);
        assert(same_value(left[n - 1], right[n - 1]));
    }
}

/// Of two lists of members with distinct keys and of one length, where
/// every key of the first is a key of the second, every key of the second
/// is a key of the first.
pub proof fn lemma_keys_cover(
    left: Seq<(Seq<char>, JsonModel)>,
    right: Seq<(Seq<char>, JsonModel)>,
)
    requires
        keys_distinct(left),
        keys_distinct(right),
        left.len() == right.len(),
        forall|i: int|
            0 <= i < left.len() ==> find_key(right, (#[trigger] left[i]).0, 0) < right.len(),
    ensures
        forall|j: int|
            0 <= j < right.len() ==> find_key(left, (#[trigger] right[j]).0, 0) < left.len(),
{
    broadcast use vstd::seq_lib::seq_to_set_is_finite;

    let kl = keys_of(left);
    let kr = keys_of(right);
    assert(kl.no_duplicates());
    assert(kr.no_duplicates());
    kl.unique_seq_to_set();
    kr.unique_seq_to_set();
    assert forall|k: Seq<char>| kl.to_set().contains(k) implies kr.to_set().contains(k) by {
        let i = choose|i: int| 0 <= i < kl.len() && kl[i] == k;
        assert(left[i].0 == k);
        let j = find_key(right, k, 0);
        lemma_find_key(right, k, 0);
        assert(kr[j] == k);
    }
    vstd::set_lib::lemma_subset_equality(kl.to_set(), kr.to_set());
    assert forall|j: int| 0 <= j < right.len() implies find_key(
        left,
        (#[trigger] right[j]).0,
        0,
    ) < left.len() by {
        let k = right[j].0;
        assert(kr[j] == k);
        assert(kr.to_set().contains(k));
        assert(kl.to_set().contains(k));
        let i = choose|i: int| 0 <= i < kl.len() && kl[i] == k;
        assert(left[i].0 == k);
        lemma_find_key(left, k, 0);
    }
}

/// On well-formed values, being the same does not depend on the side.
pub proof fn lemma_same_value_symmetric(left: JsonModel, right: JsonModel)
    requires
        left.wf(),
        right.wf(),
        same_value(left, right),
    ensures
        same_value(right, left),
    decreases left,
{
    lemma_wf_unfolds(left);
    lemma_wf_unfolds(right);
    match (left, right) {
        (JsonModel::Object(a), JsonModel::Object(b)) => {
            let n = a.len() as int;
            assert forall|i: int| 0 <= i < n implies find_key(b, (#[trigger] a[i]).0, 0)
                < b.len() by {
                lemma_same_members_at(a, b, n, i);
            }
            lemma_keys_cover(a, b);
            assert forall|j: int| 0 <= j < n implies find_key(a, (#[trigger] b[j]).0, 0) < a.len()
                && same_value(b[j].1, a[find_key(a, b[j].0, 0)].1) by {
                let i = find_key(a, b[j].0, 0);
                lemma_find_key(a, b[j].0, 0);
                lemma_find_key(b, a[i].0, 0);
                assert(find_key(b, a[i].0, 0) == j);
                lemma_same_members_at(a, b, n, i);
                lemma_same_value_symmetric(a[i].1, b[j].1);
            }
            lemma_same_members_from(b, a, n);
        },
        (JsonModel::Array(a), JsonModel::Array(b)) => {
            let n = a.len() as int;
            assert forall|i: int| 0 <= i < n implies same_value(#[trigger] b[i], a[i]) by {
                lemma_same_items_at(a, b, n, i);
                lemma_same_value_symmetric(a[i], b[i]);
            }
            lemma_same_items_from(b, a, n);
        },
        _ => {},
    }
}

/// Two values that are the same as a third are the same.
pub proof fn lemma_same_value_transitive(left: JsonModel, middle: JsonModel, right: JsonModel)
    requires
        same_value(left, middle),
        same_value(middle, right),
    ensures
        same_value(left, right),
    decreases left,
{
    match (left, middle, right) {
        (JsonModel::Object(a), JsonModel::Object(b), JsonModel::Object(c)) => {
            let n = a.len() as int;
            assert forall|i: int| 0 <= i < n implies find_key(c, (#[trigger] a[i]).0, 0) < c.len()
                && same_value(a[i].1, c[find_key(c, a[i].0, 0)].1) by {
                lemma_same_members_at(a, b, n, i);
                let j = find_key(b, a[i].0, 0);
                lemma_find_key(b, a[i].0, 0);
                lemma_same_members_at(b, c, n, j);
                let k = find_key(c, b[j].0, 0);
                lemma_same_value_transitive(a[i].1, b[j].1, c[k].1);
            }
            lemma_same_members_from(a, c, n);
        },
        (JsonModel::Array(a), JsonModel::Array(b), JsonModel::Array(c)) => {
            let n = a.len() as int;
            assert forall|i: int| 0 <= i < n implies same_value(#[trigger] a[i], c[i]) by {
                lemma_same_items_at(a, b, n, i);
                lemma_same_items_at(b, c, n, i);
                lemma_same_value_transitive(a[i], b[i], c[i]);
            }
            lemma_same_items_from(a, c, n);
        },
        _ => {},
    }
}

impl PartialEq for JsonValue {
    fn eq(&self, other: &JsonValue) -> (same: bool) {
        values_equal(self, other)
    }
}

impl PartialEqSpecImpl for JsonValue {
    open spec fn obeys_eq_spec() -> bool {
        true
    }

    open spec fn eq_spec(&self, other: &JsonValue) -> bool {
        same_value(self@, other@)
    }
}

} // verus!
