//! Equality of JSON values, and what it has to do with the paths that are
//! reported.

use vstd::prelude::*;
use crate::divergence::{
    divergence, extra_member, first_difference, item_difference, member_difference,
};
use crate::json::{first_at, lookup, same_json, same_opt, well_formed, JsonView, MemberView};
use crate::path::{further, StepView};

verus! {

/// A key that some member has is found, at the first such member.
pub proof fn lemma_lookup_finds(members: Seq<MemberView>, key: Seq<char>, i: int)
    requires
        0 <= i < members.len(),
        members[i].key == key,
    ensures
        exists|k: int| #[trigger] first_at(members, key, k) && k <= i && lookup(members, key)
            == Some(members[k].value),
    decreases i,
{
    if exists|j: int| 0 <= j < i && (#[trigger] members[j]).key == key {
        let j = choose|j: int| 0 <= j < i && (#[trigger] members[j]).key == key;
        lemma_lookup_finds(members, key, j);
    } else {
        assert(first_at(members, key, i));
        lemma_lookup_is_first(members, key, i);
    }
}

/// What is found under a key is the value of the first member that has it.
pub proof fn lemma_lookup_is_first(members: Seq<MemberView>, key: Seq<char>, i: int)
    requires
        first_at(members, key, i),
    ensures
        lookup(members, key) == Some(members[i].value),
{
    let k = choose|k: int| first_at(members, key, k);
    assert(first_at(members, key, k));
    if k < i {
        assert(members[k].key != key);
    }
    if i < k {
        assert(members[i].key != key);
    }
}

/// In an object whose keys are distinct every member is what is found under its
/// key.
pub proof fn lemma_lookup_own(members: Seq<MemberView>, i: int)
    requires
        well_formed(JsonView::Object(members)),
        0 <= i < members.len(),
    ensures
        lookup(members, members[i].key) == Some(members[i].value),
{
    assert(first_at(members, members[i].key, i));
    lemma_lookup_is_first(members, members[i].key, i);
}

/// A value is equal to itself.
pub proof fn law_equality_is_reflexive(a: JsonView)
    requires
        well_formed(a),
    ensures
        same_json(a, a),
    decreases a,
{
    match a {
        JsonView::Array(items) => {
            assert forall|i: int| 0 <= i < items.len() implies same_json(
                #[trigger] items[i],
                items[i],
            ) by {
                law_equality_is_reflexive(items[i]);
            }
        },
        JsonView::Object(members) => {
            assert forall|i: int| 0 <= i < members.len() implies {
                let found = lookup(members, (#[trigger] members[i]).key);
                found is Some && same_json(members[i].value, found->0)
            } by {
                lemma_lookup_own(members, i);
                law_equality_is_reflexive(members[i].value);
            }
        },
        _ => {},
    }
}

/// Equality goes both ways.
pub proof fn law_equality_is_symmetric(a: JsonView, b: JsonView)
    requires
        well_formed(a),
        well_formed(b),
        same_json(a, b),
    ensures
        same_json(b, a),
    decreases a,
{
    match (a, b) {
        (JsonView::Array(x), JsonView::Array(y)) => {
            assert forall|i: int| 0 <= i < y.len() implies same_json(#[trigger] y[i], x[i]) by {
                assert(same_json(x[i], y[i]));
                law_equality_is_symmetric(x[i], y[i]);
            }
        },
        (JsonView::Object(x), JsonView::Object(y)) => {
            assert forall|j: int| 0 <= j < y.len() implies {
                let found = lookup(x, (#[trigger] y[j]).key);
                found is Some && same_json(y[j].value, found->0)
            } by {
                let key = y[j].key;
                let i = choose|i: int| first_at(x, key, i);
                assert(lookup(x, key) is Some);
                lemma_lookup_is_first(x, key, i);
                assert(x[i].key == key);
                lemma_lookup_own(y, j);
                law_equality_is_symmetric(x[i].value, y[j].value);
            }
        },
        _ => {},
    }
}

/// What is equal to the same value is equal.
pub proof fn law_equality_is_transitive(a: JsonView, b: JsonView, c: JsonView)
    requires
        well_formed(a),
        well_formed(b),
        well_formed(c),
        same_json(a, b),
        same_json(b, c),
    ensures
        same_json(a, c),
    decreases a,
{
    match (a, b, c) {
        (JsonView::Array(x), JsonView::Array(y), JsonView::Array(z)) => {
            assert forall|i: int| 0 <= i < x.len() implies same_json(#[trigger] x[i], z[i]) by {
                assert(same_json(x[i], y[i]));
                assert(same_json(y[i], z[i]));
                law_equality_is_transitive(x[i], y[i], z[i]);
            }
        },
        (JsonView::Object(x), JsonView::Object(y), JsonView::Object(z)) => {
            assert forall|i: int| 0 <= i < x.len() implies {
                let found = lookup(z, (#[trigger] x[i]).key);
                found is Some && same_json(x[i].value, found->0)
            } by {
                let key = x[i].key;
                let j = choose|j: int| first_at(y, key, j);
                assert(lookup(y, key) is Some);
                lemma_lookup_is_first(y, key, j);
                assert(y[j].key == key);
                let k = choose|k: int| first_at(z, key, k);
                assert(lookup(z, key) is Some);
                lemma_lookup_is_first(z, key, k);
                law_equality_is_transitive(x[i].value, y[j].value, z[k].value);
            }
            assert forall|k: int| 0 <= k < z.len() implies lookup(
                x,
                (#[trigger] z[k]).key,
            ) is Some by {
                let key = z[k].key;
                assert(lookup(y, key) is Some);
                let j = choose|j: int| first_at(y, key, j);
                assert(y[j].key == key);
            }
        },
        _ => {},
    }
}

/// Two objects are equal exactly when under every key they hold equal values, or
/// both none: the order of the members does not matter.
pub proof fn law_objects_are_equal_by_key(x: Seq<MemberView>, y: Seq<MemberView>)
    requires
        well_formed(JsonView::Object(x)),
    ensures
        same_json(JsonView::Object(x), JsonView::Object(y)) <==> forall|key: Seq<char>|
            same_opt(#[trigger] lookup(x, key), lookup(y, key)),
{
    if same_json(JsonView::Object(x), JsonView::Object(y)) {
        assert forall|key: Seq<char>| same_opt(#[trigger] lookup(x, key), lookup(y, key)) by {
            if lookup(x, key) is Some {
                let i = choose|i: int| first_at(x, key, i);
                lemma_lookup_is_first(x, key, i);
                assert(x[i].key == key);
            } else if lookup(y, key) is Some {
                let j = choose|j: int| first_at(y, key, j);
                assert(y[j].key == key);
            }
        }
    }
    if forall|key: Seq<char>| same_opt(#[trigger] lookup(x, key), lookup(y, key)) {
        assert forall|i: int| 0 <= i < x.len() implies {
            let found = lookup(y, (#[trigger] x[i]).key);
            found is Some && same_json(x[i].value, found->0)
        } by {
            lemma_lookup_own(x, i);
            assert(same_opt(lookup(x, x[i].key), lookup(y, x[i].key)));
        }
        assert forall|j: int| 0 <= j < y.len() implies lookup(x, (#[trigger] y[j]).key) is Some by {
            lemma_lookup_finds(y, y[j].key, j);
            assert(same_opt(lookup(x, y[j].key), lookup(y, y[j].key)));
        }
    }
}

/// From a member on, no difference of objects means that the members agree.
proof fn lemma_no_member_difference(prev: Seq<MemberView>, curr: Seq<MemberView>, i: int)
    requires
        0 <= i <= prev.len(),
    ensures
        member_difference(prev, curr, i) is None <==> {
            &&& forall|k: int|
                i <= k < prev.len() ==> {
                    let found = lookup(curr, (#[trigger] prev[k]).key);
                    found is Some && same_json(prev[k].value, found->0)
                }
            &&& forall|j: int|
                0 <= j < curr.len() ==> lookup(prev, (#[trigger] curr[j]).key) is Some
        },
    decreases prev, prev.len() - i,
{
    if i < prev.len() {
        let found = lookup(curr, prev[i].key);
        if found is Some {
            assert(decreases_to!(prev => prev[i]));
            assert(decreases_to!(prev[i] => prev[i].value));
            lemma_no_difference(prev[i].value, found->0);
        }
        lemma_no_member_difference(prev, curr, i + 1);
    } else {
        lemma_no_extra_member(prev, curr, 0);
    }
}

/// From a member on, no extra member means that every key is known.
proof fn lemma_no_extra_member(prev: Seq<MemberView>, curr: Seq<MemberView>, j: int)
    requires
        0 <= j <= curr.len(),
    ensures
        extra_member(prev, curr, j) is None <==> forall|k: int|
            j <= k < curr.len() ==> lookup(prev, (#[trigger] curr[k]).key) is Some,
    decreases curr.len() - j,
{
    if j < curr.len() {
        lemma_no_extra_member(prev, curr, j + 1);
    }
}

/// From an index on, no difference of arrays means that the items agree.
proof fn lemma_no_item_difference(prev: Seq<JsonView>, curr: Seq<JsonView>, i: int)
    requires
        0 <= i <= prev.len(),
        i <= curr.len(),
    ensures
        item_difference(prev, curr, i) is None <==> {
            &&& prev.len() == curr.len()
            &&& forall|k: int| i <= k < prev.len() ==> same_json(#[trigger] prev[k], curr[k])
        },
    decreases prev, prev.len() - i,
{
    if i < prev.len() && i < curr.len() {
        assert(decreases_to!(prev => prev[i]));
        lemma_no_difference(prev[i], curr[i]);
        lemma_no_item_difference(prev, curr, i + 1);
    }
}

/// There is a first difference exactly when two values are not equal.
proof fn lemma_no_difference(prev: JsonView, curr: JsonView)
    ensures
        first_difference(prev, curr) is None <==> same_json(prev, curr),
    decreases prev, 0int,
{
    match (prev, curr) {
        (JsonView::Object(p), JsonView::Object(c)) => {
            assert(decreases_to!(prev => prev->Object_0));
            lemma_no_member_difference(p, c, 0);
        },
        (JsonView::Array(p), JsonView::Array(c)) => {
            assert(decreases_to!(prev => prev->Array_0));
            lemma_no_item_difference(p, c, 0);
        },
        _ => {},
    }
}

/// A divergence is reported exactly when two values are not equal.
pub proof fn law_no_divergence_iff_equal(path: Seq<char>, prev: JsonView, curr: JsonView)
    ensures
        first_difference(prev, curr) is None <==> same_json(prev, curr),
        divergence(path, prev, curr) is None <==> same_json(prev, curr),
{
    lemma_no_difference(prev, curr);
}

/// A path that is some steps longer starts with the path.
pub proof fn lemma_further_extends(path: Seq<char>, steps: Seq<StepView>)
    ensures
        path.is_prefix_of(further(path, steps)),
    decreases steps.len(),
{
    if steps.len() > 0 {
        let before = further(path, steps.drop_last());
        lemma_further_extends(path, steps.drop_last());
        assert(before =~= further(path, steps).take(before.len() as int));
    }
    assert(path =~= further(path, steps).take(path.len() as int));
}

/// The path of a divergence starts with the path at which the two values stand.
pub proof fn law_divergence_lies_under_its_root(path: Seq<char>, prev: JsonView, curr: JsonView)
    ensures
        divergence(path, prev, curr) matches Some(found) ==> path.is_prefix_of(found),
{
    if let Some(steps) = first_difference(prev, curr) {
        lemma_further_extends(path, steps);
    }
}

} // verus!
