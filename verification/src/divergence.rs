//! Where two JSON values differ.

use vstd::prelude::*;
use crate::json::{
    find_member, json_equal, lemma_array_view, lookup, member_views, same_json, views, Json,
    JsonView, MemberView,
};
use crate::path::{extended_path, further, step_views, Step, StepView};

verus! {

/// The steps that lead to the first difference between `prev` and `curr`.
pub open spec fn first_difference(prev: JsonView, curr: JsonView) -> Option<Seq<StepView>>
    decreases prev, 0nat,
{
    match (prev, curr) {
        (JsonView::Object(p), JsonView::Object(c)) => member_difference(p, c, 0),
        (JsonView::Array(p), JsonView::Array(c)) => item_difference(p, c, 0),
        _ => if same_json(prev, curr) {
            None
        } else {
            Some(Seq::empty())
        },
    }
}

/// The first difference between two objects from the previous object's member
/// `i` on: its members in their order, then the keys that only the current
/// object has.
pub open spec fn member_difference(prev: Seq<MemberView>, curr: Seq<MemberView>, i: int) -> Option<
    Seq<StepView>,
>
    decreases prev, prev.len() - i,
{
    if 0 <= i < prev.len() {
        let step = StepView::Key(prev[i].key);
        match lookup(curr, prev[i].key) {
            None => Some(seq![step]),
            Some(value) => match first_difference(prev[i].value, value) {
                Some(inner) => Some(seq![step] + inner),
                None => member_difference(prev, curr, i + 1),
            },
        }
    } else {
        extra_member(prev, curr, 0)
    }
}

/// The first member of `curr`, from `j` on, whose key `prev` lacks.
pub open spec fn extra_member(prev: Seq<MemberView>, curr: Seq<MemberView>, j: int) -> Option<
    Seq<StepView>,
>
    decreases curr.len() - j,
{
    if 0 <= j < curr.len() {
        if lookup(prev, curr[j].key) is None {
            Some(seq![StepView::Key(curr[j].key)])
        } else {
            extra_member(prev, curr, j + 1)
        }
    } else {
        None
    }
}

/// The first difference between two arrays from index `i` on; where one is the
/// shorter, the first index that it lacks.
pub open spec fn item_difference(prev: Seq<JsonView>, curr: Seq<JsonView>, i: int) -> Option<
    Seq<StepView>,
>
    decreases prev, prev.len() - i,
{
    if 0 <= i < prev.len() && i < curr.len() {
        match first_difference(prev[i], curr[i]) {
            Some(inner) => Some(seq![StepView::Index(i)] + inner),
            None => item_difference(prev, curr, i + 1),
        }
    } else if prev.len() != curr.len() {
        Some(seq![StepView::Index(i)])
    } else {
        None
    }
}

/// The first path under `path` at which `prev` and `curr` differ.
pub open spec fn divergence(path: Seq<char>, prev: JsonView, curr: JsonView) -> Option<Seq<char>> {
    match first_difference(prev, curr) {
        Some(steps) => Some(further(path, steps)),
        None => None,
    }
}

/// The characters of a string that may be absent.
pub open spec fn opt_chars(s: Option<String>) -> Option<Seq<char>> {
    match s {
        Some(t) => Some(t@),
        None => None,
    }
}

/// The contents of steps that may be absent.
pub open spec fn opt_steps(steps: Option<Vec<Step>>) -> Option<Seq<StepView>> {
    match steps {
        Some(v) => Some(step_views(v@)),
        None => None,
    }
}

/// Some steps behind a first one.
fn behind(step: Step, rest: Vec<Step>) -> (steps: Vec<Step>)
    ensures
        step_views(steps@) == seq![step@] + step_views(rest@),
{
    let mut steps = rest;
    steps.insert(0, step);
    assert(step_views(steps@) =~= seq![step@] + step_views(rest@));
    steps
}

/// A single step.
fn only(step: Step) -> (steps: Vec<Step>)
    ensures
        step_views(steps@) == seq![step@],
{
    let mut steps: Vec<Step> = Vec::new();
    steps.push(step);
    assert(step_views(steps@) =~= seq![step@]);
    steps
}

/// Walks two values and returns the first differing JSON path, or `None` when
/// the values are structurally identical.
///
/// Objects are walked using the union of keys: previous keys first, then any
/// extra keys present only in current. Arrays are compared index by index up to
/// the shorter length; a length mismatch reports the first missing index.
pub fn first_divergence_path(prev: &Json, curr: &Json) -> (found: Option<String>)
    ensures
        opt_chars(found) == divergence(Seq::empty(), prev@, curr@),
{
    let root = String::new();
    first_divergence_path_inner(root.as_str(), prev, curr)
}

/// The first differing JSON path under `path`.
pub fn first_divergence_path_inner(path: &str, prev: &Json, curr: &Json) -> (found: Option<String>)
    ensures
        opt_chars(found) == divergence(path@, prev@, curr@),
{
    match first_difference_steps(prev, curr) {
        Some(steps) => Some(extended_path(path, &steps)),
        None => None,
    }
}

/// The steps that lead to the first difference between two values.
pub fn first_difference_steps(prev: &Json, curr: &Json) -> (found: Option<Vec<Step>>)
    ensures
        opt_steps(found) == first_difference(prev@, curr@),
    decreases *prev,
{
    proof {
        lemma_array_view(*prev);
        lemma_array_view(*curr);
    }
    match (prev, curr) {
        (Json::Object(p), Json::Object(c)) => {
            let ghost ps = member_views(p@);
            let ghost cs = member_views(c@);
            let mut i: usize = 0;
            while i < p.len()
                invariant
                    i <= p@.len(),
                    *prev == Json::Object(*p),
                    ps == member_views(p@),
                    cs == member_views(c@),
                    first_difference(prev@, curr@) == member_difference(ps, cs, i as int),
                decreases p@.len() - i,
            {
                assert(ps[i as int] == p@[i as int]@);
                match find_member(c, p[i].key.as_str()) {
                    Some(v) => {
                        if let Some(inner) = first_difference_steps(&p[i].value, v) {
                            return Some(behind(Step::Key(p[i].key.clone()), inner));
                        }
                    },
                    None => {
                        return Some(only(Step::Key(p[i].key.clone())));
                    },
                }
                i += 1;
            }
            let mut j: usize = 0;
            while j < c.len()
                invariant
                    j <= c@.len(),
                    ps == member_views(p@),
                    cs == member_views(c@),
                    first_difference(prev@, curr@) == extra_member(ps, cs, j as int),
                decreases c@.len() - j,
            {
                assert(cs[j as int] == c@[j as int]@);
                if find_member(p, c[j].key.as_str()).is_none() {
                    return Some(only(Step::Key(c[j].key.clone())));
                }
                j += 1;
            }
            None
        },
        (Json::Array(p), Json::Array(c)) => {
            let ghost ps = views(p@);
            let ghost cs = views(c@);
            let mut i: usize = 0;
            while i < p.len() && i < c.len()
                invariant
                    i <= p@.len(),
                    i <= c@.len(),
                    *prev == Json::Array(*p),
                    ps == views(p@),
                    cs == views(c@),
                    first_difference(prev@, curr@) == item_difference(ps, cs, i as int),
                decreases p@.len() - i,
            {
                assert(ps[i as int] == p@[i as int]@);
                assert(cs[i as int] == c@[i as int]@);
                if let Some(inner) = first_difference_steps(&p[i], &c[i]) {
                    return Some(behind(Step::Index(i), inner));
                }
                i += 1;
            }
            if p.len() != c.len() {
                return Some(only(Step::Index(i)));
            }
            None
        },
        _ => {
            if json_equal(prev, curr) {
                None
            } else {
                let steps: Vec<Step> = Vec::new();
                assert(step_views(steps@) =~= Seq::<StepView>::empty());
                Some(steps)
            }
        },
    }
}

} // verus!
