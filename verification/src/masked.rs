//! Structural equality that leaves named protocol paths out of account.

use vstd::prelude::*;
use crate::json::{
    find_member, json_equal, lemma_array_view, lookup, member_views, same_json, views, Json,
    JsonView,
};
use crate::path::StepView;
use crate::text::str_eq;

verus! {

/// One step of the way from the root of a value to a part of it.
#[derive(Clone, Copy)]
pub enum PathStep<'a> {
    Key(&'a str),
    Index(usize),
}

impl<'a> View for PathStep<'a> {
    type V = StepView;

    open spec fn view(&self) -> StepView {
        match self {
            PathStep::Key(k) => StepView::Key(k@),
            PathStep::Index(i) => StepView::Index(*i as int),
        }
    }
}

/// The contents of the steps of a path.
pub open spec fn path_view(path: Seq<PathStep>) -> Seq<StepView> {
    Seq::new(path.len(), |i: int| path[i]@)
}

/// The contents of the keys of a list.
pub open spec fn key_views(keys: Seq<&str>) -> Seq<Seq<char>> {
    Seq::new(keys.len(), |i: int| keys[i]@)
}

/// The contents of a list of key paths.
pub open spec fn key_path_views(paths: Seq<Vec<&str>>) -> Seq<Seq<Seq<char>>> {
    Seq::new(paths.len(), |i: int| key_views(paths[i]@))
}

/// Whether `path` is the path of the keys `root` or lies beneath it.
pub open spec fn lies_beneath(path: Seq<StepView>, root: Seq<Seq<char>>) -> bool {
    &&& root.len() <= path.len()
    &&& forall|i: int| 0 <= i < root.len() ==> path[i] == StepView::Key(#[trigger] root[i])
}

/// Whether `path` is exactly an ignored path or lies beneath one.
pub open spec fn ignores(ignored: Seq<Seq<Seq<char>>>, path: Seq<StepView>) -> bool {
    exists|k: int| 0 <= k < ignored.len() && lies_beneath(path, #[trigger] ignored[k])
}

/// Structural equality outside the ignored paths, of values that stand at `path`.
pub open spec fn same_except(
    a: JsonView,
    b: JsonView,
    path: Seq<StepView>,
    ignored: Seq<Seq<Seq<char>>>,
) -> bool
    decreases a,
{
    ignores(ignored, path) || match (a, b) {
        (JsonView::Object(x), JsonView::Object(y)) => {
            &&& forall|i: int|
                0 <= i < x.len() ==> {
                    let here = path.push(StepView::Key((#[trigger] x[i]).key));
                    let found = lookup(y, x[i].key);
                    ||| ignores(ignored, here)
                    ||| found is Some && same_except(x[i].value, found->0, here, ignored)
                }
            &&& forall|j: int|
                0 <= j < y.len() ==> {
                    ||| ignores(ignored, path.push(StepView::Key((#[trigger] y[j]).key)))
                    ||| lookup(x, y[j].key) is Some
                }
        },
        (JsonView::Array(x), JsonView::Array(y)) => {
            &&& x.len() == y.len()
            &&& forall|i: int|
                0 <= i < x.len() ==> same_except(
                    #[trigger] x[i],
                    y[i],
                    path.push(StepView::Index(i)),
                    ignored,
                )
        },
        _ => same_json(a, b),
    }
}

/// True when `path` is exactly the path of the keys `root` or lies beneath it.
fn path_lies_beneath(path: &Vec<PathStep>, root: &Vec<&str>) -> (r: bool)
    ensures
        r == lies_beneath(path_view(path@), key_views(root@)),
{
    if root.len() > path.len() {
        return false;
    }
    let ghost steps = path_view(path@);
    let ghost keys = key_views(root@);
    let mut i: usize = 0;
    while i < root.len()
        invariant
            i <= root@.len() <= path@.len(),
            steps == path_view(path@),
            keys == key_views(root@),
            forall|k: int| 0 <= k < i ==> steps[k] == StepView::Key(#[trigger] keys[k]),
        decreases root@.len() - i,
    {
        let same = match path[i] {
            PathStep::Key(key) => str_eq(key, root[i]),
            PathStep::Index(_) => false,
        };
        assert(keys[i as int] == root@[i as int]@);
        assert(steps[i as int] == path@[i as int]@);
        if !same {
            return false;
        }
        i += 1;
    }
    true
}

/// True when `path` is exactly an ignored path or lies beneath one.
pub fn path_is_ignored(path: &Vec<PathStep>, ignored: &Vec<Vec<&str>>) -> (r: bool)
    ensures
        r == ignores(key_path_views(ignored@), path_view(path@)),
{
    let ghost roots = key_path_views(ignored@);
    let mut k: usize = 0;
    while k < ignored.len()
        invariant
            k <= ignored@.len(),
            roots == key_path_views(ignored@),
            forall|m: int| 0 <= m < k ==> !lies_beneath(path_view(path@), #[trigger] roots[m]),
        decreases ignored@.len() - k,
    {
        assert(roots[k as int] == key_views(ignored@[k as int]@));
        if path_lies_beneath(path, &ignored[k]) {
            return true;
        }
        k += 1;
    }
    false
}

/// The path one step further.
fn extended<'a>(path: &Vec<PathStep<'a>>, step: PathStep<'a>) -> (longer: Vec<PathStep<'a>>)
    ensures
        path_view(longer@) == path_view(path@).push(step@),
{
    let mut longer: Vec<PathStep<'a>> = Vec::new();
    let mut i: usize = 0;
    while i < path.len()
        invariant
            i <= path@.len(),
            longer@ =~= path@.take(i as int),
        decreases path@.len() - i,
    {
        longer.push(path[i]);
        i += 1;
    }
    longer.push(step);
    assert(path_view(longer@) =~= path_view(path@).push(step@));
    longer
}

/// Deep structural equality with an explicit set of ignored paths. Only the
/// listed paths (and their descendants) are ignored; a user payload key that
/// happens to be named `requestId` or `contents` is not ignored unless it sits
/// at exactly one of the listed protocol paths.
pub fn equal_except<'a>(
    a: &'a Json,
    b: &'a Json,
    path: &Vec<PathStep<'a>>,
    ignored: &Vec<Vec<&str>>,
) -> (r: bool)
    ensures
        r == same_except(a@, b@, path_view(path@), key_path_views(ignored@)),
    decreases *a,
{
    proof {
        lemma_array_view(*a);
        lemma_array_view(*b);
    }
    let ghost roots = key_path_views(ignored@);
    let ghost steps = path_view(path@);
    if path_is_ignored(path, ignored) {
        return true;
    }
    match (a, b) {
        (Json::Object(x), Json::Object(y)) => {
            let ghost xs = member_views(x@);
            let ghost ys = member_views(y@);
            let mut i: usize = 0;
            while i < x.len()
                invariant
                    i <= x@.len(),
                    *a == Json::Object(*x),
                    a@ == JsonView::Object(xs),
                    b@ == JsonView::Object(ys),
                    xs == member_views(x@),
                    ys == member_views(y@),
                    roots == key_path_views(ignored@),
                    steps == path_view(path@),
                    !ignores(roots, steps),
                    forall|k: int|
                        0 <= k < i ==> {
                            let here = steps.push(StepView::Key((#[trigger] xs[k]).key));
                            let found = lookup(ys, xs[k].key);
                            ||| ignores(roots, here)
                            ||| found is Some && same_except(xs[k].value, found->0, here, roots)
                        },
                decreases x@.len() - i,
            {
                assert(xs[i as int] == x@[i as int]@);
                let here = extended(path, PathStep::Key(x[i].key.as_str()));
                if !path_is_ignored(&here, ignored) {
                    match find_member(y, x[i].key.as_str()) {
                        Some(v) => {
                            if !equal_except(&x[i].value, v, &here, ignored) {
                                return false;
                            }
                        },
                        None => {
                            return false;
                        },
                    }
                }
                i += 1;
            }
            let mut j: usize = 0;
            while j < y.len()
                invariant
                    j <= y@.len(),
                    a@ == JsonView::Object(xs),
                    b@ == JsonView::Object(ys),
                    xs == member_views(x@),
                    ys == member_views(y@),
                    roots == key_path_views(ignored@),
                    steps == path_view(path@),
                    !ignores(roots, steps),
                    forall|k: int|
                        0 <= k < j ==> {
                            ||| ignores(roots, steps.push(StepView::Key((#[trigger] ys[k]).key)))
                            ||| lookup(xs, ys[k].key) is Some
                        },
                decreases y@.len() - j,
            {
                assert(ys[j as int] == y@[j as int]@);
                let here = extended(path, PathStep::Key(y[j].key.as_str()));
                if !path_is_ignored(&here, ignored) && find_member(x, y[j].key.as_str()).is_none() {
                    return false;
                }
                j += 1;
            }
            true
        },
        (Json::Array(x), Json::Array(y)) => {
            if x.len() != y.len() {
                return false;
            }
            let ghost xs = views(x@);
            let ghost ys = views(y@);
            let mut i: usize = 0;
            while i < x.len()
                invariant
                    i <= x@.len(),
                    x@.len() == y@.len(),
                    *a == Json::Array(*x),
                    a@ == JsonView::Array(xs),
                    b@ == JsonView::Array(ys),
                    xs == views(x@),
                    ys == views(y@),
                    roots == key_path_views(ignored@),
                    steps == path_view(path@),
                    !ignores(roots, steps),
                    forall|k: int|
                        0 <= k < i ==> same_except(
                            #[trigger] xs[k],
                            ys[k],
                            steps.push(StepView::Index(k)),
                            roots,
                        ),
                decreases x@.len() - i,
            {
                assert(xs[i as int] == x@[i as int]@);
                assert(ys[i as int] == y@[i as int]@);
                let here = extended(path, PathStep::Index(i));
                if !equal_except(&x[i], &y[i], &here, ignored) {
                    return false;
                }
                i += 1;
            }
            true
        },
        _ => json_equal(a, b),
    }
}

} // verus!
