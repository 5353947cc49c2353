//! Paths into a JSON value: the steps they are made of, and their text.

use vstd::prelude::*;
use crate::text::{decimal, to_decimal};

verus! {

/// The content of one step of the way from the root of a value to a part of it.
pub ghost enum StepView {
    Key(Seq<char>),
    Index(int),
}

/// One step of the way from the root of a value to a part of it.
pub enum Step {
    Key(String),
    Index(usize),
}

impl View for Step {
    type V = StepView;

    open spec fn view(&self) -> StepView {
        match self {
            Step::Key(key) => StepView::Key(key@),
            Step::Index(i) => StepView::Index(*i as int),
        }
    }
}

/// The contents of some steps.
pub open spec fn step_views(steps: Seq<Step>) -> Seq<StepView> {
    Seq::new(steps.len(), |i: int| steps[i]@)
}

/// The path of the member `step` of the object at `path`.
pub open spec fn member_path(path: Seq<char>, step: Seq<char>) -> Seq<char> {
    if path.len() == 0 {
        step
    } else {
        path + "."@ + step
    }
}

/// The path of the item `index` of the array at `path`.
pub open spec fn item_path(path: Seq<char>, index: int) -> Seq<char> {
    path + "["@ + decimal(index as nat) + "]"@
}

/// Path string representation of a container step.
pub fn join_path(path: &str, step: &str) -> (joined: String)
    ensures
        joined@ == member_path(path@, step@),
{
    if path.is_empty() {
        step.to_string()
    } else {
        let mut joined = path.to_string();
        joined.append(".");
        joined.append(step);
        joined
    }
}

/// Path string representation of an array step.
pub fn join_index(path: &str, idx: usize) -> (joined: String)
    ensures
        joined@ == item_path(path@, idx as int),
{
    let mut joined = path.to_string();
    joined.append("[");
    joined.append(to_decimal(idx as u64).as_str());
    joined.append("]");
    joined
}

/// The text of a path that is one step longer.
pub open spec fn one_further(path: Seq<char>, step: StepView) -> Seq<char> {
    match step {
        StepView::Key(key) => member_path(path, key),
        StepView::Index(i) => item_path(path, i),
    }
}

/// The text of a path that is some steps longer.
pub open spec fn further(path: Seq<char>, steps: Seq<StepView>) -> Seq<char>
    decreases steps.len(),
{
    if steps.len() == 0 {
        path
    } else {
        one_further(further(path, steps.drop_last()), steps.last())
    }
}

/// Writes the path that is some steps longer than `path`.
pub fn extended_path(path: &str, steps: &Vec<Step>) -> (text: String)
    ensures
        text@ == further(path@, step_views(steps@)),
{
    let ghost all = step_views(steps@);
    let mut text = path.to_string();
    let mut i: usize = 0;
    assert(all.take(0) =~= Seq::<StepView>::empty());
    while i < steps.len()
        invariant
            i <= steps@.len(),
            all == step_views(steps@),
            text@ == further(path@, all.take(i as int)),
        decreases steps@.len() - i,
    {
        text = match &steps[i] {
            Step::Key(key) => join_path(text.as_str(), key.as_str()),
            Step::Index(index) => join_index(text.as_str(), *index),
        };
        assert(all[i as int] == steps@[i as int]@);
        assert(all.take(i + 1).drop_last() =~= all.take(i as int));
        assert(all.take(i + 1).last() == all[i as int]);
        i += 1;
    }
    assert(all.take(i as int) =~= all);
    text
}

/// Where two values differ: a known path, and the steps from there on. The steps
/// are kept apart, so that a key can be told from the punctuation around it.
pub struct DivergencePath {
    pub base: String,
    pub steps: Vec<Step>,
}

/// The content of a [`DivergencePath`].
pub ghost struct PathView {
    pub base: Seq<char>,
    pub steps: Seq<StepView>,
}

impl View for DivergencePath {
    type V = PathView;

    open spec fn view(&self) -> PathView {
        PathView { base: self.base@, steps: step_views(self.steps@) }
    }
}

impl PathView {
    /// The text of the path.
    pub open spec fn text(self) -> Seq<char> {
        further(self.base, self.steps)
    }
}

/// A known path, without steps from there on.
pub open spec fn known_path(base: Seq<char>) -> PathView {
    PathView { base, steps: Seq::empty() }
}

impl DivergencePath {
    /// A known path, without steps from there on.
    pub fn known(base: String) -> (path: Self)
        ensures
            path@ == known_path(base@),
    {
        let path = DivergencePath { base, steps: Vec::new() };
        assert(path@.steps =~= Seq::<StepView>::empty());
        path
    }

    /// The text of the path.
    pub fn text(&self) -> (text: String)
        ensures
            text@ == self@.text(),
    {
        extended_path(self.base.as_str(), &self.steps)
    }
}

/// The content of a path that may be absent.
pub open spec fn opt_path(path: Option<DivergencePath>) -> Option<PathView> {
    match path {
        Some(p) => Some(p@),
        None => None,
    }
}

/// The text of a path that may be absent.
pub open spec fn opt_text(path: Option<PathView>) -> Option<Seq<char>> {
    match path {
        Some(p) => Some(p.text()),
        None => None,
    }
}

} // verus!
