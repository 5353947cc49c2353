//! JSON values and what they mean: member lookup and equality.

use vstd::prelude::*;
use crate::text::str_eq;

verus! {

/// A JSON value. Objects keep their members in the order in which they were
/// written; numbers are kept as their canonical text.
pub enum Json {
    Null,
    Bool(bool),
    Number(String),
    Text(String),
    Array(Vec<Json>),
    Object(Vec<Member>),
}

/// One member of a JSON object.
pub struct Member {
    pub key: String,
    pub value: Json,
}

/// The mathematical content of a [`Json`] value.
pub ghost enum JsonView {
    Null,
    Bool(bool),
    Number(Seq<char>),
    Text(Seq<char>),
    Array(Seq<JsonView>),
    Object(Seq<MemberView>),
}

/// The mathematical content of a [`Member`].
pub ghost struct MemberView {
    pub key: Seq<char>,
    pub value: JsonView,
}

/// The content of `json`.
pub open spec fn json_view(json: Json) -> JsonView
    decreases json,
{
    match json {
        Json::Null => JsonView::Null,
        Json::Bool(b) => JsonView::Bool(b),
        Json::Number(n) => JsonView::Number(n@),
        Json::Text(s) => JsonView::Text(s@),
        Json::Array(items) => JsonView::Array(
            Seq::new(
                items@.len(),
                |i: int|
                    if 0 <= i < items@.len() {
                        json_view(items@[i])
                    } else {
                        JsonView::Null
                    },
            ),
        ),
        Json::Object(members) => JsonView::Object(
            Seq::new(
                members@.len(),
                |i: int|
                    if 0 <= i < members@.len() {
                        MemberView { key: members@[i].key@, value: json_view(members@[i].value) }
                    } else {
                        MemberView { key: Seq::empty(), value: JsonView::Null }
                    },
            ),
        ),
    }
}

impl View for Json {
    type V = JsonView;

    open spec fn view(&self) -> JsonView {
        json_view(*self)
    }
}

impl View for Member {
    type V = MemberView;

    open spec fn view(&self) -> MemberView {
        MemberView { key: self.key@, value: self.value@ }
    }
}

/// Whether `i` is the index of the first member under `key`.
pub open spec fn first_at(members: Seq<MemberView>, key: Seq<char>, i: int) -> bool {
    &&& 0 <= i < members.len()
    &&& members[i].key == key
    &&& forall|j: int| 0 <= j < i ==> (#[trigger] members[j]).key != key
}

/// The value of the first member under `key`.
pub open spec fn lookup(members: Seq<MemberView>, key: Seq<char>) -> Option<JsonView> {
    if exists|i: int| first_at(members, key, i) {
        Some(members[choose|i: int| first_at(members, key, i)].value)
    } else {
        None
    }
}

impl JsonView {
    /// The value under `key`, where this is an object that has the key.
    pub open spec fn get(self, key: Seq<char>) -> Option<JsonView> {
        match self {
            JsonView::Object(members) => lookup(members, key),
            _ => None,
        }
    }

    /// The characters, where this is a string.
    pub open spec fn as_text(self) -> Option<Seq<char>> {
        match self {
            JsonView::Text(s) => Some(s),
            _ => None,
        }
    }

    /// The items, where this is an array.
    pub open spec fn as_array(self) -> Option<Seq<JsonView>> {
        match self {
            JsonView::Array(items) => Some(items),
            _ => None,
        }
    }

    /// Whether this is the value `true`.
    pub open spec fn is_true(self) -> bool {
        self == JsonView::Bool(true)
    }
}

/// A value in which no object has the same key twice.
pub open spec fn well_formed(value: JsonView) -> bool
    decreases value,
{
    match value {
        JsonView::Array(items) => forall|i: int|
            0 <= i < items.len() ==> well_formed(#[trigger] items[i]),
        JsonView::Object(members) => {
            &&& forall|i: int|
                0 <= i < members.len() ==> well_formed((#[trigger] members[i]).value)
            &&& forall|i: int, j: int|
                0 <= i < j < members.len() ==> (#[trigger] members[i]).key != (
                #[trigger] members[j]).key
        },
        _ => true,
    }
}

/// The value under `key` of a value that may be absent.
pub open spec fn get_opt(value: Option<JsonView>, key: Seq<char>) -> Option<JsonView> {
    match value {
        Some(v) => v.get(key),
        None => None,
    }
}

/// The content of a value that may be absent.
pub open spec fn opt_view(value: Option<&Json>) -> Option<JsonView> {
    match value {
        Some(v) => Some(v@),
        None => None,
    }
}

/// The contents of the items of a list.
pub open spec fn views(items: Seq<Json>) -> Seq<JsonView> {
    Seq::new(items.len(), |i: int| items[i]@)
}

/// The contents of the members of an object.
pub open spec fn member_views(members: Seq<Member>) -> Seq<MemberView> {
    Seq::new(members.len(), |i: int| members[i]@)
}

/// The content of an array is the list of its items' contents.
pub proof fn lemma_array_view(json: Json)
    ensures
        json matches Json::Array(items) ==> json@ == JsonView::Array(views(items@)),
        json matches Json::Object(members) ==> json@ == JsonView::Object(member_views(members@)),
{
    match json {
        Json::Array(items) => {
            assert(json@->Array_0 =~= views(items@));
        },
        Json::Object(members) => {
            assert(json@->Object_0 =~= member_views(members@));
        },
        _ => {},
    }
}

/// The value of the first member under `key`.
pub fn find_member<'a>(members: &'a Vec<Member>, key: &str) -> (found: Option<&'a Json>)
    ensures
        opt_view(found) == lookup(member_views(members@), key@),
{
    let ghost all = member_views(members@);
    let mut i: usize = 0;
    while i < members.len()
        invariant
            i <= members@.len(),
            all == member_views(members@),
            forall|j: int| 0 <= j < i ==> (#[trigger] all[j]).key != key@,
        decreases members@.len() - i,
    {
        assert(all[i as int] == members@[i as int]@);
        if str_eq(members[i].key.as_str(), key) {
            assert(first_at(all, key@, i as int));
            return Some(&members[i].value);
        }
        i += 1;
    }
    assert(forall|j: int| !first_at(all, key@, j));
    None
}

impl Json {
    /// The value under `key`, where this is an object that has the key.
    pub fn get(&self, key: &str) -> (found: Option<&Json>)
        ensures
            opt_view(found) == self@.get(key@),
    {
        proof {
            lemma_array_view(*self);
        }
        match self {
            Json::Object(members) => find_member(members, key),
            _ => None,
        }
    }

    /// The text, where this is a string.
    pub fn as_str(&self) -> (text: Option<&str>)
        ensures
            match text {
                Some(s) => self@.as_text() == Some(s@),
                None => self@.as_text() is None,
            },
    {
        match self {
            Json::Text(s) => Some(s.as_str()),
            _ => None,
        }
    }

    /// The items, where this is an array.
    pub fn as_array(&self) -> (items: Option<&Vec<Json>>)
        ensures
            match items {
                Some(v) => self@.as_array() == Some(views(v@)),
                None => self@.as_array() is None,
            },
    {
        proof {
            lemma_array_view(*self);
        }
        match self {
            Json::Array(v) => Some(v),
            _ => None,
        }
    }

    /// Whether this is the value `true`.
    pub fn is_true(&self) -> (r: bool)
        ensures
            r == self@.is_true(),
    {
        match self {
            Json::Bool(b) => *b,
            _ => false,
        }
    }
}

/// The value under `key` of a value that may be absent.
pub fn get_from<'a>(value: Option<&'a Json>, key: &str) -> (found: Option<&'a Json>)
    ensures
        opt_view(found) == get_opt(opt_view(value), key@),
{
    match value {
        Some(v) => v.get(key),
        None => None,
    }
}

/// The canonical text of a number's value: the two texts of zero as a fraction
/// denote the same number.
pub open spec fn number_value(text: Seq<char>) -> Seq<char> {
    if text == "-0.0"@ {
        "0.0"@
    } else {
        text
    }
}

/// Structural equality. The order of an object's members does not matter.
pub open spec fn same_json(a: JsonView, b: JsonView) -> bool
    decreases a,
{
    match (a, b) {
        (JsonView::Number(x), JsonView::Number(y)) => number_value(x) == number_value(y),
        (JsonView::Array(x), JsonView::Array(y)) => {
            &&& x.len() == y.len()
            &&& forall|i: int| 0 <= i < x.len() ==> same_json(#[trigger] x[i], y[i])
        },
        (JsonView::Object(x), JsonView::Object(y)) => {
            &&& forall|i: int|
                0 <= i < x.len() ==> {
                    let found = lookup(y, (#[trigger] x[i]).key);
                    found is Some && same_json(x[i].value, found->0)
                }
            &&& forall|j: int| 0 <= j < y.len() ==> lookup(x, (#[trigger] y[j]).key) is Some
        },
        _ => a == b,
    }
}

/// Equality of values that may be absent.
pub open spec fn same_opt(a: Option<JsonView>, b: Option<JsonView>) -> bool {
    match (a, b) {
        (Some(x), Some(y)) => same_json(x, y),
        (None, None) => true,
        _ => false,
    }
}

/// Whether two number texts denote the same number.
fn number_equal(a: &str, b: &str) -> (r: bool)
    ensures
        r == (number_value(a@) == number_value(b@)),
{
    let x = if str_eq(a, "-0.0") {
        "0.0"
    } else {
        a
    };
    let y = if str_eq(b, "-0.0") {
        "0.0"
    } else {
        b
    };
    str_eq(x, y)
}

/// Whether two values are structurally equal.
pub fn json_equal(a: &Json, b: &Json) -> (r: bool)
    ensures
        r == same_json(a@, b@),
    decreases *a,
{
    proof {
        lemma_array_view(*a);
        lemma_array_view(*b);
    }
    match (a, b) {
        (Json::Null, Json::Null) => true,
        (Json::Bool(x), Json::Bool(y)) => *x == *y,
        (Json::Number(x), Json::Number(y)) => number_equal(x.as_str(), y.as_str()),
        (Json::Text(x), Json::Text(y)) => str_eq(x.as_str(), y.as_str()),
        (Json::Array(x), Json::Array(y)) => {
            if x.len() != y.len() {
                return false;
            }
            let ghost xs = views(x@);
            let ghost ys = views(y@);
            let mut i: usize = 0;
            while i < x.len()
                invariant
                    i <= x@.len(),
                    x@.len() == y@.len(),
                    *a == Json::Array(*x),
                    a@ == JsonView::Array(xs),
                    b@ == JsonView::Array(ys),
                    xs == views(x@),
                    ys == views(y@),
                    forall|k: int| 0 <= k < i ==> same_json(#[trigger] xs[k], ys[k]),
                decreases x@.len() - i,
            {
                assert(xs[i as int] == x@[i as int]@);
                assert(ys[i as int] == y@[i as int]@);
                if !json_equal(&x[i], &y[i]) {
                    return false;
                }
                i += 1;
            }
            true
        },
        (Json::Object(x), Json::Object(y)) => {
            let ghost xs = member_views(x@);
            let ghost ys = member_views(y@);
            let mut i: usize = 0;
            while i < x.len()
                invariant
                    i <= x@.len(),
                    *a == Json::Object(*x),
                    a@ == JsonView::Object(xs),
                    b@ == JsonView::Object(ys),
                    xs == member_views(x@),
                    ys == member_views(y@),
                    forall|k: int|
                        0 <= k < i ==> {
                            let found = lookup(ys, (#[trigger] xs[k]).key);
                            found is Some && same_json(xs[k].value, found->0)
                        },
                decreases x@.len() - i,
            {
                assert(xs[i as int] == x@[i as int]@);
                match find_member(y, x[i].key.as_str()) {
                    Some(v) => {
                        if !json_equal(&x[i].value, v) {
                            return false;
                        }
                    },
                    None => {
                        return false;
                    },
                }
                i += 1;
            }
            let mut j: usize = 0;
            while j < y.len()
                invariant
                    j <= y@.len(),
                    a@ == JsonView::Object(xs),
                    b@ == JsonView::Object(ys),
                    xs == member_views(x@),
                    ys == member_views(y@),
                    forall|k: int| 0 <= k < j ==> lookup(xs, (#[trigger] ys[k]).key) is Some,
                decreases y@.len() - j,
            {
                assert(ys[j as int] == y@[j as int]@);
                if find_member(x, y[j].key.as_str()).is_none() {
                    return false;
                }
                j += 1;
            }
            true
        },
        _ => false,
    }
}

/// Whether two values that may be absent are equal.
pub fn opt_equal(a: Option<&Json>, b: Option<&Json>) -> (r: bool)
    ensures
        r == same_opt(opt_view(a), opt_view(b)),
{
    match (a, b) {
        (Some(x), Some(y)) => json_equal(x, y),
        (None, None) => true,
        _ => false,
    }
}

} // verus!
