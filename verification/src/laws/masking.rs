//! Which differences the ignored paths hide, and which they do not.

use vstd::prelude::*;
use crate::classify::{
    append_only, contents_path, has_conversation, request_id_only, request_id_path,
};
use crate::history::contents_of;
use crate::json::{first_at, lookup, same_json, same_opt, well_formed, JsonView, MemberView};
use crate::laws::equality::{lemma_lookup_finds, lemma_lookup_is_first, lemma_lookup_own};
use crate::masked::{ignores, lies_beneath, same_except};
use crate::path::StepView;

verus! {

/// Whether a path has left the way to a root, so that nothing beneath it can lie
/// beneath the root.
pub open spec fn has_left(path: Seq<StepView>, root: Seq<Seq<char>>) -> bool {
    exists|i: int|
        0 <= i < root.len() && i < path.len() && path[i] != StepView::Key(#[trigger] root[i])
}

/// Whether a path has left the way to each of some roots.
pub open spec fn has_left_all(path: Seq<StepView>, roots: Seq<Seq<Seq<char>>>) -> bool {
    forall|k: int| 0 <= k < roots.len() ==> has_left(path, #[trigger] roots[k])
}

/// A path that has left the way to a root stays off it.
proof fn lemma_stays_off(path: Seq<StepView>, step: StepView, roots: Seq<Seq<Seq<char>>>)
    requires
        has_left_all(path, roots),
    ensures
        has_left_all(path.push(step), roots),
        !ignores(roots, path),
{
    assert forall|k: int| 0 <= k < roots.len() implies has_left(
        path.push(step),
        #[trigger] roots[k],
    ) by {
        assert(has_left(path, roots[k]));
        let i = choose|i: int|
            0 <= i < roots[k].len() && i < path.len() && path[i] != StepView::Key(
                #[trigger] roots[k][i],
            );
        assert(path.push(step)[i] == path[i]);
        assert(path.push(step)[i] != StepView::Key(roots[k][i]));
    }
    assert forall|k: int| 0 <= k < roots.len() implies !lies_beneath(path, #[trigger] roots[k]) by {
        assert(has_left(path, roots[k]));
    }
}

/// Off the way to every ignored path nothing is ignored.
pub proof fn law_nothing_is_ignored_elsewhere(
    a: JsonView,
    b: JsonView,
    path: Seq<StepView>,
    ignored: Seq<Seq<Seq<char>>>,
)
    requires
        has_left_all(path, ignored),
    ensures
        same_except(a, b, path, ignored) == same_json(a, b),
    decreases a,
{
    lemma_stays_off(path, StepView::Index(0), ignored);
    match (a, b) {
        (JsonView::Object(x), JsonView::Object(y)) => {
            assert forall|i: int| 0 <= i < x.len() implies {
                let here = path.push(StepView::Key((#[trigger] x[i]).key));
                let found = lookup(y, x[i].key);
                &&& !ignores(ignored, here)
                &&& found is Some ==> same_except(x[i].value, found->0, here, ignored)
                    == same_json(x[i].value, found->0)
            } by {
                let here = path.push(StepView::Key(x[i].key));
                lemma_stays_off(path, StepView::Key(x[i].key), ignored);
                lemma_stays_off(here, StepView::Index(0), ignored);
                if lookup(y, x[i].key) is Some {
                    law_nothing_is_ignored_elsewhere(
                        x[i].value,
                        lookup(y, x[i].key)->0,
                        here,
                        ignored,
                    );
                }
            }
            assert forall|j: int| 0 <= j < y.len() implies !ignores(
                ignored,
                path.push(StepView::Key((#[trigger] y[j]).key)),
            ) by {
                let here = path.push(StepView::Key(y[j].key));
                lemma_stays_off(path, StepView::Key(y[j].key), ignored);
                lemma_stays_off(here, StepView::Index(0), ignored);
            }
        },
        (JsonView::Array(x), JsonView::Array(y)) => {
            assert forall|i: int| 0 <= i < x.len() && x.len() == y.len() implies same_except(
                #[trigger] x[i],
                y[i],
                path.push(StepView::Index(i)),
                ignored,
            ) == same_json(x[i], y[i]) by {
                lemma_stays_off(path, StepView::Index(i), ignored);
                law_nothing_is_ignored_elsewhere(
                    x[i],
                    y[i],
                    path.push(StepView::Index(i)),
                    ignored,
                );
            }
        },
        _ => {},
    }
}

/// With nothing to ignore, equality outside the ignored paths is equality.
pub proof fn law_without_ignored_paths(a: JsonView, b: JsonView)
    ensures
        same_except(a, b, Seq::empty(), Seq::empty()) == same_json(a, b),
{
    law_nothing_is_ignored_elsewhere(a, b, Seq::empty(), Seq::empty());
}

/// Whether two objects hold equal values under every key but one.
pub open spec fn same_but_for(x: Seq<MemberView>, y: Seq<MemberView>, hidden: Seq<char>) -> bool {
    forall|key: Seq<char>| key != hidden ==> same_opt(#[trigger] lookup(x, key), lookup(y, key))
}

/// Where of the members of two objects exactly those under one key are ignored,
/// and nothing inside the others, the objects are equal but for that key.
proof fn lemma_one_key_hidden(
    x: Seq<MemberView>,
    y: Seq<MemberView>,
    path: Seq<StepView>,
    ignored: Seq<Seq<Seq<char>>>,
    hidden: Seq<char>,
)
    requires
        well_formed(JsonView::Object(x)),
        !ignores(ignored, path),
        ignores(ignored, path.push(StepView::Key(hidden))),
        forall|key: Seq<char>|
            key != hidden ==> has_left_all(#[trigger] path.push(StepView::Key(key)), ignored),
    ensures
        same_except(JsonView::Object(x), JsonView::Object(y), path, ignored) <==> same_but_for(
            x,
            y,
            hidden,
        ),
{
    assert forall|key: Seq<char>| key != hidden implies !ignores(
        ignored,
        #[trigger] path.push(StepView::Key(key)),
    ) by {
        lemma_stays_off(path.push(StepView::Key(key)), StepView::Index(0), ignored);
    }
    assert forall|i: int| 0 <= i < x.len() && (#[trigger] x[i]).key != hidden && lookup(
        y,
        x[i].key,
    ) is Some implies same_except(
        x[i].value,
        lookup(y, x[i].key)->0,
        path.push(StepView::Key(x[i].key)),
        ignored,
    ) == same_json(x[i].value, lookup(y, x[i].key)->0) by {
        law_nothing_is_ignored_elsewhere(
            x[i].value,
            lookup(y, x[i].key)->0,
            path.push(StepView::Key(x[i].key)),
            ignored,
        );
    }
    if same_except(JsonView::Object(x), JsonView::Object(y), path, ignored) {
        assert forall|key: Seq<char>| key != hidden implies same_opt(
            #[trigger] lookup(x, key),
            lookup(y, key),
        ) by {
            assert(!ignores(ignored, path.push(StepView::Key(key))));
            if lookup(x, key) is Some {
                let i = choose|i: int| first_at(x, key, i);
                lemma_lookup_is_first(x, key, i);
                assert(x[i].key == key);
            } else if lookup(y, key) is Some {
                let j = choose|j: int| first_at(y, key, j);
                assert(y[j].key == key);
            }
        }
    }
    if same_but_for(x, y, hidden) {
        assert forall|i: int| 0 <= i < x.len() implies {
            let here = path.push(StepView::Key((#[trigger] x[i]).key));
            let found = lookup(y, x[i].key);
            ||| ignores(ignored, here)
            ||| found is Some && same_except(x[i].value, found->0, here, ignored)
        } by {
            if x[i].key != hidden {
                lemma_lookup_own(x, i);
                assert(same_opt(lookup(x, x[i].key), lookup(y, x[i].key)));
            }
        }
        assert forall|j: int| 0 <= j < y.len() implies {
            ||| ignores(ignored, path.push(StepView::Key((#[trigger] y[j]).key)))
            ||| lookup(x, y[j].key) is Some
        } by {
            if y[j].key != hidden {
                lemma_lookup_finds(y, y[j].key, j);
                assert(same_opt(lookup(x, y[j].key), lookup(y, y[j].key)));
            }
        }
    }
}

/// A difference counts as one of the volatile `requestId` only exactly when two
/// bodies agree under every other top-level key. A `requestId` anywhere else in
/// the body is not ignored.
pub proof fn law_request_id_only(x: Seq<MemberView>, y: Seq<MemberView>)
    requires
        well_formed(JsonView::Object(x)),
    ensures
        request_id_only(JsonView::Object(x), JsonView::Object(y)) <==> same_but_for(
            x,
            y,
            "requestId"@,
        ),
{
    let ignored = seq![request_id_path()];
    let root = Seq::<StepView>::empty();
    let hidden = "requestId"@;
    assert(ignored[0] == request_id_path());
    assert(request_id_path().len() == 1);
    assert(lies_beneath(root.push(StepView::Key(hidden)), ignored[0]));
    assert forall|key: Seq<char>| key != hidden implies has_left_all(
        #[trigger] root.push(StepView::Key(key)),
        ignored,
    ) by {
        let path = root.push(StepView::Key(key));
        assert(path[0] != StepView::Key(request_id_path()[0]));
        assert(has_left(path, ignored[0]));
    }
    lemma_one_key_hidden(x, y, root, ignored, hidden);
}

/// Values that are not both objects differ in more than a `requestId` where they
/// differ at all, and are no append.
pub proof fn law_only_objects_are_masked(a: JsonView, b: JsonView)
    requires
        !(a is Object && b is Object),
    ensures
        request_id_only(a, b) == same_json(a, b),
        !append_only(a, b),
{
    let root = Seq::<StepView>::empty();
    let few = seq![request_id_path()];
    let more = seq![request_id_path(), contents_path()];
    assert(few[0] == request_id_path());
    assert(more[0] == request_id_path() && more[1] == contents_path());
    assert(!ignores(few, root) && !ignores(more, root));
    match (a, b) {
        (JsonView::Array(x), JsonView::Array(y)) => {
            assert forall|i: int| 0 <= i < x.len() && x.len() == y.len() implies same_except(
                #[trigger] x[i],
                y[i],
                root.push(StepView::Index(i)),
                few,
            ) == same_json(x[i], y[i]) by {
                let here = root.push(StepView::Index(i));
                assert(here[0] != StepView::Key(request_id_path()[0]));
                assert(has_left(here, few[0]));
                law_nothing_is_ignored_elsewhere(x[i], y[i], here, few);
            }
        },
        _ => {},
    }
}

/// Whether two requests that may be absent hold the same but for their contents.
pub open spec fn same_but_for_contents(p: Option<JsonView>, c: Option<JsonView>) -> bool {
    match (p, c) {
        (Some(JsonView::Object(x)), Some(JsonView::Object(y))) => same_but_for(
            x,
            y,
            "contents"@,
        ),
        _ => same_opt(p, c),
    }
}

/// Two bodies are equal outside `requestId` and `request.contents` exactly when
/// they agree under every other top-level key, and their requests agree under
/// every key but `contents`.
proof fn lemma_outside_contents(x: Seq<MemberView>, y: Seq<MemberView>)
    requires
        well_formed(JsonView::Object(x)),
    ensures
        same_except(
            JsonView::Object(x),
            JsonView::Object(y),
            Seq::empty(),
            seq![request_id_path(), contents_path()],
        ) <==> {
            &&& forall|key: Seq<char>|
                key != "requestId"@ && key != "request"@ ==> same_opt(
                    #[trigger] lookup(x, key),
                    lookup(y, key),
                )
            &&& same_but_for_contents(lookup(x, "request"@), lookup(y, "request"@))
        },
{
    reveal_strlit("requestId");
    reveal_strlit("request");
    assert("requestId"@.len() != "request"@.len());
    let ignored = seq![request_id_path(), contents_path()];
    let root = Seq::<StepView>::empty();
    let rid = "requestId"@;
    let req = "request"@;
    let at_request = root.push(StepView::Key(req));
    assert(ignored[0] == request_id_path() && ignored[1] == contents_path());
    assert(!ignores(ignored, root));
    assert(ignores(ignored, root.push(StepView::Key(rid)))) by {
        assert(lies_beneath(root.push(StepView::Key(rid)), ignored[0]));
    }
    assert(!ignores(ignored, at_request)) by {
        assert(at_request[0] != StepView::Key(ignored[0][0]));
        assert(!lies_beneath(at_request, ignored[0]));
        assert(!lies_beneath(at_request, ignored[1]));
    }
    assert forall|key: Seq<char>| key != rid && key != req implies has_left_all(
        #[trigger] root.push(StepView::Key(key)),
        ignored,
    ) && !ignores(ignored, root.push(StepView::Key(key))) by {
        let path = root.push(StepView::Key(key));
        assert(path[0] != StepView::Key(ignored[0][0]));
        assert(path[0] != StepView::Key(ignored[1][0]));
        assert(has_left(path, ignored[0]) && has_left(path, ignored[1]));
        lemma_stays_off(path, StepView::Index(0), ignored);
    }
    // Inside the request only the contents are ignored.
    assert forall|v: JsonView, w: JsonView| well_formed(v) implies #[trigger] same_except(
        v,
        w,
        at_request,
        ignored,
    ) == same_but_for_contents(Some(v), Some(w)) by {
        lemma_inside_request(v, w);
    }
    let same = same_except(JsonView::Object(x), JsonView::Object(y), root, ignored);
    let agree = forall|key: Seq<char>|
        key != rid && key != req ==> same_opt(#[trigger] lookup(x, key), lookup(y, key));
    let requests = same_but_for_contents(lookup(x, req), lookup(y, req));
    assert forall|i: int| 0 <= i < x.len() && (#[trigger] x[i]).key != rid && x[i].key != req
        && lookup(y, x[i].key) is Some implies same_except(
        x[i].value,
        lookup(y, x[i].key)->0,
        root.push(StepView::Key(x[i].key)),
        ignored,
    ) == same_json(x[i].value, lookup(y, x[i].key)->0) by {
        law_nothing_is_ignored_elsewhere(
            x[i].value,
            lookup(y, x[i].key)->0,
            root.push(StepView::Key(x[i].key)),
            ignored,
        );
    }
    if same {
        assert forall|key: Seq<char>| key != rid && key != req implies same_opt(
            #[trigger] lookup(x, key),
            lookup(y, key),
        ) by {
            assert(!ignores(ignored, root.push(StepView::Key(key))));
            if lookup(x, key) is Some {
                let i = choose|i: int| first_at(x, key, i);
                lemma_lookup_is_first(x, key, i);
                assert(x[i].key == key);
            } else if lookup(y, key) is Some {
                let j = choose|j: int| first_at(y, key, j);
                assert(y[j].key == key);
            }
        }
        if lookup(x, req) is Some {
            let i = choose|i: int| first_at(x, req, i);
            lemma_lookup_is_first(x, req, i);
            assert(x[i].key == req);
            assert(well_formed(x[i].value));
            assert(lookup(y, req) is Some);
            assert(same_except(x[i].value, lookup(y, req)->0, at_request, ignored));
        } else if lookup(y, req) is Some {
            let j = choose|j: int| first_at(y, req, j);
            assert(y[j].key == req);
        }
        assert(requests);
    }
    if agree && requests {
        assert forall|i: int| 0 <= i < x.len() implies {
            let here = root.push(StepView::Key((#[trigger] x[i]).key));
            let found = lookup(y, x[i].key);
            ||| ignores(ignored, here)
            ||| found is Some && same_except(x[i].value, found->0, here, ignored)
        } by {
            lemma_lookup_own(x, i);
            if x[i].key != rid && x[i].key != req {
                assert(same_opt(lookup(x, x[i].key), lookup(y, x[i].key)));
            }
        }
        assert forall|j: int| 0 <= j < y.len() implies {
            ||| ignores(ignored, root.push(StepView::Key((#[trigger] y[j]).key)))
            ||| lookup(x, y[j].key) is Some
        } by {
            lemma_lookup_finds(y, y[j].key, j);
            if y[j].key != rid && y[j].key != req {
                assert(same_opt(lookup(x, y[j].key), lookup(y, y[j].key)));
            }
        }
        assert(same);
    }
}

/// Two requests are equal outside `request.contents` exactly when they agree
/// under every key but `contents`.
proof fn lemma_inside_request(v: JsonView, w: JsonView)
    requires
        well_formed(v),
    ensures
        same_except(
            v,
            w,
            Seq::empty().push(StepView::Key("request"@)),
            seq![request_id_path(), contents_path()],
        ) == same_but_for_contents(Some(v), Some(w)),
{
    reveal_strlit("requestId");
    reveal_strlit("request");
    assert("requestId"@.len() != "request"@.len());
    let ignored = seq![request_id_path(), contents_path()];
    let path = Seq::<StepView>::empty().push(StepView::Key("request"@));
    let hidden = "contents"@;
    assert(ignored[0] == request_id_path() && ignored[1] == contents_path());
    assert(!ignores(ignored, path)) by {
        assert(path[0] != StepView::Key(ignored[0][0]));
        assert(!lies_beneath(path, ignored[0]));
        assert(!lies_beneath(path, ignored[1]));
    }
    assert forall|step: StepView| step != StepView::Key(hidden) implies has_left_all(
        #[trigger] path.push(step),
        ignored,
    ) by {
        let here = path.push(step);
        assert(here[0] != StepView::Key(ignored[0][0]));
        assert(has_left(here, ignored[0]));
        assert(here[1] != StepView::Key(ignored[1][1]));
        assert(has_left(here, ignored[1]));
    }
    match (v, w) {
        (JsonView::Object(x), JsonView::Object(y)) => {
            assert(ignores(ignored, path.push(StepView::Key(hidden)))) by {
                let here = path.push(StepView::Key(hidden));
                assert(lies_beneath(here, ignored[1]));
            }
            lemma_one_key_hidden(x, y, path, ignored, hidden);
        },
        (JsonView::Array(x), JsonView::Array(y)) => {
            assert forall|i: int| 0 <= i < x.len() && x.len() == y.len() implies same_except(
                #[trigger] x[i],
                y[i],
                path.push(StepView::Index(i)),
                ignored,
            ) == same_json(x[i], y[i]) by {
                assert(has_left_all(path.push(StepView::Index(i)), ignored));
                law_nothing_is_ignored_elsewhere(
                    x[i],
                    y[i],
                    path.push(StepView::Index(i)),
                    ignored,
                );
            }
        },
        _ => {},
    }
}

/// A difference counts as a pure trailing append exactly when the previous
/// contents, a list or none, are a proper prefix of the current ones, the requests agree under
/// every other key, and the bodies agree under every top-level key but the
/// request and the volatile `requestId`.
pub proof fn law_append_only(x: Seq<MemberView>, y: Seq<MemberView>)
    requires
        well_formed(JsonView::Object(x)),
    ensures
        append_only(JsonView::Object(x), JsonView::Object(y)) <==> {
            let p = contents_of(JsonView::Object(x));
            let c = contents_of(JsonView::Object(y));
            &&& has_conversation(JsonView::Object(x))
            &&& p.len() < c.len()
            &&& forall|i: int| 0 <= i < p.len() ==> same_json(#[trigger] p[i], c[i])
            &&& forall|key: Seq<char>|
                key != "requestId"@ && key != "request"@ ==> same_opt(
                    #[trigger] lookup(x, key),
                    lookup(y, key),
                )
            &&& same_but_for_contents(lookup(x, "request"@), lookup(y, "request"@))
        },
{
    lemma_outside_contents(x, y);
}

/// A path is ignored exactly when the keys of some ignored path are the steps that it
/// starts with.
pub proof fn law_ignored_paths(ignored: Seq<Seq<Seq<char>>>, path: Seq<StepView>)
    ensures
        ignores(ignored, path) <==> exists|k: int|
            0 <= k < ignored.len() && (#[trigger] ignored[k]).len() <= path.len() && path.take(
                ignored[k].len() as int,
            ) == Seq::new(ignored[k].len(), |i: int| StepView::Key(ignored[k][i])),
{
    if ignores(ignored, path) {
        let k = choose|k: int| 0 <= k < ignored.len() && lies_beneath(path, #[trigger] ignored[k]);
        assert(path.take(ignored[k].len() as int) =~= Seq::new(
            ignored[k].len(),
            |i: int| StepView::Key(ignored[k][i]),
        ));
    }
    if exists|k: int|
        0 <= k < ignored.len() && (#[trigger] ignored[k]).len() <= path.len() && path.take(
            ignored[k].len() as int,
        ) == Seq::new(ignored[k].len(), |i: int| StepView::Key(ignored[k][i])) {
        let k = choose|k: int|
            0 <= k < ignored.len() && (#[trigger] ignored[k]).len() <= path.len() && path.take(
                ignored[k].len() as int,
            ) == Seq::new(ignored[k].len(), |i: int| StepView::Key(ignored[k][i]));
        assert forall|i: int| 0 <= i < ignored[k].len() implies path[i] == StepView::Key(
            #[trigger] ignored[k][i],
        ) by {
            assert(path.take(ignored[k].len() as int)[i] == path[i]);
        }
        assert(lies_beneath(path, ignored[k]));
    }
}

/// Two values at a path are equal outside the ignored paths when the path is ignored;
/// when they are objects and under every key whose path is not ignored hold values
/// that are, or both none; when they are arrays of one length whose items are; and
/// else when they are equal.
pub proof fn law_equality_outside_ignored_paths(
    a: JsonView,
    b: JsonView,
    path: Seq<StepView>,
    ignored: Seq<Seq<Seq<char>>>,
)
    requires
        well_formed(a),
    ensures
        same_except(a, b, path, ignored) <==> ignores(ignored, path) || match (a, b) {
            (JsonView::Object(x), JsonView::Object(y)) => forall|key: Seq<char>|
                {
                    let here = path.push(StepView::Key(key));
                    let v = #[trigger] lookup(x, key);
                    let w = lookup(y, key);
                    ||| ignores(ignored, here)
                    ||| v is None && w is None
                    ||| v is Some && w is Some && same_except(v->0, w->0, here, ignored)
                },
            (JsonView::Array(x), JsonView::Array(y)) => x.len() == y.len() && forall|i: int|
                0 <= i < x.len() ==> same_except(
                    #[trigger] x[i],
                    y[i],
                    path.push(StepView::Index(i)),
                    ignored,
                ),
            _ => same_json(a, b),
        },
{
    if let (JsonView::Object(x), JsonView::Object(y)) = (a, b) {
        if !ignores(ignored, path) && same_except(a, b, path, ignored) {
            assert forall|key: Seq<char>|
                {
                    let here = path.push(StepView::Key(key));
                    let v = #[trigger] lookup(x, key);
                    let w = lookup(y, key);
                    ||| ignores(ignored, here)
                    ||| v is None && w is None
                    ||| v is Some && w is Some && same_except(v->0, w->0, here, ignored)
                } by {
                if lookup(x, key) is Some {
                    let i = choose|i: int| first_at(x, key, i);
                    lemma_lookup_is_first(x, key, i);
                    assert(x[i].key == key);
                } else if lookup(y, key) is Some {
                    let j = choose|j: int| first_at(y, key, j);
                    assert(y[j].key == key);
                }
            }
        }
        if forall|key: Seq<char>|
            {
                let here = path.push(StepView::Key(key));
                let v = #[trigger] lookup(x, key);
                let w = lookup(y, key);
                ||| ignores(ignored, here)
                ||| v is None && w is None
                ||| v is Some && w is Some && same_except(v->0, w->0, here, ignored)
            } {
            assert forall|i: int| 0 <= i < x.len() implies {
                let here = path.push(StepView::Key((#[trigger] x[i]).key));
                let found = lookup(y, x[i].key);
                ||| ignores(ignored, here)
                ||| found is Some && same_except(x[i].value, found->0, here, ignored)
            } by {
                lemma_lookup_own(x, i);
            }
            assert forall|j: int| 0 <= j < y.len() implies {
                ||| ignores(ignored, path.push(StepView::Key((#[trigger] y[j]).key)))
                ||| lookup(x, y[j].key) is Some
            } by {
                lemma_lookup_finds(y, y[j].key, j);
                assert(lookup(x, y[j].key) is Some || lookup(x, y[j].key) is None);
            }
        }
    }
}

} // verus!
