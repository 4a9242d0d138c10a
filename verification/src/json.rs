//! A model of JSON values as the response body parser produces them, and
//! the JSON path lookups and comparisons made on them.

use vstd::prelude::*;

use crate::path::{
    lemma_key_index_path, lemma_path_dot_concat, parse_path_segments, path_segments, segment_views,
    PathSegment, SegmentView,
};

verus! {

/// `serde_json::Value`, carried through the library without being looked into.
#[verifier::external_type_specification]
#[verifier::external_body]
pub struct ExJsonValue(serde_json::Value);

/// The description `serde_json` gives (its error's `Display` text) of why
/// `text` is not one JSON value, or `None` when it is one. It depends on
/// the text alone.
pub uninterp spec fn json_parse_error(text: Seq<char>) -> Option<Seq<char>>;

/// The value `serde_json::from_str::<serde_json::Value>` makes of `text`
/// when it succeeds. It depends on the text alone.
pub uninterp spec fn parsed_json(text: Seq<char>) -> serde_json::Value;

/// Calls `serde_json::from_str::<serde_json::Value>` and renders a failure
/// with its `Display` text. Success and the failure text are those named by
/// `json_parse_error`; the parsed value is the one named by `parsed_json`.
#[verifier::external_body]
pub(crate) fn parse_json_text(text: &str) -> (r: Result<serde_json::Value, String>)
    ensures
        match r {
            Ok(v) => json_parse_error(text@) is None && v == parsed_json(text@),
            Err(m) => json_parse_error(text@) == Some(m@),
        },
{
    serde_json::from_str::<serde_json::Value>(text).map_err(|e| e.to_string())
}

/// The compact JSON text that `<serde_json::Value as Display>` writes for
/// `value`. It depends on the value alone.
pub uninterp spec fn json_text(value: serde_json::Value) -> Seq<char>;

/// Calls `<serde_json::Value as ToString>::to_string`, which writes the
/// value as compact JSON text, the text named by `json_text`.
#[verifier::external_body]
pub(crate) fn json_to_text(value: &serde_json::Value) -> (r: String)
    ensures
        r@ == json_text(*value),
{
    value.to_string()
}

/// The library's model of a `serde_json::Value`, as `model_of` builds it:
/// variant by variant, numbers as the text their `Display` writes, object
/// members in the order the value's map iterates them.
pub uninterp spec fn json_model(value: serde_json::Value) -> JsonValue;

/// Converts a `serde_json::Value` into the library's model, variant by
/// variant; numbers go through `<serde_json::Number as Display>`. The
/// contract names the result `json_model` and claims nothing more of it.
#[verifier::external_body]
pub(crate) fn model_of(value: &serde_json::Value) -> (r: JsonValue)
    ensures
        r == json_model(*value),
{
    match value {
        serde_json::Value::Null => JsonValue::Null,
        serde_json::Value::Bool(b) => JsonValue::Bool(*b),
        serde_json::Value::Number(n) => JsonValue::Number(n.to_string()),
        serde_json::Value::String(s) => JsonValue::Str(s.clone()),
        serde_json::Value::Array(a) => JsonValue::Array(a.iter().map(model_of).collect()),
        serde_json::Value::Object(o) => JsonValue::Object(
            o.iter().map(|(k, v)| (k.clone(), model_of(v))).collect(),
        ),
    }
}

/// What `serde_json::Value::get` gives for one path step: a key looks up
/// an object member, an index an array element. It depends on its
/// arguments alone.
pub uninterp spec fn json_get(value: serde_json::Value, segment: SegmentView) -> Option<serde_json::Value>;

/// Calls `serde_json::Value::get` with the segment's key (as `&str`) or
/// index (as `usize`). The result is the one named by `json_get`, and its
/// model is what the same step finds in the model of `value`: `get` finds
/// an object member by key (object keys are unique) and an array element
/// by index, and nothing in any other kind of value.
#[verifier::external_body]
pub(crate) fn value_get<'a>(value: &'a serde_json::Value, segment: &PathSegment) -> (r: Option<&'a serde_json::Value>)
    ensures
        match r {
            Some(c) => json_get(*value, segment@) == Some(*c) && step(json_model(*value), segment@)
                == Some(json_model(*c)),
            None => json_get(*value, segment@) is None && step(json_model(*value), segment@) is None,
        },
{
    match segment {
        PathSegment::Key(k) => value.get(k.as_str()),
        PathSegment::Index(i) => value.get(*i),
    }
}

/// The `serde_json::Value` reached from `value` by taking the steps in
/// order with `Value::get`.
pub open spec fn follow_json(value: serde_json::Value, steps: Seq<SegmentView>) -> Option<serde_json::Value>
    decreases steps.len(),
{
    if steps.len() == 0 {
        Some(value)
    } else {
        match json_get(value, steps[0]) {
            Some(c) => follow_json(c, steps.drop_first()),
            None => None,
        }
    }
}

/// The `serde_json::Value` reached from `value` by taking `steps` in
/// order; its model is what the same steps reach in the model of `value`.
pub fn follow_value<'a>(value: &'a serde_json::Value, steps: &Vec<PathSegment>) -> (r: Option<&'a serde_json::Value>)
    ensures
        match r {
            Some(x) => follow_json(*value, segment_views(steps@)) == Some(*x) && follow(
                json_model(*value),
                segment_views(steps@),
            ) == Some(json_model(*x)),
            None => follow_json(*value, segment_views(steps@)) is None && follow(
                json_model(*value),
                segment_views(steps@),
            ) is None,
        },
{
    let ghost views = segment_views(steps@);
    let mut current = value;
    let mut i: usize = 0;
    assert(views.skip(0) =~= views);
    while i < steps.len()
        invariant
            i <= steps@.len(),
            views == segment_views(steps@),
            follow_json(*value, views) == follow_json(*current, views.skip(i as int)),
            follow(json_model(*value), views) == follow(json_model(*current), views.skip(i as int)),
        decreases steps.len() - i,
    {
        assert(views.skip(i as int)[0] == steps@[i as int]@);
        assert(views.skip(i as int).drop_first() =~= views.skip(i + 1));
        match value_get(current, &steps[i]) {
            Some(c) => {
                current = c;
            },
            None => {
                return None;
            },
        }
        i += 1;
    }
    assert(views.skip(i as int) =~= Seq::<SegmentView>::empty());
    Some(current)
}

/// A JSON value. Numbers keep the text the JSON parser renders them as
/// (`42`, `-3`, `2.5`); object members keep the order in which the parser
/// hands them over (`serde_json` keeps them sorted by key, without
/// repeated keys).
#[derive(Debug, PartialEq)]
pub enum JsonValue {
    Null,
    Bool(bool),
    Number(String),
    Str(String),
    Array(Vec<JsonValue>),
    Object(Vec<(String, JsonValue)>),
}

/// The value of the first member of `entries` whose key is `key`.
pub open spec fn member(entries: Seq<(String, JsonValue)>, key: Seq<char>) -> Option<JsonValue>
    decreases entries.len(),
{
    if entries.len() == 0 {
        None
    } else if entries[0].0@ == key {
        Some(entries[0].1)
    } else {
        member(entries.drop_first(), key)
    }
}

/// One lookup, as `Value::get` does it: a key selects an object member, an
/// index selects an array element; anything else finds nothing.
pub open spec fn step(v: JsonValue, s: SegmentView) -> Option<JsonValue> {
    match s {
        SegmentView::Key(k) => match v {
            JsonValue::Object(entries) => member(entries@, k),
            _ => None,
        },
        SegmentView::Index(i) => match v {
            JsonValue::Array(items) => if i < items@.len() {
                Some(items@[i as int])
            } else {
                None
            },
            _ => None,
        },
    }
}

/// The value reached from `v` by taking the steps in order.
pub open spec fn follow(v: JsonValue, steps: Seq<SegmentView>) -> Option<JsonValue>
    decreases steps.len(),
{
    if steps.len() == 0 {
        Some(v)
    } else {
        match step(v, steps[0]) {
            Some(c) => follow(c, steps.drop_first()),
            None => None,
        }
    }
}

/// The value that the path expression `path` designates in `v`.
pub open spec fn resolve(v: JsonValue, path: Seq<char>) -> Option<JsonValue> {
    match path_segments(path) {
        Some(steps) => follow(v, steps),
        None => None,
    }
}

/// Whether `t` is how a floating-point zero is written: `0.0` or `-0.0`.
pub open spec fn is_float_zero(t: Seq<char>) -> bool {
    t == "0.0"@ || t == "-0.0"@
}

/// Whether two number texts stand for equal numbers. Parsed numbers are
/// written in one way per value, except that the float zero has two signs,
/// which compare equal.
pub open spec fn number_same(x: Seq<char>, y: Seq<char>) -> bool {
    x == y || (is_float_zero(x) && is_float_zero(y))
}

/// Whether two JSON values are equal: same kind, same scalar (numbers by
/// `number_same`), arrays element by element, objects member by member in
/// order (for objects whose members are sorted by key, as parsed ones are,
/// this is equality of the key/value maps).
pub open spec fn json_same(a: JsonValue, b: JsonValue) -> bool
    decreases a,
{
    match (a, b) {
        (JsonValue::Null, JsonValue::Null) => true,
        (JsonValue::Bool(x), JsonValue::Bool(y)) => x == y,
        (JsonValue::Number(x), JsonValue::Number(y)) => number_same(x@, y@),
        (JsonValue::Str(x), JsonValue::Str(y)) => x@ == y@,
        (JsonValue::Array(xs), JsonValue::Array(ys)) => items_same(xs@, ys@),
        (JsonValue::Object(xs), JsonValue::Object(ys)) => members_same(xs@, ys@),
        _ => false,
    }
}

/// Element-wise equality of two arrays.
pub open spec fn items_same(xs: Seq<JsonValue>, ys: Seq<JsonValue>) -> bool
    decreases xs,
{
    if xs.len() == 0 {
        ys.len() == 0
    } else {
        ys.len() > 0 && json_same(xs[0], ys[0]) && items_same(xs.drop_first(), ys.drop_first())
    }
}

/// Member-wise equality of two objects: same keys and equal values, in order.
pub open spec fn members_same(xs: Seq<(String, JsonValue)>, ys: Seq<(String, JsonValue)>) -> bool
    decreases xs,
{
    if xs.len() == 0 {
        ys.len() == 0
    } else {
        ys.len() > 0 && xs[0].0@ == ys[0].0@ && json_same(xs[0].1, ys[0].1) && members_same(
            xs.drop_first(),
            ys.drop_first(),
        )
    }
}

/// `items_same` holds exactly for arrays of equal length whose elements are
/// pairwise `json_same`.
pub proof fn lemma_items_same(xs: Seq<JsonValue>, ys: Seq<JsonValue>)
    ensures
        items_same(xs, ys) <==> (xs.len() == ys.len() && forall|i: int|
            0 <= i < xs.len() ==> json_same(#[trigger] xs[i], ys[i])),
    decreases xs.len(),
{
    if xs.len() > 0 && ys.len() > 0 {
        lemma_items_same(xs.drop_first(), ys.drop_first());
        if xs.len() == ys.len() && forall|i: int|
            0 <= i < xs.len() ==> json_same(#[trigger] xs[i], ys[i]) {
            assert forall|i: int| 0 <= i < xs.drop_first().len() implies json_same(
                #[trigger] xs.drop_first()[i],
                ys.drop_first()[i],
            ) by {
                assert(json_same(xs[i + 1], ys[i + 1]));
            }
            assert(json_same(xs[0], ys[0]));
        }
        if items_same(xs, ys) {
            assert forall|i: int| 0 <= i < xs.len() implies json_same(#[trigger] xs[i], ys[i]) by {
                if i > 0 {
                    assert(json_same(xs.drop_first()[i - 1], ys.drop_first()[i - 1]));
                }
            }
        }
    }
}

/// `members_same` holds exactly for objects of equal length whose members
/// pairwise have the same key and `json_same` values.
pub proof fn lemma_members_same(xs: Seq<(String, JsonValue)>, ys: Seq<(String, JsonValue)>)
    ensures
        members_same(xs, ys) <==> (xs.len() == ys.len() && forall|i: int|
            0 <= i < xs.len() ==> (#[trigger] xs[i]).0@ == ys[i].0@ && json_same(xs[i].1, ys[i].1)),
    decreases xs.len(),
{
    if xs.len() > 0 && ys.len() > 0 {
        lemma_members_same(xs.drop_first(), ys.drop_first());
        if xs.len() == ys.len() && forall|i: int|
            0 <= i < xs.len() ==> (#[trigger] xs[i]).0@ == ys[i].0@ && json_same(xs[i].1, ys[i].1) {
            assert forall|i: int| 0 <= i < xs.drop_first().len() implies (
            #[trigger] xs.drop_first()[i]).0@ == ys.drop_first()[i].0@ && json_same(
                xs.drop_first()[i].1,
                ys.drop_first()[i].1,
            ) by {
                assert(xs[i + 1].0@ == ys[i + 1].0@);
            }
            assert(xs[0].0@ == ys[0].0@);
        }
        if members_same(xs, ys) {
            assert forall|i: int| 0 <= i < xs.len() implies (#[trigger] xs[i]).0@ == ys[i].0@
                && json_same(xs[i].1, ys[i].1) by {
                if i > 0 {
                    assert(xs.drop_first()[i - 1].0@ == ys.drop_first()[i - 1].0@);
                }
            }
        }
    }
}

/// Whether `t` is `0.0` or `-0.0`.
fn is_float_zero_text(t: &String) -> (r: bool)
    ensures
        r == is_float_zero(t@),
{
    let zero = String::from_str("0.0");
    let negative_zero = String::from_str("-0.0");
    *t == zero || *t == negative_zero
}

/// Whether two number texts stand for equal numbers (see `number_same`).
pub fn numbers_equal(x: &String, y: &String) -> (r: bool)
    ensures
        r == number_same(x@, y@),
{
    *x == *y || (is_float_zero_text(x) && is_float_zero_text(y))
}

/// Whether two JSON values are equal (see `json_same`).
pub fn json_equal(a: &JsonValue, b: &JsonValue) -> (r: bool)
    ensures
        r == json_same(*a, *b),
    decreases a,
{
    match (a, b) {
        (JsonValue::Null, JsonValue::Null) => true,
        (JsonValue::Bool(x), JsonValue::Bool(y)) => *x == *y,
        (JsonValue::Number(x), JsonValue::Number(y)) => numbers_equal(x, y),
        (JsonValue::Str(x), JsonValue::Str(y)) => *x == *y,
        (JsonValue::Array(xs), JsonValue::Array(ys)) => {
            proof {
                lemma_items_same(xs@, ys@);
            }
            if xs.len() != ys.len() {
                return false;
            }
            let mut i: usize = 0;
            while i < xs.len()
                invariant
                    i <= xs@.len() == ys@.len(),
                    *a == JsonValue::Array(*xs),
                    *b == JsonValue::Array(*ys),
                    forall|j: int| 0 <= j < i ==> json_same(#[trigger] xs@[j], ys@[j]),
                decreases xs.len() - i,
            {
                proof {
                    assert(decreases_to!(*a => (*a)->Array_0));
                    assert((*a)->Array_0 == *xs);
                    assert(decreases_to!(*xs => xs@));
                    assert(decreases_to!(xs@ => xs@[i as int]));
                }
                if !json_equal(&xs[i], &ys[i]) {
                    proof {
                        lemma_items_same(xs@, ys@);
                    }
                    return false;
                }
                i += 1;
            }
            proof {
                lemma_items_same(xs@, ys@);
            }
            true
        },
        (JsonValue::Object(xs), JsonValue::Object(ys)) => {
            proof {
                lemma_members_same(xs@, ys@);
            }
            if xs.len() != ys.len() {
                return false;
            }
            let mut i: usize = 0;
            while i < xs.len()
                invariant
                    i <= xs@.len() == ys@.len(),
                    *a == JsonValue::Object(*xs),
                    *b == JsonValue::Object(*ys),
                    forall|j: int|
                        0 <= j < i ==> (#[trigger] xs@[j]).0@ == ys@[j].0@ && json_same(
                            xs@[j].1,
                            ys@[j].1,
                        ),
                decreases xs.len() - i,
            {
                if xs[i].0 != ys[i].0 {
                    proof {
                        lemma_members_same(xs@, ys@);
                    }
                    return false;
                }
                proof {
                    assert(decreases_to!(*a => (*a)->Object_0));
                    assert((*a)->Object_0 == *xs);
                    assert(decreases_to!(*xs => xs@));
                    assert(decreases_to!(xs@ => xs@[i as int]));
                    assert(decreases_to!(xs@[i as int] => xs@[i as int].1));
                }
                if !json_equal(&xs[i].1, &ys[i].1) {
                    proof {
                        lemma_members_same(xs@, ys@);
                    }
                    return false;
                }
                i += 1;
            }
            proof {
                lemma_members_same(xs@, ys@);
            }
            true
        },
        _ => false,
    }
}

/// The value of the first member of `entries` whose key is `key`.
fn member_of<'a>(entries: &'a Vec<(String, JsonValue)>, key: &String) -> (r: Option<&'a JsonValue>)
    ensures
        match r {
            Some(x) => member(entries@, key@) == Some(*x),
            None => member(entries@, key@) is None,
        },
{
    let mut j: usize = 0;
    assert(entries@.skip(0) =~= entries@);
    while j < entries.len()
        invariant
            j <= entries@.len(),
            member(entries@, key@) == member(entries@.skip(j as int), key@),
        decreases entries.len() - j,
    {
        assert(entries@.skip(j as int).drop_first() =~= entries@.skip(j + 1));
        if entries[j].0 == *key {
            return Some(&entries[j].1);
        }
        j += 1;
    }
    None
}

/// One lookup step (see `step`).
pub fn step_into<'a>(v: &'a JsonValue, s: &PathSegment) -> (r: Option<&'a JsonValue>)
    ensures
        match r {
            Some(x) => step(*v, s@) == Some(*x),
            None => step(*v, s@) is None,
        },
{
    match s {
        PathSegment::Key(k) => match v {
            JsonValue::Object(entries) => member_of(entries, k),
            _ => None,
        },
        PathSegment::Index(i) => match v {
            JsonValue::Array(items) => if *i < items.len() {
                Some(&items[*i])
            } else {
                None
            },
            _ => None,
        },
    }
}

/// The value reached from `value` by taking `steps` in order.
pub fn follow_path<'a>(value: &'a JsonValue, steps: &Vec<PathSegment>) -> (r: Option<&'a JsonValue>)
    ensures
        match r {
            Some(x) => follow(*value, segment_views(steps@)) == Some(*x),
            None => follow(*value, segment_views(steps@)) is None,
        },
{
    let ghost views = segment_views(steps@);
    let mut current = value;
    let mut i: usize = 0;
    assert(views.skip(0) =~= views);
    while i < steps.len()
        invariant
            i <= steps@.len(),
            views == segment_views(steps@),
            follow(*value, views) == follow(*current, views.skip(i as int)),
        decreases steps.len() - i,
    {
        assert(views.skip(i as int)[0] == steps@[i as int]@);
        assert(views.skip(i as int).drop_first() =~= views.skip(i + 1));
        match step_into(current, &steps[i]) {
            Some(c) => {
                current = c;
            },
            None => {
                return None;
            },
        }
        i += 1;
    }
    assert(views.skip(i as int) =~= Seq::<SegmentView>::empty());
    Some(current)
}

/// Resolve a simple JSON path expression against a JSON value:
/// `"name"` is `value["name"]`, `"data.count"` is `value["data"]["count"]`,
/// `"users[0].name"` is `value["users"][0]["name"]`.
pub fn resolve_json_path<'a>(value: &'a JsonValue, path: &str) -> (r: Option<&'a JsonValue>)
    requires
        path_segments(path@) is Some,
    ensures
        match r {
            Some(x) => resolve(*value, path@) == Some(*x),
            None => resolve(*value, path@) is None,
        },
{
    let steps = parse_path_segments(path);
    follow_path(value, &steps)
}

/// Whether the value at `path` in `json` equals `expected`: `None` when
/// the path leads nowhere.
pub fn json_path_matches(json: &JsonValue, path: &str, expected: &JsonValue) -> (r: Option<bool>)
    requires
        path_segments(path@) is Some,
    ensures
        r == match resolve(*json, path@) {
            Some(v) => Some(json_same(v, *expected)),
            None => None,
        },
{
    match resolve_json_path(json, path) {
        Some(v) => Some(json_equal(v, expected)),
        None => None,
    }
}

/// Taking the steps `a` and then the steps `b` is taking `a + b`.
pub proof fn lemma_follow_concat(v: JsonValue, a: Seq<SegmentView>, b: Seq<SegmentView>)
    ensures
        follow(v, a + b) == match follow(v, a) {
            Some(x) => follow(x, b),
            None => None,
        },
    decreases a.len(),
{
    if a.len() == 0 {
        assert(a + b =~= b);
    } else {
        assert((a + b)[0] == a[0]);
        assert((a + b).drop_first() =~= a.drop_first() + b);
        match step(v, a[0]) {
            Some(c) => lemma_follow_concat(c, a.drop_first(), b),
            None => {},
        }
    }
}

/// Resolving `p.q` is resolving `p` and then resolving `q` in what was
/// found: `"data.count"` is `value["data"]["count"]`.
pub proof fn lemma_resolve_dotted(v: JsonValue, p: Seq<char>, q: Seq<char>)
    ensures
        resolve(v, p + seq!['.'] + q) == match resolve(v, p) {
            Some(x) => resolve(x, q),
            None => None,
        },
{
    lemma_path_dot_concat(p, q);
    match (path_segments(p), path_segments(q)) {
        (Some(a), Some(b)) => {
            lemma_follow_concat(v, a, b);
        },
        _ => {},
    }
}

/// The empty path designates the value itself.
pub proof fn lemma_resolve_empty(v: JsonValue)
    ensures
        resolve(v, Seq::empty()) == Some(v),
{
    crate::path::lemma_empty_path();
}

/// Equality of JSON values is reflexive.
pub proof fn lemma_json_same_refl(v: JsonValue)
    ensures
        json_same(v, v),
    decreases v,
{
    match v {
        JsonValue::Array(xs) => {
            assert forall|i: int| 0 <= i < xs@.len() implies json_same(#[trigger] xs@[i], xs@[i]) by {
                assert(decreases_to!(v => v->Array_0));
                lemma_json_same_refl(xs@[i]);
            }
            lemma_items_same(xs@, xs@);
        },
        JsonValue::Object(xs) => {
            assert forall|i: int| 0 <= i < xs@.len() implies (#[trigger] xs@[i]).0@ == xs@[i].0@
                && json_same(xs@[i].1, xs@[i].1) by {
                assert(decreases_to!(v => v->Object_0));
                lemma_json_same_refl(xs@[i].1);
            }
            lemma_members_same(xs@, xs@);
        },
        _ => {},
    }
}

/// Equality of JSON values is symmetric.
pub proof fn lemma_json_same_symmetric(a: JsonValue, b: JsonValue)
    requires
        json_same(a, b),
    ensures
        json_same(b, a),
    decreases a,
{
    match (a, b) {
        (JsonValue::Array(xs), JsonValue::Array(ys)) => {
            lemma_items_same(xs@, ys@);
            lemma_items_same(ys@, xs@);
            assert forall|i: int| 0 <= i < ys@.len() implies json_same(#[trigger] ys@[i], xs@[i]) by {
                assert(decreases_to!(a => a->Array_0));
                assert(json_same(xs@[i], ys@[i]));
                lemma_json_same_symmetric(xs@[i], ys@[i]);
            }
        },
        (JsonValue::Object(xs), JsonValue::Object(ys)) => {
            lemma_members_same(xs@, ys@);
            lemma_members_same(ys@, xs@);
            assert forall|i: int| 0 <= i < ys@.len() implies (#[trigger] ys@[i]).0@ == xs@[i].0@
                && json_same(ys@[i].1, xs@[i].1) by {
                assert(decreases_to!(a => a->Object_0));
                assert(xs@[i].0@ == ys@[i].0@ && json_same(xs@[i].1, ys@[i].1));
                lemma_json_same_symmetric(xs@[i].1, ys@[i].1);
            }
        },
        _ => {},
    }
}

/// Two JSON strings are equal exactly when their texts are identical,
/// character for character (no case folding, no trimming).
pub proof fn lemma_json_same_strings(x: String, y: String)
    ensures
        json_same(JsonValue::Str(x), JsonValue::Str(y)) <==> x@ == y@,
{
}

/// Two JSON booleans are equal exactly when they are the same boolean, and
/// `null` equals `null`.
pub proof fn lemma_json_same_bools(x: bool, y: bool)
    ensures
        json_same(JsonValue::Bool(x), JsonValue::Bool(y)) <==> x == y,
        json_same(JsonValue::Null, JsonValue::Null),
{
}

/// Two JSON numbers are equal exactly when they are written alike, or
/// when one is `0.0` and the other `-0.0` (serde_json compares floats by
/// value, and writes every other number in one way only).
pub proof fn lemma_json_same_numbers(x: String, y: String)
    ensures
        json_same(JsonValue::Number(x), JsonValue::Number(y)) <==> (x@ == y@ || ((x@ == "0.0"@
            || x@ == "-0.0"@) && (y@ == "0.0"@ || y@ == "-0.0"@))),
{
}

/// Values of different kinds are never equal: a string never equals a
/// number, a boolean, `null`, an array or an object, and so on.
pub proof fn lemma_json_same_kinds(a: JsonValue, b: JsonValue)
    requires
        json_same(a, b),
    ensures
        a is Null ==> b is Null,
        a is Bool ==> b is Bool,
        a is Number ==> b is Number,
        a is Str ==> b is Str,
        a is Array ==> b is Array,
        a is Object ==> b is Object,
{
}

/// Two arrays are equal exactly when they have the same length and equal
/// elements position by position; two objects exactly when they have the
/// same keys in the same positions with equal values.
pub proof fn lemma_json_same_containers(xs: Vec<JsonValue>, ys: Vec<JsonValue>, ms: Vec<(String, JsonValue)>, ns: Vec<(String, JsonValue)>)
    ensures
        json_same(JsonValue::Array(xs), JsonValue::Array(ys)) <==> (xs@.len() == ys@.len()
            && forall|i: int| 0 <= i < xs@.len() ==> json_same(#[trigger] xs@[i], ys@[i])),
        json_same(JsonValue::Object(ms), JsonValue::Object(ns)) <==> (ms@.len() == ns@.len()
            && forall|i: int|
            0 <= i < ms@.len() ==> (#[trigger] ms@[i]).0@ == ns@[i].0@ && json_same(ms@[i].1, ns@[i].1)),
{
    lemma_items_same(xs@, ys@);
    lemma_members_same(ms@, ns@);
}

/// An object member lookup finds the value of the first member whose key
/// is the key looked up, and finds nothing when no member has that key.
pub proof fn lemma_member_first(entries: Seq<(String, JsonValue)>, key: Seq<char>)
    ensures
        match member(entries, key) {
            Some(v) => exists|i: int|
                0 <= i < entries.len() && (#[trigger] entries[i]).0@ == key && entries[i].1 == v
                    && forall|j: int| 0 <= j < i ==> (#[trigger] entries[j]).0@ != key,
            None => forall|j: int| 0 <= j < entries.len() ==> (#[trigger] entries[j]).0@ != key,
        },
    decreases entries.len(),
{
    if entries.len() > 0 {
        if entries[0].0@ == key {
            assert(entries[0].0@ == key);
        } else {
            let rest = entries.drop_first();
            lemma_member_first(rest, key);
            match member(rest, key) {
                Some(v) => {
                    let i = choose|i: int|
                        0 <= i < rest.len() && (#[trigger] rest[i]).0@ == key && rest[i].1 == v
                            && forall|j: int| 0 <= j < i ==> (#[trigger] rest[j]).0@ != key;
                    assert(entries[i + 1] == rest[i]);
                    assert forall|j: int| 0 <= j < i + 1 implies (#[trigger] entries[j]).0@ != key by {
                        if j > 0 {
                            assert(entries[j] == rest[j - 1]);
                        }
                    }
                },
                None => {
                    assert forall|j: int| 0 <= j < entries.len() implies (#[trigger] entries[j]).0@
                        != key by {
                        if j > 0 {
                            assert(entries[j] == rest[j - 1]);
                        }
                    }
                },
            }
        }
    }
}

/// The path `key[n]` finds, in an object, element `n` of the array held
/// by the first member named `key`, and nothing when there is no such
/// member, it holds no array, or the array has no element `n`.
pub proof fn lemma_resolve_key_index(entries: Vec<(String, JsonValue)>, key: Seq<char>, n: usize)
    requires
        key.len() > 0,
        crate::text::index_of(key, '.') is None,
        crate::text::index_of(key, '[') is None,
        crate::text::index_of(key, ']') is None,
    ensures
        resolve(
            JsonValue::Object(entries),
            key + seq!['['] + crate::text::decimal(n as nat) + seq![']'],
        ) == match member(entries@, key) {
            Some(JsonValue::Array(items)) => if n < items@.len() {
                Some(items@[n as int])
            } else {
                None
            },
            _ => None,
        },
{
    lemma_key_index_path(key, n);
    let steps = seq![SegmentView::Key(key), SegmentView::Index(n)];
    let v = JsonValue::Object(entries);
    assert(steps.drop_first() =~= seq![SegmentView::Index(n)]);
    assert(steps.drop_first().drop_first() =~= Seq::<SegmentView>::empty());
    match member(entries@, key) {
        Some(c) => {
            assert(follow(c, seq![SegmentView::Index(n)]) == match step(c, SegmentView::Index(n)) {
                Some(d) => follow(d, Seq::<SegmentView>::empty()),
                None => None,
            });
        },
        None => {},
    }
}

} // verus!
