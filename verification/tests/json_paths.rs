use http_test::{
    json_equal, json_path_matches, parse_path_segments, path_is_well_formed, resolve_json_path,
    JsonValue, PathSegment,
};

fn num(text: &str) -> JsonValue {
    JsonValue::Number(text.to_string())
}

fn text(s: &str) -> JsonValue {
    JsonValue::Str(s.to_string())
}

fn object(members: Vec<(&str, JsonValue)>) -> JsonValue {
    JsonValue::Object(members.into_iter().map(|(k, v)| (k.to_string(), v)).collect())
}

fn key(k: &str) -> PathSegment {
    PathSegment::Key(k.to_string())
}

#[test]
fn test_resolve_json_path() {
    let data = object(vec![(
        "a",
        object(vec![
            ("b", JsonValue::Array(vec![num("1"), num("2"), num("3")])),
            ("c", text("hello")),
        ]),
    )]);
    assert_eq!(resolve_json_path(&data, "a.c"), Some(&text("hello")));
    assert_eq!(resolve_json_path(&data, "a.b[1]"), Some(&num("2")));
    assert_eq!(resolve_json_path(&data, "a.missing"), None);
}

#[test]
fn nested_paths_through_arrays() {
    let data = object(vec![(
        "data",
        object(vec![(
            "users",
            JsonValue::Array(vec![
                object(vec![("name", text("Alice"))]),
                object(vec![("name", text("Bob"))]),
            ]),
        )]),
    )]);
    assert_eq!(json_path_matches(&data, "data.users[0].name", &text("Alice")), Some(true));
    assert_eq!(json_path_matches(&data, "data.users[1].name", &text("Bob")), Some(true));
    assert_eq!(json_path_matches(&data, "data.users[1].name", &text("Alice")), Some(false));
    assert_eq!(json_path_matches(&data, "data.users[2].name", &text("Bob")), None);
    assert_eq!(resolve_json_path(&data, "data.users.name"), None);
}

#[test]
fn scalar_paths() {
    let data = object(vec![("count", num("42")), ("active", JsonValue::Bool(true))]);
    assert_eq!(json_path_matches(&data, "count", &num("42")), Some(true));
    assert_eq!(json_path_matches(&data, "active", &JsonValue::Bool(true)), Some(true));
    assert_eq!(json_path_matches(&data, "active", &JsonValue::Bool(false)), Some(false));
    assert_eq!(json_path_matches(&data, "count", &text("42")), Some(false));
    assert_eq!(json_path_matches(&data, "", &data.clone_for_test()), Some(true));
}

trait CloneForTest {
    fn clone_for_test(&self) -> JsonValue;
}

impl CloneForTest for JsonValue {
    fn clone_for_test(&self) -> JsonValue {
        match self {
            JsonValue::Null => JsonValue::Null,
            JsonValue::Bool(b) => JsonValue::Bool(*b),
            JsonValue::Number(n) => JsonValue::Number(n.clone()),
            JsonValue::Str(s) => JsonValue::Str(s.clone()),
            JsonValue::Array(xs) => JsonValue::Array(xs.iter().map(|x| x.clone_for_test()).collect()),
            JsonValue::Object(xs) => JsonValue::Object(
                xs.iter().map(|(k, v)| (k.clone(), v.clone_for_test())).collect(),
            ),
        }
    }
}

#[test]
fn empty_path_is_the_root() {
    let data = JsonValue::Array(vec![JsonValue::Null]);
    assert_eq!(resolve_json_path(&data, ""), Some(&data));
    assert_eq!(resolve_json_path(&data, "."), Some(&data));
    assert_eq!(resolve_json_path(&data, "[0]"), Some(&JsonValue::Null));
}

#[test]
fn json_equality() {
    let a = JsonValue::Array(vec![num("1"), object(vec![("k", JsonValue::Null)])]);
    let b = JsonValue::Array(vec![num("1"), object(vec![("k", JsonValue::Null)])]);
    let c = JsonValue::Array(vec![num("1"), object(vec![("k", JsonValue::Bool(false))])]);
    let d = JsonValue::Array(vec![num("1.0"), object(vec![("k", JsonValue::Null)])]);
    assert!(json_equal(&a, &b));
    assert!(!json_equal(&a, &c));
    assert!(!json_equal(&a, &d));
    assert!(!json_equal(&a, &JsonValue::Array(vec![num("1")])));
}

#[test]
fn path_segments_of_keys_and_indices() {
    assert_eq!(parse_path_segments("name"), vec![key("name")]);
    assert_eq!(parse_path_segments("data.count"), vec![key("data"), key("count")]);
    assert_eq!(
        parse_path_segments("users[0].name"),
        vec![key("users"), PathSegment::Index(0), key("name")]
    );
    assert_eq!(
        parse_path_segments("m[1][22]"),
        vec![key("m"), PathSegment::Index(1), PathSegment::Index(22)]
    );
    assert_eq!(parse_path_segments("[3]"), vec![PathSegment::Index(3)]);
}

#[test]
fn path_segments_skip_empty_parts_and_bad_indices() {
    assert_eq!(parse_path_segments("a..b."), vec![key("a"), key("b")]);
    assert_eq!(parse_path_segments(""), Vec::<PathSegment>::new());
    assert_eq!(parse_path_segments("a[x]"), vec![key("a")]);
    assert_eq!(parse_path_segments("a[]"), vec![key("a")]);
    assert_eq!(parse_path_segments("a[-1]"), vec![key("a")]);
    assert_eq!(parse_path_segments("a[+7]"), vec![key("a"), PathSegment::Index(7)]);
    assert_eq!(parse_path_segments("a[+]"), vec![key("a")]);
    assert_eq!(parse_path_segments("a[007]"), vec![key("a"), PathSegment::Index(7)]);
    assert_eq!(
        parse_path_segments("a[99999999999999999999999]"),
        vec![key("a")]
    );
    assert_eq!(parse_path_segments("a[1"), vec![key("a")]);
    assert_eq!(parse_path_segments("a[1]x[2]"), vec![key("a"), PathSegment::Index(1), PathSegment::Index(2)]);
}

#[test]
fn paths_the_parser_cannot_read() {
    assert!(path_is_well_formed("a.b[0].c"));
    assert!(path_is_well_formed("a]"));
    assert!(!path_is_well_formed("a[0]][1]"));
    assert!(!path_is_well_formed("x.a[0]][1].y"));
}

#[test]
fn float_zeros_of_either_sign_are_equal() {
    assert!(json_equal(&num("0.0"), &num("-0.0")));
    assert!(json_equal(&num("-0.0"), &num("0.0")));
    assert!(json_equal(&num("-0.0"), &num("-0.0")));
    assert!(!json_equal(&num("0"), &num("0.0")));
    assert!(!json_equal(&num("-0.0"), &num("0")));
    assert_eq!(
        json_path_matches(&object(vec![("z", num("-0.0"))]), "z", &num("0.0")),
        Some(true)
    );
}
