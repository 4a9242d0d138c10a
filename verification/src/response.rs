//! The response of a request and the checks made on it. Each check hands
//! the response back when it holds and describes the mismatch otherwise.

use vstd::prelude::*;
use vstd::string::StringSliceAdditionalSpecFns;
use vstd::utf8::{encode_utf8, is_char_boundary};

use crate::error::{ErrorView, HttpTestError};
use crate::json::{
    follow_json, follow_value, json_equal, json_model, json_parse_error, json_same, json_text,
    json_to_text, model_of, parse_json_text, parsed_json, resolve,
};
use crate::path::{parse_path_segments, path_segments};
use crate::text::{
    contains_text, decimal, decimal_text, has_infix, lowercased, to_lowercase,
    truncate_for_display,
};

verus! {

broadcast use vstd::string::group_string_axioms;

/// How many bytes of the body a failed body check shows.
pub const DISPLAY_LIMIT: usize = 200;

/// The response from an HTTP test request, with assertion methods for validation.
#[derive(Debug)]
pub struct TestResponse {
    /// The HTTP status code.
    pub status: u16,
    /// The response headers as key-value pairs.
    pub headers: Vec<(String, String)>,
    /// The response body as a string.
    pub body: String,
}

/// Whether `status` lies in the class `hundreds`xx, e.g. 200–299 for 2.
pub open spec fn in_class(status: u16, hundreds: int) -> bool {
    hundreds * 100 <= status < hundreds * 100 + 100
}

/// The message of a failed status check: `expected status <e>, got <s>`.
pub open spec fn status_message(expected: u16, status: u16) -> Seq<char> {
    "expected status "@ + decimal(expected as nat) + ", got "@ + decimal(status as nat)
}

/// The message of a failed status class check, e.g.
/// `expected 2xx status, got 404` for the class `2xx`.
pub open spec fn class_message(class: Seq<char>, status: u16) -> Seq<char> {
    "expected "@ + class + " status, got "@ + decimal(status as nat)
}

/// The position of the first `x` in `s`, if any.
pub open spec fn position_of(s: Seq<Seq<char>>, x: Seq<char>) -> Option<int>
    decreases s.len(),
{
    if s.len() == 0 {
        None
    } else if s[0] == x {
        Some(0)
    } else {
        match position_of(s.drop_first(), x) {
            Some(i) => Some(i + 1),
            None => None,
        }
    }
}

/// `position_of` names the first occurrence, and there is none when it is `None`.
pub proof fn lemma_position_of(s: Seq<Seq<char>>, x: Seq<char>)
    ensures
        match position_of(s, x) {
            Some(i) => 0 <= i < s.len() && s[i] == x && forall|j: int| 0 <= j < i ==> s[j] != x,
            None => forall|j: int| 0 <= j < s.len() ==> s[j] != x,
        },
    decreases s.len(),
{
    if s.len() > 0 && s[0] != x {
        lemma_position_of(s.drop_first(), x);
        assert forall|j: int| 1 <= j < s.len() implies s[j] == s.drop_first()[j - 1] by {}
    }
}

/// The header names, lowercased.
pub open spec fn lowered_names(headers: Seq<(String, String)>) -> Seq<Seq<char>> {
    headers.map_values(|h: (String, String)| lowercased(h.0@))
}

/// The position of the first header whose name matches `key` without
/// regard to case (both lowercased).
pub open spec fn header_match(headers: Seq<(String, String)>, key: Seq<char>) -> Option<int> {
    position_of(lowered_names(headers), lowercased(key))
}

/// Whether the first header whose name matches `key` without regard to
/// case has the value `value`.
pub open spec fn header_has_value(headers: Seq<(String, String)>, key: Seq<char>, value: Seq<char>) -> bool {
    match header_match(headers, key) {
        Some(i) => headers[i].1@ == value,
        None => false,
    }
}

/// The message of a failed header check, or `None` when the first header
/// whose name matches `key` without regard to case has the value `value`.
pub open spec fn header_message(headers: Seq<(String, String)>, key: Seq<char>, value: Seq<char>) -> Option<Seq<char>> {
    match header_match(headers, key) {
        Some(i) => if headers[i].1@ == value {
            None
        } else {
            Some("header '"@ + key + "': expected '"@ + value + "', got '"@ + headers[i].1@ + "'"@)
        },
        None => Some("header '"@ + key + "' not found in response"@),
    }
}

/// The message of a failed header presence check.
pub open spec fn header_exists_message(key: Seq<char>) -> Seq<char> {
    "expected header '"@ + key + "' to exist"@
}

/// Whether a failed body check can show the body: it is at most
/// `DISPLAY_LIMIT` bytes long, or the cut after that many bytes falls
/// between characters. (Cutting inside a character panics.)
pub open spec fn body_displayable(body: Seq<char>) -> bool {
    encode_utf8(body).len() <= DISPLAY_LIMIT || is_char_boundary(encode_utf8(body), DISPLAY_LIMIT as int)
}

/// Whether `shown` is what a failed body check shows of `body`: the first
/// `DISPLAY_LIMIT` bytes when the body is longer, the whole body otherwise.
pub open spec fn shown_body(body: Seq<char>, shown: Seq<char>) -> bool {
    let bytes = encode_utf8(body);
    if bytes.len() > DISPLAY_LIMIT {
        encode_utf8(shown) == bytes.subrange(0, DISPLAY_LIMIT as int)
    } else {
        shown == body
    }
}

/// Whether `m` is `prefix` followed by what a failed body check shows of
/// `body`.
pub open spec fn body_message(m: Seq<char>, prefix: Seq<char>, body: Seq<char>) -> bool {
    prefix.len() <= m.len() && m.take(prefix.len() as int) == prefix && shown_body(
        body,
        m.skip(prefix.len() as int),
    )
}

/// The start of the message of a failed "body contains" check.
pub open spec fn contains_prefix(substring: Seq<char>) -> Seq<char> {
    "expected body to contain '"@ + substring + "', body was: "@
}

/// The start of the message of a failed "body equals" check.
pub open spec fn equals_prefix(expected: Seq<char>) -> Seq<char> {
    "expected body to equal '"@ + expected + "', got: "@
}

/// Whether the body parses as JSON and the value at `path` in it equals
/// `expected`.
pub open spec fn json_path_holds(body: Seq<char>, path: Seq<char>, expected: serde_json::Value) -> bool {
    json_parse_error(body) is None && match resolve(json_model(parsed_json(body)), path) {
        Some(v) => json_same(v, json_model(expected)),
        None => false,
    }
}

/// The message of a failed JSON path check (meaningful when
/// `json_path_holds` does not hold).
pub open spec fn json_path_message(body: Seq<char>, path: Seq<char>, expected: serde_json::Value) -> Seq<char> {
    match json_parse_error(body) {
        Some(m) => "failed to parse response body as JSON: "@ + m,
        None => match resolve(json_model(parsed_json(body)), path) {
            Some(v) => "JSON path '"@ + path + "': expected "@ + json_text(expected) + ", got "@
                + json_text(follow_json(parsed_json(body), path_segments(path)->0)->0),
            None => "JSON path '"@ + path + "' not found in response body"@,
        },
    }
}

/// The position of the first entry of `names` equal to `wanted`.
pub fn position_of_name(names: &Vec<String>, wanted: &String) -> (r: Option<usize>)
    ensures
        match r {
            Some(i) => position_of(names@.map_values(|n: String| n@), wanted@) == Some(i as int),
            None => position_of(names@.map_values(|n: String| n@), wanted@) is None,
        },
{
    let ghost s = names@.map_values(|n: String| n@);
    proof {
        lemma_position_of(s, wanted@);
    }
    let mut i: usize = 0;
    while i < names.len()
        invariant
            i <= names@.len(),
            s == names@.map_values(|n: String| n@),
            forall|j: int| 0 <= j < i ==> s[j] != wanted@,
        decreases names.len() - i,
    {
        assert(s[i as int] == names@[i as int]@);
        if names[i] == *wanted {
            proof {
                assert(s[i as int] == names@[i as int]@);
                lemma_position_of(s, wanted@);
                if position_of(s, wanted@) is None {
                    assert(s[i as int] == wanted@);
                } else {
                    let m = position_of(s, wanted@)->0;
                    assert(!(m < i));
                    assert(!(i < m));
                }
            }
            return Some(i);
        }
        i += 1;
    }
    proof {
        lemma_position_of(s, wanted@);
        if position_of(s, wanted@) is Some {
            let m = position_of(s, wanted@)->0;
            assert(s[m] == wanted@);
        }
    }
    None
}

impl TestResponse {
    /// The message of a failed class check for `class`.
    fn class_failure(&self, class: &str) -> (r: String)
        ensures
            r@ == class_message(class@, self.status),
    {
        let actual = decimal_text(self.status as u64);
        let mut m = String::from_str("expected ");
        m.append(class);
        m.append(" status, got ");
        m.append(actual.as_str());
        m
    }

    /// Assert that the status code matches the expected value. The caller
    /// guarantees that it does; `check_status` tells whether it does.
    pub fn assert_status(&self, expected: u16) -> (r: &TestResponse)
        requires
            self.status == expected,
        ensures
            r == self,
    {
        self
    }

    /// Check that the status code matches the expected value: the response
    /// when it does, the message `expected status <e>, got <s>` otherwise.
    pub fn check_status(&self, expected: u16) -> (r: Result<&TestResponse, String>)
        ensures
            match r {
                Ok(x) => x == self && self.status == expected,
                Err(m) => self.status != expected && m@ == status_message(expected, self.status),
            },
    {
        if self.status == expected {
            Ok(self.assert_status(expected))
        } else {
            let wanted = decimal_text(expected as u64);
            let actual = decimal_text(self.status as u64);
            let mut m = String::from_str("expected status ");
            m.append(wanted.as_str());
            m.append(", got ");
            m.append(actual.as_str());
            Err(m)
        }
    }

    /// Assert that the status code is in the 2xx range. The caller
    /// guarantees that it is; `check_ok` tells whether it is.
    pub fn assert_ok(&self) -> (r: &TestResponse)
        requires
            in_class(self.status, 2),
        ensures
            r == self,
    {
        self
    }

    /// Check that the status code is in the 2xx range: the response when it
    /// is, the message `expected 2xx status, got <s>` otherwise.
    pub fn check_ok(&self) -> (r: Result<&TestResponse, String>)
        ensures
            match r {
                Ok(x) => x == self && in_class(self.status, 2),
                Err(m) => !in_class(self.status, 2) && m@ == class_message("2xx"@, self.status),
            },
    {
        if 200 <= self.status && self.status < 300 {
            Ok(self.assert_ok())
        } else {
            Err(self.class_failure("2xx"))
        }
    }

    /// Assert that the status code is in the 3xx range. The caller
    /// guarantees that it is; `check_redirect` tells whether it is.
    pub fn assert_redirect(&self) -> (r: &TestResponse)
        requires
            in_class(self.status, 3),
        ensures
            r == self,
    {
        self
    }

    /// Check that the status code is in the 3xx range: the response when it
    /// is, the message `expected 3xx status, got <s>` otherwise.
    pub fn check_redirect(&self) -> (r: Result<&TestResponse, String>)
        ensures
            match r {
                Ok(x) => x == self && in_class(self.status, 3),
                Err(m) => !in_class(self.status, 3) && m@ == class_message("3xx"@, self.status),
            },
    {
        if 300 <= self.status && self.status < 400 {
            Ok(self.assert_redirect())
        } else {
            Err(self.class_failure("3xx"))
        }
    }

    /// Assert that the status code is in the 4xx range. The caller
    /// guarantees that it is; `check_client_error` tells whether it is.
    pub fn assert_client_error(&self) -> (r: &TestResponse)
        requires
            in_class(self.status, 4),
        ensures
            r == self,
    {
        self
    }

    /// Check that the status code is in the 4xx range: the response when it
    /// is, the message `expected 4xx status, got <s>` otherwise.
    pub fn check_client_error(&self) -> (r: Result<&TestResponse, String>)
        ensures
            match r {
                Ok(x) => x == self && in_class(self.status, 4),
                Err(m) => !in_class(self.status, 4) && m@ == class_message("4xx"@, self.status),
            },
    {
        if 400 <= self.status && self.status < 500 {
            Ok(self.assert_client_error())
        } else {
            Err(self.class_failure("4xx"))
        }
    }

    /// Assert that the status code is in the 5xx range. The caller
    /// guarantees that it is; `check_server_error` tells whether it is.
    pub fn assert_server_error(&self) -> (r: &TestResponse)
        requires
            in_class(self.status, 5),
        ensures
            r == self,
    {
        self
    }

    /// Check that the status code is in the 5xx range: the response when it
    /// is, the message `expected 5xx status, got <s>` otherwise.
    pub fn check_server_error(&self) -> (r: Result<&TestResponse, String>)
        ensures
            match r {
                Ok(x) => x == self && in_class(self.status, 5),
                Err(m) => !in_class(self.status, 5) && m@ == class_message("5xx"@, self.status),
            },
    {
        if 500 <= self.status && self.status < 600 {
            Ok(self.assert_server_error())
        } else {
            Err(self.class_failure("5xx"))
        }
    }

    /// The position of the first header whose name matches `key` without
    /// regard to case.
    pub fn find_header(&self, key: &str) -> (r: Option<usize>)
        ensures
            match r {
                Some(i) => header_match(self.headers@, key@) == Some(i as int),
                None => header_match(self.headers@, key@) is None,
            },
    {
        let mut names: Vec<String> = Vec::new();
        let mut i: usize = 0;
        while i < self.headers.len()
            invariant
                i <= self.headers@.len(),
                names@.map_values(|n: String| n@) == lowered_names(self.headers@).take(i as int),
            decreases self.headers.len() - i,
        {
            let ghost before = names@;
            names.push(to_lowercase(self.headers[i].0.as_str()));
            assert(names@.map_values(|n: String| n@) =~= before.map_values(|n: String| n@).push(
                lowercased(self.headers@[i as int].0@),
            ));
            assert(lowered_names(self.headers@).take(i + 1) =~= lowered_names(self.headers@).take(
                i as int,
            ).push(lowercased(self.headers@[i as int].0@)));
            i += 1;
        }
        assert(lowered_names(self.headers@).take(i as int) =~= lowered_names(self.headers@));
        let wanted = to_lowercase(key);
        position_of_name(&names, &wanted)
    }

    /// Assert that a response header has the expected value
    /// (case-insensitive key match, only the first matching header counts).
    /// The caller guarantees that it has; `check_header` tells whether it has.
    pub fn assert_header(&self, key: &str, value: &str) -> (r: &TestResponse)
        requires
            header_has_value(self.headers@, key@, value@),
        ensures
            r == self,
    {
        self
    }

    /// Check that a response header has the expected value: the response
    /// when the first header whose name matches `key` without regard to case
    /// has the value `value`, the message of the mismatch otherwise.
    pub fn check_header(&self, key: &str, value: &str) -> (r: Result<&TestResponse, String>)
        ensures
            match r {
                Ok(x) => x == self && header_has_value(self.headers@, key@, value@),
                Err(m) => !header_has_value(self.headers@, key@, value@) && header_message(
                    self.headers@,
                    key@,
                    value@,
                ) == Some(m@),
            },
    {
        let mut m = String::from_str("header '");
        m.append(key);
        match self.find_header(key) {
            Some(i) => {
                proof {
                    lemma_position_of(lowered_names(self.headers@), lowercased(key@));
                }
                let found = &self.headers[i].1;
                let wanted = String::from_str(value);
                if *found == wanted {
                    Ok(self.assert_header(key, value))
                } else {
                    m.append("': expected '");
                    m.append(value);
                    m.append("', got '");
                    m.append(found.as_str());
                    m.append("'");
                    Err(m)
                }
            },
            None => {
                m.append("' not found in response");
                Err(m)
            },
        }
    }

    /// Assert that a response header exists (case-insensitive key match).
    /// The caller guarantees that it does; `check_header_exists` tells
    /// whether it does.
    pub fn assert_header_exists(&self, key: &str) -> (r: &TestResponse)
        requires
            header_match(self.headers@, key@) is Some,
        ensures
            r == self,
    {
        self
    }

    /// Check that a response header exists: the response when some header
    /// name matches `key` without regard to case, the message
    /// `expected header '<key>' to exist` otherwise.
    pub fn check_header_exists(&self, key: &str) -> (r: Result<&TestResponse, String>)
        ensures
            match r {
                Ok(x) => x == self && header_match(self.headers@, key@) is Some,
                Err(m) => header_match(self.headers@, key@) is None && m@ == header_exists_message(
                    key@,
                ),
            },
    {
        match self.find_header(key) {
            Some(_) => Ok(self.assert_header_exists(key)),
            None => {
                let mut m = String::from_str("expected header '");
                m.append(key);
                m.append("' to exist");
                Err(m)
            },
        }
    }

    /// Parse the response body as JSON.
    pub fn json(&self) -> (r: Result<serde_json::Value, HttpTestError>)
        ensures
            match r {
                Ok(v) => json_parse_error(self.body@) is None && v == parsed_json(self.body@),
                Err(e) => json_parse_error(self.body@) matches Some(m) && e@ == ErrorView::JsonPathError(
                    "failed to parse JSON: "@ + m,
                ),
            },
    {
        match parse_json_text(self.body.as_str()) {
            Ok(v) => Ok(v),
            Err(m) => Err(HttpTestError::json_parse_failure(m.as_str())),
        }
    }

    /// What a failed body check shows of the body (see `shown_body`).
    fn display_body(&self) -> (r: String)
        requires
            body_displayable(self.body@),
        ensures
            shown_body(self.body@, r@),
    {
        let text = self.body.as_str();
        String::from_str(truncate_for_display(text, DISPLAY_LIMIT))
    }

    /// Assert that the response body contains the given substring. The
    /// caller guarantees that it does; `check_body_contains` tells whether
    /// it does.
    pub fn assert_body_contains(&self, substring: &str) -> (r: &TestResponse)
        requires
            has_infix(self.body@, substring@),
        ensures
            r == self,
    {
        self
    }

    /// Check that the response body contains the given substring: the
    /// response when it does, otherwise the message
    /// `expected body to contain '<substring>', body was: <body>`, showing
    /// at most `DISPLAY_LIMIT` bytes of the body.
    pub fn check_body_contains(&self, substring: &str) -> (r: Result<&TestResponse, String>)
        requires
            has_infix(self.body@, substring@) || body_displayable(self.body@),
        ensures
            match r {
                Ok(x) => x == self && has_infix(self.body@, substring@),
                Err(m) => !has_infix(self.body@, substring@) && body_message(
                    m@,
                    contains_prefix(substring@),
                    self.body@,
                ),
            },
    {
        if contains_text(self.body.as_str(), substring) {
            Ok(self.assert_body_contains(substring))
        } else {
            let shown = self.display_body();
            let mut m = String::from_str("expected body to contain '");
            m.append(substring);
            m.append("', body was: ");
            let ghost prefix = m@;
            m.append(shown.as_str());
            proof {
                assert(prefix == contains_prefix(substring@));
                assert(m@.take(prefix.len() as int) =~= prefix);
                assert(m@.skip(prefix.len() as int) =~= shown@);
            }
            Err(m)
        }
    }

    /// Assert that the response body equals the expected string exactly.
    /// The caller guarantees that it does; `check_body_equals` tells whether
    /// it does.
    pub fn assert_body_equals(&self, expected: &str) -> (r: &TestResponse)
        requires
            self.body@ == expected@,
        ensures
            r == self,
    {
        self
    }

    /// Check that the response body equals the expected string exactly: the
    /// response when it does, otherwise the message
    /// `expected body to equal '<expected>', got: <body>`, showing at most
    /// `DISPLAY_LIMIT` bytes of the body.
    pub fn check_body_equals(&self, expected: &str) -> (r: Result<&TestResponse, String>)
        requires
            self.body@ == expected@ || body_displayable(self.body@),
        ensures
            match r {
                Ok(x) => x == self && self.body@ == expected@,
                Err(m) => self.body@ != expected@ && body_message(
                    m@,
                    equals_prefix(expected@),
                    self.body@,
                ),
            },
    {
        let wanted = String::from_str(expected);
        if self.body == wanted {
            Ok(self.assert_body_equals(expected))
        } else {
            let shown = self.display_body();
            let mut m = String::from_str("expected body to equal '");
            m.append(expected);
            m.append("', got: ");
            let ghost prefix = m@;
            m.append(shown.as_str());
            proof {
                assert(prefix == equals_prefix(expected@));
                assert(m@.take(prefix.len() as int) =~= prefix);
                assert(m@.skip(prefix.len() as int) =~= shown@);
            }
            Err(m)
        }
    }

    /// Assert that the value at the given JSON path matches the expected
    /// value. The caller guarantees that the body parses as JSON and the
    /// value at `path` equals `expected`; `check_json_path` tells whether it
    /// does.
    ///
    /// Supports dot-separated keys and array indices:
    /// - `"name"` — top-level field
    /// - `"data.count"` — nested field
    /// - `"users[0].name"` — array index then field
    pub fn assert_json_path(&self, path: &str, expected: &serde_json::Value) -> (r: &TestResponse)
        requires
            json_path_holds(self.body@, path@, *expected),
        ensures
            r == self,
    {
        self
    }

    /// Check that the value at the given JSON path matches the expected
    /// value: the response when it does, otherwise the message of the
    /// failure (the body is not JSON, the path leads nowhere, or the value
    /// found differs; see `json_path_message`).
    pub fn check_json_path(&self, path: &str, expected: &serde_json::Value) -> (r: Result<&TestResponse, String>)
        requires
            path_segments(path@) is Some,
        ensures
            match r {
                Ok(x) => x == self && json_path_holds(self.body@, path@, *expected),
                Err(m) => !json_path_holds(self.body@, path@, *expected) && m@ == json_path_message(
                    self.body@,
                    path@,
                    *expected,
                ),
            },
    {
        let parsed = match parse_json_text(self.body.as_str()) {
            Ok(v) => v,
            Err(e) => {
                let mut m = String::from_str("failed to parse response body as JSON: ");
                m.append(e.as_str());
                return Err(m);
            },
        };
        let steps = parse_path_segments(path);
        let mut m = String::from_str("JSON path '");
        m.append(path);
        match follow_value(&parsed, &steps) {
            Some(found) => {
                let found_model = model_of(found);
                let wanted = model_of(expected);
                if json_equal(&found_model, &wanted) {
                    Ok(self.assert_json_path(path, expected))
                } else {
                    let expected_text = json_to_text(expected);
                    let found_text = json_to_text(found);
                    m.append("': expected ");
                    m.append(expected_text.as_str());
                    m.append(", got ");
                    m.append(found_text.as_str());
                    Err(m)
                }
            },
            None => {
                m.append("' not found in response body");
                Err(m)
            },
        }
    }
}

/// The status classes 2xx, 3xx, 4xx and 5xx do not overlap: at most one of
/// `assert_ok`, `assert_redirect`, `assert_client_error` and
/// `assert_server_error` passes on a response.
pub proof fn lemma_status_classes_exclusive(status: u16, a: int, b: int)
    requires
        a != b,
    ensures
        !(in_class(status, a) && in_class(status, b)),
{
}

/// Header checks do not tell apart names that lowercase alike.
pub proof fn lemma_header_match_ignores_case(
    headers: Seq<(String, String)>,
    k1: Seq<char>,
    k2: Seq<char>,
)
    requires
        lowercased(k1) == lowercased(k2),
    ensures
        header_match(headers, k1) == header_match(headers, k2),
{
}

/// A header that has the expected value exists.
pub proof fn lemma_header_value_implies_exists(
    headers: Seq<(String, String)>,
    key: Seq<char>,
    value: Seq<char>,
)
    requires
        header_has_value(headers, key, value),
    ensures
        header_match(headers, key) is Some,
{
}

/// A body that equals a text contains it.
pub proof fn lemma_equal_body_contains(body: Seq<char>, text: Seq<char>)
    requires
        body == text,
    ensures
        has_infix(body, text),
{
    assert(body.subrange(0int, 0int + text.len()) =~= text);
}

/// Every body contains the empty text.
pub proof fn lemma_contains_empty(body: Seq<char>)
    ensures
        has_infix(body, Seq::empty()),
{
    let e = Seq::<char>::empty();
    assert(body.subrange(0int, 0int + e.len()) =~= e);
}

/// The class of a status is its hundreds digit: `in_class(s, h)` holds
/// exactly when `s / 100 == h`, so every status from 400 to 499 is a
/// client error, and so on.
pub proof fn lemma_class_is_hundreds(status: u16, hundreds: int)
    ensures
        in_class(status, hundreds) <==> status / 100 == hundreds,
{
}

/// The header a header check reads is the first one whose name lowercases
/// to what `key` lowercases to; none is found when no name does.
pub proof fn lemma_header_match_first(headers: Seq<(String, String)>, key: Seq<char>)
    ensures
        match header_match(headers, key) {
            Some(i) => 0 <= i < headers.len() && lowercased(headers[i].0@) == lowercased(key)
                && forall|j: int| 0 <= j < i ==> lowercased(#[trigger] headers[j].0@) != lowercased(key),
            None => forall|j: int|
                0 <= j < headers.len() ==> lowercased(#[trigger] headers[j].0@) != lowercased(key),
        },
{
    let names = lowered_names(headers);
    lemma_position_of(names, lowercased(key));
    assert forall|j: int| 0 <= j < headers.len() implies names[j] == lowercased(
        #[trigger] headers[j].0@,
    ) by {}
}

/// A header check passes exactly when the first header whose name matches
/// `key` without regard to case has the value `value` as a whole: a value
/// that merely contains `value`, or differs from it in case, does not pass.
pub proof fn lemma_header_value_exact(headers: Seq<(String, String)>, key: Seq<char>, value: Seq<char>)
    ensures
        header_has_value(headers, key, value) <==> exists|i: int|
            0 <= i < headers.len() && lowercased(#[trigger] headers[i].0@) == lowercased(key)
                && (forall|j: int|
                0 <= j < i ==> lowercased(#[trigger] headers[j].0@) != lowercased(key))
                && headers[i].1@ == value,
{
    lemma_header_match_first(headers, key);
    match header_match(headers, key) {
        Some(i) => {
            if exists|k: int|
                0 <= k < headers.len() && lowercased(#[trigger] headers[k].0@) == lowercased(key)
                    && (forall|j: int|
                    0 <= j < k ==> lowercased(#[trigger] headers[j].0@) != lowercased(key))
                    && headers[k].1@ == value {
                let k = choose|k: int|
                    0 <= k < headers.len() && lowercased(#[trigger] headers[k].0@) == lowercased(
                        key,
                    ) && (forall|j: int|
                        0 <= j < k ==> lowercased(#[trigger] headers[j].0@) != lowercased(key))
                        && headers[k].1@ == value;
                assert(!(k < i));
                assert(!(i < k));
            }
        },
        None => {},
    }
}

/// A body check for a text passes on any body that holds the text
/// somewhere, however far in: for every `a` and `b`, the body `a + t + b`
/// contains `t`.
pub proof fn lemma_body_contains_anywhere(a: Seq<char>, t: Seq<char>, b: Seq<char>)
    ensures
        has_infix(a + t + b, t),
{
    crate::text::lemma_infix_anywhere(a, t, b);
}

} // verus!
