//! The request builder: constructors per HTTP method, fluent setters, and
//! what sending a request is made of (final URL, method, headers, body).

use vstd::prelude::*;
use vstd::string::StringSliceAdditionalSpecFns;
use vstd::utf8::encode_utf8;
use core::time::Duration;

use crate::base64::{base64, base64_encode};
use crate::json::{json_text, json_to_text};
use crate::text::{chars_of, find_char, index_of, lemma_index_of};

verus! {

broadcast use vstd::string::group_string_axioms;

/// The HTTP methods a request can be built for.
#[derive(Debug, Clone, Copy, PartialEq, Eq, Structural)]
pub enum Method {
    Get,
    Post,
    Put,
    Delete,
    Patch,
}

/// The name of a method as it is sent on the wire.
pub open spec fn method_name(m: Method) -> Seq<char> {
    match m {
        Method::Get => "GET"@,
        Method::Post => "POST"@,
        Method::Put => "PUT"@,
        Method::Delete => "DELETE"@,
        Method::Patch => "PATCH"@,
    }
}

impl Method {
    /// The name of the method, e.g. `GET`.
    pub fn as_str(&self) -> (r: &'static str)
        ensures
            r@ == method_name(*self),
    {
        match self {
            Method::Get => "GET",
            Method::Post => "POST",
            Method::Put => "PUT",
            Method::Delete => "DELETE",
            Method::Patch => "PATCH",
        }
    }
}

/// Key/value pairs of strings, seen as pairs of character sequences.
pub open spec fn pairs_view(v: Seq<(String, String)>) -> Seq<(Seq<char>, Seq<char>)> {
    v.map_values(|p: (String, String)| (p.0@, p.1@))
}

/// The content of a request builder.
pub struct RequestView {
    pub method: Method,
    pub url: Seq<char>,
    pub headers: Seq<(Seq<char>, Seq<char>)>,
    pub body: Option<Seq<char>>,
    pub query: Seq<(Seq<char>, Seq<char>)>,
    pub timeout: Option<Duration>,
}

/// A builder for constructing an HTTP test request.
#[derive(Debug)]
pub struct TestRequest {
    method: Method,
    url: String,
    headers: Vec<(String, String)>,
    body: Option<String>,
    query: Vec<(String, String)>,
    timeout: Option<Duration>,
}

impl View for TestRequest {
    type V = RequestView;

    closed spec fn view(&self) -> RequestView {
        RequestView {
            method: self.method,
            url: self.url@,
            headers: pairs_view(self.headers@),
            body: match self.body {
                Some(b) => Some(b@),
                None => None,
            },
            query: pairs_view(self.query@),
            timeout: self.timeout,
        }
    }
}

/// A request for `url` with method `m` and nothing else set.
pub open spec fn fresh_request(m: Method, url: Seq<char>) -> RequestView {
    RequestView {
        method: m,
        url: url,
        headers: Seq::empty(),
        body: None,
        query: Seq::empty(),
        timeout: None,
    }
}

/// `r` with one more header at the end.
pub open spec fn with_header(r: RequestView, key: Seq<char>, value: Seq<char>) -> RequestView {
    RequestView { headers: r.headers.push((key, value)), ..r }
}

/// The query parameters joined as `k1=v1&k2=v2...`, in the order they were added.
pub open spec fn query_string(q: Seq<(Seq<char>, Seq<char>)>) -> Seq<char>
    decreases q.len(),
{
    if q.len() == 0 {
        Seq::empty()
    } else if q.len() == 1 {
        q[0].0 + "="@ + q[0].1
    } else {
        query_string(q.drop_last()) + "&"@ + q.last().0 + "="@ + q.last().1
    }
}

/// The URL a request is sent to: the base URL, followed, when there are
/// query parameters, by `?` (or `&` when the URL already holds a `?`) and
/// the joined parameters.
pub open spec fn full_url(url: Seq<char>, q: Seq<(Seq<char>, Seq<char>)>) -> Seq<char> {
    if q.len() == 0 {
        url
    } else {
        url + (if url.contains('?') {
            "&"@
        } else {
            "?"@
        }) + query_string(q)
    }
}

/// What is handed to the HTTP client when a request is sent.
#[derive(Debug)]
pub struct PreparedRequest {
    pub method: Method,
    pub url: String,
    pub headers: Vec<(String, String)>,
    pub body: Option<String>,
    pub timeout: Option<Duration>,
}

/// A copy of a list of string pairs.
fn copy_pairs(v: &Vec<(String, String)>) -> (r: Vec<(String, String)>)
    ensures
        pairs_view(r@) == pairs_view(v@),
{
    let mut out: Vec<(String, String)> = Vec::new();
    let mut i: usize = 0;
    while i < v.len()
        invariant
            i <= v@.len(),
            pairs_view(out@) == pairs_view(v@.take(i as int)),
        decreases v.len() - i,
    {
        let k = v[i].0.clone();
        let val = v[i].1.clone();
        assert(k@ == v@[i as int].0@);
        assert(val@ == v@[i as int].1@);
        let ghost old_out = out@;
        out.push((k, val));
        assert(v@.take(i + 1) == v@.take(i as int).push(v@[i as int]));
        assert(pairs_view(out@) =~= pairs_view(old_out).push((k@, val@)));
        assert(pairs_view(v@.take(i + 1)) =~= pairs_view(v@.take(i as int)).push(
            (v@[i as int].0@, v@[i as int].1@),
        ));
        i += 1;
    }
    assert(v@.take(v@.len() as int) == v@);
    out
}

/// Create a GET request to the given URL.
pub fn get(url: &str) -> (r: TestRequest)
    ensures
        r@ == fresh_request(Method::Get, url@),
{
    TestRequest::new(Method::Get, url)
}

/// Create a POST request to the given URL.
pub fn post(url: &str) -> (r: TestRequest)
    ensures
        r@ == fresh_request(Method::Post, url@),
{
    TestRequest::new(Method::Post, url)
}

/// Create a PUT request to the given URL.
pub fn put(url: &str) -> (r: TestRequest)
    ensures
        r@ == fresh_request(Method::Put, url@),
{
    TestRequest::new(Method::Put, url)
}

/// Create a DELETE request to the given URL.
pub fn delete(url: &str) -> (r: TestRequest)
    ensures
        r@ == fresh_request(Method::Delete, url@),
{
    TestRequest::new(Method::Delete, url)
}

/// Create a PATCH request to the given URL.
pub fn patch(url: &str) -> (r: TestRequest)
    ensures
        r@ == fresh_request(Method::Patch, url@),
{
    TestRequest::new(Method::Patch, url)
}

impl TestRequest {
    fn new(method: Method, url: &str) -> (r: TestRequest)
        ensures
            r@ == fresh_request(method, url@),
    {
        let r = TestRequest {
            method,
            url: String::from_str(url),
            headers: Vec::new(),
            body: None,
            query: Vec::new(),
            timeout: None,
        };
        assert(pairs_view(r.headers@) =~= Seq::empty());
        assert(pairs_view(r.query@) =~= Seq::empty());
        r
    }

    /// Add a header to the request.
    pub fn header(self, key: &str, value: &str) -> (r: TestRequest)
        ensures
            r@ == with_header(self@, key@, value@),
    {
        let mut req = self;
        let ghost old_headers = req.headers@;
        req.headers.push((String::from_str(key), String::from_str(value)));
        assert(pairs_view(req.headers@) =~= pairs_view(old_headers).push((key@, value@)));
        req
    }

    /// Set the `Authorization: Bearer <token>` header.
    pub fn bearer_token(self, token: &str) -> (r: TestRequest)
        ensures
            r@ == with_header(self@, "Authorization"@, "Bearer "@ + token@),
    {
        let mut value = String::from_str("Bearer ");
        value.append(token);
        self.header("Authorization", value.as_str())
    }

    /// Set the `Authorization: Basic <credentials>` header, where the
    /// credentials are the base64 encoding of the UTF-8 bytes of `user:pass`.
    pub fn basic_auth(self, user: &str, pass: &str) -> (r: TestRequest)
        ensures
            r@ == with_header(
                self@,
                "Authorization"@,
                "Basic "@ + base64(encode_utf8(user@ + ":"@ + pass@)),
            ),
    {
        let mut credentials = String::from_str(user);
        credentials.append(":");
        credentials.append(pass);
        let encoded = base64_encode(credentials.as_str().as_bytes());
        let mut value = String::from_str("Basic ");
        value.append(encoded.as_str());
        self.header("Authorization", value.as_str())
    }

    /// Add a query parameter to the request URL.
    pub fn query(self, key: &str, value: &str) -> (r: TestRequest)
        ensures
            r@ == (RequestView { query: self@.query.push((key@, value@)), ..self@ }),
    {
        let mut req = self;
        let ghost old_query = req.query@;
        req.query.push((String::from_str(key), String::from_str(value)));
        assert(pairs_view(req.query@) =~= pairs_view(old_query).push((key@, value@)));
        req
    }

    /// Set a JSON body (the value written as compact JSON text) and the
    /// `Content-Type: application/json` header.
    pub fn json_body(self, value: &serde_json::Value) -> (r: TestRequest)
        ensures
            r@ == (RequestView {
                body: Some(json_text(*value)),
                headers: self@.headers.push(("Content-Type"@, "application/json"@)),
                ..self@
            }),
    {
        let mut req = self;
        let ghost old_headers = req.headers@;
        let text = json_to_text(value);
        let ghost t = text@;
        req.body = Some(text);
        req.headers.push((String::from_str("Content-Type"), String::from_str("application/json")));
        assert(pairs_view(req.headers@) =~= pairs_view(old_headers).push(
            ("Content-Type"@, "application/json"@),
        ));
        assert(req@.body == Some(t));
        req
    }

    /// Set the raw request body.
    pub fn body(self, body: &str) -> (r: TestRequest)
        ensures
            r@ == (RequestView { body: Some(body@), ..self@ }),
    {
        let mut req = self;
        req.body = Some(String::from_str(body));
        req
    }

    /// Set the request timeout.
    pub fn timeout(self, duration: Duration) -> (r: TestRequest)
        ensures
            r@ == (RequestView { timeout: Some(duration), ..self@ }),
    {
        let mut req = self;
        req.timeout = Some(duration);
        req
    }

    /// The URL the request is sent to, query parameters included.
    pub fn request_url(&self) -> (r: String)
        ensures
            r@ == full_url(self@.url, self@.query),
    {
        let mut url = self.url.clone();
        let n = self.query.len();
        if n == 0 {
            return url;
        }
        let cs = chars_of(self.url.as_str());
        let has_question = find_char(&cs, 0, cs.len(), '?').is_some();
        proof {
            assert(cs@.subrange(0, cs@.len() as int) == cs@);
            lemma_index_of(cs@, '?');
            if has_question {
                let k = index_of(cs@, '?')->0;
                assert(cs@[k] == '?');
            } else {
                assert forall|j: int| 0 <= j < cs@.len() implies cs@[j] != '?' by {}
            }
        }
        if has_question {
            url.append("&");
        } else {
            url.append("?");
        }
        let ghost q = pairs_view(self.query@);
        let ghost prefix = url@;
        let mut i: usize = 0;
        while i < n
            invariant
                n == self.query@.len(),
                i <= n,
                q == pairs_view(self.query@),
                url@ == prefix + query_string(q.take(i as int)),
            decreases n - i,
        {
            if i > 0 {
                url.append("&");
            }
            let ghost before = url@;
            url.append(self.query[i].0.as_str());
            url.append("=");
            url.append(self.query[i].1.as_str());
            proof {
                let kv = q[i as int];
                assert(kv == q.take(i + 1).last());
                if i == 0 {
                    assert(url@ =~= prefix + (kv.0 + "="@ + kv.1));
                    assert(q.take(1).len() == 1);
                    assert(q.take(1)[0] == kv);
                } else {
                    assert(url@ =~= prefix + (query_string(q.take(i as int)) + "&"@ + kv.0 + "="@ + kv.1));
                }
                assert(q.take(i + 1).drop_last() == q.take(i as int));
                if i == 0 {
                    assert(query_string(q.take(0)) =~= Seq::<char>::empty());
                }
            }
            i += 1;
        }
        assert(q.take(n as int) == q);
        url
    }

    /// The method, final URL, headers, body and timeout with which the
    /// request is sent.
    pub fn prepare(&self) -> (r: PreparedRequest)
        ensures
            r.method == self@.method,
            r.url@ == full_url(self@.url, self@.query),
            pairs_view(r.headers@) == self@.headers,
            match r.body {
                Some(b) => self@.body == Some(b@),
                None => self@.body is None,
            },
            r.timeout == self@.timeout,
    {
        let body = match &self.body {
            Some(b) => Some(b.clone()),
            None => None,
        };
        PreparedRequest {
            method: self.method,
            url: self.request_url(),
            headers: copy_pairs(&self.headers),
            body,
            timeout: self.timeout,
        }
    }
}

/// Adding a query parameter to a request that already has some appends
/// `&key=value` to the URL it is sent to.
pub proof fn lemma_query_appends(
    url: Seq<char>,
    q: Seq<(Seq<char>, Seq<char>)>,
    key: Seq<char>,
    value: Seq<char>,
)
    requires
        q.len() > 0,
    ensures
        full_url(url, q.push((key, value))) == full_url(url, q) + "&"@ + key + "="@ + value,
{
    let q2 = q.push((key, value));
    assert(q2.drop_last() =~= q);
    let sep = if url.contains('?') {
        "&"@
    } else {
        "?"@
    };
    assert(full_url(url, q2) =~= url + sep + (query_string(q) + "&"@ + key + "="@ + value));
}

/// The first query parameter of a URL without `?` starts the query
/// string with `?`; on a URL that has one already, with `&`.
pub proof fn lemma_first_query(url: Seq<char>, key: Seq<char>, value: Seq<char>)
    ensures
        full_url(url, seq![(key, value)]) == url + (if url.contains('?') {
            "&"@
        } else {
            "?"@
        }) + key + "="@ + value,
{
    let sep = if url.contains('?') {
        "&"@
    } else {
        "?"@
    };
    assert(full_url(url, seq![(key, value)]) =~= url + sep + key + "="@ + value);
}

} // verus!
