//! The error type of the library and its rendering as text.

use vstd::prelude::*;

verus! {

/// Error type for HTTP test operations.
#[derive(Debug)]
pub enum HttpTestError {
    /// The HTTP request failed to execute.
    RequestFailed(String),
    /// An assertion on the response did not hold.
    AssertionFailed {
        /// The expected value.
        expected: String,
        /// The actual value.
        actual: String,
        /// Additional context describing the assertion.
        context: String,
    },
    /// A JSON path could not be resolved.
    JsonPathError(String),
    /// A connection to the server could not be established.
    ConnectionError(String),
}

/// An `HttpTestError` with its texts seen as character sequences.
pub enum ErrorView {
    RequestFailed(Seq<char>),
    AssertionFailed { expected: Seq<char>, actual: Seq<char>, context: Seq<char> },
    JsonPathError(Seq<char>),
    ConnectionError(Seq<char>),
}

impl View for HttpTestError {
    type V = ErrorView;

    open spec fn view(&self) -> ErrorView {
        match self {
            HttpTestError::RequestFailed(m) => ErrorView::RequestFailed(m@),
            HttpTestError::AssertionFailed { expected, actual, context } => {
                ErrorView::AssertionFailed { expected: expected@, actual: actual@, context: context@ }
            },
            HttpTestError::JsonPathError(m) => ErrorView::JsonPathError(m@),
            HttpTestError::ConnectionError(m) => ErrorView::ConnectionError(m@),
        }
    }
}

/// The human-readable message for an error.
pub open spec fn error_message(e: ErrorView) -> Seq<char> {
    match e {
        ErrorView::RequestFailed(m) => "request failed: "@ + m,
        ErrorView::AssertionFailed { expected, actual, context } => "assertion failed ("@ + context
            + "): expected "@ + expected + ", got "@ + actual,
        ErrorView::JsonPathError(m) => "JSON path error: "@ + m,
        ErrorView::ConnectionError(m) => "connection error: "@ + m,
    }
}

impl HttpTestError {
    /// The human-readable message for this error, e.g.
    /// `request failed: timeout` or
    /// `assertion failed (status): expected 200, got 404`.
    pub fn to_string(&self) -> (r: String)
        ensures
            r@ == error_message(self@),
    {
        match self {
            HttpTestError::RequestFailed(m) => {
                let mut out = String::from_str("request failed: ");
                out.append(m.as_str());
                out
            },
            HttpTestError::AssertionFailed { expected, actual, context } => {
                let mut out = String::from_str("assertion failed (");
                out.append(context.as_str());
                out.append("): expected ");
                out.append(expected.as_str());
                out.append(", got ");
                out.append(actual.as_str());
                out
            },
            HttpTestError::JsonPathError(m) => {
                let mut out = String::from_str("JSON path error: ");
                out.append(m.as_str());
                out
            },
            HttpTestError::ConnectionError(m) => {
                let mut out = String::from_str("connection error: ");
                out.append(m.as_str());
                out
            },
        }
    }

    /// The error for a response body that is not valid JSON; `detail` is
    /// the parser's description of the problem.
    pub fn json_parse_failure(detail: &str) -> (r: HttpTestError)
        ensures
            r@ == ErrorView::JsonPathError("failed to parse JSON: "@ + detail@),
    {
        let mut m = String::from_str("failed to parse JSON: ");
        m.append(detail);
        HttpTestError::JsonPathError(m)
    }
}

} // verus!
