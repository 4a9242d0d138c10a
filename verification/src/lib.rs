//! Declarative HTTP API integration testing: request builders, the
//! decisions behind sending a request, and fluent response assertions.
//!
//! Each assertion comes in two forms: `check_*` hands the response back
//! when the property holds, so that checks chain, and the failure message
//! otherwise; `assert_*` asks its caller to guarantee the property and
//! hands the response back.

pub mod base64;
pub mod error;
pub mod json;
pub mod path;
pub mod request;
pub mod response;
pub mod text;

pub use base64::base64_encode;
pub use error::{ErrorView, HttpTestError};
pub use json::{json_equal, json_path_matches, resolve_json_path, JsonValue};
pub use path::{parse_path_segments, path_is_well_formed, PathSegment};
pub use request::{delete, get, patch, post, put, Method, PreparedRequest, TestRequest};
pub use response::TestResponse;
pub use text::truncate_for_display;
