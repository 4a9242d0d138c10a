# http_test

Declarative HTTP API integration testing with fluent assertions, written in
Verus.

- `src/` is the verified library: request builders (`get`, `post`, `put`,
  `delete`, `patch` and the fluent setters), the URL, method, headers and
  body a request is sent with (`TestRequest::prepare`), response checks,
  the JSON path language (`users[0].name`) and its lookups in a JSON model,
  base64 for `basic_auth` (with its decoding law), and the error type with
  its messages.
  Every check comes twice: `check_status`, `check_ok`, `check_header`,
  `check_body_contains`, `check_json_path`, ... decide whether the property
  holds and word the failure; `assert_status`, `assert_ok`, ... ask the
  caller to guarantee it and hand the response back, so that they chain.
- `app/` sends a prepared request with `reqwest`, offers the assertions
  that panic with the library's failure message, and gives the error type
  `Display` and `std::error::Error`.
- `tests/` exercises the library on concrete values.

Modules of `src/`: `request`, `response`, `path`, `json`, `base64`, `error`,
`text` (character helpers shared by the others).
