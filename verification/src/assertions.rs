//! Assertions on test responses.
//!
//! Each assertion states its condition as its precondition, so that a verified
//! caller must show it holds; it also checks the condition when it runs, and
//! panics where it fails, for callers that Verus does not see.
use crate::test_client::{body_text, header_value, status_or_zero, TestResponse};
use crate::text::{contains_text, text_contains};
use vstd::pervasive::runtime_assert;
use vstd::prelude::*;

verus! {

/// The body as text, empty for an error or for a body that is not UTF-8.
pub open spec fn body_or_empty(response: TestResponse) -> Seq<char> {
    match body_text(response) {
        Some(t) => t,
        None => Seq::empty(),
    }
}

/// Whether header `key` is present and its value contains `part`.
pub open spec fn header_contains(response: TestResponse, key: Seq<char>, part: Seq<char>) -> bool {
    match header_value(response, key) {
        Some(v) => contains_text(v, part),
        None => false,
    }
}

/// Whether the status lies in `[low, high)`; an error has status zero.
pub open spec fn status_in(response: TestResponse, low: int, high: int) -> bool {
    low <= status_or_zero(response) < high
}

/// The status, zero for an error.
fn status_of(response: &TestResponse) -> (s: u16)
    ensures
        s == status_or_zero(*response),
{
    match response.status() {
        Some(s) => s,
        None => 0,
    }
}

/// Whether header `key` is present and contains `part`.
fn header_has(response: &TestResponse, key: &str, part: &str) -> (b: bool)
    ensures
        b == header_contains(*response, key@, part@),
{
    match response.header(key) {
        Some(value) => text_contains(value.as_str(), part),
        None => false,
    }
}

/// Whether the response's status (zero for an error) is `expected`.
fn status_is(response: &TestResponse, expected: u16) -> (b: bool)
    ensures
        b == (status_or_zero(*response) == expected),
{
    status_of(response) == expected
}

/// Assert that a response has a specific status code.
pub fn assert_status(response: &TestResponse, expected: u16)
    requires
        status_or_zero(*response) == expected,
{
    runtime_assert(status_is(response, expected));
}

/// Assert that a response has a specific header value.
pub fn assert_header(response: &TestResponse, key: &str, expected: &str)
    requires
        header_value(*response, key@) == Some(expected@),
{
    let ok = match response.header(key) {
        Some(value) => value.eq(&expected.to_string()),
        None => false,
    };
    runtime_assert(ok);
}

/// Assert that the response body contains a string; an error or a body that
/// is not UTF-8 counts as the empty body.
pub fn assert_body_contains(response: &TestResponse, expected: &str)
    requires
        contains_text(body_or_empty(*response), expected@),
{
    let body = match response.body_string() {
        Some(body) => body,
        None => String::new(),
    };
    assert(body@ == body_or_empty(*response));
    runtime_assert(text_contains(body.as_str(), expected));
}

/// Assert that a response is successful (2xx status).
pub fn assert_success(response: &TestResponse)
    requires
        status_in(*response, 200, 300),
{
    let status = status_of(response);
    runtime_assert(200 <= status && status < 300);
}

/// Assert that a response is a client error (4xx status).
pub fn assert_client_error(response: &TestResponse)
    requires
        status_in(*response, 400, 500),
{
    let status = status_of(response);
    runtime_assert(400 <= status && status < 500);
}

/// Assert that a response is a server error (5xx status).
pub fn assert_server_error(response: &TestResponse)
    requires
        status_in(*response, 500, 600),
{
    let status = status_of(response);
    runtime_assert(500 <= status && status < 600);
}

/// Assert that the `Content-Type` header contains `application/json`.
pub fn assert_json_content_type(response: &TestResponse)
    requires
        header_contains(*response, "Content-Type"@, "application/json"@),
{
    runtime_assert(header_has(response, "Content-Type", "application/json"));
}

/// Assert that the `Content-Type` header contains `text/html`.
pub fn assert_html_content_type(response: &TestResponse)
    requires
        header_contains(*response, "Content-Type"@, "text/html"@),
{
    runtime_assert(header_has(response, "Content-Type", "text/html"));
}

} // verus!
