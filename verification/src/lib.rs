//! Testing utilities: response assertions, a test request builder, mocks and
//! spies, consumer-driven contracts, container configuration, integration
//! fixtures, module wiring for test applications, and load statistics.
//!
//! The test application, its HTTP test client and its dependency-injection
//! container are not here: they only forward to the web framework's own
//! `Application`, `Router` and `Container`, which this crate does not depend
//! on; what they decide themselves (which module of a module graph to wire,
//! and in which order) is in `test_app`.

pub mod assertions;
pub mod contract;
pub mod docker;
pub mod integration;
pub mod json;
pub mod load;
pub mod mock;
pub mod prelude;
pub mod string_map;
pub mod test_app;
pub mod test_client;
pub mod text;

pub use assertions::{
    assert_body_contains, assert_client_error, assert_header, assert_html_content_type,
    assert_json_content_type, assert_server_error, assert_status, assert_success,
};
pub use json::JsonBody;
pub use mock::{MockController, MockProvider, MockService, Spy};
pub use string_map::StringMap;
pub use test_app::{ModuleWiring, WireStep};
pub use test_client::{HttpMethod, RecordedResponse, TestRequestBuilder, TestResponse};
