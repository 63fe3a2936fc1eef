use armature_testing::{HttpMethod, RecordedResponse, TestRequestBuilder, TestResponse};

#[test]
fn test_request_builder() {
    let req = TestRequestBuilder::new(HttpMethod::GET, "/test")
        .header("Authorization", "Bearer token")
        .query("foo", "bar")
        .build();

    assert_eq!(req.method, "GET");
    assert!(req.path.contains("/test"));
    assert_eq!(
        req.headers.get("Authorization").map(|s| s.as_str()),
        Some("Bearer token")
    );
}

#[test]
fn build_appends_query_parameters_in_insertion_order() {
    let req = TestRequestBuilder::new(HttpMethod::POST, "/search")
        .query("q", "rust")
        .query("page", "2")
        .build();
    assert_eq!(req.method, "POST");
    assert_eq!(req.path, "/search?q=rust&page=2");
    assert_eq!(req.query_params.len(), 2);
    assert_eq!(req.path_params.len(), 0);
}

#[test]
fn build_without_query_keeps_path() {
    let req = TestRequestBuilder::new(HttpMethod::DELETE, "/items/3").build();
    assert_eq!(req.method, "DELETE");
    assert_eq!(req.path, "/items/3");
    assert!(req.body.is_empty());
}

#[test]
fn repeated_query_key_keeps_last_value() {
    let req = TestRequestBuilder::new(HttpMethod::GET, "/a")
        .query("k", "1")
        .query("k", "2")
        .build();
    assert_eq!(req.path, "/a?k=2");
}

#[test]
fn json_body_sets_content_type() {
    let req = TestRequestBuilder::new(HttpMethod::PUT, "/users/1")
        .json(b"{\"name\":\"Bob\"}".to_vec())
        .build();
    assert_eq!(
        req.headers.get("Content-Type").map(|s| s.as_str()),
        Some("application/json")
    );
    assert_eq!(req.body, b"{\"name\":\"Bob\"}".to_vec());
}

#[test]
fn method_names() {
    assert_eq!(HttpMethod::QUERY.as_str(), "QUERY");
    assert_eq!(HttpMethod::OPTIONS.as_str(), "OPTIONS");
    assert_eq!(HttpMethod::PATCH.as_str(), "PATCH");
}

#[test]
fn response_accessors() {
    let response = TestResponse::Success(
        RecordedResponse::new(201)
            .with_header("Location", "/users/7")
            .with_body(b"created".to_vec()),
    );
    assert_eq!(response.status(), Some(201));
    assert_eq!(response.body_string(), Some("created".to_string()));
    assert_eq!(response.header("Location").map(|s| s.as_str()), Some("/users/7"));
    assert_eq!(response.header("Missing"), None);
    assert_eq!(response.assert_success().status, 201);
}

#[test]
fn body_that_is_not_utf8_has_no_text() {
    let response = TestResponse::Success(RecordedResponse::ok().with_body(vec![0xff, 0xfe, 0x41]));
    assert_eq!(response.body_string(), None);
}

#[test]
fn error_response_accessors() {
    let response = TestResponse::Error("route not found".to_string());
    assert_eq!(response.status(), None);
    assert_eq!(response.body_string(), None);
    assert_eq!(response.header("Content-Type"), None);
    assert_eq!(response.assert_error(), "route not found");
    match response.body_json_source() {
        Err(e) => assert_eq!(e, "route not found"),
        Ok(_) => panic!("an error response has no body"),
    }
}
