use armature_testing::contract::{
    ContractBuilder, ContractError, ContractInteraction, ContractManager, ContractMethod,
    ContractRequest, ContractResponse, ContractVerifier,
};
use armature_testing::JsonBody;

fn json(text: &str) -> JsonBody {
    JsonBody::parse(text).expect("valid JSON")
}

#[test]
fn test_contract_builder() {
    let request = ContractRequest::new(ContractMethod::Get, "/api/users/1");
    let response = ContractResponse::new(200).with_body(json(r#"{"id": 1, "name": "Alice"}"#));

    let mut builder = ContractBuilder::new("Frontend", "Backend");
    builder.add_interaction(ContractInteraction::new("get user by ID", request, response));

    let contract = builder.build();
    assert_eq!(contract.consumer.name, "Frontend");
    assert_eq!(contract.provider.name, "Backend");
    assert_eq!(contract.interactions.len(), 1);
}

#[test]
fn test_contract_verification_success() {
    let interaction = ContractInteraction::new(
        "get user",
        ContractRequest::new(ContractMethod::Get, "/api/users/1"),
        ContractResponse::new(200).with_body(json(r#"{"id": 1}"#)),
    );

    let actual = ContractResponse::new(200).with_body(json(r#"{"id": 1}"#));

    assert!(ContractVerifier::verify_interaction(&interaction, &actual).is_ok());
}

#[test]
fn test_contract_verification_status_mismatch() {
    let interaction = ContractInteraction::new(
        "get user",
        ContractRequest::new(ContractMethod::Get, "/api/users/1"),
        ContractResponse::new(200),
    );

    let actual = ContractResponse::new(404);

    assert!(ContractVerifier::verify_interaction(&interaction, &actual).is_err());
}

#[test]
fn test_contract_request_builder() {
    let request = ContractRequest::new(ContractMethod::Post, "/api/users")
        .with_query("page", "1")
        .with_header("Content-Type", "application/json")
        .with_body(json(r#"{"name": "Bob"}"#));

    assert_eq!(request.method, ContractMethod::Post);
    assert_eq!(request.path, "/api/users");
    assert!(request.query.is_some());
    assert!(request.headers.is_some());
    assert!(request.body.is_some());
}

#[test]
fn status_mismatch_message_names_both_statuses() {
    let interaction = ContractInteraction::new(
        "get user",
        ContractRequest::new(ContractMethod::Get, "/api/users/1"),
        ContractResponse::new(200),
    );
    match ContractVerifier::verify_interaction(&interaction, &ContractResponse::new(404)) {
        Err(ContractError::VerificationFailed(m)) => {
            assert_eq!(m, "Status mismatch: expected 200, got 404")
        }
        other => panic!("unexpected {:?}", other),
    }
}

#[test]
fn json_bodies_compare_by_value_not_by_text() {
    let interaction = ContractInteraction::new(
        "get user",
        ContractRequest::new(ContractMethod::Get, "/u"),
        ContractResponse::new(200).with_body(json(r#"{"id": 1, "name": "A"}"#)),
    );
    let same = ContractResponse::new(200).with_body(json(r#"{"name":"A","id":1}"#));
    assert!(ContractVerifier::verify_interaction(&interaction, &same).is_ok());
    let different = ContractResponse::new(200).with_body(json(r#"{"id": 2, "name": "A"}"#));
    assert!(ContractVerifier::verify_interaction(&interaction, &different).is_err());
    let missing = ContractResponse::new(200);
    assert!(ContractVerifier::verify_interaction(&interaction, &missing).is_err());
}

#[test]
fn header_mismatch_and_missing_header_fail() {
    let interaction = ContractInteraction::new(
        "get user",
        ContractRequest::new(ContractMethod::Get, "/u"),
        ContractResponse::new(200).with_header("Content-Type", "application/json"),
    );
    let good = ContractResponse::new(200)
        .with_header("Content-Type", "application/json")
        .with_header("X-Extra", "1");
    assert!(ContractVerifier::verify_interaction(&interaction, &good).is_ok());
    let wrong = ContractResponse::new(200).with_header("Content-Type", "text/plain");
    assert!(ContractVerifier::verify_interaction(&interaction, &wrong).is_err());
    let none = ContractResponse::new(200);
    assert!(ContractVerifier::verify_interaction(&interaction, &none).is_err());
}

#[test]
fn contract_passes_only_when_every_interaction_passes() {
    let contract = ContractBuilder::new("Frontend", "Backend").build();
    let ok = ContractInteraction::new(
        "a",
        ContractRequest::new(ContractMethod::Get, "/a"),
        ContractResponse::new(200),
    );
    let bad = ContractInteraction::new(
        "b",
        ContractRequest::new(ContractMethod::Get, "/b"),
        ContractResponse::new(201),
    );
    let all_ok = vec![
        (ok.clone(), ContractResponse::new(200)),
        (ok.clone(), ContractResponse::new(200)),
    ];
    assert!(ContractVerifier::verify_contract(&contract, &all_ok).is_ok());
    let one_bad = vec![
        (ok.clone(), ContractResponse::new(200)),
        (bad, ContractResponse::new(500)),
    ];
    assert!(ContractVerifier::verify_contract(&contract, &one_bad).is_err());
    assert!(ContractVerifier::verify_contract(&contract, &[]).is_ok());
}

#[test]
fn invalid_json_is_refused() {
    assert!(JsonBody::parse("{not json").is_none());
    assert!(JsonBody::parse("[1, 2, 3]").is_some());
}

#[test]
fn contract_file_name_joins_consumer_and_provider() {
    assert_eq!(
        ContractManager::contract_file_name("my-service", "backend-api"),
        "my-service-backend-api.json"
    );
    assert_eq!(
        ContractManager::contract_file_name("Frontend", "Backend"),
        "frontend-backend.json"
    );
}

#[test]
fn pact_specification_defaults_to_version_three() {
    let contract = ContractBuilder::new("Frontend", "Backend").build();
    assert_eq!(contract.metadata.pact_specification.version, "3.0.0");
    assert!(contract.interactions.is_empty());
}

#[test]
fn body_mismatch_message_shows_both_values() {
    let interaction = ContractInteraction::new(
        "count",
        ContractRequest::new(ContractMethod::Get, "/count"),
        ContractResponse::new(200).with_body(json("1")),
    );
    let actual = ContractResponse::new(200).with_body(json("2"));
    match ContractVerifier::verify_interaction(&interaction, &actual) {
        Err(ContractError::VerificationFailed(m)) => {
            assert_eq!(m, "Body mismatch: expected Number(1), got Number(2)")
        }
        other => panic!("unexpected {:?}", other),
    }
    match ContractVerifier::verify_interaction(&interaction, &ContractResponse::new(200)) {
        Err(ContractError::VerificationFailed(m)) => assert_eq!(m, "Missing response body"),
        other => panic!("unexpected {:?}", other),
    }
}

#[test]
fn identical_response_with_headers_and_body_passes() {
    let expected = ContractResponse::new(200)
        .with_header("Content-Type", "application/json")
        .with_body(json(r#"{"id": 1}"#));
    let actual = ContractResponse::new(200)
        .with_header("Content-Type", "application/json")
        .with_body(json(r#"{"id": 1}"#));
    let interaction = ContractInteraction::new(
        "get user",
        ContractRequest::new(ContractMethod::Get, "/api/users/1"),
        expected,
    );
    assert!(ContractVerifier::verify_interaction(&interaction, &actual).is_ok());
}

#[test]
fn contract_files_are_those_with_a_json_extension() {
    assert!(ContractManager::is_contract_file("frontend-backend.json"));
    assert!(ContractManager::is_contract_file("a.b.json"));
    assert!(!ContractManager::is_contract_file(".json"));
    assert!(!ContractManager::is_contract_file("json"));
    assert!(!ContractManager::is_contract_file("notes.txt"));
    assert!(!ContractManager::is_contract_file("pact.json.bak"));
    assert!(!ContractManager::is_contract_file("x.JSON"));
    assert!(ContractManager::is_contract_file("..json"));
}
