use armature_testing::prelude::{MockService, TestResponse};

#[test]
fn test_module_exports() {
    // Ensure module compiles
}

#[test]
fn prelude_items_are_usable() {
    let mock = MockService::<u8>::new();
    assert_eq!(mock.call_count(), 0);
    let response = TestResponse::Error("e".to_string());
    assert_eq!(response.status(), None);
}
