use armature_testing::{MockController, MockService, Spy};

#[test]
fn test_mock_service() {
    let mut mock = MockService::<String>::new();
    mock.record_call("test_method");
    assert_eq!(mock.call_count(), 1);
    assert!(mock.was_called("test_method"));
}

#[test]
fn test_mock_controller() {
    let mut mock = MockController::new("TestController");
    mock.record_call("get", vec!["id".to_string()]);
    assert_eq!(mock.method_call_count("get"), 1);
}

#[test]
fn test_spy() {
    let mut spy = Spy::new("test_value");
    spy.record("method1");
    spy.record("method2");
    assert_eq!(spy.call_count(), 2);
    assert!(spy.was_called("method1"));
}

#[test]
fn mock_service_return_value_and_clear() {
    let mut mock = MockService::<u32>::new().with_return(5);
    assert_eq!(mock.get_return(), Some(5));
    mock.record_call("a");
    mock.record_call("b");
    assert_eq!(mock.get_calls(), vec!["a".to_string(), "b".to_string()]);
    assert!(!mock.was_called("c"));
    mock.clear_calls();
    assert_eq!(mock.call_count(), 0);
    assert!(!mock.was_called("a"));
    let empty = MockService::<u32>::default();
    assert_eq!(empty.get_return(), None);
}

#[test]
fn controller_counts_per_method() {
    let mut mock = MockController::new("Users");
    mock.record_call("get", vec![]);
    mock.record_call("post", vec!["body".to_string()]);
    mock.record_call("get", vec!["2".to_string()]);
    assert_eq!(mock.method_call_count("get"), 2);
    assert_eq!(mock.method_call_count("post"), 1);
    assert_eq!(mock.method_call_count("delete"), 0);
    let all = mock.get_all_calls();
    assert_eq!(all.len(), 3);
    assert_eq!(all[1], ("post".to_string(), vec!["body".to_string()]));
    mock.clear();
    assert!(mock.get_all_calls().is_empty());
}

#[test]
fn spy_keeps_inner_value_and_order() {
    let mut spy = Spy::new(vec![1, 2]);
    spy.record("x");
    spy.record("y");
    assert_eq!(spy.calls(), vec!["x".to_string(), "y".to_string()]);
    assert_eq!(spy.inner(), &vec![1, 2]);
    spy.clear();
    assert_eq!(spy.call_count(), 0);
}
