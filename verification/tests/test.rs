#[test]
fn test_test_server() {}
