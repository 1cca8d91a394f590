use appscale_core::modules::{check_sync_call, MethodDescriptor, ModuleError};

#[test]
fn method_descriptors() {
    let s = MethodDescriptor::sync("ping", "returns pong");
    assert_eq!(s.name, "ping");
    assert_eq!(s.description, "returns pong");
    assert!(!s.is_async);
    let a = MethodDescriptor::async_method("fetch", "loads data");
    assert!(a.is_async);
    assert_eq!(a.name, "fetch");
}

#[test]
fn sync_call_rules() {
    let methods = vec![
        MethodDescriptor::sync("ping", "returns pong"),
        MethodDescriptor::async_method("fetch", "loads data"),
        MethodDescriptor::async_method("ping", "shadowed"),
    ];
    assert!(check_sync_call("Test", &methods, "ping").is_ok());
    assert!(matches!(check_sync_call("Test", &methods, "fetch"), Err(ModuleError::IsAsync(m)) if m == "fetch"));
    assert!(matches!(check_sync_call("Test", &methods, "nope"),
        Err(ModuleError::MethodNotFound { module, method }) if module == "Test" && method == "nope"));
}
