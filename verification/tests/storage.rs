use appscale_core::storage::{MemoryStore, StorageError, StorageNamespace};

fn store() -> MemoryStore<String> {
    MemoryStore::new("test")
}

fn get_string(s: &MemoryStore<String>, ns: &StorageNamespace, key: &str) -> Option<String> {
    s.get(ns, key).cloned()
}

#[test]
fn namespace_prefixed_keys() {
    let ns = StorageNamespace::new("myapp");
    assert_eq!(ns.prefixed_key("user"), "myapp:user");
    assert_eq!(ns.as_str(), "myapp");
}

#[test]
fn kv_set_get_delete() {
    let mut s = store();
    let ns = StorageNamespace::app_data();

    assert!(get_string(&s, &ns, "name").is_none());

    s.set(&ns, "name", "AppScale".to_string());
    assert_eq!(get_string(&s, &ns, "name").unwrap(), "AppScale");

    s.delete(&ns, "name");
    assert!(get_string(&s, &ns, "name").is_none());
}

#[test]
fn kv_namespaces_isolated() {
    let mut s = store();
    let ns1 = StorageNamespace::app_data();
    let ns2 = StorageNamespace::preferences();

    s.set(&ns1, "key", "value1".to_string());
    s.set(&ns2, "key", "value2".to_string());

    assert_eq!(get_string(&s, &ns1, "key").unwrap(), "value1");
    assert_eq!(get_string(&s, &ns2, "key").unwrap(), "value2");
}

#[test]
fn kv_clear_namespace() {
    let mut s = store();
    let ns = StorageNamespace::cache();

    s.set(&ns, "a", "1".to_string());
    s.set(&ns, "b", "2".to_string());
    s.clear(&ns);

    assert!(get_string(&s, &ns, "a").is_none());
    assert!(get_string(&s, &ns, "b").is_none());
}

#[test]
fn kv_list_keys() {
    let mut s = store();
    let ns = StorageNamespace::app_data();

    s.set(&ns, "alpha", "1".to_string());
    s.set(&ns, "beta", "2".to_string());
    s.set(&ns, "gamma", "3".to_string());

    let mut keys = s.keys(&ns);
    keys.sort();
    assert_eq!(keys, vec!["alpha", "beta", "gamma"]);
}

#[test]
fn kv_contains() {
    let mut s = store();
    let ns = StorageNamespace::app_data();

    assert!(!s.contains(&ns, "missing"));
    s.set(&ns, "present", "here".to_string());
    assert!(s.contains(&ns, "present"));
}

#[test]
fn secure_storage() {
    let mut s = store();
    assert!(s.supports_secure());

    s.secure_set("api_token", "secret123".as_bytes());
    let token = s.secure_get("api_token").unwrap();
    assert_eq!(String::from_utf8(token).unwrap(), "secret123");

    s.secure_delete("api_token");
    assert!(s.secure_get("api_token").is_none());
}

#[test]
fn file_operations() {
    let mut s = store();

    assert!(!s.file_exists("docs/readme.txt"));

    s.write_file("docs/readme.txt", "Hello, AppScale!".as_bytes());
    assert!(s.file_exists("docs/readme.txt"));

    let text = String::from_utf8(s.read_file("docs/readme.txt").unwrap()).unwrap();
    assert_eq!(text, "Hello, AppScale!");

    let files = s.list_files("docs");
    assert_eq!(files, vec!["docs/readme.txt"]);

    s.delete_file("docs/readme.txt");
    assert!(!s.file_exists("docs/readme.txt"));
}

#[test]
fn file_not_found() {
    let s = store();
    let result = s.read_file("nonexistent.txt");
    assert!(result.is_err());
    assert!(matches!(result.unwrap_err(), StorageError::FileNotFound(_)));
}

#[test]
fn clear_leaves_other_namespaces() {
    let mut s = store();
    let a = StorageNamespace::new("a");
    let b = StorageNamespace::new("b");
    s.set(&a, "k", "1".to_string());
    s.set(&b, "k", "2".to_string());
    s.clear(&a);
    assert!(get_string(&s, &a, "k").is_none());
    assert_eq!(get_string(&s, &b, "k").unwrap(), "2");
    assert_eq!(s.keys(&b), vec!["k"]);
    assert!(s.keys(&a).is_empty());
}

#[test]
fn set_overwrites_value() {
    let mut s = store();
    let ns = StorageNamespace::default();
    assert_eq!(ns.as_str(), "app_data");
    s.set(&ns, "k", "old".to_string());
    s.set(&ns, "k", "new".to_string());
    assert_eq!(get_string(&s, &ns, "k").unwrap(), "new");
    assert_eq!(s.keys(&ns).len(), 1);
}

#[test]
fn list_files_with_trailing_slash_and_nesting() {
    let mut s = store();
    s.write_file("docs/a.txt", b"a");
    s.write_file("docs/sub/b.txt", b"b");
    s.write_file("docsx/c.txt", b"c");
    let mut with_slash = s.list_files("docs/");
    with_slash.sort();
    assert_eq!(with_slash, vec!["docs/a.txt", "docs/sub/b.txt"]);
    let mut without = s.list_files("docs");
    without.sort();
    assert_eq!(without, with_slash);
}

#[test]
fn platform_id_is_kept() {
    let s: MemoryStore<u8> = MemoryStore::new("web");
    assert_eq!(s.platform_id(), "web");
}

#[test]
fn namespace_constructors() {
    assert_eq!(StorageNamespace::preferences().as_str(), "preferences");
    assert_eq!(StorageNamespace::cache().prefixed_key("x"), "cache:x");
}
