use triangular_db::configuration::Config;
use triangular_db::json::{instantiate, is_id_key, Json};
use triangular_db::manager::{initialize_containers, ContainerManager};
use triangular_db::store::{join_list, StoreError};

fn text(s: &str) -> String {
    s.to_string()
}

fn object(members: Vec<(&str, Json)>) -> Json {
    let mut keys = Vec::new();
    let mut values = Vec::new();
    for (k, v) in members {
        keys.push(text(k));
        values.push(v);
    }
    Json::Object(keys, values)
}

#[test]
fn instantiate_replaces_nested_markers() {
    let template = object(vec![
        ("id", Json::Null),
        ("name", Json::Str(text("fixed"))),
        ("count", Json::Number(text("3"))),
        ("flag", Json::Bool(true)),
        (
            "children",
            Json::Array(vec![
                object(vec![("id", Json::Str(text("old"))), ("x", Json::Null)]),
                Json::Str(text("id")),
            ]),
        ),
        ("inner", object(vec![("deep", object(vec![("id", Json::Number(text("1")))]))])),
    ]);
    let r = instantiate(&template, &text("v1"));
    let expected = object(vec![
        ("id", Json::Str(text("v1"))),
        ("name", Json::Str(text("fixed"))),
        ("count", Json::Number(text("3"))),
        ("flag", Json::Bool(true)),
        (
            "children",
            Json::Array(vec![
                object(vec![("id", Json::Str(text("v1"))), ("x", Json::Null)]),
                Json::Str(text("id")),
            ]),
        ),
        ("inner", object(vec![("deep", object(vec![("id", Json::Str(text("v1")))]))])),
    ]);
    assert_eq!(r, expected);
}

#[test]
fn instantiate_without_marker_is_identity() {
    let template = object(vec![("a", Json::Str(text("b")))]);
    assert_eq!(instantiate(&template, &text("zzz")), object(vec![("a", Json::Str(text("b")))]));
    assert_eq!(instantiate(&Json::Null, &text("v")), Json::Null);
}

#[test]
fn id_key_is_recognised() {
    assert!(is_id_key(&text("id")));
    assert!(!is_id_key(&text("ID")));
    assert!(!is_id_key(&text("module")));
}

#[test]
fn discovery_lists_only_missing_and_is_idempotent() {
    let schema = object(vec![
        ("users", object(vec![])),
        ("orders", object(vec![])),
        ("logs", object(vec![])),
    ]);
    let existing = vec![text("orders")];
    let created = initialize_containers(&schema, &existing).unwrap();
    assert_eq!(created, vec![text("users"), text("logs")]);
    let mut all = existing.clone();
    all.extend(created);
    assert!(initialize_containers(&schema, &all).unwrap().is_empty());
}

#[test]
fn discovery_of_non_object_schema_is_refused() {
    assert_eq!(initialize_containers(&Json::Array(vec![]), &vec![]), Err(StoreError::SchemaUnparsable));
    assert_eq!(
        initialize_containers(&Json::Number(text("5")), &vec![]),
        Err(StoreError::SchemaUnparsable)
    );
}

#[test]
fn pool_size_zero_counts_as_one() {
    let m = ContainerManager::with_pool_size(0);
    assert_eq!(m.chunk_len(5), 5);
    let m = ContainerManager::with_pool_size(4);
    assert_eq!(m.chunk_len(10), 3);
    assert_eq!(m.chunk_len(8), 2);
}

#[test]
fn lock_slots_are_stable_per_name() {
    let mut m = ContainerManager::new();
    let a = m.get_container_lock(&text("a"));
    let b = m.get_container_lock(&text("b"));
    let a2 = m.get_container_lock(&text("a"));
    assert_eq!(a, 0);
    assert_eq!(b, 1);
    assert_eq!(a2, a);
}

#[test]
fn chunk_len_spreads_names_over_the_pool() {
    let m = ContainerManager::new();
    assert_eq!(m.chunk_len(0), 1);
    let c = m.chunk_len(100);
    assert!(c >= 1);
}

#[test]
fn config_address_and_defaults() {
    let c = Config::default();
    assert_eq!(c.address(), "0.0.0.0:8080");
    assert!(!c.enforce_declared_keys);
    let c = Config { ip: text("127.0.0.1"), port: 9, silent: true, enforce_declared_keys: false };
    assert_eq!(c.address(), "127.0.0.1:9");
    let c = Config { ip: text(""), port: 0, silent: true, enforce_declared_keys: true }.normalized();
    assert_eq!(c, Config { ip: text("0.0.0.0"), port: 8080, silent: true, enforce_declared_keys: true });
    let c = Config { ip: text("::1"), port: 65535, silent: false, enforce_declared_keys: false }.normalized();
    assert_eq!(c.address(), "::1:65535");
}

#[test]
fn join_list_separates_with_comma_space() {
    assert_eq!(join_list(&vec![]), "");
    assert_eq!(join_list(&vec![text("a")]), "a");
    assert_eq!(join_list(&vec![text("a"), text("b"), text("c")]), "a, b, c");
}

#[test]
fn every_error_has_its_message() {
    let all = [
        (StoreError::SchemaUnreadable, "ERROR: Failed to read tree.json"),
        (StoreError::SchemaUnparsable, "ERROR: Failed to parse tree.json"),
        (StoreError::ContainerNotFound, "ERROR: Container not found in tree.json"),
        (StoreError::ContainerMissing, "ERROR: Container does not exist"),
        (StoreError::ContainerUnreadable, "ERROR: Failed to read container file"),
        (StoreError::ContainerUnparsable, "ERROR: Failed to parse container file"),
        (StoreError::ModuleNotFound, "ERROR: Module not found"),
        (StoreError::KeyNotFound, "ERROR: Key not found"),
        (StoreError::KeyNotDeclared, "ERROR: Key not declared for container"),
        (StoreError::InvalidFormat, "ERROR: Invalid container format"),
        (StoreError::FormatFailed, "ERROR: Failed to format data"),
        (StoreError::WriteFailed, "ERROR: Failed to write container file"),
    ];
    for (e, m) in all {
        assert_eq!(e.message(), m);
    }
}
