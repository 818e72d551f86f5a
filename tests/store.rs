use mr_hedgehog::store::{method_key, register_type};
use mr_hedgehog::store::{FunctionSignature, MemorySymbolStore, MethodResolution, SymbolStore};

fn sample_sig(name: &str) -> FunctionSignature {
    FunctionSignature {
        name: name.to_string(),
        is_public: true,
        receiver: Some("&self".to_string()),
        location: "test.rs:1".to_string(),
        crate_name: "test_crate".to_string(),
    }
}

#[test]
fn test_memory_store_functions() {
    let mut store = MemorySymbolStore::default();
    store.insert_function("test::foo".to_string(), sample_sig("foo"));
    let retrieved = store.get_function("test::foo");
    assert!(retrieved.is_some());
    assert_eq!(retrieved.unwrap().name, "foo");
    assert!(store.get_function("nonexistent").is_none());
}

#[test]
fn test_memory_store_methods() {
    let mut store = MemorySymbolStore::default();
    store.insert_method("MyType".to_string(), "bar".to_string(), sample_sig("bar"));
    store.register_method_lookup("bar".to_string(), "MyType".to_string());
    let retrieved = store.get_method("MyType", "bar");
    assert!(retrieved.is_some());
    assert_eq!(retrieved.unwrap().name, "bar");
    let by_name = store.find_methods_by_name("bar");
    assert_eq!(by_name.len(), 1);
    assert_eq!(by_name[0].name, "bar");
}

#[test]
fn insert_replaces_and_round_trips_every_field() {
    let mut store = MemorySymbolStore::new();
    store.insert_function("k".to_string(), sample_sig("first"));
    let mut second = sample_sig("second");
    second.receiver = None;
    second.is_public = false;
    store.insert_function("k".to_string(), second);
    let got = store.get_function("k").unwrap();
    assert_eq!(got.name, "second");
    assert!(!got.is_public);
    assert_eq!(got.receiver, None);
    assert_eq!(got.location, "test.rs:1");
    assert_eq!(got.crate_name, "test_crate");
}

#[test]
fn find_methods_is_independent_of_registration_order() {
    let mut a = MemorySymbolStore::new();
    let mut b = MemorySymbolStore::new();
    for store in [&mut a, &mut b] {
        store.insert_method("T1".to_string(), "run".to_string(), sample_sig("t1"));
        store.insert_method("T2".to_string(), "run".to_string(), sample_sig("t2"));
        store.insert_method("T3".to_string(), "stop".to_string(), sample_sig("t3"));
    }
    a.register_method_lookup("run".to_string(), "T1".to_string());
    a.register_method_lookup("run".to_string(), "T2".to_string());
    b.register_method_lookup("run".to_string(), "T2".to_string());
    b.register_method_lookup("run".to_string(), "T1".to_string());
    b.register_method_lookup("run".to_string(), "T1".to_string());
    let mut na: Vec<String> = a.find_methods_by_name("run").into_iter().map(|s| s.name).collect();
    let mut nb: Vec<String> = b.find_methods_by_name("run").into_iter().map(|s| s.name).collect();
    na.sort();
    nb.sort();
    assert_eq!(na, vec!["t1".to_string(), "t2".to_string()]);
    assert_eq!(na, nb);
    assert!(a.find_methods_by_name("stop").is_empty());
    assert!(a.find_methods_by_name("missing").is_empty());
}

#[test]
fn trait_object_delegates() {
    let mut store = MemorySymbolStore::new();
    let dynamic: &mut dyn SymbolStore = &mut store;
    dynamic.insert_function("m::f".to_string(), sample_sig("f"));
    assert_eq!(dynamic.get_function("m::f").unwrap().name, "f");
    assert!(dynamic.get_method("T", "f").is_none());
}

#[test]
fn disk_keys_and_registration() {
    assert_eq!(method_key("DiskType", "method"), "DiskType::method");
    let mut types = vec!["A".to_string()];
    assert!(register_type(&mut types, "B".to_string()));
    assert!(!register_type(&mut types, "A".to_string()));
    assert_eq!(types, vec!["A".to_string(), "B".to_string()]);
}

#[test]
fn method_calls_resolve_exactly_then_by_name() {
    let mut store = MemorySymbolStore::new();
    store.insert_method("A".to_string(), "run".to_string(), sample_sig("a_run"));
    store.insert_method("B".to_string(), "run".to_string(), sample_sig("b_run"));
    store.register_method_lookup("run".to_string(), "A".to_string());
    store.register_method_lookup("run".to_string(), "B".to_string());
    match store.resolve_method_call(Some("B"), "run") {
        MethodResolution::Exact(sig) => assert_eq!(sig.name, "b_run"),
        other => panic!("expected an exact match, got {:?}", other),
    }
    match store.resolve_method_call(Some("C"), "run") {
        MethodResolution::Candidates(v) => {
            let names: Vec<String> = v.into_iter().map(|s| s.name).collect();
            assert_eq!(names, vec!["a_run".to_string(), "b_run".to_string()]);
        }
        other => panic!("expected candidates, got {:?}", other),
    }
    assert!(matches!(store.resolve_method_call(None, "stop"), MethodResolution::Unresolved));
}
