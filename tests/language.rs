use mr_hedgehog::language::Language;

#[test]
fn test_from_str() {
    assert_eq!(Language::from_str("rust"), Some(Language::Rust));
    assert_eq!(Language::from_str("RUST"), Some(Language::Rust));
    assert_eq!(Language::from_str("rs"), Some(Language::Rust));
    assert_eq!(Language::from_str("python"), Some(Language::Python));
    assert_eq!(Language::from_str("py"), Some(Language::Python));
    assert_eq!(Language::from_str("java"), None);
}

#[test]
fn test_from_extension() {
    assert_eq!(Language::from_extension("rs"), Some(Language::Rust));
    assert_eq!(Language::from_extension("py"), Some(Language::Python));
    assert_eq!(Language::from_extension("js"), None);
}

#[test]
fn test_from_path() {
    assert_eq!(Language::from_path("src/main.rs"), Some(Language::Rust));
    assert_eq!(Language::from_path("app.py"), Some(Language::Python));
    assert_eq!(Language::from_path("index.js"), None);
}

#[test]
fn test_scip_command() {
    assert_eq!(Language::Rust.scip_command(), "rust-analyzer");
    assert_eq!(Language::Python.scip_command(), "scip-python");
}

#[test]
fn upper_case_extensions_and_paths() {
    assert_eq!(Language::from_extension("RS"), Some(Language::Rust));
    assert_eq!(Language::from_extension("Py"), Some(Language::Python));
    assert_eq!(Language::from_path("lib/MODULE.PY"), Some(Language::Python));
    assert_eq!(Language::from_path(".rs"), None);
    assert_eq!(Language::from_path("archive.tar.rs"), Some(Language::Rust));
}

#[test]
fn lowercase_name_lookup_is_exact() {
    assert_eq!(Language::from_lowercase_name("rust"), Some(Language::Rust));
    assert_eq!(Language::from_lowercase_name("RUST"), None);
    assert_eq!(Language::from_lowercase_extension("py"), Some(Language::Python));
    assert_eq!(Language::from_lowercase_extension("PY"), None);
}
