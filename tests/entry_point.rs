use mr_hedgehog::entry_point::{EntryPointDetector, EntryPointKind};
use mr_hedgehog::language::Language;

#[test]
fn test_detect_rust_main() {
    let detector = EntryPointDetector::new(Language::Rust);
    let source = r#"
fn main() {
    println!("Hello");
}
"#;
    let entries = detector.detect("src/main.rs", source);
    assert_eq!(entries.len(), 1);
    assert_eq!(entries[0].kind, EntryPointKind::Main);
}

#[test]
fn test_detect_python_main() {
    let detector = EntryPointDetector::new(Language::Python);
    let source = r#"
def foo():
    pass

if __name__ == "__main__":
    foo()
"#;
    let entries = detector.detect("app.py", source);
    assert_eq!(entries.len(), 1);
    assert_eq!(entries[0].kind, EntryPointKind::PythonMain);
}

#[test]
fn test_detect_flask_route() {
    let detector = EntryPointDetector::new(Language::Python);
    let source = r#"
@app.route('/users')
def get_users():
    return []
"#;
    let entries = detector.detect("routes.py", source);
    assert_eq!(entries.len(), 1);
    assert_eq!(entries[0].kind, EntryPointKind::FlaskRoute);
    assert!(entries[0].name.contains("/users"));
}

#[test]
fn rust_entries_exact() {
    let detector = EntryPointDetector::new(Language::Rust);
    let source = "#[tokio::main]\r\npub async fn main() {}\n#[test]\nfn test_add() {}\n#[tokio::test]\n  async fn test_io( ) {}\nfn test_untagged() {}\npub fn main(){}";
    let entries = detector.detect("lib.rs", source);
    let got: Vec<(String, String, EntryPointKind, Option<usize>)> = entries
        .iter()
        .map(|e| (e.id.clone(), e.name.clone(), e.kind, e.line))
        .collect();
    assert_eq!(
        got,
        vec![
            ("lib.rs::async_main".to_string(), "async main".to_string(), EntryPointKind::AsyncMain, Some(2)),
            ("lib.rs::test_add".to_string(), "test_add".to_string(), EntryPointKind::Test, Some(4)),
            ("lib.rs::test_io".to_string(), "test_io".to_string(), EntryPointKind::Test, Some(6)),
            ("lib.rs::main".to_string(), "main".to_string(), EntryPointKind::Main, Some(8)),
        ]
    );
    assert!(entries.iter().all(|e| e.file_path == "lib.rs"));
}

#[test]
fn python_entries_exact() {
    let detector = EntryPointDetector::new(Language::Python);
    let source = "@router.get(\"/items\")\nasync def read_items(q):\n    pass\n@bp.route(\"/a\")\ndef a():\n    pass\ndef main():\n    pass\n@app.post('/x')";
    let entries = detector.detect("api.py", source);
    let got: Vec<(String, String, EntryPointKind, Option<usize>)> = entries
        .iter()
        .map(|e| (e.id.clone(), e.name.clone(), e.kind, e.line))
        .collect();
    assert_eq!(
        got,
        vec![
            ("api.py::read_items".to_string(), "API read_items".to_string(), EntryPointKind::FastAPIRoute, Some(2)),
            ("api.py::a".to_string(), "route \"/a\"".to_string(), EntryPointKind::FlaskRoute, Some(5)),
            ("api.py::main".to_string(), "main".to_string(), EntryPointKind::PythonMain, Some(7)),
        ]
    );
}

#[test]
fn empty_source_has_no_entries() {
    assert!(EntryPointDetector::new(Language::Rust).detect("x.rs", "").is_empty());
    assert!(EntryPointDetector::new(Language::Python).detect("x.py", "\n\n").is_empty());
}
