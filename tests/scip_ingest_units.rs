use mr_hedgehog::scip_ingest::extract_label_from_symbol;
use mr_hedgehog::source_range::{parse_scip_range, SourceRange};

#[test]
fn test_source_range_contains() {
    let outer = SourceRange { start_line: 10, start_col: 0, end_line: 20, end_col: 0 };
    let inner = SourceRange { start_line: 15, start_col: 5, end_line: 15, end_col: 10 };
    assert!(outer.contains(&inner));
    assert!(!inner.contains(&outer));
}

#[test]
fn test_parse_scip_range() {
    let r3 = parse_scip_range(&[10, 5, 15]);
    assert_eq!(r3.start_line, 10);
    assert_eq!(r3.end_line, 10);
    let r4 = parse_scip_range(&[10, 5, 20, 10]);
    assert_eq!(r4.start_line, 10);
    assert_eq!(r4.end_line, 20);
}

#[test]
fn test_extract_label() {
    let symbol = "rust-analyzer cargo my_crate 0.1.0 src/lib.rs/MyStruct#my_method().";
    let label = extract_label_from_symbol(symbol);
    assert!(label.contains("my_method"));
}

#[test]
fn label_exact_value() {
    let symbol = "rust-analyzer cargo my_crate 0.1.0 src/lib.rs/MyStruct#my_method().";
    assert_eq!(extract_label_from_symbol(symbol), "src::lib.rs::MyStruct#my_method");
    assert_eq!(extract_label_from_symbol("plain"), "plain");
    assert_eq!(extract_label_from_symbol("a b/"), "b::");
    assert_eq!(extract_label_from_symbol("x ()."), "");
}

#[test]
fn range_containment_edges() {
    let r = SourceRange { start_line: 10, start_col: 0, end_line: 20, end_col: 0 };
    assert!(r.contains(&r));
    let before = SourceRange { start_line: 5, start_col: 0, end_line: 5, end_col: 10 };
    assert!(!r.contains(&before));
    let same_line_earlier = SourceRange { start_line: 10, start_col: 0, end_line: 20, end_col: 1 };
    assert!(!r.contains(&same_line_earlier));
    assert_eq!(r.extent(), 10000);
    let wide = SourceRange { start_line: i32::MIN, start_col: 0, end_line: i32::MAX, end_col: 0 };
    assert_eq!(wide.extent(), (u32::MAX as i64) * 1000);
}

#[test]
fn malformed_ranges_become_zero() {
    let z = SourceRange { start_line: 0, start_col: 0, end_line: 0, end_col: 0 };
    assert_eq!(parse_scip_range(&[]), z);
    assert_eq!(parse_scip_range(&[1, 2]), z);
    assert_eq!(parse_scip_range(&[1, 2, 3, 4, 5]), z);
}
