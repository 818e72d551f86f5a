use mr_hedgehog::callgraph::CallGraph;
use mr_hedgehog::scip_ingest::{IngestError, MatchPolicy, ScipIngestor};
use protobuf::Message;

/// Encodes one document with the given definitions and single-line references.
fn mock_index_bytes(
    definitions: Vec<(&str, i32, i32, i32, i32)>,
    references: Vec<(&str, i32, i32, i32)>,
) -> Vec<u8> {
    let mut index = scip::types::Index::new();
    let mut doc = scip::types::Document::new();
    doc.relative_path = "test.rs".to_string();
    for (symbol, start_line, start_col, end_line, end_col) in definitions {
        let mut occ = scip::types::Occurrence::new();
        occ.symbol = symbol.to_string();
        occ.range = vec![start_line, start_col, end_line, end_col];
        occ.symbol_roles = 1;
        doc.occurrences.push(occ);
    }
    for (symbol, line, start_col, end_col) in references {
        let mut occ = scip::types::Occurrence::new();
        occ.symbol = symbol.to_string();
        occ.range = vec![line, start_col, end_col];
        occ.symbol_roles = 0;
        doc.occurrences.push(occ);
    }
    index.documents.push(doc);
    index.write_to_bytes().unwrap()
}

fn callees_of<'a>(graph: &'a CallGraph, id: &str) -> &'a Vec<String> {
    &graph.nodes.iter().find(|n| n.id == id).expect("node not found").callees
}

#[test]
fn test_enclosing_range_basic() {
    let bytes = mock_index_bytes(
        vec![("pkg::main", 10, 0, 20, 0), ("pkg::target", 25, 0, 30, 0)],
        vec![("pkg::target", 15, 5, 20)],
    );
    let result = ScipIngestor::ingest_and_build_graph(&bytes);
    assert!(result.is_ok(), "Failed to ingest");
    let graph = result.ok().unwrap();
    let main_node = graph.nodes.iter().find(|n| n.id == "pkg::main");
    assert!(main_node.is_some(), "main node not found");
    let main_node = main_node.unwrap();
    assert!(
        main_node.callees.contains(&"pkg::target".to_string()),
        "main should call target. Callees: {:?}",
        main_node.callees
    );
}

#[test]
fn test_reference_outside_function_ignored() {
    let bytes = mock_index_bytes(
        vec![("pkg::main", 10, 0, 20, 0)],
        vec![("pkg::global_const", 5, 0, 10)],
    );
    let result = ScipIngestor::ingest_and_build_graph(&bytes);
    assert!(result.is_ok());
    let graph = result.ok().unwrap();
    let main_node = graph.nodes.iter().find(|n| n.id == "pkg::main");
    assert!(main_node.is_some());
    let main_node = main_node.unwrap();
    assert!(
        !main_node.callees.contains(&"pkg::global_const".to_string()),
        "main should NOT call global_const (reference is outside). Callees: {:?}",
        main_node.callees
    );
}

#[test]
fn test_nested_functions() {
    let bytes = mock_index_bytes(
        vec![
            ("pkg::outer", 10, 0, 30, 0),
            ("pkg::inner", 15, 0, 25, 0),
            ("pkg::target", 40, 0, 45, 0),
        ],
        vec![("pkg::target", 20, 5, 20)],
    );
    let result = ScipIngestor::ingest_and_build_graph(&bytes);
    assert!(result.is_ok());
    let graph = result.ok().unwrap();
    let has_edge = graph.nodes.iter().any(|n| n.callees.contains(&"pkg::target".to_string()));
    assert!(has_edge, "Expected at least one caller to target");
}

#[test]
fn test_self_reference_ignored() {
    let bytes = mock_index_bytes(vec![("pkg::main", 10, 0, 20, 0)], vec![("pkg::main", 15, 5, 10)]);
    let result = ScipIngestor::ingest_and_build_graph(&bytes);
    assert!(result.is_ok());
    let graph = result.ok().unwrap();
    let main_node = graph.nodes.iter().find(|n| n.id == "pkg::main").unwrap();
    assert!(
        !main_node.callees.contains(&"pkg::main".to_string()),
        "Self-references should be ignored"
    );
}

#[test]
fn nested_reference_goes_to_outermost_by_default() {
    let bytes = mock_index_bytes(
        vec![
            ("pkg::outer", 10, 0, 30, 0),
            ("pkg::inner", 15, 0, 25, 0),
            ("pkg::target", 40, 0, 45, 0),
        ],
        vec![("pkg::target", 20, 5, 20)],
    );
    let graph = ScipIngestor::ingest_and_build_graph(&bytes).ok().unwrap();
    assert_eq!(callees_of(&graph, "pkg::outer"), &vec!["pkg::target".to_string()]);
    assert!(callees_of(&graph, "pkg::inner").is_empty());
}

#[test]
fn nested_reference_goes_to_innermost_when_asked() {
    let bytes = mock_index_bytes(
        vec![
            ("pkg::outer", 10, 0, 30, 0),
            ("pkg::inner", 15, 0, 25, 0),
            ("pkg::target", 40, 0, 45, 0),
        ],
        vec![("pkg::target", 20, 5, 20)],
    );
    let graph = ScipIngestor::ingest_with_policy(&bytes, MatchPolicy::Innermost).ok().unwrap();
    assert_eq!(callees_of(&graph, "pkg::inner"), &vec!["pkg::target".to_string()]);
    assert!(callees_of(&graph, "pkg::outer").is_empty());
}

#[test]
fn repeated_references_give_one_edge() {
    let bytes = mock_index_bytes(
        vec![("pkg::main", 10, 0, 20, 0), ("pkg::helper", 30, 0, 40, 0)],
        vec![("pkg::helper", 12, 4, 10), ("pkg::helper", 14, 4, 10), ("pkg::helper", 18, 1, 7)],
    );
    let graph = ScipIngestor::ingest_and_build_graph(&bytes).ok().unwrap();
    assert_eq!(callees_of(&graph, "pkg::main"), &vec!["pkg::helper".to_string()]);
}

#[test]
fn nodes_are_sorted_and_labelled() {
    let bytes = mock_index_bytes(
        vec![
            ("rust-analyzer cargo c 0.1.0 src/b/Beta#run().", 1, 0, 5, 0),
            ("rust-analyzer cargo c 0.1.0 src/a/alpha().", 6, 0, 9, 0),
            ("rust-analyzer cargo c 0.1.0 src/a/alpha().", 20, 0, 29, 0),
        ],
        vec![],
    );
    let graph = ScipIngestor::ingest_and_build_graph(&bytes).ok().unwrap();
    let ids: Vec<&str> = graph.nodes.iter().map(|n| n.id.as_str()).collect();
    assert_eq!(
        ids,
        vec!["rust-analyzer cargo c 0.1.0 src/a/alpha().", "rust-analyzer cargo c 0.1.0 src/b/Beta#run()."]
    );
    assert_eq!(graph.nodes[0].label, Some("src::a::alpha".to_string()));
    assert_eq!(graph.nodes[1].label, Some("src::b::Beta#run".to_string()));
}

#[test]
fn edges_across_documents_and_empty_symbols() {
    let mut index = scip::types::Index::new();
    for (path, def, callee) in [("a.rs", "pkg::a", "pkg::b"), ("b.rs", "pkg::b", "pkg::a")] {
        let mut doc = scip::types::Document::new();
        doc.relative_path = path.to_string();
        let mut d = scip::types::Occurrence::new();
        d.symbol = def.to_string();
        d.range = vec![0, 0, 10, 0];
        d.symbol_roles = 1;
        doc.occurrences.push(d);
        let mut r = scip::types::Occurrence::new();
        r.symbol = callee.to_string();
        r.range = vec![3, 1, 4];
        doc.occurrences.push(r);
        let mut blank = scip::types::Occurrence::new();
        blank.range = vec![4, 1, 4];
        doc.occurrences.push(blank);
        index.documents.push(doc);
    }
    let bytes = index.write_to_bytes().unwrap();
    let graph = ScipIngestor::ingest_and_build_graph(&bytes).ok().unwrap();
    assert_eq!(graph.nodes.len(), 2);
    assert_eq!(callees_of(&graph, "pkg::a"), &vec!["pkg::b".to_string()]);
    assert_eq!(callees_of(&graph, "pkg::b"), &vec!["pkg::a".to_string()]);
}

#[test]
fn invalid_bytes_are_a_decode_error() {
    let result = ScipIngestor::ingest_and_build_graph(&[0xff, 0xff, 0xff]);
    assert!(matches!(result, Err(IngestError::Decode(_))));
}

#[test]
fn empty_index_gives_empty_graph() {
    let graph = ScipIngestor::ingest_and_build_graph(&[]).ok().unwrap();
    assert!(graph.nodes.is_empty());
}

#[test]
fn callees_keep_first_reference_order() {
    let bytes = mock_index_bytes(
        vec![("pkg::main", 10, 0, 20, 0)],
        vec![("pkg::b", 11, 0, 3), ("pkg::a", 12, 0, 3), ("pkg::b", 13, 0, 3), ("pkg::c", 14, 0, 3)],
    );
    let graph = ScipIngestor::ingest_and_build_graph(&bytes).ok().unwrap();
    assert_eq!(
        callees_of(&graph, "pkg::main"),
        &vec!["pkg::b".to_string(), "pkg::a".to_string(), "pkg::c".to_string()]
    );
}
