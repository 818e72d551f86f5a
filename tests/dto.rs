use mr_hedgehog::callgraph::{CallGraph, CallGraphNode};
use mr_hedgehog::dto::GraphDto;

#[test]
fn graph_records_from_call_graph() {
    let cg = CallGraph {
        nodes: vec![
            CallGraphNode { id: "a".to_string(), callees: vec!["b".to_string(), "c".to_string()], label: Some("A".to_string()) },
            CallGraphNode { id: "b".to_string(), callees: vec!["c".to_string()], label: None },
        ],
    };
    let dto = GraphDto::from(cg);
    let nodes: Vec<(&str, &str, &str, &str)> = dto
        .nodes
        .iter()
        .map(|n| (n.id.as_str(), n.label.as_str(), n.package.as_str(), n.language.as_str()))
        .collect();
    assert_eq!(nodes, vec![("a", "A", "unknown", "rust"), ("b", "b", "unknown", "rust")]);
    let edges: Vec<(&str, &str, &str)> =
        dto.edges.iter().map(|e| (e.from.as_str(), e.to.as_str(), e.type_.as_str())).collect();
    assert_eq!(edges, vec![("a", "b", "call"), ("a", "c", "call"), ("b", "c", "call")]);
}
