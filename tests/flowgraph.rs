use mr_hedgehog::callgraph::{CallGraph, CallGraphNode};
use mr_hedgehog::entry_point::{EntryPoint, EntryPointKind};
use mr_hedgehog::flowgraph::{callee_label, FlowGraph, FlowNodeType};

fn node(id: &str, callees: &[&str]) -> CallGraphNode {
    CallGraphNode {
        id: id.to_string(),
        callees: callees.iter().map(|c| c.to_string()).collect(),
        label: Some(id.to_string()),
    }
}

fn entry(id: &str, kind: EntryPointKind) -> EntryPoint {
    EntryPoint {
        id: id.to_string(),
        name: id.to_string(),
        kind,
        file_path: "src/main.rs".to_string(),
        line: Some(1),
    }
}

#[test]
fn test_flowgraph_from_callgraph() {
    let callgraph = CallGraph {
        nodes: vec![node("main", &["foo", "bar"]), node("foo", &["baz"]), node("bar", &[]), node("baz", &[])],
    };
    let entries = vec![entry("main", EntryPointKind::Main)];
    let flow = FlowGraph::from_callgraph(&callgraph, entries, 5);
    assert_eq!(flow.nodes.len(), 4);
    assert_eq!(flow.edges.len(), 3);
}

#[test]
fn walk_order_depth_and_sequence() {
    let callgraph = CallGraph {
        nodes: vec![node("main", &["foo", "bar"]), node("foo", &["baz", "main"]), node("bar", &["baz"])],
    };
    let flow = FlowGraph::from_callgraph(&callgraph, vec![entry("main", EntryPointKind::Main)], 5);
    let ids: Vec<(&str, usize)> = flow.nodes.iter().map(|n| (n.id.as_str(), n.depth)).collect();
    assert_eq!(ids, vec![("main", 0), ("foo", 1), ("baz", 2), ("bar", 1)]);
    let edges: Vec<(&str, &str, usize)> =
        flow.edges.iter().map(|e| (e.from.as_str(), e.to.as_str(), e.sequence)).collect();
    assert_eq!(
        edges,
        vec![("main", "foo", 1), ("foo", "baz", 2), ("foo", "main", 3), ("main", "bar", 4), ("bar", "baz", 5)]
    );
    assert_eq!(flow.nodes[0].node_type, FlowNodeType::Entry);
    assert_eq!(flow.nodes[0].file_path, Some("src/main.rs".to_string()));
    assert_eq!(flow.nodes[1].file_path, None);
}

#[test]
fn depth_limit_stops_the_walk() {
    let callgraph = CallGraph { nodes: vec![node("a", &["b"]), node("b", &["c"]), node("c", &["d"])] };
    let flow = FlowGraph::from_callgraph(&callgraph, vec![entry("a", EntryPointKind::Test)], 2);
    let ids: Vec<&str> = flow.nodes.iter().map(|n| n.id.as_str()).collect();
    assert_eq!(ids, vec!["a", "b", "c"]);
    assert_eq!(flow.edges.len(), 2);
    assert_eq!(flow.nodes[0].node_type, FlowNodeType::Call);
    let none = FlowGraph::from_callgraph(&callgraph, vec![entry("a", EntryPointKind::Main)], 0);
    assert_eq!(none.nodes.len(), 1);
    assert!(none.edges.is_empty());
}

#[test]
fn labels_and_node_types() {
    assert_eq!(callee_label("crate::module::Type::method@crate_one"), "method");
    assert_eq!(callee_label("plain"), "plain");
    assert_eq!(callee_label("a:::b"), ":b");
    assert_eq!(FlowGraph::infer_node_type("std::vec::Vec::push"), FlowNodeType::External);
    assert_eq!(FlowGraph::infer_node_type("Foo::new"), FlowNodeType::External);
    assert_eq!(FlowGraph::infer_node_type("match(...)"), FlowNodeType::Branch);
    assert_eq!(FlowGraph::infer_node_type("IF(x)"), FlowNodeType::Branch);
    assert_eq!(FlowGraph::infer_node_type("run_Loop"), FlowNodeType::Loop);
    assert_eq!(FlowGraph::infer_node_type("early_exit"), FlowNodeType::Return);
    assert_eq!(FlowGraph::infer_node_type("compute"), FlowNodeType::Call);
    assert_eq!(FlowGraph::node_type_of_lowercase_id("IF(x)"), FlowNodeType::Call);
}

#[test]
fn nodes_grouped_by_depth() {
    let callgraph = CallGraph { nodes: vec![node("a", &["b", "c"]), node("b", &["d"])] };
    let flow = FlowGraph::from_callgraph(&callgraph, vec![entry("a", EntryPointKind::Main)], 5);
    let layers = flow.nodes_by_depth();
    let ids: Vec<Vec<&str>> = layers.iter().map(|l| l.iter().map(|n| n.id.as_str()).collect()).collect();
    assert_eq!(ids, vec![vec!["a"], vec!["b", "c"], vec!["d"]]);
    let empty = FlowGraph { entry_points: vec![], nodes: vec![], edges: vec![] };
    assert_eq!(empty.nodes_by_depth().len(), 1);
}
