use mr_hedgehog::call_paths::call_paths;
use mr_hedgehog::callgraph::{CallGraph, CallGraphNode};

fn node(id: &str, callees: &[&str]) -> CallGraphNode {
    CallGraphNode { id: id.to_string(), callees: callees.iter().map(|c| c.to_string()).collect(), label: None }
}

#[test]
fn every_simple_path_depth_first() {
    let cg = CallGraph {
        nodes: vec![
            node("main", &["a", "b"]),
            node("a", &["t", "b"]),
            node("b", &["t", "main"]),
        ],
    };
    let paths = call_paths(&cg, &"main".to_string(), &"t".to_string());
    assert_eq!(
        paths,
        vec![
            vec!["main".to_string(), "b".to_string(), "t".to_string()],
            vec!["main".to_string(), "a".to_string(), "b".to_string(), "t".to_string()],
            vec!["main".to_string(), "a".to_string(), "t".to_string()],
        ]
    );
}

#[test]
fn no_path_and_trivial_path() {
    let cg = CallGraph { nodes: vec![node("main", &["a"]), node("a", &["main"])] };
    assert!(call_paths(&cg, &"main".to_string(), &"x".to_string()).is_empty());
    assert_eq!(call_paths(&cg, &"main".to_string(), &"main".to_string()), vec![vec!["main".to_string()]]);
}
