use mr_hedgehog::callgraph::{CallGraph, CallGraphNode};
use mr_hedgehog::flowchart_exporter::{DotExporter, FlowchartExporter};
use mr_hedgehog::flowgraph::{FlowEdge, FlowGraph, FlowNode, FlowNodeType};

fn flow_node(id: &str, node_type: FlowNodeType, depth: usize) -> FlowNode {
    FlowNode { id: id.to_string(), label: id.to_string(), node_type, file_path: None, line: None, depth }
}

#[test]
fn test_to_dot() {
    let flow = FlowGraph {
        entry_points: vec![],
        nodes: vec![flow_node("main", FlowNodeType::Entry, 0), flow_node("foo", FlowNodeType::Call, 1)],
        edges: vec![FlowEdge { from: "main".to_string(), to: "foo".to_string(), sequence: 1, label: None }],
    };
    let dot = FlowchartExporter::to_dot(&flow);
    assert!(dot.contains("digraph FlowChart"));
    assert!(dot.contains("rankdir=TB"));
    assert!(dot.contains("\"main\""));
    assert!(dot.contains("\"foo\""));
    assert!(dot.contains("->"));
}

#[test]
fn flowchart_exact_text() {
    let mut labelled = flow_node("b", FlowNodeType::Loop, 1);
    labelled.label = "say \"hi\"\\\n".to_string();
    let flow = FlowGraph {
        entry_points: vec![],
        nodes: vec![flow_node("a", FlowNodeType::Entry, 0), labelled, flow_node("c", FlowNodeType::External, 3)],
        edges: vec![
            FlowEdge { from: "a".to_string(), to: "b".to_string(), sequence: 12, label: Some("then".to_string()) },
            FlowEdge { from: "b".to_string(), to: "c".to_string(), sequence: 7, label: None },
        ],
    };
    let expected = [
        "digraph FlowChart {",
        "    rankdir=TB;",
        "    splines=ortho;",
        "    nodesep=0.8;",
        "    ranksep=1.0;",
        "    node [fontname=\"Helvetica\", fontsize=12];",
        "    edge [fontname=\"Helvetica\", fontsize=10];",
        "",
        "    \"a\" [label=\"a\", shape=box, style=\"filled,rounded\", fillcolor=\"#a6e3a1\", color=\"#40a02b\"];",
        "    \"b\" [label=\"say \\\"hi\\\"\\\\\\n\", shape=hexagon, style=\"filled\", fillcolor=\"#cba6f7\", color=\"#8839ef\"];",
        "    \"c\" [label=\"c\", shape=box, style=\"filled,dashed\", fillcolor=\"#6c7086\", color=\"#5c5f77\"];",
        "",
        "    \"a\" -> \"b\" [label=\"12 [then]\"];",
        "    \"b\" -> \"c\" [label=\"7\"];",
        "    { rank=same; \"a\" }",
        "    { rank=same; \"b\" }",
        "    { rank=same; \"c\" }",
        "}",
    ]
    .join("\n");
    assert_eq!(FlowchartExporter::to_dot(&flow), expected);
}

#[test]
fn escape_and_styles() {
    assert_eq!(FlowchartExporter::escape_label("a\"b\\c\nd"), "a\\\"b\\\\c\\nd");
    assert_eq!(FlowchartExporter::node_style(&FlowNodeType::Branch), ("diamond", "#f9e2af", "filled"));
    assert_eq!(FlowchartExporter::border_color(&FlowNodeType::Return), "#d20f39");
}

#[test]
fn call_graph_dot_text() {
    let cg = CallGraph {
        nodes: vec![
            CallGraphNode {
                id: "a".to_string(),
                callees: vec!["b".to_string(), "c".to_string()],
                label: Some("say \"a\"".to_string()),
            },
            CallGraphNode { id: "b".to_string(), callees: vec![], label: None },
        ],
    };
    let expected = "digraph G {\n    \"a\" [label=\"say \\\"a\\\"\"];\n    \"a\" -> \"b\";\n    \"a\" -> \"c\";\n    \"b\" [label=\"b\"];\n}";
    assert_eq!(DotExporter::to_dot(&cg), expected);
}
