//! Syntax trees handed from a parser to a graph builder.
use vstd::prelude::*;
use crate::callgraph::CallGraph;

verus! {

/// A node of a syntax tree.
#[derive(Debug)]
pub struct AstNode {
    pub kind: AstNodeKind,
    pub name: Option<String>,
    pub children: Vec<AstNode>,
}

/// The kinds of syntax-tree nodes.
#[derive(Debug, Clone, Copy, PartialEq, Eq)]
pub enum AstNodeKind {
    Function,
    Module,
    Struct,
    Enum,
    Trait,
    Impl,
    Macro,
    Statement,
    Expression,
}

/// Parses source text into a syntax tree.
pub trait AstParser {
    fn parse(&self, src: &str) -> AstNode;
}

/// Builds a call graph from a syntax tree.
pub trait CallGraphBuilder {
    fn build_call_graph(&self, root: &AstNode) -> CallGraph;
}

} // verus!
