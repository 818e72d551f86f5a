//! The graph as exchanged with other programs: nodes and edges as plain records.
use vstd::prelude::*;
use crate::callgraph::{CallGraph, CallGraphNode, callee_views};

verus! {

/// A graph as a list of nodes and a list of edges.
#[derive(Debug)]
pub struct GraphDto {
    pub nodes: Vec<NodeDto>,
    pub edges: Vec<EdgeDto>,
}

/// A node record.
#[derive(Debug)]
pub struct NodeDto {
    pub id: String,
    pub label: String,
    pub package: String,
    pub language: String,
}

/// An edge record.
#[derive(Debug)]
pub struct EdgeDto {
    pub from: String,
    pub to: String,
    pub type_: String,
}

/// The record `d` describes the node `n`: its id, its label (the id where it
/// has none), an unknown package and the language `rust`.
pub open spec fn describes(d: NodeDto, n: CallGraphNode) -> bool {
    &&& d.id@ == n.id@
    &&& d.label@ == match n.label {
        Some(l) => l@,
        None => n.id@,
    }
    &&& d.package@ == "unknown"@
    &&& d.language@ == "rust"@
}

/// The (caller, callee) pairs of `nodes`, node by node, callees in order.
pub open spec fn edges_of(nodes: Seq<CallGraphNode>) -> Seq<(Seq<char>, Seq<char>)>
    decreases nodes.len(),
{
    if nodes.len() == 0 {
        Seq::empty()
    } else {
        let n = nodes.last();
        edges_of(nodes.drop_last()) + callee_views(n).map_values(|c: Seq<char>| (n.id@, c))
    }
}

/// The (from, to) pairs of a list of edge records.
pub open spec fn edge_pairs(v: Seq<EdgeDto>) -> Seq<(Seq<char>, Seq<char>)> {
    v.map_values(|e: EdgeDto| (e.from@, e.to@))
}

impl GraphDto {
    /// The records of a call graph: one node record per node and one `call`
    /// edge record per callee of each node.
    pub fn from_callgraph(cg: &CallGraph) -> (r: GraphDto)
        ensures
            r.nodes.len() == cg.nodes.len(),
            forall|i: int| 0 <= i < cg.nodes.len() ==> describes(#[trigger] r.nodes@[i], cg.nodes@[i]),
            edge_pairs(r.edges@) == edges_of(cg.nodes@),
            forall|i: int| 0 <= i < r.edges.len() ==> (#[trigger] r.edges@[i]).type_@ == "call"@,
    {
        let mut nodes: Vec<NodeDto> = Vec::new();
        let mut edges: Vec<EdgeDto> = Vec::new();
        let mut i: usize = 0;
        assert(edges_of(cg.nodes@.take(0)) =~= Seq::<(Seq<char>, Seq<char>)>::empty());
        assert(edge_pairs(edges@) =~= Seq::<(Seq<char>, Seq<char>)>::empty());
        while i < cg.nodes.len()
            invariant
                i <= cg.nodes.len(),
                nodes.len() == i,
                forall|j: int| 0 <= j < i ==> describes(#[trigger] nodes@[j], cg.nodes@[j]),
                edge_pairs(edges@) == edges_of(cg.nodes@.take(i as int)),
                forall|j: int| 0 <= j < edges.len() ==> (#[trigger] edges@[j]).type_@ == "call"@,
            decreases cg.nodes.len() - i,
        {
            let n = &cg.nodes[i];
            let label = match &n.label {
                Some(l) => l.clone(),
                None => n.id.clone(),
            };
            nodes.push(
                NodeDto {
                    id: n.id.clone(),
                    label,
                    package: String::from_str("unknown"),
                    language: String::from_str("rust"),
                },
            );
            let ghost before = edge_pairs(edges@);
            let mut k: usize = 0;
            assert(before + callee_views(*n).take(0).map_values(|c: Seq<char>| (n.id@, c))
                =~= before);
            while k < n.callees.len()
                invariant
                    k <= n.callees.len(),
                    i < cg.nodes.len(),
                    n == &cg.nodes@[i as int],
                    edge_pairs(edges@) == before + callee_views(*n).take(k as int).map_values(
                        |c: Seq<char>| (n.id@, c),
                    ),
                    forall|j: int| 0 <= j < edges.len() ==> (#[trigger] edges@[j]).type_@ == "call"@,
                decreases n.callees.len() - k,
            {
                let ghost prev = edges@;
                let e = EdgeDto {
                    from: n.id.clone(),
                    to: n.callees[k].clone(),
                    type_: String::from_str("call"),
                };
                assert(e.to@ == callee_views(*n)[k as int]);
                edges.push(e);
                assert(edge_pairs(edges@) =~= edge_pairs(prev).push((n.id@, callee_views(*n)[k as int])));
                assert(callee_views(*n).take(k + 1) =~= callee_views(*n).take(k as int).push(
                    callee_views(*n)[k as int],
                ));
                assert(edge_pairs(edges@) =~= before + callee_views(*n).take(k + 1).map_values(
                    |c: Seq<char>| (n.id@, c),
                ));
                k = k + 1;
            }
            assert(callee_views(*n).take(k as int) =~= callee_views(*n));
            assert(cg.nodes@.take(i + 1).drop_last() =~= cg.nodes@.take(i as int));
            i = i + 1;
        }
        assert(cg.nodes@.take(i as int) =~= cg.nodes@);
        GraphDto { nodes, edges }
    }
}

impl From<CallGraph> for GraphDto {
    fn from(cg: CallGraph) -> GraphDto {
        GraphDto::from_callgraph(&cg)
    }
}

impl vstd::std_specs::convert::FromSpecImpl<CallGraph> for GraphDto {
    open spec fn obeys_from_spec() -> bool {
        false
    }

    open spec fn from_spec(cg: CallGraph) -> GraphDto {
        arbitrary()
    }
}

} // verus!
