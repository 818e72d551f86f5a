//! The call graph: one node per defined symbol, with its callees.
use vstd::prelude::*;

verus! {

/// A node of the call graph.
#[derive(Debug)]
pub struct CallGraphNode {
    /// The symbol this node stands for.
    pub id: String,
    /// The symbols this node calls, each once, in the order first seen.
    pub callees: Vec<String>,
    /// A short display name.
    pub label: Option<String>,
}

/// The call graph itself.
#[derive(Debug)]
pub struct CallGraph {
    pub nodes: Vec<CallGraphNode>,
}

/// Call graph for a single file.
pub struct FileCallGraph {
    pub filename: String,
    pub callgraph: CallGraph,
}

/// The contents of a list of strings.
pub open spec fn str_views(v: Seq<String>) -> Seq<Seq<char>> {
    v.map_values(|s: String| s@)
}

/// The ids of a list of nodes.
pub open spec fn node_ids(nodes: Seq<CallGraphNode>) -> Seq<Seq<char>> {
    nodes.map_values(|n: CallGraphNode| n.id@)
}

/// The callees of a node, as plain values.
pub open spec fn callee_views(n: CallGraphNode) -> Seq<Seq<char>> {
    str_views(n.callees@)
}

/// Whether `v` holds `s`.
pub fn contains_str(v: &Vec<String>, s: &String) -> (r: bool)
    ensures
        r == str_views(v@).contains(s@),
{
    let mut i: usize = 0;
    while i < v.len()
        invariant
            i <= v.len(),
            forall|j: int| 0 <= j < i ==> v@[j]@ != s@,
        decreases v.len() - i,
    {
        if v[i] == *s {
            assert(str_views(v@)[i as int] == s@);
            return true;
        }
        i = i + 1;
    }
    proof {
        if str_views(v@).contains(s@) {
            let j = choose|j: int| 0 <= j < str_views(v@).len() && str_views(v@)[j] == s@;
            assert(v@[j]@ == s@);
        }
    }
    false
}

} // verus!
