//! Execution flow from entry points: a depth-limited walk of the call graph.
use vstd::prelude::*;
use crate::callgraph::{CallGraph, CallGraphNode, callee_views, contains_str, str_views};
use crate::entry_point::{EntryPoint, EntryPointKind, EntryPointView, entry_views};
use crate::language::{lower_of, lowercase};
use crate::text::{chars_of, has_infix, text_contains, index_of, lemma_index_of};

verus! {

broadcast use {vstd::string::group_string_axioms, vstd::set::group_set_axioms};

/// A flow graph: the entry points, the nodes reached and the calls walked.
#[derive(Debug, Clone)]
pub struct FlowGraph {
    pub entry_points: Vec<EntryPoint>,
    pub nodes: Vec<FlowNode>,
    pub edges: Vec<FlowEdge>,
}

/// A node of the flow graph.
#[derive(Debug, Clone)]
pub struct FlowNode {
    pub id: String,
    pub label: String,
    pub node_type: FlowNodeType,
    pub file_path: Option<String>,
    pub line: Option<usize>,
    /// Calls between the entry point and this node.
    pub depth: usize,
}

/// How a node is drawn.
#[derive(Debug, Clone, Copy, PartialEq, Eq)]
pub enum FlowNodeType {
    Entry,
    Call,
    Branch,
    Loop,
    Return,
    External,
}

/// A call walked from one node to another.
#[derive(Debug, Clone)]
pub struct FlowEdge {
    pub from: String,
    pub to: String,
    /// Position of the edge in the walk, from 1.
    pub sequence: usize,
    pub label: Option<String>,
}

/// What a flow node holds, as plain values.
pub struct FlowNodeView {
    pub id: Seq<char>,
    pub label: Seq<char>,
    pub node_type: FlowNodeType,
    pub file_path: Option<Seq<char>>,
    pub line: Option<usize>,
    pub depth: nat,
}

/// The optional string as plain characters.
pub open spec fn opt_chars(o: Option<String>) -> Option<Seq<char>> {
    match o {
        Some(s) => Some(s@),
        None => None,
    }
}

impl View for FlowNode {
    type V = FlowNodeView;

    open spec fn view(&self) -> FlowNodeView {
        FlowNodeView {
            id: self.id@,
            label: self.label@,
            node_type: self.node_type,
            file_path: opt_chars(self.file_path),
            line: self.line,
            depth: self.depth as nat,
        }
    }
}

/// The nodes of a list, as plain values.
pub open spec fn flow_node_views(v: Seq<FlowNode>) -> Seq<FlowNodeView> {
    v.map_values(|n: FlowNode| n@)
}

/// The (from, to) pairs of a list of edges.
pub open spec fn flow_edge_pairs(v: Seq<FlowEdge>) -> Seq<(Seq<char>, Seq<char>)> {
    v.map_values(|e: FlowEdge| (e.from@, e.to@))
}

/// Each edge carries its position from 1 and no label.
pub open spec fn edges_numbered(v: Seq<FlowEdge>) -> bool {
    forall|i: int| 0 <= i < v.len() ==> (#[trigger] v[i]).sequence == i + 1 && v[i].label is None
}

/// The state of a walk: nodes so far, edges so far, ids already reached.
pub struct WalkState {
    pub nodes: Seq<FlowNodeView>,
    pub edges: Seq<(Seq<char>, Seq<char>)>,
    pub visited: Set<Seq<char>>,
}

/// The callees of the last node of `g` whose id is `id`, if any.
pub open spec fn callees_in(g: Seq<CallGraphNode>, id: Seq<char>) -> Option<Seq<Seq<char>>>
    decreases g.len(),
{
    if g.len() == 0 {
        None
    } else if g.last().id@ == id {
        Some(callee_views(g.last()))
    } else {
        callees_in(g.drop_last(), id)
    }
}

/// Where the last `::`-separated part of `s` starts, scanning from `i` for
/// separators left to right without overlap.
pub open spec fn part_start(s: Seq<char>, i: int, start: int) -> int
    decreases s.len() - i,
{
    if i < 0 || i + 2 > s.len() {
        start
    } else if s[i] == ':' && s[i + 1] == ':' {
        part_start(s, i + 2, i + 2)
    } else {
        part_start(s, i + 1, start)
    }
}

/// The display label of a reached node: the last `::`-separated part of its
/// id, up to the first `@`.
pub open spec fn flow_label(id: Seq<char>) -> Seq<char> {
    let last = id.skip(part_start(id, 0, 0));
    last.take(index_of(last, '@'))
}

/// The drawing of a node, from its id in lower case.
pub open spec fn node_type_of_lowered(lower: Seq<char>) -> FlowNodeType {
    if has_infix(lower, "if("@) || has_infix(lower, "match("@) {
        FlowNodeType::Branch
    } else if has_infix(lower, "loop"@) || has_infix(lower, "while"@) || has_infix(lower, "for"@) {
        FlowNodeType::Loop
    } else if has_infix(lower, "return"@) || has_infix(lower, "exit"@) {
        FlowNodeType::Return
    } else if has_infix(lower, "std::"@) || has_infix(lower, "::new"@) {
        FlowNodeType::External
    } else {
        FlowNodeType::Call
    }
}

/// The node for a callee reached at `depth`.
pub open spec fn reached_node(c: Seq<char>, depth: nat) -> FlowNodeView {
    FlowNodeView {
        id: c,
        label: flow_label(c),
        node_type: node_type_of_lowered(lower_of(c)),
        file_path: None,
        line: None,
        depth,
    }
}

/// The walk from `id` at `depth`: nothing at the depth limit or for an id
/// without a node, else its callees in order.
pub open spec fn walk(g: Seq<CallGraphNode>, id: Seq<char>, depth: nat, max: nat, st: WalkState) -> WalkState
    decreases max - depth, 1nat, 0nat,
{
    if depth >= max {
        st
    } else {
        match callees_in(g, id) {
            None => st,
            Some(cs) => walk_callees(g, id, cs, 0, depth, max, st),
        }
    }
}

/// The walk over the callees `cs[i..]` of `id`: each call is an edge; a
/// callee not reached before becomes a node one level deeper and is walked
/// in turn.
pub open spec fn walk_callees(
    g: Seq<CallGraphNode>,
    id: Seq<char>,
    cs: Seq<Seq<char>>,
    i: nat,
    depth: nat,
    max: nat,
    st: WalkState,
) -> WalkState
    decreases max - depth, 0nat, cs.len() - i,
{
    if depth >= max || i >= cs.len() {
        st
    } else {
        let c = cs[i as int];
        let st1 = WalkState { edges: st.edges.push((id, c)), ..st };
        let st2 = if st1.visited.contains(c) {
            st1
        } else {
            walk(
                g,
                c,
                depth + 1,
                max,
                WalkState {
                    nodes: st1.nodes.push(reached_node(c, depth + 1)),
                    visited: st1.visited.insert(c),
                    ..st1
                },
            )
        };
        walk_callees(g, id, cs, i + 1, depth, max, st2)
    }
}

/// The drawing of an entry point's node.
pub open spec fn entry_node_type(kind: EntryPointKind) -> FlowNodeType {
    match kind {
        EntryPointKind::Test | EntryPointKind::ExportedFunction => FlowNodeType::Call,
        _ => FlowNodeType::Entry,
    }
}

/// The node of an entry point, at depth 0.
pub open spec fn entry_node(e: EntryPointView) -> FlowNodeView {
    FlowNodeView {
        id: e.id,
        label: e.name,
        node_type: entry_node_type(e.kind),
        file_path: Some(e.file_path),
        line: e.line,
        depth: 0,
    }
}

/// The walk from each entry point in turn, each first added as a node.
pub open spec fn walk_entries(g: Seq<CallGraphNode>, entries: Seq<EntryPointView>, max: nat) -> WalkState
    decreases entries.len(),
{
    if entries.len() == 0 {
        WalkState { nodes: Seq::empty(), edges: Seq::empty(), visited: Set::empty() }
    } else {
        let st = walk_entries(g, entries.drop_last(), max);
        let e = entries.last();
        walk(
            g,
            e.id,
            0,
            max,
            WalkState {
                nodes: st.nodes.push(entry_node(e)),
                visited: st.visited.insert(e.id),
                ..st
            },
        )
    }
}

/// The display label of a node reached through a call.
pub fn callee_label(id: &str) -> (r: String)
    ensures
        r@ == flow_label(id@),
{
    let cs = chars_of(id);
    let n = cs.len();
    let mut i: usize = 0;
    let mut start: usize = 0;
    while n >= 2 && i <= n - 2
        invariant
            n == cs.len(),
            cs@ == id@,
            start <= n,
            i <= n,
            part_start(id@, 0, 0) == part_start(id@, i as int, start as int),
        decreases n - i,
    {
        if cs[i] == ':' && cs[i + 1] == ':' {
            start = i + 2;
            i = i + 2;
        } else {
            i = i + 1;
        }
    }
    let ghost last = id@.skip(start as int);
    let mut j: usize = start;
    while j < n && cs[j] != '@'
        invariant
            start <= j <= n,
            n == cs.len(),
            cs@ == id@,
            forall|k: int| start <= k < j ==> cs@[k] != '@',
        decreases n - j,
    {
        j = j + 1;
    }
    proof {
        lemma_index_of(last, '@', j - start);
        assert(last.take(j - start) =~= id@.subrange(start as int, j as int));
    }
    String::from_str(id.substring_char(start, j))
}

impl FlowGraph {
    /// The drawing of a node, from its id already in lower case.
    pub fn node_type_of_lowercase_id(lower: &str) -> (r: FlowNodeType)
        ensures
            r == node_type_of_lowered(lower@),
    {
        if text_contains(lower, "if(") || text_contains(lower, "match(") {
            FlowNodeType::Branch
        } else if text_contains(lower, "loop") || text_contains(lower, "while") || text_contains(
            lower,
            "for",
        ) {
            FlowNodeType::Loop
        } else if text_contains(lower, "return") || text_contains(lower, "exit") {
            FlowNodeType::Return
        } else if text_contains(lower, "std::") || text_contains(lower, "::new") {
            FlowNodeType::External
        } else {
            FlowNodeType::Call
        }
    }

    /// The drawing of a node, from its id.
    pub fn infer_node_type(node_id: &str) -> (r: FlowNodeType)
        ensures
            r == node_type_of_lowered(lower_of(node_id@)),
    {
        let lower = lowercase(node_id);
        Self::node_type_of_lowercase_id(lower.as_str())
    }
}

/// The position of the last node of `g` whose id is `id`.
fn adjacency_index(g: &Vec<CallGraphNode>, id: &String) -> (r: Option<usize>)
    ensures
        match r {
            Some(k) => k < g.len() && callees_in(g@, id@) == Some(callee_views(g@[k as int])),
            None => callees_in(g@, id@) is None,
        },
{
    let mut k: usize = g.len();
    assert(g@.take(k as int) =~= g@);
    while k > 0
        invariant
            k <= g.len(),
            callees_in(g@, id@) == callees_in(g@.take(k as int), id@),
        decreases k,
    {
        assert(g@.take(k as int).drop_last() =~= g@.take(k - 1));
        if g[k - 1].id == *id {
            return Some(k - 1);
        }
        k = k - 1;
    }
    None
}

/// The walk state of what has been built so far.
spec fn state_of(nodes: Seq<FlowNode>, edges: Seq<FlowEdge>, visited: Seq<String>) -> WalkState {
    WalkState {
        nodes: flow_node_views(nodes),
        edges: flow_edge_pairs(edges),
        visited: str_views(visited).to_set(),
    }
}

fn push_edge(edges: &mut Vec<FlowEdge>, from: &String, to: &String)
    requires
        edges_numbered(old(edges)@),
    ensures
        edges_numbered(final(edges)@),
        flow_edge_pairs(final(edges)@) == flow_edge_pairs(old(edges)@).push((from@, to@)),
{
    edges.push(FlowEdge { from: from.clone(), to: to.clone(), sequence: 0, label: None });
    let n = edges.len();
    edges[n - 1].sequence = n;
    assert(flow_edge_pairs(edges@) =~= flow_edge_pairs(old(edges)@).push((from@, to@)));
}

fn expand_node(
    node_id: &String,
    depth: usize,
    max_depth: usize,
    g: &Vec<CallGraphNode>,
    nodes: &mut Vec<FlowNode>,
    edges: &mut Vec<FlowEdge>,
    visited: &mut Vec<String>,
)
    requires
        edges_numbered(old(edges)@),
    ensures
        edges_numbered(final(edges)@),
        state_of(final(nodes)@, final(edges)@, final(visited)@) == walk(
            g@,
            node_id@,
            depth as nat,
            max_depth as nat,
            state_of(old(nodes)@, old(edges)@, old(visited)@),
        ),
    decreases max_depth - depth,
{
    if depth >= max_depth {
        return;
    }
    let k = match adjacency_index(g, node_id) {
        Some(k) => k,
        None => {
            return;
        },
    };
    let callees = &g[k].callees;
    let ghost cs = callee_views(g@[k as int]);
    let ghost target = walk(
        g@,
        node_id@,
        depth as nat,
        max_depth as nat,
        state_of(old(nodes)@, old(edges)@, old(visited)@),
    );
    let mut i: usize = 0;
    while i < callees.len()
        invariant
            depth < max_depth,
            k < g.len(),
            callees == &g@[k as int].callees,
            cs == callee_views(g@[k as int]),
            i <= callees.len(),
            edges_numbered(edges@),
            target == walk_callees(
                g@,
                node_id@,
                cs,
                i as nat,
                depth as nat,
                max_depth as nat,
                state_of(nodes@, edges@, visited@),
            ),
        decreases callees.len() - i,
    {
        let callee = &callees[i];
        assert(cs[i as int] == callee@);
        push_edge(edges, node_id, callee);
        if !contains_str(visited, callee) {
            assert(!str_views(visited@).to_set().contains(callee@));
            let ghost vbefore = visited@;
            visited.push(callee.clone());
            assert(str_views(visited@) =~= str_views(vbefore).push(callee@));
            proof {
                str_views(vbefore).lemma_push_to_set_commute(callee@);
            }
            let label = callee_label(callee.as_str());
            let node_type = FlowGraph::infer_node_type(callee.as_str());
            let ghost nbefore = nodes@;
            nodes.push(
                FlowNode {
                    id: callee.clone(),
                    label,
                    node_type,
                    file_path: None,
                    line: None,
                    depth: depth + 1,
                },
            );
            assert(flow_node_views(nodes@) =~= flow_node_views(nbefore).push(
                reached_node(callee@, (depth + 1) as nat),
            ));
            expand_node(callee, depth + 1, max_depth, g, nodes, edges, visited);
        } else {
            assert(str_views(visited@).to_set().contains(callee@));
        }
        i = i + 1;
    }
}

impl FlowGraph {
    /// The flow graph of `callgraph` from each of `entry_points` in turn,
    /// following calls at most `max_depth` levels deep. Each entry point
    /// becomes a node at depth 0; each call walked becomes an edge; a callee
    /// reached for the first time becomes a node and is walked in turn.
    pub fn from_callgraph(callgraph: &CallGraph, entry_points: Vec<EntryPoint>, max_depth: usize) -> (r:
        FlowGraph)
        ensures
            entry_views(r.entry_points@) == entry_views(entry_points@),
            flow_node_views(r.nodes@) == walk_entries(
                callgraph.nodes@,
                entry_views(entry_points@),
                max_depth as nat,
            ).nodes,
            flow_edge_pairs(r.edges@) == walk_entries(
                callgraph.nodes@,
                entry_views(entry_points@),
                max_depth as nat,
            ).edges,
            edges_numbered(r.edges@),
    {
        let mut nodes: Vec<FlowNode> = Vec::new();
        let mut edges: Vec<FlowEdge> = Vec::new();
        let mut visited: Vec<String> = Vec::new();
        let ghost ev = entry_views(entry_points@);
        let mut i: usize = 0;
        assert(state_of(nodes@, edges@, visited@) == walk_entries(callgraph.nodes@, ev.take(0), max_depth as nat)) by {
            assert(flow_node_views(nodes@) =~= Seq::<FlowNodeView>::empty());
            assert(flow_edge_pairs(edges@) =~= Seq::<(Seq<char>, Seq<char>)>::empty());
            assert(str_views(visited@).to_set() =~= Set::<Seq<char>>::empty());
        }
        while i < entry_points.len()
            invariant
                i <= entry_points.len(),
                ev == entry_views(entry_points@),
                edges_numbered(edges@),
                state_of(nodes@, edges@, visited@) == walk_entries(
                    callgraph.nodes@,
                    ev.take(i as int),
                    max_depth as nat,
                ),
            decreases entry_points.len() - i,
        {
            let entry = &entry_points[i];
            assert(ev.take(i + 1).drop_last() =~= ev.take(i as int));
            assert(ev[i as int] == entry@);
            let node_type = match entry.kind {
                EntryPointKind::Test | EntryPointKind::ExportedFunction => FlowNodeType::Call,
                _ => FlowNodeType::Entry,
            };
            let ghost nbefore = nodes@;
            nodes.push(
                FlowNode {
                    id: entry.id.clone(),
                    label: entry.name.clone(),
                    node_type,
                    file_path: Some(entry.file_path.clone()),
                    line: entry.line,
                    depth: 0,
                },
            );
            assert(flow_node_views(nodes@) =~= flow_node_views(nbefore).push(entry_node(entry@)));
            let ghost vbefore = visited@;
            visited.push(entry.id.clone());
            assert(str_views(visited@) =~= str_views(vbefore).push(entry@.id));
            proof {
                str_views(vbefore).lemma_push_to_set_commute(entry@.id);
            }
            expand_node(&entry.id, 0, max_depth, &callgraph.nodes, &mut nodes, &mut edges, &mut visited);
            i = i + 1;
        }
        assert(ev.take(i as int) =~= ev);
        FlowGraph { entry_points, nodes, edges }
    }
}

/// The greatest depth among `nodes`, 0 for none.
pub open spec fn max_depth_of(nodes: Seq<FlowNodeView>) -> nat
    decreases nodes.len(),
{
    if nodes.len() == 0 {
        0
    } else {
        let m = max_depth_of(nodes.drop_last());
        if nodes.last().depth > m {
            nodes.last().depth
        } else {
            m
        }
    }
}

/// The nodes at depth `d`, in order.
pub open spec fn at_depth(nodes: Seq<FlowNodeView>, d: nat) -> Seq<FlowNodeView>
    decreases nodes.len(),
{
    if nodes.len() == 0 {
        Seq::empty()
    } else if nodes.last().depth == d {
        at_depth(nodes.drop_last(), d).push(nodes.last())
    } else {
        at_depth(nodes.drop_last(), d)
    }
}

/// The nodes of a list of references, as plain values.
pub open spec fn layer_views(v: Seq<&FlowNode>) -> Seq<FlowNodeView> {
    v.map_values(|n: &FlowNode| n@)
}

impl FlowGraph {
    /// The nodes grouped by depth, from 0 to the greatest depth, each group
    /// in the order of the nodes.
    pub fn nodes_by_depth(&self) -> (r: Vec<Vec<&FlowNode>>)
        requires
            forall|i: int| 0 <= i < self.nodes.len() ==> (#[trigger] self.nodes@[i]).depth < usize::MAX,
        ensures
            r.len() == max_depth_of(flow_node_views(self.nodes@)) + 1,
            forall|d: int|
                0 <= d < r.len() ==> layer_views(#[trigger] r@[d]@) == at_depth(
                    flow_node_views(self.nodes@),
                    d as nat,
                ),
    {
        let ghost nv = flow_node_views(self.nodes@);
        let mut max: usize = 0;
        let mut i: usize = 0;
        while i < self.nodes.len()
            invariant
                i <= self.nodes.len(),
                nv == flow_node_views(self.nodes@),
                forall|j: int| 0 <= j < self.nodes.len() ==> (#[trigger] self.nodes@[j]).depth < usize::MAX,
                max as nat == max_depth_of(nv.take(i as int)),
                max < usize::MAX,
            decreases self.nodes.len() - i,
        {
            assert(nv.take(i + 1).drop_last() =~= nv.take(i as int));
            if self.nodes[i].depth > max {
                max = self.nodes[i].depth;
            }
            i = i + 1;
        }
        assert(nv.take(i as int) =~= nv);
        let mut layers: Vec<Vec<&FlowNode>> = Vec::new();
        let mut d: usize = 0;
        while d <= max
            invariant
                d <= max + 1,
                max < usize::MAX,
                layers.len() == d,
                forall|e: int| 0 <= e < d ==> (#[trigger] layers@[e])@.len() == 0,
            decreases max + 1 - d,
        {
            layers.push(Vec::new());
            d = d + 1;
        }
        let mut i: usize = 0;
        assert forall|e: int| 0 <= e < layers.len() implies layer_views(#[trigger] layers@[e]@) == at_depth(
            nv.take(0),
            e as nat,
        ) by {
            assert(layer_views(layers@[e]@) =~= Seq::<FlowNodeView>::empty());
        }
        while i < self.nodes.len()
            invariant
                i <= self.nodes.len(),
                nv == flow_node_views(self.nodes@),
                layers.len() == max + 1,
                max as nat == max_depth_of(nv),
                forall|e: int|
                    0 <= e < layers.len() ==> layer_views(#[trigger] layers@[e]@) == at_depth(
                        nv.take(i as int),
                        e as nat,
                    ),
            decreases self.nodes.len() - i,
        {
            let node = &self.nodes[i];
            assert(nv.take(i + 1).drop_last() =~= nv.take(i as int));
            proof {
                lemma_depth_bounded(nv, i as int);
            }
            let ghost before = layers@;
            layers[node.depth].push(node);
            assert forall|e: int|
                0 <= e < layers.len() implies layer_views(#[trigger] layers@[e]@) == at_depth(
                nv.take(i + 1),
                e as nat,
            ) by {
                if e == node.depth {
                    assert(layer_views(layers@[e]@) =~= layer_views(before[e]@).push(node@));
                } else {
                    assert(layers@[e] == before[e]);
                }
            }
            i = i + 1;
        }
        assert(nv.take(i as int) =~= nv);
        layers
    }
}

proof fn lemma_depth_bounded(nodes: Seq<FlowNodeView>, i: int)
    requires
        0 <= i < nodes.len(),
    ensures
        nodes[i].depth <= max_depth_of(nodes),
    decreases nodes.len(),
{
    if i < nodes.len() - 1 {
        lemma_depth_bounded(nodes.drop_last(), i);
    }
}

} // verus!
