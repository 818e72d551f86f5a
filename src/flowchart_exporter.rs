//! Graphviz DOT text for flow graphs and call graphs.
use vstd::prelude::*;
use crate::callgraph::{CallGraph, CallGraphNode, callee_views};
use crate::flowgraph::{
    FlowEdge, FlowGraph, FlowNode, FlowNodeType, FlowNodeView, at_depth, flow_node_views,
    layer_views, max_depth_of, opt_chars,
};

verus! {

broadcast use vstd::string::group_string_axioms;

/// Decimal digit `d` (below 10).
pub open spec fn dec_digit(d: nat) -> char {
    ('0' as u32 + d) as char
}

/// `n` in decimal, without leading zeros.
pub open spec fn dec_of(n: nat) -> Seq<char>
    decreases n,
{
    if n < 10 {
        seq![dec_digit(n)]
    } else {
        dec_of(n / 10).push(dec_digit(n % 10))
    }
}

fn dec_digit_str(d: usize) -> (r: &'static str)
    requires
        d < 10,
    ensures
        r@ == seq![dec_digit(d as nat)],
{
    proof {
        reveal_strlit("0");
        reveal_strlit("1");
        reveal_strlit("2");
        reveal_strlit("3");
        reveal_strlit("4");
        reveal_strlit("5");
        reveal_strlit("6");
        reveal_strlit("7");
        reveal_strlit("8");
        reveal_strlit("9");
    }
    let r = match d {
        0 => "0",
        1 => "1",
        2 => "2",
        3 => "3",
        4 => "4",
        5 => "5",
        6 => "6",
        7 => "7",
        8 => "8",
        _ => "9",
    };
    assert(r@ =~= seq![dec_digit(d as nat)]);
    r
}

fn append_dec(out: &mut String, n: usize)
    ensures
        final(out)@ == old(out)@ + dec_of(n as nat),
    decreases n,
{
    if n >= 10 {
        append_dec(out, n / 10);
    }
    out.append(dec_digit_str(n % 10));
    proof {
        if n >= 10 {
            assert(old(out)@ + dec_of(n as nat) =~= old(out)@ + dec_of((n / 10) as nat) + seq![
                dec_digit((n % 10) as nat),
            ]);
        } else {
            assert(n % 10 == n);
        }
    }
}

/// `s` with `\`, `"` and line feeds escaped for a quoted DOT string.
pub open spec fn escaped(s: Seq<char>) -> Seq<char>
    decreases s.len(),
{
    if s.len() == 0 {
        s
    } else {
        let c = s.last();
        escaped(s.drop_last()) + if c == '\\' {
            seq!['\\', '\\']
        } else if c == '"' {
            seq!['\\', '"']
        } else if c == '\n' {
            seq!['\\', 'n']
        } else {
            seq![c]
        }
    }
}

/// `s` with `"` escaped.
pub open spec fn quotes_escaped(s: Seq<char>) -> Seq<char>
    decreases s.len(),
{
    if s.len() == 0 {
        s
    } else {
        let c = s.last();
        quotes_escaped(s.drop_last()) + if c == '"' {
            seq!['\\', '"']
        } else {
            seq![c]
        }
    }
}

spec fn escaped_with(all: bool, t: Seq<char>) -> Seq<char> {
    if all {
        escaped(t)
    } else {
        quotes_escaped(t)
    }
}

fn append_escaped(out: &mut String, s: &str, all: bool)
    ensures
        final(out)@ == old(out)@ + if all {
            escaped(s@)
        } else {
            quotes_escaped(s@)
        },
{
    let n = s.unicode_len();
    let mut seg: usize = 0;
    let mut i: usize = 0;
    let ghost start = out@;
    assert(s@.subrange(0, 0) =~= Seq::<char>::empty());
    while i < n
        invariant
            seg <= i <= n,
            n == s@.len(),
            forall|k: int| seg <= k < i ==> s@[k] != '"' && (all ==> s@[k] != '\\' && s@[k] != '\n'),
            out@ + s@.subrange(seg as int, i as int) == start + escaped_with(all, s@.subrange(0, i as int)),
        decreases n - i,
    {
        let c = s.get_char(i);
        let ghost pre = s@.subrange(0, i as int);
        assert(s@.subrange(0, i + 1) =~= pre.push(c));
        assert(s@.subrange(0, i + 1).drop_last() =~= pre);
        assert(s@.subrange(0, i + 1).last() == c);
        proof {
            reveal_strlit("\\\\");
            reveal_strlit("\\\"");
            reveal_strlit("\\n");
        }
        let ghost added: Seq<char> = if c == '"' {
            seq!['\\', '"']
        } else if c == '\\' {
            seq!['\\', '\\']
        } else {
            seq!['\\', 'n']
        };
        let special = c == '"' || (all && (c == '\\' || c == '\n'));
        if special {
            out.append(s.substring_char(seg, i));
            if c == '"' {
                out.append("\\\"");
            } else if c == '\\' {
                out.append("\\\\");
            } else {
                out.append("\\n");
            }
            assert(escaped_with(all, s@.subrange(0, i + 1)) =~= escaped_with(all, pre) + added);
            seg = i + 1;
            assert(s@.subrange(seg as int, i + 1) =~= Seq::<char>::empty());
            assert(out@ =~= start + escaped_with(all, s@.subrange(0, i + 1)));
            assert(out@ + s@.subrange(seg as int, i + 1) =~= out@);
        } else {
            assert(s@.subrange(seg as int, i + 1) =~= s@.subrange(seg as int, i as int).push(c));
            assert(escaped_with(all, s@.subrange(0, i + 1)) =~= escaped_with(all, pre).push(c));
            assert(out@ + s@.subrange(seg as int, i + 1) =~= (out@ + s@.subrange(seg as int, i as int)).push(c));
        }
        i = i + 1;
    }
    out.append(s.substring_char(seg, n));
    assert(s@.subrange(0, n as int) =~= s@);
}

/// The lines of `ls` joined by line feeds.
pub open spec fn join_lines(ls: Seq<Seq<char>>) -> Seq<char>
    decreases ls.len(),
{
    if ls.len() == 0 {
        Seq::empty()
    } else if ls.len() == 1 {
        ls[0]
    } else {
        join_lines(ls.drop_last()) + seq!['\n'] + ls.last()
    }
}

fn push_line(out: &mut String, line: &str, first: bool)
    ensures
        final(out)@ == old(out)@ + (if first {
            Seq::empty()
        } else {
            seq!['\n']
        }) + line@,
{
    if !first {
        out.append("\n");
        proof {
            reveal_strlit("\n");
        }
    }
    out.append(line);
    assert(final(out)@ =~= old(out)@ + (if first {
        Seq::empty()
    } else {
        seq!['\n']
    }) + line@);
}

proof fn lemma_join_push(ls: Seq<Seq<char>>, l: Seq<char>)
    ensures
        join_lines(ls.push(l)) == join_lines(ls) + (if ls.len() == 0 {
            Seq::empty()
        } else {
            seq!['\n']
        }) + l,
{
    assert(ls.push(l).drop_last() =~= ls);
    if ls.len() == 0 {
        assert(Seq::<char>::empty() + Seq::<char>::empty() + l =~= l);
    }
}

/// Shape, fill colour and style of a node of the given type.
pub open spec fn style_of(t: FlowNodeType) -> (Seq<char>, Seq<char>, Seq<char>) {
    match t {
        FlowNodeType::Entry => ("box"@, "#a6e3a1"@, "filled,rounded"@),
        FlowNodeType::Call => ("box"@, "#89b4fa"@, "filled"@),
        FlowNodeType::Branch => ("diamond"@, "#f9e2af"@, "filled"@),
        FlowNodeType::Loop => ("hexagon"@, "#cba6f7"@, "filled"@),
        FlowNodeType::Return => ("box"@, "#f38ba8"@, "filled,rounded"@),
        FlowNodeType::External => ("box"@, "#6c7086"@, "filled,dashed"@),
    }
}

/// Border colour of a node of the given type.
pub open spec fn border_of(t: FlowNodeType) -> Seq<char> {
    match t {
        FlowNodeType::Entry => "#40a02b"@,
        FlowNodeType::Call => "#1e66f5"@,
        FlowNodeType::Branch => "#df8e1d"@,
        FlowNodeType::Loop => "#8839ef"@,
        FlowNodeType::Return => "#d20f39"@,
        FlowNodeType::External => "#5c5f77"@,
    }
}

/// The opening lines of a flowchart.
pub open spec fn flowchart_header() -> Seq<Seq<char>> {
    seq![
        "digraph FlowChart {"@,
        "    rankdir=TB;"@,
        "    splines=ortho;"@,
        "    nodesep=0.8;"@,
        "    ranksep=1.0;"@,
        "    node [fontname=\"Helvetica\", fontsize=12];"@,
        "    edge [fontname=\"Helvetica\", fontsize=10];"@,
        ""@,
    ]
}

/// The line that declares a node.
pub open spec fn node_line(n: FlowNodeView) -> Seq<char> {
    let st = style_of(n.node_type);
    "    \""@ + n.id + "\" [label=\""@ + escaped(n.label) + "\", shape="@ + st.0 + ", style=\""@
        + st.2 + "\", fillcolor=\""@ + st.1 + "\", color=\""@ + border_of(n.node_type) + "\"];"@
}

/// The line that declares an edge, labelled with its position and label.
pub open spec fn edge_line(e: FlowEdge) -> Seq<char> {
    "    \""@ + e.from@ + "\" -> \""@ + e.to@ + "\" [label=\""@ + dec_of(e.sequence as nat) + match opt_chars(
        e.label,
    ) {
        Some(l) => " ["@ + l + "]"@,
        None => Seq::empty(),
    } + "\"];"@
}

/// The ids of a layer, each quoted, separated by `; `.
pub open spec fn quoted_ids(layer: Seq<FlowNodeView>) -> Seq<char>
    decreases layer.len(),
{
    if layer.len() == 0 {
        Seq::empty()
    } else if layer.len() == 1 {
        "\""@ + layer[0].id + "\""@
    } else {
        quoted_ids(layer.drop_last()) + "; "@ + "\""@ + layer.last().id + "\""@
    }
}

/// The lines that put each non-empty layer below depth `d` on one rank.
pub open spec fn rank_lines(nodes: Seq<FlowNodeView>, d: nat) -> Seq<Seq<char>>
    decreases d,
{
    if d == 0 {
        Seq::empty()
    } else {
        let layer = at_depth(nodes, (d - 1) as nat);
        rank_lines(nodes, (d - 1) as nat) + if layer.len() > 0 {
            seq!["    { rank=same; "@ + quoted_ids(layer) + " }"@]
        } else {
            Seq::empty()
        }
    }
}

/// The lines of the flowchart of `flow`.
pub open spec fn flowchart_lines(flow: FlowGraph) -> Seq<Seq<char>> {
    let nv = flow_node_views(flow.nodes@);
    flowchart_header() + nv.map_values(|n: FlowNodeView| node_line(n)) + seq![""@]
        + flow.edges@.map_values(|e: FlowEdge| edge_line(e)) + rank_lines(nv, max_depth_of(nv) + 1)
        + seq!["}"@]
}

/// Exports flow graphs as Graphviz DOT flowcharts.
pub struct FlowchartExporter;

impl FlowchartExporter {
    /// Shape, fill colour and style of a node of the given type.
    pub fn node_style(node_type: &FlowNodeType) -> (r: (&'static str, &'static str, &'static str))
        ensures
            (r.0@, r.1@, r.2@) == style_of(*node_type),
    {
        match node_type {
            FlowNodeType::Entry => ("box", "#a6e3a1", "filled,rounded"),
            FlowNodeType::Call => ("box", "#89b4fa", "filled"),
            FlowNodeType::Branch => ("diamond", "#f9e2af", "filled"),
            FlowNodeType::Loop => ("hexagon", "#cba6f7", "filled"),
            FlowNodeType::Return => ("box", "#f38ba8", "filled,rounded"),
            FlowNodeType::External => ("box", "#6c7086", "filled,dashed"),
        }
    }

    /// Border colour of a node of the given type.
    pub fn border_color(node_type: &FlowNodeType) -> (r: &'static str)
        ensures
            r@ == border_of(*node_type),
    {
        match node_type {
            FlowNodeType::Entry => "#40a02b",
            FlowNodeType::Call => "#1e66f5",
            FlowNodeType::Branch => "#df8e1d",
            FlowNodeType::Loop => "#8839ef",
            FlowNodeType::Return => "#d20f39",
            FlowNodeType::External => "#5c5f77",
        }
    }

    /// `label` escaped for a quoted DOT string.
    pub fn escape_label(label: &str) -> (r: String)
        ensures
            r@ == escaped(label@),
    {
        let mut out = String::new();
        append_escaped(&mut out, label, true);
        out
    }

    fn node_decl(n: &FlowNode) -> (r: String)
        ensures
            r@ == node_line(n@),
    {
        let (shape, color, style) = Self::node_style(&n.node_type);
        let mut l = String::from_str("    \"");
        l.append(n.id.as_str());
        l.append("\" [label=\"");
        append_escaped(&mut l, n.label.as_str(), true);
        l.append("\", shape=");
        l.append(shape);
        l.append(", style=\"");
        l.append(style);
        l.append("\", fillcolor=\"");
        l.append(color);
        l.append("\", color=\"");
        l.append(Self::border_color(&n.node_type));
        l.append("\"];");
        l
    }

    fn edge_decl(e: &FlowEdge) -> (r: String)
        ensures
            r@ == edge_line(*e),
    {
        let mut l = String::from_str("    \"");
        l.append(e.from.as_str());
        l.append("\" -> \"");
        l.append(e.to.as_str());
        l.append("\" [label=\"");
        append_dec(&mut l, e.sequence);
        match &e.label {
            Some(lb) => {
                l.append(" [");
                l.append(lb.as_str());
                l.append("]");
            },
            None => {},
        }
        l.append("\"];");
        l
    }

    fn rank_decl(layer: &Vec<&FlowNode>) -> (r: String)
        requires
            layer.len() > 0,
        ensures
            r@ == "    { rank=same; "@ + quoted_ids(layer_views(layer@)) + " }"@,
    {
        let ghost lv = layer_views(layer@);
        let mut l = String::from_str("    { rank=same; ");
        let ghost head = l@;
        let mut i: usize = 0;
        assert(lv.take(0) =~= Seq::<FlowNodeView>::empty());
        while i < layer.len()
            invariant
                i <= layer.len(),
                lv == layer_views(layer@),
                l@ == head + quoted_ids(lv.take(i as int)),
            decreases layer.len() - i,
        {
            assert(lv.take(i + 1).drop_last() =~= lv.take(i as int));
            if i > 0 {
                l.append("; ");
            }
            l.append("\"");
            l.append(layer[i].id.as_str());
            l.append("\"");
            i = i + 1;
        }
        assert(lv.take(i as int) =~= lv);
        l.append(" }");
        l
    }

    /// The flowchart of `flow` as DOT text: a header, a line per node, a
    /// line per edge with its position, and one rank line per non-empty depth.
    pub fn to_dot(flow: &FlowGraph) -> (r: String)
        requires
            forall|i: int| 0 <= i < flow.nodes.len() ==> (#[trigger] flow.nodes@[i]).depth < usize::MAX,
        ensures
            r@ == join_lines(flowchart_lines(*flow)),
    {
        let ghost nv = flow_node_views(flow.nodes@);
        let mut out = String::new();
        let ghost mut lines: Seq<Seq<char>> = Seq::empty();
        let header = [
            "digraph FlowChart {",
            "    rankdir=TB;",
            "    splines=ortho;",
            "    nodesep=0.8;",
            "    ranksep=1.0;",
            "    node [fontname=\"Helvetica\", fontsize=12];",
            "    edge [fontname=\"Helvetica\", fontsize=10];",
            "",
        ];
        let mut h: usize = 0;
        while h < 8
            invariant
                h <= 8,
                header@.map_values(|x: &str| x@) == flowchart_header(),
                lines == flowchart_header().take(h as int),
                out@ == join_lines(lines),
            decreases 8 - h,
        {
            proof {
                lemma_join_push(lines, header[h as int]@);
            }
            push_line(&mut out, header[h], h == 0);
            proof {
                lines = lines.push(header[h as int]@);
                assert(lines =~= flowchart_header().take(h + 1));
            }
            h = h + 1;
        }
        let mut i: usize = 0;
        while i < flow.nodes.len()
            invariant
                i <= flow.nodes.len(),
                nv == flow_node_views(flow.nodes@),
                lines.len() > 0,
                lines == flowchart_header() + nv.take(i as int).map_values(|n: FlowNodeView| node_line(n)),
                out@ == join_lines(lines),
            decreases flow.nodes.len() - i,
        {
            let l = Self::node_decl(&flow.nodes[i]);
            proof {
                lemma_join_push(lines, l@);
            }
            push_line(&mut out, l.as_str(), false);
            proof {
                lines = lines.push(l@);
                assert(lines =~= flowchart_header() + nv.take(i + 1).map_values(|n: FlowNodeView| node_line(n)));
            }
            i = i + 1;
        }
        proof {
            assert(nv.take(i as int) =~= nv);
            lemma_join_push(lines, ""@);
        }
        push_line(&mut out, "", false);
        proof {
            lines = lines.push(""@);
        }
        let ghost before_edges = lines;
        let mut j: usize = 0;
        assert(before_edges + flow.edges@.take(0).map_values(|e: FlowEdge| edge_line(e)) =~= lines);
        while j < flow.edges.len()
            invariant
                j <= flow.edges.len(),
                lines.len() > 0,
                lines == before_edges + flow.edges@.take(j as int).map_values(|e: FlowEdge| edge_line(e)),
                out@ == join_lines(lines),
            decreases flow.edges.len() - j,
        {
            let l = Self::edge_decl(&flow.edges[j]);
            proof {
                lemma_join_push(lines, l@);
            }
            push_line(&mut out, l.as_str(), false);
            proof {
                lines = lines.push(l@);
                assert(lines =~= before_edges + flow.edges@.take(j + 1).map_values(|e: FlowEdge| edge_line(e)));
            }
            j = j + 1;
        }
        assert(flow.edges@.take(j as int) =~= flow.edges@);
        let layers = flow.nodes_by_depth();
        let ghost before_ranks = lines;
        let mut d: usize = 0;
        assert(before_ranks + rank_lines(nv, 0) =~= lines);
        while d < layers.len()
            invariant
                d <= layers.len(),
                nv == flow_node_views(flow.nodes@),
                layers.len() == max_depth_of(nv) + 1,
                forall|e: int| 0 <= e < layers.len() ==> layer_views(#[trigger] layers@[e]@) == at_depth(nv, e as nat),
                lines.len() > 0,
                lines == before_ranks + rank_lines(nv, d as nat),
                out@ == join_lines(lines),
            decreases layers.len() - d,
        {
            let layer = &layers[d];
            assert(layer_views(layer@) == at_depth(nv, d as nat));
            if layer.len() > 0 {
                let l = Self::rank_decl(layer);
                proof {
                    lemma_join_push(lines, l@);
                }
                push_line(&mut out, l.as_str(), false);
                proof {
                    lines = lines.push(l@);
                    assert(lines =~= before_ranks + rank_lines(nv, (d + 1) as nat));
                }
            } else {
                assert(rank_lines(nv, (d + 1) as nat) =~= rank_lines(nv, d as nat));
            }
            d = d + 1;
        }
        proof {
            lemma_join_push(lines, "}"@);
        }
        push_line(&mut out, "}", false);
        proof {
            lines = lines.push("}"@);
            assert(lines =~= flowchart_lines(*flow));
        }
        out
    }
}

/// The label of a call-graph node, its id where it has none.
pub open spec fn label_or_id(n: CallGraphNode) -> Seq<char> {
    match n.label {
        Some(l) => l@,
        None => n.id@,
    }
}

/// The lines that declare a call-graph node and its calls.
pub open spec fn call_node_lines(n: CallGraphNode) -> Seq<Seq<char>> {
    seq!["    \""@ + n.id@ + "\" [label=\""@ + quotes_escaped(label_or_id(n)) + "\"];"@]
        + callee_views(n).map_values(|c: Seq<char>| "    \""@ + n.id@ + "\" -> \""@ + c + "\";"@)
}

/// The lines that declare `nodes` in order.
pub open spec fn call_graph_body(nodes: Seq<CallGraphNode>) -> Seq<Seq<char>>
    decreases nodes.len(),
{
    if nodes.len() == 0 {
        Seq::empty()
    } else {
        call_graph_body(nodes.drop_last()) + call_node_lines(nodes.last())
    }
}

/// The lines of the DOT text of a call graph.
pub open spec fn call_graph_lines(cg: CallGraph) -> Seq<Seq<char>> {
    seq!["digraph G {"@] + call_graph_body(cg.nodes@) + seq!["}"@]
}

/// Exports call graphs as Graphviz DOT.
pub struct DotExporter;

impl DotExporter {
    /// The DOT text of `cg`: a line per node with its label, a line per call.
    pub fn to_dot(cg: &CallGraph) -> (r: String)
        ensures
            r@ == join_lines(call_graph_lines(*cg)),
    {
        let mut out = String::new();
        let ghost mut lines: Seq<Seq<char>> = Seq::empty();
        proof {
            lemma_join_push(lines, "digraph G {"@);
        }
        push_line(&mut out, "digraph G {", true);
        proof {
            lines = lines.push("digraph G {"@);
            assert(lines =~= seq!["digraph G {"@] + call_graph_body(cg.nodes@.take(0)));
        }
        let mut i: usize = 0;
        while i < cg.nodes.len()
            invariant
                i <= cg.nodes.len(),
                lines.len() > 0,
                lines == seq!["digraph G {"@] + call_graph_body(cg.nodes@.take(i as int)),
                out@ == join_lines(lines),
            decreases cg.nodes.len() - i,
        {
            let n = &cg.nodes[i];
            assert(cg.nodes@.take(i + 1).drop_last() =~= cg.nodes@.take(i as int));
            let ghost start = lines;
            let mut l = String::from_str("    \"");
            l.append(n.id.as_str());
            l.append("\" [label=\"");
            match &n.label {
                Some(lb) => append_escaped(&mut l, lb.as_str(), false),
                None => append_escaped(&mut l, n.id.as_str(), false),
            }
            l.append("\"];");
            proof {
                lemma_join_push(lines, l@);
            }
            push_line(&mut out, l.as_str(), false);
            proof {
                lines = lines.push(l@);
            }
            let ghost cv = callee_views(*n);
            let mut k: usize = 0;
            assert(lines =~= start + seq![l@] + cv.take(0).map_values(
                |c: Seq<char>| "    \""@ + n.id@ + "\" -> \""@ + c + "\";"@,
            ));
            while k < n.callees.len()
                invariant
                    k <= n.callees.len(),
                    i < cg.nodes.len(),
                    n == &cg.nodes@[i as int],
                    cv == callee_views(*n),
                    lines.len() > 0,
                    lines == start + seq![l@] + cv.take(k as int).map_values(
                        |c: Seq<char>| "    \""@ + n.id@ + "\" -> \""@ + c + "\";"@,
                    ),
                    out@ == join_lines(lines),
                decreases n.callees.len() - k,
            {
                let mut e = String::from_str("    \"");
                e.append(n.id.as_str());
                e.append("\" -> \"");
                e.append(n.callees[k].as_str());
                e.append("\";");
                proof {
                    lemma_join_push(lines, e@);
                }
                push_line(&mut out, e.as_str(), false);
                proof {
                    lines = lines.push(e@);
                    assert(lines =~= start + seq![l@] + cv.take(k + 1).map_values(
                        |c: Seq<char>| "    \""@ + n.id@ + "\" -> \""@ + c + "\";"@,
                    ));
                }
                k = k + 1;
            }
            assert(cv.take(k as int) =~= cv);
            assert(lines =~= seq!["digraph G {"@] + call_graph_body(cg.nodes@.take(i + 1)));
            i = i + 1;
        }
        assert(cg.nodes@.take(i as int) =~= cg.nodes@);
        proof {
            lemma_join_push(lines, "}"@);
        }
        push_line(&mut out, "}", false);
        proof {
            lines = lines.push("}"@);
            assert(lines =~= call_graph_lines(*cg));
        }
        out
    }
}

} // verus!
