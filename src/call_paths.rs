//! Call paths between two nodes of a call graph.
use vstd::prelude::*;
use crate::callgraph::{CallGraph, CallGraphNode, callee_views, contains_str, str_views};
use crate::flowgraph::callees_in;

verus! {

/// The paths that extend `path` to `target` without repeating an id, depth
/// first, the callees of each node taken from the last one back; at most
/// `fuel` nodes are expanded along any path.
pub open spec fn paths_from(
    g: Seq<CallGraphNode>,
    target: Seq<char>,
    path: Seq<Seq<char>>,
    fuel: nat,
) -> Seq<Seq<Seq<char>>>
    decreases fuel, 1nat, 0nat,
{
    if path.len() > 0 && path.last() == target {
        seq![path]
    } else if fuel == 0 || path.len() == 0 {
        Seq::empty()
    } else {
        match callees_in(g, path.last()) {
            None => Seq::empty(),
            Some(cs) => paths_over(g, target, path, cs, cs.len(), (fuel - 1) as nat),
        }
    }
}

/// The paths through the callees `cs[..i]` of the last node of `path`, from
/// `cs[i - 1]` back to `cs[0]`, skipping those already on `path`.
pub open spec fn paths_over(
    g: Seq<CallGraphNode>,
    target: Seq<char>,
    path: Seq<Seq<char>>,
    cs: Seq<Seq<char>>,
    i: nat,
    fuel: nat,
) -> Seq<Seq<Seq<char>>>
    decreases fuel + 1, 0nat, i,
{
    if i == 0 || i > cs.len() {
        Seq::empty()
    } else {
        let c = cs[i - 1];
        (if path.contains(c) {
            Seq::empty()
        } else {
            paths_from(g, target, path.push(c), fuel)
        }) + paths_over(g, target, path, cs, (i - 1) as nat, fuel)
    }
}

/// Every path of calls from `from` to `target` that repeats no id, depth
/// first; a path that repeats no id expands at most one node per id, so
/// the bound of one expansion per node of the graph does not cut any short.
pub open spec fn call_paths_of(g: Seq<CallGraphNode>, from: Seq<char>, target: Seq<char>) -> Seq<
    Seq<Seq<char>>,
> {
    paths_from(g, target, seq![from], g.len())
}

/// The paths of a list, as plain values.
pub open spec fn path_views(v: Seq<Vec<String>>) -> Seq<Seq<Seq<char>>> {
    v.map_values(|p: Vec<String>| str_views(p@))
}

fn copy_path(path: &Vec<String>) -> (r: Vec<String>)
    ensures
        str_views(r@) == str_views(path@),
{
    let mut r: Vec<String> = Vec::new();
    let mut i: usize = 0;
    while i < path.len()
        invariant
            i <= path.len(),
            str_views(r@) == str_views(path@).take(i as int),
        decreases path.len() - i,
    {
        let item = path[i].clone();
        assert(item@ == path@[i as int]@);
        let ghost before = r@;
        r.push(item);
        assert(str_views(r@) =~= str_views(before).push(item@));
        assert(str_views(path@).take(i + 1) =~= str_views(path@).take(i as int).push(path@[i as int]@));
        i = i + 1;
    }
    assert(str_views(path@).take(i as int) =~= str_views(path@));
    r
}

fn node_position(g: &Vec<CallGraphNode>, id: &String) -> (r: Option<usize>)
    ensures
        match r {
            Some(k) => k < g.len() && callees_in(g@, id@) == Some(callee_views(g@[k as int])),
            None => callees_in(g@, id@) is None,
        },
{
    let mut k: usize = g.len();
    assert(g@.take(k as int) =~= g@);
    while k > 0
        invariant
            k <= g.len(),
            callees_in(g@, id@) == callees_in(g@.take(k as int), id@),
        decreases k,
    {
        assert(g@.take(k as int).drop_last() =~= g@.take(k - 1));
        if g[k - 1].id == *id {
            return Some(k - 1);
        }
        k = k - 1;
    }
    None
}

fn collect_paths(
    g: &Vec<CallGraphNode>,
    target: &String,
    path: &mut Vec<String>,
    fuel: usize,
    out: &mut Vec<Vec<String>>,
)
    requires
        old(path).len() > 0,
    ensures
        str_views(final(path)@) == str_views(old(path)@),
        path_views(final(out)@) == path_views(old(out)@) + paths_from(
            g@,
            target@,
            str_views(old(path)@),
            fuel as nat,
        ),
    decreases fuel,
{
    let ghost pv = str_views(path@);
    let last = path.len() - 1;
    if path[last] == *target {
        let copy = copy_path(path);
        let ghost before = path_views(out@);
        out.push(copy);
        assert(path_views(out@) =~= before + seq![pv]);
        return;
    }
    if fuel == 0 {
        assert(path_views(out@) =~= path_views(out@) + Seq::<Seq<Seq<char>>>::empty());
        return;
    }
    let k = match node_position(g, &path[last]) {
        Some(k) => k,
        None => {
            assert(path_views(out@) =~= path_views(out@) + Seq::<Seq<Seq<char>>>::empty());
            return;
        },
    };
    let callees = &g[k].callees;
    let ghost cs = callee_views(g@[k as int]);
    let ghost start = path_views(out@);
    let mut i: usize = callees.len();
    assert(start + paths_over(g@, target@, pv, cs, i as nat, (fuel - 1) as nat) == start
        + paths_from(g@, target@, pv, fuel as nat));
    while i > 0
        invariant
            i <= callees.len(),
            k < g.len(),
            callees == &g@[k as int].callees,
            cs == callee_views(g@[k as int]),
            fuel > 0,
            str_views(path@) == pv,
            pv.len() > 0,
            path_views(out@) + paths_over(g@, target@, pv, cs, i as nat, (fuel - 1) as nat) == start
                + paths_from(g@, target@, pv, fuel as nat),
        decreases i,
    {
        let callee = &callees[i - 1];
        assert(cs[i - 1] == callee@);
        let ghost mid = path_views(out@);
        if !contains_str(path, callee) {
            path.push(callee.clone());
            assert(str_views(path@) =~= pv.push(callee@));
            collect_paths(g, target, path, fuel - 1, out);
            let ghost full = path@;
            path.pop();
            assert(path@ =~= full.drop_last());
            assert(str_views(path@) =~= str_views(full).drop_last());
            assert(str_views(path@) =~= pv);
        }
        assert(path_views(out@) + paths_over(g@, target@, pv, cs, (i - 1) as nat, (fuel - 1) as nat)
            =~= mid + paths_over(g@, target@, pv, cs, i as nat, (fuel - 1) as nat));
        i = i - 1;
    }
    assert(path_views(out@) =~= path_views(out@) + paths_over(g@, target@, pv, cs, 0, (fuel - 1) as nat));
}

/// Every path of calls from `from` to `target` that repeats no id, depth
/// first (see `call_paths_of`).
pub fn call_paths(cg: &CallGraph, from: &String, target: &String) -> (r: Vec<Vec<String>>)
    ensures
        path_views(r@) == call_paths_of(cg.nodes@, from@, target@),
{
    let mut out: Vec<Vec<String>> = Vec::new();
    let mut path: Vec<String> = Vec::new();
    path.push(from.clone());
    assert(str_views(path@) =~= seq![from@]);
    collect_paths(&cg.nodes, target, &mut path, cg.nodes.len(), &mut out);
    assert(path_views(out@) =~= call_paths_of(cg.nodes@, from@, target@));
    out
}

} // verus!
