//! Building a call graph from the occurrence stream of a semantic index.
//!
//! The first pass collects the defined symbols, which become the nodes, and
//! the definitions of each document. The second pass resolves each reference
//! to a definition of its document whose range encloses it, and records an
//! edge from that caller to the referenced symbol. Which enclosing definition
//! is taken is a `MatchPolicy`: the outermost is the one that a scan of the
//! definitions sorted by extent, largest first and stable, meets first; the
//! innermost is the one of least extent.
use vstd::prelude::*;
use crate::callgraph::{str_views, node_ids, callee_views, contains_str, CallGraph, CallGraphNode};
use crate::scip_index::{
    Document, DocumentView, OccurrenceView, documents_view, decoded_documents, decode_documents,
    decode_error_message,
};
use crate::source_range::{SourceRange, parse_scip_range, range_of, pos_le};
use crate::text::{chars_of, lex_lt, str_less, lemma_lex_irreflexive, lemma_lex_total, lemma_lex_transitive};

verus! {

broadcast use vstd::string::group_string_axioms;

/// The characters after the last space of `s` (all of `s` where it has none).
pub open spec fn after_last_space(s: Seq<char>) -> Seq<char>
    decreases s.len(),
{
    if s.len() == 0 {
        s
    } else if s.last() == ' ' {
        Seq::empty()
    } else {
        after_last_space(s.drop_last()).push(s.last())
    }
}

/// Punctuation that closes a symbol descriptor.
pub open spec fn is_descriptor_suffix(c: char) -> bool {
    c == '(' || c == ')' || c == '.' || c == '#'
}

/// `s` without its trailing descriptor punctuation.
pub open spec fn trim_descriptor_suffix(s: Seq<char>) -> Seq<char>
    decreases s.len(),
{
    if s.len() > 0 && is_descriptor_suffix(s.last()) {
        trim_descriptor_suffix(s.drop_last())
    } else {
        s
    }
}

/// `s` with each `/` written as `::`.
pub open spec fn slashes_as_paths(s: Seq<char>) -> Seq<char>
    decreases s.len(),
{
    if s.len() == 0 {
        s
    } else if s.last() == '/' {
        slashes_as_paths(s.drop_last()) + seq![':', ':']
    } else {
        slashes_as_paths(s.drop_last()).push(s.last())
    }
}

/// The display label of a symbol: its last space-separated part, without
/// trailing descriptor punctuation, with path separators as `::`.
pub open spec fn label_of(symbol: Seq<char>) -> Seq<char> {
    slashes_as_paths(trim_descriptor_suffix(after_last_space(symbol)))
}

proof fn lemma_after_last_space(s: Seq<char>, start: int)
    requires
        0 <= start <= s.len(),
        start == 0 || s[start - 1] == ' ',
        forall|j: int| start <= j < s.len() ==> s[j] != ' ',
    ensures
        after_last_space(s) == s.subrange(start, s.len() as int),
    decreases s.len(),
{
    if s.len() == 0 {
    } else if s.len() == start {
        assert(s.subrange(start, s.len() as int) =~= Seq::<char>::empty());
    } else {
        lemma_after_last_space(s.drop_last(), start);
        assert(s.subrange(start, s.len() as int) =~= s.drop_last().subrange(start, s.len() - 1).push(s.last()));
    }
}

proof fn lemma_trim_descriptor_suffix(s: Seq<char>, end: int)
    requires
        0 <= end <= s.len(),
        end == 0 || !is_descriptor_suffix(s[end - 1]),
        forall|j: int| end <= j < s.len() ==> is_descriptor_suffix(s[j]),
    ensures
        trim_descriptor_suffix(s) == s.subrange(0, end),
    decreases s.len(),
{
    if s.len() == end {
        assert(s.subrange(0, end) =~= s);
    } else {
        lemma_trim_descriptor_suffix(s.drop_last(), end);
        assert(s.drop_last().subrange(0, end) =~= s.subrange(0, end));
    }
}

proof fn lemma_slash_free(s: Seq<char>)
    requires
        forall|j: int| 0 <= j < s.len() ==> s[j] != '/',
    ensures
        slashes_as_paths(s) == s,
    decreases s.len(),
{
    if s.len() > 0 {
        lemma_slash_free(s.drop_last());
        assert(s.drop_last().push(s.last()) =~= s);
    }
}

/// Extracts a readable label from a symbol string such as
/// `rust-analyzer cargo crate 0.1.0 module/Type#method().`
pub fn extract_label_from_symbol(symbol: &str) -> (r: String)
    ensures
        r@ == label_of(symbol@),
{
    let cs = chars_of(symbol);
    let n = cs.len();
    let mut start: usize = n;
    while start > 0 && cs[start - 1] != ' '
        invariant
            start <= n,
            n == cs.len(),
            forall|j: int| start <= j < n ==> cs@[j] != ' ',
        decreases start,
    {
        start = start - 1;
    }
    proof {
        lemma_after_last_space(symbol@, start as int);
    }
    let ghost part = symbol@.subrange(start as int, n as int);
    let mut end: usize = n;
    while end > start && (cs[end - 1] == '(' || cs[end - 1] == ')' || cs[end - 1] == '.'
        || cs[end - 1] == '#')
        invariant
            start <= end <= n,
            n == cs.len(),
            cs@ == symbol@,
            forall|j: int| end <= j < n ==> is_descriptor_suffix(cs@[j]),
        decreases end,
    {
        end = end - 1;
    }
    proof {
        lemma_trim_descriptor_suffix(part, end - start);
        assert(part.subrange(0, end - start) =~= symbol@.subrange(start as int, end as int));
    }
    let ghost trimmed = symbol@.subrange(start as int, end as int);
    let mut out = String::new();
    let mut seg: usize = start;
    let mut i: usize = start;
    assert(trimmed.subrange(0, 0) =~= Seq::<char>::empty());
    assert(symbol@.subrange(start as int, start as int) =~= Seq::<char>::empty());
    while i < end
        invariant
            start <= seg <= i <= end <= n,
            n == cs.len(),
            cs@ == symbol@,
            trimmed == symbol@.subrange(start as int, end as int),
            forall|j: int| seg <= j < i ==> symbol@[j] != '/',
            out@ + slashes_as_paths(symbol@.subrange(seg as int, i as int)) == slashes_as_paths(
                trimmed.subrange(0, i - start),
            ),
        decreases end - i,
    {
        let ghost prev = trimmed.subrange(0, i - start);
        assert(trimmed.subrange(0, i + 1 - start).drop_last() =~= prev);
        assert(symbol@.subrange(seg as int, i + 1).drop_last() =~= symbol@.subrange(seg as int, i as int));
        if cs[i] == '/' {
            proof {
                lemma_slash_free(symbol@.subrange(seg as int, i as int));
            }
            out.append(symbol.substring_char(seg, i));
            out.append("::");
            proof {
                reveal_strlit("::");
                assert("::"@ =~= seq![':', ':']);
                assert(symbol@.subrange(i + 1, i + 1) =~= Seq::<char>::empty());
            }
            seg = i + 1;
        } else {
            assert(slashes_as_paths(symbol@.subrange(seg as int, i + 1)) =~= slashes_as_paths(
                symbol@.subrange(seg as int, i as int),
            ).push(cs@[i as int]));
        }
        i = i + 1;
    }
    proof {
        lemma_slash_free(symbol@.subrange(seg as int, end as int));
        assert(trimmed.subrange(0, end - start) =~= trimmed);
    }
    out.append(symbol.substring_char(seg, end));
    out
}

/// The definitions of named symbols among `occs`, in order, each with its range.
pub open spec fn definitions_of(occs: Seq<OccurrenceView>) -> Seq<(Seq<char>, SourceRange)>
    decreases occs.len(),
{
    if occs.len() == 0 {
        Seq::empty()
    } else {
        let before = definitions_of(occs.drop_last());
        let o = occs.last();
        if o.is_named_definition() {
            before.push((o.symbol, range_of(o.range)))
        } else {
            before
        }
    }
}

/// Some occurrence of `docs` defines the named symbol `s`.
pub open spec fn defines(docs: Seq<DocumentView>, s: Seq<char>) -> bool {
    exists|d: int, k: int|
        0 <= d < docs.len() && 0 <= k < docs[d].occurrences.len()
            && #[trigger] docs[d].occurrences[k].is_named_definition()
            && docs[d].occurrences[k].symbol == s
}

/// Some occurrence before position (`di`, `oi`) defines `s`.
pub open spec fn defined_before(docs: Seq<DocumentView>, di: int, oi: int, s: Seq<char>) -> bool {
    exists|d: int, k: int|
        0 <= d < docs.len() && 0 <= k < docs[d].occurrences.len() && (d < di || (d == di && k
            < oi)) && #[trigger] docs[d].occurrences[k].is_named_definition()
            && docs[d].occurrences[k].symbol == s
}

/// Each entry comes strictly before the next.
pub open spec fn is_strictly_sorted(ids: Seq<Seq<char>>) -> bool {
    forall|i: int, j: int| 0 <= i < j < ids.len() ==> lex_lt(ids[i], ids[j])
}

/// Which of the definitions that enclose a reference is taken as its caller.
///
/// Definitions are weighed by the extent of their range (see
/// `SourceRange::size`); among definitions of equal weight the one that
/// appears first in the document is taken.
#[derive(Debug, Clone, Copy, PartialEq, Eq)]
pub enum MatchPolicy {
    /// The enclosing definition of greatest extent: a reference inside a
    /// nested function is attributed to the outermost function around it.
    Outermost,
    /// The enclosing definition of least extent: a reference inside a nested
    /// function is attributed to that nested function.
    Innermost,
}

impl MatchPolicy {
    /// Under this policy, a definition over range `a` wins over one over `b`.
    pub open spec fn prefers(self, a: SourceRange, b: SourceRange) -> bool {
        match self {
            MatchPolicy::Outermost => a.size() > b.size(),
            MatchPolicy::Innermost => a.size() < b.size(),
        }
    }
}

/// Entry `i` of `defs` is the caller that `policy` picks for a reference over
/// `r`: it encloses `r`, every earlier enclosing entry loses to it, and no
/// later enclosing entry wins over it.
pub open spec fn is_chosen(
    defs: Seq<(Seq<char>, SourceRange)>,
    r: SourceRange,
    policy: MatchPolicy,
    i: int,
) -> bool {
    &&& 0 <= i < defs.len()
    &&& defs[i].1.encloses(r)
    &&& forall|j: int|
        0 <= j < defs.len() && #[trigger] defs[j].1.encloses(r) ==> (j < i ==> policy.prefers(
            defs[i].1,
            defs[j].1,
        )) && (i < j ==> !policy.prefers(defs[j].1, defs[i].1))
}

/// The occurrence at (`d`, `k`) of `docs` is a reference to `c` that resolves
/// to the caller `s`, which is not `c` itself.
pub open spec fn edge_at(
    docs: Seq<DocumentView>,
    policy: MatchPolicy,
    d: int,
    k: int,
    s: Seq<char>,
    c: Seq<char>,
) -> bool {
    &&& 0 <= d < docs.len()
    &&& 0 <= k < docs[d].occurrences.len()
    &&& docs[d].occurrences[k].is_named_reference()
    &&& docs[d].occurrences[k].symbol == c
    &&& c != s
    &&& exists|i: int|
        #[trigger] is_chosen(
            definitions_of(docs[d].occurrences),
            range_of(docs[d].occurrences[k].range),
            policy,
            i,
        ) && definitions_of(docs[d].occurrences)[i].0 == s
}

/// Some reference in `docs` makes `s` call `c`.
pub open spec fn calls(docs: Seq<DocumentView>, policy: MatchPolicy, s: Seq<char>, c: Seq<char>) -> bool {
    exists|d: int, k: int| #[trigger] edge_at(docs, policy, d, k, s, c)
}

/// The callees of `s`, without repetition and in the order of their first
/// reference, over the documents before `d` and the first `k` occurrences
/// of document `d`.
pub open spec fn callees_upto(
    docs: Seq<DocumentView>,
    policy: MatchPolicy,
    s: Seq<char>,
    d: int,
    k: int,
) -> Seq<Seq<char>>
    decreases d, k,
{
    if d < 0 || d > docs.len() || k < 0 {
        Seq::empty()
    } else if k == 0 {
        if d == 0 {
            Seq::empty()
        } else {
            callees_upto(docs, policy, s, d - 1, docs[d - 1].occurrences.len() as int)
        }
    } else if d == docs.len() {
        Seq::empty()
    } else {
        let before = callees_upto(docs, policy, s, d, k - 1);
        let c = docs[d].occurrences[k - 1].symbol;
        if edge_at(docs, policy, d, k - 1, s, c) && !before.contains(c) {
            before.push(c)
        } else {
            before
        }
    }
}

/// The callees of `s` in `docs`, without repetition, in the order of their
/// first reference: documents in order, the occurrences of each in order.
pub open spec fn callees_in_order(docs: Seq<DocumentView>, policy: MatchPolicy, s: Seq<char>) -> Seq<
    Seq<char>,
> {
    callees_upto(docs, policy, s, docs.len() as int, 0)
}

spec fn edge_before(
    docs: Seq<DocumentView>,
    policy: MatchPolicy,
    di: int,
    oi: int,
    s: Seq<char>,
    c: Seq<char>,
) -> bool {
    exists|d: int, k: int| (d < di || (d == di && k < oi)) && #[trigger] edge_at(docs, policy, d, k, s, c)
}

/// `g` is the call graph of `docs` under `policy`: one node per defined
/// symbol, sorted by id, each labelled from its id, whose callees are the
/// symbols it calls, without repetition, in the order of their first reference.
pub open spec fn is_graph_of(g: CallGraph, docs: Seq<DocumentView>, policy: MatchPolicy) -> bool {
    let ids = node_ids(g.nodes@);
    &&& is_strictly_sorted(ids)
    &&& forall|s: Seq<char>| ids.contains(s) <==> defines(docs, s)
    &&& forall|n: int|
        0 <= n < ids.len() ==> (#[trigger] g.nodes@[n]).label is Some && g.nodes@[n].label->Some_0@
            == label_of(ids[n])
    &&& forall|n: int| 0 <= n < ids.len() ==> callee_views(#[trigger] g.nodes@[n]).no_duplicates()
    &&& forall|n: int|
        0 <= n < ids.len() ==> callee_views(#[trigger] g.nodes@[n]) == callees_in_order(
            docs,
            policy,
            ids[n],
        )
    &&& forall|n: int, c: Seq<char>|
        0 <= n < ids.len() ==> (#[trigger] callee_views(g.nodes@[n]).contains(c) <==> calls(
            docs,
            policy,
            ids[n],
            c,
        ))
}

proof fn lemma_chosen_unique(
    defs: Seq<(Seq<char>, SourceRange)>,
    r: SourceRange,
    policy: MatchPolicy,
    i: int,
    j: int,
)
    requires
        is_chosen(defs, r, policy, i),
        is_chosen(defs, r, policy, j),
    ensures
        i == j,
{
    assert(defs[i].1.encloses(r));
    assert(defs[j].1.encloses(r));
}

proof fn lemma_strictly_sorted_distinct(ids: Seq<Seq<char>>, a: int, b: int)
    requires
        is_strictly_sorted(ids),
        0 <= a < ids.len(),
        0 <= b < ids.len(),
        ids[a] == ids[b],
    ensures
        a == b,
{
    if a < b {
        assert(lex_lt(ids[a], ids[b]));
        lemma_lex_irreflexive(ids[a]);
    } else if b < a {
        assert(lex_lt(ids[b], ids[a]));
        lemma_lex_irreflexive(ids[a]);
    }
}

proof fn lemma_definition_source(occs: Seq<OccurrenceView>, i: int)
    requires
        0 <= i < definitions_of(occs).len(),
    ensures
        exists|k: int|
            0 <= k < occs.len() && #[trigger] occs[k].is_named_definition() && occs[k].symbol
                == definitions_of(occs)[i].0,
    decreases occs.len(),
{
    let before = definitions_of(occs.drop_last());
    if i < before.len() {
        lemma_definition_source(occs.drop_last(), i);
        let k = choose|k: int|
            0 <= k < occs.drop_last().len() && #[trigger] occs.drop_last()[k].is_named_definition()
                && occs.drop_last()[k].symbol == before[i].0;
        assert(occs[k] == occs.drop_last()[k]);
    } else {
        assert(occs[occs.len() - 1].is_named_definition());
    }
}

proof fn lemma_edge_step(
    docs: Seq<DocumentView>,
    policy: MatchPolicy,
    di: int,
    oi: int,
    s: Seq<char>,
    c: Seq<char>,
)
    ensures
        edge_before(docs, policy, di, oi + 1, s, c) <==> (edge_before(docs, policy, di, oi, s, c)
            || edge_at(docs, policy, di, oi, s, c)),
{
    if edge_before(docs, policy, di, oi + 1, s, c) {
        let (d, k) = choose|d: int, k: int|
            (d < di || (d == di && k < oi + 1)) && #[trigger] edge_at(docs, policy, d, k, s, c);
        if !(d == di && k == oi) {
            assert(edge_before(docs, policy, di, oi, s, c));
        }
    }
    if edge_at(docs, policy, di, oi, s, c) {
        assert(edge_before(docs, policy, di, oi + 1, s, c));
    }
}

proof fn lemma_edge_next_doc(
    docs: Seq<DocumentView>,
    policy: MatchPolicy,
    di: int,
    s: Seq<char>,
    c: Seq<char>,
)
    requires
        0 <= di < docs.len(),
    ensures
        edge_before(docs, policy, di, docs[di].occurrences.len() as int, s, c) == edge_before(
            docs,
            policy,
            di + 1,
            0,
            s,
            c,
        ),
{
    if edge_before(docs, policy, di + 1, 0, s, c) {
        let (d, k) = choose|d: int, k: int|
            (d < di + 1 || (d == di + 1 && k < 0)) && #[trigger] edge_at(docs, policy, d, k, s, c);
        assert(edge_before(docs, policy, di, docs[di].occurrences.len() as int, s, c));
    }
}

/// The entry of `defs` that `policy` picks as the caller of a reference over
/// `r`, or `None` where no entry encloses `r`.
fn choose_caller(defs: &Vec<Definition>, r: &SourceRange, policy: MatchPolicy) -> (res: Option<
    usize,
>)
    requires
        extents_match(defs@),
    ensures
        match res {
            Some(i) => is_chosen(def_views(defs@), *r, policy, i as int),
            None => forall|i: int| 0 <= i < defs.len() ==> !(#[trigger] defs@[i]).range.encloses(*r),
        },
{
    let ghost dv = def_views(defs@);
    let mut best: Option<usize> = None;
    let mut j: usize = 0;
    while j < defs.len()
        invariant
            j <= defs.len(),
            dv == def_views(defs@),
            extents_match(defs@),
            match best {
                Some(b) => b < j && is_chosen(dv.take(j as int), *r, policy, b as int),
                None => forall|i: int| 0 <= i < j ==> !(#[trigger] defs@[i]).range.encloses(*r),
            },
        decreases defs.len() - j,
    {
        let d = &defs[j];
        if d.range.contains(r) {
            let better = match best {
                None => true,
                Some(b) => match policy {
                    MatchPolicy::Outermost => d.extent > defs[b].extent,
                    MatchPolicy::Innermost => d.extent < defs[b].extent,
                },
            };
            if better {
                proof {
                    let t = dv.take(j + 1);
                    assert forall|i: int|
                        0 <= i < t.len() && #[trigger] t[i].1.encloses(*r) implies (i < j
                        ==> policy.prefers(t[j as int].1, t[i].1)) && (j < i ==> !policy.prefers(
                        t[i].1,
                        t[j as int].1,
                    )) by {
                        if i < j {
                            match best {
                                Some(b) => {
                                    assert(dv.take(j as int)[i] == t[i]);
                                },
                                None => {
                                    assert(defs@[i].range.encloses(*r));
                                },
                            }
                        }
                    }
                }
                best = Some(j);
            } else {
                proof {
                    let b = best->Some_0;
                    let t = dv.take(j + 1);
                    assert forall|i: int|
                        0 <= i < t.len() && #[trigger] t[i].1.encloses(*r) implies (i < b
                        ==> policy.prefers(t[b as int].1, t[i].1)) && (b < i ==> !policy.prefers(
                        t[i].1,
                        t[b as int].1,
                    )) by {
                        if i < j {
                            assert(dv.take(j as int)[i] == t[i]);
                        }
                    }
                }
            }
        } else {
            proof {
                match best {
                    Some(b) => {
                        let t = dv.take(j + 1);
                        assert forall|i: int|
                            0 <= i < t.len() && #[trigger] t[i].1.encloses(*r) implies (i < b
                            ==> policy.prefers(t[b as int].1, t[i].1)) && (b < i
                            ==> !policy.prefers(t[i].1, t[b as int].1)) by {
                            if i < j {
                                assert(dv.take(j as int)[i] == t[i]);
                            }
                        }
                    },
                    None => {},
                }
            }
        }
        j = j + 1;
    }
    assert(dv.take(j as int) =~= dv);
    best
}

/// The position of the node whose id is `s`.
fn node_index(nodes: &Vec<CallGraphNode>, s: &String) -> (r: usize)
    requires
        node_ids(nodes@).contains(s@),
    ensures
        r < nodes.len(),
        nodes@[r as int].id@ == s@,
{
    let mut i: usize = 0;
    while i < nodes.len()
        invariant
            i <= nodes.len(),
            node_ids(nodes@).contains(s@),
            forall|j: int| 0 <= j < i ==> nodes@[j].id@ != s@,
        decreases nodes.len() - i,
    {
        if nodes[i].id == *s {
            return i;
        }
        i = i + 1;
    }
    proof {
        let j = choose|j: int| 0 <= j < node_ids(nodes@).len() && node_ids(nodes@)[j] == s@;
        assert(nodes@[j].id@ == s@);
    }
    i
}

/// A labelled node without callees for each id.
fn initial_nodes(ids: &Vec<String>) -> (nodes: Vec<CallGraphNode>)
    ensures
        node_ids(nodes@) == str_views(ids@),
        forall|n: int|
            0 <= n < nodes.len() ==> (#[trigger] nodes@[n]).label is Some && n < ids.len()
                && nodes@[n].label->Some_0@ == label_of(ids@[n]@) && nodes@[n].callees@.len() == 0,
{
    let mut nodes: Vec<CallGraphNode> = Vec::new();
    let mut i: usize = 0;
    while i < ids.len()
        invariant
            i <= ids.len(),
            nodes.len() == i,
            node_ids(nodes@) == str_views(ids@).take(i as int),
            forall|n: int|
                0 <= n < nodes.len() ==> (#[trigger] nodes@[n]).label is Some && n < ids.len()
                    && nodes@[n].label->Some_0@ == label_of(ids@[n]@) && nodes@[n].callees@.len()
                    == 0,
        decreases ids.len() - i,
    {
        let label = extract_label_from_symbol(ids[i].as_str());
        let id = ids[i].clone();
        let ghost before = nodes@;
        nodes.push(CallGraphNode { id, callees: Vec::new(), label: Some(label) });
        assert(node_ids(nodes@) =~= node_ids(before).push(ids@[i as int]@));
        assert(str_views(ids@).take(i + 1) =~= str_views(ids@).take(i as int).push(ids@[i as int]@));
        i = i + 1;
    }
    assert(str_views(ids@).take(i as int) =~= str_views(ids@));
    nodes
}

/// A definition found in a document, with the weight of its range.
struct Definition {
    symbol: String,
    range: SourceRange,
    extent: i64,
}

spec fn def_views(v: Seq<Definition>) -> Seq<(Seq<char>, SourceRange)> {
    v.map_values(|d: Definition| (d.symbol@, d.range))
}

spec fn extents_match(v: Seq<Definition>) -> bool {
    forall|i: int| 0 <= i < v.len() ==> v[i].extent as int == v[i].range.size()
}

proof fn lemma_defined_step(docs: Seq<DocumentView>, di: int, oi: int, s: Seq<char>)
    requires
        0 <= di < docs.len(),
        0 <= oi < docs[di].occurrences.len(),
    ensures
        defined_before(docs, di, oi + 1, s) <==> (defined_before(docs, di, oi, s) || (
        docs[di].occurrences[oi].is_named_definition() && docs[di].occurrences[oi].symbol == s)),
{
    if defined_before(docs, di, oi + 1, s) {
        let (d, k) = choose|d: int, k: int|
            0 <= d < docs.len() && 0 <= k < docs[d].occurrences.len() && (d < di || (d == di
                && k < oi + 1)) && #[trigger] docs[d].occurrences[k].is_named_definition()
                && docs[d].occurrences[k].symbol == s;
        if !(d == di && k == oi) {
            assert(defined_before(docs, di, oi, s));
        }
    }
    if docs[di].occurrences[oi].is_named_definition() && docs[di].occurrences[oi].symbol == s {
        assert(docs[di].occurrences[oi].is_named_definition());
    }
}

proof fn lemma_defined_next_doc(docs: Seq<DocumentView>, di: int, s: Seq<char>)
    requires
        0 <= di < docs.len(),
    ensures
        defined_before(docs, di, docs[di].occurrences.len() as int, s) == defined_before(
            docs,
            di + 1,
            0,
            s,
        ),
{
    if defined_before(docs, di + 1, 0, s) {
        let (d, k) = choose|d: int, k: int|
            0 <= d < docs.len() && 0 <= k < docs[d].occurrences.len() && (d < di + 1 || (d
                == di + 1 && k < 0)) && #[trigger] docs[d].occurrences[k].is_named_definition()
                && docs[d].occurrences[k].symbol == s;
        assert(defined_before(docs, di, docs[di].occurrences.len() as int, s));
    }
}

/// Adds `s` to the strictly sorted list `ids`, where it is not yet present.
fn insert_id(ids: &mut Vec<String>, s: &String)
    requires
        is_strictly_sorted(str_views(old(ids)@)),
    ensures
        is_strictly_sorted(str_views(final(ids)@)),
        forall|x: Seq<char>|
            str_views(final(ids)@).contains(x) <==> (str_views(old(ids)@).contains(x) || x == s@),
{
    let ghost before = str_views(ids@);
    let mut k: usize = 0;
    while k < ids.len() && str_less(ids[k].as_str(), s.as_str())
        invariant
            k <= ids.len(),
            ids@ == old(ids)@,
            before == str_views(ids@),
            forall|j: int| 0 <= j < k ==> lex_lt(before[j], s@),
        decreases ids.len() - k,
    {
        k = k + 1;
    }
    if k < ids.len() && ids[k] == *s {
        assert(before[k as int] == s@);
        return;
    }
    if k < ids.len() {
        proof {
            lemma_lex_total(before[k as int], s@);
            assert(lex_lt(s@, before[k as int]));
        }
    }
    ids.insert(k, s.clone());
    let ghost after = str_views(ids@);
    assert(after =~= before.insert(k as int, s@));
    assert forall|i: int, j: int| 0 <= i < j < after.len() implies lex_lt(after[i], after[j]) by {
        if j > k {
            if j - 1 > k {
                lemma_lex_transitive(s@, before[k as int], before[j - 1]);
            }
            assert(lex_lt(s@, after[j]));
            if i < k {
                lemma_lex_transitive(before[i], s@, after[j]);
            }
        }
    }
    assert forall|x: Seq<char>| after.contains(x) <==> (before.contains(x) || x == s@) by {
        if after.contains(x) {
            let j = choose|j: int| 0 <= j < after.len() && after[j] == x;
            if j < k {
                assert(before[j] == x);
            } else if j > k {
                assert(before[j - 1] == x);
            }
        }
        if before.contains(x) {
            let j = choose|j: int| 0 <= j < before.len() && before[j] == x;
            if j < k {
                assert(after[j] == x);
            } else {
                assert(after[j + 1] == x);
            }
        }
        if x == s@ {
            assert(after[k as int] == x);
        }
    }
}

/// First pass: the sorted set of defined symbols, and the definitions of each
/// document in order of appearance.
fn collect_definitions(docs: &Vec<Document>) -> (r: (Vec<String>, Vec<Vec<Definition>>))
    ensures
        is_strictly_sorted(str_views(r.0@)),
        forall|s: Seq<char>| str_views(r.0@).contains(s) <==> defines(documents_view(docs@), s),
        r.1.len() == docs.len(),
        forall|d: int|
            0 <= d < docs.len() ==> def_views(#[trigger] r.1@[d]@) == definitions_of(
                docs@[d]@.occurrences,
            ) && extents_match(r.1@[d]@),
{
    let ghost dv = documents_view(docs@);
    let mut ids: Vec<String> = Vec::new();
    let mut per_doc: Vec<Vec<Definition>> = Vec::new();
    let mut di: usize = 0;
    while di < docs.len()
        invariant
            di <= docs.len(),
            dv == documents_view(docs@),
            is_strictly_sorted(str_views(ids@)),
            forall|s: Seq<char>|
                str_views(ids@).contains(s) <==> defined_before(dv, di as int, 0, s),
            per_doc.len() == di,
            forall|d: int|
                0 <= d < di ==> def_views(#[trigger] per_doc@[d]@) == definitions_of(
                    docs@[d]@.occurrences,
                ) && extents_match(per_doc@[d]@),
        decreases docs.len() - di,
    {
        let doc = &docs[di];
        let ghost occs = dv[di as int].occurrences;
        assert(occs == doc@.occurrences);
        let mut defs: Vec<Definition> = Vec::new();
        let mut oi: usize = 0;
        assert(occs.take(0) =~= Seq::<OccurrenceView>::empty());
        while oi < doc.occurrences.len()
            invariant
                di < docs.len(),
                oi <= doc.occurrences.len(),
                doc == &docs@[di as int],
                dv == documents_view(docs@),
                occs == dv[di as int].occurrences,
                occs.len() == doc.occurrences.len(),
                is_strictly_sorted(str_views(ids@)),
                forall|s: Seq<char>|
                    str_views(ids@).contains(s) <==> defined_before(dv, di as int, oi as int, s),
                def_views(defs@) == definitions_of(occs.take(oi as int)),
                extents_match(defs@),
            decreases doc.occurrences.len() - oi,
        {
            let o = &doc.occurrences[oi];
            assert(occs[oi as int] == o@);
            assert(occs.take(oi + 1).drop_last() =~= occs.take(oi as int));
            proof {
                assert forall|s: Seq<char>|
                    defined_before(dv, di as int, oi + 1, s) <==> (defined_before(
                        dv,
                        di as int,
                        oi as int,
                        s,
                    ) || (o@.is_named_definition() && o@.symbol == s)) by {
                    lemma_defined_step(dv, di as int, oi as int, s);
                }
            }
            if o.is_definition() && !o.symbol.as_str().is_empty() {
                assert(o@.is_named_definition());
                let range = parse_scip_range(o.range.as_slice());
                insert_id(&mut ids, &o.symbol);
                let extent = range.extent();
                defs.push(Definition { symbol: o.symbol.clone(), range, extent });
                assert(def_views(defs@) =~= definitions_of(occs.take(oi as int)).push(
                    (o@.symbol, range_of(o@.range)),
                ));
            } else {
                assert(!o@.is_named_definition());
                assert(def_views(defs@) =~= definitions_of(occs.take(oi + 1)));
            }
            oi = oi + 1;
        }
        assert(occs.take(oi as int) =~= occs);
        proof {
            assert forall|s: Seq<char>|
                defined_before(dv, di as int, oi as int, s) == defined_before(
                    dv,
                    di + 1,
                    0,
                    s,
                ) by {
                lemma_defined_next_doc(dv, di as int, s);
            }
        }
        per_doc.push(defs);
        di = di + 1;
    }
    assert forall|s: Seq<char>| defined_before(dv, di as int, 0, s) == defines(dv, s) by {
        if defines(dv, s) {
            let (d, k) = choose|d: int, k: int|
                0 <= d < dv.len() && 0 <= k < dv[d].occurrences.len()
                    && #[trigger] dv[d].occurrences[k].is_named_definition()
                    && dv[d].occurrences[k].symbol == s;
            assert(defined_before(dv, di as int, 0, s));
        }
    }
    (ids, per_doc)
}

/// Second pass: records, for each reference, an edge from the caller that
/// `policy` picks to the referenced symbol.
fn resolve_references(
    docs: &Vec<Document>,
    per_doc: &Vec<Vec<Definition>>,
    ids: &Vec<String>,
    policy: MatchPolicy,
) -> (nodes: Vec<CallGraphNode>)
    requires
        is_strictly_sorted(str_views(ids@)),
        forall|s: Seq<char>| str_views(ids@).contains(s) <==> defines(documents_view(docs@), s),
        per_doc.len() == docs.len(),
        forall|d: int|
            0 <= d < docs.len() ==> def_views(#[trigger] per_doc@[d]@) == definitions_of(
                docs@[d]@.occurrences,
            ) && extents_match(per_doc@[d]@),
    ensures
        is_graph_of(CallGraph { nodes }, documents_view(docs@), policy),
{
    let ghost dv = documents_view(docs@);
    let ghost idv = str_views(ids@);
    let mut nodes = initial_nodes(ids);
    let mut di: usize = 0;
    while di < docs.len()
        invariant
            di <= docs.len(),
            dv == documents_view(docs@),
            idv == str_views(ids@),
            is_strictly_sorted(idv),
            forall|s: Seq<char>| idv.contains(s) <==> defines(dv, s),
            per_doc.len() == docs.len(),
            forall|d: int|
                0 <= d < docs.len() ==> def_views(#[trigger] per_doc@[d]@) == definitions_of(
                    docs@[d]@.occurrences,
                ) && extents_match(per_doc@[d]@),
            node_ids(nodes@) == idv,
            forall|n: int|
                0 <= n < nodes.len() ==> (#[trigger] nodes@[n]).label is Some
                    && nodes@[n].label->Some_0@ == label_of(idv[n]),
            forall|n: int| 0 <= n < nodes.len() ==> callee_views(#[trigger] nodes@[n]).no_duplicates(),
            forall|n: int, c: Seq<char>|
                0 <= n < nodes.len() ==> (#[trigger] callee_views(nodes@[n]).contains(c)
                    <==> edge_before(dv, policy, di as int, 0, idv[n], c)),
            forall|n: int|
                0 <= n < nodes.len() ==> callee_views(#[trigger] nodes@[n]) == callees_upto(
                    dv,
                    policy,
                    idv[n],
                    di as int,
                    0,
                ),
        decreases docs.len() - di,
    {
        let doc = &docs[di];
        let defs = &per_doc[di];
        let ghost occs = dv[di as int].occurrences;
        assert(occs == doc@.occurrences);
        let mut oi: usize = 0;
        while oi < doc.occurrences.len()
            invariant
                di < docs.len(),
                oi <= doc.occurrences.len(),
                doc == &docs@[di as int],
                defs == &per_doc@[di as int],
                dv == documents_view(docs@),
                occs == dv[di as int].occurrences,
                occs.len() == doc.occurrences.len(),
                def_views(defs@) == definitions_of(occs),
                extents_match(defs@),
                idv == str_views(ids@),
                is_strictly_sorted(idv),
                forall|s: Seq<char>| idv.contains(s) <==> defines(dv, s),
                node_ids(nodes@) == idv,
                forall|n: int|
                    0 <= n < nodes.len() ==> (#[trigger] nodes@[n]).label is Some
                        && nodes@[n].label->Some_0@ == label_of(idv[n]),
                forall|n: int|
                    0 <= n < nodes.len() ==> callee_views(#[trigger] nodes@[n]).no_duplicates(),
                forall|n: int, c: Seq<char>|
                    0 <= n < nodes.len() ==> (#[trigger] callee_views(nodes@[n]).contains(c)
                        <==> edge_before(dv, policy, di as int, oi as int, idv[n], c)),
                forall|n: int|
                    0 <= n < nodes.len() ==> callee_views(#[trigger] nodes@[n]) == callees_upto(
                        dv,
                        policy,
                        idv[n],
                        di as int,
                        oi as int,
                    ),
            decreases doc.occurrences.len() - oi,
        {
            let o = &doc.occurrences[oi];
            assert(occs[oi as int] == o@);
            proof {
                assert forall|s: Seq<char>, c: Seq<char>|
                    edge_before(dv, policy, di as int, oi + 1, s, c) <==> (edge_before(
                        dv,
                        policy,
                        di as int,
                        oi as int,
                        s,
                        c,
                    ) || edge_at(dv, policy, di as int, oi as int, s, c)) by {
                    lemma_edge_step(dv, policy, di as int, oi as int, s, c);
                }
            }
            if !o.is_definition() && !o.symbol.as_str().is_empty() {
                let r = parse_scip_range(o.range.as_slice());
                match choose_caller(defs, &r, policy) {
                    Some(i) => {
                        let caller = &defs[i].symbol;
                        let ghost s0 = caller@;
                        let ghost c0 = o@.symbol;
                        assert(def_views(defs@)[i as int].0 == s0);
                        if *caller == o.symbol {
                            assert forall|s: Seq<char>, c: Seq<char>|
                                !edge_at(dv, policy, di as int, oi as int, s, c) by {
                                if edge_at(dv, policy, di as int, oi as int, s, c) {
                                    let i2 = choose|i2: int|
                                        #[trigger] is_chosen(
                                            definitions_of(occs),
                                            range_of(o@.range),
                                            policy,
                                            i2,
                                        ) && definitions_of(occs)[i2].0 == s;
                                    lemma_chosen_unique(
                                        definitions_of(occs),
                                        r,
                                        policy,
                                        i as int,
                                        i2,
                                    );
                                }
                            }
                        } else {
                            proof {
                                lemma_definition_source(occs, i as int);
                                let k = choose|k: int|
                                    0 <= k < occs.len() && #[trigger] occs[k].is_named_definition()
                                        && occs[k].symbol == definitions_of(occs)[i as int].0;
                                assert(dv[di as int].occurrences[k].is_named_definition());
                                assert(defines(dv, s0));
                            }
                            let k = node_index(&nodes, caller);
                            assert forall|s: Seq<char>, c: Seq<char>|
                                edge_at(dv, policy, di as int, oi as int, s, c) <==> (s == s0 && c
                                    == c0) by {
                                if edge_at(dv, policy, di as int, oi as int, s, c) {
                                    let i2 = choose|i2: int|
                                        #[trigger] is_chosen(
                                            definitions_of(occs),
                                            range_of(o@.range),
                                            policy,
                                            i2,
                                        ) && definitions_of(occs)[i2].0 == s;
                                    lemma_chosen_unique(
                                        definitions_of(occs),
                                        r,
                                        policy,
                                        i as int,
                                        i2,
                                    );
                                }
                                if s == s0 && c == c0 {
                                    assert(is_chosen(
                                        definitions_of(occs),
                                        range_of(o@.range),
                                        policy,
                                        i as int,
                                    ));
                                }
                            }
                            let ghost before = nodes@;
                            if !contains_str(&nodes[k].callees, &o.symbol) {
                                let callee = o.symbol.clone();
                                nodes[k].callees.push(callee);
                                assert(callee_views(nodes@[k as int]) =~= callee_views(
                                    before[k as int],
                                ).push(c0));
                                assert forall|c: Seq<char>|
                                    callee_views(nodes@[k as int]).contains(c) <==> (callee_views(
                                        before[k as int],
                                    ).contains(c) || c == c0) by {
                                    if callee_views(nodes@[k as int]).contains(c) && c != c0 {
                                        let j = choose|j: int|
                                            0 <= j < callee_views(nodes@[k as int]).len()
                                                && callee_views(nodes@[k as int])[j] == c;
                                        assert(callee_views(before[k as int])[j] == c);
                                    }
                                    if callee_views(before[k as int]).contains(c) {
                                        let j = choose|j: int|
                                            0 <= j < callee_views(before[k as int]).len()
                                                && callee_views(before[k as int])[j] == c;
                                        assert(callee_views(nodes@[k as int])[j] == c);
                                    }
                                    if c == c0 {
                                        assert(callee_views(nodes@[k as int])[callee_views(
                                            before[k as int],
                                        ).len() as int] == c);
                                    }
                                }
                            }
                            assert forall|c: Seq<char>|
                                callee_views(nodes@[k as int]).contains(c) <==> (callee_views(
                                    before[k as int],
                                ).contains(c) || c == c0) by {}
                            assert forall|n: int| 0 <= n < nodes.len() && n != k implies nodes@[n]
                                == before[n] by {}
                            assert(node_ids(nodes@) =~= node_ids(before));
                            assert forall|n: int, c: Seq<char>|
                                0 <= n < nodes.len() implies (#[trigger] callee_views(
                                    nodes@[n],
                                ).contains(c) <==> edge_before(
                                    dv,
                                    policy,
                                    di as int,
                                    oi + 1,
                                    idv[n],
                                    c,
                                )) by {
                                assert(callee_views(before[n]).contains(c) <==> edge_before(
                                    dv,
                                    policy,
                                    di as int,
                                    oi as int,
                                    idv[n],
                                    c,
                                ));
                                if idv[n] == s0 {
                                    lemma_strictly_sorted_distinct(idv, n, k as int);
                                }
                                if n == k {
                                    assert(idv[n] == s0);
                                }
                            }
                        }
                    },
                    None => {
                        assert forall|s: Seq<char>, c: Seq<char>|
                            !edge_at(dv, policy, di as int, oi as int, s, c) by {
                            if edge_at(dv, policy, di as int, oi as int, s, c) {
                                let i2 = choose|i2: int|
                                    #[trigger] is_chosen(
                                        definitions_of(occs),
                                        range_of(o@.range),
                                        policy,
                                        i2,
                                    ) && definitions_of(occs)[i2].0 == s;
                                assert(defs@[i2].range.encloses(r));
                            }
                        }
                    },
                }
            } else {
                assert forall|s: Seq<char>, c: Seq<char>|
                    !edge_at(dv, policy, di as int, oi as int, s, c) by {}
            }
            oi = oi + 1;
        }
        proof {
            assert forall|s: Seq<char>, c: Seq<char>|
                edge_before(dv, policy, di as int, oi as int, s, c) == edge_before(
                    dv,
                    policy,
                    di + 1,
                    0,
                    s,
                    c,
                ) by {
                lemma_edge_next_doc(dv, policy, di as int, s, c);
            }
        }
        di = di + 1;
    }
    proof {
        assert forall|s: Seq<char>, c: Seq<char>|
            edge_before(dv, policy, di as int, 0, s, c) == calls(dv, policy, s, c) by {
            if calls(dv, policy, s, c) {
                let (d, k) = choose|d: int, k: int| #[trigger] edge_at(dv, policy, d, k, s, c);
                assert(edge_before(dv, policy, di as int, 0, s, c));
            }
        }
    }
    nodes
}

/// Builds the call graph of `docs`, resolving each reference to a caller as
/// `policy` says.
pub fn build_call_graph(docs: &Vec<Document>, policy: MatchPolicy) -> (g: CallGraph)
    ensures
        is_graph_of(g, documents_view(docs@), policy),
{
    let (ids, per_doc) = collect_definitions(docs);
    let nodes = resolve_references(docs, &per_doc, &ids, policy);
    CallGraph { nodes }
}

/// Why an index could not be turned into a call graph.
pub enum IngestError {
    /// The index could not be read.
    Io(String),
    /// The bytes are not a valid encoding of an index.
    Decode(String),
}

/// Builds call graphs from encoded semantic indexes.
pub struct ScipIngestor;

impl ScipIngestor {
    /// Decodes an index and builds its call graph, attributing each reference
    /// to the outermost enclosing definition. Either the whole graph comes
    /// back or a decoding error, never part of a graph.
    pub fn ingest_and_build_graph(index_bytes: &[u8]) -> (r: Result<CallGraph, IngestError>)
        ensures
            r is Ok <==> decoded_documents(index_bytes@) is Some,
            r matches Ok(g) ==> is_graph_of(
                g,
                decoded_documents(index_bytes@)->Some_0,
                MatchPolicy::Outermost,
            ),
            r matches Err(e) ==> e is Decode,
    {
        Self::ingest_with_policy(index_bytes, MatchPolicy::Outermost)
    }

    /// Decodes an index and builds its call graph, attributing each reference
    /// as `policy` says.
    pub fn ingest_with_policy(index_bytes: &[u8], policy: MatchPolicy) -> (r: Result<
        CallGraph,
        IngestError,
    >)
        ensures
            r is Ok <==> decoded_documents(index_bytes@) is Some,
            r matches Ok(g) ==> is_graph_of(g, decoded_documents(index_bytes@)->Some_0, policy),
            r matches Err(e) ==> e is Decode,
    {
        match decode_documents(index_bytes) {
            Ok(docs) => Ok(build_call_graph(&docs, policy)),
            Err(e) => Err(IngestError::Decode(decode_error_message(&e))),
        }
    }
}

/// No node of a built graph calls itself, even where a definition's range
/// holds a reference to its own symbol.
pub proof fn lemma_no_self_edges(g: CallGraph, docs: Seq<DocumentView>, policy: MatchPolicy)
    requires
        is_graph_of(g, docs, policy),
    ensures
        forall|n: int|
            0 <= n < g.nodes.len() ==> !callee_views(#[trigger] g.nodes@[n]).contains(
                g.nodes@[n].id@,
            ),
{
    assert forall|n: int| 0 <= n < g.nodes.len() implies !callee_views(
        #[trigger] g.nodes@[n],
    ).contains(g.nodes@[n].id@) by {
        let s = g.nodes@[n].id@;
        assert(node_ids(g.nodes@)[n] == s);
        if callee_views(g.nodes@[n]).contains(s) {
            assert(calls(docs, policy, s, s));
        }
    }
}

/// Each callee appears at most once in a node's callees, however many
/// references to it its definition holds.
pub proof fn lemma_callees_distinct(g: CallGraph, docs: Seq<DocumentView>, policy: MatchPolicy)
    requires
        is_graph_of(g, docs, policy),
    ensures
        forall|n: int, a: int, b: int|
            0 <= n < g.nodes.len() && 0 <= a < b < g.nodes@[n].callees.len() ==> (
            #[trigger] g.nodes@[n].callees@[a])@ != (#[trigger] g.nodes@[n].callees@[b])@,
{
    assert forall|n: int, a: int, b: int|
        0 <= n < g.nodes.len() && 0 <= a < b < g.nodes@[n].callees.len() implies (
        #[trigger] g.nodes@[n].callees@[a])@ != (#[trigger] g.nodes@[n].callees@[b])@ by {
        assert(callee_views(g.nodes@[n]).no_duplicates());
        assert(callee_views(g.nodes@[n])[a] == g.nodes@[n].callees@[a]@);
        assert(callee_views(g.nodes@[n])[b] == g.nodes@[n].callees@[b]@);
    }
}

/// A range that starts before a definition's range starts is not enclosed by it.
pub proof fn lemma_starts_before_not_enclosed(def: SourceRange, r: SourceRange)
    requires
        !pos_le(
            def.start_line as int,
            def.start_col as int,
            r.start_line as int,
            r.start_col as int,
        ),
    ensures
        !def.encloses(r),
{
}

/// A reference that starts before every definition of its document starts
/// resolves to no caller: it is the source of no edge.
pub proof fn lemma_reference_before_definitions_has_no_caller(
    docs: Seq<DocumentView>,
    policy: MatchPolicy,
    d: int,
    k: int,
)
    requires
        0 <= d < docs.len(),
        0 <= k < docs[d].occurrences.len(),
        forall|i: int|
            0 <= i < definitions_of(docs[d].occurrences).len() ==> !pos_le(
                (#[trigger] definitions_of(docs[d].occurrences)[i]).1.start_line as int,
                definitions_of(docs[d].occurrences)[i].1.start_col as int,
                range_of(docs[d].occurrences[k].range).start_line as int,
                range_of(docs[d].occurrences[k].range).start_col as int,
            ),
    ensures
        forall|s: Seq<char>, c: Seq<char>| !#[trigger] edge_at(docs, policy, d, k, s, c),
{
    assert forall|s: Seq<char>, c: Seq<char>| !#[trigger] edge_at(docs, policy, d, k, s, c) by {
        if edge_at(docs, policy, d, k, s, c) {
            let defs = definitions_of(docs[d].occurrences);
            let i = choose|i: int|
                #[trigger] is_chosen(defs, range_of(docs[d].occurrences[k].range), policy, i)
                    && defs[i].0 == s;
            assert(defs[i].1.encloses(range_of(docs[d].occurrences[k].range)));
        }
    }
}

/// A symbol whose every reference lies outside all definitions of its
/// document is called by no node.
pub proof fn lemma_unenclosed_references_add_no_edge(
    g: CallGraph,
    docs: Seq<DocumentView>,
    policy: MatchPolicy,
    c: Seq<char>,
)
    requires
        is_graph_of(g, docs, policy),
        forall|d: int, k: int|
            0 <= d < docs.len() && 0 <= k < docs[d].occurrences.len()
                && #[trigger] docs[d].occurrences[k].is_named_reference()
                && docs[d].occurrences[k].symbol == c ==> forall|i: int|
                0 <= i < definitions_of(docs[d].occurrences).len() ==> !(#[trigger] definitions_of(
                    docs[d].occurrences,
                )[i]).1.encloses(range_of(docs[d].occurrences[k].range)),
    ensures
        forall|n: int| 0 <= n < g.nodes.len() ==> !callee_views(#[trigger] g.nodes@[n]).contains(c),
{
    assert forall|n: int| 0 <= n < g.nodes.len() implies !callee_views(
        #[trigger] g.nodes@[n],
    ).contains(c) by {
        let s = node_ids(g.nodes@)[n];
        if callee_views(g.nodes@[n]).contains(c) {
            assert(calls(docs, policy, s, c));
            let (d, k) = choose|d: int, k: int| #[trigger] edge_at(docs, policy, d, k, s, c);
            let i = choose|i: int|
                #[trigger] is_chosen(
                    definitions_of(docs[d].occurrences),
                    range_of(docs[d].occurrences[k].range),
                    policy,
                    i,
                ) && definitions_of(docs[d].occurrences)[i].0 == s;
            assert(docs[d].occurrences[k].is_named_reference());
        }
    }
}

/// A reference that exactly one definition of its document encloses makes
/// that definition's node call the referenced symbol, unless they are the same.
pub proof fn lemma_enclosing_definition_calls(
    g: CallGraph,
    docs: Seq<DocumentView>,
    policy: MatchPolicy,
    d: int,
    k: int,
    i: int,
)
    requires
        is_graph_of(g, docs, policy),
        0 <= d < docs.len(),
        0 <= k < docs[d].occurrences.len(),
        docs[d].occurrences[k].is_named_reference(),
        0 <= i < definitions_of(docs[d].occurrences).len(),
        definitions_of(docs[d].occurrences)[i].1.encloses(range_of(docs[d].occurrences[k].range)),
        forall|j: int|
            0 <= j < definitions_of(docs[d].occurrences).len() && j != i ==> !(#[trigger] definitions_of(
                docs[d].occurrences,
            )[j]).1.encloses(range_of(docs[d].occurrences[k].range)),
        docs[d].occurrences[k].symbol != definitions_of(docs[d].occurrences)[i].0,
    ensures
        exists|n: int|
            0 <= n < g.nodes.len() && (#[trigger] g.nodes@[n]).id@ == definitions_of(
                docs[d].occurrences,
            )[i].0 && callee_views(g.nodes@[n]).contains(docs[d].occurrences[k].symbol),
{
    let occs = docs[d].occurrences;
    let s = definitions_of(occs)[i].0;
    let c = occs[k].symbol;
    assert(is_chosen(definitions_of(occs), range_of(occs[k].range), policy, i));
    assert(edge_at(docs, policy, d, k, s, c));
    lemma_definition_source(occs, i);
    let k2 = choose|k2: int|
        0 <= k2 < occs.len() && #[trigger] occs[k2].is_named_definition() && occs[k2].symbol == s;
    assert(docs[d].occurrences[k2].is_named_definition());
    assert(defines(docs, s));
    let ids = node_ids(g.nodes@);
    let n = choose|n: int| 0 <= n < ids.len() && ids[n] == s;
    assert(callee_views(g.nodes@[n]).contains(c) <==> calls(docs, policy, ids[n], c));
    assert(g.nodes@[n].id@ == s);
}

} // verus!
