//! The three query operations over the graph store: navigate, impact
//! analysis and find. Traversals are depth-bounded and cycle-safe: a
//! per-traversal visited set lets each handle be expanded at most once.

use vstd::prelude::*;
use crate::graph::{rev_sources, rev_targets, CodeGraph, Language, RelationEdge, SymbolNode};
use crate::resolver::{ref_of, refs_view, FunctionRef, RefData};
use crate::text::{spec_dec, u64_to_dec};

verus! {

/// A failed operation, with what went wrong.
#[derive(Debug, Clone)]
pub enum OpError {
    /// Resolution produced no candidate for the queried name.
    NotFound { name: String },
    /// An argument was malformed.
    InvalidInput { message: String },
    /// A resolved handle was missing from the graph at lookup time.
    InconsistentGraph,
}

impl OpError {
    /// A human-readable description of the error.
    pub fn message(&self) -> (r: String)
        ensures
            r@ == match self {
                OpError::NotFound { name } => "Function '"@ + name@ + "' not found"@,
                OpError::InvalidInput { message } => "Invalid input: "@ + message@,
                OpError::InconsistentGraph => "Function node not found in graph"@,
            },
    {
        match self {
            OpError::NotFound { name } => {
                let mut s = "Function '".to_owned();
                s.append(name.as_str());
                s.append("' not found");
                s
            },
            OpError::InvalidInput { message } => {
                let mut s = "Invalid input: ".to_owned();
                s.append(message.as_str());
                s
            },
            OpError::InconsistentGraph => "Function node not found in graph".to_owned(),
        }
    }
}

/// The neighbor handles a traversal step walks: callers or callees.
pub open spec fn step_neighbors(
    edges: Seq<(usize, usize, RelationEdge)>,
    incoming: bool,
    node: usize,
) -> Seq<usize> {
    if incoming {
        rev_sources(edges, node)
    } else {
        rev_targets(edges, node)
    }
}

/// One expansion of `node`: marks it visited and walks its neighbors, each
/// pushed as a reference and, below the depth bound, expanded in turn.
/// Returns the visited set and the references collected.
pub open spec fn expand(
    nodes: Seq<SymbolNode>,
    edges: Seq<(usize, usize, RelationEdge)>,
    incoming: bool,
    node: usize,
    maxd: nat,
    cur: nat,
    visited: Seq<bool>,
) -> (Seq<bool>, Seq<RefData>)
    decreases maxd - cur, 1nat, 0nat,
{
    if cur >= maxd || (node < visited.len() && visited[node as int]) {
        (visited, Seq::empty())
    } else {
        let marked = if node < visited.len() {
            visited.update(node as int, true)
        } else {
            visited
        };
        expand_list(nodes, edges, incoming, step_neighbors(edges, incoming, node), maxd, cur, marked)
    }
}

/// Walks a neighbor list: each neighbor is pushed, then expanded one level
/// deeper when the bound allows.
pub open spec fn expand_list(
    nodes: Seq<SymbolNode>,
    edges: Seq<(usize, usize, RelationEdge)>,
    incoming: bool,
    lst: Seq<usize>,
    maxd: nat,
    cur: nat,
    visited: Seq<bool>,
) -> (Seq<bool>, Seq<RefData>)
    decreases maxd - cur, 0nat, lst.len(),
{
    if lst.len() == 0 {
        (visited, Seq::empty())
    } else {
        let nb = lst[0];
        let head = seq![ref_of(nodes[nb as int]@, 1000)];
        let stepped = if cur + 1 < maxd {
            expand(nodes, edges, incoming, nb, maxd, cur + 1, visited)
        } else {
            (visited, Seq::empty())
        };
        let tailed = expand_list(nodes, edges, incoming, lst.drop_first(), maxd, cur, stepped.0);
        (tailed.0, head + stepped.1 + tailed.1)
    }
}

/// A full traversal from `node`: no handle visited yet.
pub open spec fn traversal(
    nodes: Seq<SymbolNode>,
    edges: Seq<(usize, usize, RelationEdge)>,
    incoming: bool,
    node: usize,
    maxd: nat,
) -> Seq<RefData> {
    expand(nodes, edges, incoming, node, maxd, 0, Seq::new(nodes.len(), |i: int| false)).1
}

/// The visited set only grows, and expanding a handle marks it: once
/// expanded, the guard at the top of `expand` refuses it forever after, so
/// each handle is expanded at most once and a bounded traversal terminates
/// on any graph, cycles included.
pub proof fn lemma_expand_visited(
    nodes: Seq<SymbolNode>,
    edges: Seq<(usize, usize, RelationEdge)>,
    incoming: bool,
    node: usize,
    maxd: nat,
    cur: nat,
    visited: Seq<bool>,
)
    ensures
        expand(nodes, edges, incoming, node, maxd, cur, visited).0.len() == visited.len(),
        forall|k: int|
            0 <= k < visited.len() && visited[k] ==> expand(
                nodes,
                edges,
                incoming,
                node,
                maxd,
                cur,
                visited,
            ).0[k],
        cur < maxd && node < visited.len() ==> expand(
            nodes,
            edges,
            incoming,
            node,
            maxd,
            cur,
            visited,
        ).0[node as int],
    decreases maxd - cur, 1nat, 0nat,
{
    if cur >= maxd || (node < visited.len() && visited[node as int]) {
    } else {
        let marked = if node < visited.len() {
            visited.update(node as int, true)
        } else {
            visited
        };
        assert(expand(nodes, edges, incoming, node, maxd, cur, visited) == expand_list(
            nodes,
            edges,
            incoming,
            step_neighbors(edges, incoming, node),
            maxd,
            cur,
            marked,
        ));
        assert(marked.len() == visited.len());
        assert(forall|k: int| 0 <= k < visited.len() && visited[k] ==> marked[k]);
        lemma_expand_list_visited(
            nodes,
            edges,
            incoming,
            step_neighbors(edges, incoming, node),
            maxd,
            cur,
            marked,
        );
        if node < visited.len() {
            assert(marked[node as int]);
        }
    }
}

pub proof fn lemma_expand_list_visited(
    nodes: Seq<SymbolNode>,
    edges: Seq<(usize, usize, RelationEdge)>,
    incoming: bool,
    lst: Seq<usize>,
    maxd: nat,
    cur: nat,
    visited: Seq<bool>,
)
    ensures
        expand_list(nodes, edges, incoming, lst, maxd, cur, visited).0.len() == visited.len(),
        forall|k: int|
            0 <= k < visited.len() && visited[k] ==> expand_list(
                nodes,
                edges,
                incoming,
                lst,
                maxd,
                cur,
                visited,
            ).0[k],
    decreases maxd - cur, 0nat, lst.len(),
{
    if lst.len() == 0 {
    } else {
        let nb = lst[0];
        let stepped = if cur + 1 < maxd {
            expand(nodes, edges, incoming, nb, maxd, cur + 1, visited)
        } else {
            (visited, Seq::<RefData>::empty())
        };
        if cur + 1 < maxd {
            lemma_expand_visited(nodes, edges, incoming, nb, maxd, cur + 1, visited);
        }
        lemma_expand_list_visited(nodes, edges, incoming, lst.drop_first(), maxd, cur, stepped.0);
    }
}

/// The risk bucket for a total impacted count: up to 2 is low, up to 10 is
/// medium, anything higher is high.
pub open spec fn risk_of(total: nat) -> Seq<char> {
    if total <= 2 {
        "low"@
    } else if total <= 10 {
        "medium"@
    } else {
        "high"@
    }
}

/// Buckets an impacted count into a risk level.
pub fn assess_risk_level(total: usize) -> (r: String)
    ensures
        r@ == risk_of(total as nat),
{
    if total <= 2 {
        "low".to_owned()
    } else if total <= 10 {
        "medium".to_owned()
    } else {
        "high".to_owned()
    }
}

/// Whether a path looks like a test file: "test" or "spec" anywhere in its
/// lowercased form, or a conventional test-file name.
pub open spec fn is_test_path(p: Seq<char>) -> bool {
    ||| crate::text::spec_contains(crate::text::lower_of(p), "test"@)
    ||| crate::text::spec_contains(crate::text::lower_of(p), "spec"@)
    ||| crate::text::spec_starts_with(crate::paths::spec_file_name(p), "test_"@)
    ||| crate::text::spec_ends_with(crate::paths::spec_file_name(p), "_test.py"@)
    ||| crate::text::spec_ends_with(crate::paths::spec_file_name(p), ".test.js"@)
    ||| crate::text::spec_ends_with(crate::paths::spec_file_name(p), ".spec.js"@)
}

/// Applies the test-file heuristic to a path.
pub fn is_test_file(path: &str) -> (r: bool)
    ensures
        r == is_test_path(path@),
{
    let lower = crate::text::lowercase(path);
    if crate::text::contains_str(lower.as_str(), "test") {
        return true;
    }
    if crate::text::contains_str(lower.as_str(), "spec") {
        return true;
    }
    let name = crate::paths::file_name_of(path);
    crate::text::starts_with_str(name.as_str(), "test_") || crate::text::ends_with_str(
        name.as_str(),
        "_test.py",
    ) || crate::text::ends_with_str(name.as_str(), ".test.js") || crate::text::ends_with_str(
        name.as_str(),
        ".spec.js",
    )
}

/// The display name of a language tag.
pub open spec fn lang_name(l: Language) -> Seq<char> {
    match l {
        Language::Python => "Python"@,
        Language::JavaScript => "JavaScript"@,
        Language::TypeScript => "TypeScript"@,
        Language::Rust => "Rust"@,
    }
}

/// Renders a language tag.
pub fn language_to_string(language: &Language) -> (r: String)
    ensures
        r@ == lang_name(*language),
{
    match language {
        Language::Python => "Python".to_owned(),
        Language::JavaScript => "JavaScript".to_owned(),
        Language::TypeScript => "TypeScript".to_owned(),
        Language::Rust => "Rust".to_owned(),
    }
}

/// References, at full confidence, of a handle list.
pub open spec fn refs_of_indices(nodes: Seq<SymbolNode>, idxs: Seq<usize>, n: nat) -> Seq<RefData>
    decreases n,
{
    if n == 0 {
        Seq::empty()
    } else {
        refs_of_indices(nodes, idxs, (n - 1) as nat).push(ref_of(nodes[idxs[n - 1] as int]@, 1000))
    }
}

/// The file of each reference, in order.
pub open spec fn files_of(s: Seq<RefData>) -> Seq<Seq<char>> {
    Seq::new(s.len(), |i: int| s[i].file)
}

/// Whether some of the first `n` strings equals `x`.
pub open spec fn has_str(s: Seq<Seq<char>>, x: Seq<char>, n: nat) -> bool {
    exists|i: int| 0 <= i < n && #[trigger] s[i] == x
}

/// Keeps the first occurrence of each string, in order.
pub open spec fn dedup_strs(s: Seq<Seq<char>>, n: nat) -> Seq<Seq<char>>
    decreases n,
{
    if n == 0 {
        Seq::empty()
    } else {
        dedup_strs(s, (n - 1) as nat) + if has_str(s, s[n - 1], (n - 1) as nat) {
            Seq::empty()
        } else {
            seq![s[n - 1]]
        }
    }
}

/// The subset of the first `n` strings that look like test files, in order.
pub open spec fn test_subset(s: Seq<Seq<char>>, n: nat) -> Seq<Seq<char>>
    decreases n,
{
    if n == 0 {
        Seq::empty()
    } else {
        test_subset(s, (n - 1) as nat) + if is_test_path(s[n - 1]) {
            seq![s[n - 1]]
        } else {
            Seq::empty()
        }
    }
}

/// The views of a string vector.
pub open spec fn strs_view(v: Seq<String>) -> Seq<Seq<char>> {
    Seq::new(v.len(), |i: int| v[i]@)
}

/// Removes duplicate strings, keeping first occurrences.
fn dedup_strings(v: &Vec<String>) -> (r: Vec<String>)
    ensures
        strs_view(r@) == dedup_strs(strs_view(v@), v@.len() as nat),
{
    let ghost s = strs_view(v@);
    let n = v.len();
    let mut out: Vec<String> = Vec::new();
    let mut i: usize = 0;
    while i < n
        invariant
            0 <= i <= n,
            n == v@.len(),
            s == strs_view(v@),
            strs_view(out@) =~= dedup_strs(s, i as nat),
        decreases n - i,
    {
        let mut seen = false;
        let mut j: usize = 0;
        while j < i
            invariant
                0 <= j <= i < n,
                n == v@.len(),
                s == strs_view(v@),
                seen == (exists|k: int| 0 <= k < j && #[trigger] s[k] == s[i as int]),
            decreases i - j,
        {
            if crate::text::eq_str(v[j].as_str(), v[i].as_str()) {
                proof {
                    assert(s[j as int] == s[i as int]);
                }
                seen = true;
            }
            proof {
                if !seen {
                    assert(forall|k: int| 0 <= k < j + 1 ==> #[trigger] s[k] != s[i as int]);
                }
            }
            j += 1;
        }
        proof {
            assert(seen == has_str(s, s[i as int], i as nat));
        }
        if !seen {
            let ghost pre = strs_view(out@);
            out.push(v[i].clone());
            proof {
                assert(strs_view(out@) =~= pre.push(s[i as int]));
            }
        }
        proof {
            assert(strs_view(out@) =~= dedup_strs(s, (i + 1) as nat));
        }
        i += 1;
    }
    out
}

/// The navigate summary line.
pub open spec fn navigate_summary(
    name: Seq<char>,
    file: Seq<char>,
    line: nat,
    ncalls: nat,
    ncalled: nat,
    nsib: nat,
) -> Seq<char> {
    "Function '"@ + name + "' at "@ + file + ":"@ + spec_dec(line) + " calls "@ + spec_dec(ncalls)
        + " functions, is called by "@ + spec_dec(ncalled)
        + " functions, and has "@ + spec_dec(nsib) + " siblings in the same file."@
}

/// The impact summary line.
pub open spec fn impact_summary(
    name: Seq<char>,
    ndirect: nat,
    ntrans: nat,
    risk: Seq<char>,
) -> Seq<char> {
    "Changing '"@ + name + "' would directly affect "@ + spec_dec(ndirect)
        + " functions and transitively impact "@ + spec_dec(ntrans)
        + " functions. Risk level: "@ + risk + "."@
}

/// The find summary line; the tail notes that the result list hit the
/// ten-item cap.
pub open spec fn find_summary(
    q: Seq<char>,
    nmatches: nat,
    scope: Option<Seq<char>>,
    truncated: bool,
) -> Seq<char> {
    "Found "@ + spec_dec(nmatches) + " functions matching '"@ + q + "'"@ + (match scope {
        Some(sc) => " in "@ + sc,
        None => Seq::empty(),
    }) + "."@ + if truncated {
        " (showing top 10)"@
    } else {
        Seq::empty()
    }
}

/// Collects one bounded traversal into owned references.
fn collect_traversal(graph: &CodeGraph, incoming: bool, node: usize, maxd: usize) -> (r: Vec<
    FunctionRef,
>)
    requires
        graph.wf(),
        node < graph.nodes().len(),
        maxd >= 1,
    ensures
        refs_view(r@) == traversal(graph.nodes(), graph.edges(), incoming, node, maxd as nat),
{
    let n = graph.node_count();
    let mut visited: Vec<bool> = Vec::new();
    let mut k: usize = 0;
    while k < n
        invariant
            0 <= k <= n,
            visited@ =~= Seq::new(k as nat, |i: int| false),
        decreases n - k,
    {
        visited.push(false);
        proof {
            assert(visited@ =~= Seq::new((k + 1) as nat, |i: int| false));
        }
        k += 1;
    }
    let mut out: Vec<FunctionRef> = Vec::new();
    proof {
        assert(visited@ =~= Seq::new(graph.nodes().len(), |i: int| false));
    }
    expand_exec(graph, incoming, node, maxd, 0, &mut visited, &mut out);
    proof {
        assert(refs_view(out@) =~= traversal(
            graph.nodes(),
            graph.edges(),
            incoming,
            node,
            maxd as nat,
        ));
    }
    out
}

/// The depth-first, visited-guarded expansion; appends the collected
/// references to `out`.
fn expand_exec(
    graph: &CodeGraph,
    incoming: bool,
    node: usize,
    maxd: usize,
    cur: usize,
    visited: &mut Vec<bool>,
    out: &mut Vec<FunctionRef>,
)
    requires
        graph.wf(),
        old(visited)@.len() == graph.nodes().len(),
        node < graph.nodes().len(),
        cur < maxd,
    ensures
        final(visited)@ == expand(
            graph.nodes(),
            graph.edges(),
            incoming,
            node,
            maxd as nat,
            cur as nat,
            old(visited)@,
        ).0,
        final(visited)@.len() == old(visited)@.len(),
        refs_view(final(out)@) == refs_view(old(out)@) + expand(
            graph.nodes(),
            graph.edges(),
            incoming,
            node,
            maxd as nat,
            cur as nat,
            old(visited)@,
        ).1,
    decreases maxd - cur,
{
    let ghost nodes = graph.nodes();
    let ghost edges = graph.edges();
    let ghost full = expand(nodes, edges, incoming, node, maxd as nat, cur as nat, visited@);
    if visited[node] {
        proof {
            assert(full == (visited@, Seq::<RefData>::empty()));
            assert(refs_view(out@) =~= refs_view(out@) + Seq::<RefData>::empty());
        }
        return ;
    }
    visited[node] = true;
    let ghost marked = visited@;
    let neighbors = if incoming {
        graph.get_callers(node)
    } else {
        graph.get_callees(node)
    };
    proof {
        assert(neighbors@ == step_neighbors(edges, incoming, node));
        assert(marked =~= old(visited)@.update(node as int, true));
        assert(full == expand_list(
            nodes,
            edges,
            incoming,
            neighbors@,
            maxd as nat,
            cur as nat,
            marked,
        ));
        crate::graph::lemma_rev_neighbors_bounds(edges, node, nodes.len());
    }
    let ghost base_out = refs_view(out@);
    let ghost mut done: Seq<RefData> = Seq::empty();
    let nn = neighbors.len();
    let mut t: usize = 0;
    proof {
        assert(neighbors@.skip(0) =~= neighbors@);
        assert(base_out + done =~= base_out);
    }
    while t < nn
        invariant
            0 <= t <= nn,
            nn == neighbors@.len(),
            graph.wf(),
            nodes == graph.nodes(),
            edges == graph.edges(),
            neighbors@ == step_neighbors(edges, incoming, node),
            forall|k: int| 0 <= k < neighbors@.len() ==> (#[trigger] neighbors@[k]) < nodes.len(),
            cur < maxd,
            visited@.len() == nodes.len(),
            refs_view(out@) == base_out + done,
            full == expand_list(
                nodes,
                edges,
                incoming,
                neighbors@,
                maxd as nat,
                cur as nat,
                marked,
            ),
            expand_list(
                nodes,
                edges,
                incoming,
                neighbors@,
                maxd as nat,
                cur as nat,
                marked,
            ).0 == expand_list(
                nodes,
                edges,
                incoming,
                neighbors@.skip(t as int),
                maxd as nat,
                cur as nat,
                visited@,
            ).0,
            expand_list(
                nodes,
                edges,
                incoming,
                neighbors@,
                maxd as nat,
                cur as nat,
                marked,
            ).1 == done + expand_list(
                nodes,
                edges,
                incoming,
                neighbors@.skip(t as int),
                maxd as nat,
                cur as nat,
                visited@,
            ).1,
        decreases nn - t,
    {
        let ghost rem = neighbors@.skip(t as int);
        let ghost v0 = visited@;
        let nb = neighbors[t];
        proof {
            assert(rem[0] == neighbors@[t as int]);
        }
        let sym = match graph.symbol(nb) {
            Some(s) => s,
            None => {
                proof {
                    assert(false);
                }
                unreached()
            },
        };
        let ghost pre_out = refs_view(out@);
        out.push(
            FunctionRef {
                name: sym.name,
                file: sym.file,
                line: sym.line,
                signature: sym.signature,
                confidence: 1000,
            },
        );
        proof {
            assert(refs_view(out@) =~= pre_out.push(ref_of(nodes[nb as int]@, 1000)));
        }
        let ghost stepped: (Seq<bool>, Seq<RefData>) = if cur + 1 < maxd {
            expand(nodes, edges, incoming, nb, maxd as nat, (cur + 1) as nat, v0)
        } else {
            (v0, Seq::<RefData>::empty())
        };
        if cur + 1 < maxd {
            expand_exec(graph, incoming, nb, maxd, cur + 1, visited, out);
        }
        proof {
            assert(visited@ == stepped.0);
            assert(refs_view(out@) =~= pre_out.push(ref_of(nodes[nb as int]@, 1000))
                + stepped.1);
            let head = seq![ref_of(nodes[rem[0] as int]@, 1000)];
            assert(expand_list(nodes, edges, incoming, rem, maxd as nat, cur as nat, v0) == (
                expand_list(
                    nodes,
                    edges,
                    incoming,
                    rem.drop_first(),
                    maxd as nat,
                    cur as nat,
                    stepped.0,
                ).0,
                head + stepped.1 + expand_list(
                    nodes,
                    edges,
                    incoming,
                    rem.drop_first(),
                    maxd as nat,
                    cur as nat,
                    stepped.0,
                ).1,
            ));
            assert(rem.drop_first() =~= neighbors@.skip(t + 1));
            done = done + head + stepped.1;
            assert(refs_view(out@) =~= base_out + done);
            assert(done + expand_list(
                nodes,
                edges,
                incoming,
                neighbors@.skip(t + 1),
                maxd as nat,
                cur as nat,
                visited@,
            ).1 =~= (done.subrange(0, done.len() - head.len() - stepped.1.len())) + (head
                + stepped.1 + expand_list(
                nodes,
                edges,
                incoming,
                neighbors@.skip(t + 1),
                maxd as nat,
                cur as nat,
                visited@,
            ).1));
        }
        t += 1;
    }
    proof {
        assert(neighbors@.skip(nn as int) =~= Seq::<usize>::empty());
        assert(expand_list(
            nodes,
            edges,
            incoming,
            Seq::<usize>::empty(),
            maxd as nat,
            cur as nat,
            visited@,
        ) == (visited@, Seq::<RefData>::empty()));
        assert(done + Seq::<RefData>::empty() =~= done);
        assert(refs_view(out@) =~= refs_view(old(out)@) + full.1);
    }
}

/// The query-operation front end: resolve the target, then traverse.
pub struct OperationHandler {
    resolver: crate::resolver::FunctionResolver,
}

impl OperationHandler {
    pub fn new() -> (r: OperationHandler) {
        OperationHandler { resolver: crate::resolver::FunctionResolver::new() }
    }

    /// Navigate: the resolved symbol's descriptor, its outgoing calls and
    /// incoming callers expanded to `depth` levels, and its same-file
    /// siblings, plus a one-line summary.
    pub fn navigate(
        &self,
        graph: &CodeGraph,
        function_name: &str,
        depth: Option<usize>,
        files: &Vec<crate::resolver::SourceFile>,
    ) -> (r: Result<crate::mcp::NavigateResult, OpError>)
        requires
            graph.wf(),
        ensures
            ({
                let d = match depth {
                    Some(x) => x,
                    None => 1usize,
                };
                let cands = crate::resolver::resolve_spec(graph.nodes(), function_name@, files@);
                &&& (!(1 <= d <= 5) ==> (r matches Err(e) && e is InvalidInput))
                &&& (1 <= d <= 5 && cands.len() == 0 ==> (r matches Err(e) && (e matches
                    OpError::NotFound { name } && name@ == function_name@)))
                &&& (1 <= d <= 5 && cands.len() > 0 ==> (match crate::graph::find_first_named(
                    graph.nodes(),
                    cands[0].name,
                ) {
                    Some(node) => (r matches Ok(nr) && {
                        let sym = graph.nodes()[node]@;
                        &&& nr.function.name@ == sym.name
                        &&& nr.function.file@ == sym.file
                        &&& nr.function.line as nat == sym.line
                        &&& nr.function.signature@ == sym.signature
                        &&& nr.function.language@ == lang_name(sym.language)
                        &&& nr.function.module_segments@.len() == sym.module_segments.len()
                        &&& (forall|m: int|
                            0 <= m < sym.module_segments.len()
                                ==> (#[trigger] nr.function.module_segments@[m])@
                                == sym.module_segments[m])
                        &&& refs_view(nr.calls@) == traversal(
                            graph.nodes(),
                            graph.edges(),
                            false,
                            node as usize,
                            d as nat,
                        )
                        &&& refs_view(nr.called_by@) == traversal(
                            graph.nodes(),
                            graph.edges(),
                            true,
                            node as usize,
                            d as nat,
                        )
                        &&& refs_view(nr.siblings@) == refs_of_indices(
                            graph.nodes(),
                            crate::graph::sibling_indices(
                                graph.nodes(),
                                node as usize,
                                graph.nodes().len(),
                            ),
                            crate::graph::sibling_indices(
                                graph.nodes(),
                                node as usize,
                                graph.nodes().len(),
                            ).len(),
                        )
                        &&& nr.summary@ == navigate_summary(
                            sym.name,
                            sym.file,
                            sym.line,
                            nr.calls@.len() as nat,
                            nr.called_by@.len() as nat,
                            nr.siblings@.len() as nat,
                        )
                    }),
                    None => (r matches Err(e) && e is InconsistentGraph),
                }))
            }),
    {
        let d = match depth {
            Some(x) => x,
            None => 1,
        };
        if d < 1 || d > 5 {
            return Err(
                OpError::InvalidInput { message: "depth must be between 1 and 5".to_owned() },
            );
        }
        let cands = self.resolver.resolve_function_reference(function_name, graph, files);
        if cands.is_empty() {
            return Err(OpError::NotFound { name: function_name.to_owned() });
        }
        let best = &cands[0];
        proof {
            assert(best@ == crate::resolver::resolve_spec(graph.nodes(), function_name@, files@)[0]);
        }
        let node = match graph.find_exact(best.name.as_str()) {
            Some(i) => i,
            None => {
                return Err(OpError::InconsistentGraph);
            },
        };
        proof {
            crate::graph::lemma_find_first_named_props(graph.nodes(), best@.name);
        }
        let calls = collect_traversal(graph, false, node, d);
        let called_by = collect_traversal(graph, true, node, d);
        let siblings = self.sibling_refs(graph, node);
        let function_node = match graph.symbol(node) {
            Some(s) => s,
            None => {
                proof {
                    assert(false);
                }
                unreached()
            },
        };
        let summary = build_navigate_summary(
            function_node.name.as_str(),
            function_node.file.as_str(),
            function_node.line,
            calls.len(),
            called_by.len(),
            siblings.len(),
        );
        let info = crate::mcp::FunctionInfo {
            name: function_node.name,
            file: function_node.file,
            line: function_node.line,
            signature: function_node.signature,
            language: language_to_string(&function_node.language),
            module_segments: function_node.module_segments,
        };
        Ok(
            crate::mcp::NavigateResult {
                function: info,
                calls,
                called_by,
                siblings,
                summary,
            },
        )
    }

    /// The same-file siblings of a handle, as references.
    fn sibling_refs(&self, graph: &CodeGraph, node: usize) -> (r: Vec<FunctionRef>)
        requires
            graph.wf(),
            node < graph.nodes().len(),
        ensures
            refs_view(r@) == refs_of_indices(
                graph.nodes(),
                crate::graph::sibling_indices(graph.nodes(), node, graph.nodes().len()),
                crate::graph::sibling_indices(graph.nodes(), node, graph.nodes().len()).len(),
            ),
    {
        let idxs = graph.get_siblings(node);
        proof {
            crate::graph::lemma_sibling_indices_bounds(graph.nodes(), node, graph.nodes().len());
        }
        let ghost sidx = crate::graph::sibling_indices(graph.nodes(), node, graph.nodes().len());
        let n = idxs.len();
        let mut out: Vec<FunctionRef> = Vec::new();
        let mut t: usize = 0;
        while t < n
            invariant
                0 <= t <= n,
                n == idxs@.len(),
                idxs@ == sidx,
                sidx == crate::graph::sibling_indices(graph.nodes(), node, graph.nodes().len()),
                forall|k: int| 0 <= k < sidx.len() ==> (#[trigger] sidx[k]) < graph.nodes().len(),
                refs_view(out@) =~= refs_of_indices(graph.nodes(), sidx, t as nat),
            decreases n - t,
        {
            let idx = idxs[t];
            let sym = match graph.symbol(idx) {
                Some(s) => s,
                None => {
                    proof {
                        assert(false);
                    }
                    unreached()
                },
            };
            let ghost pre = refs_view(out@);
            out.push(
                FunctionRef {
                    name: sym.name,
                    file: sym.file,
                    line: sym.line,
                    signature: sym.signature,
                    confidence: 1000,
                },
            );
            proof {
                assert(refs_view(out@) =~= pre.push(
                    ref_of(graph.nodes()[sidx[t as int] as int]@, 1000),
                ));
            }
            t += 1;
        }
        out
    }

    /// Impact analysis: direct callers, a depth-3 transitive closure over
    /// the caller relation, the deduplicated affected files, the impacted
    /// test files when asked for, a risk level and a summary.
    pub fn analyze_impact(
        &self,
        graph: &CodeGraph,
        function_name: &str,
        include_tests: bool,
        files: &Vec<crate::resolver::SourceFile>,
    ) -> (r: Result<crate::mcp::ImpactResult, OpError>)
        requires
            graph.wf(),
        ensures
            ({
                let cands = crate::resolver::resolve_spec(graph.nodes(), function_name@, files@);
                &&& (cands.len() == 0 ==> (r matches Err(e) && (e matches OpError::NotFound {
                    name,
                } && name@ == function_name@)))
                &&& (cands.len() > 0 ==> (match crate::graph::find_first_named(
                    graph.nodes(),
                    cands[0].name,
                ) {
                    Some(node) => (r matches Ok(ir) && {
                        let direct = traversal(
                            graph.nodes(),
                            graph.edges(),
                            true,
                            node as usize,
                            1,
                        );
                        let trans = traversal(
                            graph.nodes(),
                            graph.edges(),
                            true,
                            node as usize,
                            3,
                        );
                        let affected = dedup_strs(
                            files_of(direct + trans),
                            files_of(direct + trans).len(),
                        );
                        &&& refs_view(ir.direct_callers@) == direct
                        &&& refs_view(ir.transitive_impact@) == trans
                        &&& strs_view(ir.affected_files@) == affected
                        &&& strs_view(ir.test_files@) == (if include_tests {
                            test_subset(affected, affected.len())
                        } else {
                            Seq::<Seq<char>>::empty()
                        })
                        &&& ir.risk_level@ == risk_of((direct.len() + trans.len()) as nat)
                        &&& ir.summary@ == impact_summary(
                            function_name@,
                            direct.len() as nat,
                            trans.len() as nat,
                            risk_of((direct.len() + trans.len()) as nat),
                        )
                    }),
                    None => (r matches Err(e) && e is InconsistentGraph),
                }))
            }),
    {
        let cands = self.resolver.resolve_function_reference(function_name, graph, files);
        if cands.is_empty() {
            return Err(OpError::NotFound { name: function_name.to_owned() });
        }
        let best = &cands[0];
        let node = match graph.find_exact(best.name.as_str()) {
            Some(i) => i,
            None => {
                return Err(OpError::InconsistentGraph);
            },
        };
        proof {
            crate::graph::lemma_find_first_named_props(graph.nodes(), best@.name);
        }
        let direct_callers = collect_traversal(graph, true, node, 1);
        let transitive_impact = collect_traversal(graph, true, node, 3);
        let mut all_files: Vec<String> = Vec::new();
        let ghost combined = refs_view(direct_callers@) + refs_view(transitive_impact@);
        let mut t: usize = 0;
        let nd = direct_callers.len();
        while t < nd
            invariant
                0 <= t <= nd,
                nd == direct_callers@.len(),
                combined == refs_view(direct_callers@) + refs_view(transitive_impact@),
                strs_view(all_files@) =~= files_of(refs_view(direct_callers@)).take(t as int),
            decreases nd - t,
        {
            let ghost pre = strs_view(all_files@);
            all_files.push(direct_callers[t].file.clone());
            proof {
                assert(strs_view(all_files@) =~= pre.push(
                    refs_view(direct_callers@)[t as int].file,
                ));
                assert(strs_view(all_files@) =~= files_of(refs_view(direct_callers@)).take(
                    t + 1,
                ));
            }
            t += 1;
        }
        let nt = transitive_impact.len();
        let mut u: usize = 0;
        while u < nt
            invariant
                0 <= u <= nt,
                nt == transitive_impact@.len(),
                combined == refs_view(direct_callers@) + refs_view(transitive_impact@),
                strs_view(all_files@) =~= files_of(refs_view(direct_callers@)) + files_of(
                    refs_view(transitive_impact@),
                ).take(u as int),
            decreases nt - u,
        {
            let ghost pre = strs_view(all_files@);
            all_files.push(transitive_impact[u].file.clone());
            proof {
                assert(strs_view(all_files@) =~= pre.push(
                    refs_view(transitive_impact@)[u as int].file,
                ));
                assert(strs_view(all_files@) =~= files_of(refs_view(direct_callers@)) + files_of(
                    refs_view(transitive_impact@),
                ).take(u + 1));
            }
            u += 1;
        }
        proof {
            assert(files_of(refs_view(direct_callers@)).take(nd as int) =~= files_of(
                refs_view(direct_callers@),
            ));
            assert(files_of(refs_view(transitive_impact@)).take(nt as int) =~= files_of(
                refs_view(transitive_impact@),
            ));
            assert(strs_view(all_files@) =~= files_of(combined));
        }
        let affected_files = dedup_strings(&all_files);
        let mut test_files: Vec<String> = Vec::new();
        if include_tests {
            let ghost aff = strs_view(affected_files@);
            let na = affected_files.len();
            let mut w: usize = 0;
            while w < na
                invariant
                    0 <= w <= na,
                    na == affected_files@.len(),
                    aff == strs_view(affected_files@),
                    strs_view(test_files@) =~= test_subset(aff, w as nat),
                decreases na - w,
            {
                let ghost pre = strs_view(test_files@);
                if is_test_file(affected_files[w].as_str()) {
                    test_files.push(affected_files[w].clone());
                    proof {
                        assert(strs_view(test_files@) =~= pre.push(aff[w as int]));
                    }
                }
                proof {
                    assert(strs_view(test_files@) =~= test_subset(aff, (w + 1) as nat));
                }
                w += 1;
            }
        } else {
            proof {
                assert(strs_view(test_files@) =~= Seq::<Seq<char>>::empty());
            }
        }
        let total = direct_callers.len() + transitive_impact.len();
        let risk_level = assess_risk_level(total);
        let summary = build_impact_summary(
            function_name,
            direct_callers.len(),
            transitive_impact.len(),
            risk_level.as_str(),
        );
        Ok(
            crate::mcp::ImpactResult {
                direct_callers,
                transitive_impact,
                affected_files,
                test_files,
                risk_level,
                summary,
            },
        )
    }

    /// Find: delegates to the resolver over the files under `scope`, groups
    /// the matches by file (resolver order preserved within a group), and
    /// summarizes.
    pub fn find_functions(
        &self,
        graph: &CodeGraph,
        query: &str,
        scope: Option<&str>,
        files: &Vec<crate::resolver::SourceFile>,
    ) -> (r: Result<crate::mcp::FindResult, OpError>)
        requires
            graph.wf(),
        ensures
            (r matches Ok(fr) && ({
                let sv = match scope {
                    Some(sc) => Some(sc@),
                    None => None::<Seq<char>>,
                };
                let scoped = scoped_files(files@, sv, files@.len() as nat);
                let ms = crate::resolver::resolve_spec(graph.nodes(), query@, scoped);
                let groups = dedup_strs(files_of(ms), files_of(ms).len());
                &&& refs_view(fr.matches@) == ms
                &&& fr.matches@.len() <= 10
                &&& fr.grouped_by_file@.len() == groups.len()
                &&& (forall|g: int|
                    0 <= g < groups.len() ==> (#[trigger] fr.grouped_by_file@[g]).file@
                        == groups[g] && refs_view(fr.grouped_by_file@[g].refs@) == refs_with_file(
                        ms,
                        groups[g],
                        ms.len(),
                    ))
                &&& fr.summary@ == find_summary(query@, ms.len() as nat, sv, ms.len() >= 10)
            })),
    {
        let ghost sv: Option<Seq<char>> = match scope {
            Some(sc) => Some(sc@),
            None => None,
        };
        let nf = files.len();
        let mut scoped: Vec<crate::resolver::SourceFile> = Vec::new();
        let mut t: usize = 0;
        while t < nf
            invariant
                0 <= t <= nf,
                nf == files@.len(),
                sv == (match scope {
                    Some(sc) => Some(sc@),
                    None => None::<Seq<char>>,
                }),
                scoped@.map_values(|f: crate::resolver::SourceFile| f) =~= scoped@,
                scoped_view(scoped@) =~= scoped_view_of(files@, sv, t as nat),
            decreases nf - t,
        {
            let keep = match scope {
                Some(sc) => crate::paths::path_starts_with(files[t].path.as_str(), sc),
                None => true,
            };
            let ghost pre = scoped_view(scoped@);
            if keep {
                scoped.push(files[t].clone_file());
                proof {
                    assert(scoped_view(scoped@) =~= pre.push(
                        (files@[t as int].path@, files@[t as int].content@),
                    ));
                }
            }
            proof {
                assert(scoped_view(scoped@) =~= scoped_view_of(files@, sv, (t + 1) as nat));
            }
            t += 1;
        }
        proof {
            lemma_scoped_view_resolve(files@, sv, scoped@);
        }
        let matches = self.resolver.resolve_function_reference(query, graph, &scoped);
        let ghost ms = refs_view(matches@);
        let mut file_names: Vec<String> = Vec::new();
        let nm = matches.len();
        let mut u: usize = 0;
        while u < nm
            invariant
                0 <= u <= nm,
                nm == matches@.len(),
                ms == refs_view(matches@),
                strs_view(file_names@) =~= files_of(ms).take(u as int),
            decreases nm - u,
        {
            let ghost pre = strs_view(file_names@);
            file_names.push(matches[u].file.clone());
            proof {
                assert(strs_view(file_names@) =~= pre.push(ms[u as int].file));
                assert(strs_view(file_names@) =~= files_of(ms).take(u + 1));
            }
            u += 1;
        }
        proof {
            assert(files_of(ms).take(nm as int) =~= files_of(ms));
        }
        let distinct = dedup_strings(&file_names);
        let mut grouped: Vec<crate::mcp::FileGroup> = Vec::new();
        let ghost groups = dedup_strs(files_of(ms), files_of(ms).len());
        let ng = distinct.len();
        let mut g: usize = 0;
        while g < ng
            invariant
                0 <= g <= ng,
                ng == distinct@.len(),
                ms == refs_view(matches@),
                nm == matches@.len(),
                strs_view(distinct@) == groups,
                grouped@.len() == g,
                forall|k: int|
                    0 <= k < g ==> (#[trigger] grouped@[k]).file@ == groups[k] && refs_view(
                        grouped@[k].refs@,
                    ) == refs_with_file(ms, groups[k], ms.len()),
            decreases ng - g,
        {
            let fname = &distinct[g];
            let mut refs: Vec<FunctionRef> = Vec::new();
            let mut w: usize = 0;
            while w < nm
                invariant
                    0 <= w <= nm,
                    nm == matches@.len(),
                    ms == refs_view(matches@),
                    g < ng,
                    ng == distinct@.len(),
                    strs_view(distinct@) == groups,
                    fname == &distinct@[g as int],
                    refs_view(refs@) =~= refs_with_file(ms, groups[g as int], w as nat),
                decreases nm - w,
            {
                let ghost pre = refs_view(refs@);
                if crate::text::eq_str(matches[w].file.as_str(), fname.as_str()) {
                    refs.push(matches[w].clone_ref());
                    proof {
                        assert(refs_view(refs@) =~= pre.push(ms[w as int]));
                    }
                }
                proof {
                    assert(refs_view(refs@) =~= refs_with_file(ms, groups[g as int], (w
                        + 1) as nat));
                }
                w += 1;
            }
            grouped.push(crate::mcp::FileGroup { file: fname.clone(), refs });
            g += 1;
        }
        let summary = build_find_summary(query, matches.len(), scope);
        Ok(crate::mcp::FindResult { matches, grouped_by_file: grouped, summary })
    }
}

/// The matches whose file is `f`, among the first `n`, in order.
pub open spec fn refs_with_file(s: Seq<RefData>, f: Seq<char>, n: nat) -> Seq<RefData>
    decreases n,
{
    if n == 0 {
        Seq::empty()
    } else {
        refs_with_file(s, f, (n - 1) as nat) + if s[n - 1].file == f {
            seq![s[n - 1]]
        } else {
            Seq::empty()
        }
    }
}

/// The (path, content) views of a file list.
pub open spec fn scoped_view(files: Seq<crate::resolver::SourceFile>) -> Seq<
    (Seq<char>, Seq<char>),
> {
    Seq::new(files.len(), |i: int| (files[i].path@, files[i].content@))
}

/// The (path, content) views of the files under `scope` among the first `n`.
pub open spec fn scoped_view_of(
    files: Seq<crate::resolver::SourceFile>,
    scope: Option<Seq<char>>,
    n: nat,
) -> Seq<(Seq<char>, Seq<char>)>
    decreases n,
{
    if n == 0 {
        Seq::empty()
    } else {
        scoped_view_of(files, scope, (n - 1) as nat) + if (match scope {
            Some(sc) => crate::paths::spec_path_starts_with(files[n - 1].path@, sc),
            None => true,
        }) {
            seq![(files[n - 1].path@, files[n - 1].content@)]
        } else {
            Seq::empty()
        }
    }
}

/// The files under `scope`, among the first `n`, as values.
pub open spec fn scoped_files(
    files: Seq<crate::resolver::SourceFile>,
    scope: Option<Seq<char>>,
    n: nat,
) -> Seq<crate::resolver::SourceFile>
    decreases n,
{
    if n == 0 {
        Seq::empty()
    } else {
        scoped_files(files, scope, (n - 1) as nat) + if (match scope {
            Some(sc) => crate::paths::spec_path_starts_with(files[n - 1].path@, sc),
            None => true,
        }) {
            seq![files[n - 1]]
        } else {
            Seq::empty()
        }
    }
}

proof fn lemma_scoped_view_resolve(
    files: Seq<crate::resolver::SourceFile>,
    scope: Option<Seq<char>>,
    built: Seq<crate::resolver::SourceFile>,
)
    requires
        scoped_view(built) == scoped_view_of(files, scope, files.len() as nat),
    ensures
        fallback_agrees(built, scoped_files(files, scope, files.len() as nat)),
{
    lemma_scoped_views_eq(files, scope, files.len() as nat);
    lemma_fallback_from_views(built, scoped_files(files, scope, files.len() as nat));
}

/// Two file lists with equal (path, content) views yield the same fallback
/// candidates for every query.
pub open spec fn fallback_agrees(
    a: Seq<crate::resolver::SourceFile>,
    b: Seq<crate::resolver::SourceFile>,
) -> bool {
    forall|q: Seq<char>|
        #[trigger] crate::resolver::fallback_refs(q, a, a.len() as nat)
            == crate::resolver::fallback_refs(q, b, b.len() as nat)
}

proof fn lemma_scoped_views_eq(
    files: Seq<crate::resolver::SourceFile>,
    scope: Option<Seq<char>>,
    n: nat,
)
    requires
        n <= files.len(),
    ensures
        scoped_view(scoped_files(files, scope, n)) == scoped_view_of(files, scope, n),
    decreases n,
{
    if n > 0 {
        lemma_scoped_views_eq(files, scope, (n - 1) as nat);
        assert(scoped_view(scoped_files(files, scope, n)) =~= scoped_view_of(files, scope, n));
    } else {
        assert(scoped_view(scoped_files(files, scope, n)) =~= scoped_view_of(files, scope, n));
    }
}

proof fn lemma_fallback_from_views(
    a: Seq<crate::resolver::SourceFile>,
    b: Seq<crate::resolver::SourceFile>,
)
    requires
        scoped_view(a) == scoped_view(b),
    ensures
        fallback_agrees(a, b),
{
    assert(a.len() == b.len()) by {
        assert(scoped_view(a).len() == a.len());
        assert(scoped_view(b).len() == b.len());
        assert(scoped_view(a).len() == scoped_view(b).len());
    }
    assert forall|q: Seq<char>|
        #[trigger] crate::resolver::fallback_refs(q, a, a.len() as nat)
            == crate::resolver::fallback_refs(q, b, b.len() as nat) by {
        lemma_fallback_pointwise(a, b, q, a.len() as nat);
    }
}

proof fn lemma_fallback_pointwise(
    a: Seq<crate::resolver::SourceFile>,
    b: Seq<crate::resolver::SourceFile>,
    q: Seq<char>,
    n: nat,
)
    requires
        scoped_view(a) == scoped_view(b),
        a.len() == b.len(),
        n <= a.len(),
    ensures
        crate::resolver::fallback_refs(q, a, n) == crate::resolver::fallback_refs(q, b, n),
    decreases n,
{
    if n > 0 {
        lemma_fallback_pointwise(a, b, q, (n - 1) as nat);
        assert(scoped_view(a)[n - 1] == scoped_view(b)[n - 1]);
        assert(a[n - 1].path@ == b[n - 1].path@);
        assert(a[n - 1].content@ == b[n - 1].content@);
    }
}

/// Builds the navigate summary.
fn build_navigate_summary(
    name: &str,
    file: &str,
    line: usize,
    ncalls: usize,
    ncalled: usize,
    nsib: usize,
) -> (r: String)
    ensures
        r@ == navigate_summary(
            name@,
            file@,
            line as nat,
            ncalls as nat,
            ncalled as nat,
            nsib as nat,
        ),
{
    let mut s = "Function '".to_owned();
    s.append(name);
    s.append("' at ");
    s.append(file);
    s.append(":");
    s.append(u64_to_dec(line as u64).as_str());
    s.append(" calls ");
    s.append(u64_to_dec(ncalls as u64).as_str());
    s.append(" functions, is called by ");
    s.append(u64_to_dec(ncalled as u64).as_str());
    s.append(" functions, and has ");
    s.append(u64_to_dec(nsib as u64).as_str());
    s.append(" siblings in the same file.");
    s
}

/// Builds the impact summary.
fn build_impact_summary(name: &str, ndirect: usize, ntrans: usize, risk: &str) -> (r: String)
    ensures
        r@ == impact_summary(name@, ndirect as nat, ntrans as nat, risk@),
{
    let mut s = "Changing '".to_owned();
    s.append(name);
    s.append("' would directly affect ");
    s.append(u64_to_dec(ndirect as u64).as_str());
    s.append(" functions and transitively impact ");
    s.append(u64_to_dec(ntrans as u64).as_str());
    s.append(" functions. Risk level: ");
    s.append(risk);
    s.append(".");
    s
}

/// Builds the find summary.
fn build_find_summary(q: &str, nmatches: usize, scope: Option<&str>) -> (r: String)
    ensures
        r@ == find_summary(
            q@,
            nmatches as nat,
            match scope {
                Some(sc) => Some(sc@),
                None => None::<Seq<char>>,
            },
            nmatches >= 10,
        ),
{
    let mut s = "Found ".to_owned();
    s.append(u64_to_dec(nmatches as u64).as_str());
    s.append(" functions matching '");
    s.append(q);
    s.append("'");
    match scope {
        Some(sc) => {
            s.append(" in ");
            s.append(sc);
        },
        None => {
            proof {
                assert(s@ + Seq::<char>::empty() =~= s@);
            }
        },
    }
    s.append(".");
    if nmatches >= 10 {
        s.append(" (showing top 10)");
    } else {
        proof {
            assert(s@ + Seq::<char>::empty() =~= s@);
        }
    }
    s
}

} // verus!
