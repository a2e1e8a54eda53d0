//! The graph store: symbols, relations, and the lookup queries over them.
//!
//! Symbols and relations live in a `petgraph` directed graph; everything the
//! store promises is stated over the two sequences `nodes_of` and `edges_of`,
//! the (trusted) mathematical contents of that graph.

use vstd::prelude::*;

verus! {

/// Source language a symbol was extracted from.
#[derive(Debug, Clone, Copy, PartialEq, Eq, Structural)]
pub enum Language {
    Python,
    JavaScript,
    TypeScript,
    Rust,
}

/// Category of a stored symbol.
#[derive(Debug, Clone, Copy, PartialEq, Eq, Structural)]
pub enum SymbolType {
    Function,
    Class,
    Struct,
    Variable,
    Constant,
    Interface,
    Enum,
}

/// Category of a relation between two symbols. Relations are heuristic
/// evidence: false positives and negatives are expected and tolerated.
#[derive(Debug, Clone, Copy, PartialEq, Eq, Structural)]
pub enum RelationType {
    DirectCall,
    Import,
    DynamicCall,
    MethodCall,
    Instantiation,
    Inheritance,
    FieldAccess,
    Assignment,
    Reference,
}

/// A named code entity at a specific file and line.
#[derive(Debug, Clone)]
pub struct SymbolNode {
    pub name: String,
    pub file: String,
    pub line: usize,
    pub language: Language,
    pub signature: String,
    pub module_segments: Vec<String>,
    pub symbol_type: SymbolType,
    pub visibility: Option<String>,
}

/// Mathematical value of a `SymbolNode`.
#[verifier::ext_equal]
pub ghost struct SymbolData {
    pub name: Seq<char>,
    pub file: Seq<char>,
    pub line: nat,
    pub language: Language,
    pub signature: Seq<char>,
    pub module_segments: Seq<Seq<char>>,
    pub symbol_type: SymbolType,
    pub visibility: Option<Seq<char>>,
}

impl View for SymbolNode {
    type V = SymbolData;

    open spec fn view(&self) -> SymbolData {
        SymbolData {
            name: self.name@,
            file: self.file@,
            line: self.line as nat,
            language: self.language,
            signature: self.signature@,
            module_segments: Seq::new(self.module_segments@.len(), |i: int| self.module_segments@[i]@),
            symbol_type: self.symbol_type,
            visibility: match self.visibility {
                Some(v) => Some(v@),
                None => None,
            },
        }
    }
}

/// A directed, typed edge between two symbols.
#[derive(Debug, Clone)]
pub struct RelationEdge {
    pub relation_type: RelationType,
    pub line: usize,
    pub expression: String,
}

/// Mathematical value of a `RelationEdge`.
#[verifier::ext_equal]
pub ghost struct RelationData {
    pub relation_type: RelationType,
    pub line: nat,
    pub expression: Seq<char>,
}

impl View for RelationEdge {
    type V = RelationData;

    open spec fn view(&self) -> RelationData {
        RelationData {
            relation_type: self.relation_type,
            line: self.line as nat,
            expression: self.expression@,
        }
    }
}

#[verifier::external_type_specification]
#[verifier::external_body]
#[verifier::reject_recursive_types(N)]
#[verifier::reject_recursive_types(E)]
#[verifier::reject_recursive_types(Ty)]
#[verifier::reject_recursive_types(Ix)]
pub struct ExPetgraphGraph<N, E, Ty, Ix>(petgraph::graph::Graph<N, E, Ty, Ix>);

#[verifier::external_type_specification]
#[verifier::external_body]
pub struct ExPetgraphDirected(petgraph::Directed);

/// The symbols held by a petgraph graph, in insertion order.
pub uninterp spec fn nodes_of(g: petgraph::graph::DiGraph<SymbolNode, RelationEdge>) -> Seq<
    SymbolNode,
>;

/// The edges held by a petgraph graph, in insertion order, each as
/// (source index, target index, edge data).
pub uninterp spec fn edges_of(g: petgraph::graph::DiGraph<SymbolNode, RelationEdge>) -> Seq<
    (usize, usize, RelationEdge),
>;

/// Targets of the edges leaving `a`, newest edge first, as petgraph's
/// `neighbors_directed(a, Outgoing)` walks them.
pub open spec fn rev_targets(es: Seq<(usize, usize, RelationEdge)>, a: usize) -> Seq<usize>
    decreases es.len(),
{
    if es.len() == 0 {
        Seq::empty()
    } else if es.last().0 == a {
        seq![es.last().1] + rev_targets(es.drop_last(), a)
    } else {
        rev_targets(es.drop_last(), a)
    }
}

/// Sources of the edges entering `a`, newest edge first, as petgraph's
/// `neighbors_directed(a, Incoming)` walks them.
pub open spec fn rev_sources(es: Seq<(usize, usize, RelationEdge)>, a: usize) -> Seq<usize>
    decreases es.len(),
{
    if es.len() == 0 {
        Seq::empty()
    } else if es.last().1 == a {
        seq![es.last().0] + rev_sources(es.drop_last(), a)
    } else {
        rev_sources(es.drop_last(), a)
    }
}

pub proof fn lemma_rev_neighbors_bounds(es: Seq<(usize, usize, RelationEdge)>, a: usize, n: nat)
    requires
        forall|j: int| 0 <= j < es.len() ==> (#[trigger] es[j]).0 < n && es[j].1 < n,
    ensures
        forall|k: int|
            0 <= k < rev_sources(es, a).len() ==> (#[trigger] rev_sources(es, a)[k]) < n,
        forall|k: int|
            0 <= k < rev_targets(es, a).len() ==> (#[trigger] rev_targets(es, a)[k]) < n,
    decreases es.len(),
{
    if es.len() > 0 {
        let t = es.drop_last();
        assert(forall|j: int| 0 <= j < t.len() ==> t[j] == es[j]);
        lemma_rev_neighbors_bounds(t, a, n);
        assert(es.last() == es[es.len() - 1]);
        if es.last().1 == a {
            assert(forall|k: int|
                1 <= k < rev_sources(es, a).len() ==> rev_sources(es, a)[k] == rev_sources(
                    t,
                    a,
                )[k - 1]);
        } else {
            assert(rev_sources(es, a) == rev_sources(t, a));
        }
        if es.last().0 == a {
            assert(forall|k: int|
                1 <= k < rev_targets(es, a).len() ==> rev_targets(es, a)[k] == rev_targets(
                    t,
                    a,
                )[k - 1]);
        } else {
            assert(rev_targets(es, a) == rev_targets(t, a));
        }
    }
}

pub proof fn lemma_sibling_indices_bounds(nodes: Seq<SymbolNode>, node: usize, n: nat)
    ensures
        forall|k: int|
            0 <= k < sibling_indices(nodes, node, n).len() ==> (#[trigger] sibling_indices(
                nodes,
                node,
                n,
            )[k]) < n,
    decreases n,
{
    if n > 0 {
        lemma_sibling_indices_bounds(nodes, node, (n - 1) as nat);
        let prev = sibling_indices(nodes, node, (n - 1) as nat);
        let whole = sibling_indices(nodes, node, n);
        assert(forall|k: int| 0 <= k < prev.len() ==> whole[k] == prev[k]);
    }
}

/// Relies on petgraph's `DiGraph::new`: a fresh graph has no nodes and no
/// edges.
#[verifier::external_body]
fn pg_new() -> (g: petgraph::graph::DiGraph<SymbolNode, RelationEdge>)
    ensures
        nodes_of(g) == Seq::<SymbolNode>::empty(),
        edges_of(g) == Seq::<(usize, usize, RelationEdge)>::empty(),
{
    petgraph::graph::DiGraph::new()
}

/// Relies on petgraph's `Graph::add_node`: appends the node and returns its
/// index, which equals the node count before the call. The index-limit panic
/// is excluded by the precondition.
#[verifier::external_body]
fn pg_add_node(g: &mut petgraph::graph::DiGraph<SymbolNode, RelationEdge>, n: SymbolNode) -> (i:
    usize)
    requires
        nodes_of(*old(g)).len() < 0xFFFF_FFFFusize,
    ensures
        i == nodes_of(*old(g)).len(),
        nodes_of(*final(g)) == nodes_of(*old(g)).push(n),
        edges_of(*final(g)) == edges_of(*old(g)),
{
    g.add_node(n).index()
}

/// Relies on petgraph's `Graph::add_edge`: appends the edge. The
/// out-of-bounds and index-limit panics are excluded by the preconditions.
#[verifier::external_body]
fn pg_add_edge(
    g: &mut petgraph::graph::DiGraph<SymbolNode, RelationEdge>,
    a: usize,
    b: usize,
    e: RelationEdge,
)
    requires
        a < nodes_of(*old(g)).len(),
        b < nodes_of(*old(g)).len(),
        edges_of(*old(g)).len() < 0xFFFF_FFFFusize,
    ensures
        nodes_of(*final(g)) == nodes_of(*old(g)),
        edges_of(*final(g)) == edges_of(*old(g)).push((a, b, e)),
{
    g.add_edge(petgraph::graph::NodeIndex::new(a), petgraph::graph::NodeIndex::new(b), e);
}

/// Relies on petgraph's `Graph::node_count`: the number of nodes.
#[verifier::external_body]
fn pg_node_count(g: &petgraph::graph::DiGraph<SymbolNode, RelationEdge>) -> (n: usize)
    ensures
        n == nodes_of(*g).len(),
{
    g.node_count()
}

/// Relies on petgraph's `Graph::edge_count`: the number of edges.
#[verifier::external_body]
fn pg_edge_count(g: &petgraph::graph::DiGraph<SymbolNode, RelationEdge>) -> (n: usize)
    ensures
        n == edges_of(*g).len(),
{
    g.edge_count()
}

/// Relies on petgraph's `Graph::node_weight`: the data of node `i`.
#[verifier::external_body]
fn pg_node(g: &petgraph::graph::DiGraph<SymbolNode, RelationEdge>, i: usize) -> (n: SymbolNode)
    requires
        i < nodes_of(*g).len(),
    ensures
        n == nodes_of(*g)[i as int],
{
    g.node_weight(petgraph::graph::NodeIndex::new(i)).unwrap().clone()
}

/// Relies on petgraph's `Graph::edge_endpoints`: source and target of edge
/// `j`.
#[verifier::external_body]
fn pg_edge_endpoints(g: &petgraph::graph::DiGraph<SymbolNode, RelationEdge>, j: usize) -> (r: (
    usize,
    usize,
))
    requires
        j < edges_of(*g).len(),
    ensures
        r.0 == edges_of(*g)[j as int].0,
        r.1 == edges_of(*g)[j as int].1,
{
    let (a, b) = g.edge_endpoints(petgraph::graph::EdgeIndex::new(j)).unwrap();
    (a.index(), b.index())
}

/// Relies on petgraph's `Graph::edge_weight`: the data of edge `j`.
#[verifier::external_body]
fn pg_edge_weight(g: &petgraph::graph::DiGraph<SymbolNode, RelationEdge>, j: usize) -> (e:
    RelationEdge)
    requires
        j < edges_of(*g).len(),
    ensures
        e == edges_of(*g)[j as int].2,
{
    g.edge_weight(petgraph::graph::EdgeIndex::new(j)).unwrap().clone()
}

/// Relies on petgraph's `Graph::neighbors_directed` with `Outgoing`: yields
/// the target of each edge leaving `a`, newest edge first.
#[verifier::external_body]
fn pg_neighbors_out(g: &petgraph::graph::DiGraph<SymbolNode, RelationEdge>, a: usize) -> (r: Vec<
    usize,
>)
    requires
        a < nodes_of(*g).len(),
    ensures
        r@ == rev_targets(edges_of(*g), a),
{
    g.neighbors_directed(petgraph::graph::NodeIndex::new(a), petgraph::Direction::Outgoing).map(
        |x: petgraph::graph::NodeIndex| x.index(),
    ).collect()
}

/// Relies on petgraph's `Graph::neighbors_directed` with `Incoming`: yields
/// the source of each edge entering `a`, newest edge first.
#[verifier::external_body]
fn pg_neighbors_in(g: &petgraph::graph::DiGraph<SymbolNode, RelationEdge>, a: usize) -> (r: Vec<
    usize,
>)
    requires
        a < nodes_of(*g).len(),
    ensures
        r@ == rev_sources(edges_of(*g), a),
{
    g.neighbors_directed(petgraph::graph::NodeIndex::new(a), petgraph::Direction::Incoming).map(
        |x: petgraph::graph::NodeIndex| x.index(),
    ).collect()
}

/// Mathematical value of one stored relation: endpoints and edge data.
#[verifier::ext_equal]
pub ghost struct EdgeRec {
    pub from: u64,
    pub to: u64,
    pub relation_type: RelationType,
    pub line: nat,
    pub expression: Seq<char>,
}

/// Index of the first symbol whose name is `name`, scanning in insertion
/// order.
pub open spec fn find_first_named(nodes: Seq<SymbolNode>, name: Seq<char>) -> Option<int>
    decreases nodes.len(),
{
    if nodes.len() == 0 {
        None
    } else if nodes[0]@.name == name {
        Some(0int)
    } else {
        match find_first_named(nodes.drop_first(), name) {
            Some(j) => Some(j + 1),
            None => None,
        }
    }
}

pub proof fn lemma_find_first_named_props(nodes: Seq<SymbolNode>, name: Seq<char>)
    ensures
        match find_first_named(nodes, name) {
            Some(j) => 0 <= j < nodes.len() && nodes[j]@.name == name,
            None => true,
        },
    decreases nodes.len(),
{
    if nodes.len() > 0 && nodes[0]@.name != name {
        lemma_find_first_named_props(nodes.drop_first(), name);
    }
}

/// Every stored symbol is found by an exact-name lookup of its own name:
/// the lookup returns a handle whose stored name equals the queried name.
pub proof fn lemma_find_exact_added(nodes: Seq<SymbolNode>, i: int)
    requires
        0 <= i < nodes.len(),
    ensures
        find_first_named(nodes, nodes[i]@.name) matches Some(j) && 0 <= j < nodes.len()
            && nodes[j]@.name == nodes[i]@.name,
    decreases nodes.len(),
{
    if nodes[0]@.name == nodes[i]@.name {
        lemma_find_first_named_props(nodes, nodes[i]@.name);
    } else {
        let rest = nodes.drop_first();
        lemma_find_exact_added(rest, i - 1);
        lemma_find_first_named_props(nodes, nodes[i]@.name);
        if find_first_named(nodes, nodes[i]@.name) is None {
            assert(find_first_named(rest, nodes[i]@.name) is None);
        }
    }
}

pub proof fn lemma_find_first_named_some(nodes: Seq<SymbolNode>, name: Seq<char>, i: int)
    requires
        0 <= i < nodes.len(),
        nodes[i]@.name == name,
        forall|k: int| 0 <= k < i ==> (#[trigger] nodes[k])@.name != name,
    ensures
        find_first_named(nodes, name) == Some(i),
    decreases i,
{
    if i == 0 {
    } else {
        lemma_find_first_named_some(nodes.drop_first(), name, i - 1);
    }
}

pub proof fn lemma_find_first_named_none(nodes: Seq<SymbolNode>, name: Seq<char>)
    requires
        forall|k: int| 0 <= k < nodes.len() ==> (#[trigger] nodes[k])@.name != name,
    ensures
        find_first_named(nodes, name) is None,
    decreases nodes.len(),
{
    if nodes.len() > 0 {
        lemma_find_first_named_none(nodes.drop_first(), name);
    }
}

/// The indices below `n` of symbols whose name contains `pat`, in
/// increasing order.
pub open spec fn pattern_indices(nodes: Seq<SymbolNode>, pat: Seq<char>, n: nat) -> Seq<usize>
    decreases n,
{
    if n == 0 {
        Seq::empty()
    } else {
        pattern_indices(nodes, pat, (n - 1) as nat) + if crate::text::spec_contains(
            nodes[n - 1]@.name,
            pat,
        ) {
            seq![((n - 1) as usize)]
        } else {
            Seq::empty()
        }
    }
}

/// The indices below `n` of symbols of category `t`, in increasing order.
pub open spec fn type_indices(nodes: Seq<SymbolNode>, t: SymbolType, n: nat) -> Seq<usize>
    decreases n,
{
    if n == 0 {
        Seq::empty()
    } else {
        type_indices(nodes, t, (n - 1) as nat) + if nodes[n - 1]@.symbol_type == t {
            seq![((n - 1) as usize)]
        } else {
            Seq::empty()
        }
    }
}

/// The indices below `n` of symbols other than `node` that share its file,
/// in increasing order.
pub open spec fn sibling_indices(nodes: Seq<SymbolNode>, node: usize, n: nat) -> Seq<usize>
    decreases n,
{
    if n == 0 {
        Seq::empty()
    } else {
        sibling_indices(nodes, node, (n - 1) as nat) + if n - 1 != node && nodes[n - 1]@.file
            == nodes[node as int]@.file {
            seq![((n - 1) as usize)]
        } else {
            Seq::empty()
        }
    }
}

/// The store: a symbol arena with directed relations. Handles are the
/// insertion indices of the symbols.
pub struct CodeGraph {
    graph: petgraph::graph::DiGraph<SymbolNode, RelationEdge>,
}

impl CodeGraph {
    /// The symbols of the store, in insertion order.
    pub closed spec fn nodes(&self) -> Seq<SymbolNode> {
        nodes_of(self.graph)
    }

    /// The relations of the store, in insertion order.
    pub closed spec fn edges(&self) -> Seq<(usize, usize, RelationEdge)> {
        edges_of(self.graph)
    }

    /// The symbols of the store as mathematical values, in insertion order.
    pub open spec fn syms_view(&self) -> Seq<SymbolData> {
        Seq::new(self.nodes().len(), |i: int| self.nodes()[i]@)
    }

    /// The relations of the store as mathematical values, in insertion order.
    pub open spec fn rels_view(&self) -> Seq<EdgeRec> {
        Seq::new(
            self.edges().len(),
            |j: int|
                EdgeRec {
                    from: self.edges()[j].0 as u64,
                    to: self.edges()[j].1 as u64,
                    relation_type: self.edges()[j].2@.relation_type,
                    line: self.edges()[j].2@.line,
                    expression: self.edges()[j].2@.expression,
                },
        )
    }

    /// Every relation's endpoints reference existing symbols, and both
    /// arenas stay within the handle-index limit.
    pub open spec fn wf(&self) -> bool {
        &&& forall|j: int|
            0 <= j < self.edges().len() ==> (#[trigger] self.edges()[j]).0 < self.nodes().len()
                && self.edges()[j].1 < self.nodes().len()
        &&& self.nodes().len() <= 0xFFFF_FFFFusize
        &&& self.edges().len() <= 0xFFFF_FFFFusize
    }

    pub fn new() -> (g: CodeGraph)
        ensures
            g.nodes() == Seq::<SymbolNode>::empty(),
            g.edges() == Seq::<(usize, usize, RelationEdge)>::empty(),
            g.wf(),
    {
        CodeGraph { graph: pg_new() }
    }

    pub fn node_count(&self) -> (n: usize)
        ensures
            n == self.nodes().len(),
    {
        pg_node_count(&self.graph)
    }

    pub fn edge_count(&self) -> (n: usize)
        ensures
            n == self.edges().len(),
    {
        pg_edge_count(&self.graph)
    }

    /// The symbol a handle refers to, or `None` for a foreign handle.
    pub fn symbol(&self, i: usize) -> (r: Option<SymbolNode>)
        ensures
            r == if i < self.nodes().len() {
                Some(self.nodes()[i as int])
            } else {
                None::<SymbolNode>
            },
    {
        if i < pg_node_count(&self.graph) {
            Some(pg_node(&self.graph, i))
        } else {
            None
        }
    }

    /// Inserts a symbol and returns its stable handle.
    pub fn add_symbol(&mut self, symbol: SymbolNode) -> (i: usize)
        requires
            old(self).nodes().len() < 0xFFFF_FFFFusize,
            old(self).wf(),
        ensures
            i == old(self).nodes().len(),
            final(self).nodes() == old(self).nodes().push(symbol),
            final(self).edges() == old(self).edges(),
            final(self).wf(),
    {
        pg_add_node(&mut self.graph, symbol)
    }

    /// Records a relation between two handles; a defensive no-op when either
    /// handle is invalid or the edge arena is full.
    pub fn add_relation(&mut self, from: usize, to: usize, edge: RelationEdge)
        requires
            old(self).wf(),
        ensures
            final(self).nodes() == old(self).nodes(),
            final(self).edges() == if from < old(self).nodes().len() && to < old(self).nodes().len()
                && old(self).edges().len() < 0xFFFF_FFFFusize {
                old(self).edges().push((from, to, edge))
            } else {
                old(self).edges()
            },
            final(self).wf(),
    {
        let n = pg_node_count(&self.graph);
        if from < n && to < n && pg_edge_count(&self.graph) < 0xFFFF_FFFFusize {
            pg_add_edge(&mut self.graph, from, to, edge);
        }
    }

    /// The relation a handle refers to, as (source, target, edge data), or
    /// `None` for a foreign handle.
    pub fn relation(&self, j: usize) -> (r: Option<(usize, usize, RelationEdge)>)
        ensures
            r == if j < self.edges().len() {
                Some(self.edges()[j as int])
            } else {
                None::<(usize, usize, RelationEdge)>
            },
    {
        if j < pg_edge_count(&self.graph) {
            let (a, b) = pg_edge_endpoints(&self.graph, j);
            let w = pg_edge_weight(&self.graph, j);
            proof {
                let ghost e = self.edges()[j as int];
                assert((a, b, w) == e);
            }
            Some((a, b, w))
        } else {
            None
        }
    }

    /// The handle of the first-inserted symbol named exactly `name`, if any.
    pub fn find_exact(&self, name: &str) -> (r: Option<usize>)
        ensures
            match r {
                Some(i) => find_first_named(self.nodes(), name@) == Some(i as int),
                None => find_first_named(self.nodes(), name@) is None,
            },
    {
        let n = pg_node_count(&self.graph);
        let mut i: usize = 0;
        while i < n
            invariant
                0 <= i <= n,
                n == self.nodes().len(),
                forall|k: int| 0 <= k < i ==> (#[trigger] self.nodes()[k])@.name != name@,
            decreases n - i,
        {
            let sym = pg_node(&self.graph, i);
            if crate::text::eq_str(sym.name.as_str(), name) {
                proof {
                    lemma_find_first_named_some(self.nodes(), name@, i as int);
                }
                return Some(i);
            }
            i += 1;
        }
        proof {
            lemma_find_first_named_none(self.nodes(), name@);
        }
        None
    }

    /// Handles of every symbol whose name contains `pattern`, in insertion
    /// order.
    pub fn find_by_pattern(&self, pattern: &str) -> (r: Vec<usize>)
        ensures
            r@ == pattern_indices(self.nodes(), pattern@, self.nodes().len()),
    {
        let n = pg_node_count(&self.graph);
        let mut out: Vec<usize> = Vec::new();
        let mut i: usize = 0;
        while i < n
            invariant
                0 <= i <= n,
                n == self.nodes().len(),
                out@ == pattern_indices(self.nodes(), pattern@, i as nat),
            decreases n - i,
        {
            let sym = pg_node(&self.graph, i);
            let hit = crate::text::contains_str(sym.name.as_str(), pattern);
            if hit {
                out.push(i);
            }
            proof {
                assert(sym@.name == self.nodes()[i as int]@.name);
                assert(out@ =~= pattern_indices(self.nodes(), pattern@, (i + 1) as nat));
            }
            i += 1;
        }
        out
    }

    /// Handles of every symbol of the given category, in insertion order.
    pub fn find_by_type(&self, symbol_type: SymbolType) -> (r: Vec<usize>)
        ensures
            r@ == type_indices(self.nodes(), symbol_type, self.nodes().len()),
    {
        let n = pg_node_count(&self.graph);
        let mut out: Vec<usize> = Vec::new();
        let mut i: usize = 0;
        while i < n
            invariant
                0 <= i <= n,
                n == self.nodes().len(),
                out@ == type_indices(self.nodes(), symbol_type, i as nat),
            decreases n - i,
        {
            let sym = pg_node(&self.graph, i);
            let hit = sym.symbol_type == symbol_type;
            if hit {
                out.push(i);
            }
            proof {
                assert(sym@.symbol_type == self.nodes()[i as int]@.symbol_type);
                assert(out@ =~= type_indices(self.nodes(), symbol_type, (i + 1) as nat));
            }
            i += 1;
        }
        out
    }

    /// Handles of the other symbols defined in the same file as `node`, in
    /// insertion order; empty for a foreign handle.
    pub fn get_siblings(&self, node: usize) -> (r: Vec<usize>)
        ensures
            r@ == if node < self.nodes().len() {
                sibling_indices(self.nodes(), node, self.nodes().len())
            } else {
                Seq::<usize>::empty()
            },
    {
        let n = pg_node_count(&self.graph);
        if node >= n {
            return Vec::new();
        }
        let own = pg_node(&self.graph, node);
        let mut out: Vec<usize> = Vec::new();
        let mut i: usize = 0;
        while i < n
            invariant
                0 <= i <= n,
                node < n,
                n == self.nodes().len(),
                own == self.nodes()[node as int],
                out@ == sibling_indices(self.nodes(), node, i as nat),
            decreases n - i,
        {
            let sym = pg_node(&self.graph, i);
            let hit = i != node && crate::text::eq_str(sym.file.as_str(), own.file.as_str());
            if hit {
                out.push(i);
            }
            proof {
                assert(sym@.file == self.nodes()[i as int]@.file);
                assert(own@.file == self.nodes()[node as int]@.file);
                assert(out@ =~= sibling_indices(self.nodes(), node, (i + 1) as nat));
            }
            i += 1;
        }
        out
    }

    /// Direct callers of a handle: sources of its incoming relations,
    /// newest first; may contain duplicates; empty for a foreign handle.
    pub fn get_callers(&self, node: usize) -> (r: Vec<usize>)
        ensures
            r@ == if node < self.nodes().len() {
                rev_sources(self.edges(), node)
            } else {
                Seq::<usize>::empty()
            },
    {
        if node < pg_node_count(&self.graph) {
            pg_neighbors_in(&self.graph, node)
        } else {
            Vec::new()
        }
    }

    /// Direct callees of a handle: targets of its outgoing relations,
    /// newest first; may contain duplicates; empty for a foreign handle.
    pub fn get_callees(&self, node: usize) -> (r: Vec<usize>)
        ensures
            r@ == if node < self.nodes().len() {
                rev_targets(self.edges(), node)
            } else {
                Seq::<usize>::empty()
            },
    {
        if node < pg_node_count(&self.graph) {
            pg_neighbors_out(&self.graph, node)
        } else {
            Vec::new()
        }
    }
}

} // verus!
