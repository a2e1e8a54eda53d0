use codegraph::graph::{CodeGraph, Language, RelationEdge, RelationType, SymbolNode, SymbolType};

fn sym(name: &str, file: &str, line: usize) -> SymbolNode {
    SymbolNode {
        name: name.to_string(),
        file: file.to_string(),
        line,
        language: Language::Python,
        signature: format!("def {}()", name),
        module_segments: vec![name.to_string()],
        symbol_type: SymbolType::Function,
        visibility: Some("public".to_string()),
    }
}

fn call_edge(line: usize, expr: &str) -> RelationEdge {
    RelationEdge {
        relation_type: RelationType::DirectCall,
        line,
        expression: expr.to_string(),
    }
}

#[test]
fn test_find_exact_returns_added_symbol() {
    let mut g = CodeGraph::new();
    let a = g.add_symbol(sym("alpha", "a.py", 1));
    let b = g.add_symbol(sym("beta", "b.py", 2));
    let a2 = g.add_symbol(sym("alpha", "c.py", 3));
    assert_eq!(g.node_count(), 3);
    assert_eq!(g.find_exact("alpha"), Some(a));
    assert_eq!(g.find_exact("beta"), Some(b));
    assert_eq!(g.find_exact("gamma"), None);
    assert_ne!(g.find_exact("alpha"), Some(a2));
    let stored = g.symbol(g.find_exact("alpha").unwrap()).unwrap();
    assert_eq!(stored.name, "alpha");
}

#[test]
fn test_find_by_pattern_and_type() {
    let mut g = CodeGraph::new();
    g.add_symbol(sym("create_user", "u.py", 1));
    g.add_symbol(sym("delete_user", "u.py", 5));
    let mut other = sym("Config", "c.py", 1);
    other.symbol_type = SymbolType::Class;
    g.add_symbol(other);
    let users = g.find_by_pattern("user");
    assert_eq!(users, vec![0, 1]);
    assert_eq!(g.find_by_pattern("zz"), Vec::<usize>::new());
    assert_eq!(g.find_by_type(SymbolType::Class), vec![2]);
    assert_eq!(g.find_by_type(SymbolType::Function), vec![0, 1]);
}

#[test]
fn test_callers_callees_and_siblings() {
    let mut g = CodeGraph::new();
    let a = g.add_symbol(sym("a", "one.py", 1));
    let b = g.add_symbol(sym("b", "one.py", 9));
    let c = g.add_symbol(sym("c", "two.py", 1));
    g.add_relation(a, b, call_edge(2, "b()"));
    g.add_relation(c, b, call_edge(3, "b()"));
    let mut callers = g.get_callers(b);
    callers.sort();
    assert_eq!(callers, vec![a, c]);
    assert_eq!(g.get_callees(a), vec![b]);
    assert_eq!(g.get_callees(b), Vec::<usize>::new());
    assert_eq!(g.get_siblings(a), vec![b]);
    assert_eq!(g.get_siblings(c), Vec::<usize>::new());
    // a foreign handle yields nothing
    assert_eq!(g.get_callers(99), Vec::<usize>::new());
    assert_eq!(g.get_siblings(99), Vec::<usize>::new());
}

#[test]
fn test_add_relation_defensive_noop() {
    let mut g = CodeGraph::new();
    let a = g.add_symbol(sym("a", "a.py", 1));
    g.add_relation(a, 42, call_edge(1, "nope()"));
    g.add_relation(42, a, call_edge(1, "nope()"));
    assert_eq!(g.edge_count(), 0);
    g.add_relation(a, a, call_edge(2, "a()"));
    assert_eq!(g.edge_count(), 1);
    let (from, to, e) = g.relation(0).unwrap();
    assert_eq!((from, to), (a, a));
    assert_eq!(e.expression, "a()");
    assert!(g.relation(1).is_none());
}
