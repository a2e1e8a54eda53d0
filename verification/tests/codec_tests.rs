use codegraph::codec::CodecError;
use codegraph::graph::{CodeGraph, Language, RelationEdge, RelationType, SymbolNode, SymbolType};

fn sym(name: &str, file: &str, line: usize, vis: Option<&str>) -> SymbolNode {
    SymbolNode {
        name: name.to_string(),
        file: file.to_string(),
        line,
        language: Language::Rust,
        signature: format!("fn {}()", name),
        module_segments: vec!["pkg".to_string(), name.to_string()],
        symbol_type: SymbolType::Function,
        visibility: vis.map(|v| v.to_string()),
    }
}

fn key_triples(g: &CodeGraph) -> Vec<(String, String, usize)> {
    let mut v = Vec::new();
    for i in 0..g.node_count() {
        let s = g.symbol(i).unwrap();
        v.push((s.name, s.file, s.line));
    }
    v.sort();
    v
}

#[test]
fn test_round_trip_preserves_symbols_and_relations() {
    let mut g = CodeGraph::new();
    let a = g.add_symbol(sym("alpha", "a.rs", 3, Some("pub")));
    let b = g.add_symbol(sym("beta", "b.rs", 14, None));
    g.add_relation(a, b, RelationEdge {
        relation_type: RelationType::MethodCall,
        line: 5,
        expression: "beta()".to_string(),
    });
    let bytes = g.serialize().expect("serialize");
    let g2 = CodeGraph::deserialize(&bytes).expect("deserialize");
    assert_eq!(key_triples(&g2), key_triples(&g));
    assert_eq!(g2.edge_count(), g.edge_count());
    let (from, to, e) = g2.relation(0).unwrap();
    assert_eq!((from, to), (a, b));
    assert_eq!(e.expression, "beta()");
    assert!(matches!(e.relation_type, RelationType::MethodCall));
    let s = g2.symbol(a).unwrap();
    assert_eq!(s.name, "alpha");
    assert_eq!(s.visibility.as_deref(), Some("pub"));
    assert_eq!(s.module_segments, vec!["pkg".to_string(), "alpha".to_string()]);
    assert!(matches!(s.language, Language::Rust));
}

#[test]
fn test_round_trip_empty_store() {
    let g = CodeGraph::new();
    let bytes = g.serialize().expect("serialize");
    let g2 = CodeGraph::deserialize(&bytes).expect("deserialize");
    assert_eq!(g2.node_count(), 0);
    assert_eq!(g2.edge_count(), 0);
}

#[test]
fn test_deserialize_rejects_garbage() {
    let garbage = vec![7u8, 1, 2, 3];
    match CodeGraph::deserialize(&garbage) {
        Err(CodecError::MalformedData) => {}
        other => panic!("expected malformed-data error, got {:?}", other.map(|_| ())),
    }
}
