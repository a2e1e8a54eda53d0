use codegraph::graph::{CodeGraph, Language, RelationEdge, RelationType, SymbolNode, SymbolType};
use codegraph::operations::{assess_risk_level, is_test_file, OperationHandler, OpError};
use codegraph::resolver::SourceFile;

fn sym(name: &str, file: &str, line: usize) -> SymbolNode {
    SymbolNode {
        name: name.to_string(),
        file: file.to_string(),
        line,
        language: Language::Python,
        signature: format!("def {}()", name),
        module_segments: Vec::new(),
        symbol_type: SymbolType::Function,
        visibility: None,
    }
}

fn call() -> RelationEdge {
    RelationEdge {
        relation_type: RelationType::DirectCall,
        line: 1,
        expression: "call".to_string(),
    }
}

/// A -> B -> C, direct calls only.
fn chain_graph() -> CodeGraph {
    let mut g = CodeGraph::new();
    let a = g.add_symbol(sym("A", "a.py", 1));
    let b = g.add_symbol(sym("B", "b.py", 1));
    let c = g.add_symbol(sym("C", "c.py", 1));
    g.add_relation(a, b, call());
    g.add_relation(b, c, call());
    g
}

#[test]
fn test_navigate_chain_depth_two() {
    let g = chain_graph();
    let ops = OperationHandler::new();
    let r = ops.navigate(&g, "A", Some(2), &Vec::new()).expect("navigate");
    let calls: Vec<&str> = r.calls.iter().map(|c| c.name.as_str()).collect();
    assert_eq!(calls, vec!["B", "C"]);
    assert!(r.called_by.is_empty());
    assert_eq!(r.function.name, "A");
    assert_eq!(r.function.language, "Python");
    assert_eq!(
        r.summary,
        "Function 'A' at a.py:1 calls 2 functions, is called by 0 functions, and has 0 siblings in the same file."
    );
}

#[test]
fn test_navigate_depth_one_stays_direct() {
    let g = chain_graph();
    let ops = OperationHandler::new();
    let r = ops.navigate(&g, "A", None, &Vec::new()).expect("navigate");
    let calls: Vec<&str> = r.calls.iter().map(|c| c.name.as_str()).collect();
    assert_eq!(calls, vec!["B"]);
}

#[test]
fn test_navigate_terminates_on_cycle() {
    let mut g = CodeGraph::new();
    let a = g.add_symbol(sym("A", "a.py", 1));
    let b = g.add_symbol(sym("B", "b.py", 1));
    g.add_relation(a, b, call());
    g.add_relation(b, a, call());
    let ops = OperationHandler::new();
    let r = ops.navigate(&g, "A", Some(5), &Vec::new()).expect("navigate");
    // each handle is expanded at most once: B, then A once, then the cycle stops
    let calls: Vec<&str> = r.calls.iter().map(|c| c.name.as_str()).collect();
    assert_eq!(calls, vec!["B", "A"]);
}

#[test]
fn test_navigate_rejects_bad_depth() {
    let g = chain_graph();
    let ops = OperationHandler::new();
    assert!(matches!(
        ops.navigate(&g, "A", Some(0), &Vec::new()),
        Err(OpError::InvalidInput { .. })
    ));
    assert!(matches!(
        ops.navigate(&g, "A", Some(6), &Vec::new()),
        Err(OpError::InvalidInput { .. })
    ));
}

#[test]
fn test_navigate_not_found() {
    let g = chain_graph();
    let ops = OperationHandler::new();
    match ops.navigate(&g, "missing", None, &Vec::new()) {
        Err(OpError::NotFound { name }) => assert_eq!(name, "missing"),
        other => panic!("expected not-found, got {:?}", other.map(|_| ())),
    }
}

#[test]
fn test_navigate_inconsistent_on_fallback_only_match() {
    let g = CodeGraph::new();
    let files = vec![SourceFile {
        path: "x.py".to_string(),
        content: "def ghostly():\n".to_string(),
    }];
    let ops = OperationHandler::new();
    match ops.navigate(&g, "ghostly", None, &files) {
        Err(OpError::InconsistentGraph) => {}
        other => panic!("expected inconsistent graph, got {:?}", other.map(|_| ())),
    }
}

#[test]
fn test_impact_chain() {
    let g = chain_graph();
    let ops = OperationHandler::new();
    let r = ops.analyze_impact(&g, "C", false, &Vec::new()).expect("impact");
    let direct: Vec<&str> = r.direct_callers.iter().map(|c| c.name.as_str()).collect();
    assert_eq!(direct, vec!["B"]);
    let trans: Vec<&str> = r.transitive_impact.iter().map(|c| c.name.as_str()).collect();
    assert!(trans.contains(&"A"));
    assert!(trans.contains(&"B"));
    assert_eq!(r.direct_callers.len() + r.transitive_impact.len(), 3);
    assert_eq!(r.risk_level, "medium");
    assert_eq!(
        r.summary,
        "Changing 'C' would directly affect 1 functions and transitively impact 2 functions. Risk level: medium."
    );
    assert!(r.test_files.is_empty());
    let mut affected = r.affected_files.clone();
    affected.sort();
    assert_eq!(affected, vec!["a.py".to_string(), "b.py".to_string()]);
}

#[test]
fn test_impact_collects_test_files() {
    let mut g = CodeGraph::new();
    let f = g.add_symbol(sym("f", "src/core.py", 1));
    let t = g.add_symbol(sym("check_f", "tests/test_core.py", 1));
    g.add_relation(t, f, call());
    let ops = OperationHandler::new();
    let r = ops.analyze_impact(&g, "f", true, &Vec::new()).expect("impact");
    assert_eq!(r.test_files, vec!["tests/test_core.py".to_string()]);
    assert_eq!(r.risk_level, "low");
}

#[test]
fn test_risk_boundaries() {
    assert_eq!(assess_risk_level(0), "low");
    assert_eq!(assess_risk_level(2), "low");
    assert_eq!(assess_risk_level(3), "medium");
    assert_eq!(assess_risk_level(10), "medium");
    assert_eq!(assess_risk_level(11), "high");
}

#[test]
fn test_test_file_heuristic() {
    assert!(is_test_file("src/TEST_helpers.py"));
    assert!(is_test_file("src/module.spec.js"));
    assert!(is_test_file("widget.test.js"));
    assert!(is_test_file("pkg/test_core.py"));
    assert!(!is_test_file("src/main.py"));
}

#[test]
fn test_find_groups_by_file() {
    let g = CodeGraph::new();
    let files = vec![
        SourceFile {
            path: "one.py".to_string(),
            content: "def zzz():\n".to_string(),
        },
        SourceFile {
            path: "two.py".to_string(),
            content: "zzz(1)\n".to_string(),
        },
    ];
    let ops = OperationHandler::new();
    let r = ops.find_functions(&g, "zzz", None, &files).expect("find");
    assert_eq!(r.matches.len(), 2);
    assert_eq!(r.matches[0].file, "one.py");
    assert_eq!(r.matches[0].confidence, 900);
    assert_eq!(r.grouped_by_file.len(), 2);
    assert_eq!(r.grouped_by_file[0].file, "one.py");
    assert_eq!(r.grouped_by_file[0].refs.len(), 1);
    assert_eq!(r.summary, "Found 2 functions matching 'zzz'.");
}

#[test]
fn test_find_respects_scope() {
    let g = CodeGraph::new();
    let files = vec![
        SourceFile {
            path: "src/one.py".to_string(),
            content: "def zzz():\n".to_string(),
        },
        SourceFile {
            path: "other/two.py".to_string(),
            content: "def zzz():\n".to_string(),
        },
    ];
    let ops = OperationHandler::new();
    let r = ops.find_functions(&g, "zzz", Some("src"), &files).expect("find");
    assert_eq!(r.matches.len(), 1);
    assert_eq!(r.matches[0].file, "src/one.py");
    assert_eq!(r.summary, "Found 1 functions matching 'zzz' in src.");
}

#[test]
fn test_error_messages() {
    let nf = OpError::NotFound { name: "foo".to_string() };
    assert_eq!(nf.message(), "Function 'foo' not found");
    assert_eq!(OpError::InconsistentGraph.message(), "Function node not found in graph");
}

#[test]
fn test_navigate_reports_siblings() {
    let mut g = CodeGraph::new();
    g.add_symbol(sym("first", "same.py", 1));
    g.add_symbol(sym("second", "same.py", 9));
    g.add_symbol(sym("elsewhere", "other.py", 1));
    let ops = OperationHandler::new();
    let r = ops.navigate(&g, "first", None, &Vec::new()).expect("navigate");
    let sibs: Vec<&str> = r.siblings.iter().map(|c| c.name.as_str()).collect();
    assert_eq!(sibs, vec!["second"]);
    assert_eq!(r.siblings[0].confidence, 1000);
}

#[test]
fn test_find_summary_notes_truncation_at_cap() {
    let g = CodeGraph::new();
    let mut content = String::new();
    for _ in 0..15 {
        content.push_str("def walled():\n");
    }
    let files = vec![SourceFile { path: "w.py".to_string(), content }];
    let ops = OperationHandler::new();
    let r = ops.find_functions(&g, "walled", None, &files).expect("find");
    assert_eq!(r.matches.len(), 10);
    assert_eq!(r.summary, "Found 10 functions matching 'walled'. (showing top 10)");
}
