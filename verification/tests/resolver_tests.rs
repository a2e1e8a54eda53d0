use codegraph::graph::{CodeGraph, Language, SymbolNode, SymbolType, RelationEdge, RelationType};
use codegraph::resolver::{FunctionResolver, SourceFile};

fn sym(name: &str, file: &str, line: usize) -> SymbolNode {
    SymbolNode {
        name: name.to_string(),
        file: file.to_string(),
        line,
        language: Language::Python,
        signature: format!("def {}()", name),
        module_segments: Vec::new(),
        symbol_type: SymbolType::Function,
        visibility: None,
    }
}

#[test]
fn test_exact_match_ranks_first() {
    let mut g = CodeGraph::new();
    g.add_symbol(sym("domain_x", "d.py", 8));
    g.add_symbol(sym("main", "m.py", 1));
    let r = FunctionResolver::new();
    let out = r.resolve_function_reference("main", &g, &Vec::new());
    assert!(!out.is_empty());
    assert_eq!(out[0].name, "main");
    assert_eq!(out[0].confidence, 1000);
    assert_eq!(out[0].file, "m.py");
}

#[test]
fn test_fuzzy_match_found_through_substring() {
    let mut g = CodeGraph::new();
    g.add_symbol(sym("create_user", "u.py", 2));
    let r = FunctionResolver::new();
    let out = r.resolve_function_reference("user", &g, &Vec::new());
    assert!(out.iter().any(|c| c.name == "create_user" && c.confidence > 300));
}

#[test]
fn test_fallback_definition_scores() {
    let g = CodeGraph::new();
    let files = vec![SourceFile {
        path: "lib.py".to_string(),
        content: "def hidden_fn(a):\n    return hidden_fn(a)\n".to_string(),
    }];
    let r = FunctionResolver::new();
    let out = r.resolve_function_reference("hidden_fn", &g, &files);
    assert_eq!(out.len(), 2);
    assert_eq!(out[0].line, 1);
    assert_eq!(out[0].confidence, 900);
    assert_eq!(out[0].signature, "def hidden_fn(a):");
    assert_eq!(out[1].line, 2);
    assert!(out[1].confidence <= 600);
    assert_eq!(out[1].confidence, 600);
    assert_eq!(out[0].name, "hidden_fn");
}

#[test]
fn test_fallback_other_shapes() {
    let g = CodeGraph::new();
    let files = vec![SourceFile {
        path: "app.js".to_string(),
        content: "const  thing = 1;\nfunction thing() {}\nvar thing = 2\nlet  thing = f()\n"
            .to_string(),
    }];
    let r = FunctionResolver::new();
    let out = r.resolve_function_reference("thing", &g, &files);
    // every matched line is reported once; the `function thing()` line is
    // definition-shaped
    assert!(out.iter().any(|c| c.line == 2 && c.confidence == 900));
    assert!(out.iter().any(|c| c.line == 1 && c.confidence == 600));
    assert!(out.iter().any(|c| c.line == 3 && c.confidence == 600));
    assert!(out.iter().any(|c| c.line == 4 && c.confidence == 600));
}

#[test]
fn test_results_capped_at_ten() {
    let g = CodeGraph::new();
    let mut content = String::new();
    for _ in 0..15 {
        content.push_str("def q():\n");
    }
    let files = vec![SourceFile { path: "many.py".to_string(), content }];
    let r = FunctionResolver::new();
    let out = r.resolve_function_reference("q", &g, &files);
    assert_eq!(out.len(), 10);
    for c in &out {
        assert_eq!(c.confidence, 900);
    }
}

#[test]
fn test_no_fallback_when_graph_matches() {
    let mut g = CodeGraph::new();
    g.add_symbol(sym("q", "real.py", 4));
    let files = vec![SourceFile {
        path: "text.py".to_string(),
        content: "def q():\n".to_string(),
    }];
    let r = FunctionResolver::new();
    let out = r.resolve_function_reference("q", &g, &files);
    assert!(out.iter().all(|c| c.file != "text.py"));
}

#[test]
fn test_find_functions_in_scope() {
    let mut g = CodeGraph::new();
    g.add_symbol(sym("one", "src/a.py", 1));
    g.add_symbol(sym("two", "src/b.py", 1));
    g.add_symbol(sym("three", "other/c.py", 1));
    let r = FunctionResolver::new();
    let all = r.find_functions_in_scope(&g, "src", None);
    assert_eq!(all.len(), 2);
    assert!(all.iter().all(|c| c.confidence == 1000));
    let filtered = r.find_functions_in_scope(&g, "src", Some("one"));
    assert_eq!(filtered.len(), 1);
    assert_eq!(filtered[0].name, "one");
    // "src/a" is not a whole component of "src/a.py"
    let none = r.find_functions_in_scope(&g, "src/a", None);
    assert_eq!(none.len(), 0);
}

#[test]
fn test_rank_by_popularity_boosts_called_symbols() {
    let mut g = CodeGraph::new();
    let helper = g.add_symbol(sym("helper", "h.py", 1));
    let a = g.add_symbol(sym("a", "a.py", 1));
    let b = g.add_symbol(sym("b", "b.py", 1));
    let edge = RelationEdge {
        relation_type: RelationType::DirectCall,
        line: 2,
        expression: "helper()".to_string(),
    };
    g.add_relation(a, helper, edge.clone());
    g.add_relation(b, helper, edge);
    let r = FunctionResolver::new();
    let mut cands = r.resolve_function_reference("helper", &g, &Vec::new());
    let before = cands[0].confidence;
    assert!(before >= 1000);
    r.rank_by_popularity(&mut cands, &g);
    // helper has two callers: confidence is multiplied by 1 + 0.1 * 2
    assert_eq!(cands[0].confidence, before * 12 / 10);
}

#[test]
fn test_fallback_handles_crlf_lines() {
    let g = CodeGraph::new();
    let files = vec![SourceFile {
        path: "win.py".to_string(),
        content: "def crlf_fn():\r\n    pass\r\n".to_string(),
    }];
    let r = FunctionResolver::new();
    let out = r.resolve_function_reference("crlf_fn", &g, &files);
    assert_eq!(out.len(), 1);
    assert_eq!(out[0].line, 1);
    // the carriage return is not part of the reported signature
    assert_eq!(out[0].signature, "def crlf_fn():");
    assert_eq!(out[0].confidence, 900);
}
