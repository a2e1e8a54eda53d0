use codegraph::cli::Indexer;
use codegraph::graph::Language;
use codegraph::mcp::{initialize_result, route_method, route_tool, tools_list, RpcMethod, SchemaDefault, ToolKind};
use codegraph::parser::ParserManager;

#[test]
fn test_should_skip_file() {
    let indexer = Indexer::new();
    assert!(indexer.should_skip_file("node_modules/pkg/index.js"));
    assert!(indexer.should_skip_file("proj/.git/config"));
    assert!(indexer.should_skip_file("proj/__pycache__/m.pyc"));
    assert!(indexer.should_skip_file("target/debug/out"));
    assert!(indexer.should_skip_file("src/.hidden"));
    assert!(!indexer.should_skip_file("src/.env"));
    assert!(!indexer.should_skip_file("src/main.rs"));
}

#[test]
fn test_default_index_path() {
    assert_eq!(
        Indexer::get_default_index_path("proj"),
        "proj/.codegraph/index.bin"
    );
    assert_eq!(
        Indexer::get_default_index_path("proj/"),
        "proj/.codegraph/index.bin"
    );
}

#[test]
fn test_get_language() {
    assert_eq!(ParserManager::get_language("pkg/a.py"), Some(Language::Python));
    assert_eq!(ParserManager::get_language("a.js"), Some(Language::JavaScript));
    assert_eq!(ParserManager::get_language("a.jsx"), Some(Language::JavaScript));
    assert_eq!(ParserManager::get_language("a.mjs"), Some(Language::JavaScript));
    assert_eq!(ParserManager::get_language("a.ts"), Some(Language::TypeScript));
    assert_eq!(ParserManager::get_language("a.tsx"), Some(Language::TypeScript));
    assert_eq!(ParserManager::get_language("a.rs"), Some(Language::Rust));
    assert_eq!(ParserManager::get_language("a.txt"), None);
    assert_eq!(ParserManager::get_language("Makefile"), None);
}

#[test]
fn test_routing() {
    assert_eq!(route_method("initialize"), RpcMethod::Initialize);
    assert_eq!(route_method("tools/list"), RpcMethod::ToolsList);
    assert_eq!(route_method("tools/call"), RpcMethod::ToolsCall);
    assert_eq!(route_method("bogus"), RpcMethod::Unknown);
    assert_eq!(route_tool("navigate"), ToolKind::Navigate);
    assert_eq!(route_tool("find"), ToolKind::Find);
    assert_eq!(route_tool("impact"), ToolKind::Impact);
    assert_eq!(route_tool("other"), ToolKind::Unknown);
}

#[test]
fn test_tool_listing_and_initialize() {
    let tools = tools_list();
    assert_eq!(tools.len(), 3);
    assert_eq!(tools[0].name, "navigate");
    assert_eq!(tools[1].name, "find");
    assert_eq!(tools[2].name, "impact");
    assert_eq!(tools[0].title, "Function Navigator");
    assert_eq!(tools[1].title, "Function Finder");
    assert_eq!(tools[2].title, "Impact Analyzer");
    assert_eq!(tools[0].input_schema.required, vec!["function".to_string()]);
    assert_eq!(tools[1].input_schema.required, vec!["query".to_string()]);
    let depth = &tools[0].input_schema.properties[1];
    assert_eq!(depth.name, "depth");
    assert_eq!(depth.minimum, Some(1));
    assert_eq!(depth.maximum, Some(5));
    assert!(matches!(depth.default_value, SchemaDefault::NumberValue(1)));
    let include_tests = &tools[2].input_schema.properties[1];
    assert_eq!(include_tests.name, "include_tests");
    assert!(matches!(include_tests.default_value, SchemaDefault::FlagValue(false)));
    assert_eq!(tools[0].output_schema.properties.len(), 5);
    assert_eq!(tools[2].output_schema.properties.len(), 6);
    let init = initialize_result();
    assert_eq!(init.protocol_version, "2024-11-05");
    assert_eq!(init.server_info.name, "CodeGraph");
    assert_eq!(init.server_info.version, "1.0.0");
    assert!(init.capabilities.tools.is_some());
}
