//! The protocol-facing data model: operation parameters and results, the
//! initialize handshake, the self-describing tool listing, and request
//! routing decisions. Transport and JSON plumbing live outside the library.

use vstd::prelude::*;
use crate::resolver::FunctionRef;

verus! {

/// Parameters of the navigate operation.
#[derive(Debug, Clone)]
pub struct NavigateParams {
    pub function: String,
    pub depth: Option<usize>,
}

/// Parameters of the impact operation.
#[derive(Debug, Clone)]
pub struct ImpactParams {
    pub function: String,
    pub include_tests: bool,
}

/// Parameters of the find operation.
#[derive(Debug, Clone)]
pub struct FindParams {
    pub query: String,
    pub scope: Option<String>,
}

/// A block of tool-call output.
#[derive(Debug, Clone)]
pub struct ContentBlock {
    pub content_type: String,
    pub text: String,
}

/// The wrapper around tool-call output.
#[derive(Debug, Clone)]
pub struct ToolResult {
    pub content: Vec<ContentBlock>,
    pub is_error: Option<bool>,
}

/// The denormalized description of one symbol in an operation result.
#[derive(Debug, Clone)]
pub struct FunctionInfo {
    pub name: String,
    pub file: String,
    pub line: usize,
    pub signature: String,
    pub language: String,
    pub module_segments: Vec<String>,
}

/// What navigate returns.
#[derive(Debug, Clone)]
pub struct NavigateResult {
    pub function: FunctionInfo,
    pub calls: Vec<FunctionRef>,
    pub called_by: Vec<FunctionRef>,
    pub siblings: Vec<FunctionRef>,
    pub summary: String,
}

/// What impact analysis returns.
#[derive(Debug, Clone)]
pub struct ImpactResult {
    pub direct_callers: Vec<FunctionRef>,
    pub transitive_impact: Vec<FunctionRef>,
    pub affected_files: Vec<String>,
    pub test_files: Vec<String>,
    pub risk_level: String,
    pub summary: String,
}

/// One file's group of find matches, resolver order preserved.
#[derive(Debug, Clone)]
pub struct FileGroup {
    pub file: String,
    pub refs: Vec<FunctionRef>,
}

/// What find returns.
#[derive(Debug, Clone)]
pub struct FindResult {
    pub matches: Vec<FunctionRef>,
    pub grouped_by_file: Vec<FileGroup>,
    pub summary: String,
}

/// Client-side half of the initialize handshake.
#[derive(Debug, Clone)]
pub struct InitializeParams {
    pub protocol_version: String,
    pub capabilities: ClientCapabilities,
    pub client_info: ClientInfo,
}

#[derive(Debug, Clone)]
pub struct ClientCapabilities {
    pub tools: Option<ToolCapabilities>,
}

#[derive(Debug, Clone)]
pub struct ToolCapabilities {
    pub list_changed: Option<bool>,
}

#[derive(Debug, Clone)]
pub struct ClientInfo {
    pub name: String,
    pub version: String,
}

/// Server-side half of the initialize handshake.
#[derive(Debug, Clone)]
pub struct InitializeResult {
    pub protocol_version: String,
    pub capabilities: ServerCapabilities,
    pub server_info: ServerInfo,
}

#[derive(Debug, Clone)]
pub struct ServerCapabilities {
    pub tools: Option<ToolsCapability>,
}

#[derive(Debug, Clone)]
pub struct ToolsCapability {
    pub list_changed: Option<bool>,
}

#[derive(Debug, Clone)]
pub struct ServerInfo {
    pub name: String,
    pub version: String,
}

/// A machine-checkable default for a schema property.
#[derive(Debug, Clone, PartialEq, Eq, Structural)]
pub enum SchemaDefault {
    NoDefault,
    NumberValue(u64),
    FlagValue(bool),
}

/// One property of a tool schema, with its machine-checkable constraints.
#[derive(Debug, Clone)]
pub struct SchemaProperty {
    pub name: String,
    pub value_type: String,
    pub description: String,
    pub minimum: Option<u64>,
    pub maximum: Option<u64>,
    pub default_value: SchemaDefault,
}

/// A machine-checkable schema: its properties and which are required.
#[derive(Debug, Clone)]
pub struct ToolSchema {
    pub properties: Vec<SchemaProperty>,
    pub required: Vec<String>,
}

/// A self-describing tool entry: name, title, description, and the input
/// and output schemas.
#[derive(Debug, Clone)]
pub struct ToolDefinition {
    pub name: String,
    pub title: String,
    pub description: String,
    pub input_schema: ToolSchema,
    pub output_schema: ToolSchema,
}

/// A schema property with no numeric constraints and no default.
fn plain_property(name: &str, value_type: &str, description: &str) -> (r: SchemaProperty)
    ensures
        r.name@ == name@,
        r.value_type@ == value_type@,
        r.description@ == description@,
        r.minimum is None,
        r.maximum is None,
        r.default_value == SchemaDefault::NoDefault,
{
    SchemaProperty {
        name: name.to_owned(),
        value_type: value_type.to_owned(),
        description: description.to_owned(),
        minimum: None,
        maximum: None,
        default_value: SchemaDefault::NoDefault,
    }
}

/// The answer to the initialize handshake.
pub fn initialize_result() -> (r: InitializeResult)
    ensures
        r.protocol_version@ == "2024-11-05"@,
        r.capabilities.tools is Some,
        r.server_info.name@ == "CodeGraph"@,
        r.server_info.version@ == "1.0.0"@,
{
    InitializeResult {
        protocol_version: "2024-11-05".to_owned(),
        capabilities: ServerCapabilities { tools: Some(ToolsCapability { list_changed: None }) },
        server_info: ServerInfo { name: "CodeGraph".to_owned(), version: "1.0.0".to_owned() },
    }
}

/// The three tools the server exposes: names, titles, human-readable
/// descriptions, and machine-checkable input and output schemas, with
/// navigate's depth bounded to 1..5 (default 1) and impact's include_tests
/// defaulting to false.
pub fn tools_list() -> (r: Vec<ToolDefinition>)
    ensures
        r@.len() == 3,
        r@[0].name@ == "navigate"@,
        r@[0].title@ == "Function Navigator"@,
        r@[0].description@.len() > 0,
        r@[0].input_schema.required@.len() == 1 && r@[0].input_schema.required@[0]@
            == "function"@,
        r@[0].input_schema.properties@.len() == 2,
        r@[0].input_schema.properties@[0].name@ == "function"@
            && r@[0].input_schema.properties@[0].value_type@ == "string"@
            && r@[0].input_schema.properties@[0].description@.len() > 0,
        r@[0].input_schema.properties@[1].name@ == "depth"@
            && r@[0].input_schema.properties@[1].value_type@ == "number"@
            && r@[0].input_schema.properties@[1].minimum == Some(1u64)
            && r@[0].input_schema.properties@[1].maximum == Some(5u64)
            && r@[0].input_schema.properties@[1].default_value == SchemaDefault::NumberValue(1)
            && r@[0].input_schema.properties@[1].description@.len() > 0,
        r@[0].output_schema.properties@.len() == 5,
        r@[1].name@ == "find"@,
        r@[1].title@ == "Function Finder"@,
        r@[1].description@.len() > 0,
        r@[1].input_schema.required@.len() == 1 && r@[1].input_schema.required@[0]@ == "query"@,
        r@[1].input_schema.properties@.len() == 2,
        r@[1].input_schema.properties@[0].name@ == "query"@
            && r@[1].input_schema.properties@[0].value_type@ == "string"@
            && r@[1].input_schema.properties@[0].description@.len() > 0,
        r@[1].input_schema.properties@[1].name@ == "scope"@
            && r@[1].input_schema.properties@[1].value_type@ == "string"@
            && r@[1].input_schema.properties@[1].description@.len() > 0,
        r@[1].output_schema.properties@.len() == 3,
        r@[2].name@ == "impact"@,
        r@[2].title@ == "Impact Analyzer"@,
        r@[2].description@.len() > 0,
        r@[2].input_schema.required@.len() == 1 && r@[2].input_schema.required@[0]@
            == "function"@,
        r@[2].input_schema.properties@.len() == 2,
        r@[2].input_schema.properties@[0].name@ == "function"@
            && r@[2].input_schema.properties@[0].value_type@ == "string"@
            && r@[2].input_schema.properties@[0].description@.len() > 0,
        r@[2].input_schema.properties@[1].name@ == "include_tests"@
            && r@[2].input_schema.properties@[1].value_type@ == "boolean"@
            && r@[2].input_schema.properties@[1].default_value == SchemaDefault::FlagValue(false)
            && r@[2].input_schema.properties@[1].description@.len() > 0,
        r@[2].output_schema.properties@.len() == 6,
{
    proof {
        reveal_strlit("Exact name of the function to navigate to, as it appears in the code.");
        reveal_strlit(
            "How many levels of relationships to explore, 1 to 5; 1 shows direct relationships only.",
        );
        reveal_strlit(
            "Explore a specific function and its code relationships: what it calls, what calls it, and the other functions in its file.",
        );
        reveal_strlit("Search term for function names; partial names are matched fuzzily.");
        reveal_strlit("Optional path that limits the search to specific files or directories.");
        reveal_strlit(
            "Search for functions across the codebase, combining exact, fuzzy and raw-text matching.",
        );
        reveal_strlit("Exact name of the function whose change impact to analyze.");
        reveal_strlit("Whether to also collect the impacted test files.");
        reveal_strlit(
            "Analyze the blast radius of changing a function: direct callers, transitive impact and a risk level.",
        );
    }
    let mut nav_props: Vec<SchemaProperty> = Vec::new();
    nav_props.push(
        plain_property(
            "function",
            "string",
            "Exact name of the function to navigate to, as it appears in the code.",
        ),
    );
    nav_props.push(
        SchemaProperty {
            name: "depth".to_owned(),
            value_type: "number".to_owned(),
            description: "How many levels of relationships to explore, 1 to 5; 1 shows direct relationships only.".to_owned(),
            minimum: Some(1),
            maximum: Some(5),
            default_value: SchemaDefault::NumberValue(1),
        },
    );
    let mut nav_req: Vec<String> = Vec::new();
    nav_req.push("function".to_owned());
    let mut nav_out: Vec<SchemaProperty> = Vec::new();
    nav_out.push(plain_property("function", "object", "Details about the target function."));
    nav_out.push(plain_property("calls", "array", "Functions called by this function."));
    nav_out.push(plain_property("called_by", "array", "Functions that call this function."));
    nav_out.push(plain_property("siblings", "array", "Other functions in the same file."));
    nav_out.push(
        plain_property("summary", "string", "Human-readable summary of the relationships."),
    );
    let navigate = ToolDefinition {
        name: "navigate".to_owned(),
        title: "Function Navigator".to_owned(),
        description: "Explore a specific function and its code relationships: what it calls, what calls it, and the other functions in its file.".to_owned(),
        input_schema: ToolSchema { properties: nav_props, required: nav_req },
        output_schema: ToolSchema { properties: nav_out, required: Vec::new() },
    };
    let mut find_props: Vec<SchemaProperty> = Vec::new();
    find_props.push(
        plain_property(
            "query",
            "string",
            "Search term for function names; partial names are matched fuzzily.",
        ),
    );
    find_props.push(
        plain_property(
            "scope",
            "string",
            "Optional path that limits the search to specific files or directories.",
        ),
    );
    let mut find_req: Vec<String> = Vec::new();
    find_req.push("query".to_owned());
    let mut find_out: Vec<SchemaProperty> = Vec::new();
    find_out.push(
        plain_property("matches", "array", "Functions matching the query, with confidence."),
    );
    find_out.push(
        plain_property("grouped_by_file", "object", "The matches organized by file path."),
    );
    find_out.push(
        plain_property("summary", "string", "Human-readable summary of the search results."),
    );
    let find = ToolDefinition {
        name: "find".to_owned(),
        title: "Function Finder".to_owned(),
        description: "Search for functions across the codebase, combining exact, fuzzy and raw-text matching.".to_owned(),
        input_schema: ToolSchema { properties: find_props, required: find_req },
        output_schema: ToolSchema { properties: find_out, required: Vec::new() },
    };
    let mut impact_props: Vec<SchemaProperty> = Vec::new();
    impact_props.push(
        plain_property(
            "function",
            "string",
            "Exact name of the function whose change impact to analyze.",
        ),
    );
    impact_props.push(
        SchemaProperty {
            name: "include_tests".to_owned(),
            value_type: "boolean".to_owned(),
            description: "Whether to also collect the impacted test files.".to_owned(),
            minimum: None,
            maximum: None,
            default_value: SchemaDefault::FlagValue(false),
        },
    );
    let mut impact_req: Vec<String> = Vec::new();
    impact_req.push("function".to_owned());
    let mut impact_out: Vec<SchemaProperty> = Vec::new();
    impact_out.push(
        plain_property("direct_callers", "array", "Functions that directly call this function."),
    );
    impact_out.push(
        plain_property(
            "transitive_impact",
            "array",
            "Functions indirectly affected through the call chain.",
        ),
    );
    impact_out.push(
        plain_property("affected_files", "array", "Files impacted by a change."),
    );
    impact_out.push(
        plain_property("test_files", "array", "Impacted files that look like tests."),
    );
    impact_out.push(
        plain_property("risk_level", "string", "Coarse severity: low, medium or high."),
    );
    impact_out.push(
        plain_property("summary", "string", "Human-readable impact summary."),
    );
    let impact = ToolDefinition {
        name: "impact".to_owned(),
        title: "Impact Analyzer".to_owned(),
        description: "Analyze the blast radius of changing a function: direct callers, transitive impact and a risk level.".to_owned(),
        input_schema: ToolSchema { properties: impact_props, required: impact_req },
        output_schema: ToolSchema { properties: impact_out, required: Vec::new() },
    };
    let mut out: Vec<ToolDefinition> = Vec::new();
    out.push(navigate);
    out.push(find);
    out.push(impact);
    out
}

/// A JSON-RPC method the server understands.
#[derive(Debug, Clone, Copy, PartialEq, Eq, Structural)]
pub enum RpcMethod {
    Initialize,
    ToolsList,
    ToolsCall,
    Unknown,
}

/// Routes a request by its method name.
pub fn route_method(method: &str) -> (r: RpcMethod)
    ensures
        r == (if method@ == "initialize"@ {
            RpcMethod::Initialize
        } else if method@ == "tools/list"@ {
            RpcMethod::ToolsList
        } else if method@ == "tools/call"@ {
            RpcMethod::ToolsCall
        } else {
            RpcMethod::Unknown
        }),
{
    if crate::text::eq_str(method, "initialize") {
        RpcMethod::Initialize
    } else if crate::text::eq_str(method, "tools/list") {
        RpcMethod::ToolsList
    } else if crate::text::eq_str(method, "tools/call") {
        RpcMethod::ToolsCall
    } else {
        RpcMethod::Unknown
    }
}

/// A tool a tools/call request may name.
#[derive(Debug, Clone, Copy, PartialEq, Eq, Structural)]
pub enum ToolKind {
    Navigate,
    Find,
    Impact,
    Unknown,
}

/// Routes a tool call by its tool name.
pub fn route_tool(name: &str) -> (r: ToolKind)
    ensures
        r == (if name@ == "navigate"@ {
            ToolKind::Navigate
        } else if name@ == "find"@ {
            ToolKind::Find
        } else if name@ == "impact"@ {
            ToolKind::Impact
        } else {
            ToolKind::Unknown
        }),
{
    if crate::text::eq_str(name, "navigate") {
        ToolKind::Navigate
    } else if crate::text::eq_str(name, "find") {
        ToolKind::Find
    } else if crate::text::eq_str(name, "impact") {
        ToolKind::Impact
    } else {
        ToolKind::Unknown
    }
}

/// JSON-RPC error code for a parse error.
pub const PARSE_ERROR_CODE: i32 = -32700;

/// JSON-RPC error code for an unknown method.
pub const METHOD_NOT_FOUND_CODE: i32 = -32601;

/// JSON-RPC error code for invalid parameters.
pub const INVALID_PARAMS_CODE: i32 = -32602;

/// JSON-RPC error code for a tool call before initialization.
pub const NOT_INITIALIZED_CODE: i32 = -32002;

} // verus!
