//! The cache round trip and the JSON-RPC surface.

use anchor::engine::CodeGraph;
use anchor::error::AnchorError;
use anchor::mcp::handle_request;
use anchor::types::{EdgeKind, NodeKind};

fn sample_graph() -> CodeGraph {
    let mut graph = CodeGraph::new();
    let f = graph.add_file("src/auth.rs".to_string());
    let s = graph.add_symbol(
        "login".to_string(),
        NodeKind::Function,
        "src/auth.rs".to_string(),
        1,
        10,
        "fn login() {}".to_string(),
    );
    graph.add_edge(f, s, EdgeKind::Defines);
    let f2 = graph.add_file("src/main.rs".to_string());
    let m = graph.add_symbol(
        "main".to_string(),
        NodeKind::Function,
        "src/main.rs".to_string(),
        1,
        3,
        "fn main() { login(); }".to_string(),
    );
    graph.add_edge(f2, m, EdgeKind::Defines);
    graph.add_edge(m, s, EdgeKind::Calls);
    graph
}

#[test]
fn test_cache_round_trip() {
    let graph = sample_graph();
    let bytes = graph.encode();
    let loaded = CodeGraph::decode(&bytes).unwrap();

    let a = graph.stats();
    let b = loaded.stats();
    assert_eq!(a.file_count, b.file_count);
    assert_eq!(a.symbol_count, b.symbol_count);
    assert_eq!(a.total_edges, b.total_edges);
    assert_eq!(a.unique_symbol_names, b.unique_symbol_names);

    let before = graph.search("login", 5);
    let after = loaded.search("login", 5);
    assert_eq!(before.len(), after.len());
    assert_eq!(before[0].symbol, after[0].symbol);
    assert_eq!(before[0].code, after[0].code);
    assert_eq!(before[0].called_by.len(), after[0].called_by.len());

    let q = loaded.find_qualified("src/auth.rs", "login").unwrap();
    assert_eq!(q.line_end, 10);
}

#[test]
fn test_cache_round_trip_unicode() {
    let mut graph = CodeGraph::new();
    let f = graph.add_file("src/café.rs".to_string());
    let s = graph.add_symbol(
        "café".to_string(),
        NodeKind::Function,
        "src/café.rs".to_string(),
        1,
        2,
        "fn café() {}".to_string(),
    );
    graph.add_edge(f, s, EdgeKind::Defines);

    let loaded = CodeGraph::decode(&graph.encode()).unwrap();
    let results = loaded.search("café", 5);
    assert_eq!(results.len(), 1);
    assert_eq!(results[0].symbol, "café");
}

#[test]
fn test_cache_version_mismatch() {
    let graph = sample_graph();
    let mut bytes = graph.encode();
    bytes[0] = 0xFF;
    let r = CodeGraph::decode(&bytes);
    assert!(matches!(r, Err(AnchorError::BadCache(_))));
}

#[test]
fn test_cache_truncated() {
    let graph = sample_graph();
    let mut bytes = graph.encode();
    bytes.truncate(bytes.len() / 2);
    let r = CodeGraph::decode(&bytes);
    assert!(r.is_err());
}

#[test]
fn test_cache_drops_removed_nodes() {
    let mut graph = sample_graph();
    graph.remove_file("src/main.rs");
    let loaded = CodeGraph::decode(&graph.encode()).unwrap();
    let stats = loaded.stats();
    assert_eq!(stats.file_count, 1);
    assert_eq!(stats.symbol_count, 1);
    assert!(loaded.search("main", 5).is_empty());
}

#[test]
fn test_rpc_handshake() {
    let graph = sample_graph();

    let resp = handle_request(
        &graph,
        "{\"jsonrpc\":\"2.0\",\"id\":1,\"method\":\"initialize\",\"params\":{}}",
    )
    .unwrap();
    let v: serde_json::Value = serde_json::from_str(&resp).unwrap();
    assert_eq!(v["id"], 1);
    assert_eq!(v["result"]["protocolVersion"], "2024-11-05");
    assert_eq!(v["result"]["serverInfo"]["name"], "anchor");

    let resp = handle_request(
        &graph,
        "{\"jsonrpc\":\"2.0\",\"id\":2,\"method\":\"tools/list\"}",
    )
    .unwrap();
    let v: serde_json::Value = serde_json::from_str(&resp).unwrap();
    let tools = v["result"]["tools"].as_array().unwrap();
    let names: Vec<&str> = tools.iter().map(|t| t["name"].as_str().unwrap()).collect();
    assert_eq!(
        names,
        vec![
            "anchor_search",
            "anchor_dependencies",
            "anchor_stats",
            "anchor_file_symbols"
        ]
    );

    let resp = handle_request(
        &graph,
        "{\"jsonrpc\":\"2.0\",\"id\":3,\"method\":\"tools/call\",\"params\":{\"name\":\"anchor_stats\",\"arguments\":{}}}",
    )
    .unwrap();
    let v: serde_json::Value = serde_json::from_str(&resp).unwrap();
    assert_eq!(v["result"]["content"][0]["type"], "text");
    let text = v["result"]["content"][0]["text"].as_str().unwrap();
    let inner: serde_json::Value = serde_json::from_str(text).unwrap();
    assert!(inner["stats"]["file_count"].is_u64());
    assert_eq!(inner["stats"]["file_count"], 2);
}

#[test]
fn test_rpc_notification_and_ping() {
    let graph = sample_graph();
    let none = handle_request(
        &graph,
        "{\"jsonrpc\":\"2.0\",\"method\":\"notifications/initialized\"}",
    );
    assert!(none.is_none());

    let resp = handle_request(&graph, "{\"jsonrpc\":\"2.0\",\"id\":9,\"method\":\"ping\"}")
        .unwrap();
    let v: serde_json::Value = serde_json::from_str(&resp).unwrap();
    assert_eq!(v["id"], 9);
    assert!(v["result"].is_object());
}

#[test]
fn test_rpc_unknown_method_and_parse_error() {
    let graph = sample_graph();
    let resp = handle_request(
        &graph,
        "{\"jsonrpc\":\"2.0\",\"id\":4,\"method\":\"does/not/exist\"}",
    )
    .unwrap();
    let v: serde_json::Value = serde_json::from_str(&resp).unwrap();
    assert_eq!(v["error"]["code"], -32601);

    let resp = handle_request(&graph, "this is not json").unwrap();
    let v: serde_json::Value = serde_json::from_str(&resp).unwrap();
    assert_eq!(v["error"]["code"], -32700);
}

#[test]
fn test_rpc_tool_call_search() {
    let graph = sample_graph();
    let resp = handle_request(
        &graph,
        "{\"jsonrpc\":\"2.0\",\"id\":5,\"method\":\"tools/call\",\"params\":{\"name\":\"anchor_search\",\"arguments\":{\"query\":\"login\"}}}",
    )
    .unwrap();
    let v: serde_json::Value = serde_json::from_str(&resp).unwrap();
    let text = v["result"]["content"][0]["text"].as_str().unwrap();
    let inner: serde_json::Value = serde_json::from_str(text).unwrap();
    assert_eq!(inner["found"], true);
    assert_eq!(inner["results"][0]["symbol"], "login");
    assert_eq!(inner["results"][0]["called_by"][0]["name"], "main");

    let resp = handle_request(
        &graph,
        "{\"jsonrpc\":\"2.0\",\"id\":6,\"method\":\"tools/call\",\"params\":{\"name\":\"no_such_tool\",\"arguments\":{}}}",
    )
    .unwrap();
    let v: serde_json::Value = serde_json::from_str(&resp).unwrap();
    assert_eq!(v["result"]["isError"], true);
}

#[test]
fn test_rpc_invalid_params() {
    let graph = sample_graph();
    let resp = handle_request(
        &graph,
        "{\"jsonrpc\":\"2.0\",\"id\":7,\"method\":\"tools/call\"}",
    )
    .unwrap();
    let v: serde_json::Value = serde_json::from_str(&resp).unwrap();
    assert_eq!(v["error"]["code"], -32602);

    let resp = handle_request(
        &graph,
        "{\"jsonrpc\":\"2.0\",\"id\":8,\"method\":\"tools/call\",\"params\":{}}",
    )
    .unwrap();
    let v: serde_json::Value = serde_json::from_str(&resp).unwrap();
    assert_eq!(v["error"]["code"], -32602);
}

#[test]
fn test_rpc_tool_call_missing_argument() {
    let graph = sample_graph();
    let resp = handle_request(
        &graph,
        "{\"jsonrpc\":\"2.0\",\"id\":10,\"method\":\"tools/call\",\"params\":{\"name\":\"anchor_search\",\"arguments\":{}}}",
    )
    .unwrap();
    let v: serde_json::Value = serde_json::from_str(&resp).unwrap();
    assert_eq!(v["result"]["isError"], true);
    let text = v["result"]["content"][0]["text"].as_str().unwrap();
    assert_eq!(text, "Missing required parameter: query");
}
