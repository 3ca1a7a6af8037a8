//! Engine behaviour: nodes, edges, indices, search, removal and
//! compaction.

use anchor::engine::CodeGraph;
use anchor::types::{EdgeKind, ExtractedCall, ExtractedSymbol, FileExtractions, NodeKind};

#[test]
fn test_empty_graph() {
    let graph = CodeGraph::new();
    let stats = graph.stats();
    assert_eq!(stats.total_nodes, 0);
    assert_eq!(stats.total_edges, 0);
}

#[test]
fn test_add_file_and_symbol() {
    let mut graph = CodeGraph::new();

    let file_idx = graph.add_file("src/main.rs".to_string());
    let fn_idx = graph.add_symbol(
        "main".to_string(),
        NodeKind::Function,
        "src/main.rs".to_string(),
        1,
        10,
        "fn main() { }".to_string(),
    );
    graph.add_edge(file_idx, fn_idx, EdgeKind::Defines);

    let stats = graph.stats();
    assert_eq!(stats.file_count, 1);
    assert_eq!(stats.symbol_count, 1);
    assert_eq!(stats.total_edges, 1);
}

#[test]
fn test_search_exact() {
    let mut graph = CodeGraph::new();

    let file_idx = graph.add_file("src/auth.rs".to_string());
    let fn_idx = graph.add_symbol(
        "login".to_string(),
        NodeKind::Function,
        "src/auth.rs".to_string(),
        5,
        20,
        "pub fn login(user: &str) -> bool { }".to_string(),
    );
    graph.add_edge(file_idx, fn_idx, EdgeKind::Defines);

    let results = graph.search("login", 3);
    assert_eq!(results.len(), 1);
    assert_eq!(results[0].symbol, "login");
    assert_eq!(results[0].kind, NodeKind::Function);
}

#[test]
fn test_search_fuzzy() {
    let mut graph = CodeGraph::new();

    let file_idx = graph.add_file("src/auth.rs".to_string());
    let fn1 = graph.add_symbol(
        "user_login".to_string(),
        NodeKind::Function,
        "src/auth.rs".to_string(),
        5,
        20,
        "fn user_login() {}".to_string(),
    );
    let fn2 = graph.add_symbol(
        "user_logout".to_string(),
        NodeKind::Function,
        "src/auth.rs".to_string(),
        25,
        40,
        "fn user_logout() {}".to_string(),
    );
    graph.add_edge(file_idx, fn1, EdgeKind::Defines);
    graph.add_edge(file_idx, fn2, EdgeKind::Defines);

    let results = graph.search("login", 3);
    assert_eq!(results.len(), 1);
    assert_eq!(results[0].symbol, "user_login");
}

#[test]
fn test_search_case_insensitive_fuzzy() {
    let mut graph = CodeGraph::new();
    let file_idx = graph.add_file("src/auth.rs".to_string());
    let fn1 = graph.add_symbol(
        "UserLogin".to_string(),
        NodeKind::Function,
        "src/auth.rs".to_string(),
        1,
        5,
        "fn UserLogin() {}".to_string(),
    );
    graph.add_edge(file_idx, fn1, EdgeKind::Defines);

    let results = graph.search("userlogin", 3);
    assert_eq!(results.len(), 1);
    assert_eq!(results[0].symbol, "UserLogin");
}

#[test]
fn test_calls_relationship() {
    let mut graph = CodeGraph::new();

    let file_idx = graph.add_file("src/main.rs".to_string());
    let main_idx = graph.add_symbol(
        "main".to_string(),
        NodeKind::Function,
        "src/main.rs".to_string(),
        1,
        10,
        "fn main() { login(); }".to_string(),
    );
    let login_idx = graph.add_symbol(
        "login".to_string(),
        NodeKind::Function,
        "src/auth.rs".to_string(),
        5,
        20,
        "fn login() {}".to_string(),
    );

    graph.add_edge(file_idx, main_idx, EdgeKind::Defines);
    graph.add_edge(main_idx, login_idx, EdgeKind::Calls);

    let results = graph.search("main", 3);
    assert_eq!(results.len(), 1);
    assert_eq!(results[0].calls.len(), 1);
    assert_eq!(results[0].calls[0].name, "login");

    let login_results = graph.search("login", 3);
    assert_eq!(login_results.len(), 1);
    assert_eq!(login_results[0].called_by.len(), 1);
    assert_eq!(login_results[0].called_by[0].name, "main");
}

#[test]
fn test_build_from_extractions() {
    let extractions = vec![FileExtractions {
        file_path: "src/lib.rs".to_string(),
        symbols: vec![
            ExtractedSymbol {
                name: "add".to_string(),
                kind: NodeKind::Function,
                line_start: 1,
                line_end: 3,
                code_snippet: "fn add(a: i32, b: i32) -> i32 { a + b }".to_string(),
                parent: None,
            },
            ExtractedSymbol {
                name: "multiply".to_string(),
                kind: NodeKind::Function,
                line_start: 5,
                line_end: 7,
                code_snippet: "fn multiply(a: i32, b: i32) -> i32 { a * b }".to_string(),
                parent: None,
            },
        ],
        imports: vec![],
        calls: vec![ExtractedCall {
            caller: "multiply".to_string(),
            callee: "add".to_string(),
            line: 6,
        }],
    }];

    let mut graph = CodeGraph::new();
    graph.build_from_extractions(extractions);

    let stats = graph.stats();
    assert_eq!(stats.file_count, 1);
    assert_eq!(stats.symbol_count, 2);

    let results = graph.search("multiply", 3);
    assert_eq!(results.len(), 1);
    assert_eq!(results[0].calls.len(), 1);
    assert_eq!(results[0].calls[0].name, "add");
}

#[test]
fn test_remove_file_clears_stats() {
    let mut graph = CodeGraph::new();
    let file_idx = graph.add_file("src/auth.rs".to_string());
    let fn_idx = graph.add_symbol(
        "login".to_string(),
        NodeKind::Function,
        "src/auth.rs".to_string(),
        1,
        10,
        "fn login() {}".to_string(),
    );
    graph.add_edge(file_idx, fn_idx, EdgeKind::Defines);

    assert_eq!(graph.stats().file_count, 1);
    assert_eq!(graph.stats().symbol_count, 1);

    graph.remove_file("src/auth.rs");

    let stats = graph.stats();
    assert_eq!(stats.file_count, 0, "File should be removed from stats");
    assert_eq!(stats.symbol_count, 0, "Symbols should be removed from stats");
}

#[test]
fn test_remove_file_hides_from_search() {
    let mut graph = CodeGraph::new();
    let file_idx = graph.add_file("src/auth.rs".to_string());
    let fn_idx = graph.add_symbol(
        "login".to_string(),
        NodeKind::Function,
        "src/auth.rs".to_string(),
        1,
        10,
        "fn login() {}".to_string(),
    );
    graph.add_edge(file_idx, fn_idx, EdgeKind::Defines);

    assert_eq!(graph.search("login", 3).len(), 1);

    graph.remove_file("src/auth.rs");

    assert_eq!(
        graph.search("login", 3).len(),
        0,
        "Removed symbol should not appear in search"
    );
}

#[test]
fn test_remove_and_readd_no_duplicates() {
    let mut graph = CodeGraph::new();

    let file_idx = graph.add_file("src/auth.rs".to_string());
    let fn_idx = graph.add_symbol(
        "login".to_string(),
        NodeKind::Function,
        "src/auth.rs".to_string(),
        1,
        10,
        "fn login() { v1 }".to_string(),
    );
    graph.add_edge(file_idx, fn_idx, EdgeKind::Defines);

    graph.remove_file("src/auth.rs");

    let file_idx2 = graph.add_file("src/auth.rs".to_string());
    let fn_idx2 = graph.add_symbol(
        "login".to_string(),
        NodeKind::Function,
        "src/auth.rs".to_string(),
        1,
        15,
        "fn login() { v2 }".to_string(),
    );
    graph.add_edge(file_idx2, fn_idx2, EdgeKind::Defines);

    let results = graph.search("login", 3);
    assert_eq!(results.len(), 1, "Should have exactly 1 result after re-add");
    assert!(results[0].code.contains("v2"), "Should have updated code");

    let stats = graph.stats();
    assert_eq!(stats.file_count, 1);
    assert_eq!(stats.symbol_count, 1);
}

#[test]
fn test_remove_file_preserves_other_files() {
    let mut graph = CodeGraph::new();

    let file_a = graph.add_file("src/auth.rs".to_string());
    let login = graph.add_symbol(
        "login".to_string(),
        NodeKind::Function,
        "src/auth.rs".to_string(),
        1,
        10,
        "fn login() {}".to_string(),
    );
    graph.add_edge(file_a, login, EdgeKind::Defines);

    let file_b = graph.add_file("src/main.rs".to_string());
    let main_fn = graph.add_symbol(
        "main".to_string(),
        NodeKind::Function,
        "src/main.rs".to_string(),
        1,
        5,
        "fn main() {}".to_string(),
    );
    graph.add_edge(file_b, main_fn, EdgeKind::Defines);

    graph.remove_file("src/auth.rs");

    let results = graph.search("main", 3);
    assert_eq!(results.len(), 1, "File B should be unaffected");
    assert_eq!(results[0].symbol, "main");

    assert_eq!(graph.search("login", 3).len(), 0);

    let stats = graph.stats();
    assert_eq!(stats.file_count, 1);
    assert_eq!(stats.symbol_count, 1);
}

#[test]
fn test_remove_file_clears_cross_references() {
    let mut graph = CodeGraph::new();

    let file_a = graph.add_file("src/main.rs".to_string());
    let main_fn = graph.add_symbol(
        "main".to_string(),
        NodeKind::Function,
        "src/main.rs".to_string(),
        1,
        10,
        "fn main() { login(); }".to_string(),
    );
    graph.add_edge(file_a, main_fn, EdgeKind::Defines);

    let file_b = graph.add_file("src/auth.rs".to_string());
    let login_fn = graph.add_symbol(
        "login".to_string(),
        NodeKind::Function,
        "src/auth.rs".to_string(),
        1,
        10,
        "fn login() {}".to_string(),
    );
    graph.add_edge(file_b, login_fn, EdgeKind::Defines);
    graph.add_edge(main_fn, login_fn, EdgeKind::Calls);

    let results = graph.search("login", 3);
    assert_eq!(results[0].called_by.len(), 1);

    graph.remove_file("src/main.rs");

    let results = graph.search("login", 3);
    assert_eq!(results.len(), 1, "login itself should still exist");
    assert_eq!(
        results[0].called_by.len(),
        0,
        "Removed caller should disappear from called_by"
    );
}

#[test]
fn test_compact_reclaims_memory() {
    let mut graph = CodeGraph::new();

    let file_idx = graph.add_file("src/old.rs".to_string());
    let fn_idx = graph.add_symbol(
        "old_fn".to_string(),
        NodeKind::Function,
        "src/old.rs".to_string(),
        1,
        10,
        "fn old_fn() {}".to_string(),
    );
    graph.add_edge(file_idx, fn_idx, EdgeKind::Defines);

    let file_keep = graph.add_file("src/keep.rs".to_string());
    let keep_fn = graph.add_symbol(
        "keep_fn".to_string(),
        NodeKind::Function,
        "src/keep.rs".to_string(),
        1,
        5,
        "fn keep_fn() {}".to_string(),
    );
    graph.add_edge(file_keep, keep_fn, EdgeKind::Defines);

    graph.remove_file("src/old.rs");

    let stats_before = graph.stats();
    assert_eq!(stats_before.file_count, 1);
    assert_eq!(stats_before.symbol_count, 1);

    graph.compact();

    let stats_after = graph.stats();
    assert_eq!(stats_after.file_count, 1);
    assert_eq!(stats_after.symbol_count, 1);

    let results = graph.search("keep_fn", 3);
    assert_eq!(results.len(), 1);

    assert_eq!(graph.search("old_fn", 3).len(), 0);
}

#[test]
fn test_compact_preserves_queries() {
    // build a graph of many files, remove half, snapshot queries,
    // compact, and compare
    let mut graph = CodeGraph::new();
    for i in 0..50 {
        let path = format!("src/f{}.rs", i);
        let f = graph.add_file(path.clone());
        let s = graph.add_symbol(
            format!("fun{}", i),
            NodeKind::Function,
            path.clone(),
            1,
            5,
            format!("fn fun{}() {{}}", i),
        );
        graph.add_edge(f, s, EdgeKind::Defines);
    }
    for i in 0..25 {
        graph.remove_file(&format!("src/f{}.rs", i));
    }
    let stats_before = graph.stats();
    let search_before: Vec<String> = graph
        .search("fun3", 10)
        .into_iter()
        .map(|r| r.symbol)
        .collect();
    let symbols_before: Vec<String> = graph
        .symbols_in_file("src/f30.rs")
        .into_iter()
        .map(|n| n.name)
        .collect();
    let dependents_before = graph.dependents("fun30").len();

    graph.compact();

    let stats_after = graph.stats();
    assert_eq!(stats_before.file_count, stats_after.file_count);
    assert_eq!(stats_before.symbol_count, stats_after.symbol_count);
    assert_eq!(
        stats_before.unique_symbol_names,
        stats_after.unique_symbol_names
    );
    let search_after: Vec<String> = graph
        .search("fun3", 10)
        .into_iter()
        .map(|r| r.symbol)
        .collect();
    assert_eq!(search_before, search_after);
    let symbols_after: Vec<String> = graph
        .symbols_in_file("src/f30.rs")
        .into_iter()
        .map(|n| n.name)
        .collect();
    assert_eq!(symbols_before, symbols_after);
    assert_eq!(dependents_before, graph.dependents("fun30").len());
}

#[test]
fn test_remove_then_readd_restores_stats() {
    // remove_file followed by add_file and the same ingest brings
    // stats back to what they were
    let mut graph = CodeGraph::new();
    let extraction = FileExtractions {
        file_path: "src/a.rs".to_string(),
        symbols: vec![ExtractedSymbol {
            name: "alpha".to_string(),
            kind: NodeKind::Function,
            line_start: 1,
            line_end: 2,
            code_snippet: "fn alpha() {}".to_string(),
            parent: None,
        }],
        imports: vec![],
        calls: vec![],
    };
    graph.build_from_extractions(vec![extraction.clone()]);
    let before = graph.stats();

    graph.remove_file("src/a.rs");
    graph.add_file("src/a.rs".to_string());
    graph.build_from_extractions(vec![extraction]);

    let after = graph.stats();
    assert_eq!(before.file_count, after.file_count);
    assert_eq!(before.symbol_count, after.symbol_count);
    assert_eq!(before.unique_symbol_names, after.unique_symbol_names);
}

#[test]
fn test_search_empty_query() {
    let mut graph = CodeGraph::new();
    let file_idx = graph.add_file("src/main.rs".to_string());
    let fn_idx = graph.add_symbol(
        "main".to_string(),
        NodeKind::Function,
        "src/main.rs".to_string(),
        1,
        5,
        "fn main() {}".to_string(),
    );
    graph.add_edge(file_idx, fn_idx, EdgeKind::Defines);

    let results = graph.search("", 3);
    assert!(results.is_empty() || results.iter().all(|r| r.symbol.contains("")));
    assert!(results.is_empty());
}

#[test]
fn test_search_nonexistent_symbol() {
    let graph = CodeGraph::new();
    let results = graph.search("does_not_exist", 10);
    assert!(results.is_empty());
}

#[test]
fn test_dependents_empty_graph() {
    let graph = CodeGraph::new();
    let deps = graph.dependents("anything");
    assert!(deps.is_empty());
}

#[test]
fn test_dependencies_empty_graph() {
    let graph = CodeGraph::new();
    let deps = graph.dependencies("anything");
    assert!(deps.is_empty());
}

#[test]
fn test_symbols_in_nonexistent_file() {
    let graph = CodeGraph::new();
    let symbols = graph.symbols_in_file("nonexistent.rs");
    assert!(symbols.is_empty());
}

#[test]
fn test_cycle_in_calls() {
    let mut graph = CodeGraph::new();

    let file_idx = graph.add_file("src/cycle.rs".to_string());
    let a_idx = graph.add_symbol(
        "func_a".to_string(),
        NodeKind::Function,
        "src/cycle.rs".to_string(),
        1,
        5,
        "fn func_a() { func_b(); }".to_string(),
    );
    let b_idx = graph.add_symbol(
        "func_b".to_string(),
        NodeKind::Function,
        "src/cycle.rs".to_string(),
        6,
        10,
        "fn func_b() { func_a(); }".to_string(),
    );

    graph.add_edge(file_idx, a_idx, EdgeKind::Defines);
    graph.add_edge(file_idx, b_idx, EdgeKind::Defines);
    graph.add_edge(a_idx, b_idx, EdgeKind::Calls);
    graph.add_edge(b_idx, a_idx, EdgeKind::Calls);

    let results = graph.search("func_a", 3);
    assert_eq!(results.len(), 1);
    assert_eq!(results[0].calls.len(), 1);
    assert_eq!(results[0].called_by.len(), 1);

    let deps = graph.dependencies("func_a");
    assert!(!deps.is_empty());
    let dependents = graph.dependents("func_a");
    assert!(!dependents.is_empty());
}

#[test]
fn test_search_graph_cycle_terminates() {
    let mut graph = CodeGraph::new();
    let file_idx = graph.add_file("src/cycle.rs".to_string());
    let a_idx = graph.add_symbol(
        "ring_a".to_string(),
        NodeKind::Function,
        "src/cycle.rs".to_string(),
        1,
        5,
        "fn ring_a() { ring_b(); }".to_string(),
    );
    let b_idx = graph.add_symbol(
        "ring_b".to_string(),
        NodeKind::Function,
        "src/cycle.rs".to_string(),
        6,
        10,
        "fn ring_b() { ring_a(); }".to_string(),
    );
    graph.add_edge(file_idx, a_idx, EdgeKind::Defines);
    graph.add_edge(file_idx, b_idx, EdgeKind::Defines);
    graph.add_edge(a_idx, b_idx, EdgeKind::Calls);
    graph.add_edge(b_idx, a_idx, EdgeKind::Calls);

    let r = graph.search_graph("ring_a", 5);
    assert_eq!(r.match_type, "symbol");
    assert!(!r.symbols.is_empty());
    assert!(r.symbols.len() <= 50);
    assert!(r.connections.len() <= 100);
}

#[test]
fn test_search_graph_file_match() {
    let mut graph = CodeGraph::new();
    let file_idx = graph.add_file("src/auth.rs".to_string());
    let fn_idx = graph.add_symbol(
        "login".to_string(),
        NodeKind::Function,
        "src/auth.rs".to_string(),
        1,
        5,
        "fn login() {}".to_string(),
    );
    graph.add_edge(file_idx, fn_idx, EdgeKind::Defines);

    let r = graph.search_graph("auth", 0);
    assert_eq!(r.match_type, "file");
    assert_eq!(r.matched_files, vec!["src/auth.rs".to_string()]);
    assert_eq!(r.symbols.len(), 1);
    assert_eq!(r.symbols[0].name, "login");

    let none = graph.search_graph("zzz_missing", 1);
    assert_eq!(none.match_type, "none");
    assert!(none.symbols.is_empty());
    assert!(!none.truncated);
}

#[test]
fn test_duplicate_symbol_names_across_files() {
    let mut graph = CodeGraph::new();

    let file_a = graph.add_file("src/a.rs".to_string());
    let init_a = graph.add_symbol(
        "init".to_string(),
        NodeKind::Function,
        "src/a.rs".to_string(),
        1,
        5,
        "fn init() { /* a */ }".to_string(),
    );
    graph.add_edge(file_a, init_a, EdgeKind::Defines);

    let file_b = graph.add_file("src/b.rs".to_string());
    let init_b = graph.add_symbol(
        "init".to_string(),
        NodeKind::Function,
        "src/b.rs".to_string(),
        1,
        5,
        "fn init() { /* b */ }".to_string(),
    );
    graph.add_edge(file_b, init_b, EdgeKind::Defines);

    let results = graph.search("init", 10);
    assert_eq!(results.len(), 2);

    let qa = graph.find_qualified("src/a.rs", "init");
    let qb = graph.find_qualified("src/b.rs", "init");
    assert!(qa.is_some());
    assert!(qb.is_some());
    assert!(qa.unwrap().code_snippet.contains("/* a */"));
    assert!(qb.unwrap().code_snippet.contains("/* b */"));
}

#[test]
fn test_remove_nonexistent_file() {
    let mut graph = CodeGraph::new();
    graph.remove_file("does_not_exist.rs");
    assert_eq!(graph.stats().total_nodes, 0);
}

#[test]
fn test_stats_edge_count_excludes_nothing() {
    let mut graph = CodeGraph::new();
    let file_idx = graph.add_file("src/main.rs".to_string());
    let fn_idx = graph.add_symbol(
        "main".to_string(),
        NodeKind::Function,
        "src/main.rs".to_string(),
        1,
        5,
        "fn main() {}".to_string(),
    );
    graph.add_edge(file_idx, fn_idx, EdgeKind::Defines);

    assert_eq!(graph.stats().total_edges, 1);
}

#[test]
fn test_multiple_edges_same_nodes() {
    let mut graph = CodeGraph::new();
    let file_idx = graph.add_file("src/main.rs".to_string());
    let fn_idx = graph.add_symbol(
        "process".to_string(),
        NodeKind::Function,
        "src/main.rs".to_string(),
        1,
        5,
        "fn process() {}".to_string(),
    );

    graph.add_edge(file_idx, fn_idx, EdgeKind::Defines);
    graph.add_edge(file_idx, fn_idx, EdgeKind::Contains);

    assert_eq!(graph.stats().total_edges, 2);
}

#[test]
fn test_file_node_basename() {
    let mut graph = CodeGraph::new();
    graph.add_file("deep/nested/path/file.rs".to_string());
    let syms = graph.symbols_in_file("deep/nested/path/file.rs");
    assert!(syms.is_empty());
    let node = anchor::types::NodeData::new_file("deep/nested/path/file.rs".to_string());
    assert_eq!(node.name, "file.rs");
    assert_eq!(node.kind, NodeKind::File);
}

#[test]
fn test_search_graph_truncated_on_seed_cut() {
    // more than ten matching files: the seed limit is a limit too
    let mut graph = CodeGraph::new();
    for i in 0..12 {
        let path = format!("src/mod{}.rs", i);
        let f = graph.add_file(path.clone());
        let s = graph.add_symbol(
            format!("item{}", i),
            NodeKind::Function,
            path.clone(),
            1,
            2,
            format!("fn item{}() {{}}", i),
        );
        graph.add_edge(f, s, EdgeKind::Defines);
    }
    let r = graph.search_graph("mod", 0);
    assert_eq!(r.match_type, "file");
    assert_eq!(r.matched_files.len(), 10);
    assert!(r.truncated, "the ten-seed cut must set truncated");

    let small = graph.search_graph("mod3", 0);
    assert_eq!(small.matched_files.len(), 1);
    assert!(!small.truncated);
    assert_eq!(small.symbols.len(), 1);
    assert_eq!(small.symbols[0].name, "item3");
}
