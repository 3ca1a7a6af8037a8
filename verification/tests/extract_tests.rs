//! Extraction: language detection, per-language walking, and the
//! query façade over freshly built graphs.

use anchor::engine::CodeGraph;
use anchor::error::AnchorError;
use anchor::extract::extract_file;
use anchor::facade::{
    anchor_dependencies, anchor_file_symbols, anchor_search, anchor_stats, get_context, Query,
};
use anchor::types::NodeKind;

#[test]
fn test_extract_unsupported_language() {
    let result = extract_file("main.lua", "print('hello')");
    assert!(result.is_err());
    assert!(matches!(
        result.unwrap_err(),
        AnchorError::UnsupportedLanguage(_)
    ));
}

#[test]
fn test_extract_empty_source() {
    let extraction = extract_file("empty.rs", "").unwrap();
    assert!(extraction.symbols.is_empty());
    assert!(extraction.imports.is_empty());
    assert!(extraction.calls.is_empty());
}

#[test]
fn test_extract_malformed_syntax() {
    let source = "fn broken( { struct }}}";
    let result = extract_file("bad.rs", source);
    assert!(result.is_ok());
}

#[test]
fn test_extract_no_extension() {
    let result = extract_file("Makefile", "all: build");
    assert!(result.is_err());
    assert!(matches!(
        result.unwrap_err(),
        AnchorError::UnsupportedLanguage(_)
    ));
}

#[test]
fn test_parse_rust_code() {
    let source = r#"
use std::collections::HashMap;

pub struct Config {
    name: String,
    values: HashMap<String, i32>,
}

impl Config {
    pub fn new(name: &str) -> Self {
        Config {
            name: name.to_string(),
            values: HashMap::new(),
        }
    }

    pub fn get(&self, key: &str) -> Option<&i32> {
        self.values.get(key)
    }

    pub fn set(&mut self, key: String, value: i32) {
        self.values.insert(key, value);
    }
}

fn main() {
    let mut config = Config::new("test");
    config.set("port".to_string(), 8080);
    println!("{:?}", config.get("port"));
}
"#;
    let extraction = extract_file("test.rs", source).unwrap();

    assert!(!extraction.symbols.is_empty());

    let symbol_names: Vec<&str> = extraction.symbols.iter().map(|s| s.name.as_str()).collect();
    assert!(symbol_names.contains(&"Config"));
    assert!(symbol_names.contains(&"main"));
    assert!(symbol_names.contains(&"new"));
    assert!(symbol_names.contains(&"get"));
    assert!(symbol_names.contains(&"set"));

    assert!(!extraction.imports.is_empty());
    assert!(extraction.imports[0].path.contains("HashMap"));

    let mut graph = CodeGraph::new();
    graph.build_from_extractions(vec![extraction]);

    let stats = graph.stats();
    assert!(stats.symbol_count >= 5);
    assert_eq!(stats.file_count, 1);

    let results = graph.search("Config", 3);
    assert!(!results.is_empty());
    assert_eq!(results[0].symbol, "Config");

    let results = graph.search("main", 3);
    assert!(!results.is_empty());
}

#[test]
fn test_parse_python_code() {
    let source = r#"
import os
from typing import Optional, List

class UserService:
    def __init__(self, db):
        self.db = db

    def get_user(self, user_id: int) -> Optional[dict]:
        return self.db.find(user_id)

    def create_user(self, name: str) -> dict:
        return self.db.insert({"name": name})

def main():
    service = UserService(None)
    user = service.get_user(1)
    print(user)
"#;
    let extraction = extract_file("test.py", source).unwrap();

    let symbol_names: Vec<&str> = extraction.symbols.iter().map(|s| s.name.as_str()).collect();
    assert!(symbol_names.contains(&"UserService"));
    assert!(symbol_names.contains(&"main"));
    assert!(symbol_names.contains(&"get_user"));

    let mut graph = CodeGraph::new();
    graph.build_from_extractions(vec![extraction]);

    let results = graph.search("UserService", 3);
    assert!(!results.is_empty());
    assert_eq!(results[0].kind, NodeKind::Class);
}

#[test]
fn test_parse_javascript_code() {
    let source = r#"
import { useState } from 'react';
import axios from 'axios';

class ApiClient {
    constructor(baseUrl) {
        this.baseUrl = baseUrl;
    }

    async fetchData(endpoint) {
        return axios.get(`${this.baseUrl}/${endpoint}`);
    }
}

function App() {
    const [data, setData] = useState(null);
    return data;
}

const API_URL = "https://api.example.com";
"#;
    let extraction = extract_file("test.js", source).unwrap();

    let symbol_names: Vec<&str> = extraction.symbols.iter().map(|s| s.name.as_str()).collect();
    assert!(symbol_names.contains(&"ApiClient"));
    assert!(symbol_names.contains(&"App"));

    assert!(!extraction.imports.is_empty());

    let mut graph = CodeGraph::new();
    graph.build_from_extractions(vec![extraction]);

    let results = graph.search("ApiClient", 3);
    assert!(!results.is_empty());
    assert_eq!(results[0].kind, NodeKind::Class);
}

#[test]
fn test_parse_typescript_code() {
    let source = r#"
import { Request, Response } from 'express';

interface UserDTO {
    id: number;
    name: string;
}

type UserID = number;

enum Role {
    Admin,
    User,
    Guest,
}

class UserController {
    async getUser(req: Request, res: Response): Promise<void> {
        const user = await this.findUser(req.params.id);
        res.json(user);
    }
}

function createApp(): void {
    console.log("starting");
}
"#;
    let extraction = extract_file("test.ts", source).unwrap();

    let symbol_names: Vec<&str> = extraction.symbols.iter().map(|s| s.name.as_str()).collect();
    assert!(symbol_names.contains(&"UserDTO"), "Should find interface");
    assert!(symbol_names.contains(&"UserID"), "Should find type alias");
    assert!(symbol_names.contains(&"Role"), "Should find enum");
    assert!(symbol_names.contains(&"UserController"), "Should find class");
    assert!(symbol_names.contains(&"createApp"), "Should find function");

    let mut graph = CodeGraph::new();
    graph.build_from_extractions(vec![extraction]);

    let results = graph.search("UserDTO", 3);
    assert!(!results.is_empty());
    assert_eq!(results[0].kind, NodeKind::Interface);
}

#[test]
fn test_parse_unicode_identifiers_python() {
    let source = "
def café():
    return \"coffee\"

class Ñoño:
    pass
";
    let extraction = extract_file("test_unicode.py", source).unwrap();

    let symbol_names: Vec<&str> = extraction.symbols.iter().map(|s| s.name.as_str()).collect();
    assert!(
        symbol_names.contains(&"café"),
        "Should find unicode function name"
    );
    assert!(
        symbol_names.contains(&"Ñoño"),
        "Should find unicode class name"
    );

    let mut graph = CodeGraph::new();
    graph.build_from_extractions(vec![extraction]);

    let results = graph.search("café", 3);
    assert!(!results.is_empty(), "Should find unicode symbol via search");
}

#[test]
fn test_query_api() {
    let source = r#"
pub fn login(username: &str, password: &str) -> bool {
    validate(username);
    check_password(password);
    true
}

fn validate(input: &str) -> bool {
    !input.is_empty()
}

fn check_password(pw: &str) -> bool {
    pw.len() >= 8
}
"#;
    let extraction = extract_file("auth.rs", source).unwrap();

    let mut graph = CodeGraph::new();
    graph.build_from_extractions(vec![extraction]);

    let response = anchor_search(&graph, Query::Simple("login".to_string()));
    assert!(response.found);
    assert_eq!(response.count, 1);
    assert_eq!(response.results[0].symbol, "login");
    assert!(response.results[0].code.contains("pub fn login"));

    let response = anchor_search(
        &graph,
        Query::Structured {
            symbol: "validate".to_string(),
            kind: Some("function".to_string()),
            file: None,
        },
    );
    assert!(response.found);
    assert_eq!(response.results[0].symbol, "validate");

    let deps = anchor_dependencies(&graph, "login");
    assert!(!deps.dependencies.is_empty() || deps.dependents.is_empty());

    let stats_response = anchor_stats(&graph);
    assert!(stats_response.stats.symbol_count >= 3);
}

#[test]
fn test_file_symbols_query() {
    let source = "
fn alpha() {}
fn beta() {}
struct Gamma {}
";
    let extraction = extract_file("src/abc.rs", source).unwrap();

    let mut graph = CodeGraph::new();
    graph.build_from_extractions(vec![extraction]);

    let response = anchor_file_symbols(&graph, "src/abc.rs");
    assert!(response.found);
    assert_eq!(response.symbols.len(), 3);

    let names: Vec<&str> = response.symbols.iter().map(|s| s.name.as_str()).collect();
    assert!(names.contains(&"alpha"));
    assert!(names.contains(&"beta"));
    assert!(names.contains(&"Gamma"));
}

#[test]
fn test_file_symbols_nonexistent() {
    let graph = CodeGraph::new();
    let response = anchor_file_symbols(&graph, "nonexistent.rs");
    assert!(!response.found);
    assert!(response.symbols.is_empty());
}

#[test]
fn test_get_context_intents() {
    let source = r#"
pub fn process(input: &str) -> String {
    validate(input);
    transform(input)
}

fn validate(s: &str) -> bool {
    !s.is_empty()
}

fn transform(s: &str) -> String {
    s.to_uppercase()
}
"#;
    let extraction = extract_file("src/lib.rs", source).unwrap();

    let mut graph = CodeGraph::new();
    graph.build_from_extractions(vec![extraction]);

    let response = get_context(&graph, "validate", "explore");
    assert!(response.found);
    assert!(!response.symbols.is_empty());
    assert_eq!(response.intent, "explore");

    let response = get_context(&graph, "validate", "change");
    assert!(response.found);
    assert_eq!(response.intent, "change");

    let response = get_context(&graph, "validate", "create");
    assert!(response.found);
    assert_eq!(response.intent, "create");
}

#[test]
fn test_single_file_rust_extract() {
    let source = "fn add(a:i32,b:i32)->i32{a+b} fn mul(a:i32,b:i32)->i32{add(a,b)}";
    let extraction = extract_file("src/lib.rs", source).unwrap();
    assert_eq!(extraction.symbols.len(), 2);

    let mut graph = CodeGraph::new();
    graph.build_from_extractions(vec![extraction]);

    let results = graph.search("mul", 5);
    assert_eq!(results.len(), 1);
    assert_eq!(results[0].calls.len(), 1);
    assert_eq!(results[0].calls[0].name, "add");
    assert_eq!(results[0].calls[0].file, "src/lib.rs");
    assert_eq!(results[0].calls[0].line, 1);
}

#[test]
fn test_duplicate_names_across_ingested_files() {
    let a = extract_file("a.rs", "fn init(){}").unwrap();
    let b = extract_file("b.rs", "fn init(){}").unwrap();
    let mut graph = CodeGraph::new();
    graph.build_from_extractions(vec![a, b]);

    let results = graph.search("init", 10);
    assert_eq!(results.len(), 2);
    let qa = graph.find_qualified("a.rs", "init").unwrap();
    let qb = graph.find_qualified("b.rs", "init").unwrap();
    assert_eq!(qa.file_path, "a.rs");
    assert_eq!(qb.file_path, "b.rs");
}

#[test]
fn test_remove_search_hides_symbol() {
    let ex = extract_file("auth.rs", "fn login(){}").unwrap();
    let mut graph = CodeGraph::new();
    graph.build_from_extractions(vec![ex]);
    assert_eq!(graph.search("login", 5).len(), 1);

    graph.remove_file("auth.rs");
    assert!(graph.search("login", 5).is_empty());
    assert_eq!(graph.stats().symbol_count, 0);
}

#[test]
fn test_remove_clears_incoming_calls() {
    let main_ex = extract_file("main.rs", "fn main(){ login(); }").unwrap();
    let auth_ex = extract_file("auth.rs", "fn login(){}").unwrap();
    let mut graph = CodeGraph::new();
    graph.build_from_extractions(vec![auth_ex, main_ex]);

    let before = graph.search("login", 5);
    assert_eq!(before.len(), 1);
    assert_eq!(before[0].called_by.len(), 1);

    graph.remove_file("main.rs");

    let after = graph.search("login", 5);
    assert_eq!(after.len(), 1, "login itself should still exist");
    assert!(after[0].called_by.is_empty());
}
