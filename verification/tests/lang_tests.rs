//! The language registry and the data-model constructors.

use anchor::lang::SupportedLanguage;
use anchor::types::{EdgeData, EdgeKind, NodeData, NodeKind};

#[test]
fn test_from_path_extensions() {
    assert_eq!(SupportedLanguage::from_path("a/b/main.rs"), Some(SupportedLanguage::Rust));
    assert_eq!(SupportedLanguage::from_path("x.py"), Some(SupportedLanguage::Python));
    assert_eq!(SupportedLanguage::from_path("x.pyw"), Some(SupportedLanguage::Python));
    assert_eq!(SupportedLanguage::from_path("x.mjs"), Some(SupportedLanguage::JavaScript));
    assert_eq!(SupportedLanguage::from_path("x.cts"), Some(SupportedLanguage::TypeScript));
    assert_eq!(SupportedLanguage::from_path("x.tsx"), Some(SupportedLanguage::Tsx));
    assert_eq!(SupportedLanguage::from_path("x.jsx"), Some(SupportedLanguage::Tsx));
    assert_eq!(SupportedLanguage::from_path("x.go"), Some(SupportedLanguage::Go));
    assert_eq!(SupportedLanguage::from_path("x.java"), Some(SupportedLanguage::Java));
    assert_eq!(SupportedLanguage::from_path("x.cs"), Some(SupportedLanguage::CSharp));
    assert_eq!(SupportedLanguage::from_path("x.rb"), Some(SupportedLanguage::Ruby));
    assert_eq!(SupportedLanguage::from_path("x.hpp"), Some(SupportedLanguage::Cpp));
    assert_eq!(SupportedLanguage::from_path("x.swift"), Some(SupportedLanguage::Swift));
    assert_eq!(SupportedLanguage::from_path("x.lua"), None);
    assert_eq!(SupportedLanguage::from_path("Makefile"), None);
    assert_eq!(SupportedLanguage::from_path(".hidden"), None);
    assert_eq!(SupportedLanguage::from_path("dir.rs/file"), None);
}

#[test]
fn test_language_names() {
    assert_eq!(SupportedLanguage::Rust.name(), "Rust");
    assert_eq!(SupportedLanguage::CSharp.name(), "C#");
    assert_eq!(SupportedLanguage::Tsx.name(), "TSX");
}

#[test]
fn test_same_ecosystem() {
    let js = SupportedLanguage::JavaScript;
    let ts = SupportedLanguage::TypeScript;
    let tsx = SupportedLanguage::Tsx;
    let rust = SupportedLanguage::Rust;
    let go = SupportedLanguage::Go;
    assert!(js.same_ecosystem(&ts));
    assert!(ts.same_ecosystem(&tsx));
    assert!(tsx.same_ecosystem(&js));
    assert!(rust.same_ecosystem(&rust));
    assert!(!rust.same_ecosystem(&go));
    assert!(!js.same_ecosystem(&rust));
}

#[test]
fn test_kind_labels() {
    assert_eq!(NodeKind::Function.label(), "function");
    assert_eq!(NodeKind::Interface.label(), "interface");
    assert_eq!(EdgeKind::UsesType.label(), "uses_type");
    assert_eq!(EdgeKind::Calls.label(), "calls");
}

#[test]
fn test_node_constructors() {
    let f = NodeData::new_file("src/a/b.rs".to_string());
    assert_eq!(f.name, "b.rs");
    assert_eq!(f.kind, NodeKind::File);
    assert_eq!(f.file_path, "src/a/b.rs");
    assert_eq!(f.line_start, 0);
    assert!(!f.removed);

    let s = NodeData::new_symbol(
        "x".to_string(),
        NodeKind::Constant,
        "a.rs".to_string(),
        3,
        4,
        "const X: u8 = 1;".to_string(),
    );
    assert_eq!(s.name, "x");
    assert_eq!(s.kind, NodeKind::Constant);
    assert_eq!(s.line_start, 3);
    assert_eq!(s.line_end, 4);
    assert!(!s.removed);

    let e = EdgeData::new(EdgeKind::Returns);
    assert_eq!(e.kind, EdgeKind::Returns);
}
