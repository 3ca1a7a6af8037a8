//! The trusted boundary around tree-sitter: the parser, trees and
//! syntax nodes are opaque values, reached only through these
//! wrappers. The extractor walks nodes with an explicit work list and
//! a fuel budget, so nothing here needs to promise anything about a
//! tree's shape.

use vstd::prelude::*;

use crate::lang::SupportedLanguage;

verus! {

#[verifier::external_type_specification]
#[verifier::external_body]
pub struct ExLanguage(tree_sitter::Language);

#[verifier::external_type_specification]
#[verifier::external_body]
pub struct ExParser(tree_sitter::Parser);

#[verifier::external_type_specification]
#[verifier::external_body]
pub struct ExTree(tree_sitter::Tree);

#[verifier::external_type_specification]
#[verifier::external_body]
pub struct ExNode<'tree>(tree_sitter::Node<'tree>);

/// Relies on tree_sitter_rust's LANGUAGE grammar constant.
#[verifier::external_body]
fn lang_rust() -> tree_sitter::Language {
    tree_sitter_rust::LANGUAGE.into()
}

/// Relies on tree_sitter_python's LANGUAGE grammar constant.
#[verifier::external_body]
fn lang_python() -> tree_sitter::Language {
    tree_sitter_python::LANGUAGE.into()
}

/// Relies on tree_sitter_javascript's LANGUAGE grammar constant.
#[verifier::external_body]
fn lang_javascript() -> tree_sitter::Language {
    tree_sitter_javascript::LANGUAGE.into()
}

/// Relies on tree_sitter_typescript's LANGUAGE_TYPESCRIPT grammar
/// constant.
#[verifier::external_body]
fn lang_typescript() -> tree_sitter::Language {
    tree_sitter_typescript::LANGUAGE_TYPESCRIPT.into()
}

/// Relies on tree_sitter_typescript's LANGUAGE_TSX grammar constant.
#[verifier::external_body]
fn lang_tsx() -> tree_sitter::Language {
    tree_sitter_typescript::LANGUAGE_TSX.into()
}

/// Relies on tree_sitter_go's LANGUAGE grammar constant.
#[verifier::external_body]
fn lang_go() -> tree_sitter::Language {
    tree_sitter_go::LANGUAGE.into()
}

/// Relies on tree_sitter_java's LANGUAGE grammar constant.
#[verifier::external_body]
fn lang_java() -> tree_sitter::Language {
    tree_sitter_java::LANGUAGE.into()
}

/// Relies on tree_sitter_c_sharp's LANGUAGE grammar constant.
#[verifier::external_body]
fn lang_c_sharp() -> tree_sitter::Language {
    tree_sitter_c_sharp::LANGUAGE.into()
}

/// Relies on tree_sitter_ruby's LANGUAGE grammar constant.
#[verifier::external_body]
fn lang_ruby() -> tree_sitter::Language {
    tree_sitter_ruby::LANGUAGE.into()
}

/// Relies on tree_sitter_cpp's LANGUAGE grammar constant.
#[verifier::external_body]
fn lang_cpp() -> tree_sitter::Language {
    tree_sitter_cpp::LANGUAGE.into()
}

/// Relies on tree_sitter_swift's LANGUAGE grammar constant.
#[verifier::external_body]
fn lang_swift() -> tree_sitter::Language {
    tree_sitter_swift::LANGUAGE.into()
}

impl SupportedLanguage {
    /// The tree-sitter grammar handle for this language.
    pub fn tree_sitter_language(&self) -> tree_sitter::Language {
        match self {
            SupportedLanguage::Rust => lang_rust(),
            SupportedLanguage::Python => lang_python(),
            SupportedLanguage::JavaScript => lang_javascript(),
            SupportedLanguage::TypeScript => lang_typescript(),
            SupportedLanguage::Tsx => lang_tsx(),
            SupportedLanguage::Go => lang_go(),
            SupportedLanguage::Java => lang_java(),
            SupportedLanguage::CSharp => lang_c_sharp(),
            SupportedLanguage::Ruby => lang_ruby(),
            SupportedLanguage::Cpp => lang_cpp(),
            SupportedLanguage::Swift => lang_swift(),
        }
    }
}

/// Relies on tree_sitter's Parser::new.
#[verifier::external_body]
pub(crate) fn parser_new() -> tree_sitter::Parser {
    tree_sitter::Parser::new()
}

/// Relies on tree_sitter's Parser::set_language: true when the
/// grammar's ABI version is compatible.
#[verifier::external_body]
pub(crate) fn parser_set_language(p: &mut tree_sitter::Parser, l: &tree_sitter::Language) -> (r:
    bool) {
    p.set_language(l).is_ok()
}

/// Relies on tree_sitter's Parser::parse: `Some` tree for any input
/// once a language is set, parsing malformed source best-effort.
#[verifier::external_body]
pub(crate) fn parser_parse(p: &mut tree_sitter::Parser, text: &str) -> (r: Option<
    tree_sitter::Tree,
>) {
    p.parse(text, None)
}

/// Relies on tree_sitter's Tree::root_node.
#[verifier::external_body]
pub(crate) fn tree_root<'t>(t: &'t tree_sitter::Tree) -> (r: tree_sitter::Node<'t>) {
    t.root_node()
}

/// Relies on tree_sitter's Node::kind: the grammar's name for the
/// node.
#[verifier::external_body]
pub(crate) fn node_kind(n: &tree_sitter::Node<'_>) -> (r: String) {
    n.kind().to_string()
}

/// Relies on tree_sitter's Node::child_count.
#[verifier::external_body]
pub(crate) fn node_child_count(n: &tree_sitter::Node<'_>) -> (r: usize) {
    n.child_count() as usize
}

/// Relies on tree_sitter's Node::child: `Some` for positions below
/// the child count.
#[verifier::external_body]
pub(crate) fn node_child<'t>(n: &tree_sitter::Node<'t>, i: usize) -> (r: Option<
    tree_sitter::Node<'t>,
>) {
    if i <= u32::MAX as usize {
        n.child(i as u32)
    } else {
        None
    }
}

/// Relies on tree_sitter's Node::child_by_field_name.
#[verifier::external_body]
pub(crate) fn node_child_by_field<'t>(n: &tree_sitter::Node<'t>, field: &str) -> (r: Option<
    tree_sitter::Node<'t>,
>) {
    n.child_by_field_name(field)
}

/// Relies on tree_sitter's Node::start_position: the zero-based row.
#[verifier::external_body]
pub(crate) fn node_start_row(n: &tree_sitter::Node<'_>) -> (r: usize) {
    n.start_position().row
}

/// Relies on tree_sitter's Node::end_position: the zero-based row.
#[verifier::external_body]
pub(crate) fn node_end_row(n: &tree_sitter::Node<'_>) -> (r: usize) {
    n.end_position().row
}

/// Relies on tree_sitter's Node byte range and str slicing: the
/// node's verbatim text within the source it was parsed from, or
/// empty when the range is invalid.
#[verifier::external_body]
pub(crate) fn node_text(n: &tree_sitter::Node<'_>, source: &str) -> (r: String) {
    match source.as_bytes().get(n.start_byte()..n.end_byte()) {
        Some(bytes) => String::from_utf8_lossy(bytes).into_owned(),
        None => String::new(),
    }
}

} // verus!
