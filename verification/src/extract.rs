//! The extraction layer: parse a source file with the grammar its
//! extension selects, and walk the syntax tree into a uniform
//! `FileExtractions` record — symbols with parent links, imports, and
//! calls attributed to their innermost enclosing declaration.
//!
//! Malformed source is not a failure: the parser produces a partial
//! tree and the walk is best-effort, bounded by a fuel budget
//! proportional to the source size.

use vstd::prelude::*;

use crate::error::AnchorError;
use crate::lang::{spec_lang_of_path, SupportedLanguage};
use crate::strutil::streq;
use crate::tsw::{
    node_child, node_child_by_field, node_child_count, node_end_row, node_kind, node_start_row,
    node_text, parser_new, parser_parse, parser_set_language, tree_root,
};
use crate::types::{
    ExtractedCall, ExtractedImport, ExtractedSymbol, FileExtractions, NodeKind,
};

verus! {

/// The node kind that a grammar-level kind string declares, if any.
fn decl_kind(lang: SupportedLanguage, k: &str) -> (r: Option<NodeKind>) {
    match lang {
        SupportedLanguage::Rust => {
            if streq(k, "function_item") {
                Some(NodeKind::Function)
            } else if streq(k, "struct_item") {
                Some(NodeKind::Struct)
            } else if streq(k, "enum_item") {
                Some(NodeKind::Enum)
            } else if streq(k, "trait_item") {
                Some(NodeKind::Trait)
            } else if streq(k, "impl_item") {
                Some(NodeKind::Impl)
            } else if streq(k, "mod_item") {
                Some(NodeKind::Module)
            } else if streq(k, "type_item") {
                Some(NodeKind::Type)
            } else if streq(k, "const_item") || streq(k, "static_item") {
                Some(NodeKind::Constant)
            } else {
                None
            }
        },
        SupportedLanguage::Python => {
            if streq(k, "function_definition") {
                Some(NodeKind::Function)
            } else if streq(k, "class_definition") {
                Some(NodeKind::Class)
            } else {
                None
            }
        },
        SupportedLanguage::JavaScript | SupportedLanguage::TypeScript | SupportedLanguage::Tsx => {
            if streq(k, "function_declaration") || streq(k, "generator_function_declaration") {
                Some(NodeKind::Function)
            } else if streq(k, "class_declaration") || streq(k, "abstract_class_declaration") {
                Some(NodeKind::Class)
            } else if streq(k, "method_definition") {
                Some(NodeKind::Method)
            } else if streq(k, "interface_declaration") {
                Some(NodeKind::Interface)
            } else if streq(k, "type_alias_declaration") {
                Some(NodeKind::Type)
            } else if streq(k, "enum_declaration") {
                Some(NodeKind::Enum)
            } else {
                None
            }
        },
        SupportedLanguage::Go => {
            if streq(k, "function_declaration") {
                Some(NodeKind::Function)
            } else if streq(k, "method_declaration") {
                Some(NodeKind::Method)
            } else if streq(k, "type_spec") {
                Some(NodeKind::Type)
            } else {
                None
            }
        },
        SupportedLanguage::Java => {
            if streq(k, "class_declaration") {
                Some(NodeKind::Class)
            } else if streq(k, "interface_declaration") {
                Some(NodeKind::Interface)
            } else if streq(k, "method_declaration") {
                Some(NodeKind::Method)
            } else if streq(k, "enum_declaration") {
                Some(NodeKind::Enum)
            } else {
                None
            }
        },
        SupportedLanguage::CSharp => {
            if streq(k, "class_declaration") {
                Some(NodeKind::Class)
            } else if streq(k, "interface_declaration") {
                Some(NodeKind::Interface)
            } else if streq(k, "method_declaration") {
                Some(NodeKind::Method)
            } else if streq(k, "struct_declaration") {
                Some(NodeKind::Struct)
            } else if streq(k, "enum_declaration") {
                Some(NodeKind::Enum)
            } else {
                None
            }
        },
        SupportedLanguage::Ruby => {
            if streq(k, "method") || streq(k, "singleton_method") {
                Some(NodeKind::Function)
            } else if streq(k, "class") {
                Some(NodeKind::Class)
            } else if streq(k, "module") {
                Some(NodeKind::Module)
            } else {
                None
            }
        },
        SupportedLanguage::Cpp => {
            if streq(k, "function_definition") {
                Some(NodeKind::Function)
            } else if streq(k, "struct_specifier") {
                Some(NodeKind::Struct)
            } else if streq(k, "class_specifier") {
                Some(NodeKind::Class)
            } else if streq(k, "enum_specifier") {
                Some(NodeKind::Enum)
            } else {
                None
            }
        },
        SupportedLanguage::Swift => {
            if streq(k, "function_declaration") {
                Some(NodeKind::Function)
            } else if streq(k, "class_declaration") {
                Some(NodeKind::Class)
            } else if streq(k, "protocol_declaration") {
                Some(NodeKind::Interface)
            } else {
                None
            }
        },
    }
}

/// Whether symbols nested below a declaration of this kind carry it
/// as their parent.
fn is_container_kind(k: NodeKind) -> (r: bool) {
    match k {
        NodeKind::Class => true,
        NodeKind::Interface => true,
        NodeKind::Enum => true,
        NodeKind::Trait => true,
        NodeKind::Impl => true,
        NodeKind::Module => true,
        NodeKind::Struct => true,
        _ => false,
    }
}

/// Whether a grammar-level kind string is an import statement.
fn is_import_kind(lang: SupportedLanguage, k: &str) -> (r: bool) {
    match lang {
        SupportedLanguage::Rust => streq(k, "use_declaration"),
        SupportedLanguage::Python => streq(k, "import_statement") || streq(
            k,
            "import_from_statement",
        ),
        SupportedLanguage::JavaScript | SupportedLanguage::TypeScript | SupportedLanguage::Tsx => {
            streq(k, "import_statement")
        },
        SupportedLanguage::Go => streq(k, "import_declaration"),
        SupportedLanguage::Java => streq(k, "import_declaration"),
        SupportedLanguage::CSharp => streq(k, "using_directive"),
        SupportedLanguage::Ruby => false,
        SupportedLanguage::Cpp => streq(k, "preproc_include"),
        SupportedLanguage::Swift => streq(k, "import_declaration"),
    }
}

/// Whether a grammar-level kind string is a call expression.
fn is_call_kind(lang: SupportedLanguage, k: &str) -> (r: bool) {
    match lang {
        SupportedLanguage::Rust => streq(k, "call_expression") || streq(k, "macro_invocation"),
        SupportedLanguage::Python => streq(k, "call"),
        SupportedLanguage::JavaScript | SupportedLanguage::TypeScript | SupportedLanguage::Tsx => {
            streq(k, "call_expression")
        },
        SupportedLanguage::Go => streq(k, "call_expression"),
        SupportedLanguage::Java => streq(k, "method_invocation"),
        SupportedLanguage::CSharp => streq(k, "invocation_expression"),
        SupportedLanguage::Ruby => streq(k, "call"),
        SupportedLanguage::Cpp => streq(k, "call_expression"),
        SupportedLanguage::Swift => streq(k, "call_expression"),
    }
}

/// One-based line of a zero-based parser row.
pub(crate) fn line_of(row: usize) -> (r: usize)
    ensures
        r >= 1,
{
    if row == usize::MAX {
        row
    } else {
        row + 1
    }
}

/// The declared name of a declaration node: the `name` field, the
/// `type` field of an impl block, or the identifier buried in a C++
/// declarator.
fn decl_name(node: &tree_sitter::Node<'_>, source: &str) -> (r: Option<String>) {
    match node_child_by_field(node, "name") {
        Some(n) => Some(node_text(&n, source)),
        None => {
            match node_child_by_field(node, "type") {
                Some(n) => Some(node_text(&n, source)),
                None => {
                    // descend through declarators, as C++ nests them
                    let mut cur = match node_child_by_field(node, "declarator") {
                        Some(c) => c,
                        None => {
                            return None;
                        },
                    };
                    let mut steps: usize = 0;
                    while steps < 4
                        decreases 4 - steps,
                    {
                        let k = node_kind(&cur);
                        if streq(k.as_str(), "identifier") || streq(k.as_str(), "field_identifier")
                            || streq(k.as_str(), "qualified_identifier") {
                            return Some(node_text(&cur, source));
                        }
                        match node_child_by_field(&cur, "declarator") {
                            Some(c) => {
                                cur = c;
                            },
                            None => {
                                return None;
                            },
                        }
                        steps += 1;
                    }
                    None
                },
            }
        },
    }
}

/// The called name of a call node: the plain identifier, or the final
/// segment of a field, attribute or path expression.
fn callee_name(node: &tree_sitter::Node<'_>, source: &str) -> (r: Option<String>) {
    let f = match node_child_by_field(node, "function") {
        Some(f) => f,
        None => {
            match node_child_by_field(node, "name") {
                Some(f) => f,
                None => {
                    match node_child_by_field(node, "method") {
                        Some(f) => f,
                        None => {
                            return None;
                        },
                    }
                },
            }
        },
    };
    let k = node_kind(&f);
    if streq(k.as_str(), "identifier") || streq(k.as_str(), "field_identifier") || streq(
        k.as_str(),
        "simple_identifier",
    ) {
        Some(node_text(&f, source))
    } else if streq(k.as_str(), "scoped_identifier") {
        match node_child_by_field(&f, "name") {
            Some(n) => Some(node_text(&n, source)),
            None => Some(node_text(&f, source)),
        }
    } else if streq(k.as_str(), "field_expression") {
        match node_child_by_field(&f, "field") {
            Some(n) => Some(node_text(&n, source)),
            None => Some(node_text(&f, source)),
        }
    } else if streq(k.as_str(), "attribute") {
        match node_child_by_field(&f, "attribute") {
            Some(n) => Some(node_text(&n, source)),
            None => Some(node_text(&f, source)),
        }
    } else if streq(k.as_str(), "member_expression") {
        match node_child_by_field(&f, "property") {
            Some(n) => Some(node_text(&n, source)),
            None => Some(node_text(&f, source)),
        }
    } else if streq(k.as_str(), "selector_expression") {
        match node_child_by_field(&f, "field") {
            Some(n) => Some(node_text(&n, source)),
            None => Some(node_text(&f, source)),
        }
    } else {
        Some(node_text(&f, source))
    }
}

/// Extract declarations, imports and calls from one file's source.
/// Fails with `UnsupportedLanguage` exactly when the extension maps
/// to no language; malformed source parses best-effort.
pub fn extract_file(path: &str, source: &str) -> (r: Result<FileExtractions, AnchorError>)
    ensures
        (spec_lang_of_path(path@) is None) <==> (r matches Err(AnchorError::UnsupportedLanguage(_))),
        match r {
            Ok(fx) => {
                &&& spec_lang_of_path(path@) is Some
                &&& fx.file_path@ == path@
                &&& forall|i: int|
                    0 <= i < fx.symbols@.len() ==> (#[trigger] fx.symbols@[i]).line_start >= 1
                &&& forall|i: int|
                    0 <= i < fx.imports@.len() ==> (#[trigger] fx.imports@[i]).line >= 1
                &&& forall|i: int|
                    0 <= i < fx.calls@.len() ==> (#[trigger] fx.calls@[i]).line >= 1
            },
            Err(e) => match e {
                AnchorError::UnsupportedLanguage(p) => p@ == path@,
                AnchorError::ParseError(p, _) => spec_lang_of_path(path@) is Some && p@ == path@,
                _ => false,
            },
        },
{
    let lang = match SupportedLanguage::from_path(path) {
        Some(l) => l,
        None => {
            return Err(AnchorError::UnsupportedLanguage(path.to_owned()));
        },
    };
    let grammar = lang.tree_sitter_language();
    let mut parser = parser_new();
    if !parser_set_language(&mut parser, &grammar) {
        return Err(
            AnchorError::ParseError(path.to_owned(), "grammar version mismatch".to_owned()),
        );
    }
    let tree = match parser_parse(&mut parser, source) {
        Some(t) => t,
        None => {
            return Err(AnchorError::ParseError(path.to_owned(), "parser gave up".to_owned()));
        },
    };
    let mut symbols: Vec<ExtractedSymbol> = Vec::new();
    let mut imports: Vec<ExtractedImport> = Vec::new();
    let mut calls: Vec<ExtractedCall> = Vec::new();
    let root = tree_root(&tree);
    let base = source.len();
    let mut fuel: u64 = if (base as u64) < 0x0fff_ffff_ffffu64 {
        (base as u64) * 4 + 4096
    } else {
        0xffff_ffff_ffff_ffffu64
    };
    let mut stack: Vec<(tree_sitter::Node<'_>, Option<String>, Option<String>)> = Vec::new();
    stack.push((root, None, None));
    while stack.len() > 0 && fuel > 0
        invariant
            forall|i: int| 0 <= i < symbols@.len() ==> (#[trigger] symbols@[i]).line_start >= 1,
            forall|i: int| 0 <= i < imports@.len() ==> (#[trigger] imports@[i]).line >= 1,
            forall|i: int| 0 <= i < calls@.len() ==> (#[trigger] calls@[i]).line >= 1,
        decreases fuel,
    {
        fuel = fuel - 1;
        let (node, container, caller) = match stack.pop() {
            Some(x) => x,
            None => {
                break ;
            },
        };
        let k = node_kind(&node);
        let mut child_container = container.clone();
        let mut child_caller = caller.clone();
        let mut descend = true;
        match decl_kind(lang, k.as_str()) {
            Some(dk) => {
                match decl_name(&node, source) {
                    Some(name) => {
                        let kind = if dk == NodeKind::Function && container.is_some() {
                            NodeKind::Method
                        } else {
                            dk
                        };
                        symbols.push(
                            ExtractedSymbol {
                                name: name.clone(),
                                kind,
                                line_start: line_of(node_start_row(&node)),
                                line_end: line_of(node_end_row(&node)),
                                code_snippet: node_text(&node, source),
                                parent: container.clone(),
                            },
                        );
                        if is_container_kind(kind) {
                            child_container = Some(name.clone());
                        }
                        if kind == NodeKind::Function || kind == NodeKind::Method {
                            child_caller = Some(name);
                        }
                    },
                    None => {},
                }
            },
            None => {
                if is_import_kind(lang, k.as_str()) {
                    imports.push(
                        ExtractedImport {
                            path: node_text(&node, source),
                            symbols: Vec::new(),
                            line: line_of(node_start_row(&node)),
                        },
                    );
                    descend = false;
                } else if is_call_kind(lang, k.as_str()) {
                    match &caller {
                        Some(c) => {
                            match callee_name(&node, source) {
                                Some(callee) => {
                                    calls.push(
                                        ExtractedCall {
                                            callee,
                                            caller: c.clone(),
                                            line: line_of(node_start_row(&node)),
                                        },
                                    );
                                },
                                None => {},
                            }
                        },
                        None => {},
                    }
                }
            },
        }
        if descend {
            let cc = node_child_count(&node);
            let mut i: usize = cc;
            while i > 0
                invariant
                    0 <= i <= cc,
                decreases i,
            {
                i -= 1;
                match node_child(&node, i) {
                    Some(ch) => {
                        stack.push((ch, child_container.clone(), child_caller.clone()));
                    },
                    None => {},
                }
            }
        }
    }
    Ok(FileExtractions { file_path: path.to_owned(), symbols, imports, calls })
}

} // verus!
