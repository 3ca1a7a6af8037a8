//! Core data model: node and edge kinds, node payloads, and the
//! intermediate records produced by extraction.

use vstd::prelude::*;

use crate::strutil::{basename_chars, string_from_chars, to_char_vec};

verus! {

/// The kind of a node in the code graph.
#[derive(Clone, Copy, Debug, PartialEq, Eq, Hash, Structural)]
pub enum NodeKind {
    File,
    Function,
    Method,
    Struct,
    Class,
    Interface,
    Enum,
    Type,
    Constant,
    Module,
    Import,
    Trait,
    Impl,
    Variable,
}

/// The lower-case label of a node kind, as used in query filters
/// and serialized output.
pub open spec fn kind_label(k: NodeKind) -> Seq<char> {
    match k {
        NodeKind::File => "file"@,
        NodeKind::Function => "function"@,
        NodeKind::Method => "method"@,
        NodeKind::Struct => "struct"@,
        NodeKind::Class => "class"@,
        NodeKind::Interface => "interface"@,
        NodeKind::Enum => "enum"@,
        NodeKind::Type => "type"@,
        NodeKind::Constant => "constant"@,
        NodeKind::Module => "module"@,
        NodeKind::Import => "import"@,
        NodeKind::Trait => "trait"@,
        NodeKind::Impl => "impl"@,
        NodeKind::Variable => "variable"@,
    }
}

impl NodeKind {
    /// The lower-case label of this kind.
    pub fn label(&self) -> (r: &'static str)
        ensures
            r@ == kind_label(*self),
    {
        match self {
            NodeKind::File => "file",
            NodeKind::Function => "function",
            NodeKind::Method => "method",
            NodeKind::Struct => "struct",
            NodeKind::Class => "class",
            NodeKind::Interface => "interface",
            NodeKind::Enum => "enum",
            NodeKind::Type => "type",
            NodeKind::Constant => "constant",
            NodeKind::Module => "module",
            NodeKind::Import => "import",
            NodeKind::Trait => "trait",
            NodeKind::Impl => "impl",
            NodeKind::Variable => "variable",
        }
    }
}

/// The kind of a directed edge in the code graph.
#[derive(Clone, Copy, Debug, PartialEq, Eq, Hash, Structural)]
pub enum EdgeKind {
    Defines,
    Calls,
    Imports,
    Contains,
    UsesType,
    Implements,
    Extends,
    Exports,
    References,
    Parameter,
    Returns,
}

/// The lower-case label of an edge kind.
pub open spec fn edge_label(k: EdgeKind) -> Seq<char> {
    match k {
        EdgeKind::Defines => "defines"@,
        EdgeKind::Calls => "calls"@,
        EdgeKind::Imports => "imports"@,
        EdgeKind::Contains => "contains"@,
        EdgeKind::UsesType => "uses_type"@,
        EdgeKind::Implements => "implements"@,
        EdgeKind::Extends => "extends"@,
        EdgeKind::Exports => "exports"@,
        EdgeKind::References => "references"@,
        EdgeKind::Parameter => "parameter"@,
        EdgeKind::Returns => "returns"@,
    }
}

impl EdgeKind {
    /// The lower-case label of this kind.
    pub fn label(&self) -> (r: &'static str)
        ensures
            r@ == edge_label(*self),
    {
        match self {
            EdgeKind::Defines => "defines",
            EdgeKind::Calls => "calls",
            EdgeKind::Imports => "imports",
            EdgeKind::Contains => "contains",
            EdgeKind::UsesType => "uses_type",
            EdgeKind::Implements => "implements",
            EdgeKind::Extends => "extends",
            EdgeKind::Exports => "exports",
            EdgeKind::References => "references",
            EdgeKind::Parameter => "parameter",
            EdgeKind::Returns => "returns",
        }
    }
}

/// The mathematical model of a node payload: every field as a plain
/// sequence or scalar.
pub ghost struct NodeView {
    pub name: Seq<char>,
    pub kind: NodeKind,
    pub file_path: Seq<char>,
    pub line_start: int,
    pub line_end: int,
    pub code_snippet: Seq<char>,
    pub removed: bool,
}

/// Data stored in a graph node.
#[derive(Clone, Debug)]
pub struct NodeData {
    /// The name of the symbol (for files: the basename of the path).
    pub name: String,
    /// What kind of code element this is.
    pub kind: NodeKind,
    /// The file this symbol is defined in.
    pub file_path: String,
    /// Starting line number (1-indexed).
    pub line_start: usize,
    /// Ending line number (1-indexed).
    pub line_end: usize,
    /// The verbatim source code span.
    pub code_snippet: String,
    /// Soft-delete flag: removed nodes are skipped by every query and
    /// dropped by compaction.
    pub removed: bool,
}

impl View for NodeData {
    type V = NodeView;

    open spec fn view(&self) -> NodeView {
        NodeView {
            name: self.name@,
            kind: self.kind,
            file_path: self.file_path@,
            line_start: self.line_start as int,
            line_end: self.line_end as int,
            code_snippet: self.code_snippet@,
            removed: self.removed,
        }
    }
}

impl NodeData {
    /// Build the payload of a `File` node: the name is the basename of
    /// the path, lines are zero, and the snippet is empty.
    pub fn new_file(path: String) -> (r: NodeData)
        ensures
            r@.name == crate::strutil::spec_basename(path@),
            r@.kind == NodeKind::File,
            r@.file_path == path@,
            r@.line_start == 0,
            r@.line_end == 0,
            r@.code_snippet == Seq::<char>::empty(),
            r@.removed == false,
    {
        let chars = to_char_vec(path.as_str());
        let base = basename_chars(&chars);
        let name = string_from_chars(&base);
        NodeData {
            name,
            kind: NodeKind::File,
            file_path: path,
            line_start: 0,
            line_end: 0,
            code_snippet: String::new(),
            removed: false,
        }
    }

    /// Build the payload of a symbol node; the node starts live.
    pub fn new_symbol(
        name: String,
        kind: NodeKind,
        file_path: String,
        line_start: usize,
        line_end: usize,
        code_snippet: String,
    ) -> (r: NodeData)
        ensures
            r@ == (NodeView {
                name: name@,
                kind: kind,
                file_path: file_path@,
                line_start: line_start as int,
                line_end: line_end as int,
                code_snippet: code_snippet@,
                removed: false,
            }),
    {
        NodeData { name, kind, file_path, line_start, line_end, code_snippet, removed: false }
    }

    /// A field-wise copy whose model equals this node's model.
    pub fn duplicate(&self) -> (r: NodeData)
        ensures
            r@ == self@,
    {
        NodeData {
            name: self.name.clone(),
            kind: self.kind,
            file_path: self.file_path.clone(),
            line_start: self.line_start,
            line_end: self.line_end,
            code_snippet: self.code_snippet.clone(),
            removed: self.removed,
        }
    }
}

/// Data stored on a graph edge.
#[derive(Clone, Copy, Debug, PartialEq, Eq, Structural)]
pub struct EdgeData {
    /// The kind of relationship.
    pub kind: EdgeKind,
}

impl EdgeData {
    pub fn new(kind: EdgeKind) -> (r: EdgeData)
        ensures
            r.kind == kind,
    {
        EdgeData { kind }
    }
}

/// The model of an extracted symbol.
pub ghost struct SymView {
    pub name: Seq<char>,
    pub kind: NodeKind,
    pub line_start: int,
    pub line_end: int,
    pub code_snippet: Seq<char>,
    pub parent: Option<Seq<char>>,
}

/// The model of an extracted import.
pub ghost struct ImpView {
    pub path: Seq<char>,
    pub symbols: Seq<Seq<char>>,
    pub line: int,
}

/// The model of an extracted call.
pub ghost struct CallView {
    pub callee: Seq<char>,
    pub caller: Seq<char>,
    pub line: int,
}

/// The model of one file's extractions.
pub ghost struct ExtractionView {
    pub file_path: Seq<char>,
    pub symbols: Seq<SymView>,
    pub imports: Seq<ImpView>,
    pub calls: Seq<CallView>,
}

/// A symbol extracted from parsing one source file; an intermediate
/// record, not yet in the graph.
#[derive(Clone, Debug)]
pub struct ExtractedSymbol {
    /// Symbol name.
    pub name: String,
    /// What kind of symbol.
    pub kind: NodeKind,
    /// Line where the symbol starts (1-indexed).
    pub line_start: usize,
    /// Line where the symbol ends (1-indexed).
    pub line_end: usize,
    /// The verbatim source of the symbol.
    pub code_snippet: String,
    /// Name of the enclosing container, if the symbol is nested.
    pub parent: Option<String>,
}

impl View for ExtractedSymbol {
    type V = SymView;

    open spec fn view(&self) -> SymView {
        SymView {
            name: self.name@,
            kind: self.kind,
            line_start: self.line_start as int,
            line_end: self.line_end as int,
            code_snippet: self.code_snippet@,
            parent: match self.parent {
                Some(p) => Some(p@),
                None => None,
            },
        }
    }
}

/// An import statement extracted from a source file.
#[derive(Clone, Debug)]
pub struct ExtractedImport {
    /// The import path or module name.
    pub path: String,
    /// Specific symbols imported, if listed.
    pub symbols: Vec<String>,
    /// Line number of the import (1-indexed).
    pub line: usize,
}

impl View for ExtractedImport {
    type V = ImpView;

    open spec fn view(&self) -> ImpView {
        ImpView {
            path: self.path@,
            symbols: Seq::new(self.symbols@.len(), |i: int| self.symbols@[i]@),
            line: self.line as int,
        }
    }
}

/// A function or method call extracted from a source file.
#[derive(Clone, Debug)]
pub struct ExtractedCall {
    /// The name of the function being called.
    pub callee: String,
    /// The innermost enclosing named declaration making the call.
    pub caller: String,
    /// Line number of the call (1-indexed).
    pub line: usize,
}

impl View for ExtractedCall {
    type V = CallView;

    open spec fn view(&self) -> CallView {
        CallView { callee: self.callee@, caller: self.caller@, line: self.line as int }
    }
}

/// Everything extracted from a single source file.
#[derive(Clone, Debug)]
pub struct FileExtractions {
    /// Path of the source file.
    pub file_path: String,
    /// Symbols defined in this file.
    pub symbols: Vec<ExtractedSymbol>,
    /// Import statements.
    pub imports: Vec<ExtractedImport>,
    /// Function and method calls.
    pub calls: Vec<ExtractedCall>,
}

impl View for FileExtractions {
    type V = ExtractionView;

    open spec fn view(&self) -> ExtractionView {
        ExtractionView {
            file_path: self.file_path@,
            symbols: Seq::new(self.symbols@.len(), |i: int| self.symbols@[i]@),
            imports: Seq::new(self.imports@.len(), |i: int| self.imports@[i]@),
            calls: Seq::new(self.calls@.len(), |i: int| self.calls@[i]@),
        }
    }
}

/// Result of a graph-aware search: matched seeds plus the connections
/// reached from them.
#[derive(Clone, Debug)]
pub struct GraphSearchResult {
    /// How the query matched: "file", "symbol", or "none".
    pub match_type: String,
    /// Files that matched, for file-based queries.
    pub matched_files: Vec<String>,
    /// Symbols found: direct matches plus BFS neighbours.
    pub symbols: Vec<SymbolInfo>,
    /// Edges traversed between reported symbols.
    pub connections: Vec<ConnectionInfo>,
    /// True when a result limit cut the output short.
    pub truncated: bool,
}

/// The model of one symbol in a graph-aware search result.
pub ghost struct SymInfoView {
    pub name: Seq<char>,
    pub kind: NodeKind,
    pub file: Seq<char>,
    pub line: int,
    pub code: Seq<char>,
}

/// One symbol in a graph-aware search result.
#[derive(Clone, Debug)]
pub struct SymbolInfo {
    pub name: String,
    pub kind: NodeKind,
    pub file: String,
    pub line: usize,
    pub code: String,
}

impl View for SymbolInfo {
    type V = SymInfoView;

    open spec fn view(&self) -> SymInfoView {
        SymInfoView {
            name: self.name@,
            kind: self.kind,
            file: self.file@,
            line: self.line as int,
            code: self.code@,
        }
    }
}

/// The model of one traversed edge in a graph-aware search result.
pub ghost struct ConnView {
    pub from: Seq<char>,
    pub to: Seq<char>,
    pub relationship: EdgeKind,
}

/// One traversed edge in a graph-aware search result.
#[derive(Clone, Debug)]
pub struct ConnectionInfo {
    pub from: String,
    pub to: String,
    pub relationship: EdgeKind,
}

impl View for ConnectionInfo {
    type V = ConnView;

    open spec fn view(&self) -> ConnView {
        ConnView { from: self.from@, to: self.to@, relationship: self.relationship }
    }
}

} // verus!
