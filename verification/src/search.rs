//! Name search over the graph: exact and fuzzy symbol lookup, and the
//! assembly of search results with their call relationships and
//! imports.

use vstd::prelude::*;
use vstd::pervasive::unreached;

use crate::engine::{
    find_file_entry, find_sym_entry, handle_named_live, has_file_key, has_sym_key, file_key_idx,
    lemma_model, sym_entry_ok, sym_key_idx, well_formed, CodeGraph, GraphModel,
};
use crate::pgraph::{store_all_edges, store_get_node};
use crate::strutil::{
    contains_chars, lower_of, spec_contains, spec_starts_with, starts_with_chars, streq,
    to_char_vec, to_lower,
};
use crate::types::{EdgeKind, NodeKind, NodeView};

verus! {

/// Handle `h` names a live node.
pub open spec fn live_at(m: GraphModel, h: usize) -> bool {
    &&& (h as int) < m.nodes.len()
    &&& !m.nodes[h as int].removed
}

/// The model of a lightweight symbol reference.
pub ghost struct RefView {
    pub name: Seq<char>,
    pub file: Seq<char>,
    pub line: int,
}

/// A reference to a symbol: enough to locate it.
#[derive(Clone, Debug)]
pub struct SymbolRef {
    /// Symbol name.
    pub name: String,
    /// File path.
    pub file: String,
    /// Line number.
    pub line: usize,
}

impl View for SymbolRef {
    type V = RefView;

    open spec fn view(&self) -> RefView {
        RefView { name: self.name@, file: self.file@, line: self.line as int }
    }
}

/// The model of a full search result.
pub ghost struct ResultView {
    pub symbol: Seq<char>,
    pub kind: NodeKind,
    pub file: Seq<char>,
    pub line_start: int,
    pub line_end: int,
    pub code: Seq<char>,
    pub calls: Seq<RefView>,
    pub called_by: Seq<RefView>,
    pub imports: Seq<Seq<char>>,
}

/// A search result: one live symbol with its code, call
/// relationships, and the imports of its file.
#[derive(Clone, Debug)]
pub struct SearchResult {
    /// The symbol name.
    pub symbol: String,
    /// What kind of code element.
    pub kind: NodeKind,
    /// File where it is defined.
    pub file: String,
    /// Start line.
    pub line_start: usize,
    /// End line.
    pub line_end: usize,
    /// The source code span.
    pub code: String,
    /// What this symbol calls.
    pub calls: Vec<SymbolRef>,
    /// What calls this symbol.
    pub called_by: Vec<SymbolRef>,
    /// Imports in the same file.
    pub imports: Vec<String>,
}

impl View for SearchResult {
    type V = ResultView;

    open spec fn view(&self) -> ResultView {
        ResultView {
            symbol: self.symbol@,
            kind: self.kind,
            file: self.file@,
            line_start: self.line_start as int,
            line_end: self.line_end as int,
            code: self.code@,
            calls: refs_view(self.calls@),
            called_by: refs_view(self.called_by@),
            imports: strings_view(self.imports@),
        }
    }
}

pub open spec fn refs_view(s: Seq<SymbolRef>) -> Seq<RefView> {
    Seq::new(s.len(), |i: int| s[i]@)
}

pub open spec fn strings_view(s: Seq<String>) -> Seq<Seq<char>> {
    Seq::new(s.len(), |i: int| s[i]@)
}

pub open spec fn results_view(s: Seq<SearchResult>) -> Seq<ResultView> {
    Seq::new(s.len(), |i: int| s[i]@)
}

/// The reference that a result lists for the node at `t`.
pub open spec fn ref_of(m: GraphModel, t: usize) -> RefView {
    RefView {
        name: m.nodes[t as int].name,
        file: m.nodes[t as int].file_path,
        line: m.nodes[t as int].line_start,
    }
}

/// References to the live targets of `Calls` edges out of `h`, in
/// edge order, over the edge prefix `es`.
pub open spec fn calls_from(
    m: GraphModel,
    es: Seq<(usize, usize, EdgeKind)>,
    h: usize,
) -> Seq<RefView>
    decreases es.len(),
{
    if es.len() == 0 {
        Seq::empty()
    } else {
        let rest = calls_from(m, es.drop_last(), h);
        let e = es.last();
        if e.0 == h && e.2 == EdgeKind::Calls && live_at(m, e.1) {
            rest.push(ref_of(m, e.1))
        } else {
            rest
        }
    }
}

/// References to the live sources of `Calls` edges into `h`.
pub open spec fn called_by_from(
    m: GraphModel,
    es: Seq<(usize, usize, EdgeKind)>,
    h: usize,
) -> Seq<RefView>
    decreases es.len(),
{
    if es.len() == 0 {
        Seq::empty()
    } else {
        let rest = called_by_from(m, es.drop_last(), h);
        let e = es.last();
        if e.1 == h && e.2 == EdgeKind::Calls && live_at(m, e.0) {
            rest.push(ref_of(m, e.0))
        } else {
            rest
        }
    }
}

/// Names of the live targets of `Imports` edges out of file `fh`.
pub open spec fn imports_from(
    m: GraphModel,
    es: Seq<(usize, usize, EdgeKind)>,
    fh: usize,
) -> Seq<Seq<char>>
    decreases es.len(),
{
    if es.len() == 0 {
        Seq::empty()
    } else {
        let rest = imports_from(m, es.drop_last(), fh);
        let e = es.last();
        if e.0 == fh && e.2 == EdgeKind::Imports && live_at(m, e.1) {
            rest.push(m.nodes[e.1 as int].name)
        } else {
            rest
        }
    }
}

/// The full search result assembled for the live non-file node `h`.
pub open spec fn result_view_of(m: GraphModel, h: usize) -> ResultView {
    ResultView {
        symbol: m.nodes[h as int].name,
        kind: m.nodes[h as int].kind,
        file: m.nodes[h as int].file_path,
        line_start: m.nodes[h as int].line_start,
        line_end: m.nodes[h as int].line_end,
        code: m.nodes[h as int].code_snippet,
        calls: calls_from(m, m.edges, h),
        called_by: called_by_from(m, m.edges, h),
        imports: if has_file_key(m, m.nodes[h as int].file_path) {
            imports_from(m, m.edges, m.files[file_key_idx(m, m.nodes[h as int].file_path)].1)
        } else {
            Seq::empty()
        },
    }
}

/// Results for the handles of `l`, skipping file nodes and removed
/// nodes.
pub open spec fn map_skip_files(m: GraphModel, l: Seq<usize>) -> Seq<ResultView>
    decreases l.len(),
{
    if l.len() == 0 {
        Seq::empty()
    } else {
        let rest = map_skip_files(m, l.drop_last(), );
        let h = l.last();
        if live_at(m, h) && m.nodes[h as int].kind != NodeKind::File {
            rest.push(result_view_of(m, h))
        } else {
            rest
        }
    }
}

/// Match quality of node `h` for a query: 0 exact, 1 case-insensitive
/// prefix, 2 substring only.
pub open spec fn spec_score(m: GraphModel, h: usize, q: Seq<char>, ql: Seq<char>) -> int {
    if m.nodes[h as int].name == q {
        0
    } else if spec_starts_with(lower_of(m.nodes[h as int].name), ql) {
        1
    } else {
        2
    }
}

/// Handles of every symbol-index entry whose lower-cased name contains
/// the lower-cased query, in index order.
pub open spec fn fuzzy_cands(s: Seq<(Seq<char>, Seq<usize>)>, ql: Seq<char>) -> Seq<usize>
    decreases s.len(),
{
    if s.len() == 0 {
        Seq::empty()
    } else {
        let rest = fuzzy_cands(s.drop_last(), ql);
        if spec_contains(lower_of(s.last().0), ql) {
            rest + s.last().1
        } else {
            rest
        }
    }
}

/// The candidates whose score is exactly `sc`, in order.
pub open spec fn filter_score(
    m: GraphModel,
    l: Seq<usize>,
    q: Seq<char>,
    ql: Seq<char>,
    sc: int,
) -> Seq<usize>
    decreases l.len(),
{
    if l.len() == 0 {
        Seq::empty()
    } else {
        let rest = filter_score(m, l.drop_last(), q, ql, sc);
        if spec_score(m, l.last(), q, ql) == sc {
            rest.push(l.last())
        } else {
            rest
        }
    }
}

/// All handles of the symbol index, in index order.
pub open spec fn flat_handles(s: Seq<(Seq<char>, Seq<usize>)>) -> Seq<usize>
    decreases s.len(),
{
    if s.len() == 0 {
        Seq::empty()
    } else {
        flat_handles(s.drop_last()) + s.last().1
    }
}

/// What `search` returns: nothing for an empty query; otherwise
/// results for the exact-name matches when there are any, else the
/// fuzzy matches in ascending score order, both cut to `limit`
/// candidates before file nodes are skipped.
pub open spec fn spec_search(m: GraphModel, q: Seq<char>, limit: int) -> Seq<ResultView> {
    if q.len() == 0 {
        Seq::empty()
    } else {
        spec_search_nonempty(m, q, limit)
    }
}

pub open spec fn spec_search_nonempty(m: GraphModel, q: Seq<char>, limit: int) -> Seq<ResultView> {
    let ql = lower_of(q);
    let exact = if has_sym_key(m, q) {
        let l = m.symbols[sym_key_idx(m, q)].1;
        map_skip_files(m, l.take(if limit < l.len() { limit } else { l.len() as int }))
    } else {
        Seq::empty()
    };
    if exact.len() > 0 {
        exact
    } else {
        let cands = fuzzy_cands(m.symbols, ql);
        let scored = filter_score(m, cands, q, ql, 0) + filter_score(m, cands, q, ql, 1)
            + filter_score(m, cands, q, ql, 2);
        map_skip_files(
            m,
            scored.take(if limit < scored.len() { limit } else { scored.len() as int }),
        )
    }
}

/// The model of one dependency record.
pub ghost struct DepView {
    pub symbol: Seq<char>,
    pub kind: NodeKind,
    pub file: Seq<char>,
    pub line: int,
    pub relationship: EdgeKind,
}

/// Dependency information for a symbol: one related node and how it
/// relates.
#[derive(Clone, Debug)]
pub struct DependencyInfo {
    /// The related symbol's name.
    pub symbol: String,
    /// The kind of that symbol.
    pub kind: NodeKind,
    /// File path of that symbol.
    pub file: String,
    /// Line number of that symbol.
    pub line: usize,
    /// How it is related.
    pub relationship: EdgeKind,
}

impl View for DependencyInfo {
    type V = DepView;

    open spec fn view(&self) -> DepView {
        DepView {
            symbol: self.symbol@,
            kind: self.kind,
            file: self.file@,
            line: self.line as int,
            relationship: self.relationship,
        }
    }
}

pub open spec fn deps_view(s: Seq<DependencyInfo>) -> Seq<DepView> {
    Seq::new(s.len(), |i: int| s[i]@)
}

/// The dependency record listing node `t` through an edge of kind `k`.
pub open spec fn dep_of(m: GraphModel, t: usize, k: EdgeKind) -> DepView {
    DepView {
        symbol: m.nodes[t as int].name,
        kind: m.nodes[t as int].kind,
        file: m.nodes[t as int].file_path,
        line: m.nodes[t as int].line_start,
        relationship: k,
    }
}

/// Records for live sources of edges into `h`, in edge order.
pub open spec fn incoming_from(
    m: GraphModel,
    es: Seq<(usize, usize, EdgeKind)>,
    h: usize,
) -> Seq<DepView>
    decreases es.len(),
{
    if es.len() == 0 {
        Seq::empty()
    } else {
        let rest = incoming_from(m, es.drop_last(), h);
        let e = es.last();
        if e.1 == h && live_at(m, e.0) {
            rest.push(dep_of(m, e.0, e.2))
        } else {
            rest
        }
    }
}

/// Records for live targets of edges out of `h`, in edge order.
pub open spec fn outgoing_from(
    m: GraphModel,
    es: Seq<(usize, usize, EdgeKind)>,
    h: usize,
) -> Seq<DepView>
    decreases es.len(),
{
    if es.len() == 0 {
        Seq::empty()
    } else {
        let rest = outgoing_from(m, es.drop_last(), h);
        let e = es.last();
        if e.0 == h && live_at(m, e.1) {
            rest.push(dep_of(m, e.1, e.2))
        } else {
            rest
        }
    }
}

/// Incoming records concatenated over a handle list.
pub open spec fn deps_concat_in(m: GraphModel, l: Seq<usize>) -> Seq<DepView>
    decreases l.len(),
{
    if l.len() == 0 {
        Seq::empty()
    } else {
        deps_concat_in(m, l.drop_last()) + incoming_from(m, m.edges, l.last())
    }
}

/// Outgoing records concatenated over a handle list.
pub open spec fn deps_concat_out(m: GraphModel, l: Seq<usize>) -> Seq<DepView>
    decreases l.len(),
{
    if l.len() == 0 {
        Seq::empty()
    } else {
        deps_concat_out(m, l.drop_last()) + outgoing_from(m, m.edges, l.last())
    }
}

/// What `dependents` returns for a name.
pub open spec fn spec_dependents(m: GraphModel, name: Seq<char>) -> Seq<DepView> {
    if has_sym_key(m, name) {
        deps_concat_in(m, m.symbols[sym_key_idx(m, name)].1)
    } else {
        Seq::empty()
    }
}

/// What `dependencies` returns for a name.
pub open spec fn spec_dependencies(m: GraphModel, name: Seq<char>) -> Seq<DepView> {
    if has_sym_key(m, name) {
        deps_concat_out(m, m.symbols[sym_key_idx(m, name)].1)
    } else {
        Seq::empty()
    }
}

pub open spec fn nodes_view(s: Seq<crate::types::NodeData>) -> Seq<NodeView> {
    Seq::new(s.len(), |i: int| s[i]@)
}

/// Payloads of live targets of `Defines` edges out of file `fh`, in
/// edge order.
pub open spec fn defines_targets(
    m: GraphModel,
    es: Seq<(usize, usize, EdgeKind)>,
    fh: usize,
) -> Seq<NodeView>
    decreases es.len(),
{
    if es.len() == 0 {
        Seq::empty()
    } else {
        let rest = defines_targets(m, es.drop_last(), fh);
        let e = es.last();
        if e.0 == fh && e.2 == EdgeKind::Defines && live_at(m, e.1) {
            rest.push(m.nodes[e.1 as int])
        } else {
            rest
        }
    }
}

/// What `symbols_in_file` returns for a path.
pub open spec fn spec_symbols_in_file(m: GraphModel, p: Seq<char>) -> Seq<NodeView> {
    if has_file_key(m, p) && live_at(m, m.files[file_key_idx(m, p)].1) {
        defines_targets(m, m.edges, m.files[file_key_idx(m, p)].1)
    } else {
        Seq::empty()
    }
}

impl CodeGraph {
    /// Check whether a handle names a live node.
    pub(crate) fn is_live(&self, h: usize) -> (r: bool)
        ensures
            r == live_at(self@, h),
    {
        proof {
            lemma_model(self);
        }
        match store_get_node(&self.graph, h) {
            Some(n) => !n.removed,
            None => false,
        }
    }

    /// Assemble the search result for a node: its payload, its live
    /// call relationships in both directions, and the imports of its
    /// file. File nodes and removed nodes yield `None`.
    pub(crate) fn build_search_result(&self, h: usize) -> (r: Option<SearchResult>)
        requires
            well_formed(self@),
            (h as int) < self@.nodes.len(),
        ensures
            match r {
                Some(res) => self@.nodes[h as int].kind != NodeKind::File && !self@.nodes[
                    h as int
                ].removed && res@ == result_view_of(self@, h),
                None => self@.nodes[h as int].kind == NodeKind::File || self@.nodes[
                    h as int
                ].removed,
            },
    {
        proof {
            lemma_model(self);
        }
        let node = match store_get_node(&self.graph, h) {
            Some(n) => n,
            None => {
                proof {
                    assert(false);
                }
                unreached()
            },
        };
        if node.kind == NodeKind::File || node.removed {
            return None;
        }
        let ghost m = self@;
        let edges = store_all_edges(&self.graph);
        let en = edges.len();
        let mut calls: Vec<SymbolRef> = Vec::new();
        let mut called_by: Vec<SymbolRef> = Vec::new();
        let mut k: usize = 0;
        while k < en
            invariant
                0 <= k <= en,
                en == edges@.len(),
                edges@ == m.edges,
                m == self@,
                well_formed(m),
                (h as int) < m.nodes.len(),
                refs_view(calls@) == calls_from(m, edges@.take(k as int), h),
                refs_view(called_by@) == called_by_from(m, edges@.take(k as int), h),
            decreases en - k,
        {
            proof {
                lemma_model(self);
                assert(edges@.take(k + 1).drop_last() =~= edges@.take(k as int));
                assert(edges@.take(k + 1).last() == edges@[k as int]);
                assert((m.edges[k as int].0 as int) < m.nodes.len() && (
                m.edges[k as int].1 as int) < m.nodes.len());
            }
            let e = edges[k];
            if e.2 == EdgeKind::Calls {
                if e.0 == h {
                    match store_get_node(&self.graph, e.1) {
                        Some(t) => {
                            if !t.removed {
                                calls.push(
                                    SymbolRef { name: t.name, file: t.file_path, line: t.line_start },
                                );
                            }
                        },
                        None => {
                            proof {
                                assert(false);
                            }
                        },
                    }
                }
                if e.1 == h {
                    match store_get_node(&self.graph, e.0) {
                        Some(s) => {
                            if !s.removed {
                                called_by.push(
                                    SymbolRef { name: s.name, file: s.file_path, line: s.line_start },
                                );
                            }
                        },
                        None => {
                            proof {
                                assert(false);
                            }
                        },
                    }
                }
            }
            k += 1;
            proof {
                assert(refs_view(calls@) =~= calls_from(m, edges@.take(k as int), h));
                assert(refs_view(called_by@) =~= called_by_from(m, edges@.take(k as int), h));
            }
        }
        proof {
            assert(edges@.take(en as int) =~= edges@);
        }
        let mut imports: Vec<String> = Vec::new();
        match find_file_entry(&self.file_index, node.file_path.as_str()) {
            Some(fp) => {
                proof {
                    assert(m.files[fp as int] == (
                        self.file_index@[fp as int].0@,
                        self.file_index@[fp as int].1,
                    ));
                    crate::engine::lemma_file_key_at(m, fp as int);
                }
                let fh = self.file_index[fp].1;
                let mut k2: usize = 0;
                while k2 < en
                    invariant
                        0 <= k2 <= en,
                        en == edges@.len(),
                        edges@ == m.edges,
                        m == self@,
                        well_formed(m),
                        strings_view(imports@) == imports_from(m, edges@.take(k2 as int), fh),
                    decreases en - k2,
                {
                    proof {
                        lemma_model(self);
                        assert(edges@.take(k2 + 1).drop_last() =~= edges@.take(k2 as int));
                        assert(edges@.take(k2 + 1).last() == edges@[k2 as int]);
                        assert((m.edges[k2 as int].1 as int) < m.nodes.len());
                    }
                    let e = edges[k2];
                    if e.0 == fh && e.2 == EdgeKind::Imports {
                        match store_get_node(&self.graph, e.1) {
                            Some(t) => {
                                if !t.removed {
                                    imports.push(t.name);
                                }
                            },
                            None => {
                                proof {
                                    assert(false);
                                }
                            },
                        }
                    }
                    k2 += 1;
                    proof {
                        assert(strings_view(imports@) =~= imports_from(
                            m,
                            edges@.take(k2 as int),
                            fh,
                        ));
                    }
                }
                proof {
                    assert(edges@.take(en as int) =~= edges@);
                }
            },
            None => {
                proof {
                    assert forall|ii: int| 0 <= ii < m.files.len() implies (
                    #[trigger] m.files[ii]).0 != node.file_path@ by {
                        assert(m.files[ii].0 == self.file_index@[ii].0@);
                    }
                    assert(!has_file_key(m, node.file_path@));
                }
            },
        }
        let res = SearchResult {
            symbol: node.name,
            kind: node.kind,
            file: node.file_path,
            line_start: node.line_start,
            line_end: node.line_end,
            code: node.code_snippet,
            calls,
            called_by,
            imports,
        };
        proof {
            assert(res@.calls =~= result_view_of(m, h).calls);
            assert(res@.called_by =~= result_view_of(m, h).called_by);
            assert(res@.imports =~= result_view_of(m, h).imports);
        }
        Some(res)
    }

    /// The score of node `h` for a query (`qlv` is the lower-cased
    /// query).
    fn score_of(&self, h: usize, query: &str, qlv: &Vec<char>) -> (s: usize)
        requires
            well_formed(self@),
            (h as int) < self@.nodes.len(),
            qlv@ == lower_of(query@),
        ensures
            s as int == spec_score(self@, h, query@, lower_of(query@)),
    {
        proof {
            lemma_model(self);
        }
        let node = match store_get_node(&self.graph, h) {
            Some(n) => n,
            None => {
                proof {
                    assert(false);
                }
                unreached()
            },
        };
        if streq(node.name.as_str(), query) {
            0
        } else {
            let nl = to_lower(node.name.as_str());
            let nlv = to_char_vec(nl.as_str());
            if starts_with_chars(&nlv, qlv) {
                1
            } else {
                2
            }
        }
    }

    /// The candidates of `cands` whose score is exactly `sc`, in
    /// order.
    fn collect_score(&self, cands: &Vec<usize>, query: &str, qlv: &Vec<char>, sc: usize) -> (r:
        Vec<usize>)
        requires
            well_formed(self@),
            qlv@ == lower_of(query@),
            forall|i: int| 0 <= i < cands@.len() ==> ((#[trigger] cands@[i]) as int)
                < self@.nodes.len(),
        ensures
            r@ == filter_score(self@, cands@, query@, lower_of(query@), sc as int),
            forall|i: int| 0 <= i < r@.len() ==> ((#[trigger] r@[i]) as int)
                < self@.nodes.len(),
    {
        let ghost m = self@;
        let n = cands.len();
        let mut r: Vec<usize> = Vec::new();
        let mut i: usize = 0;
        while i < n
            invariant
                0 <= i <= n,
                n == cands@.len(),
                m == self@,
                well_formed(m),
                qlv@ == lower_of(query@),
                forall|k: int| 0 <= k < cands@.len() ==> ((#[trigger] cands@[k]) as int)
                    < m.nodes.len(),
                r@ == filter_score(m, cands@.take(i as int), query@, lower_of(query@), sc as int),
                forall|k: int| 0 <= k < r@.len() ==> ((#[trigger] r@[k]) as int) < m.nodes.len(),
            decreases n - i,
        {
            proof {
                assert(cands@.take(i + 1).drop_last() =~= cands@.take(i as int));
                assert(cands@.take(i + 1).last() == cands@[i as int]);
            }
            let h = cands[i];
            let s = self.score_of(h, query, qlv);
            if s == sc {
                r.push(h);
            }
            i += 1;
        }
        proof {
            assert(cands@.take(n as int) =~= cands@);
        }
        r
    }

    /// Build results for a prefix of a candidate list, skipping file
    /// nodes.
    fn build_results(&self, cands: &Vec<usize>, cut: usize) -> (r: Vec<SearchResult>)
        requires
            well_formed(self@),
            cut <= cands@.len(),
            forall|i: int| 0 <= i < cands@.len() ==> ((#[trigger] cands@[i]) as int)
                < self@.nodes.len(),
        ensures
            results_view(r@) == map_skip_files(self@, cands@.take(cut as int)),
    {
        let ghost m = self@;
        let mut r: Vec<SearchResult> = Vec::new();
        let mut i: usize = 0;
        while i < cut
            invariant
                0 <= i <= cut,
                cut <= cands@.len(),
                m == self@,
                well_formed(m),
                forall|k: int| 0 <= k < cands@.len() ==> ((#[trigger] cands@[k]) as int)
                    < m.nodes.len(),
                results_view(r@) == map_skip_files(m, cands@.take(i as int)),
            decreases cut - i,
        {
            proof {
                assert(cands@.take(i + 1).drop_last() =~= cands@.take(i as int));
                assert(cands@.take(i + 1).last() == cands@[i as int]);
            }
            let h = cands[i];
            match self.build_search_result(h) {
                Some(res) => {
                    r.push(res);
                },
                None => {},
            }
            i += 1;
            proof {
                assert(results_view(r@) =~= map_skip_files(m, cands@.take(i as int)));
            }
        }
        r
    }

    /// Search for symbols by name, returning up to `limit` results:
    /// nodes registered under exactly the query when there are any,
    /// otherwise every symbol whose lower-cased name contains the
    /// lower-cased query, best scores first.
    pub fn search(&self, query: &str, limit: usize) -> (r: Vec<SearchResult>)
        requires
            well_formed(self@),
        ensures
            results_view(r@) == spec_search(self@, query@, limit as int),
    {
        proof {
            lemma_model(self);
        }
        if query.is_empty() {
            let empty: Vec<SearchResult> = Vec::new();
            proof {
                assert(results_view(empty@) =~= Seq::<ResultView>::empty());
            }
            return empty;
        }
        let ghost m = self@;
        let ql_string = to_lower(query);
        let qlv = to_char_vec(ql_string.as_str());
        // exact stage
        match find_sym_entry(&self.symbol_index, query) {
            Some(si) => {
                proof {
                    assert(m.symbols[si as int] == (
                        self.symbol_index@[si as int].0@,
                        self.symbol_index@[si as int].1@,
                    ));
                    crate::engine::lemma_sym_key_at(m, si as int);
                    assert(sym_entry_ok(m, m.symbols[si as int]));
                }
                let lst = &self.symbol_index[si].1;
                let lst_len = lst.len();
                let cut = if limit < lst_len {
                    limit
                } else {
                    lst_len
                };
                proof {
                    assert forall|k: int| 0 <= k < lst@.len() implies ((#[trigger] lst@[k]) as int)
                        < m.nodes.len() by {
                        assert(handle_named_live(m, m.symbols[si as int].1[k], m.symbols[
                            si as int
                        ].0));
                    }
                }
                let results = self.build_results(lst, cut);
                if results.len() > 0 {
                    return results;
                }
            },
            None => {
                proof {
                    assert forall|ii: int| 0 <= ii < m.symbols.len() implies (
                    #[trigger] m.symbols[ii]).0 != query@ by {
                        assert(m.symbols[ii].0 == self.symbol_index@[ii].0@);
                    }
                    assert(!has_sym_key(m, query@));
                }
            },
        }
        // fuzzy stage
        let sn = self.symbol_index.len();
        let mut cands: Vec<usize> = Vec::new();
        let mut si: usize = 0;
        while si < sn
            invariant
                0 <= si <= sn,
                sn == self.symbol_index@.len(),
                m == self@,
                well_formed(m),
                qlv@ == lower_of(query@),
                cands@ == fuzzy_cands(m.symbols.take(si as int), lower_of(query@)),
                forall|k: int| 0 <= k < cands@.len() ==> ((#[trigger] cands@[k]) as int)
                    < m.nodes.len(),
            decreases sn - si,
        {
            proof {
                lemma_model(self);
                assert(m.symbols[si as int] == (
                    self.symbol_index@[si as int].0@,
                    self.symbol_index@[si as int].1@,
                ));
                assert(sym_entry_ok(m, m.symbols[si as int]));
                assert(m.symbols.take(si + 1).drop_last() =~= m.symbols.take(si as int));
                assert(m.symbols.take(si + 1).last() == m.symbols[si as int]);
            }
            let keyl = to_lower(self.symbol_index[si].0.as_str());
            let keylv = to_char_vec(keyl.as_str());
            if contains_chars(&keylv, &qlv) {
                let lst_len = self.symbol_index[si].1.len();
                let mut j: usize = 0;
                while j < lst_len
                    invariant
                        0 <= j <= lst_len,
                        (si as int) < self.symbol_index@.len(),
                        lst_len == self.symbol_index@[si as int].1@.len(),
                        m == self@,
                        well_formed(m),
                        m.symbols[si as int] == (
                            self.symbol_index@[si as int].0@,
                            self.symbol_index@[si as int].1@,
                        ),
                        sym_entry_ok(m, m.symbols[si as int]),
                        cands@ == fuzzy_cands(m.symbols.take(si as int), lower_of(query@))
                            + m.symbols[si as int].1.take(j as int),
                        forall|k: int| 0 <= k < cands@.len() ==> ((#[trigger] cands@[k]) as int)
                            < m.nodes.len(),
                    decreases lst_len - j,
                {
                    proof {
                        assert(m.symbols[si as int].1.take(j + 1).drop_last() =~= m.symbols[
                            si as int
                        ].1.take(j as int));
                        assert(m.symbols[si as int].1.take(j + 1).last() == m.symbols[
                            si as int
                        ].1[j as int]);
                        assert(handle_named_live(m, m.symbols[si as int].1[j as int], m.symbols[
                            si as int
                        ].0));
                    }
                    let h = self.symbol_index[si].1[j];
                    cands.push(h);
                    j += 1;
                }
                proof {
                    assert(m.symbols[si as int].1.take(lst_len as int) =~= m.symbols[
                        si as int
                    ].1);
                    assert(cands@ =~= fuzzy_cands(m.symbols.take(si + 1), lower_of(query@)));
                }
            } else {
                proof {
                    assert(cands@ =~= fuzzy_cands(m.symbols.take(si + 1), lower_of(query@)));
                }
            }
            si += 1;
        }
        proof {
            assert(m.symbols.take(sn as int) =~= m.symbols);
        }
        let mut scored = self.collect_score(&cands, query, &qlv, 0);
        let mut s1 = self.collect_score(&cands, query, &qlv, 1);
        let mut s2 = self.collect_score(&cands, query, &qlv, 2);
        scored.append(&mut s1);
        scored.append(&mut s2);
        let scored_len = scored.len();
        let cut = if limit < scored_len {
            limit
        } else {
            scored_len
        };
        let results = self.build_results(&scored, cut);
        results
    }

    /// Every live non-file symbol in the graph, as full search
    /// results.
    pub fn all_symbols(&self) -> (r: Vec<SearchResult>)
        requires
            well_formed(self@),
        ensures
            results_view(r@) == map_skip_files(self@, flat_handles(self@.symbols)),
    {
        proof {
            lemma_model(self);
        }
        let ghost m = self@;
        let sn = self.symbol_index.len();
        let mut cands: Vec<usize> = Vec::new();
        let mut si: usize = 0;
        while si < sn
            invariant
                0 <= si <= sn,
                sn == self.symbol_index@.len(),
                m == self@,
                well_formed(m),
                cands@ == flat_handles(m.symbols.take(si as int)),
                forall|k: int| 0 <= k < cands@.len() ==> ((#[trigger] cands@[k]) as int)
                    < m.nodes.len(),
            decreases sn - si,
        {
            proof {
                lemma_model(self);
                assert(m.symbols[si as int] == (
                    self.symbol_index@[si as int].0@,
                    self.symbol_index@[si as int].1@,
                ));
                assert(sym_entry_ok(m, m.symbols[si as int]));
                assert(m.symbols.take(si + 1).drop_last() =~= m.symbols.take(si as int));
                assert(m.symbols.take(si + 1).last() == m.symbols[si as int]);
            }
            let lst_len = self.symbol_index[si].1.len();
            let mut j: usize = 0;
            while j < lst_len
                invariant
                    0 <= j <= lst_len,
                    (si as int) < self.symbol_index@.len(),
                    lst_len == self.symbol_index@[si as int].1@.len(),
                    m == self@,
                    well_formed(m),
                    m.symbols[si as int] == (
                        self.symbol_index@[si as int].0@,
                        self.symbol_index@[si as int].1@,
                    ),
                    sym_entry_ok(m, m.symbols[si as int]),
                    cands@ == flat_handles(m.symbols.take(si as int)) + m.symbols[
                        si as int
                    ].1.take(j as int),
                    forall|k: int| 0 <= k < cands@.len() ==> ((#[trigger] cands@[k]) as int)
                        < m.nodes.len(),
                decreases lst_len - j,
            {
                proof {
                    assert(m.symbols[si as int].1.take(j + 1).drop_last() =~= m.symbols[
                        si as int
                    ].1.take(j as int));
                    assert(m.symbols[si as int].1.take(j + 1).last() == m.symbols[si as int].1[
                        j as int
                    ]);
                    assert(handle_named_live(m, m.symbols[si as int].1[j as int], m.symbols[
                        si as int
                    ].0));
                }
                let h = self.symbol_index[si].1[j];
                cands.push(h);
                j += 1;
            }
            proof {
                assert(m.symbols[si as int].1.take(lst_len as int) =~= m.symbols[si as int].1);
                assert(cands@ =~= flat_handles(m.symbols.take(si + 1)));
            }
            si += 1;
        }
        proof {
            assert(m.symbols.take(sn as int) =~= m.symbols);
            assert(cands@.take(cands@.len() as int) =~= cands@);
        }
        let cut = cands.len();
        self.build_results(&cands, cut)
    }

    /// One direction of dependency listing over the edges, for one
    /// handle.
    fn deps_for_handle(&self, h: usize, incoming: bool) -> (r: Vec<DependencyInfo>)
        requires
            well_formed(self@),
            (h as int) < self@.nodes.len(),
        ensures
            incoming ==> deps_view(r@) == incoming_from(self@, self@.edges, h),
            !incoming ==> deps_view(r@) == outgoing_from(self@, self@.edges, h),
    {
        proof {
            lemma_model(self);
        }
        let ghost m = self@;
        let edges = store_all_edges(&self.graph);
        let en = edges.len();
        let mut r: Vec<DependencyInfo> = Vec::new();
        let mut k: usize = 0;
        while k < en
            invariant
                0 <= k <= en,
                en == edges@.len(),
                edges@ == m.edges,
                m == self@,
                well_formed(m),
                incoming ==> deps_view(r@) == incoming_from(m, edges@.take(k as int), h),
                !incoming ==> deps_view(r@) == outgoing_from(m, edges@.take(k as int), h),
            decreases en - k,
        {
            proof {
                lemma_model(self);
                assert(edges@.take(k + 1).drop_last() =~= edges@.take(k as int));
                assert(edges@.take(k + 1).last() == edges@[k as int]);
                assert((m.edges[k as int].0 as int) < m.nodes.len() && (
                m.edges[k as int].1 as int) < m.nodes.len());
            }
            let e = edges[k];
            let other = if incoming {
                if e.1 == h {
                    Some(e.0)
                } else {
                    None
                }
            } else {
                if e.0 == h {
                    Some(e.1)
                } else {
                    None
                }
            };
            match other {
                Some(o) => {
                    match store_get_node(&self.graph, o) {
                        Some(n) => {
                            if !n.removed {
                                r.push(
                                    DependencyInfo {
                                        symbol: n.name,
                                        kind: n.kind,
                                        file: n.file_path,
                                        line: n.line_start,
                                        relationship: e.2,
                                    },
                                );
                            }
                        },
                        None => {
                            proof {
                                assert(false);
                            }
                        },
                    }
                },
                None => {},
            }
            k += 1;
            proof {
                if incoming {
                    assert(deps_view(r@) =~= incoming_from(m, edges@.take(k as int), h));
                } else {
                    assert(deps_view(r@) =~= outgoing_from(m, edges@.take(k as int), h));
                }
            }
        }
        proof {
            assert(edges@.take(en as int) =~= edges@);
        }
        r
    }

    /// Dependency listing for every node registered under a name.
    fn deps_for_name(&self, symbol_name: &str, incoming: bool) -> (r: Vec<DependencyInfo>)
        requires
            well_formed(self@),
        ensures
            incoming ==> deps_view(r@) == spec_dependents(self@, symbol_name@),
            !incoming ==> deps_view(r@) == spec_dependencies(self@, symbol_name@),
    {
        proof {
            lemma_model(self);
        }
        let ghost m = self@;
        let mut r: Vec<DependencyInfo> = Vec::new();
        match find_sym_entry(&self.symbol_index, symbol_name) {
            Some(si) => {
                proof {
                    assert(m.symbols[si as int] == (
                        self.symbol_index@[si as int].0@,
                        self.symbol_index@[si as int].1@,
                    ));
                    crate::engine::lemma_sym_key_at(m, si as int);
                    assert(sym_entry_ok(m, m.symbols[si as int]));
                }
                let lst_len = self.symbol_index[si].1.len();
                let mut j: usize = 0;
                while j < lst_len
                    invariant
                        0 <= j <= lst_len,
                        (si as int) < self.symbol_index@.len(),
                        lst_len == self.symbol_index@[si as int].1@.len(),
                        m == self@,
                        well_formed(m),
                        m.symbols[si as int] == (
                            self.symbol_index@[si as int].0@,
                            self.symbol_index@[si as int].1@,
                        ),
                        sym_entry_ok(m, m.symbols[si as int]),
                        incoming ==> deps_view(r@) == deps_concat_in(
                            m,
                            m.symbols[si as int].1.take(j as int),
                        ),
                        !incoming ==> deps_view(r@) == deps_concat_out(
                            m,
                            m.symbols[si as int].1.take(j as int),
                        ),
                    decreases lst_len - j,
                {
                    proof {
                        assert(m.symbols[si as int].1.take(j + 1).drop_last() =~= m.symbols[
                            si as int
                        ].1.take(j as int));
                        assert(m.symbols[si as int].1.take(j + 1).last() == m.symbols[si as int].1[
                            j as int
                        ]);
                        assert(handle_named_live(m, m.symbols[si as int].1[j as int], m.symbols[
                            si as int
                        ].0));
                    }
                    let h = self.symbol_index[si].1[j];
                    let mut part = self.deps_for_handle(h, incoming);
                    r.append(&mut part);
                    j += 1;
                    proof {
                        if incoming {
                            assert(deps_view(r@) =~= deps_concat_in(
                                m,
                                m.symbols[si as int].1.take(j as int),
                            ));
                        } else {
                            assert(deps_view(r@) =~= deps_concat_out(
                                m,
                                m.symbols[si as int].1.take(j as int),
                            ));
                        }
                    }
                }
                proof {
                    assert(m.symbols[si as int].1.take(lst_len as int) =~= m.symbols[si as int].1);
                }
            },
            None => {
                proof {
                    assert forall|ii: int| 0 <= ii < m.symbols.len() implies (
                    #[trigger] m.symbols[ii]).0 != symbol_name@ by {
                        assert(m.symbols[ii].0 == self.symbol_index@[ii].0@);
                    }
                    assert(!has_sym_key(m, symbol_name@));
                }
            },
        }
        r
    }

    /// What depends on a symbol: for every live node of that name, the
    /// live sources of its incoming edges.
    pub fn dependents(&self, symbol_name: &str) -> (r: Vec<DependencyInfo>)
        requires
            well_formed(self@),
        ensures
            deps_view(r@) == spec_dependents(self@, symbol_name@),
    {
        self.deps_for_name(symbol_name, true)
    }

    /// What a symbol depends on: for every live node of that name, the
    /// live targets of its outgoing edges.
    pub fn dependencies(&self, symbol_name: &str) -> (r: Vec<DependencyInfo>)
        requires
            well_formed(self@),
        ensures
            deps_view(r@) == spec_dependencies(self@, symbol_name@),
    {
        self.deps_for_name(symbol_name, false)
    }

    /// All live symbols defined in a file: the live targets of the
    /// file node's `Defines` edges, in edge order; empty for an
    /// unknown path or a removed file.
    pub fn symbols_in_file(&self, path: &str) -> (r: Vec<crate::types::NodeData>)
        requires
            well_formed(self@),
        ensures
            nodes_view(r@) == spec_symbols_in_file(self@, path@),
    {
        proof {
            lemma_model(self);
        }
        let ghost m = self@;
        let mut r: Vec<crate::types::NodeData> = Vec::new();
        let fp = match find_file_entry(&self.file_index, path) {
            Some(fp) => fp,
            None => {
                proof {
                    assert forall|ii: int| 0 <= ii < m.files.len() implies (
                    #[trigger] m.files[ii]).0 != path@ by {
                        assert(m.files[ii].0 == self.file_index@[ii].0@);
                    }
                    assert(!has_file_key(m, path@));
                }
                return r;
            },
        };
        proof {
            assert(m.files[fp as int] == (
                self.file_index@[fp as int].0@,
                self.file_index@[fp as int].1,
            ));
            crate::engine::lemma_file_key_at(m, fp as int);
        }
        let fh = self.file_index[fp].1;
        if !self.is_live(fh) {
            return r;
        }
        let edges = store_all_edges(&self.graph);
        let en = edges.len();
        let mut k: usize = 0;
        while k < en
            invariant
                0 <= k <= en,
                en == edges@.len(),
                edges@ == m.edges,
                m == self@,
                well_formed(m),
                nodes_view(r@) == defines_targets(m, edges@.take(k as int), fh),
            decreases en - k,
        {
            proof {
                lemma_model(self);
                assert(edges@.take(k + 1).drop_last() =~= edges@.take(k as int));
                assert(edges@.take(k + 1).last() == edges@[k as int]);
                assert((m.edges[k as int].1 as int) < m.nodes.len());
            }
            let e = edges[k];
            if e.0 == fh && e.2 == EdgeKind::Defines {
                match store_get_node(&self.graph, e.1) {
                    Some(n) => {
                        if !n.removed {
                            r.push(n);
                        }
                    },
                    None => {
                        proof {
                            assert(false);
                        }
                    },
                }
            }
            k += 1;
            proof {
                assert(nodes_view(r@) =~= defines_targets(m, edges@.take(k as int), fh));
            }
        }
        proof {
            assert(edges@.take(en as int) =~= edges@);
        }
        r
    }
}

} // verus!
