//! The query façade: the uniform surface that the RPC server and the
//! command line go through.

use vstd::prelude::*;

use crate::engine::{well_formed, CodeGraph, GraphModel, GraphStats, live_file_count,
    live_symbol_count};
use crate::types::NodeView;
use crate::search::{
    deps_view, nodes_view, results_view, spec_dependencies, spec_dependents, spec_search,
    spec_symbols_in_file, DependencyInfo, ResultView, SearchResult,
};
use crate::strutil::{contains_chars, spec_contains, streq, to_char_vec};
use crate::types::{kind_label, GraphSearchResult, NodeData};

verus! {

/// A search request: a bare name, or a name with kind and file
/// filters.
#[derive(Clone, Debug)]
pub enum Query {
    Simple(String),
    Structured { symbol: String, kind: Option<String>, file: Option<String> },
}

/// What `anchor_search` returns.
#[derive(Clone, Debug)]
pub struct SearchResponse {
    pub found: bool,
    pub count: usize,
    pub results: Vec<SearchResult>,
}

/// What `anchor_dependencies` returns: both directions in one call.
#[derive(Clone, Debug)]
pub struct DependencyReport {
    pub dependencies: Vec<DependencyInfo>,
    pub dependents: Vec<DependencyInfo>,
}

/// What `anchor_stats` returns.
#[derive(Clone, Copy, Debug)]
pub struct StatsResponse {
    pub stats: GraphStats,
}

/// What `anchor_file_symbols` returns.
#[derive(Clone, Debug)]
pub struct FileSymbolsResponse {
    pub found: bool,
    pub file: String,
    pub symbols: Vec<NodeData>,
}

/// What `get_context` returns.
#[derive(Clone, Debug)]
pub struct ContextResponse {
    pub found: bool,
    pub intent: String,
    pub symbols: Vec<SearchResult>,
}

/// How many results a façade search returns at most.
pub const SEARCH_LIMIT: usize = 5;

/// Whether a search result passes the optional kind and file filters.
pub open spec fn result_passes(
    r: ResultView,
    kind: Option<Seq<char>>,
    file: Option<Seq<char>>,
) -> bool {
    &&& match kind {
        Some(k) => kind_label(r.kind) == k,
        None => true,
    }
    &&& match file {
        Some(f) => spec_contains(r.file, f),
        None => true,
    }
}

/// The results that pass the filters, in order.
pub open spec fn filter_results(
    rs: Seq<ResultView>,
    kind: Option<Seq<char>>,
    file: Option<Seq<char>>,
) -> Seq<ResultView>
    decreases rs.len(),
{
    if rs.len() == 0 {
        Seq::empty()
    } else {
        let rest = filter_results(rs.drop_last(), kind, file);
        if result_passes(rs.last(), kind, file) {
            rest.push(rs.last())
        } else {
            rest
        }
    }
}

/// What a query's results are: the plain search, post-filtered by the
/// structured filters when given.
pub open spec fn spec_query_results(m: GraphModel, q: Query) -> Seq<ResultView> {
    match q {
        Query::Simple(s) => spec_search(m, s@, SEARCH_LIMIT as int),
        Query::Structured { symbol, kind, file } => filter_results(
            spec_search(m, symbol@, SEARCH_LIMIT as int),
            match kind {
                Some(k) => Some(k@),
                None => None,
            },
            match file {
                Some(f) => Some(f@),
                None => None,
            },
        ),
    }
}

/// Search for symbols, with optional kind and file filters.
pub fn anchor_search(graph: &CodeGraph, query: Query) -> (r: SearchResponse)
    requires
        well_formed(graph@),
    ensures
        results_view(r.results@) == spec_query_results(graph@, query),
        r.count == r.results@.len(),
        r.found == (r.results@.len() > 0),
{
    let ghost m = graph@;
    let results = match &query {
        Query::Simple(s) => graph.search(s.as_str(), SEARCH_LIMIT),
        Query::Structured { symbol, kind, file } => {
            let mut base = graph.search(symbol.as_str(), SEARCH_LIMIT);
            let ghost base0 = base@;
            let ghost kspec: Option<Seq<char>> = match kind {
                Some(k) => Some(k@),
                None => None,
            };
            let ghost fspec: Option<Seq<char>> = match file {
                Some(f) => Some(f@),
                None => None,
            };
            let n = base.len();
            let mut out: Vec<SearchResult> = Vec::new();
            let mut i: usize = 0;
            while i < n
                invariant
                    0 <= i <= n,
                    n == base0.len(),
                    base@ == base0.subrange(i as int, n as int),
                    results_view(out@) == filter_results(
                        results_view(base0).take(i as int),
                        kspec,
                        fspec,
                    ),
                    query matches Query::Structured { symbol: _, kind: k2, file: f2 } && kspec
                        == (match k2 {
                        Some(k) => Some(k@),
                        None => None,
                    }) && fspec == (match f2 {
                        Some(f) => Some(f@),
                        None => None,
                    }),
                decreases n - i,
            {
                proof {
                    assert(results_view(base0).take(i + 1).drop_last() =~= results_view(
                        base0,
                    ).take(i as int));
                    assert(results_view(base0).take(i + 1).last() == base0[i as int]@);
                    assert(base@[0] == base0[i as int]);
                }
                let item = base.remove(0);
                let keep_kind = match &query {
                    Query::Structured { symbol: _, kind: Some(k), file: _ } => {
                        streq(item.kind.label(), k.as_str())
                    },
                    _ => true,
                };
                let keep_file = match &query {
                    Query::Structured { symbol: _, kind: _, file: Some(f) } => {
                        let fv = to_char_vec(f.as_str());
                        let pv = to_char_vec(item.file.as_str());
                        contains_chars(&pv, &fv)
                    },
                    _ => true,
                };
                if keep_kind && keep_file {
                    out.push(item);
                }
                i += 1;
                proof {
                    assert(base@ =~= base0.subrange(i as int, n as int));
                    assert(results_view(out@) =~= filter_results(
                        results_view(base0).take(i as int),
                        kspec,
                        fspec,
                    ));
                }
            }
            proof {
                assert(results_view(base0).take(n as int) =~= results_view(base0));
            }
            out
        },
    };
    let count = results.len();
    let found = count > 0;
    SearchResponse { found, count, results }
}

/// Both dependency directions for a symbol name.
pub fn anchor_dependencies(graph: &CodeGraph, symbol_name: &str) -> (r: DependencyReport)
    requires
        well_formed(graph@),
    ensures
        deps_view(r.dependencies@) == spec_dependencies(graph@, symbol_name@),
        deps_view(r.dependents@) == spec_dependents(graph@, symbol_name@),
{
    DependencyReport {
        dependencies: graph.dependencies(symbol_name),
        dependents: graph.dependents(symbol_name),
    }
}

/// The statistics record of a graph model.
pub open spec fn spec_stats_of(m: GraphModel) -> GraphStats {
    GraphStats {
        total_nodes: (live_file_count(m.nodes) + live_symbol_count(m.nodes)) as usize,
        total_edges: m.edges.len() as usize,
        file_count: live_file_count(m.nodes) as usize,
        symbol_count: live_symbol_count(m.nodes) as usize,
        unique_symbol_names: m.symbols.len() as usize,
    }
}

/// Graph statistics.
pub fn anchor_stats(graph: &CodeGraph) -> (r: StatsResponse)
    requires
        well_formed(graph@),
    ensures
        r.stats == spec_stats_of(graph@),
        r.stats.file_count == live_file_count(graph@.nodes),
        r.stats.symbol_count == live_symbol_count(graph@.nodes),
        r.stats.total_nodes == r.stats.file_count + r.stats.symbol_count,
        r.stats.total_edges == graph@.edges.len(),
        r.stats.unique_symbol_names == graph@.symbols.len(),
{
    let r = StatsResponse { stats: graph.stats() };
    proof {
        assert(r.stats == spec_stats_of(graph@));
    }
    r
}

/// Some file-index entry's path contains the query.
pub open spec fn has_file_sub(m: GraphModel, sub: Seq<char>) -> bool {
    exists|i: int| 0 <= i < m.files.len() && spec_contains((#[trigger] m.files[i]).0, sub)
}

/// The first file-index position whose path contains the query
/// (meaningful only when `has_file_sub` holds; unique by the
/// no-earlier-match condition).
pub open spec fn first_file_sub(m: GraphModel, sub: Seq<char>) -> int {
    choose|i: int|
        0 <= i < m.files.len() && spec_contains((#[trigger] m.files[i]).0, sub) && forall|j: int|
            0 <= j < i ==> !spec_contains((#[trigger] m.files[j]).0, sub)
}

/// What `anchor_file_symbols` returns: found flag, the first matching
/// path, and that file's live symbols.
pub open spec fn spec_file_symbols(m: GraphModel, sub: Seq<char>) -> (bool, Seq<char>, Seq<
    NodeView,
>) {
    if has_file_sub(m, sub) {
        let p = m.files[first_file_sub(m, sub)].0;
        (true, p, spec_symbols_in_file(m, p))
    } else {
        (false, Seq::empty(), Seq::empty())
    }
}

/// The first file-index entry whose path contains the query, with its
/// live symbols; `found` is false when no path matches.
pub fn anchor_file_symbols(graph: &CodeGraph, file: &str) -> (r: FileSymbolsResponse)
    requires
        well_formed(graph@),
    ensures
        r.found == spec_file_symbols(graph@, file@).0,
        r.file@ == spec_file_symbols(graph@, file@).1,
        nodes_view(r.symbols@) == spec_file_symbols(graph@, file@).2,
        !r.found ==> r.symbols@.len() == 0 && r.file@.len() == 0,
{
    proof {
        crate::engine::lemma_model(graph);
    }
    let ghost m = graph@;
    let fv = to_char_vec(file);
    let n = graph.file_index.len();
    let mut i: usize = 0;
    while i < n
        invariant
            0 <= i <= n,
            n == graph.file_index@.len(),
            m == graph@,
            well_formed(m),
            fv@ == file@,
            forall|j: int|
                0 <= j < i ==> !spec_contains((#[trigger] m.files[j]).0, file@),
        decreases n - i,
    {
        proof {
            crate::engine::lemma_model(graph);
            assert(m.files[i as int] == (
                graph.file_index@[i as int].0@,
                graph.file_index@[i as int].1,
            ));
        }
        let pv = to_char_vec(graph.file_index[i].0.as_str());
        if contains_chars(&pv, &fv) {
            let path = graph.file_index[i].0.clone();
            let symbols = graph.symbols_in_file(path.as_str());
            proof {
                assert(spec_contains(m.files[i as int].0, file@));
                assert(has_file_sub(m, file@));
                let gi = first_file_sub(m, file@);
                if gi < i as int {
                    assert(!spec_contains(m.files[gi].0, file@));
                } else if gi > i as int {
                    assert(!spec_contains(m.files[i as int].0, file@));
                }
                assert(gi == i as int);
            }
            return FileSymbolsResponse { found: true, file: path, symbols };
        }
        i += 1;
    }
    proof {
        assert(!has_file_sub(m, file@));
        assert(nodes_view(Seq::<crate::types::NodeData>::empty()) =~= Seq::<NodeView>::empty());
    }
    FileSymbolsResponse { found: false, file: String::new(), symbols: Vec::new() }
}

/// Search with an intent hint echoed back; unknown intents behave
/// like plain lookups.
pub fn get_context(graph: &CodeGraph, name: &str, intent: &str) -> (r: ContextResponse)
    requires
        well_formed(graph@),
    ensures
        r.intent@ == intent@,
        results_view(r.symbols@) == spec_search(graph@, name@, SEARCH_LIMIT as int),
        r.found == (r.symbols@.len() > 0),
{
    let symbols = graph.search(name, SEARCH_LIMIT);
    let found = symbols.len() > 0;
    ContextResponse { found, intent: intent.to_owned(), symbols }
}

/// Graph-aware search, passed through to the engine.
pub fn graph_search(graph: &CodeGraph, query: &str, depth: usize) -> (r: GraphSearchResult)
    requires
        well_formed(graph@),
    ensures
        r.match_type@ == crate::graphsearch::spec_match_type(
            graph@,
            crate::strutil::lower_of(query@),
        ),
        r.symbols@.len() <= 50,
        r.connections@.len() <= 100,
        r.matched_files@.len() <= 10,
{
    graph.search_graph(query, depth)
}

} // verus!
