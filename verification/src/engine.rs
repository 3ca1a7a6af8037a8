//! The graph engine: an indexed directed multigraph of files and
//! symbols with soft-delete semantics.
//!
//! The model of a graph is five sequences: node payloads and edges in
//! insertion order, and the three indices as association lists —
//! file path to handle, symbol name to handles, and (file path, name)
//! to handle.

use vstd::prelude::*;
use vstd::pervasive::unreached;

use crate::pgraph::{
    store_add_edge, store_add_node, store_all_edges, store_edge_count, store_get_node,
    store_new, store_node_count, store_set_node, Store, store_edges, store_nodes,
};
use crate::strutil::{spec_basename, streq};
use crate::types::{EdgeData, EdgeKind, NodeData, NodeKind, NodeView};

verus! {

/// The mathematical model of a code graph.
pub ghost struct GraphModel {
    /// Node payloads, in insertion order; a handle is a position here.
    pub nodes: Seq<NodeView>,
    /// Edges as `(source, target, kind)`, in insertion order.
    pub edges: Seq<(usize, usize, EdgeKind)>,
    /// The file index: path to handle of the `File` node.
    pub files: Seq<(Seq<char>, usize)>,
    /// The symbol index: name to every live handle bearing it.
    pub symbols: Seq<(Seq<char>, Seq<usize>)>,
    /// The qualified index: (file path, name) to one live handle.
    pub quals: Seq<(Seq<char>, Seq<char>, usize)>,
}

pub open spec fn files_view(v: Seq<(String, usize)>) -> Seq<(Seq<char>, usize)> {
    Seq::new(v.len(), |i: int| (v[i].0@, v[i].1))
}

pub open spec fn syms_view(v: Seq<(String, Vec<usize>)>) -> Seq<(Seq<char>, Seq<usize>)> {
    Seq::new(v.len(), |i: int| (v[i].0@, v[i].1@))
}

pub open spec fn quals_view(v: Seq<(String, String, usize)>) -> Seq<(Seq<char>, Seq<char>, usize)> {
    Seq::new(v.len(), |i: int| (v[i].0@, v[i].1@, v[i].2))
}

/// The code graph: nodes and edges in a petgraph store, plus the three
/// indices that queries go through.
pub struct CodeGraph {
    pub(crate) graph: Store,
    pub(crate) file_index: Vec<(String, usize)>,
    pub(crate) symbol_index: Vec<(String, Vec<usize>)>,
    pub(crate) qualified_index: Vec<(String, String, usize)>,
}

impl View for CodeGraph {
    type V = GraphModel;

    closed spec fn view(&self) -> GraphModel {
        GraphModel {
            nodes: store_nodes(self.graph),
            edges: store_edges(self.graph),
            files: files_view(self.file_index@),
            symbols: syms_view(self.symbol_index@),
            quals: quals_view(self.qualified_index@),
        }
    }
}

/// How the model of a graph is put together from its parts. The view
/// itself is closed; sibling modules get at it through this lemma.
pub(crate) proof fn lemma_model(g: &CodeGraph)
    ensures
        g@.nodes == store_nodes(g.graph),
        g@.edges == store_edges(g.graph),
        g@.files == files_view(g.file_index@),
        g@.symbols == syms_view(g.symbol_index@),
        g@.quals == quals_view(g.qualified_index@),
{
}

// ─── Model predicates ───────────────────────────────────────────

/// Handle `h` names a live node called `name`.
pub open spec fn handle_named_live(m: GraphModel, h: usize, name: Seq<char>) -> bool {
    &&& (h as int) < m.nodes.len()
    &&& m.nodes[h as int].name == name
    &&& !m.nodes[h as int].removed
}

/// One symbol-index entry is sound: a non-empty list of live handles
/// bearing the entry's name.
pub open spec fn sym_entry_ok(m: GraphModel, e: (Seq<char>, Seq<usize>)) -> bool {
    &&& e.1.len() > 0
    &&& forall|j: int| 0 <= j < e.1.len() ==> handle_named_live(m, #[trigger] e.1[j], e.0)
}

pub open spec fn files_ok(m: GraphModel) -> bool {
    &&& forall|i: int|
        0 <= i < m.files.len() ==> {
            let (p, h) = #[trigger] m.files[i];
            &&& (h as int) < m.nodes.len()
            &&& m.nodes[h as int].kind == NodeKind::File
            &&& m.nodes[h as int].file_path == p
        }
    &&& forall|i: int, j: int|
        0 <= i < j < m.files.len() ==> (#[trigger] m.files[i]).0 != (#[trigger] m.files[j]).0
}

pub open spec fn syms_ok(m: GraphModel) -> bool {
    &&& forall|i: int| 0 <= i < m.symbols.len() ==> sym_entry_ok(m, #[trigger] m.symbols[i])
    &&& forall|i: int, j: int|
        0 <= i < j < m.symbols.len() ==> (#[trigger] m.symbols[i]).0 != (
        #[trigger] m.symbols[j]).0
}

pub open spec fn quals_ok(m: GraphModel) -> bool {
    &&& forall|i: int|
        0 <= i < m.quals.len() ==> {
            let (f, s, h) = #[trigger] m.quals[i];
            &&& (h as int) < m.nodes.len()
            &&& m.nodes[h as int].file_path == f
            &&& m.nodes[h as int].name == s
            &&& !m.nodes[h as int].removed
        }
    &&& forall|i: int, j: int|
        0 <= i < j < m.quals.len() ==> ((#[trigger] m.quals[i]).0, m.quals[i].1) != ((
        #[trigger] m.quals[j]).0, m.quals[j].1)
}

pub open spec fn edges_ok(m: GraphModel) -> bool {
    forall|i: int|
        0 <= i < m.edges.len() ==> ((#[trigger] m.edges[i]).0 as int) < m.nodes.len() && (
        m.edges[i].1 as int) < m.nodes.len()
}

/// Name `name` maps to handle `h` somewhere in the symbol index.
pub open spec fn sym_has_handle(m: GraphModel, name: Seq<char>, h: usize) -> bool {
    exists|i: int|
        0 <= i < m.symbols.len() && (#[trigger] m.symbols[i]).0 == name && m.symbols[i].1.contains(
            h,
        )
}

/// Every live non-file node is reachable through the symbol index.
pub open spec fn syms_complete(m: GraphModel) -> bool {
    forall|h: int|
        0 <= h < m.nodes.len() && !(#[trigger] m.nodes[h]).removed && m.nodes[h].kind
            != NodeKind::File ==> sym_has_handle(m, m.nodes[h].name, h as usize)
}

/// Well-formedness of a code graph: indices are sound association
/// lists over the node store, edges stay in range, and every live
/// symbol is indexed under its name.
pub open spec fn well_formed(m: GraphModel) -> bool {
    &&& files_ok(m)
    &&& syms_ok(m)
    &&& quals_ok(m)
    &&& edges_ok(m)
    &&& syms_complete(m)
}

// ─── Key lookups ────────────────────────────────────────────────

pub open spec fn has_file_key(m: GraphModel, p: Seq<char>) -> bool {
    exists|i: int| 0 <= i < m.files.len() && (#[trigger] m.files[i]).0 == p
}

/// The position of path `p` in the file index (meaningful only when
/// `has_file_key` holds; unique by well-formedness).
pub open spec fn file_key_idx(m: GraphModel, p: Seq<char>) -> int {
    choose|i: int| 0 <= i < m.files.len() && (#[trigger] m.files[i]).0 == p
}

pub open spec fn has_sym_key(m: GraphModel, s: Seq<char>) -> bool {
    exists|i: int| 0 <= i < m.symbols.len() && (#[trigger] m.symbols[i]).0 == s
}

pub open spec fn sym_key_idx(m: GraphModel, s: Seq<char>) -> int {
    choose|i: int| 0 <= i < m.symbols.len() && (#[trigger] m.symbols[i]).0 == s
}

pub open spec fn has_qual_key(m: GraphModel, f: Seq<char>, s: Seq<char>) -> bool {
    exists|i: int|
        0 <= i < m.quals.len() && (#[trigger] m.quals[i]).0 == f && m.quals[i].1 == s
}

pub open spec fn qual_key_idx(m: GraphModel, f: Seq<char>, s: Seq<char>) -> int {
    choose|i: int| 0 <= i < m.quals.len() && (#[trigger] m.quals[i]).0 == f && m.quals[i].1 == s
}

/// The payload of a fresh `File` node for `path`.
pub open spec fn file_node_view(path: Seq<char>) -> NodeView {
    NodeView {
        name: spec_basename(path),
        kind: NodeKind::File,
        file_path: path,
        line_start: 0,
        line_end: 0,
        code_snippet: Seq::<char>::empty(),
        removed: false,
    }
}

/// The payload of a fresh symbol node.
pub open spec fn symbol_node_view(
    name: Seq<char>,
    kind: NodeKind,
    file_path: Seq<char>,
    line_start: int,
    line_end: int,
    code_snippet: Seq<char>,
) -> NodeView {
    NodeView { name, kind, file_path, line_start, line_end, code_snippet, removed: false }
}

// ─── Removal spec ───────────────────────────────────────────────

/// True when some edge leads from `fi` to `h`.
pub open spec fn is_target_of(m: GraphModel, fi: usize, h: usize) -> bool {
    exists|k: int| 0 <= k < m.edges.len() && (#[trigger] m.edges[k]).0 == fi && m.edges[k].1 == h
}

/// The handles that `remove_file` of the file at handle `fi` marks
/// removed: the file node itself and every outgoing neighbour.
pub open spec fn dead_marks(m: GraphModel, fi: usize) -> Seq<bool> {
    Seq::new(m.nodes.len(), |h: int| h == fi as int || is_target_of(m, fi, h as usize))
}

pub open spec fn is_dead(dead: Seq<bool>, h: usize) -> bool {
    (h as int) < dead.len() && dead[h as int]
}

/// A node payload after the removal pass for handle `fi`.
pub open spec fn mark_removed(m: GraphModel, fi: usize, h: int) -> NodeView {
    NodeView {
        removed: m.nodes[h].removed || h == fi as int || is_target_of(m, fi, h as usize),
        ..m.nodes[h]
    }
}

/// A handle list with dead handles dropped.
pub open spec fn list_alive(l: Seq<usize>, dead: Seq<bool>) -> Seq<usize>
    decreases l.len(),
{
    if l.len() == 0 {
        l
    } else {
        let rest = list_alive(l.drop_last(), dead);
        if is_dead(dead, l.last()) {
            rest
        } else {
            rest.push(l.last())
        }
    }
}

/// The symbol index with dead handles dropped and emptied keys
/// removed.
pub open spec fn syms_alive(s: Seq<(Seq<char>, Seq<usize>)>, dead: Seq<bool>) -> Seq<
    (Seq<char>, Seq<usize>),
>
    decreases s.len(),
{
    if s.len() == 0 {
        s
    } else {
        let rest = syms_alive(s.drop_last(), dead);
        let fl = list_alive(s.last().1, dead);
        if fl.len() == 0 {
            rest
        } else {
            rest.push((s.last().0, fl))
        }
    }
}

/// The qualified index with entries for dead handles dropped.
pub open spec fn quals_alive(q: Seq<(Seq<char>, Seq<char>, usize)>, dead: Seq<bool>) -> Seq<
    (Seq<char>, Seq<char>, usize),
>
    decreases q.len(),
{
    if q.len() == 0 {
        q
    } else {
        let rest = quals_alive(q.drop_last(), dead);
        if is_dead(dead, q.last().2) {
            rest
        } else {
            rest.push(q.last())
        }
    }
}

proof fn lemma_list_alive_keeps(l: Seq<usize>, dead: Seq<bool>, x: usize)
    requires
        l.contains(x),
        !is_dead(dead, x),
    ensures
        list_alive(l, dead).contains(x),
    decreases l.len(),
{
    if l.len() > 0 {
        if l.last() == x {
            if !is_dead(dead, x) {
                assert(list_alive(l, dead).last() == x);
            }
        } else {
            let i = choose|i: int| 0 <= i < l.len() && l[i] == x;
            assert(l.drop_last()[i] == x);
            assert(l.drop_last().contains(x));
            lemma_list_alive_keeps(l.drop_last(), dead, x);
            let rest = list_alive(l.drop_last(), dead);
            let j = choose|j: int| 0 <= j < rest.len() && rest[j] == x;
            if !is_dead(dead, l.last()) {
                assert(rest.push(l.last())[j] == x);
            }
        }
    }
}

proof fn lemma_list_alive_sub(l: Seq<usize>, dead: Seq<bool>, j: int)
    requires
        0 <= j < list_alive(l, dead).len(),
    ensures
        l.contains(list_alive(l, dead)[j]),
        !is_dead(dead, list_alive(l, dead)[j]),
    decreases l.len(),
{
    if l.len() > 0 {
        let rest = list_alive(l.drop_last(), dead);
        if is_dead(dead, l.last()) {
            lemma_list_alive_sub(l.drop_last(), dead, j);
            let x = list_alive(l, dead)[j];
            let i = choose|i: int| 0 <= i < l.drop_last().len() && l.drop_last()[i] == x;
            assert(l[i] == x);
        } else {
            if j < rest.len() {
                lemma_list_alive_sub(l.drop_last(), dead, j);
                let x = rest[j];
                let i = choose|i: int| 0 <= i < l.drop_last().len() && l.drop_last()[i] == x;
                assert(l[i] == x);
            } else {
                assert(list_alive(l, dead)[j] == l.last());
                assert(l[l.len() - 1] == l.last());
            }
        }
    }
}

/// Number of live `File` nodes.
pub open spec fn live_file_count(nodes: Seq<NodeView>) -> nat
    decreases nodes.len(),
{
    if nodes.len() == 0 {
        0
    } else {
        live_file_count(nodes.drop_last()) + if !nodes.last().removed && nodes.last().kind
            == NodeKind::File {
            1nat
        } else {
            0nat
        }
    }
}

/// Number of live non-file nodes.
pub open spec fn live_symbol_count(nodes: Seq<NodeView>) -> nat
    decreases nodes.len(),
{
    if nodes.len() == 0 {
        0
    } else {
        live_symbol_count(nodes.drop_last()) + if !nodes.last().removed && nodes.last().kind
            != NodeKind::File {
            1nat
        } else {
            0nat
        }
    }
}

/// Statistics about the graph.
#[derive(Clone, Copy, Debug, PartialEq, Eq, Structural)]
pub struct GraphStats {
    pub total_nodes: usize,
    pub total_edges: usize,
    pub file_count: usize,
    pub symbol_count: usize,
    pub unique_symbol_names: usize,
}

// ─── Exec lookup helpers ────────────────────────────────────────

/// Position of a path in the file index.
pub(crate) fn find_file_entry(v: &Vec<(String, usize)>, path: &str) -> (r: Option<usize>)
    ensures
        match r {
            Some(i) => (i as int) < v@.len() && v@[i as int].0@ == path@,
            None => forall|i: int| 0 <= i < v@.len() ==> (#[trigger] v@[i]).0@ != path@,
        },
{
    let n = v.len();
    let mut i: usize = 0;
    while i < n
        invariant
            0 <= i <= n,
            n == v@.len(),
            forall|k: int| 0 <= k < i ==> (#[trigger] v@[k]).0@ != path@,
        decreases n - i,
    {
        if streq(v[i].0.as_str(), path) {
            return Some(i);
        }
        i += 1;
    }
    None
}

/// Position of a name in the symbol index.
pub(crate) fn find_sym_entry(v: &Vec<(String, Vec<usize>)>, name: &str) -> (r: Option<usize>)
    ensures
        match r {
            Some(i) => (i as int) < v@.len() && v@[i as int].0@ == name@,
            None => forall|i: int| 0 <= i < v@.len() ==> (#[trigger] v@[i]).0@ != name@,
        },
{
    let n = v.len();
    let mut i: usize = 0;
    while i < n
        invariant
            0 <= i <= n,
            n == v@.len(),
            forall|k: int| 0 <= k < i ==> (#[trigger] v@[k]).0@ != name@,
        decreases n - i,
    {
        if streq(v[i].0.as_str(), name) {
            return Some(i);
        }
        i += 1;
    }
    None
}

/// Position of a (file, name) key in the qualified index.
pub(crate) fn find_qual_entry(v: &Vec<(String, String, usize)>, file: &str, name: &str) -> (r: Option<usize>)
    ensures
        match r {
            Some(i) => (i as int) < v@.len() && v@[i as int].0@ == file@ && v@[i as int].1@
                == name@,
            None => forall|i: int|
                0 <= i < v@.len() ==> !((#[trigger] v@[i]).0@ == file@ && v@[i].1@ == name@),
        },
{
    let n = v.len();
    let mut i: usize = 0;
    while i < n
        invariant
            0 <= i <= n,
            n == v@.len(),
            forall|k: int| 0 <= k < i ==> !((#[trigger] v@[k]).0@ == file@ && v@[k].1@ == name@),
        decreases n - i,
    {
        if streq(v[i].0.as_str(), file) && streq(v[i].1.as_str(), name) {
            return Some(i);
        }
        i += 1;
    }
    None
}

// ─── Preservation lemmas ────────────────────────────────────────

/// A pushed element, or any old element, is contained in the result.
proof fn lemma_push_contains<A>(s: Seq<A>, x: A, y: A)
    requires
        s.contains(y) || x == y,
    ensures
        s.push(x).contains(y),
{
    if s.contains(y) {
        let i = choose|i: int| 0 <= i < s.len() && s[i] == y;
        assert(s.push(x)[i] == y);
    } else {
        assert(s.push(x)[s.len() as int] == y);
    }
}

/// An entry of the file index is the unique one for its path.
pub(crate) proof fn lemma_file_key_at(m: GraphModel, i: int)
    requires
        files_ok(m),
        0 <= i < m.files.len(),
    ensures
        has_file_key(m, m.files[i].0),
        file_key_idx(m, m.files[i].0) == i,
{
    let p = m.files[i].0;
    assert(has_file_key(m, p));
    let gi = file_key_idx(m, p);
    if gi < i {
        assert(m.files[gi].0 != m.files[i].0);
    } else if gi > i {
        assert(m.files[i].0 != m.files[gi].0);
    }
}

/// An entry of the symbol index is the unique one for its name.
pub(crate) proof fn lemma_sym_key_at(m: GraphModel, i: int)
    requires
        syms_ok(m),
        0 <= i < m.symbols.len(),
    ensures
        has_sym_key(m, m.symbols[i].0),
        sym_key_idx(m, m.symbols[i].0) == i,
{
    assert(has_sym_key(m, m.symbols[i].0));
    let gi = sym_key_idx(m, m.symbols[i].0);
    if gi < i {
        assert(m.symbols[gi].0 != m.symbols[i].0);
    } else if gi > i {
        assert(m.symbols[i].0 != m.symbols[gi].0);
    }
}

/// An entry of the qualified index is the unique one for its key.
pub(crate) proof fn lemma_qual_key_at(m: GraphModel, i: int)
    requires
        quals_ok(m),
        0 <= i < m.quals.len(),
    ensures
        has_qual_key(m, m.quals[i].0, m.quals[i].1),
        qual_key_idx(m, m.quals[i].0, m.quals[i].1) == i,
{
    assert(has_qual_key(m, m.quals[i].0, m.quals[i].1));
    let gi = qual_key_idx(m, m.quals[i].0, m.quals[i].1);
    if gi < i {
        assert((m.quals[gi].0, m.quals[gi].1) != (m.quals[i].0, m.quals[i].1));
    } else if gi > i {
        assert((m.quals[i].0, m.quals[i].1) != (m.quals[gi].0, m.quals[gi].1));
    }
}

/// A graph with the same nodes and indices as a well-formed one, and
/// in-range edges of its own, is well formed.
proof fn lemma_wf_same_core(m: GraphModel, m2: GraphModel)
    requires
        well_formed(m),
        m2.nodes == m.nodes,
        m2.files == m.files,
        m2.symbols == m.symbols,
        m2.quals == m.quals,
        edges_ok(m2),
    ensures
        well_formed(m2),
{
    assert forall|i: int|
        0 <= i < m2.files.len() implies {
            let (p, hh) = #[trigger] m2.files[i];
            &&& (hh as int) < m2.nodes.len()
            &&& m2.nodes[hh as int].kind == NodeKind::File
            &&& m2.nodes[hh as int].file_path == p
        } by {
        assert(m.files[i] == m2.files[i]);
    }
    assert forall|i: int| 0 <= i < m2.symbols.len() implies sym_entry_ok(
        m2,
        #[trigger] m2.symbols[i],
    ) by {
        let e = m2.symbols[i];
        assert(e == m.symbols[i]);
        assert(sym_entry_ok(m, e));
        assert forall|j: int| 0 <= j < e.1.len() implies handle_named_live(
            m2,
            #[trigger] e.1[j],
            e.0,
        ) by {
            assert(handle_named_live(m, e.1[j], e.0));
        }
    }
    assert forall|i: int|
        0 <= i < m2.quals.len() implies {
            let (f, s, hh) = #[trigger] m2.quals[i];
            &&& (hh as int) < m2.nodes.len()
            &&& m2.nodes[hh as int].file_path == f
            &&& m2.nodes[hh as int].name == s
            &&& !m2.nodes[hh as int].removed
        } by {
        assert(m2.quals[i] == m.quals[i]);
    }
    assert forall|h2: int|
        0 <= h2 < m2.nodes.len() && !(#[trigger] m2.nodes[h2]).removed && m2.nodes[h2].kind
            != NodeKind::File implies sym_has_handle(m2, m2.nodes[h2].name, h2 as usize) by {
        assert(sym_has_handle(m, m.nodes[h2].name, h2 as usize));
        let wi = choose|i: int|
            0 <= i < m.symbols.len() && (#[trigger] m.symbols[i]).0 == m.nodes[h2].name
                && m.symbols[i].1.contains(h2 as usize);
        assert(m2.symbols[wi].0 == m2.nodes[h2].name && m2.symbols[wi].1.contains(h2 as usize));
    }
}

/// Clearing the removed flag of a `File` node keeps the graph well
/// formed.
proof fn lemma_wf_unremove_file(m: GraphModel, m2: GraphModel, h: int)
    requires
        well_formed(m),
        0 <= h < m.nodes.len(),
        m.nodes[h].kind == NodeKind::File,
        m2.nodes == m.nodes.update(h, NodeView { removed: false, ..m.nodes[h] }),
        m2.edges == m.edges,
        m2.files == m.files,
        m2.symbols == m.symbols,
        m2.quals == m.quals,
    ensures
        well_formed(m2),
{
    assert forall|i: int| 0 <= i < m2.symbols.len() implies sym_entry_ok(
        m2,
        #[trigger] m2.symbols[i],
    ) by {
        let e = m2.symbols[i];
        assert(sym_entry_ok(m, e));
        assert forall|j: int| 0 <= j < e.1.len() implies handle_named_live(
            m2,
            #[trigger] e.1[j],
            e.0,
        ) by {
            assert(handle_named_live(m, e.1[j], e.0));
        }
    }
    assert forall|h2: int|
        0 <= h2 < m2.nodes.len() && !(#[trigger] m2.nodes[h2]).removed && m2.nodes[h2].kind
            != NodeKind::File implies sym_has_handle(m2, m2.nodes[h2].name, h2 as usize) by {
        assert(h2 != h);
        assert(sym_has_handle(m, m.nodes[h2].name, h2 as usize));
    }
}

/// Appending a fresh `File` node with a fresh file-index entry keeps
/// the graph well formed.
proof fn lemma_wf_add_file_fresh(m: GraphModel, m2: GraphModel, p: Seq<char>, h: usize)
    requires
        well_formed(m),
        !has_file_key(m, p),
        h == m.nodes.len(),
        m2.nodes == m.nodes.push(file_node_view(p)),
        m2.edges == m.edges,
        m2.files == m.files.push((p, h)),
        m2.symbols == m.symbols,
        m2.quals == m.quals,
    ensures
        well_formed(m2),
{
    assert forall|i: int|
        0 <= i < m2.files.len() implies {
            let (pp, hh) = #[trigger] m2.files[i];
            &&& (hh as int) < m2.nodes.len()
            &&& m2.nodes[hh as int].kind == NodeKind::File
            &&& m2.nodes[hh as int].file_path == pp
        } by {
        if i < m.files.len() {
            assert(m2.files[i] == m.files[i]);
        } else {
            assert(m2.files[i] == (p, h));
            assert(m2.nodes[h as int] == file_node_view(p));
        }
    }
    assert forall|i: int, j: int| 0 <= i < j < m2.files.len() implies (
    #[trigger] m2.files[i]).0 != (#[trigger] m2.files[j]).0 by {
        if j < m.files.len() {
            assert(m.files[i].0 != m.files[j].0);
        } else {
            assert(m2.files[j].0 == p);
            assert(m.files[i].0 != p);
        }
    }
    assert forall|i: int| 0 <= i < m2.symbols.len() implies sym_entry_ok(
        m2,
        #[trigger] m2.symbols[i],
    ) by {
        let e = m2.symbols[i];
        assert(sym_entry_ok(m, e));
        assert forall|j: int| 0 <= j < e.1.len() implies handle_named_live(
            m2,
            #[trigger] e.1[j],
            e.0,
        ) by {
            assert(handle_named_live(m, e.1[j], e.0));
        }
    }
    assert forall|h2: int|
        0 <= h2 < m2.nodes.len() && !(#[trigger] m2.nodes[h2]).removed && m2.nodes[h2].kind
            != NodeKind::File implies sym_has_handle(m2, m2.nodes[h2].name, h2 as usize) by {
        assert(h2 < m.nodes.len());
        assert(sym_has_handle(m, m.nodes[h2].name, h2 as usize));
    }
}

/// Appending a fresh live symbol node, indexing its handle under its
/// name, and claiming a free qualified slot keeps the graph well
/// formed.
proof fn lemma_wf_add_symbol(m: GraphModel, m2: GraphModel, w: NodeView, h: usize)
    requires
        well_formed(m),
        h == m.nodes.len(),
        w.removed == false,
        m2.nodes == m.nodes.push(w),
        m2.edges == m.edges,
        m2.files == m.files,
        if has_sym_key(m, w.name) {
            m2.symbols == m.symbols.update(
                sym_key_idx(m, w.name),
                (w.name, m.symbols[sym_key_idx(m, w.name)].1.push(h)),
            )
        } else {
            m2.symbols == m.symbols.push((w.name, seq![h]))
        },
        if has_qual_key(m, w.file_path, w.name) {
            m2.quals == m.quals
        } else {
            m2.quals == m.quals.push((w.file_path, w.name, h))
        },
    ensures
        well_formed(m2),
{
    assert forall|i: int|
        0 <= i < m2.files.len() implies {
            let (pp, hh) = #[trigger] m2.files[i];
            &&& (hh as int) < m2.nodes.len()
            &&& m2.nodes[hh as int].kind == NodeKind::File
            &&& m2.nodes[hh as int].file_path == pp
        } by {
        assert(m.files[i] == m2.files[i]);
    }
    assert(m2.nodes[h as int] == w);
    // the symbol index stays sound and keyed uniquely
    if has_sym_key(m, w.name) {
        let ki = sym_key_idx(m, w.name);
        assert(0 <= ki < m.symbols.len() && m.symbols[ki].0 == w.name);
        assert forall|i: int| 0 <= i < m2.symbols.len() implies sym_entry_ok(
            m2,
            #[trigger] m2.symbols[i],
        ) by {
            let e = m2.symbols[i];
            if i == ki {
                let olde = m.symbols[ki];
                assert(sym_entry_ok(m, olde));
                assert(e == (w.name, olde.1.push(h)));
                assert forall|j: int| 0 <= j < e.1.len() implies handle_named_live(
                    m2,
                    #[trigger] e.1[j],
                    e.0,
                ) by {
                    if j < olde.1.len() {
                        assert(e.1[j] == olde.1[j]);
                        assert(handle_named_live(m, olde.1[j], olde.0));
                    } else {
                        assert(e.1[j] == h);
                    }
                }
            } else {
                assert(e == m.symbols[i]);
                assert(sym_entry_ok(m, e));
                assert forall|j: int| 0 <= j < e.1.len() implies handle_named_live(
                    m2,
                    #[trigger] e.1[j],
                    e.0,
                ) by {
                    assert(handle_named_live(m, e.1[j], e.0));
                }
            }
        }
        assert forall|i: int, j: int| 0 <= i < j < m2.symbols.len() implies (
        #[trigger] m2.symbols[i]).0 != (#[trigger] m2.symbols[j]).0 by {
            assert(m2.symbols[i].0 == m.symbols[i].0);
            assert(m2.symbols[j].0 == m.symbols[j].0);
        }
    } else {
        assert forall|i: int| 0 <= i < m2.symbols.len() implies sym_entry_ok(
            m2,
            #[trigger] m2.symbols[i],
        ) by {
            let e = m2.symbols[i];
            if i < m.symbols.len() {
                assert(e == m.symbols[i]);
                assert(sym_entry_ok(m, e));
                assert forall|j: int| 0 <= j < e.1.len() implies handle_named_live(
                    m2,
                    #[trigger] e.1[j],
                    e.0,
                ) by {
                    assert(handle_named_live(m, e.1[j], e.0));
                }
            } else {
                assert(e == (w.name, seq![h]));
                assert(e.1[0] == h);
            }
        }
        assert forall|i: int, j: int| 0 <= i < j < m2.symbols.len() implies (
        #[trigger] m2.symbols[i]).0 != (#[trigger] m2.symbols[j]).0 by {
            if j < m.symbols.len() {
                assert(m.symbols[i].0 != m.symbols[j].0);
            } else {
                assert(m2.symbols[j].0 == w.name);
                assert(m.symbols[i].0 != w.name);
            }
        }
    }
    // the qualified index stays sound and keyed uniquely
    if has_qual_key(m, w.file_path, w.name) {
        assert forall|i: int|
            0 <= i < m2.quals.len() implies {
                let (f, s, hh) = #[trigger] m2.quals[i];
                &&& (hh as int) < m2.nodes.len()
                &&& m2.nodes[hh as int].file_path == f
                &&& m2.nodes[hh as int].name == s
                &&& !m2.nodes[hh as int].removed
            } by {
            assert(m2.quals[i] == m.quals[i]);
        }
    } else {
        assert forall|i: int|
            0 <= i < m2.quals.len() implies {
                let (f, s, hh) = #[trigger] m2.quals[i];
                &&& (hh as int) < m2.nodes.len()
                &&& m2.nodes[hh as int].file_path == f
                &&& m2.nodes[hh as int].name == s
                &&& !m2.nodes[hh as int].removed
            } by {
            if i < m.quals.len() {
                assert(m2.quals[i] == m.quals[i]);
            } else {
                assert(m2.quals[i] == (w.file_path, w.name, h));
            }
        }
        assert forall|i: int, j: int|
            0 <= i < j < m2.quals.len() implies ((#[trigger] m2.quals[i]).0, m2.quals[i].1) != ((
            #[trigger] m2.quals[j]).0, m2.quals[j].1) by {
            if j < m.quals.len() {
                assert((m.quals[i].0, m.quals[i].1) != (m.quals[j].0, m.quals[j].1));
            } else {
                assert((m2.quals[j].0, m2.quals[j].1) == (w.file_path, w.name));
                assert(!(m.quals[i].0 == w.file_path && m.quals[i].1 == w.name));
            }
        }
    }
    // every live non-file node stays reachable through the symbol index
    assert forall|h2: int|
        0 <= h2 < m2.nodes.len() && !(#[trigger] m2.nodes[h2]).removed && m2.nodes[h2].kind
            != NodeKind::File implies sym_has_handle(m2, m2.nodes[h2].name, h2 as usize) by {
        if h2 < m.nodes.len() {
            assert(sym_has_handle(m, m.nodes[h2].name, h2 as usize));
            let wi = choose|i: int|
                0 <= i < m.symbols.len() && (#[trigger] m.symbols[i]).0 == m.nodes[h2].name
                    && m.symbols[i].1.contains(h2 as usize);
            if has_sym_key(m, w.name) {
                let ki = sym_key_idx(m, w.name);
                if wi == ki {
                    lemma_push_contains(m.symbols[ki].1, h, h2 as usize);
                    assert(m2.symbols[ki].0 == m.nodes[h2].name && m2.symbols[ki].1.contains(
                        h2 as usize,
                    ));
                } else {
                    assert(m2.symbols[wi] == m.symbols[wi]);
                    assert(m2.symbols[wi].0 == m.nodes[h2].name && m2.symbols[wi].1.contains(
                        h2 as usize,
                    ));
                }
            } else {
                assert(m2.symbols[wi] == m.symbols[wi]);
                assert(m2.symbols[wi].0 == m.nodes[h2].name && m2.symbols[wi].1.contains(
                    h2 as usize,
                ));
            }
        } else {
            // the new node itself
            assert(m2.nodes[h2] == w);
            if has_sym_key(m, w.name) {
                let ki = sym_key_idx(m, w.name);
                lemma_push_contains(m.symbols[ki].1, h, h);
                assert(m2.symbols[ki].0 == w.name && m2.symbols[ki].1.contains(h));
            } else {
                let last = m.symbols.len() as int;
                assert(m2.symbols[last].0 == w.name);
                assert(m2.symbols[last].1[0] == h);
                assert(m2.symbols[last].1.contains(h));
            }
        }
    }
}

/// After a removal pass — nodes marked by `dm`, the file entry
/// dropped, and both indices purged — the graph is well formed. The
/// `srcs`/`qsrcs` sequences say which old index entry each surviving
/// entry came from.
proof fn lemma_wf_after_remove(
    m: GraphModel,
    m2: GraphModel,
    fi: usize,
    ki: int,
    dm: Seq<bool>,
    srcs: Seq<int>,
    qsrcs: Seq<int>,
)
    requires
        well_formed(m),
        m.nodes.len() <= usize::MAX,
        0 <= ki < m.files.len(),
        dm == dead_marks(m, fi),
        m2.nodes == Seq::new(m.nodes.len(), |h: int| mark_removed(m, fi, h)),
        m2.edges == m.edges,
        m2.files == m.files.remove(ki),
        m2.symbols == syms_alive(m.symbols, dm),
        m2.quals == quals_alive(m.quals, dm),
        srcs.len() == m2.symbols.len(),
        forall|i2: int| 0 <= i2 < srcs.len() ==> 0 <= #[trigger] srcs[i2] < m.symbols.len(),
        forall|i2: int, j2: int|
            0 <= i2 < j2 < srcs.len() ==> #[trigger] srcs[i2] < #[trigger] srcs[j2],
        forall|i2: int|
            0 <= i2 < srcs.len() ==> {
                let e = #[trigger] m2.symbols[i2];
                &&& e.0 == m.symbols[srcs[i2]].0
                &&& e.1 == list_alive(m.symbols[srcs[i2]].1, dm)
                &&& e.1.len() > 0
            },
        forall|s2: int|
            0 <= s2 < m.symbols.len() && list_alive((#[trigger] m.symbols[s2]).1, dm).len() > 0
                ==> exists|i2: int| 0 <= i2 < srcs.len() && #[trigger] srcs[i2] == s2,
        qsrcs.len() == m2.quals.len(),
        forall|i2: int| 0 <= i2 < qsrcs.len() ==> 0 <= #[trigger] qsrcs[i2] < m.quals.len(),
        forall|i2: int, j2: int|
            0 <= i2 < j2 < qsrcs.len() ==> #[trigger] qsrcs[i2] < #[trigger] qsrcs[j2],
        forall|i2: int|
            0 <= i2 < qsrcs.len() ==> (#[trigger] m2.quals[i2]) == m.quals[qsrcs[i2]] && !is_dead(
                dm,
                m.quals[qsrcs[i2]].2,
            ),
    ensures
        well_formed(m2),
{
    assert(m2.nodes.len() == m.nodes.len());
    assert forall|h: int|
        0 <= h < m2.nodes.len() implies (#[trigger] m2.nodes[h]).name == m.nodes[h].name
        && m2.nodes[h].kind == m.nodes[h].kind && m2.nodes[h].file_path == m.nodes[h].file_path
        && m2.nodes[h].removed == (m.nodes[h].removed || h == fi as int || is_target_of(
        m,
        fi,
        h as usize,
    )) by {
        assert(m2.nodes[h] == mark_removed(m, fi, h));
    }
    m.files.remove_ensures(ki);
    assert forall|i2: int|
        0 <= i2 < m2.files.len() implies {
            let (p, hh) = #[trigger] m2.files[i2];
            &&& (hh as int) < m2.nodes.len()
            &&& m2.nodes[hh as int].kind == NodeKind::File
            &&& m2.nodes[hh as int].file_path == p
        } by {
        if i2 < ki {
            assert(m2.files[i2] == m.files[i2]);
        } else {
            assert(m2.files[i2] == m.files[i2 + 1]);
        }
    }
    assert forall|i2: int, j2: int| 0 <= i2 < j2 < m2.files.len() implies (
    #[trigger] m2.files[i2]).0 != (#[trigger] m2.files[j2]).0 by {
        let oi = if i2 < ki {
            i2
        } else {
            i2 + 1
        };
        let oj = if j2 < ki {
            j2
        } else {
            j2 + 1
        };
        assert(m2.files[i2] == m.files[oi]);
        assert(m2.files[j2] == m.files[oj]);
        assert(m.files[oi].0 != m.files[oj].0);
    }
    assert forall|i2: int| 0 <= i2 < m2.symbols.len() implies sym_entry_ok(
        m2,
        #[trigger] m2.symbols[i2],
    ) by {
        let e = m2.symbols[i2];
        let s2 = srcs[i2];
        let olde = m.symbols[s2];
        assert(sym_entry_ok(m, olde));
        assert forall|j: int| 0 <= j < e.1.len() implies handle_named_live(
            m2,
            #[trigger] e.1[j],
            e.0,
        ) by {
            lemma_list_alive_sub(olde.1, dm, j);
            let x = e.1[j];
            assert(olde.1.contains(x));
            let xi = choose|xi: int| 0 <= xi < olde.1.len() && olde.1[xi] == x;
            assert(handle_named_live(m, olde.1[xi], olde.0));
            assert(m2.nodes[x as int] == mark_removed(m, fi, x as int));
            assert(!is_dead(dm, x));
            assert(dead_marks(m, fi)[x as int] == (x as int == fi as int || is_target_of(
                m,
                fi,
                x,
            )));
            assert(!(x as int == fi as int || is_target_of(m, fi, x)));
        }
    }
    assert forall|i2: int, j2: int| 0 <= i2 < j2 < m2.symbols.len() implies (
    #[trigger] m2.symbols[i2]).0 != (#[trigger] m2.symbols[j2]).0 by {
        assert(srcs[i2] < srcs[j2]);
        assert(m.symbols[srcs[i2]].0 != m.symbols[srcs[j2]].0);
    }
    assert forall|i2: int|
        0 <= i2 < m2.quals.len() implies {
            let (f, s, hh) = #[trigger] m2.quals[i2];
            &&& (hh as int) < m2.nodes.len()
            &&& m2.nodes[hh as int].file_path == f
            &&& m2.nodes[hh as int].name == s
            &&& !m2.nodes[hh as int].removed
        } by {
        let q2 = qsrcs[i2];
        assert(m2.quals[i2] == m.quals[q2]);
        let hh = m.quals[q2].2;
        assert((hh as int) < m.nodes.len() && !m.nodes[hh as int].removed);
        assert(m2.nodes[hh as int] == mark_removed(m, fi, hh as int));
        assert(!is_dead(dm, hh));
        assert(dead_marks(m, fi)[hh as int] == (hh as int == fi as int || is_target_of(
            m,
            fi,
            hh,
        )));
        assert(!(hh as int == fi as int || is_target_of(m, fi, hh)));
    }
    assert forall|i2: int, j2: int|
        0 <= i2 < j2 < m2.quals.len() implies ((#[trigger] m2.quals[i2]).0, m2.quals[i2].1) != ((
        #[trigger] m2.quals[j2]).0, m2.quals[j2].1) by {
        assert(qsrcs[i2] < qsrcs[j2]);
        assert((m.quals[qsrcs[i2]].0, m.quals[qsrcs[i2]].1) != (
            m.quals[qsrcs[j2]].0,
            m.quals[qsrcs[j2]].1,
        ));
    }
    assert forall|i2: int|
        0 <= i2 < m2.edges.len() implies ((#[trigger] m2.edges[i2]).0 as int) < m2.nodes.len()
        && (m2.edges[i2].1 as int) < m2.nodes.len() by {
        assert(m2.edges[i2] == m.edges[i2]);
    }
    assert forall|h2: int|
        0 <= h2 < m2.nodes.len() && !(#[trigger] m2.nodes[h2]).removed && m2.nodes[h2].kind
            != NodeKind::File implies sym_has_handle(m2, m2.nodes[h2].name, h2 as usize) by {
        assert(m2.nodes[h2] == mark_removed(m, fi, h2));
        assert(!m.nodes[h2].removed);
        assert(!(h2 == fi as int || is_target_of(m, fi, h2 as usize)));
        assert(dead_marks(m, fi)[h2] == (h2 == fi as int || is_target_of(m, fi, h2 as usize)));
        assert(sym_has_handle(m, m.nodes[h2].name, h2 as usize));
        let wi = choose|wi: int|
            0 <= wi < m.symbols.len() && (#[trigger] m.symbols[wi]).0 == m.nodes[h2].name
                && m.symbols[wi].1.contains(h2 as usize);
        assert(!is_dead(dm, h2 as usize));
        lemma_list_alive_keeps(m.symbols[wi].1, dm, h2 as usize);
        assert(list_alive(m.symbols[wi].1, dm).len() > 0);
        let i2 = choose|i2: int| 0 <= i2 < srcs.len() && #[trigger] srcs[i2] == wi;
        assert(m2.symbols[i2].0 == m.symbols[wi].0);
        assert(m2.symbols[i2].1 == list_alive(m.symbols[wi].1, dm));
        assert(m2.symbols[i2].1.contains(h2 as usize));
        assert(sym_has_handle(m2, m2.nodes[h2].name, h2 as usize));
    }
}

// ─── Construction and mutation ──────────────────────────────────

impl CodeGraph {
    /// Create a new empty code graph.
    pub fn new() -> (g: CodeGraph)
        ensures
            g@.nodes.len() == 0,
            g@.edges.len() == 0,
            g@.files.len() == 0,
            g@.symbols.len() == 0,
            g@.quals.len() == 0,
            well_formed(g@),
    {
        let g = CodeGraph {
            graph: store_new(),
            file_index: Vec::new(),
            symbol_index: Vec::new(),
            qualified_index: Vec::new(),
        };
        g
    }

    /// Add a file node. Idempotent: an indexed path keeps its handle,
    /// and a soft-deleted file node comes back to life; otherwise a
    /// fresh `File` node is created and indexed.
    pub fn add_file(&mut self, path: String) -> (h: usize)
        requires
            well_formed(old(self)@),
        ensures
            well_formed(final(self)@),
            final(self)@.edges == old(self)@.edges,
            final(self)@.symbols == old(self)@.symbols,
            final(self)@.quals == old(self)@.quals,
            (h as int) < final(self)@.nodes.len(),
            final(self)@.nodes[h as int].kind == NodeKind::File,
            final(self)@.nodes[h as int].file_path == path@,
            !final(self)@.nodes[h as int].removed,
            has_file_key(final(self)@, path@),
            if has_file_key(old(self)@, path@) {
                let i = file_key_idx(old(self)@, path@);
                &&& h == old(self)@.files[i].1
                &&& final(self)@.nodes == old(self)@.nodes.update(
                    h as int,
                    NodeView { removed: false, ..old(self)@.nodes[h as int] },
                )
                &&& final(self)@.files == old(self)@.files
            } else {
                &&& h == old(self)@.nodes.len()
                &&& final(self)@.nodes == old(self)@.nodes.push(file_node_view(path@))
                &&& final(self)@.files == old(self)@.files.push((path@, h))
            },
    {
        match find_file_entry(&self.file_index, path.as_str()) {
            Some(i) => {
                let h = self.file_index[i].1;
                proof {
                    assert(self@.files[i as int] == (
                        self.file_index@[i as int].0@,
                        self.file_index@[i as int].1,
                    ));
                    lemma_file_key_at(self@, i as int);
                }
                match store_get_node(&self.graph, h) {
                    Some(node) => {
                        let mut node = node;
                        node.removed = false;
                        store_set_node(&mut self.graph, h, node);
                    },
                    None => {
                        proof {
                            assert(false);
                        }
                    },
                }
                proof {
                    assert(self@.nodes =~= old(self)@.nodes.update(
                        h as int,
                        NodeView { removed: false, ..old(self)@.nodes[h as int] },
                    ));
                    lemma_wf_unremove_file(old(self)@, self@, h as int);
                }
                h
            },
            None => {
                let path2 = path.clone();
                let data = NodeData::new_file(path);
                let h = store_add_node(&mut self.graph, data);
                self.file_index.push((path2, h));
                proof {
                    assert(!has_file_key(old(self)@, path@));
                    assert(self@.files =~= old(self)@.files.push((path@, h)));
                    assert(self@.nodes =~= old(self)@.nodes.push(file_node_view(path@)));
                    lemma_wf_add_file_fresh(old(self)@, self@, path@, h);
                    assert(self@.files[old(self)@.files.len() as int].0 == path@);
                    assert(has_file_key(self@, path@));
                }
                h
            },
        }
    }

    /// Add a symbol node. Always creates a fresh node, appends its
    /// handle under its name in the symbol index, and claims the
    /// (file, name) slot of the qualified index if it is still free.
    pub fn add_symbol(
        &mut self,
        name: String,
        kind: NodeKind,
        file_path: String,
        line_start: usize,
        line_end: usize,
        code_snippet: String,
    ) -> (h: usize)
        requires
            well_formed(old(self)@),
        ensures
            well_formed(final(self)@),
            h == old(self)@.nodes.len(),
            final(self)@.nodes == old(self)@.nodes.push(
                symbol_node_view(
                    name@,
                    kind,
                    file_path@,
                    line_start as int,
                    line_end as int,
                    code_snippet@,
                ),
            ),
            final(self)@.edges == old(self)@.edges,
            final(self)@.files == old(self)@.files,
            if has_sym_key(old(self)@, name@) {
                let i = sym_key_idx(old(self)@, name@);
                final(self)@.symbols == old(self)@.symbols.update(
                    i,
                    (name@, old(self)@.symbols[i].1.push(h)),
                )
            } else {
                final(self)@.symbols == old(self)@.symbols.push((name@, seq![h]))
            },
            if has_qual_key(old(self)@, file_path@, name@) {
                final(self)@.quals == old(self)@.quals
            } else {
                final(self)@.quals == old(self)@.quals.push((file_path@, name@, h))
            },
    {
        let ghost w = symbol_node_view(
            name@,
            kind,
            file_path@,
            line_start as int,
            line_end as int,
            code_snippet@,
        );
        let name2 = name.clone();
        let name3 = name.clone();
        let file2 = file_path.clone();
        let data = NodeData::new_symbol(name, kind, file_path, line_start, line_end, code_snippet);
        let h = store_add_node(&mut self.graph, data);
        proof {
            assert(self@.nodes =~= old(self)@.nodes.push(w));
        }
        match find_sym_entry(&self.symbol_index, name2.as_str()) {
            Some(i) => {
                proof {
                    assert(old(self)@.symbols[i as int] == (
                        self.symbol_index@[i as int].0@,
                        self.symbol_index@[i as int].1@,
                    ));
                    lemma_sym_key_at(old(self)@, i as int);
                }
                self.symbol_index[i].1.push(h);
                proof {
                    assert(self@.symbols =~= old(self)@.symbols.update(
                        i as int,
                        (w.name, old(self)@.symbols[i as int].1.push(h)),
                    ));
                }
            },
            None => {
                let mut lst: Vec<usize> = Vec::new();
                lst.push(h);
                self.symbol_index.push((name2, lst));
                proof {
                    assert(!has_sym_key(old(self)@, w.name));
                    assert(lst@ =~= seq![h]);
                    assert(self@.symbols =~= old(self)@.symbols.push((w.name, seq![h])));
                }
            },
        }
        match find_qual_entry(&self.qualified_index, file2.as_str(), name3.as_str()) {
            Some(qi) => {
                proof {
                    assert(old(self)@.quals[qi as int] == (
                        self.qualified_index@[qi as int].0@,
                        self.qualified_index@[qi as int].1@,
                        self.qualified_index@[qi as int].2,
                    ));
                    assert(has_qual_key(old(self)@, w.file_path, w.name));
                }
            },
            None => {
                self.qualified_index.push((file2, name3, h));
                proof {
                    assert(!has_qual_key(old(self)@, w.file_path, w.name));
                    assert(self@.quals =~= old(self)@.quals.push((w.file_path, w.name, h)));
                }
            },
        }
        proof {
            lemma_wf_add_symbol(old(self)@, self@, w, h);
        }
        h
    }

    /// Add an edge between two existing nodes; parallel edges are
    /// allowed.
    pub fn add_edge(&mut self, from: usize, to: usize, kind: EdgeKind)
        requires
            well_formed(old(self)@),
            (from as int) < old(self)@.nodes.len(),
            (to as int) < old(self)@.nodes.len(),
        ensures
            well_formed(final(self)@),
            final(self)@.edges == old(self)@.edges.push((from, to, kind)),
            final(self)@.nodes == old(self)@.nodes,
            final(self)@.files == old(self)@.files,
            final(self)@.symbols == old(self)@.symbols,
            final(self)@.quals == old(self)@.quals,
    {
        store_add_edge(&mut self.graph, from, to, EdgeData::new(kind));
        proof {
            assert forall|i: int|
                0 <= i < self@.edges.len() implies ((#[trigger] self@.edges[i]).0 as int)
                < self@.nodes.len() && (self@.edges[i].1 as int) < self@.nodes.len() by {
                if i < old(self)@.edges.len() {
                    assert(self@.edges[i] == old(self)@.edges[i]);
                } else {
                    assert(self@.edges[i] == (from, to, kind));
                }
            }
            lemma_wf_same_core(old(self)@, self@);
        }
    }

    /// Graph statistics. Counts live file and symbol nodes separately;
    /// the edge count includes edges that touch removed nodes.
    pub fn stats(&self) -> (r: GraphStats)
        requires
            well_formed(self@),
        ensures
            r.file_count == live_file_count(self@.nodes),
            r.symbol_count == live_symbol_count(self@.nodes),
            r.total_nodes == r.file_count + r.symbol_count,
            r.total_edges == self@.edges.len(),
            r.unique_symbol_names == self@.symbols.len(),
    {
        let n = store_node_count(&self.graph);
        let mut file_count: usize = 0;
        let mut symbol_count: usize = 0;
        let mut h: usize = 0;
        while h < n
            invariant
                0 <= h <= n,
                n == self@.nodes.len(),
                file_count == live_file_count(self@.nodes.take(h as int)),
                symbol_count == live_symbol_count(self@.nodes.take(h as int)),
                file_count + symbol_count <= h,
            decreases n - h,
        {
            proof {
                assert(self@.nodes.take(h + 1).drop_last() =~= self@.nodes.take(h as int));
                assert(self@.nodes.take(h + 1).last() == self@.nodes[h as int]);
            }
            let node = match store_get_node(&self.graph, h) {
                Some(node) => node,
                None => {
                    proof {
                        assert(false);
                    }
                    unreached()
                },
            };
            if !node.removed {
                if node.kind == NodeKind::File {
                    file_count += 1;
                } else {
                    symbol_count += 1;
                }
            }
            h += 1;
        }
        proof {
            assert(self@.nodes.take(n as int) =~= self@.nodes);
        }
        GraphStats {
            total_nodes: file_count + symbol_count,
            total_edges: store_edge_count(&self.graph),
            file_count,
            symbol_count,
            unique_symbol_names: self.symbol_index.len(),
        }
    }

    /// Soft-delete a file: mark the file node and every outgoing
    /// neighbour as removed, purge the marked handles from the symbol
    /// and qualified indices (dropping emptied keys), and drop the
    /// path from the file index. Edges stay in place and may dangle.
    pub fn remove_file(&mut self, path: &str)
        requires
            well_formed(old(self)@),
        ensures
            well_formed(final(self)@),
            final(self)@.edges == old(self)@.edges,
            !has_file_key(old(self)@, path@) ==> final(self)@ == old(self)@,
            has_file_key(old(self)@, path@) ==> {
                let ki = file_key_idx(old(self)@, path@);
                let fi = old(self)@.files[ki].1;
                &&& final(self)@.nodes == Seq::new(
                    old(self)@.nodes.len(),
                    |h: int| mark_removed(old(self)@, fi, h),
                )
                &&& final(self)@.files == old(self)@.files.remove(ki)
                &&& final(self)@.symbols == syms_alive(
                    old(self)@.symbols,
                    dead_marks(old(self)@, fi),
                )
                &&& final(self)@.quals == quals_alive(
                    old(self)@.quals,
                    dead_marks(old(self)@, fi),
                )
            },
    {
        let i = match find_file_entry(&self.file_index, path) {
            Some(i) => i,
            None => {
                proof {
                    assert forall|ii: int| 0 <= ii < self@.files.len() implies (
                    #[trigger] self@.files[ii]).0 != path@ by {
                        assert(self@.files[ii].0 == self.file_index@[ii].0@);
                    }
                    assert(!has_file_key(self@, path@));
                }
                return ;
            },
        };
        proof {
            assert(self@.files[i as int] == (
                self.file_index@[i as int].0@,
                self.file_index@[i as int].1,
            ));
            lemma_file_key_at(self@, i as int);
        }
        let fi = self.file_index[i].1;
        let ghost m0 = self@;
        let ghost dm = dead_marks(m0, fi);
        self.file_index.remove(i);
        proof {
            old(self).file_index@.remove_ensures(i as int);
            m0.files.remove_ensures(i as int);
            assert(self@.files =~= m0.files.remove(i as int));
        }
        let n = store_node_count(&self.graph);
        let edges = store_all_edges(&self.graph);
        // collect the handles to mark: outgoing neighbours of the file
        let mut dead: Vec<bool> = Vec::new();
        let mut z: usize = 0;
        while z < n
            invariant
                0 <= z <= n,
                dead@.len() == z,
                forall|q: int| 0 <= q < z ==> (#[trigger] dead@[q]) == false,
            decreases n - z,
        {
            dead.push(false);
            z += 1;
        }
        let en = edges.len();
        let mut k: usize = 0;
        while k < en
            invariant
                0 <= k <= en,
                en == edges@.len(),
                edges@ == m0.edges,
                edges_ok(m0),
                dead@.len() == n,
                n == m0.nodes.len(),
                forall|h: int|
                    0 <= h < n ==> ((#[trigger] dead@[h]) <==> exists|k2: int|
                        0 <= k2 < k && (#[trigger] edges@[k2]).0 == fi && edges@[k2].1 == h),
            decreases en - k,
        {
            let e = edges[k];
            if e.0 == fi {
                proof {
                    assert((m0.edges[k as int].1 as int) < m0.nodes.len());
                }
                let t = e.1;
                dead[t] = true;
                proof {
                    assert forall|h: int|
                        0 <= h < n implies ((#[trigger] dead@[h]) <==> exists|k2: int|
                            0 <= k2 < k + 1 && (#[trigger] edges@[k2]).0 == fi && edges@[k2].1
                                == h) by {
                        if h == t as int {
                            assert(edges@[k as int].0 == fi && edges@[k as int].1 == t);
                        }
                    }
                }
            } else {
                proof {
                    assert forall|h: int|
                        0 <= h < n implies ((#[trigger] dead@[h]) <==> exists|k2: int|
                            0 <= k2 < k + 1 && (#[trigger] edges@[k2]).0 == fi && edges@[k2].1
                                == h) by {}
                }
            }
            k += 1;
        }
        proof {
            assert((fi as int) < n);
        }
        dead[fi] = true;
        proof {
            assert(dead@ =~= dm);
        }
        // mark the collected handles as removed
        let mut h: usize = 0;
        while h < n
            invariant
                0 <= h <= n,
                n == m0.nodes.len(),
                dead@ == dm,
                dm == dead_marks(m0, fi),
                dm.len() == n,
                self@.nodes.len() == n,
                self@.edges == m0.edges,
                self@.files == m0.files.remove(i as int),
                self@.symbols == m0.symbols,
                self@.quals == m0.quals,
                forall|h2: int| 0 <= h2 < h ==> self@.nodes[h2] == mark_removed(m0, fi, h2),
                forall|h2: int| h <= h2 < n ==> self@.nodes[h2] == m0.nodes[h2],
            decreases n - h,
        {
            if dead[h] {
                let node = match store_get_node(&self.graph, h) {
                    Some(node) => node,
                    None => {
                        proof {
                            assert(false);
                        }
                        unreached()
                    },
                };
                let mut node = node;
                node.removed = true;
                store_set_node(&mut self.graph, h, node);
                proof {
                    assert(dm[h as int]);
                    assert(dead_marks(m0, fi)[h as int] == (h as int == fi as int
                        || is_target_of(m0, fi, h)));
                    assert(h as int == fi as int || is_target_of(m0, fi, h));
                    assert(self@.nodes[h as int] == mark_removed(m0, fi, h as int));
                }
            } else {
                proof {
                    assert(!dm[h as int]);
                    assert(dead_marks(m0, fi)[h as int] == (h as int == fi as int
                        || is_target_of(m0, fi, h)));
                    assert(!(h as int == fi as int || is_target_of(m0, fi, h)));
                    assert(self@.nodes[h as int] == mark_removed(m0, fi, h as int));
                }
            }
            h += 1;
        }
        proof {
            assert(self@.nodes =~= Seq::new(m0.nodes.len(), |h2: int| mark_removed(m0, fi, h2)));
        }
        let ghost marked = Seq::new(m0.nodes.len(), |h2: int| mark_removed(m0, fi, h2));
        // purge the symbol index of marked handles
        let mut newsyms: Vec<(String, Vec<usize>)> = Vec::new();
        let ghost mut srcs: Seq<int> = Seq::empty();
        let sn = self.symbol_index.len();
        let mut si: usize = 0;
        while si < sn
            invariant
                0 <= si <= sn,
                sn == self.symbol_index@.len(),
                syms_view(self.symbol_index@) == m0.symbols,
                syms_ok(m0),
                dead@ == dm,
                dm.len() == m0.nodes.len(),
                syms_view(newsyms@) == syms_alive(m0.symbols.take(si as int), dm),
                srcs.len() == newsyms@.len(),
                forall|i2: int| 0 <= i2 < srcs.len() ==> 0 <= #[trigger] srcs[i2] < si,
                forall|i2: int, j2: int|
                    0 <= i2 < j2 < srcs.len() ==> #[trigger] srcs[i2] < #[trigger] srcs[j2],
                forall|i2: int|
                    0 <= i2 < srcs.len() ==> {
                        let e = #[trigger] syms_view(newsyms@)[i2];
                        &&& e.0 == m0.symbols[srcs[i2]].0
                        &&& e.1 == list_alive(m0.symbols[srcs[i2]].1, dm)
                        &&& e.1.len() > 0
                    },
                forall|s2: int|
                    0 <= s2 < si && list_alive((#[trigger] m0.symbols[s2]).1, dm).len() > 0
                        ==> exists|i2: int| 0 <= i2 < srcs.len() && #[trigger] srcs[i2] == s2,
                self@.nodes == marked,
                self@.edges == m0.edges,
                self@.files == m0.files.remove(i as int),
                self@.quals == m0.quals,
            decreases sn - si,
        {
            proof {
                assert(m0.symbols[si as int] == (
                    self.symbol_index@[si as int].0@,
                    self.symbol_index@[si as int].1@,
                ));
                assert(sym_entry_ok(m0, m0.symbols[si as int]));
            }
            let lst_len = self.symbol_index[si].1.len();
            let mut fl: Vec<usize> = Vec::new();
            let mut j: usize = 0;
            while j < lst_len
                invariant
                    0 <= j <= lst_len,
                    (si as int) < self.symbol_index@.len(),
                    lst_len == self.symbol_index@[si as int].1@.len(),
                    syms_view(self.symbol_index@) == m0.symbols,
                    sym_entry_ok(m0, m0.symbols[si as int]),
                    dead@ == dm,
                    dm.len() == m0.nodes.len(),
                    fl@ == list_alive(m0.symbols[si as int].1.take(j as int), dm),
                decreases lst_len - j,
            {
                let hh = self.symbol_index[si].1[j];
                proof {
                    assert(m0.symbols[si as int] == (
                        self.symbol_index@[si as int].0@,
                        self.symbol_index@[si as int].1@,
                    ));
                    assert(m0.symbols[si as int].1[j as int] == hh);
                    assert(handle_named_live(m0, hh, m0.symbols[si as int].0));
                    assert(m0.symbols[si as int].1.take(j + 1).drop_last() =~= m0.symbols[
                        si as int
                    ].1.take(j as int));
                    assert(m0.symbols[si as int].1.take(j + 1).last() == hh);
                }
                if !dead[hh] {
                    fl.push(hh);
                }
                j += 1;
            }
            proof {
                assert(m0.symbols[si as int].1.take(lst_len as int) =~= m0.symbols[si as int].1);
            }
            let ghost srcs0 = srcs;
            if fl.len() > 0 {
                let key = self.symbol_index[si].0.clone();
                newsyms.push((key, fl));
                proof {
                    srcs = srcs.push(si as int);
                    assert(srcs[srcs.len() - 1] == si as int);
                }
            }
            proof {
                let t1 = m0.symbols.take(si + 1);
                assert(t1.drop_last() =~= m0.symbols.take(si as int));
                assert(t1.last() == m0.symbols[si as int]);
                assert(syms_view(newsyms@) =~= syms_alive(t1, dm));
                assert forall|s2: int|
                    0 <= s2 < si + 1 && list_alive((#[trigger] m0.symbols[s2]).1, dm).len()
                        > 0 implies exists|i2: int|
                    0 <= i2 < srcs.len() && #[trigger] srcs[i2] == s2 by {
                    if s2 < si {
                        let w = choose|i2: int| 0 <= i2 < srcs0.len() && #[trigger] srcs0[i2] == s2;
                        assert(srcs[w] == s2);
                    } else {
                        assert(srcs[srcs.len() - 1] == s2);
                    }
                }
            }
            si += 1;
        }
        proof {
            assert(m0.symbols.take(sn as int) =~= m0.symbols);
        }
        self.symbol_index = newsyms;
        // purge the qualified index of marked handles
        let mut newquals: Vec<(String, String, usize)> = Vec::new();
        let ghost mut qsrcs: Seq<int> = Seq::empty();
        let qn = self.qualified_index.len();
        let mut qi: usize = 0;
        while qi < qn
            invariant
                0 <= qi <= qn,
                qn == self.qualified_index@.len(),
                quals_view(self.qualified_index@) == m0.quals,
                quals_ok(m0),
                dead@ == dm,
                dm.len() == m0.nodes.len(),
                quals_view(newquals@) == quals_alive(m0.quals.take(qi as int), dm),
                qsrcs.len() == newquals@.len(),
                forall|i2: int| 0 <= i2 < qsrcs.len() ==> 0 <= #[trigger] qsrcs[i2] < qi,
                forall|i2: int, j2: int|
                    0 <= i2 < j2 < qsrcs.len() ==> #[trigger] qsrcs[i2] < #[trigger] qsrcs[j2],
                forall|i2: int|
                    0 <= i2 < qsrcs.len() ==> (#[trigger] quals_view(newquals@)[i2])
                        == m0.quals[qsrcs[i2]] && !is_dead(dm, m0.quals[qsrcs[i2]].2),
            decreases qn - qi,
        {
            proof {
                assert(m0.quals[qi as int] == (
                    self.qualified_index@[qi as int].0@,
                    self.qualified_index@[qi as int].1@,
                    self.qualified_index@[qi as int].2,
                ));
            }
            let hh = self.qualified_index[qi].2;
            proof {
                assert((m0.quals[qi as int].2 as int) < m0.nodes.len());
            }
            if !dead[hh] {
                let f = self.qualified_index[qi].0.clone();
                let s = self.qualified_index[qi].1.clone();
                newquals.push((f, s, hh));
                proof {
                    qsrcs = qsrcs.push(qi as int);
                }
            }
            proof {
                let t1 = m0.quals.take(qi + 1);
                assert(t1.drop_last() =~= m0.quals.take(qi as int));
                assert(t1.last() == m0.quals[qi as int]);
                assert(quals_view(newquals@) =~= quals_alive(t1, dm));
            }
            qi += 1;
        }
        proof {
            assert(m0.quals.take(qn as int) =~= m0.quals);
        }
        self.qualified_index = newquals;
        proof {
            lemma_wf_after_remove(m0, self@, fi, i as int, dm, srcs, qsrcs);
        }
    }

    /// Find the live node registered under (file path, name), if any.
    pub fn find_qualified(&self, file_path: &str, name: &str) -> (r: Option<NodeData>)
        requires
            well_formed(self@),
        ensures
            match r {
                Some(n) => {
                    &&& has_qual_key(self@, file_path@, name@)
                    &&& {
                        let h = self@.quals[qual_key_idx(self@, file_path@, name@)].2;
                        n@ == self@.nodes[h as int]
                    }
                    &&& !n@.removed
                },
                None => !has_qual_key(self@, file_path@, name@),
            },
    {
        match find_qual_entry(&self.qualified_index, file_path, name) {
            Some(i) => {
                let h = self.qualified_index[i].2;
                proof {
                    assert(self@.quals[i as int] == (
                        self.qualified_index@[i as int].0@,
                        self.qualified_index@[i as int].1@,
                        self.qualified_index@[i as int].2,
                    ));
                    lemma_qual_key_at(self@, i as int);
                }
                match store_get_node(&self.graph, h) {
                    Some(n) => Some(n),
                    None => {
                        proof {
                            assert(false);
                        }
                        None
                    },
                }
            },
            None => None,
        }
    }
}

impl Default for CodeGraph {
    /// The default code graph is empty.
    fn default() -> (g: CodeGraph)
        ensures
            g@.nodes.len() == 0,
            g@.edges.len() == 0,
            g@.files.len() == 0,
            g@.symbols.len() == 0,
            g@.quals.len() == 0,
            well_formed(g@),
    {
        CodeGraph::new()
    }
}

} // verus!
