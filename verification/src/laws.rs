//! Laws of the graph: properties that hold of every well-formed
//! graph, stated on their own so a reader can see them, not merely
//! derive them.

use vstd::prelude::*;

use crate::engine::{
    files_ok, handle_named_live, has_file_key, live_file_count, live_symbol_count, sym_entry_ok,
    well_formed, GraphModel,
};
use crate::ingest::{
    compact_edges, compact_files, compact_syms, empty_model, ingest_imports, ingest_symbols,
    model_add_edge, model_add_file, model_add_symbol, phase1, phase2, phase2_calls, phase3,
    phase3_syms, spec_compact, spec_ingest,
};
use crate::search::{spec_search, spec_symbols_in_file, ResultView};
use crate::types::{CallView, EdgeKind, ExtractionView, ImpView, NodeKind, NodeView, SymView};

verus! {

/// Every handle registered in the symbol index under a name points at
/// a live node bearing exactly that name.
pub proof fn lemma_symbol_index_sound(m: GraphModel, i: int, j: int)
    requires
        well_formed(m),
        0 <= i < m.symbols.len(),
        0 <= j < m.symbols[i].1.len(),
    ensures
        (m.symbols[i].1[j] as int) < m.nodes.len(),
        m.nodes[m.symbols[i].1[j] as int].name == m.symbols[i].0,
        !m.nodes[m.symbols[i].1[j] as int].removed,
{
    assert(sym_entry_ok(m, m.symbols[i]));
    assert(handle_named_live(m, m.symbols[i].1[j], m.symbols[i].0));
}

/// Every file-index entry points at a `File` node carrying exactly
/// the indexed path.
pub proof fn lemma_file_index_sound(m: GraphModel, i: int)
    requires
        well_formed(m),
        0 <= i < m.files.len(),
    ensures
        (m.files[i].1 as int) < m.nodes.len(),
        m.nodes[m.files[i].1 as int].kind == crate::types::NodeKind::File,
        m.nodes[m.files[i].1 as int].file_path == m.files[i].0,
{
}

/// An empty query finds nothing, whatever the graph holds.
pub proof fn lemma_empty_query_finds_nothing(m: GraphModel, limit: int)
    ensures
        spec_search(m, Seq::<char>::empty(), limit) == Seq::<ResultView>::empty(),
{
}

/// An unknown file path yields no symbols.
pub proof fn lemma_unknown_file_yields_nothing(m: GraphModel, p: Seq<char>)
    requires
        !has_file_key(m, p),
    ensures
        spec_symbols_in_file(m, p) == Seq::<NodeView>::empty(),
{
}

// ─── Every live symbol hangs off its file ───────────────────────

/// There is a `Defines` or `Imports` edge from node `fh` to node `h`.
pub open spec fn has_file_edge(m: GraphModel, fh: usize, h: int) -> bool {
    exists|k: int|
        0 <= k < m.edges.len() && ((#[trigger] m.edges[k]) == (fh, h as usize, EdgeKind::Defines)
            || m.edges[k] == (fh, h as usize, EdgeKind::Imports))
}

/// The symbol node at `h` hangs off its file: the file index holds
/// its path, and that entry's file node has a `Defines` or `Imports`
/// edge to `h`.
pub open spec fn linked_to_file(m: GraphModel, h: int) -> bool {
    exists|i: int|
        0 <= i < m.files.len() && (#[trigger] m.files[i]).0 == m.nodes[h].file_path
            && has_file_edge(m, m.files[i].1, h)
}

/// Every live non-file node hangs off its file.
pub open spec fn defines_linked(m: GraphModel) -> bool {
    forall|h: int|
        0 <= h < m.nodes.len() && !(#[trigger] m.nodes[h]).removed && m.nodes[h].kind
            != NodeKind::File ==> linked_to_file(m, h)
}

proof fn lemma_linked_add_edge(m: GraphModel, a: usize, b: usize, k: EdgeKind)
    requires
        defines_linked(m),
    ensures
        defines_linked(model_add_edge(m, a, b, k)),
{
    let m2 = model_add_edge(m, a, b, k);
    assert forall|h: int|
        0 <= h < m2.nodes.len() && !(#[trigger] m2.nodes[h]).removed && m2.nodes[h].kind
            != NodeKind::File implies linked_to_file(m2, h) by {
        assert(linked_to_file(m, h));
        let i = choose|i: int|
            0 <= i < m.files.len() && (#[trigger] m.files[i]).0 == m.nodes[h].file_path
                && has_file_edge(m, m.files[i].1, h);
        let wk = choose|wk: int|
            0 <= wk < m.edges.len() && ((#[trigger] m.edges[wk]) == (
                m.files[i].1,
                h as usize,
                EdgeKind::Defines,
            ) || m.edges[wk] == (m.files[i].1, h as usize, EdgeKind::Imports));
        assert(m2.edges[wk] == m.edges[wk]);
        assert(has_file_edge(m2, m2.files[i].1, h));
    }
}

proof fn lemma_linked_add_file(m: GraphModel, p: Seq<char>)
    requires
        defines_linked(m),
        files_ok(m),
        m.nodes.len() < usize::MAX,
    ensures
        defines_linked(model_add_file(m, p).0),
        files_ok(model_add_file(m, p).0),
        model_add_file(m, p).0.nodes.len() <= m.nodes.len() + 1,
        ({
            let (m2, fh) = model_add_file(m, p);
            exists|i: int| 0 <= i < m2.files.len() && (#[trigger] m2.files[i]) == (p, fh)
        }),
{
    let (m2, fh) = model_add_file(m, p);
    if has_file_key(m, p) {
        let ki = crate::engine::file_key_idx(m, p);
        assert(m.files[ki].0 == p);
        assert(m.nodes[m.files[ki].1 as int].kind == NodeKind::File);
        assert(m2.files[ki] == (p, fh));
        assert forall|h: int|
            0 <= h < m2.nodes.len() && !(#[trigger] m2.nodes[h]).removed && m2.nodes[h].kind
                != NodeKind::File implies linked_to_file(m2, h) by {
            assert(h != m.files[ki].1 as int);
            assert(m2.nodes[h] == m.nodes[h]);
            assert(linked_to_file(m, h));
            let i = choose|i: int|
                0 <= i < m.files.len() && (#[trigger] m.files[i]).0 == m.nodes[h].file_path
                    && has_file_edge(m, m.files[i].1, h);
            let wk = choose|wk: int|
                0 <= wk < m.edges.len() && ((#[trigger] m.edges[wk]) == (
                    m.files[i].1,
                    h as usize,
                    EdgeKind::Defines,
                ) || m.edges[wk] == (m.files[i].1, h as usize, EdgeKind::Imports));
            assert(m2.edges == m.edges);
            assert(m2.edges[wk] == m.edges[wk]);
            assert(m2.files[i] == m.files[i]);
            assert(has_file_edge(m2, m2.files[i].1, h));
        }
        assert forall|i: int|
            0 <= i < m2.files.len() implies {
                let (pp, hh) = #[trigger] m2.files[i];
                &&& (hh as int) < m2.nodes.len()
                &&& m2.nodes[hh as int].kind == NodeKind::File
                &&& m2.nodes[hh as int].file_path == pp
            } by {
            assert(m2.files[i] == m.files[i]);
        }
    } else {
        assert(m2.files[m.files.len() as int] == (p, fh));
        assert forall|h: int|
            0 <= h < m2.nodes.len() && !(#[trigger] m2.nodes[h]).removed && m2.nodes[h].kind
                != NodeKind::File implies linked_to_file(m2, h) by {
            assert(h < m.nodes.len());
            assert(m2.nodes[h] == m.nodes[h]);
            assert(linked_to_file(m, h));
            let i = choose|i: int|
                0 <= i < m.files.len() && (#[trigger] m.files[i]).0 == m.nodes[h].file_path
                    && has_file_edge(m, m.files[i].1, h);
            let wk = choose|wk: int|
                0 <= wk < m.edges.len() && ((#[trigger] m.edges[wk]) == (
                    m.files[i].1,
                    h as usize,
                    EdgeKind::Defines,
                ) || m.edges[wk] == (m.files[i].1, h as usize, EdgeKind::Imports));
            assert(m2.edges == m.edges);
            assert(m2.edges[wk] == m.edges[wk]);
            assert(m2.files[i] == m.files[i]);
            assert(has_file_edge(m2, m2.files[i].1, h));
        }
        assert forall|i: int|
            0 <= i < m2.files.len() implies {
                let (pp, hh) = #[trigger] m2.files[i];
                &&& (hh as int) < m2.nodes.len()
                &&& m2.nodes[hh as int].kind == NodeKind::File
                &&& m2.nodes[hh as int].file_path == pp
            } by {
            if i < m.files.len() {
                assert(m2.files[i] == m.files[i]);
            } else {
                assert(m2.files[i] == (p, fh));
                assert(fh as int == m.nodes.len());
                assert(m2.nodes[fh as int] == crate::engine::file_node_view(p));
            }
        }
    }
}

proof fn lemma_linked_symbol_step(
    m: GraphModel,
    fh: usize,
    file: Seq<char>,
    name: Seq<char>,
    kind: NodeKind,
    ls: int,
    le: int,
    code: Seq<char>,
    ek: EdgeKind,
)
    requires
        defines_linked(m),
        files_ok(m),
        m.nodes.len() < usize::MAX,
        exists|i: int| 0 <= i < m.files.len() && (#[trigger] m.files[i]) == (file, fh),
    ensures
        ({
            let step = model_add_symbol(m, name, kind, file, ls, le, code);
            let m2 = model_add_edge(step.0, fh, step.1, ek);
            &&& defines_linked(m2) || !(ek == EdgeKind::Defines || ek == EdgeKind::Imports)
            &&& files_ok(m2)
            &&& m2.nodes.len() == m.nodes.len() + 1
            &&& exists|i: int| 0 <= i < m2.files.len() && (#[trigger] m2.files[i]) == (file, fh)
        }),
{
    let step = model_add_symbol(m, name, kind, file, ls, le, code);
    let h = step.1;
    assert(h as int == m.nodes.len());
    let m2 = model_add_edge(step.0, fh, h, ek);
    let wi = choose|i: int| 0 <= i < m.files.len() && (#[trigger] m.files[i]) == (file, fh);
    assert(m2.files == m.files);
    assert(m2.files[wi] == (file, fh));
    assert forall|i: int|
        0 <= i < m2.files.len() implies {
            let (pp, hh) = #[trigger] m2.files[i];
            &&& (hh as int) < m2.nodes.len()
            &&& m2.nodes[hh as int].kind == NodeKind::File
            &&& m2.nodes[hh as int].file_path == pp
        } by {
        assert(m2.files[i] == m.files[i]);
        assert(m2.nodes[m.files[i].1 as int] == m.nodes[m.files[i].1 as int]);
    }
    if ek == EdgeKind::Defines || ek == EdgeKind::Imports {
        assert forall|h2: int|
            0 <= h2 < m2.nodes.len() && !(#[trigger] m2.nodes[h2]).removed && m2.nodes[h2].kind
                != NodeKind::File implies linked_to_file(m2, h2) by {
            if h2 < m.nodes.len() {
                assert(m2.nodes[h2] == m.nodes[h2]);
                assert(linked_to_file(m, h2));
                let i = choose|i: int|
                    0 <= i < m.files.len() && (#[trigger] m.files[i]).0 == m.nodes[h2].file_path
                        && has_file_edge(m, m.files[i].1, h2);
                let wk = choose|wk: int|
                    0 <= wk < m.edges.len() && ((#[trigger] m.edges[wk]) == (
                        m.files[i].1,
                        h2 as usize,
                        EdgeKind::Defines,
                    ) || m.edges[wk] == (m.files[i].1, h2 as usize, EdgeKind::Imports));
                assert(m2.edges[wk] == m.edges[wk]);
                assert(has_file_edge(m2, m2.files[i].1, h2));
            } else {
                // the new node
                assert(m2.nodes[h2].file_path == file);
                assert(m2.edges[m.edges.len() as int] == (fh, h, ek));
                assert(has_file_edge(m2, fh, h2));
                assert(m2.files[wi].0 == file && m2.files[wi].1 == fh);
            }
        }
    }
}

proof fn lemma_linked_ingest_symbols(m: GraphModel, fh: usize, file: Seq<char>, syms: Seq<SymView>)
    requires
        defines_linked(m),
        files_ok(m),
        m.nodes.len() + syms.len() <= usize::MAX,
        exists|i: int| 0 <= i < m.files.len() && (#[trigger] m.files[i]) == (file, fh),
    ensures
        defines_linked(ingest_symbols(m, fh, file, syms)),
        files_ok(ingest_symbols(m, fh, file, syms)),
        ingest_symbols(m, fh, file, syms).nodes.len() == m.nodes.len() + syms.len(),
        exists|i: int|
            0 <= i < ingest_symbols(m, fh, file, syms).files.len() && (#[trigger] ingest_symbols(
                m,
                fh,
                file,
                syms,
            ).files[i]) == (file, fh),
    decreases syms.len(),
{
    if syms.len() > 0 {
        lemma_linked_ingest_symbols(m, fh, file, syms.drop_last());
        let prev = ingest_symbols(m, fh, file, syms.drop_last());
        let s = syms.last();
        lemma_linked_symbol_step(
            prev,
            fh,
            file,
            s.name,
            s.kind,
            s.line_start,
            s.line_end,
            s.code_snippet,
            EdgeKind::Defines,
        );
    }
}

proof fn lemma_linked_ingest_imports(m: GraphModel, fh: usize, file: Seq<char>, imps: Seq<ImpView>)
    requires
        defines_linked(m),
        files_ok(m),
        m.nodes.len() + imps.len() <= usize::MAX,
        exists|i: int| 0 <= i < m.files.len() && (#[trigger] m.files[i]) == (file, fh),
    ensures
        defines_linked(ingest_imports(m, fh, file, imps)),
        files_ok(ingest_imports(m, fh, file, imps)),
        ingest_imports(m, fh, file, imps).nodes.len() == m.nodes.len() + imps.len(),
        exists|i: int|
            0 <= i < ingest_imports(m, fh, file, imps).files.len() && (#[trigger] ingest_imports(
                m,
                fh,
                file,
                imps,
            ).files[i]) == (file, fh),
    decreases imps.len(),
{
    if imps.len() > 0 {
        lemma_linked_ingest_imports(m, fh, file, imps.drop_last());
        let prev = ingest_imports(m, fh, file, imps.drop_last());
        let iv = imps.last();
        lemma_linked_symbol_step(
            prev,
            fh,
            file,
            iv.path,
            NodeKind::Import,
            iv.line,
            iv.line,
            Seq::<char>::empty(),
            EdgeKind::Imports,
        );
    }
}

/// Upper bound on the nodes one file's ingest creates.
pub open spec fn ex_nodes(ex: ExtractionView) -> nat {
    1 + ex.symbols.len() + ex.imports.len()
}

/// Upper bound on the nodes a whole ingest creates.
pub open spec fn exs_nodes(exs: Seq<ExtractionView>) -> nat
    decreases exs.len(),
{
    if exs.len() == 0 {
        0
    } else {
        exs_nodes(exs.drop_last()) + ex_nodes(exs.last())
    }
}

proof fn lemma_linked_phase1(m: GraphModel, exs: Seq<ExtractionView>)
    requires
        defines_linked(m),
        files_ok(m),
        m.nodes.len() + exs_nodes(exs) <= usize::MAX,
    ensures
        defines_linked(phase1(m, exs)),
        files_ok(phase1(m, exs)),
        phase1(m, exs).nodes.len() <= m.nodes.len() + exs_nodes(exs),
    decreases exs.len(),
{
    if exs.len() > 0 {
        lemma_linked_phase1(m, exs.drop_last());
        let prev = phase1(m, exs.drop_last());
        let ex = exs.last();
        lemma_linked_add_file(prev, ex.file_path);
        let (mf, fh) = model_add_file(prev, ex.file_path);
        lemma_linked_ingest_symbols(mf, fh, ex.file_path, ex.symbols);
        let ms = ingest_symbols(mf, fh, ex.file_path, ex.symbols);
        lemma_linked_ingest_imports(ms, fh, ex.file_path, ex.imports);
    }
}

proof fn lemma_linked_phase2_calls(m: GraphModel, file: Seq<char>, calls: Seq<CallView>)
    requires
        defines_linked(m),
        files_ok(m),
    ensures
        defines_linked(phase2_calls(m, file, calls)),
        files_ok(phase2_calls(m, file, calls)),
    decreases calls.len(),
{
    if calls.len() > 0 {
        lemma_linked_phase2_calls(m, file, calls.drop_last());
        let prev = phase2_calls(m, file, calls.drop_last());
        let c = calls.last();
        if crate::engine::has_qual_key(prev, file, c.caller) && crate::engine::has_sym_key(
            prev,
            c.callee,
        ) && prev.symbols[crate::engine::sym_key_idx(prev, c.callee)].1.len() > 0 {
            let a = prev.quals[crate::engine::qual_key_idx(prev, file, c.caller)].2;
            let b = prev.symbols[crate::engine::sym_key_idx(prev, c.callee)].1[0];
            lemma_linked_add_edge(prev, a, b, EdgeKind::Calls);
            lemma_files_ok_add_edge(prev, a, b, EdgeKind::Calls);
        }
    }
}

proof fn lemma_files_ok_add_edge(m: GraphModel, a: usize, b: usize, k: EdgeKind)
    requires
        files_ok(m),
    ensures
        files_ok(model_add_edge(m, a, b, k)),
{
    let m2 = model_add_edge(m, a, b, k);
    assert forall|i: int|
        0 <= i < m2.files.len() implies {
            let (pp, hh) = #[trigger] m2.files[i];
            &&& (hh as int) < m2.nodes.len()
            &&& m2.nodes[hh as int].kind == NodeKind::File
            &&& m2.nodes[hh as int].file_path == pp
        } by {
        assert(m2.files[i] == m.files[i]);
    }
}

proof fn lemma_linked_phase2(m: GraphModel, exs: Seq<ExtractionView>)
    requires
        defines_linked(m),
        files_ok(m),
    ensures
        defines_linked(phase2(m, exs)),
        files_ok(phase2(m, exs)),
    decreases exs.len(),
{
    if exs.len() > 0 {
        lemma_linked_phase2(m, exs.drop_last());
        lemma_linked_phase2_calls(phase2(m, exs.drop_last()), exs.last().file_path, exs.last().calls);
    }
}

proof fn lemma_linked_phase3_syms(m: GraphModel, file: Seq<char>, syms: Seq<SymView>)
    requires
        defines_linked(m),
        files_ok(m),
    ensures
        defines_linked(phase3_syms(m, file, syms)),
        files_ok(phase3_syms(m, file, syms)),
    decreases syms.len(),
{
    if syms.len() > 0 {
        lemma_linked_phase3_syms(m, file, syms.drop_last());
        let prev = phase3_syms(m, file, syms.drop_last());
        let s = syms.last();
        match s.parent {
            Some(pn) => {
                if crate::engine::has_qual_key(prev, file, pn) && crate::engine::has_qual_key(
                    prev,
                    file,
                    s.name,
                ) {
                    let a = prev.quals[crate::engine::qual_key_idx(prev, file, pn)].2;
                    let b = prev.quals[crate::engine::qual_key_idx(prev, file, s.name)].2;
                    lemma_linked_add_edge(prev, a, b, EdgeKind::Contains);
                    lemma_files_ok_add_edge(prev, a, b, EdgeKind::Contains);
                }
            },
            None => {},
        }
    }
}

proof fn lemma_linked_phase3(m: GraphModel, exs: Seq<ExtractionView>)
    requires
        defines_linked(m),
        files_ok(m),
    ensures
        defines_linked(phase3(m, exs)),
        files_ok(phase3(m, exs)),
    decreases exs.len(),
{
    if exs.len() > 0 {
        lemma_linked_phase3(m, exs.drop_last());
        lemma_linked_phase3_syms(
            phase3(m, exs.drop_last()),
            exs.last().file_path,
            exs.last().symbols,
        );
    }
}

/// Ingest keeps every live symbol hanging off its file: if the graph
/// satisfied the law before `build_from_extractions`, it satisfies it
/// after — in particular a graph built from scratch does, since the
/// empty graph satisfies it vacuously.
pub proof fn lemma_ingest_keeps_defines_linked(m: GraphModel, exs: Seq<ExtractionView>)
    requires
        defines_linked(m),
        files_ok(m),
        m.nodes.len() + exs_nodes(exs) <= usize::MAX,
    ensures
        defines_linked(spec_ingest(m, exs)),
        files_ok(spec_ingest(m, exs)),
{
    lemma_linked_phase1(m, exs);
    lemma_linked_phase2(phase1(m, exs), exs);
    lemma_linked_phase3(phase2(phase1(m, exs), exs), exs);
}

/// Removing a file keeps every remaining live symbol hanging off its
/// file: the removal marks exactly the file node and its outgoing
/// neighbours, so a symbol that survives was linked through some
/// other file, whose index entry and edge both survive.
pub proof fn lemma_remove_keeps_defines_linked(m: GraphModel, m2: GraphModel, ki: int)
    requires
        defines_linked(m),
        m.nodes.len() <= usize::MAX,
        0 <= ki < m.files.len(),
        m2.nodes == Seq::new(
            m.nodes.len(),
            |h: int| crate::engine::mark_removed(m, m.files[ki].1, h),
        ),
        m2.edges == m.edges,
        m2.files == m.files.remove(ki),
    ensures
        defines_linked(m2),
{
    let fi = m.files[ki].1;
    m.files.remove_ensures(ki);
    assert forall|h: int|
        0 <= h < m2.nodes.len() && !(#[trigger] m2.nodes[h]).removed && m2.nodes[h].kind
            != NodeKind::File implies linked_to_file(m2, h) by {
        assert(m2.nodes[h] == crate::engine::mark_removed(m, fi, h));
        assert(!m.nodes[h].removed);
        assert(!(h == fi as int || crate::engine::is_target_of(m, fi, h as usize)));
        assert(linked_to_file(m, h));
        let i = choose|i: int|
            0 <= i < m.files.len() && (#[trigger] m.files[i]).0 == m.nodes[h].file_path
                && has_file_edge(m, m.files[i].1, h);
        let wk = choose|wk: int|
            0 <= wk < m.edges.len() && ((#[trigger] m.edges[wk]) == (
                m.files[i].1,
                h as usize,
                EdgeKind::Defines,
            ) || m.edges[wk] == (m.files[i].1, h as usize, EdgeKind::Imports));
        // the witness file cannot be the removed one: its edge would
        // have marked this node
        assert(m.files[i].1 != fi) by {
            if m.files[i].1 == fi {
                assert(m.edges[wk].0 == fi && m.edges[wk].1 == h as usize);
                assert(crate::engine::is_target_of(m, fi, h as usize));
            }
        }
        assert(i != ki);
        let i2 = if i < ki {
            i
        } else {
            i - 1
        };
        assert(m2.files[i2] == m.files[i]);
        assert(m2.edges[wk] == m.edges[wk]);
        assert(m2.nodes[h].file_path == m.nodes[h].file_path);
        assert(has_file_edge(m2, m2.files[i2].1, h));
    }
}

// ─── Compaction preserves statistics ────────────────────────────

/// No two live `File` nodes carry the same path. This holds of every
/// graph built through `add_file`, which reuses the indexed node of a
/// path; only `add_symbol` called with the `File` kind could break it.
pub open spec fn distinct_live_file_paths(m: GraphModel) -> bool {
    forall|h1: int, h2: int|
        0 <= h1 < h2 < m.nodes.len() && !(#[trigger] m.nodes[h1]).removed && !(
        #[trigger] m.nodes[h2]).removed && m.nodes[h1].kind == NodeKind::File && m.nodes[h2].kind
            == NodeKind::File ==> m.nodes[h1].file_path != m.nodes[h2].file_path
}

proof fn lemma_compact_files_shape(m: GraphModel, h: int)
    requires
        0 <= h <= m.nodes.len(),
        distinct_live_file_paths(m),
    ensures
        ({
            let a = compact_files(m, empty_model(), h);
            &&& a.edges.len() == 0
            &&& a.symbols.len() == 0
            &&& a.quals.len() == 0
            &&& a.nodes.len() == live_file_count(m.nodes.take(h))
            &&& forall|i: int|
                0 <= i < a.nodes.len() ==> (#[trigger] a.nodes[i]).kind == NodeKind::File && !(
                a.nodes[i]).removed
            &&& forall|i: int|
                0 <= i < a.files.len() ==> exists|h2: int|
                    0 <= h2 < h && !m.nodes[h2].removed && m.nodes[h2].kind == NodeKind::File && (
                    #[trigger] a.files[i]).0 == m.nodes[h2].file_path
        }),
    decreases h,
{
    if h <= 0 {
        assert(m.nodes.take(0) =~= Seq::<NodeView>::empty());
    } else {
        lemma_compact_files_shape(m, h - 1);
        let prev = compact_files(m, empty_model(), h - 1);
        let a = compact_files(m, empty_model(), h);
        let nd = m.nodes[h - 1];
        assert(m.nodes.take(h).drop_last() =~= m.nodes.take(h - 1));
        assert(m.nodes.take(h).last() == nd);
        if !nd.removed && nd.kind == NodeKind::File {
            assert(!has_file_key(prev, nd.file_path)) by {
                if has_file_key(prev, nd.file_path) {
                    let i = choose|i: int|
                        0 <= i < prev.files.len() && (#[trigger] prev.files[i]).0 == nd.file_path;
                    let h2 = choose|h2: int|
                        0 <= h2 < h - 1 && !m.nodes[h2].removed && m.nodes[h2].kind
                            == NodeKind::File && prev.files[i].0 == m.nodes[h2].file_path;
                    assert(m.nodes[h2].file_path != m.nodes[h - 1].file_path);
                }
            }
            assert(a == model_add_file(prev, nd.file_path).0);
            assert forall|i: int|
                0 <= i < a.files.len() implies exists|h2: int|
                0 <= h2 < h && !m.nodes[h2].removed && m.nodes[h2].kind == NodeKind::File && (
                #[trigger] a.files[i]).0 == m.nodes[h2].file_path by {
                if i < prev.files.len() {
                    assert(a.files[i] == prev.files[i]);
                    let h2 = choose|h2: int|
                        0 <= h2 < h - 1 && !m.nodes[h2].removed && m.nodes[h2].kind
                            == NodeKind::File && prev.files[i].0 == m.nodes[h2].file_path;
                    assert(0 <= h2 < h && !m.nodes[h2].removed && m.nodes[h2].kind
                        == NodeKind::File && a.files[i].0 == m.nodes[h2].file_path);
                } else {
                    assert(a.files[i].0 == nd.file_path);
                    assert(0 <= h - 1 < h && !m.nodes[h - 1].removed && m.nodes[h - 1].kind
                        == NodeKind::File && a.files[i].0 == m.nodes[h - 1].file_path);
                }
            }
        } else {
            assert(a == prev);
        }
    }
}

proof fn lemma_compact_syms_shape(m: GraphModel, a: GraphModel, h: int)
    requires
        0 <= h <= m.nodes.len(),
    ensures
        ({
            let b = compact_syms(m, a, h);
            &&& b.0.nodes.len() == a.nodes.len() + live_symbol_count(m.nodes.take(h))
            &&& forall|i: int| 0 <= i < a.nodes.len() ==> #[trigger] b.0.nodes[i] == a.nodes[i]
            &&& forall|i: int|
                a.nodes.len() <= i < b.0.nodes.len() ==> (#[trigger] b.0.nodes[i]).kind
                    != NodeKind::File && !(b.0.nodes[i]).removed
        }),
    decreases h,
{
    if h <= 0 {
        assert(m.nodes.take(0) =~= Seq::<NodeView>::empty());
    } else {
        lemma_compact_syms_shape(m, a, h - 1);
        let nd = m.nodes[h - 1];
        assert(m.nodes.take(h).drop_last() =~= m.nodes.take(h - 1));
        assert(m.nodes.take(h).last() == nd);
    }
}

proof fn lemma_compact_edges_nodes(
    acc: GraphModel,
    map: Seq<Option<usize>>,
    es: Seq<(usize, usize, crate::types::EdgeKind)>,
)
    ensures
        compact_edges(acc, map, es).nodes == acc.nodes,
    decreases es.len(),
{
    if es.len() > 0 {
        lemma_compact_edges_nodes(acc, map, es.drop_last());
    }
}

proof fn lemma_count_split(nodes: Seq<NodeView>, k: int)
    requires
        0 <= k <= nodes.len(),
        forall|i: int|
            0 <= i < k ==> (#[trigger] nodes[i]).kind == NodeKind::File && !(nodes[i]).removed,
        forall|i: int|
            k <= i < nodes.len() ==> (#[trigger] nodes[i]).kind != NodeKind::File && !(
            nodes[i]).removed,
    ensures
        live_file_count(nodes) == k,
        live_symbol_count(nodes) == nodes.len() - k,
    decreases nodes.len(),
{
    if nodes.len() > 0 {
        if nodes.len() > k {
            lemma_count_split(nodes.drop_last(), k);
        } else {
            lemma_count_split(nodes.drop_last(), k - 1);
        }
    }
}

/// The key column of a symbol index.
pub open spec fn index_keys(s: Seq<(Seq<char>, Seq<usize>)>) -> Seq<Seq<char>> {
    Seq::new(s.len(), |i: int| s[i].0)
}

/// No two elements are equal.
pub open spec fn seq_distinct<A>(s: Seq<A>) -> bool {
    forall|i: int, j: int| 0 <= i < j < s.len() ==> s[i] != s[j]
}

/// Two duplicate-free sequences with the same members have the same
/// length.
proof fn lemma_distinct_same_members_equal_len<A>(s1: Seq<A>, s2: Seq<A>)
    requires
        seq_distinct(s1),
        seq_distinct(s2),
        forall|x: A| s1.contains(x) <==> s2.contains(x),
    ensures
        s1.len() == s2.len(),
    decreases s1.len(),
{
    if s1.len() == 0 {
        if s2.len() > 0 {
            assert(s2.contains(s2[0]));
            assert(s1.contains(s2[0]));
        }
    } else {
        let x = s1.last();
        assert(s1[s1.len() - 1] == x);
        assert(s1.contains(x));
        assert(s2.contains(x));
        let j = choose|j: int| 0 <= j < s2.len() && s2[j] == x;
        let s1r = s1.drop_last();
        let s2r = s2.remove(j);
        s2.remove_ensures(j);
        assert forall|i2: int, j2: int| 0 <= i2 < j2 < s2r.len() implies s2r[i2] != s2r[j2] by {
            let oi = if i2 < j {
                i2
            } else {
                i2 + 1
            };
            let oj = if j2 < j {
                j2
            } else {
                j2 + 1
            };
            assert(s2r[i2] == s2[oi]);
            assert(s2r[j2] == s2[oj]);
        }
        assert forall|y: A| s1r.contains(y) implies s2r.contains(y) by {
            let i1 = choose|i1: int| 0 <= i1 < s1r.len() && s1r[i1] == y;
            assert(s1[i1] == y);
            assert(y != x);
            assert(s1.contains(y));
            assert(s2.contains(y));
            let k = choose|k: int| 0 <= k < s2.len() && s2[k] == y;
            assert(k != j);
            let k2 = if k < j {
                k
            } else {
                k - 1
            };
            assert(s2r[k2] == y);
            assert(s2r.contains(y));
        }
        assert forall|y: A| s2r.contains(y) implies s1r.contains(y) by {
            let i2 = choose|i2: int| 0 <= i2 < s2r.len() && s2r[i2] == y;
            let oi = if i2 < j {
                i2
            } else {
                i2 + 1
            };
            assert(s2[oi] == y);
            assert(y != x) by {
                if y == x {
                    assert(s2[oi] == s2[j]);
                }
            }
            assert(s2.contains(y));
            assert(s1.contains(y));
            let i1 = choose|i1: int| 0 <= i1 < s1.len() && s1[i1] == y;
            assert(i1 != s1.len() - 1);
            assert(s1r[i1] == y);
            assert(s1r.contains(y));
        }
        assert forall|y: A| s1r.contains(y) <==> s2r.contains(y) by {}
        lemma_distinct_same_members_equal_len(s1r, s2r);
    }
}

/// Some live non-file node below `bound` carries the name.
pub open spec fn live_symbol_named_below(m: GraphModel, nm: Seq<char>, bound: int) -> bool {
    exists|h: int|
        0 <= h < bound && !(#[trigger] m.nodes[h]).removed && m.nodes[h].kind != NodeKind::File
            && m.nodes[h].name == nm
}

proof fn lemma_compact_edges_symbols(
    acc: GraphModel,
    map: Seq<Option<usize>>,
    es: Seq<(usize, usize, EdgeKind)>,
)
    ensures
        compact_edges(acc, map, es).symbols == acc.symbols,
    decreases es.len(),
{
    if es.len() > 0 {
        lemma_compact_edges_symbols(acc, map, es.drop_last());
    }
}

proof fn lemma_compact_syms_keys(m: GraphModel, a: GraphModel, h: int)
    requires
        0 <= h <= m.nodes.len(),
        a.symbols.len() == 0,
    ensures
        ({
            let b = compact_syms(m, a, h);
            &&& seq_distinct(index_keys(b.0.symbols))
            &&& forall|nm: Seq<char>| #![trigger live_symbol_named_below(m, nm, h)]
                index_keys(b.0.symbols).contains(nm) <==> live_symbol_named_below(m, nm, h)
        }),
    decreases h,
{
    if h <= 0 {
        let b = compact_syms(m, a, h);
        assert forall|nm: Seq<char>| !(index_keys(b.0.symbols).contains(nm)) by {
            assert(index_keys(b.0.symbols).len() == 0);
        }
    } else {
        lemma_compact_syms_keys(m, a, h - 1);
        let prev = compact_syms(m, a, h - 1);
        let b = compact_syms(m, a, h);
        let nd = m.nodes[h - 1];
        if !nd.removed && nd.kind != NodeKind::File {
            let step = model_add_symbol(
                prev.0,
                nd.name,
                nd.kind,
                nd.file_path,
                nd.line_start,
                nd.line_end,
                nd.code_snippet,
            );
            assert(b.0 == step.0);
            if crate::engine::has_sym_key(prev.0, nd.name) {
                let ki = crate::engine::sym_key_idx(prev.0, nd.name);
                assert(prev.0.symbols[ki].0 == nd.name);
                assert(index_keys(prev.0.symbols)[ki] == nd.name);
                assert(index_keys(prev.0.symbols).contains(nd.name));
                assert(index_keys(b.0.symbols) =~= index_keys(prev.0.symbols));
                assert forall|nm: Seq<char>| #![trigger live_symbol_named_below(m, nm, h)]
                    index_keys(b.0.symbols).contains(nm) <==> live_symbol_named_below(
                    m,
                    nm,
                    h,
                ) by {
                    if live_symbol_named_below(m, nm, h) && !live_symbol_named_below(
                        m,
                        nm,
                        h - 1,
                    ) {
                        assert(nm == nd.name);
                    }
                    if live_symbol_named_below(m, nm, h - 1) {
                        assert(live_symbol_named_below(m, nm, h));
                    }
                    if nm == nd.name {
                        assert(live_symbol_named_below(m, nm, h));
                    }
                }
            } else {
                assert(!index_keys(prev.0.symbols).contains(nd.name)) by {
                    if index_keys(prev.0.symbols).contains(nd.name) {
                        let wi = choose|wi: int|
                            0 <= wi < index_keys(prev.0.symbols).len() && index_keys(
                                prev.0.symbols,
                            )[wi] == nd.name;
                        assert(prev.0.symbols[wi].0 == nd.name);
                        assert(crate::engine::has_sym_key(prev.0, nd.name));
                    }
                }
                assert(index_keys(b.0.symbols) =~= index_keys(prev.0.symbols).push(nd.name));
                assert forall|i2: int, j2: int|
                    0 <= i2 < j2 < index_keys(b.0.symbols).len() implies index_keys(
                    b.0.symbols,
                )[i2] != index_keys(b.0.symbols)[j2] by {
                    if j2 < index_keys(prev.0.symbols).len() {
                        assert(index_keys(prev.0.symbols)[i2] != index_keys(prev.0.symbols)[j2]);
                    } else {
                        assert(index_keys(b.0.symbols)[j2] == nd.name);
                        if index_keys(b.0.symbols)[i2] == nd.name {
                            assert(index_keys(prev.0.symbols).contains(nd.name));
                        }
                    }
                }
                assert forall|nm: Seq<char>| #![trigger live_symbol_named_below(m, nm, h)]
                    index_keys(b.0.symbols).contains(nm) <==> live_symbol_named_below(
                    m,
                    nm,
                    h,
                ) by {
                    if index_keys(b.0.symbols).contains(nm) {
                        let wi = choose|wi: int|
                            0 <= wi < index_keys(b.0.symbols).len() && index_keys(b.0.symbols)[wi]
                                == nm;
                        if wi < index_keys(prev.0.symbols).len() {
                            assert(index_keys(prev.0.symbols)[wi] == nm);
                            assert(index_keys(prev.0.symbols).contains(nm));
                            assert(live_symbol_named_below(m, nm, h - 1));
                            assert(live_symbol_named_below(m, nm, h));
                        } else {
                            assert(nm == nd.name);
                            assert(live_symbol_named_below(m, nm, h));
                        }
                    }
                    if live_symbol_named_below(m, nm, h) {
                        if live_symbol_named_below(m, nm, h - 1) {
                            assert(index_keys(prev.0.symbols).contains(nm));
                            let wi = choose|wi: int|
                                0 <= wi < index_keys(prev.0.symbols).len() && index_keys(
                                    prev.0.symbols,
                                )[wi] == nm;
                            assert(index_keys(b.0.symbols)[wi] == nm);
                            assert(index_keys(b.0.symbols).contains(nm));
                        } else {
                            assert(nm == nd.name);
                            assert(index_keys(b.0.symbols)[index_keys(prev.0.symbols).len() as int]
                                == nd.name);
                            assert(index_keys(b.0.symbols).contains(nm));
                        }
                    }
                }
            }
        } else {
            assert(b.0.symbols == prev.0.symbols);
            assert forall|nm: Seq<char>| #![trigger live_symbol_named_below(m, nm, h)]
                index_keys(b.0.symbols).contains(nm) <==> live_symbol_named_below(m, nm, h) by {
                if live_symbol_named_below(m, nm, h) && !live_symbol_named_below(m, nm, h - 1) {
                    let wh = choose|wh: int|
                        0 <= wh < h && !(#[trigger] m.nodes[wh]).removed && m.nodes[wh].kind
                            != NodeKind::File && m.nodes[wh].name == nm;
                    assert(wh == h - 1);
                    assert(false);
                }
                if live_symbol_named_below(m, nm, h - 1) {
                    assert(live_symbol_named_below(m, nm, h));
                }
            }
        }
    }
}

/// No `File`-kind node is registered in the symbol index. This holds
/// of every graph whose symbols were added with their true kinds;
/// only `add_symbol` called with the `File` kind could break it.
pub open spec fn no_file_kind_indexed(m: GraphModel) -> bool {
    forall|i: int, j: int|
        0 <= i < m.symbols.len() && 0 <= j < (#[trigger] m.symbols[i]).1.len() ==> m.nodes[
            #[trigger] m.symbols[i].1[j] as int
        ].kind != NodeKind::File
}

/// Compaction also preserves the number of distinct symbol names:
/// the rebuilt symbol index has exactly as many keys as the original
/// index, as long as the index holds no `File`-kind nodes and live
/// file paths are distinct.
pub proof fn lemma_compact_preserves_unique_names(m: GraphModel)
    requires
        well_formed(m),
        distinct_live_file_paths(m),
        no_file_kind_indexed(m),
    ensures
        spec_compact(m).symbols.len() == m.symbols.len(),
{
    let n = m.nodes.len() as int;
    lemma_compact_files_shape(m, n);
    let a = compact_files(m, empty_model(), n);
    lemma_compact_syms_keys(m, a, n);
    let b = compact_syms(m, a, n);
    lemma_compact_edges_symbols(b.0, b.1, m.edges);
    let k1 = index_keys(m.symbols);
    let k2 = index_keys(b.0.symbols);
    assert forall|i2: int, j2: int| 0 <= i2 < j2 < k1.len() implies k1[i2] != k1[j2] by {
        assert(k1[i2] == m.symbols[i2].0);
        assert(k1[j2] == m.symbols[j2].0);
    }
    assert forall|nm: Seq<char>| k1.contains(nm) implies k2.contains(nm) by {
        let wi = choose|wi: int| 0 <= wi < k1.len() && k1[wi] == nm;
        assert(m.symbols[wi].0 == nm);
        assert(sym_entry_ok(m, m.symbols[wi]));
        let h2 = m.symbols[wi].1[0];
        assert(handle_named_live(m, h2, nm));
        assert(m.nodes[h2 as int].kind != NodeKind::File);
        assert(live_symbol_named_below(m, nm, n));
    }
    assert forall|nm: Seq<char>| k2.contains(nm) implies k1.contains(nm) by {
        assert(live_symbol_named_below(m, nm, n));
        let h2 = choose|h2: int|
            0 <= h2 < n && !(#[trigger] m.nodes[h2]).removed && m.nodes[h2].kind != NodeKind::File
                && m.nodes[h2].name == nm;
        assert(crate::engine::sym_has_handle(m, nm, h2 as usize));
        let wi = choose|wi: int|
            0 <= wi < m.symbols.len() && (#[trigger] m.symbols[wi]).0 == nm && m.symbols[
                wi
            ].1.contains(h2 as usize);
        assert(k1[wi] == nm);
        assert(k1.contains(nm));
    }
    lemma_distinct_same_members_equal_len(k1, k2);
}

proof fn lemma_compact_files_complete(m: GraphModel, h: int)
    requires
        0 <= h <= m.nodes.len(),
    ensures
        forall|h2: int|
            0 <= h2 < h && !(#[trigger] m.nodes[h2]).removed && m.nodes[h2].kind == NodeKind::File
                ==> has_file_key(compact_files(m, empty_model(), h), m.nodes[h2].file_path),
    decreases h,
{
    if h > 0 {
        lemma_compact_files_complete(m, h - 1);
        let prev = compact_files(m, empty_model(), h - 1);
        let a = compact_files(m, empty_model(), h);
        let nd = m.nodes[h - 1];
        if !nd.removed && nd.kind == NodeKind::File {
            assert forall|h2: int|
                0 <= h2 < h && !(#[trigger] m.nodes[h2]).removed && m.nodes[h2].kind
                    == NodeKind::File implies has_file_key(a, m.nodes[h2].file_path) by {
                if h2 < h - 1 {
                    assert(has_file_key(prev, m.nodes[h2].file_path));
                    let wi = choose|wi: int|
                        0 <= wi < prev.files.len() && (#[trigger] prev.files[wi]).0 == m.nodes[
                            h2
                        ].file_path;
                    assert(a.files[wi].0 == m.nodes[h2].file_path);
                    assert(has_file_key(a, m.nodes[h2].file_path));
                } else {
                    if has_file_key(prev, nd.file_path) {
                        let ki = crate::engine::file_key_idx(prev, nd.file_path);
                        assert(a.files[ki].0 == nd.file_path);
                        assert(has_file_key(a, nd.file_path));
                    } else {
                        assert(a.files[prev.files.len() as int].0 == nd.file_path);
                        assert(has_file_key(a, nd.file_path));
                    }
                }
            }
        } else {
            assert(a == prev);
        }
    }
}

proof fn lemma_compact_syms_map(m: GraphModel, a: GraphModel, h: int)
    requires
        0 <= h <= m.nodes.len(),
        forall|h2: int|
            0 <= h2 < m.nodes.len() && !(#[trigger] m.nodes[h2]).removed && m.nodes[h2].kind
                == NodeKind::File ==> has_file_key(a, m.nodes[h2].file_path),
    ensures
        ({
            let b = compact_syms(m, a, h);
            &&& b.0.files == a.files
            &&& b.0.edges == a.edges
            &&& b.1.len() == h
            &&& forall|h2: int|
                0 <= h2 < h ==> ((#[trigger] b.1[h2]) is Some <==> !m.nodes[h2].removed)
        }),
    decreases h,
{
    if h > 0 {
        lemma_compact_syms_map(m, a, h - 1);
    }
}

proof fn lemma_compact_edges_count(
    acc: GraphModel,
    map: Seq<Option<usize>>,
    es: Seq<(usize, usize, EdgeKind)>,
)
    requires
        forall|k: int|
            0 <= k < es.len() ==> ((#[trigger] es[k]).0 as int) < map.len() && (es[k].1 as int)
                < map.len() && map[es[k].0 as int] is Some && map[es[k].1 as int] is Some,
    ensures
        compact_edges(acc, map, es).edges.len() == acc.edges.len() + es.len(),
    decreases es.len(),
{
    if es.len() > 0 {
        lemma_compact_edges_count(acc, map, es.drop_last());
        assert(es[es.len() - 1] == es.last());
    }
}

/// No edge touches a removed node.
pub open spec fn no_dangling_edges(m: GraphModel) -> bool {
    forall|k: int|
        0 <= k < m.edges.len() ==> ((#[trigger] m.edges[k]).0 as int) < m.nodes.len() && (
        m.edges[k].1 as int) < m.nodes.len() && !m.nodes[m.edges[k].0 as int].removed
            && !m.nodes[m.edges[k].1 as int].removed
}

/// When no edge dangles, compaction keeps every edge: the rebuilt
/// graph has exactly as many edges as before. (A dangling edge — one
/// that touches a removed node — is dropped, which is the one way the
/// edge count shrinks.)
pub proof fn lemma_compact_preserves_edge_count(m: GraphModel)
    requires
        distinct_live_file_paths(m),
        no_dangling_edges(m),
    ensures
        spec_compact(m).edges.len() == m.edges.len(),
{
    let n = m.nodes.len() as int;
    lemma_compact_files_shape(m, n);
    lemma_compact_files_complete(m, n);
    let a = compact_files(m, empty_model(), n);
    lemma_compact_syms_map(m, a, n);
    let b = compact_syms(m, a, n);
    lemma_compact_edges_count(b.0, b.1, m.edges);
}

/// Compaction preserves the statistics of the live content: the
/// rebuilt graph holds exactly as many live file nodes and live
/// symbol nodes as before, as long as no two live `File` nodes
/// share a path (two such nodes are merged by the rebuild).
pub proof fn lemma_compact_preserves_stats(m: GraphModel)
    requires
        distinct_live_file_paths(m),
    ensures
        live_file_count(spec_compact(m).nodes) == live_file_count(m.nodes),
        live_symbol_count(spec_compact(m).nodes) == live_symbol_count(m.nodes),
{
    let n = m.nodes.len() as int;
    lemma_compact_files_shape(m, n);
    let a = compact_files(m, empty_model(), n);
    lemma_compact_syms_shape(m, a, n);
    let b = compact_syms(m, a, n);
    lemma_compact_edges_nodes(b.0, b.1, m.edges);
    assert(m.nodes.take(n) =~= m.nodes);
    lemma_count_split(b.0.nodes, a.nodes.len() as int);
}

} // verus!
