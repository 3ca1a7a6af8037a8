//! Whole-graph assembly: the three-pass ingest of extraction records,
//! and compaction, which rebuilds the graph without soft-deleted
//! nodes.
//!
//! Both operations are specified as folds of the models of the
//! elementary operations `add_file`, `add_symbol` and `add_edge`.

use vstd::prelude::*;

use crate::engine::{
    file_key_idx, file_node_view, find_file_entry, find_qual_entry, find_sym_entry, has_file_key,
    has_qual_key,
    has_sym_key, lemma_file_key_at, lemma_model, lemma_qual_key_at, lemma_sym_key_at, qual_key_idx,
    quals_ok, sym_entry_ok, sym_key_idx, symbol_node_view, well_formed, CodeGraph, GraphModel,
};
use crate::pgraph::{store_all_edges, store_get_node, store_node_count};
use crate::types::{
    CallView, EdgeKind, ExtractionView, FileExtractions, ImpView, NodeKind, NodeView, SymView,
};

verus! {

// ─── Models of the elementary operations ────────────────────────

/// What `add_file` does to the model, and the handle it returns.
pub open spec fn model_add_file(m: GraphModel, p: Seq<char>) -> (GraphModel, usize) {
    if has_file_key(m, p) {
        let h = m.files[file_key_idx(m, p)].1;
        (
            GraphModel {
                nodes: m.nodes.update(h as int, NodeView { removed: false, ..m.nodes[h as int] }),
                ..m
            },
            h,
        )
    } else {
        let h = m.nodes.len() as usize;
        (GraphModel { nodes: m.nodes.push(file_node_view(p)), files: m.files.push((p, h)), ..m }, h)
    }
}

/// What `add_symbol` does to the model, and the handle it returns.
pub open spec fn model_add_symbol(
    m: GraphModel,
    name: Seq<char>,
    kind: NodeKind,
    file: Seq<char>,
    ls: int,
    le: int,
    code: Seq<char>,
) -> (GraphModel, usize) {
    let h = m.nodes.len() as usize;
    let w = symbol_node_view(name, kind, file, ls, le, code);
    let symbols2 = if has_sym_key(m, name) {
        m.symbols.update(
            sym_key_idx(m, name),
            (name, m.symbols[sym_key_idx(m, name)].1.push(h)),
        )
    } else {
        m.symbols.push((name, seq![h]))
    };
    let quals2 = if has_qual_key(m, file, name) {
        m.quals
    } else {
        m.quals.push((file, name, h))
    };
    (GraphModel { nodes: m.nodes.push(w), symbols: symbols2, quals: quals2, ..m }, h)
}

/// What `add_edge` does to the model.
pub open spec fn model_add_edge(m: GraphModel, a: usize, b: usize, k: EdgeKind) -> GraphModel {
    GraphModel { edges: m.edges.push((a, b, k)), ..m }
}

// ─── Ingest: phase one ──────────────────────────────────────────

/// Adding one file's symbols, each with its `Defines` edge.
pub open spec fn ingest_symbols(
    m: GraphModel,
    fh: usize,
    file: Seq<char>,
    syms: Seq<SymView>,
) -> GraphModel
    decreases syms.len(),
{
    if syms.len() == 0 {
        m
    } else {
        let prev = ingest_symbols(m, fh, file, syms.drop_last());
        let s = syms.last();
        let step = model_add_symbol(
            prev,
            s.name,
            s.kind,
            file,
            s.line_start,
            s.line_end,
            s.code_snippet,
        );
        model_add_edge(step.0, fh, step.1, EdgeKind::Defines)
    }
}

/// Adding one file's imports, each as an `Import` node with its
/// `Imports` edge.
pub open spec fn ingest_imports(
    m: GraphModel,
    fh: usize,
    file: Seq<char>,
    imps: Seq<ImpView>,
) -> GraphModel
    decreases imps.len(),
{
    if imps.len() == 0 {
        m
    } else {
        let prev = ingest_imports(m, fh, file, imps.drop_last());
        let i = imps.last();
        let step = model_add_symbol(
            prev,
            i.path,
            NodeKind::Import,
            file,
            i.line,
            i.line,
            Seq::<char>::empty(),
        );
        model_add_edge(step.0, fh, step.1, EdgeKind::Imports)
    }
}

/// Phase one for one file: file node, then symbols, then imports.
pub open spec fn ingest_one(m: GraphModel, ex: ExtractionView) -> GraphModel {
    let f = model_add_file(m, ex.file_path);
    ingest_imports(
        ingest_symbols(f.0, f.1, ex.file_path, ex.symbols),
        f.1,
        ex.file_path,
        ex.imports,
    )
}

/// Phase one over all files.
pub open spec fn phase1(m: GraphModel, exs: Seq<ExtractionView>) -> GraphModel
    decreases exs.len(),
{
    if exs.len() == 0 {
        m
    } else {
        ingest_one(phase1(m, exs.drop_last()), exs.last())
    }
}

// ─── Ingest: phase two ──────────────────────────────────────────

/// Resolving one file's call records: the caller must resolve through
/// the qualified index, and the callee name must be registered; the
/// first registered handle wins.
pub open spec fn phase2_calls(m: GraphModel, file: Seq<char>, calls: Seq<CallView>) -> GraphModel
    decreases calls.len(),
{
    if calls.len() == 0 {
        m
    } else {
        let prev = phase2_calls(m, file, calls.drop_last());
        let c = calls.last();
        if has_qual_key(prev, file, c.caller) && has_sym_key(prev, c.callee) && prev.symbols[
            sym_key_idx(prev, c.callee)
        ].1.len() > 0 {
            model_add_edge(
                prev,
                prev.quals[qual_key_idx(prev, file, c.caller)].2,
                prev.symbols[sym_key_idx(prev, c.callee)].1[0],
                EdgeKind::Calls,
            )
        } else {
            prev
        }
    }
}

/// Phase two over all files.
pub open spec fn phase2(m: GraphModel, exs: Seq<ExtractionView>) -> GraphModel
    decreases exs.len(),
{
    if exs.len() == 0 {
        m
    } else {
        phase2_calls(phase2(m, exs.drop_last()), exs.last().file_path, exs.last().calls)
    }
}

// ─── Ingest: phase three ────────────────────────────────────────

/// Resolving one file's parent links: both parent and child must
/// resolve through the qualified index of the same file.
pub open spec fn phase3_syms(m: GraphModel, file: Seq<char>, syms: Seq<SymView>) -> GraphModel
    decreases syms.len(),
{
    if syms.len() == 0 {
        m
    } else {
        let prev = phase3_syms(m, file, syms.drop_last());
        let s = syms.last();
        match s.parent {
            Some(pn) => {
                if has_qual_key(prev, file, pn) && has_qual_key(prev, file, s.name) {
                    model_add_edge(
                        prev,
                        prev.quals[qual_key_idx(prev, file, pn)].2,
                        prev.quals[qual_key_idx(prev, file, s.name)].2,
                        EdgeKind::Contains,
                    )
                } else {
                    prev
                }
            },
            None => prev,
        }
    }
}

/// Phase three over all files.
pub open spec fn phase3(m: GraphModel, exs: Seq<ExtractionView>) -> GraphModel
    decreases exs.len(),
{
    if exs.len() == 0 {
        m
    } else {
        phase3_syms(phase3(m, exs.drop_last()), exs.last().file_path, exs.last().symbols)
    }
}

/// The whole three-pass ingest.
pub open spec fn spec_ingest(m: GraphModel, exs: Seq<ExtractionView>) -> GraphModel {
    phase3(phase2(phase1(m, exs), exs), exs)
}

pub open spec fn exts_view(s: Seq<FileExtractions>) -> Seq<ExtractionView> {
    Seq::new(s.len(), |i: int| s[i]@)
}

// ─── Compaction ─────────────────────────────────────────────────

/// The model of an empty graph.
pub open spec fn empty_model() -> GraphModel {
    GraphModel {
        nodes: Seq::empty(),
        edges: Seq::empty(),
        files: Seq::empty(),
        symbols: Seq::empty(),
        quals: Seq::empty(),
    }
}

/// Compaction pass one: re-add every live `File` node of the first
/// `h` handles.
pub open spec fn compact_files(mo: GraphModel, acc: GraphModel, h: int) -> GraphModel
    decreases h,
{
    if h <= 0 {
        acc
    } else {
        let prev = compact_files(mo, acc, h - 1);
        let nd = mo.nodes[h - 1];
        if !nd.removed && nd.kind == NodeKind::File {
            model_add_file(prev, nd.file_path).0
        } else {
            prev
        }
    }
}

/// Compaction pass two: re-add every live symbol of the first `h`
/// handles, and record where each old handle went.
pub open spec fn compact_syms(mo: GraphModel, acc: GraphModel, h: int) -> (
    GraphModel,
    Seq<Option<usize>>,
)
    decreases h,
{
    if h <= 0 {
        (acc, Seq::empty())
    } else {
        let prev = compact_syms(mo, acc, h - 1);
        let nd = mo.nodes[h - 1];
        if nd.removed {
            (prev.0, prev.1.push(None))
        } else if nd.kind == NodeKind::File {
            if has_file_key(prev.0, nd.file_path) {
                (
                    prev.0,
                    prev.1.push(Some(prev.0.files[file_key_idx(prev.0, nd.file_path)].1)),
                )
            } else {
                (prev.0, prev.1.push(None))
            }
        } else {
            let step = model_add_symbol(
                prev.0,
                nd.name,
                nd.kind,
                nd.file_path,
                nd.line_start,
                nd.line_end,
                nd.code_snippet,
            );
            (step.0, prev.1.push(Some(step.1)))
        }
    }
}

/// Compaction pass three: re-add every edge whose endpoints both
/// survived, following the handle map.
pub open spec fn compact_edges(
    acc: GraphModel,
    map: Seq<Option<usize>>,
    es: Seq<(usize, usize, EdgeKind)>,
) -> GraphModel
    decreases es.len(),
{
    if es.len() == 0 {
        acc
    } else {
        let prev = compact_edges(acc, map, es.drop_last());
        let e = es.last();
        if (e.0 as int) < map.len() && (e.1 as int) < map.len() && map[e.0 as int] is Some && map[
            e.1 as int
        ] is Some {
            model_add_edge(prev, map[e.0 as int]->Some_0, map[e.1 as int]->Some_0, e.2)
        } else {
            prev
        }
    }
}

/// What `compact` leaves behind: a fresh graph rebuilt from the live
/// nodes and the edges between them.
pub open spec fn spec_compact(m: GraphModel) -> GraphModel {
    let a = compact_files(m, empty_model(), m.nodes.len() as int);
    let b = compact_syms(m, a, m.nodes.len() as int);
    compact_edges(b.0, b.1, m.edges)
}

impl CodeGraph {
    /// Populate the graph from extraction records, in three passes:
    /// files with their symbols and imports first, then call
    /// resolution, then parent links.
    pub fn build_from_extractions(&mut self, extractions: Vec<FileExtractions>)
        requires
            well_formed(old(self)@),
        ensures
            well_formed(final(self)@),
            final(self)@ == spec_ingest(old(self)@, exts_view(extractions@)),
    {
        let ghost m0 = self@;
        let ghost ev = exts_view(extractions@);
        let n = extractions.len();
        // phase one: file, symbol and import nodes
        let mut i: usize = 0;
        while i < n
            invariant
                0 <= i <= n,
                n == extractions@.len(),
                ev == exts_view(extractions@),
                well_formed(self@),
                self@ == phase1(m0, ev.take(i as int)),
            decreases n - i,
        {
            proof {
                assert(ev[i as int] == extractions@[i as int]@);
                assert(ev.take(i + 1).drop_last() =~= ev.take(i as int));
                assert(ev.take(i + 1).last() == ev[i as int]);
            }
            let ghost mpre = self@;
            let fh = self.add_file(extractions[i].file_path.clone());
            proof {
                assert(self@ == model_add_file(mpre, ev[i as int].file_path).0);
                assert(fh == model_add_file(mpre, ev[i as int].file_path).1);
            }
            let ghost mfile = self@;
            let sn = extractions[i].symbols.len();
            let mut j: usize = 0;
            while j < sn
                invariant
                    0 <= j <= sn,
                    (i as int) < extractions@.len(),
                    sn == extractions@[i as int].symbols@.len(),
                    ev == exts_view(extractions@),
                    well_formed(self@),
                    self@ == ingest_symbols(
                        mfile,
                        fh,
                        ev[i as int].file_path,
                        ev[i as int].symbols.take(j as int),
                    ),
                    (fh as int) < self@.nodes.len(),
                decreases sn - j,
            {
                proof {
                    assert(ev[i as int] == extractions@[i as int]@);
                    assert(ev[i as int].symbols.take(j + 1).drop_last() =~= ev[
                        i as int
                    ].symbols.take(j as int));
                    assert(ev[i as int].symbols.take(j + 1).last() == ev[i as int].symbols[
                        j as int
                    ]);
                    assert(ev[i as int].symbols[j as int] == extractions@[i as int].symbols@[
                        j as int
                    ]@);
                }
                let ghost mprev = self@;
                let s_name = extractions[i].symbols[j].name.clone();
                let s_kind = extractions[i].symbols[j].kind;
                let s_ls = extractions[i].symbols[j].line_start;
                let s_le = extractions[i].symbols[j].line_end;
                let s_code = extractions[i].symbols[j].code_snippet.clone();
                let fpath = extractions[i].file_path.clone();
                let sh = self.add_symbol(s_name, s_kind, fpath, s_ls, s_le, s_code);
                self.add_edge(fh, sh, EdgeKind::Defines);
                j += 1;
                proof {
                    let s = ev[i as int].symbols[j - 1];
                    let step = model_add_symbol(
                        mprev,
                        s.name,
                        s.kind,
                        ev[i as int].file_path,
                        s.line_start,
                        s.line_end,
                        s.code_snippet,
                    );
                    assert(self@ == model_add_edge(step.0, fh, step.1, EdgeKind::Defines));
                    assert(self@ == ingest_symbols(
                        mfile,
                        fh,
                        ev[i as int].file_path,
                        ev[i as int].symbols.take(j as int),
                    ));
                }
            }
            proof {
                assert(ev[i as int].symbols.take(sn as int) =~= ev[i as int].symbols);
            }
            let ghost msyms = self@;
            let im = extractions[i].imports.len();
            let mut j2: usize = 0;
            while j2 < im
                invariant
                    0 <= j2 <= im,
                    (i as int) < extractions@.len(),
                    im == extractions@[i as int].imports@.len(),
                    ev == exts_view(extractions@),
                    well_formed(self@),
                    self@ == ingest_imports(
                        msyms,
                        fh,
                        ev[i as int].file_path,
                        ev[i as int].imports.take(j2 as int),
                    ),
                    (fh as int) < self@.nodes.len(),
                decreases im - j2,
            {
                proof {
                    assert(ev[i as int] == extractions@[i as int]@);
                    assert(ev[i as int].imports.take(j2 + 1).drop_last() =~= ev[
                        i as int
                    ].imports.take(j2 as int));
                    assert(ev[i as int].imports.take(j2 + 1).last() == ev[i as int].imports[
                        j2 as int
                    ]);
                    assert(ev[i as int].imports[j2 as int] == extractions@[i as int].imports@[
                        j2 as int
                    ]@);
                }
                let ghost mprev = self@;
                let i_path = extractions[i].imports[j2].path.clone();
                let i_line = extractions[i].imports[j2].line;
                let fpath = extractions[i].file_path.clone();
                let ih = self.add_symbol(
                    i_path,
                    NodeKind::Import,
                    fpath,
                    i_line,
                    i_line,
                    String::new(),
                );
                self.add_edge(fh, ih, EdgeKind::Imports);
                j2 += 1;
                proof {
                    let iv = ev[i as int].imports[j2 - 1];
                    let step = model_add_symbol(
                        mprev,
                        iv.path,
                        NodeKind::Import,
                        ev[i as int].file_path,
                        iv.line,
                        iv.line,
                        Seq::<char>::empty(),
                    );
                    assert(self@ == model_add_edge(step.0, fh, step.1, EdgeKind::Imports));
                    assert(self@ == ingest_imports(
                        msyms,
                        fh,
                        ev[i as int].file_path,
                        ev[i as int].imports.take(j2 as int),
                    ));
                }
            }
            proof {
                assert(ev[i as int].imports.take(im as int) =~= ev[i as int].imports);
                assert(self@ == ingest_one(mpre, ev[i as int]));
            }
            i += 1;
        }
        proof {
            assert(ev.take(n as int) =~= ev);
        }
        let ghost m1 = self@;
        // phase two: call resolution
        let mut i: usize = 0;
        while i < n
            invariant
                0 <= i <= n,
                n == extractions@.len(),
                ev == exts_view(extractions@),
                well_formed(self@),
                self@ == phase2(m1, ev.take(i as int)),
            decreases n - i,
        {
            proof {
                assert(ev[i as int] == extractions@[i as int]@);
                assert(ev.take(i + 1).drop_last() =~= ev.take(i as int));
                assert(ev.take(i + 1).last() == ev[i as int]);
            }
            let ghost mex = self@;
            let cn = extractions[i].calls.len();
            let mut j: usize = 0;
            while j < cn
                invariant
                    0 <= j <= cn,
                    (i as int) < extractions@.len(),
                    cn == extractions@[i as int].calls@.len(),
                    ev == exts_view(extractions@),
                    well_formed(self@),
                    self@ == phase2_calls(
                        mex,
                        ev[i as int].file_path,
                        ev[i as int].calls.take(j as int),
                    ),
                decreases cn - j,
            {
                proof {
                    assert(ev[i as int] == extractions@[i as int]@);
                    assert(ev[i as int].calls.take(j + 1).drop_last() =~= ev[i as int].calls.take(
                        j as int,
                    ));
                    assert(ev[i as int].calls.take(j + 1).last() == ev[i as int].calls[j as int]);
                    assert(ev[i as int].calls[j as int] == extractions@[i as int].calls@[
                        j as int
                    ]@);
                }
                let ghost mprev = self@;
                let caller_pos = find_qual_entry(
                    &self.qualified_index,
                    extractions[i].file_path.as_str(),
                    extractions[i].calls[j].caller.as_str(),
                );
                match caller_pos {
                    Some(qi) => {
                        proof {
                            lemma_model(self);
                            assert(mprev.quals[qi as int] == (
                                self.qualified_index@[qi as int].0@,
                                self.qualified_index@[qi as int].1@,
                                self.qualified_index@[qi as int].2,
                            ));
                            lemma_qual_key_at(mprev, qi as int);
                        }
                        let caller_h = self.qualified_index[qi].2;
                        match find_sym_entry(
                            &self.symbol_index,
                            extractions[i].calls[j].callee.as_str(),
                        ) {
                            Some(ci) => {
                                proof {
                                    lemma_model(self);
                                    assert(mprev.symbols[ci as int] == (
                                        self.symbol_index@[ci as int].0@,
                                        self.symbol_index@[ci as int].1@,
                                    ));
                                    lemma_sym_key_at(mprev, ci as int);
                                    assert(sym_entry_ok(mprev, mprev.symbols[ci as int]));
                                }
                                let callee_h = self.symbol_index[ci].1[0];
                                self.add_edge(caller_h, callee_h, EdgeKind::Calls);
                            },
                            None => {
                                proof {
                                    lemma_model(self);
                                    assert forall|ii: int|
                                        0 <= ii < mprev.symbols.len() implies (
                                    #[trigger] mprev.symbols[ii]).0 != extractions@[
                                        i as int
                                    ].calls@[j as int].callee@ by {
                                        assert(mprev.symbols[ii].0 == self.symbol_index@[ii].0@);
                                    }
                                }
                            },
                        }
                    },
                    None => {
                        proof {
                            lemma_model(self);
                            assert forall|ii: int|
                                0 <= ii < mprev.quals.len() implies !((
                            #[trigger] mprev.quals[ii]).0 == extractions@[i as int].file_path@
                                && mprev.quals[ii].1 == extractions@[i as int].calls@[
                                j as int
                            ].caller@) by {
                                assert(mprev.quals[ii] == (
                                    self.qualified_index@[ii].0@,
                                    self.qualified_index@[ii].1@,
                                    self.qualified_index@[ii].2,
                                ));
                            }
                        }
                    },
                }
                j += 1;
                proof {
                    assert(self@ == phase2_calls(
                        mex,
                        ev[i as int].file_path,
                        ev[i as int].calls.take(j as int),
                    ));
                }
            }
            proof {
                assert(ev[i as int].calls.take(cn as int) =~= ev[i as int].calls);
            }
            i += 1;
        }
        proof {
            assert(ev.take(n as int) =~= ev);
        }
        let ghost m2 = self@;
        // phase three: parent links
        let mut i: usize = 0;
        while i < n
            invariant
                0 <= i <= n,
                n == extractions@.len(),
                ev == exts_view(extractions@),
                well_formed(self@),
                self@ == phase3(m2, ev.take(i as int)),
            decreases n - i,
        {
            proof {
                assert(ev[i as int] == extractions@[i as int]@);
                assert(ev.take(i + 1).drop_last() =~= ev.take(i as int));
                assert(ev.take(i + 1).last() == ev[i as int]);
            }
            let ghost mex = self@;
            let sn = extractions[i].symbols.len();
            let mut j: usize = 0;
            while j < sn
                invariant
                    0 <= j <= sn,
                    (i as int) < extractions@.len(),
                    sn == extractions@[i as int].symbols@.len(),
                    ev == exts_view(extractions@),
                    well_formed(self@),
                    self@ == phase3_syms(
                        mex,
                        ev[i as int].file_path,
                        ev[i as int].symbols.take(j as int),
                    ),
                decreases sn - j,
            {
                proof {
                    assert(ev[i as int] == extractions@[i as int]@);
                    assert(ev[i as int].symbols.take(j + 1).drop_last() =~= ev[
                        i as int
                    ].symbols.take(j as int));
                    assert(ev[i as int].symbols.take(j + 1).last() == ev[i as int].symbols[
                        j as int
                    ]);
                    assert(ev[i as int].symbols[j as int] == extractions@[i as int].symbols@[
                        j as int
                    ]@);
                }
                let ghost mprev = self@;
                let has_parent = extractions[i].symbols[j].parent.is_some();
                if has_parent {
                    let parent_name = match &extractions[i].symbols[j].parent {
                        Some(p) => p.clone(),
                        None => {
                            proof {
                                assert(false);
                            }
                            String::new()
                        },
                    };
                    let parent_pos = find_qual_entry(
                        &self.qualified_index,
                        extractions[i].file_path.as_str(),
                        parent_name.as_str(),
                    );
                    let child_pos = find_qual_entry(
                        &self.qualified_index,
                        extractions[i].file_path.as_str(),
                        extractions[i].symbols[j].name.as_str(),
                    );
                    match (parent_pos, child_pos) {
                        (Some(pi), Some(ci)) => {
                            proof {
                                lemma_model(self);
                                assert(mprev.quals[pi as int] == (
                                    self.qualified_index@[pi as int].0@,
                                    self.qualified_index@[pi as int].1@,
                                    self.qualified_index@[pi as int].2,
                                ));
                                assert(mprev.quals[ci as int] == (
                                    self.qualified_index@[ci as int].0@,
                                    self.qualified_index@[ci as int].1@,
                                    self.qualified_index@[ci as int].2,
                                ));
                                lemma_qual_key_at(mprev, pi as int);
                                lemma_qual_key_at(mprev, ci as int);
                            }
                            let ph = self.qualified_index[pi].2;
                            let ch = self.qualified_index[ci].2;
                            self.add_edge(ph, ch, EdgeKind::Contains);
                        },
                        _ => {
                            proof {
                                lemma_model(self);
                                let fpv = extractions@[i as int].file_path@;
                                let pnv = ev[i as int].symbols[j as int].parent->Some_0;
                                let cnv = extractions@[i as int].symbols@[j as int].name@;
                                if parent_pos is None {
                                    assert forall|ii: int|
                                        0 <= ii < mprev.quals.len() implies !((
                                    #[trigger] mprev.quals[ii]).0 == fpv && mprev.quals[ii].1
                                        == pnv) by {
                                        assert(mprev.quals[ii] == (
                                            self.qualified_index@[ii].0@,
                                            self.qualified_index@[ii].1@,
                                            self.qualified_index@[ii].2,
                                        ));
                                    }
                                } else {
                                    assert forall|ii: int|
                                        0 <= ii < mprev.quals.len() implies !((
                                    #[trigger] mprev.quals[ii]).0 == fpv && mprev.quals[ii].1
                                        == cnv) by {
                                        assert(mprev.quals[ii] == (
                                            self.qualified_index@[ii].0@,
                                            self.qualified_index@[ii].1@,
                                            self.qualified_index@[ii].2,
                                        ));
                                    }
                                }
                            }
                        },
                    }
                }
                j += 1;
                proof {
                    assert(self@ == phase3_syms(
                        mex,
                        ev[i as int].file_path,
                        ev[i as int].symbols.take(j as int),
                    ));
                }
            }
            proof {
                assert(ev[i as int].symbols.take(sn as int) =~= ev[i as int].symbols);
            }
            i += 1;
        }
        proof {
            assert(ev.take(n as int) =~= ev);
        }
    }

    /// Rebuild the graph from scratch, keeping only live nodes and the
    /// edges between them. Handle identities change; no removed node
    /// remains.
    pub fn compact(&mut self)
        requires
            well_formed(old(self)@),
        ensures
            well_formed(final(self)@),
            final(self)@ == spec_compact(old(self)@),
            forall|h: int|
                0 <= h < final(self)@.nodes.len() ==> !(#[trigger] final(self)@.nodes[h]).removed,
    {
        proof {
            lemma_model(self);
        }
        let ghost m0 = self@;
        let mut newg = CodeGraph::new();
        proof {
            assert(newg@.nodes =~= empty_model().nodes);
            assert(newg@.edges =~= empty_model().edges);
            assert(newg@.files =~= empty_model().files);
            assert(newg@.symbols =~= empty_model().symbols);
            assert(newg@.quals =~= empty_model().quals);
            assert(newg@ == empty_model());
        }
        let n = store_node_count(&self.graph);
        // pass one: live file nodes
        let mut h: usize = 0;
        while h < n
            invariant
                0 <= h <= n,
                n == m0.nodes.len(),
                m0 == self@,
                well_formed(m0),
                well_formed(newg@),
                newg@ == compact_files(m0, empty_model(), h as int),
                forall|x: int|
                    0 <= x < newg@.nodes.len() ==> !(#[trigger] newg@.nodes[x]).removed,
            decreases n - h,
        {
            proof {
                lemma_model(self);
            }
            let node = match store_get_node(&self.graph, h) {
                Some(node) => node,
                None => {
                    proof {
                        assert(false);
                    }
                    unreached()
                },
            };
            if !node.removed && node.kind == NodeKind::File {
                newg.add_file(node.file_path);
            }
            h += 1;
        }
        let ghost ma = newg@;
        // pass two: live symbol nodes, recording where handles went
        let mut map: Vec<Option<usize>> = Vec::new();
        let mut h: usize = 0;
        while h < n
            invariant
                0 <= h <= n,
                n == m0.nodes.len(),
                m0 == self@,
                well_formed(m0),
                well_formed(newg@),
                map@.len() == h,
                (newg@, map@) == compact_syms(m0, ma, h as int),
                forall|x: int|
                    0 <= x < newg@.nodes.len() ==> !(#[trigger] newg@.nodes[x]).removed,
                forall|x: int|
                    0 <= x < map@.len() && (#[trigger] map@[x]) is Some ==> (map@[x]->Some_0
                        as int) < newg@.nodes.len(),
            decreases n - h,
        {
            proof {
                lemma_model(self);
            }
            let ghost mprev = newg@;
            let node = match store_get_node(&self.graph, h) {
                Some(node) => node,
                None => {
                    proof {
                        assert(false);
                    }
                    unreached()
                },
            };
            if node.removed {
                map.push(None);
            } else if node.kind == NodeKind::File {
                match find_file_entry(&newg.file_index, node.file_path.as_str()) {
                    Some(fp) => {
                        proof {
                            lemma_model(&newg);
                            assert(mprev.files[fp as int] == (
                                newg.file_index@[fp as int].0@,
                                newg.file_index@[fp as int].1,
                            ));
                            lemma_file_key_at(mprev, fp as int);
                        }
                        let nh = newg.file_index[fp].1;
                        map.push(Some(nh));
                    },
                    None => {
                        proof {
                            lemma_model(&newg);
                            assert forall|ii: int| 0 <= ii < mprev.files.len() implies (
                            #[trigger] mprev.files[ii]).0 != node.file_path@ by {
                                assert(mprev.files[ii].0 == newg.file_index@[ii].0@);
                            }
                            assert(!has_file_key(mprev, node.file_path@));
                        }
                        map.push(None);
                    },
                }
            } else {
                let nh = newg.add_symbol(
                    node.name,
                    node.kind,
                    node.file_path,
                    node.line_start,
                    node.line_end,
                    node.code_snippet,
                );
                map.push(Some(nh));
            }
            h += 1;
            proof {
                assert((newg@, map@) == compact_syms(m0, ma, h as int));
            }
        }
        let ghost mb = newg@;
        let ghost bmap = map@;
        // pass three: edges between surviving nodes
        let edges = store_all_edges(&self.graph);
        let en = edges.len();
        let mut k: usize = 0;
        while k < en
            invariant
                0 <= k <= en,
                en == edges@.len(),
                edges@ == m0.edges,
                m0 == self@,
                well_formed(newg@),
                map@ == bmap,
                newg@ == compact_edges(mb, bmap, edges@.take(k as int)),
                newg@.nodes == mb.nodes,
                forall|x: int|
                    0 <= x < map@.len() && (#[trigger] map@[x]) is Some ==> (map@[x]->Some_0
                        as int) < mb.nodes.len(),
                forall|x: int|
                    0 <= x < newg@.nodes.len() ==> !(#[trigger] newg@.nodes[x]).removed,
            decreases en - k,
        {
            proof {
                assert(edges@.take(k + 1).drop_last() =~= edges@.take(k as int));
                assert(edges@.take(k + 1).last() == edges@[k as int]);
            }
            let e = edges[k];
            if e.0 < map.len() && e.1 < map.len() {
                let ma2 = map[e.0];
                let mb2 = map[e.1];
                match (ma2, mb2) {
                    (Some(a2), Some(b2)) => {
                        newg.add_edge(a2, b2, e.2);
                    },
                    _ => {},
                }
            }
            k += 1;
            proof {
                assert(newg@ == compact_edges(mb, bmap, edges@.take(k as int)));
            }
        }
        proof {
            assert(edges@.take(en as int) =~= edges@);
        }
        *self = newg;
    }
}

} // verus!
