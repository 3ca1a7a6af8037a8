//! Graph-aware search: match file paths or symbol names, then walk
//! the graph outward from the matches, reporting symbols and the
//! connections traversed. Output is bounded: at most 10 seed matches,
//! 50 symbols, and 100 connections.

use vstd::prelude::*;
use vstd::pervasive::unreached;

use crate::engine::{lemma_model, sym_entry_ok, well_formed, CodeGraph, GraphModel};
use crate::pgraph::{store_all_edges, store_get_node, store_node_count};
use crate::search::{live_at, strings_view};
use crate::strutil::{
    basename_chars, chars_eq, contains_chars, lower_of, spec_basename, spec_contains,
    spec_starts_with, starts_with_chars, string_from_chars, to_char_vec, to_lower,
};
use crate::types::{
    ConnView, ConnectionInfo, EdgeKind, GraphSearchResult, NodeKind, SymInfoView, SymbolInfo,
};

verus! {

pub open spec fn syminfos_view(s: Seq<SymbolInfo>) -> Seq<SymInfoView> {
    Seq::new(s.len(), |i: int| s[i]@)
}

pub open spec fn conns_view(s: Seq<ConnectionInfo>) -> Seq<ConnView> {
    Seq::new(s.len(), |i: int| s[i]@)
}

/// The symbol record reported for node `h`.
pub open spec fn syminfo_of(m: GraphModel, h: usize) -> SymInfoView {
    SymInfoView {
        name: m.nodes[h as int].name,
        kind: m.nodes[h as int].kind,
        file: m.nodes[h as int].file_path,
        line: m.nodes[h as int].line_start,
        code: m.nodes[h as int].code_snippet,
    }
}

/// File-index entry `i` matches the lower-cased query: its node is
/// live and the query occurs in the lower-cased path or basename.
pub open spec fn file_entry_matches(m: GraphModel, ql: Seq<char>, i: int) -> bool {
    &&& 0 <= i < m.files.len()
    &&& live_at(m, m.files[i].1)
    &&& (spec_contains(lower_of(m.files[i].0), ql) || spec_contains(
        lower_of(spec_basename(m.files[i].0)),
        ql,
    ))
}

pub open spec fn any_file_match(m: GraphModel, ql: Seq<char>) -> bool {
    exists|i: int| file_entry_matches(m, ql, i)
}

/// Symbol-index entry `i` matches: its lower-cased name equals the
/// query or begins with it.
pub open spec fn sym_entry_matches(m: GraphModel, ql: Seq<char>, i: int) -> bool {
    &&& 0 <= i < m.symbols.len()
    &&& (lower_of(m.symbols[i].0) == ql || spec_starts_with(lower_of(m.symbols[i].0), ql))
}

pub open spec fn any_sym_match(m: GraphModel, ql: Seq<char>) -> bool {
    exists|i: int| sym_entry_matches(m, ql, i)
}

/// Number of matching file-index entries among the first `h`.
pub open spec fn count_file_matches(m: GraphModel, ql: Seq<char>, h: int) -> nat
    decreases h,
{
    if h <= 0 {
        0
    } else {
        count_file_matches(m, ql, h - 1) + if file_entry_matches(m, ql, h - 1) {
            1nat
        } else {
            0nat
        }
    }
}

/// The matching file-index positions among the first `h`, in order.
pub open spec fn file_match_positions(m: GraphModel, ql: Seq<char>, h: int) -> Seq<usize>
    decreases h,
{
    if h <= 0 {
        Seq::empty()
    } else {
        let rest = file_match_positions(m, ql, h - 1);
        if file_entry_matches(m, ql, h - 1) {
            rest.push((h - 1) as usize)
        } else {
            rest
        }
    }
}

/// The seed positions the file branch works from: the first ten
/// matches.
pub open spec fn spec_file_seeds(m: GraphModel, ql: Seq<char>) -> Seq<usize> {
    let ps = file_match_positions(m, ql, m.files.len() as int);
    if ps.len() <= 10 {
        ps
    } else {
        ps.take(10)
    }
}

/// The paths of the file-index entries at the given positions.
pub open spec fn paths_of(m: GraphModel, ps: Seq<usize>) -> Seq<Seq<char>> {
    Seq::new(ps.len(), |i: int| m.files[ps[i] as int].0)
}

/// The symbol records of the live targets of `Defines` edges out of
/// file node `fh`, in edge order.
pub open spec fn defines_infos(
    m: GraphModel,
    es: Seq<(usize, usize, crate::types::EdgeKind)>,
    fh: usize,
) -> Seq<SymInfoView>
    decreases es.len(),
{
    if es.len() == 0 {
        Seq::empty()
    } else {
        let rest = defines_infos(m, es.drop_last(), fh);
        let e = es.last();
        if e.0 == fh && e.2 == EdgeKind::Defines && live_at(m, e.1) {
            rest.push(syminfo_of(m, e.1))
        } else {
            rest
        }
    }
}

/// The symbol records the file branch reports: each seed file's
/// `Defines` targets, seed by seed.
pub open spec fn seeds_infos(m: GraphModel, ps: Seq<usize>) -> Seq<SymInfoView>
    decreases ps.len(),
{
    if ps.len() == 0 {
        Seq::empty()
    } else {
        seeds_infos(m, ps.drop_last()) + defines_infos(m, m.edges, m.files[ps.last() as int].1)
    }
}

/// Live handles in a list, as the seed collection counts them.
pub open spec fn list_live_count(m: GraphModel, l: Seq<usize>) -> nat
    decreases l.len(),
{
    if l.len() == 0 {
        0
    } else {
        list_live_count(m, l.drop_last()) + if live_at(m, l.last()) {
            1nat
        } else {
            0nat
        }
    }
}

/// Number of symbol-seed candidates among the first `h` entries.
pub open spec fn count_sym_seeds(m: GraphModel, ql: Seq<char>, h: int) -> nat
    decreases h,
{
    if h <= 0 {
        0
    } else {
        count_sym_seeds(m, ql, h - 1) + if sym_entry_matches(m, ql, h - 1) {
            list_live_count(m, m.symbols[h - 1].1)
        } else {
            0nat
        }
    }
}

proof fn lemma_no_match_no_seed_candidates(m: GraphModel, ql: Seq<char>, h: int)
    requires
        !any_sym_match(m, ql),
        0 <= h,
    ensures
        count_sym_seeds(m, ql, h) == 0,
    decreases h,
{
    if h > 0 {
        lemma_no_match_no_seed_candidates(m, ql, h - 1);
        assert(!sym_entry_matches(m, ql, h - 1));
    }
}

/// A count saturated just past the seed limit.
pub open spec fn cap11(n: nat) -> nat {
    if n > 11 {
        11
    } else {
        n
    }
}

/// A reported connection corresponds to a real edge of the graph
/// between two live non-file nodes, carrying their names.
pub open spec fn conn_backed(m: GraphModel, c: ConnView, k: int) -> bool {
    &&& 0 <= k < m.edges.len()
    &&& m.edges[k].2 == c.relationship
    &&& live_at(m, m.edges[k].0)
    &&& live_at(m, m.edges[k].1)
    &&& m.nodes[m.edges[k].0 as int].kind != NodeKind::File
    &&& m.nodes[m.edges[k].1 as int].kind != NodeKind::File
    &&& m.nodes[m.edges[k].0 as int].name == c.from
    &&& m.nodes[m.edges[k].1 as int].name == c.to
}

pub open spec fn conn_ok(m: GraphModel, c: ConnView) -> bool {
    exists|k: int| conn_backed(m, c, k)
}

/// The path is the one of a matching file-index entry.
pub open spec fn path_matched(m: GraphModel, ql: Seq<char>, p: Seq<char>) -> bool {
    exists|fi: int| file_entry_matches(m, ql, fi) && p == (#[trigger] m.files[fi]).0
}

/// Every reported path belongs to a matching file-index entry.
pub open spec fn files_sound(m: GraphModel, ql: Seq<char>, paths: Seq<Seq<char>>) -> bool {
    forall|x: int| 0 <= x < paths.len() ==> path_matched(m, ql, #[trigger] paths[x])
}

proof fn lemma_files_sound_intro(m: GraphModel, ql: Seq<char>, paths: Seq<Seq<char>>, fis: Seq<int>)
    requires
        paths.len() == fis.len(),
        forall|x: int|
            0 <= x < fis.len() ==> file_entry_matches(m, ql, #[trigger] fis[x]) && paths[x]
                == m.files[fis[x]].0,
    ensures
        files_sound(m, ql, paths),
{
    assert forall|x: int| 0 <= x < paths.len() implies path_matched(
        m,
        ql,
        #[trigger] paths[x],
    ) by {
        let wfi = fis[x];
        assert(file_entry_matches(m, ql, wfi) && paths[x] == m.files[wfi].0);
    }
}

/// The record describes a live node.
pub open spec fn info_sound(m: GraphModel, info: SymInfoView) -> bool {
    exists|h: usize| live_at(m, h) && info == #[trigger] syminfo_of(m, h)
}

/// Every reported symbol record describes a live node.
pub open spec fn syms_sound(m: GraphModel, infos: Seq<SymInfoView>) -> bool {
    forall|x: int| 0 <= x < infos.len() ==> info_sound(m, #[trigger] infos[x])
}

/// Every reported connection is backed by a real edge between live
/// nodes.
pub open spec fn conns_sound(m: GraphModel, cs: Seq<ConnView>) -> bool {
    forall|x: int| 0 <= x < cs.len() ==> conn_ok(m, #[trigger] cs[x])
}

/// The match label that `search_graph` reports.
pub open spec fn spec_match_type(m: GraphModel, ql: Seq<char>) -> Seq<char> {
    if any_file_match(m, ql) {
        "file"@
    } else if any_sym_match(m, ql) {
        "symbol"@
    } else {
        "none"@
    }
}

/// Number of `true` marks.
pub open spec fn count_true(s: Seq<bool>) -> nat
    decreases s.len(),
{
    if s.len() == 0 {
        0
    } else {
        count_true(s.drop_last()) + if s.last() {
            1nat
        } else {
            0nat
        }
    }
}

proof fn lemma_count_true_le(s: Seq<bool>)
    ensures
        count_true(s) <= s.len(),
    decreases s.len(),
{
    if s.len() > 0 {
        lemma_count_true_le(s.drop_last());
    }
}

proof fn lemma_count_true_update(s: Seq<bool>, i: int)
    requires
        0 <= i < s.len(),
        !s[i],
    ensures
        count_true(s.update(i, true)) == count_true(s) + 1,
    decreases s.len(),
{
    let s2 = s.update(i, true);
    if i == s.len() - 1 {
        assert(s2.drop_last() =~= s.drop_last());
    } else {
        assert(s2.drop_last() =~= s.drop_last().update(i, true));
        lemma_count_true_update(s.drop_last(), i);
    }
}

impl CodeGraph {
    /// The first ten file-index positions matching the query, and
    /// whether the ten-seed limit cut further matches off.
    fn collect_file_matches(&self, qlv: &Vec<char>, ql_spec: Ghost<Seq<char>>) -> (r: (
        Vec<usize>,
        bool,
    ))
        requires
            well_formed(self@),
            qlv@ == ql_spec@,
        ensures
            r.0@ == spec_file_seeds(self@, ql_spec@),
            r.1 == (count_file_matches(self@, ql_spec@, self@.files.len() as int) > 10),
            r.0@.len() <= 10,
            forall|x: int|
                0 <= x < r.0@.len() ==> file_entry_matches(
                    self@,
                    ql_spec@,
                    (#[trigger] r.0@[x]) as int,
                ),
            (r.0@.len() > 0) <==> any_file_match(self@, ql_spec@),
    {
        proof {
            lemma_model(self);
        }
        let ghost m = self@;
        let ghost ql = ql_spec@;
        let fl = self.file_index.len();
        let mut seeds: Vec<usize> = Vec::new();
        let mut total: usize = 0;
        let mut i: usize = 0;
        while i < fl
            invariant
                0 <= i <= fl,
                fl == self.file_index@.len(),
                fl == m.files.len(),
                m == self@,
                well_formed(m),
                qlv@ == ql,
                seeds@.len() <= 10,
                total == cap11(count_file_matches(m, ql, i as int)),
                seeds@ == ({
                    let ps = file_match_positions(m, ql, i as int);
                    if ps.len() <= 10 {
                        ps
                    } else {
                        ps.take(10)
                    }
                }),
                forall|x: int|
                    0 <= x < seeds@.len() ==> file_entry_matches(
                        m,
                        ql,
                        (#[trigger] seeds@[x]) as int,
                    ),
                (seeds@.len() > 0) <==> exists|ii: int| ii < i && file_entry_matches(m, ql, ii),
            decreases fl - i,
        {
            proof {
                lemma_model(self);
                assert(m.files[i as int] == (
                    self.file_index@[i as int].0@,
                    self.file_index@[i as int].1,
                ));
            }
            let h = self.file_index[i].1;
            let live = self.is_live(h);
            let pl = to_lower(self.file_index[i].0.as_str());
            let plv = to_char_vec(pl.as_str());
            let pv = to_char_vec(self.file_index[i].0.as_str());
            let bv = basename_chars(&pv);
            let bs = string_from_chars(&bv);
            let bl = to_lower(bs.as_str());
            let blv = to_char_vec(bl.as_str());
            let cond = live && (contains_chars(&plv, qlv) || contains_chars(&blv, qlv));
            proof {
                assert(cond == file_entry_matches(m, ql, i as int));
            }
            if cond {
                if total <= 10 {
                    total += 1;
                }
                if seeds.len() < 10 {
                    seeds.push(i);
                }
            }
            proof {
                let ps0 = file_match_positions(m, ql, i as int);
                let ps1 = file_match_positions(m, ql, i + 1);
                if cond {
                    assert(ps1 == ps0.push(i as usize));
                    if ps0.len() >= 10 {
                        assert(ps1.take(10) =~= if ps0.len() <= 10 {
                            ps0
                        } else {
                            ps0.take(10)
                        });
                    }
                } else {
                    assert(ps1 == ps0);
                }
            }
            i += 1;
        }
        let over = total > 10;
        (seeds, over)
    }

    /// The first ten live handles registered under names matching the
    /// query exactly or as a prefix, case-insensitively, and whether
    /// the ten-seed limit cut further candidates off.
    fn collect_symbol_seeds(&self, qlv: &Vec<char>, ql_spec: Ghost<Seq<char>>) -> (r: (
        Vec<usize>,
        bool,
    ))
        requires
            well_formed(self@),
            qlv@ == ql_spec@,
        ensures
            r.1 == (count_sym_seeds(self@, ql_spec@, self@.symbols.len() as int) > 10),
            r.0@.len() <= 10,
            forall|x: int| 0 <= x < r.0@.len() ==> live_at(self@, #[trigger] r.0@[x]),
            (r.0@.len() > 0) <==> any_sym_match(self@, ql_spec@),
    {
        proof {
            lemma_model(self);
        }
        let ghost m = self@;
        let ghost ql = ql_spec@;
        let sn = self.symbol_index.len();
        let mut seeds: Vec<usize> = Vec::new();
        let mut total: usize = 0;
        let mut i: usize = 0;
        while i < sn
            invariant
                0 <= i <= sn,
                sn == self.symbol_index@.len(),
                sn == m.symbols.len(),
                m == self@,
                well_formed(m),
                qlv@ == ql,
                seeds@.len() <= 10,
                total == cap11(count_sym_seeds(m, ql, i as int)),
                forall|x: int| 0 <= x < seeds@.len() ==> live_at(m, #[trigger] seeds@[x]),
                (seeds@.len() > 0) <==> exists|ii: int| ii < i && sym_entry_matches(m, ql, ii),
            decreases sn - i,
        {
            proof {
                lemma_model(self);
                assert(m.symbols[i as int] == (
                    self.symbol_index@[i as int].0@,
                    self.symbol_index@[i as int].1@,
                ));
                assert(sym_entry_ok(m, m.symbols[i as int]));
            }
            let kl = to_lower(self.symbol_index[i].0.as_str());
            let klv = to_char_vec(kl.as_str());
            let cond = chars_eq(&klv, qlv) || starts_with_chars(&klv, qlv);
            proof {
                assert(cond == sym_entry_matches(m, ql, i as int));
            }
            if cond {
                let ln = self.symbol_index[i].1.len();
                let mut j: usize = 0;
                while j < ln
                    invariant
                        0 <= j <= ln,
                        (i as int) < self.symbol_index@.len(),
                        (i as int) < m.symbols.len(),
                        ln == self.symbol_index@[i as int].1@.len(),
                        m == self@,
                        well_formed(m),
                        m.symbols[i as int] == (
                            self.symbol_index@[i as int].0@,
                            self.symbol_index@[i as int].1@,
                        ),
                        sym_entry_ok(m, m.symbols[i as int]),
                        seeds@.len() <= 10,
                        total == cap11(
                            count_sym_seeds(m, ql, i as int) + list_live_count(
                                m,
                                m.symbols[i as int].1.take(j as int),
                            ),
                        ),
                        forall|x: int| 0 <= x < seeds@.len() ==> live_at(m, #[trigger] seeds@[x]),
                        ln > 0 && j > 0 ==> seeds@.len() > 0,
                    decreases ln - j,
                {
                    proof {
                        assert(crate::engine::handle_named_live(
                            m,
                            m.symbols[i as int].1[j as int],
                            m.symbols[i as int].0,
                        ));
                        assert(m.symbols[i as int].1.take(j + 1).drop_last() =~= m.symbols[
                            i as int
                        ].1.take(j as int));
                        assert(m.symbols[i as int].1.take(j + 1).last() == m.symbols[i as int].1[
                            j as int
                        ]);
                    }
                    let hh = self.symbol_index[i].1[j];
                    let live_h = self.is_live(hh);
                    if live_h {
                        if total <= 10 {
                            total += 1;
                        }
                        if seeds.len() < 10 {
                            seeds.push(hh);
                        } else {
                            proof {
                                assert(seeds@.len() > 0);
                            }
                        }
                    }
                    j += 1;
                }
                proof {
                    assert(m.symbols[i as int].1.take(ln as int) =~= m.symbols[i as int].1);
                    assert(m.symbols[i as int].1.len() > 0);
                    assert(seeds@.len() > 0);
                    assert(sym_entry_matches(m, ql, i as int));
                }
            }
            i += 1;
        }
        let over = total > 10;
        (seeds, over)
    }

    /// The file-match branch: report the matched files, the symbols
    /// they define, and (when `depth > 0`) one layer of connections
    /// out of those symbols. `seed_over` says whether the ten-seed
    /// limit already cut matches off.
    fn file_branch(
        &self,
        seeds: &Vec<usize>,
        depth: usize,
        ql_spec: Ghost<Seq<char>>,
        seed_over: bool,
    ) -> (r: GraphSearchResult)
        requires
            well_formed(self@),
            1 <= seeds@.len() <= 10,
            seeds@ == spec_file_seeds(self@, ql_spec@),
            forall|x: int|
                0 <= x < seeds@.len() ==> file_entry_matches(
                    self@,
                    ql_spec@,
                    (#[trigger] seeds@[x]) as int,
                ),
        ensures
            r.match_type@ == "file"@,
            r.matched_files@.len() <= 10,
            r.symbols@.len() <= 50,
            r.connections@.len() <= 100,
            r.truncated == (r.symbols@.len() >= 50 || r.connections@.len() >= 100 || seed_over),
            r.symbols@.len() < 50 ==> strings_view(r.matched_files@) == paths_of(
                self@,
                spec_file_seeds(self@, ql_spec@),
            ),
            r.symbols@.len() < 50 ==> syminfos_view(r.symbols@) == seeds_infos(
                self@,
                spec_file_seeds(self@, ql_spec@),
            ),
            files_sound(self@, ql_spec@, strings_view(r.matched_files@)),
            syms_sound(self@, syminfos_view(r.symbols@)),
            conns_sound(self@, conns_view(r.connections@)),
    {
        proof {
            lemma_model(self);
        }
        let ghost m = self@;
        let ghost ql = ql_spec@;
        let n = store_node_count(&self.graph);
        let edges = store_all_edges(&self.graph);
        let en = edges.len();
        let mut matched_files: Vec<String> = Vec::new();
        let mut symbols: Vec<SymbolInfo> = Vec::new();
        let mut layer: Vec<usize> = Vec::new();
        let ghost mut fis: Seq<int> = Seq::empty();
        let ghost mut hs: Seq<usize> = Seq::empty();
        let sl = seeds.len();
        let mut si: usize = 0;
        while si < sl
            invariant
                0 <= si <= sl,
                sl == seeds@.len() <= 10,
                m == self@,
                well_formed(m),
                en == edges@.len(),
                edges@ == m.edges,
                n == m.nodes.len(),
                forall|x: int|
                    0 <= x < seeds@.len() ==> file_entry_matches(
                        m,
                        ql,
                        (#[trigger] seeds@[x]) as int,
                    ),
                matched_files@.len() <= si,
                symbols@.len() <= 50,
                symbols@.len() < 50 ==> strings_view(matched_files@) == paths_of(
                    m,
                    seeds@.take(si as int),
                ),
                symbols@.len() < 50 ==> syminfos_view(symbols@) == seeds_infos(
                    m,
                    seeds@.take(si as int),
                ),
                fis.len() == matched_files@.len(),
                forall|x: int|
                    0 <= x < fis.len() ==> file_entry_matches(m, ql, #[trigger] fis[x])
                        && strings_view(matched_files@)[x] == m.files[fis[x]].0,
                hs.len() == symbols@.len(),
                forall|x: int|
                    0 <= x < hs.len() ==> live_at(m, #[trigger] hs[x]) && syminfos_view(symbols@)[x]
                        == syminfo_of(m, hs[x]),
                layer@.len() == hs.len(),
                forall|x: int| 0 <= x < layer@.len() ==> #[trigger] layer@[x] == hs[x],
            decreases sl - si,
        {
            proof {
                lemma_model(self);
            }
            if symbols.len() < 50 {
                let fi = seeds[si];
                proof {
                    assert(file_entry_matches(m, ql, fi as int));
                    assert(m.files[fi as int] == (
                        self.file_index@[fi as int].0@,
                        self.file_index@[fi as int].1,
                    ));
                }
                let fh = self.file_index[fi].1;
                let ghost mf0 = matched_files@;
                matched_files.push(self.file_index[fi].0.clone());
                let ghost fis0 = fis;
                proof {
                    fis = fis.push(fi as int);
                    assert forall|x: int|
                        0 <= x < fis.len() implies file_entry_matches(m, ql, #[trigger] fis[x])
                        && strings_view(matched_files@)[x] == m.files[fis[x]].0 by {
                        if x < fis.len() - 1 {
                            assert(fis[x] == fis0[x]);
                        }
                    }
                    assert(strings_view(mf0) == paths_of(m, seeds@.take(si as int)));
                    assert(fi == seeds@[si as int]);
                    assert forall|x: int|
                        0 <= x < si + 1 implies strings_view(matched_files@)[x] == paths_of(
                        m,
                        seeds@.take(si + 1),
                    )[x] by {
                        assert(seeds@.take(si + 1)[x] == seeds@[x]);
                        if x < si as int {
                            assert(strings_view(matched_files@)[x] == strings_view(mf0)[x]);
                            assert(strings_view(mf0)[x] == paths_of(m, seeds@.take(si as int))[x]);
                            assert(seeds@.take(si as int)[x] == seeds@[x]);
                        } else {
                            assert(strings_view(matched_files@)[x] == self.file_index@[
                                fi as int
                            ].0@);
                        }
                    }
                    assert(strings_view(matched_files@) =~= paths_of(m, seeds@.take(si + 1)));
                }
                let mut k: usize = 0;
                while k < en
                    invariant
                        0 <= k <= en,
                        en == edges@.len(),
                        edges@ == m.edges,
                        n == m.nodes.len(),
                        m == self@,
                        well_formed(m),
                        symbols@.len() <= 50,
                        (si as int) < seeds@.len(),
                        fi == seeds@[si as int],
                        (fi as int) < m.files.len(),
                        fh == m.files[fi as int].1,
                        symbols@.len() < 50 ==> syminfos_view(symbols@) == seeds_infos(
                            m,
                            seeds@.take(si as int),
                        ) + defines_infos(m, edges@.take(k as int), fh),
                        hs.len() == symbols@.len(),
                        forall|x: int|
                            0 <= x < hs.len() ==> live_at(m, #[trigger] hs[x]) && syminfos_view(
                                symbols@,
                            )[x] == syminfo_of(m, hs[x]),
                        layer@.len() == hs.len(),
                        forall|x: int| 0 <= x < layer@.len() ==> #[trigger] layer@[x] == hs[x],
                    decreases en - k,
                {
                    proof {
                        lemma_model(self);
                        assert((m.edges[k as int].1 as int) < m.nodes.len());
                        assert(edges@.take(k + 1).drop_last() =~= edges@.take(k as int));
                        assert(edges@.take(k + 1).last() == edges@[k as int]);
                    }
                    let e = edges[k];
                    if e.0 == fh && e.2 == EdgeKind::Defines && symbols.len() < 50 {
                        let t = e.1;
                        match store_get_node(&self.graph, t) {
                            Some(tn) => {
                                if !tn.removed {
                                    symbols.push(
                                        SymbolInfo {
                                            name: tn.name,
                                            kind: tn.kind,
                                            file: tn.file_path,
                                            line: tn.line_start,
                                            code: tn.code_snippet,
                                        },
                                    );
                                    layer.push(t);
                                    let ghost hs0 = hs;
                                    proof {
                                        hs = hs.push(t);
                                        assert forall|x: int|
                                            0 <= x < hs.len() implies live_at(
                                            m,
                                            #[trigger] hs[x],
                                        ) && syminfos_view(symbols@)[x] == syminfo_of(
                                            m,
                                            hs[x],
                                        ) by {
                                            if x < hs.len() - 1 {
                                                assert(hs[x] == hs0[x]);
                                                assert(symbols@[x] == symbols@.drop_last()[x]);
                                            }
                                        }
                                        assert(live_at(m, t));
                                        assert(tn@ == m.nodes[t as int]);
                                        assert(syminfos_view(symbols@).last() == syminfo_of(m, t));
                                        assert(syminfos_view(symbols@).drop_last() =~= seeds_infos(
                                            m,
                                            seeds@.take(si as int),
                                        ) + defines_infos(m, edges@.take(k as int), fh));
                                        assert(defines_infos(m, edges@.take(k + 1), fh)
                                            =~= defines_infos(m, edges@.take(k as int), fh).push(
                                            syminfo_of(m, t),
                                        ));
                                        assert(syminfos_view(symbols@) =~= (seeds_infos(
                                            m,
                                            seeds@.take(si as int),
                                        ) + defines_infos(m, edges@.take(k as int), fh)).push(
                                            syminfo_of(m, t),
                                        ));
                                        assert((seeds_infos(m, seeds@.take(si as int))
                                            + defines_infos(m, edges@.take(k as int), fh)).push(
                                            syminfo_of(m, t),
                                        ) =~= seeds_infos(m, seeds@.take(si as int))
                                            + defines_infos(m, edges@.take(k as int), fh).push(
                                            syminfo_of(m, t),
                                        ));
                                        assert(syminfos_view(symbols@) == seeds_infos(
                                            m,
                                            seeds@.take(si as int),
                                        ) + defines_infos(m, edges@.take(k + 1), fh));
                                    }
                                } else {
                                    proof {
                                        assert(!live_at(m, t));
                                        if symbols@.len() < 50 {
                                            assert(syminfos_view(symbols@) =~= seeds_infos(
                                                m,
                                                seeds@.take(si as int),
                                            ) + defines_infos(m, edges@.take(k + 1), fh));
                                        }
                                    }
                                }
                            },
                            None => {
                                proof {
                                    assert(false);
                                }
                            },
                        }
                    } else {
                        proof {
                            if symbols@.len() < 50 {
                                assert(syminfos_view(symbols@) =~= seeds_infos(
                                    m,
                                    seeds@.take(si as int),
                                ) + defines_infos(m, edges@.take(k + 1), fh));
                            }
                        }
                    }
                    k += 1;
                }
                proof {
                    assert(edges@.take(en as int) =~= edges@);
                    assert(seeds@.take(si + 1).drop_last() =~= seeds@.take(si as int));
                    assert(seeds@.take(si + 1).last() == seeds@[si as int]);
                    if symbols@.len() < 50 {
                        assert(syminfos_view(symbols@) =~= seeds_infos(m, seeds@.take(si + 1)));
                    }
                }
            }
            si += 1;
        }
        proof {
            assert(seeds@.take(sl as int) =~= seeds@);
        }
        // one layer of connections outward
        let mut conns: Vec<ConnectionInfo> = Vec::new();
        let ghost mut ks: Seq<int> = Seq::empty();
        if depth > 0 {
            let mut visited: Vec<bool> = Vec::new();
            let mut z: usize = 0;
            while z < n
                invariant
                    0 <= z <= n,
                    visited@.len() == z,
                decreases n - z,
            {
                visited.push(false);
                z += 1;
            }
            let ln = layer.len();
            let mut li: usize = 0;
            while li < ln
                invariant
                    0 <= li <= ln,
                    ln == layer@.len(),
                    visited@.len() == n,
                    n == m.nodes.len(),
                decreases ln - li,
            {
                let t = layer[li];
                if t < n {
                    visited[t] = true;
                }
                li += 1;
            }
            let mut li: usize = 0;
            while li < ln
                invariant
                    0 <= li <= ln,
                    ln == layer@.len(),
                    m == self@,
                    well_formed(m),
                    en == edges@.len(),
                    edges@ == m.edges,
                    n == m.nodes.len(),
                    visited@.len() == n,
                    forall|x: int| 0 <= x < layer@.len() ==> live_at(m, #[trigger] layer@[x]),
                    conns@.len() <= 100,
                    ks.len() == conns@.len(),
                    forall|x: int|
                        0 <= x < ks.len() ==> conn_backed(
                            m,
                            conns_view(conns@)[x],
                            #[trigger] ks[x],
                        ),
                decreases ln - li,
            {
                let idx = layer[li];
                proof {
                    lemma_model(self);
                }
                let cur = match store_get_node(&self.graph, idx) {
                    Some(c) => c,
                    None => {
                        proof {
                            assert(false);
                        }
                        unreached()
                    },
                };
                let mut k: usize = 0;
                while k < en
                    invariant
                        0 <= k <= en,
                        en == edges@.len(),
                        edges@ == m.edges,
                        n == m.nodes.len(),
                        m == self@,
                        well_formed(m),
                        visited@.len() == n,
                        (idx as int) < n,
                        live_at(m, idx),
                        cur@ == m.nodes[idx as int],
                        conns@.len() <= 100,
                        ks.len() == conns@.len(),
                        forall|x: int|
                            0 <= x < ks.len() ==> conn_backed(
                                m,
                                conns_view(conns@)[x],
                                #[trigger] ks[x],
                            ),
                    decreases en - k,
                {
                    proof {
                        lemma_model(self);
                        assert((m.edges[k as int].0 as int) < m.nodes.len() && (
                        m.edges[k as int].1 as int) < m.nodes.len());
                    }
                    let e = edges[k];
                    if conns.len() < 100 {
                        if e.0 == idx {
                            let t = e.1;
                            let tlive = self.is_live(t);
                            if tlive && !visited[t] {
                                visited[t] = true;
                                match store_get_node(&self.graph, t) {
                                    Some(tn) => {
                                        if cur.kind != NodeKind::File && tn.kind
                                            != NodeKind::File {
                                            conns.push(
                                                ConnectionInfo {
                                                    from: cur.name.clone(),
                                                    to: tn.name,
                                                    relationship: e.2,
                                                },
                                            );
                                            let ghost ks0 = ks;
                                            proof {
                                                ks = ks.push(k as int);
                                                assert forall|x: int|
                                                    0 <= x < ks.len() implies conn_backed(
                                                    m,
                                                    conns_view(conns@)[x],
                                                    #[trigger] ks[x],
                                                ) by {
                                                    if x < ks.len() - 1 {
                                                        assert(ks[x] == ks0[x]);
                                                        assert(conns@[x] == conns@.drop_last()[x]);
                                                    }
                                                }
                                            }
                                        }
                                    },
                                    None => {
                                        proof {
                                            assert(false);
                                        }
                                    },
                                }
                            }
                        } else if e.1 == idx {
                            let s = e.0;
                            let slive = self.is_live(s);
                            if slive && !visited[s] {
                                visited[s] = true;
                                match store_get_node(&self.graph, s) {
                                    Some(sn) => {
                                        if cur.kind != NodeKind::File && sn.kind
                                            != NodeKind::File {
                                            conns.push(
                                                ConnectionInfo {
                                                    from: sn.name,
                                                    to: cur.name.clone(),
                                                    relationship: e.2,
                                                },
                                            );
                                            let ghost ks0 = ks;
                                            proof {
                                                ks = ks.push(k as int);
                                                assert forall|x: int|
                                                    0 <= x < ks.len() implies conn_backed(
                                                    m,
                                                    conns_view(conns@)[x],
                                                    #[trigger] ks[x],
                                                ) by {
                                                    if x < ks.len() - 1 {
                                                        assert(ks[x] == ks0[x]);
                                                        assert(conns@[x] == conns@.drop_last()[x]);
                                                    }
                                                }
                                            }
                                        }
                                    },
                                    None => {
                                        proof {
                                            assert(false);
                                        }
                                    },
                                }
                            }
                        }
                    }
                    k += 1;
                }
                li += 1;
            }
        }
        let truncated = symbols.len() >= 50 || conns.len() >= 100 || seed_over;
        let r = GraphSearchResult {
            match_type: "file".to_owned(),
            matched_files,
            symbols,
            connections: conns,
            truncated,
        };
        proof {
            assert(strings_view(r.matched_files@).len() == fis.len());
            assert forall|x: int|
                0 <= x < fis.len() implies file_entry_matches(self@, ql_spec@, #[trigger] fis[x])
                && strings_view(r.matched_files@)[x] == self@.files[fis[x]].0 by {}
            lemma_files_sound_intro(self@, ql_spec@, strings_view(r.matched_files@), fis);
            assert forall|x: int|
                0 <= x < syminfos_view(r.symbols@).len() implies info_sound(
                self@,
                #[trigger] syminfos_view(r.symbols@)[x],
            ) by {
                let wh = hs[x];
                assert(live_at(self@, wh) && syminfos_view(r.symbols@)[x] == syminfo_of(
                    self@,
                    wh,
                ));
            }
            assert(syms_sound(self@, syminfos_view(r.symbols@)));
            assert forall|x: int|
                0 <= x < conns_view(r.connections@).len() implies conn_ok(
                self@,
                #[trigger] conns_view(r.connections@)[x],
            ) by {
                let wk = ks[x];
                assert(conn_backed(self@, conns_view(r.connections@)[x], wk));
            }
            assert(conns_sound(self@, conns_view(r.connections@)));
        }
        r
    }

    /// The symbol-match branch: breadth-first traversal from the seed
    /// symbols, up to `depth` hops in both edge directions.
    fn bfs_branch(&self, seeds: Vec<usize>, depth: usize, seed_over: bool) -> (r:
        GraphSearchResult)
        requires
            well_formed(self@),
            1 <= seeds@.len() <= 10,
            forall|x: int| 0 <= x < seeds@.len() ==> live_at(self@, #[trigger] seeds@[x]),
        ensures
            r.match_type@ == "symbol"@,
            r.matched_files@.len() == 0,
            r.symbols@.len() <= 50,
            r.connections@.len() <= 100,
            r.truncated == (r.symbols@.len() >= 50 || r.connections@.len() >= 100 || seed_over),
            syms_sound(self@, syminfos_view(r.symbols@)),
            conns_sound(self@, conns_view(r.connections@)),
    {
        proof {
            lemma_model(self);
        }
        let ghost m = self@;
        let n = store_node_count(&self.graph);
        let edges = store_all_edges(&self.graph);
        let en = edges.len();
        let mut visited: Vec<bool> = Vec::new();
        let mut z: usize = 0;
        while z < n
            invariant
                0 <= z <= n,
                visited@.len() == z,
                forall|q: int| 0 <= q < z ==> (#[trigger] visited@[q]) == false,
            decreases n - z,
        {
            visited.push(false);
            z += 1;
        }
        proof {
            assert(count_true(visited@) <= visited@.len()) by {
                lemma_count_true_le(visited@);
            }
        }
        let mut queue: Vec<(usize, usize)> = Vec::new();
        let ghost mut vcount: nat = count_true(visited@);
        let sl = seeds.len();
        let mut si: usize = 0;
        while si < sl
            invariant
                0 <= si <= sl,
                sl == seeds@.len(),
                m == self@,
                n == m.nodes.len(),
                visited@.len() == n,
                vcount == count_true(visited@),
                queue@.len() <= vcount,
                vcount <= n,
                forall|x: int| 0 <= x < seeds@.len() ==> live_at(m, #[trigger] seeds@[x]),
                forall|x: int|
                    0 <= x < queue@.len() ==> live_at(m, (#[trigger] queue@[x]).0),
            decreases sl - si,
        {
            let s = seeds[si];
            proof {
                assert(live_at(m, s));
            }
            if !visited[s] {
                let ghost v0 = visited@;
                visited[s] = true;
                proof {
                    lemma_count_true_update(v0, s as int);
                    vcount = vcount + 1;
                    lemma_count_true_le(visited@);
                }
                queue.push((s, 0));
            }
            si += 1;
        }
        let mut symbols: Vec<SymbolInfo> = Vec::new();
        let mut conns: Vec<ConnectionInfo> = Vec::new();
        let ghost mut hs: Seq<usize> = Seq::empty();
        let ghost mut ks: Seq<int> = Seq::empty();
        let mut qhead: usize = 0;
        while qhead < queue.len()
            invariant
                m == self@,
                well_formed(m),
                n == m.nodes.len(),
                en == edges@.len(),
                edges@ == m.edges,
                visited@.len() == n,
                vcount == count_true(visited@),
                queue@.len() <= vcount,
                vcount <= n,
                qhead <= queue@.len(),
                forall|x: int|
                    0 <= x < queue@.len() ==> live_at(m, (#[trigger] queue@[x]).0),
                symbols@.len() <= 50,
                conns@.len() <= 100,
                hs.len() == symbols@.len(),
                forall|x: int|
                    0 <= x < hs.len() ==> live_at(m, #[trigger] hs[x]) && syminfos_view(symbols@)[x]
                        == syminfo_of(m, hs[x]),
                ks.len() == conns@.len(),
                forall|x: int|
                    0 <= x < ks.len() ==> conn_backed(m, conns_view(conns@)[x], #[trigger] ks[x]),
            decreases n - qhead,
        {
            let (idx, d) = queue[qhead];
            qhead += 1;
            proof {
                lemma_model(self);
                assert(live_at(m, idx));
            }
            let cur = match store_get_node(&self.graph, idx) {
                Some(c) => c,
                None => {
                    proof {
                        assert(false);
                    }
                    unreached()
                },
            };
            if cur.kind != NodeKind::File && symbols.len() < 50 {
                symbols.push(
                    SymbolInfo {
                        name: cur.name.clone(),
                        kind: cur.kind,
                        file: cur.file_path.clone(),
                        line: cur.line_start,
                        code: cur.code_snippet.clone(),
                    },
                );
                let ghost hs0 = hs;
                proof {
                    hs = hs.push(idx);
                    assert forall|x: int|
                        0 <= x < hs.len() implies live_at(m, #[trigger] hs[x]) && syminfos_view(
                        symbols@,
                    )[x] == syminfo_of(m, hs[x]) by {
                        if x < hs.len() - 1 {
                            assert(hs[x] == hs0[x]);
                            assert(symbols@[x] == symbols@.drop_last()[x]);
                        }
                    }
                }
            }
            if d < depth && conns.len() < 100 {
                let mut k: usize = 0;
                while k < en
                    invariant
                        0 <= k <= en,
                        en == edges@.len(),
                        edges@ == m.edges,
                        n == m.nodes.len(),
                        m == self@,
                        well_formed(m),
                        visited@.len() == n,
                        vcount == count_true(visited@),
                        queue@.len() <= vcount,
                        vcount <= n,
                        qhead <= queue@.len(),
                        (idx as int) < n,
                        live_at(m, idx),
                        cur@ == m.nodes[idx as int],
                        d < depth,
                        forall|x: int|
                            0 <= x < queue@.len() ==> live_at(m, (#[trigger] queue@[x]).0),
                        conns@.len() <= 100,
                        ks.len() == conns@.len(),
                        forall|x: int|
                            0 <= x < ks.len() ==> conn_backed(
                                m,
                                conns_view(conns@)[x],
                                #[trigger] ks[x],
                            ),
                    decreases en - k,
                {
                    proof {
                        lemma_model(self);
                        assert((m.edges[k as int].0 as int) < m.nodes.len() && (
                        m.edges[k as int].1 as int) < m.nodes.len());
                    }
                    let e = edges[k];
                    if conns.len() < 100 {
                        let (nbr, is_out) = if e.0 == idx {
                            (e.1, true)
                        } else if e.1 == idx {
                            (e.0, false)
                        } else {
                            (0usize, false)
                        };
                        if e.0 == idx || e.1 == idx {
                            let nlive = self.is_live(nbr);
                            if nlive && !visited[nbr] {
                                let ghost v0 = visited@;
                                visited[nbr] = true;
                                proof {
                                    lemma_count_true_update(v0, nbr as int);
                                    vcount = vcount + 1;
                                    lemma_count_true_le(visited@);
                                }
                                queue.push((nbr, d + 1));
                                match store_get_node(&self.graph, nbr) {
                                    Some(nn) => {
                                        if cur.kind != NodeKind::File && nn.kind
                                            != NodeKind::File {
                                            let c = if is_out {
                                                ConnectionInfo {
                                                    from: cur.name.clone(),
                                                    to: nn.name,
                                                    relationship: e.2,
                                                }
                                            } else {
                                                ConnectionInfo {
                                                    from: nn.name,
                                                    to: cur.name.clone(),
                                                    relationship: e.2,
                                                }
                                            };
                                            conns.push(c);
                                            let ghost ks0 = ks;
                                            proof {
                                                ks = ks.push(k as int);
                                                assert forall|x: int|
                                                    0 <= x < ks.len() implies conn_backed(
                                                    m,
                                                    conns_view(conns@)[x],
                                                    #[trigger] ks[x],
                                                ) by {
                                                    if x < ks.len() - 1 {
                                                        assert(ks[x] == ks0[x]);
                                                        assert(conns@[x] == conns@.drop_last()[x]);
                                                    }
                                                }
                                            }
                                        }
                                    },
                                    None => {
                                        proof {
                                            assert(false);
                                        }
                                    },
                                }
                            }
                        }
                    }
                    k += 1;
                }
            }
        }
        let truncated = symbols.len() >= 50 || conns.len() >= 100 || seed_over;
        let r = GraphSearchResult {
            match_type: "symbol".to_owned(),
            matched_files: Vec::new(),
            symbols,
            connections: conns,
            truncated,
        };
        proof {
            assert forall|x: int|
                0 <= x < syminfos_view(r.symbols@).len() implies info_sound(
                self@,
                #[trigger] syminfos_view(r.symbols@)[x],
            ) by {
                let wh = hs[x];
                assert(live_at(self@, wh) && syminfos_view(r.symbols@)[x] == syminfo_of(
                    self@,
                    wh,
                ));
            }
            assert(syms_sound(self@, syminfos_view(r.symbols@)));
            assert forall|x: int|
                0 <= x < conns_view(r.connections@).len() implies conn_ok(
                self@,
                #[trigger] conns_view(r.connections@)[x],
            ) by {
                let wk = ks[x];
                assert(conn_backed(self@, conns_view(r.connections@)[x], wk));
            }
            assert(conns_sound(self@, conns_view(r.connections@)));
        }
        r
    }

    /// Graph-aware search: match file paths first, then symbol names;
    /// walk outward from the matches up to `depth` hops. At most 10
    /// seed matches, 50 symbols and 100 connections are reported, and
    /// `truncated` says whether any limit was hit: the seed cut, the
    /// symbol cap, or the connection cap.
    pub fn search_graph(&self, query: &str, depth: usize) -> (r: GraphSearchResult)
        requires
            well_formed(self@),
        ensures
            r.match_type@ == spec_match_type(self@, lower_of(query@)),
            r.matched_files@.len() <= 10,
            r.symbols@.len() <= 50,
            r.connections@.len() <= 100,
            r.truncated == (r.symbols@.len() >= 50 || r.connections@.len() >= 100
                || (any_file_match(self@, lower_of(query@)) && count_file_matches(
                self@,
                lower_of(query@),
                self@.files.len() as int,
            ) > 10) || (!any_file_match(self@, lower_of(query@)) && count_sym_seeds(
                self@,
                lower_of(query@),
                self@.symbols.len() as int,
            ) > 10)),
            any_file_match(self@, lower_of(query@)) && r.symbols@.len() < 50 ==> strings_view(
                r.matched_files@,
            ) == paths_of(self@, spec_file_seeds(self@, lower_of(query@))),
            files_sound(self@, lower_of(query@), strings_view(r.matched_files@)),
            syms_sound(self@, syminfos_view(r.symbols@)),
            conns_sound(self@, conns_view(r.connections@)),
            !any_file_match(self@, lower_of(query@)) && !any_sym_match(self@, lower_of(query@))
                ==> r.matched_files@.len() == 0 && r.symbols@.len() == 0 && r.connections@.len()
                == 0,
    {
        let ql_string = to_lower(query);
        let qlv = to_char_vec(ql_string.as_str());
        let ghost ql = lower_of(query@);
        let (file_seeds, file_over) = self.collect_file_matches(&qlv, Ghost(ql));
        if file_seeds.len() > 0 {
            return self.file_branch(&file_seeds, depth, Ghost(ql), file_over);
        }
        let (sym_seeds, sym_over) = self.collect_symbol_seeds(&qlv, Ghost(ql));
        if sym_seeds.len() > 0 {
            return self.bfs_branch(sym_seeds, depth, sym_over);
        }
        proof {
            lemma_no_match_no_seed_candidates(self@, ql, self@.symbols.len() as int);
        }
        GraphSearchResult {
            match_type: "none".to_owned(),
            matched_files: Vec::new(),
            symbols: Vec::new(),
            connections: Vec::new(),
            truncated: false,
        }
    }
}

} // verus!
