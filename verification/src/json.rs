//! JSON output: string escaping, decimal rendering, and the exact
//! serialized form of every response the library hands out.

use vstd::prelude::*;
use vstd::string::StringExecFns;

use crate::engine::GraphStats;
use crate::facade::{
    ContextResponse, DependencyReport, FileSymbolsResponse, SearchResponse, StatsResponse,
};
use crate::search::{
    deps_view, nodes_view, refs_view, results_view, strings_view, DepView, RefView, ResultView,
};
use crate::strutil::to_char_vec;
use crate::types::{edge_label, kind_label, NodeView};

verus! {

/// How one character is escaped inside a JSON string.
pub open spec fn esc_char(c: char) -> Seq<char> {
    if c == '"' {
        seq!['\\', '"']
    } else if c == '\\' {
        seq!['\\', '\\']
    } else if c == '\n' {
        seq!['\\', 'n']
    } else if c == '\r' {
        seq!['\\', 'r']
    } else if c == '\t' {
        seq!['\\', 't']
    } else {
        seq![c]
    }
}

/// A string escaped for a JSON literal.
pub open spec fn spec_esc(s: Seq<char>) -> Seq<char>
    decreases s.len(),
{
    if s.len() == 0 {
        Seq::empty()
    } else {
        spec_esc(s.drop_last()) + esc_char(s.last())
    }
}

/// Escape a string for embedding in a JSON literal.
pub fn json_escape(s: &str) -> (r: String)
    ensures
        r@ == spec_esc(s@),
{
    let v = to_char_vec(s);
    let n = v.len();
    let mut out: Vec<char> = Vec::new();
    let mut i: usize = 0;
    while i < n
        invariant
            0 <= i <= n,
            n == v@.len(),
            out@ == spec_esc(v@.take(i as int)),
        decreases n - i,
    {
        proof {
            assert(v@.take(i + 1).drop_last() =~= v@.take(i as int));
            assert(v@.take(i + 1).last() == v@[i as int]);
        }
        let c = v[i];
        if c == '"' {
            out.push('\\');
            out.push('"');
        } else if c == '\\' {
            out.push('\\');
            out.push('\\');
        } else if c == '\n' {
            out.push('\\');
            out.push('n');
        } else if c == '\r' {
            out.push('\\');
            out.push('r');
        } else if c == '\t' {
            out.push('\\');
            out.push('t');
        } else {
            out.push(c);
        }
        i += 1;
        proof {
            assert(out@ =~= spec_esc(v@.take(i as int)));
        }
    }
    proof {
        assert(v@.take(n as int) =~= v@);
    }
    crate::strutil::string_from_chars(&out)
}

/// The character of one decimal digit.
pub open spec fn digit_char(d: nat) -> char {
    if d == 0 {
        '0'
    } else if d == 1 {
        '1'
    } else if d == 2 {
        '2'
    } else if d == 3 {
        '3'
    } else if d == 4 {
        '4'
    } else if d == 5 {
        '5'
    } else if d == 6 {
        '6'
    } else if d == 7 {
        '7'
    } else if d == 8 {
        '8'
    } else {
        '9'
    }
}

/// The decimal rendering of a number.
pub open spec fn spec_dec(n: nat) -> Seq<char>
    decreases n,
{
    if n < 10 {
        seq![digit_char(n)]
    } else {
        spec_dec(n / 10) + seq![digit_char(n % 10)]
    }
}

fn digit_exec(d: u64) -> (r: char)
    requires
        d < 10,
    ensures
        r == digit_char(d as nat),
{
    if d == 0 {
        '0'
    } else if d == 1 {
        '1'
    } else if d == 2 {
        '2'
    } else if d == 3 {
        '3'
    } else if d == 4 {
        '4'
    } else if d == 5 {
        '5'
    } else if d == 6 {
        '6'
    } else if d == 7 {
        '7'
    } else if d == 8 {
        '8'
    } else {
        '9'
    }
}

/// Render a number in decimal.
pub fn u64_string(x: u64) -> (r: String)
    ensures
        r@ == spec_dec(x as nat),
{
    let mut v = x;
    let mut digits: Vec<char> = Vec::new();
    while v >= 10
        invariant
            spec_dec(x as nat) == spec_dec(v as nat) + digits@.reverse(),
        decreases v,
    {
        let d = v % 10;
        let ghost digits0 = digits@;
        digits.push(digit_exec(d));
        v = v / 10;
        proof {
            assert(digits@.reverse() =~= seq![digit_char(d as nat)] + digits0.reverse());
            assert(spec_dec(v as nat) + digits@.reverse() =~= (spec_dec(v as nat) + seq![
                digit_char(d as nat),
            ]) + digits0.reverse());
        }
    }
    let ghost digits1 = digits@;
    digits.push(digit_exec(v));
    proof {
        assert(digits@.reverse() =~= seq![digit_char(v as nat)] + digits1.reverse());
        assert(spec_dec(v as nat) =~= seq![digit_char(v as nat)]);
        assert(digits@.reverse() =~= spec_dec(x as nat));
    }
    let dn = digits.len();
    let mut out: Vec<char> = Vec::new();
    let mut k: usize = dn;
    while k > 0
        invariant
            0 <= k <= dn,
            dn == digits@.len(),
            out@ == digits@.subrange(k as int, dn as int).reverse(),
        decreases k,
    {
        k -= 1;
        proof {
            assert(digits@.subrange(k as int, dn as int) =~= seq![digits@[k as int]]
                + digits@.subrange(k + 1, dn as int));
            assert(digits@.subrange(k as int, dn as int).reverse() =~= digits@.subrange(
                k + 1,
                dn as int,
            ).reverse().push(digits@[k as int]));
        }
        out.push(digits[k]);
    }
    proof {
        assert(digits@.subrange(0, dn as int) =~= digits@);
        assert(out@ =~= spec_dec(x as nat));
    }
    crate::strutil::string_from_chars(&out)
}

/// `true` or `false`.
pub open spec fn spec_bool(b: bool) -> Seq<char> {
    if b {
        "true"@
    } else {
        "false"@
    }
}

fn bool_str(b: bool) -> (r: &'static str)
    ensures
        r@ == spec_bool(b),
{
    if b {
        "true"
    } else {
        "false"
    }
}

// ─── Response shapes ────────────────────────────────────────────

pub open spec fn spec_ref_json(r: RefView) -> Seq<char> {
    "{\"name\":\""@ + spec_esc(r.name) + "\",\"file\":\""@ + spec_esc(r.file) + "\",\"line\":"@
        + spec_dec(r.line as nat) + "}"@
}

pub open spec fn spec_refs_json(rs: Seq<RefView>) -> Seq<char>
    decreases rs.len(),
{
    if rs.len() == 0 {
        Seq::empty()
    } else if rs.len() == 1 {
        spec_ref_json(rs[0])
    } else {
        spec_refs_json(rs.drop_last()) + ","@ + spec_ref_json(rs.last())
    }
}

pub open spec fn spec_strs_json(ss: Seq<Seq<char>>) -> Seq<char>
    decreases ss.len(),
{
    if ss.len() == 0 {
        Seq::empty()
    } else if ss.len() == 1 {
        "\""@ + spec_esc(ss[0]) + "\""@
    } else {
        spec_strs_json(ss.drop_last()) + ",\""@ + spec_esc(ss.last()) + "\""@
    }
}

pub open spec fn spec_result_json(r: ResultView) -> Seq<char> {
    "{\"symbol\":\""@ + spec_esc(r.symbol) + "\",\"kind\":\""@ + kind_label(r.kind)
        + "\",\"file\":\""@ + spec_esc(r.file) + "\",\"line_start\":"@ + spec_dec(
        r.line_start as nat,
    ) + ",\"line_end\":"@ + spec_dec(r.line_end as nat) + ",\"code\":\""@ + spec_esc(r.code)
        + "\",\"calls\":["@ + spec_refs_json(r.calls) + "],\"called_by\":["@ + spec_refs_json(
        r.called_by,
    ) + "],\"imports\":["@ + spec_strs_json(r.imports) + "]}"@
}

pub open spec fn spec_results_json(rs: Seq<ResultView>) -> Seq<char>
    decreases rs.len(),
{
    if rs.len() == 0 {
        Seq::empty()
    } else if rs.len() == 1 {
        spec_result_json(rs[0])
    } else {
        spec_results_json(rs.drop_last()) + ","@ + spec_result_json(rs.last())
    }
}

pub open spec fn spec_search_response_json(found: bool, count: nat, rs: Seq<ResultView>) -> Seq<
    char,
> {
    "{\"found\":"@ + spec_bool(found) + ",\"count\":"@ + spec_dec(count) + ",\"results\":["@
        + spec_results_json(rs) + "]}"@
}

pub open spec fn spec_dep_json(d: DepView) -> Seq<char> {
    "{\"symbol\":\""@ + spec_esc(d.symbol) + "\",\"kind\":\""@ + kind_label(d.kind)
        + "\",\"file\":\""@ + spec_esc(d.file) + "\",\"line\":"@ + spec_dec(d.line as nat)
        + ",\"relationship\":\""@ + edge_label(d.relationship) + "\"}"@
}

pub open spec fn spec_deps_json(ds: Seq<DepView>) -> Seq<char>
    decreases ds.len(),
{
    if ds.len() == 0 {
        Seq::empty()
    } else if ds.len() == 1 {
        spec_dep_json(ds[0])
    } else {
        spec_deps_json(ds.drop_last()) + ","@ + spec_dep_json(ds.last())
    }
}

pub open spec fn spec_report_json(deps: Seq<DepView>, dents: Seq<DepView>) -> Seq<char> {
    "{\"dependencies\":["@ + spec_deps_json(deps) + "],\"dependents\":["@ + spec_deps_json(dents)
        + "]}"@
}

pub open spec fn spec_stats_json(st: GraphStats) -> Seq<char> {
    "{\"stats\":{\"total_nodes\":"@ + spec_dec(st.total_nodes as nat) + ",\"total_edges\":"@
        + spec_dec(st.total_edges as nat) + ",\"file_count\":"@ + spec_dec(st.file_count as nat)
        + ",\"symbol_count\":"@ + spec_dec(st.symbol_count as nat) + ",\"unique_symbol_names\":"@
        + spec_dec(st.unique_symbol_names as nat) + "}}"@
}

pub open spec fn spec_node_json(n: NodeView) -> Seq<char> {
    "{\"name\":\""@ + spec_esc(n.name) + "\",\"kind\":\""@ + kind_label(n.kind)
        + "\",\"file\":\""@ + spec_esc(n.file_path) + "\",\"line_start\":"@ + spec_dec(
        n.line_start as nat,
    ) + ",\"line_end\":"@ + spec_dec(n.line_end as nat) + "}"@
}

pub open spec fn spec_nodes_json(ns: Seq<NodeView>) -> Seq<char>
    decreases ns.len(),
{
    if ns.len() == 0 {
        Seq::empty()
    } else if ns.len() == 1 {
        spec_node_json(ns[0])
    } else {
        spec_nodes_json(ns.drop_last()) + ","@ + spec_node_json(ns.last())
    }
}

pub open spec fn spec_file_symbols_json(found: bool, file: Seq<char>, ns: Seq<NodeView>) -> Seq<
    char,
> {
    "{\"found\":"@ + spec_bool(found) + ",\"file\":\""@ + spec_esc(file) + "\",\"symbols\":["@
        + spec_nodes_json(ns) + "]}"@
}

pub open spec fn spec_context_json(found: bool, intent: Seq<char>, rs: Seq<ResultView>) -> Seq<
    char,
> {
    "{\"found\":"@ + spec_bool(found) + ",\"intent\":\""@ + spec_esc(intent) + "\",\"symbols\":["@
        + spec_results_json(rs) + "]}"@
}

// ─── Builders ───────────────────────────────────────────────────

fn append_ref(out: &mut String, r: &crate::search::SymbolRef)
    ensures
        final(out)@ == old(out)@ + spec_ref_json(r@),
{
    out.append("{\"name\":\"");
    let e = json_escape(r.name.as_str());
    out.append(e.as_str());
    out.append("\",\"file\":\"");
    let e2 = json_escape(r.file.as_str());
    out.append(e2.as_str());
    out.append("\",\"line\":");
    let d = u64_string(r.line as u64);
    out.append(d.as_str());
    out.append("}");
    proof {
        assert(out@ =~= old(out)@ + spec_ref_json(r@));
    }
}

fn append_refs(out: &mut String, rs: &Vec<crate::search::SymbolRef>)
    ensures
        final(out)@ == old(out)@ + spec_refs_json(refs_view(rs@)),
{
    let n = rs.len();
    let mut i: usize = 0;
    while i < n
        invariant
            0 <= i <= n,
            n == rs@.len(),
            out@ == old(out)@ + spec_refs_json(refs_view(rs@).take(i as int)),
        decreases n - i,
    {
        proof {
            assert(refs_view(rs@).take(i + 1).drop_last() =~= refs_view(rs@).take(i as int));
            assert(refs_view(rs@).take(i + 1).last() == rs@[i as int]@);
        }
        if i > 0 {
            out.append(",");
        }
        append_ref(out, &rs[i]);
        i += 1;
        proof {
            assert(out@ =~= old(out)@ + spec_refs_json(refs_view(rs@).take(i as int)));
        }
    }
    proof {
        assert(refs_view(rs@).take(n as int) =~= refs_view(rs@));
        assert(out@ =~= old(out)@ + spec_refs_json(refs_view(rs@)));
    }
}

fn append_strs(out: &mut String, ss: &Vec<String>)
    ensures
        final(out)@ == old(out)@ + spec_strs_json(strings_view(ss@)),
{
    let n = ss.len();
    let mut i: usize = 0;
    while i < n
        invariant
            0 <= i <= n,
            n == ss@.len(),
            out@ == old(out)@ + spec_strs_json(strings_view(ss@).take(i as int)),
        decreases n - i,
    {
        proof {
            assert(strings_view(ss@).take(i + 1).drop_last() =~= strings_view(ss@).take(i as int));
            assert(strings_view(ss@).take(i + 1).last() == ss@[i as int]@);
        }
        if i > 0 {
            out.append(",\"");
        } else {
            out.append("\"");
        }
        let e = json_escape(ss[i].as_str());
        out.append(e.as_str());
        out.append("\"");
        i += 1;
        proof {
            assert(out@ =~= old(out)@ + spec_strs_json(strings_view(ss@).take(i as int)));
        }
    }
    proof {
        assert(strings_view(ss@).take(n as int) =~= strings_view(ss@));
        assert(out@ =~= old(out)@ + spec_strs_json(strings_view(ss@)));
    }
}

fn append_result(out: &mut String, r: &crate::search::SearchResult)
    ensures
        final(out)@ == old(out)@ + spec_result_json(r@),
{
    out.append("{\"symbol\":\"");
    let e = json_escape(r.symbol.as_str());
    out.append(e.as_str());
    out.append("\",\"kind\":\"");
    out.append(r.kind.label());
    out.append("\",\"file\":\"");
    let e2 = json_escape(r.file.as_str());
    out.append(e2.as_str());
    out.append("\",\"line_start\":");
    let d1 = u64_string(r.line_start as u64);
    out.append(d1.as_str());
    out.append(",\"line_end\":");
    let d2 = u64_string(r.line_end as u64);
    out.append(d2.as_str());
    out.append(",\"code\":\"");
    let e3 = json_escape(r.code.as_str());
    out.append(e3.as_str());
    out.append("\",\"calls\":[");
    append_refs(out, &r.calls);
    out.append("],\"called_by\":[");
    append_refs(out, &r.called_by);
    out.append("],\"imports\":[");
    append_strs(out, &r.imports);
    out.append("]}");
    proof {
        assert(out@ =~= old(out)@ + spec_result_json(r@));
    }
}

fn append_results(out: &mut String, rs: &Vec<crate::search::SearchResult>)
    ensures
        final(out)@ == old(out)@ + spec_results_json(results_view(rs@)),
{
    let n = rs.len();
    let mut i: usize = 0;
    while i < n
        invariant
            0 <= i <= n,
            n == rs@.len(),
            out@ == old(out)@ + spec_results_json(results_view(rs@).take(i as int)),
        decreases n - i,
    {
        proof {
            assert(results_view(rs@).take(i + 1).drop_last() =~= results_view(rs@).take(i as int));
            assert(results_view(rs@).take(i + 1).last() == rs@[i as int]@);
        }
        if i > 0 {
            out.append(",");
        }
        append_result(out, &rs[i]);
        i += 1;
        proof {
            assert(out@ =~= old(out)@ + spec_results_json(results_view(rs@).take(i as int)));
        }
    }
    proof {
        assert(results_view(rs@).take(n as int) =~= results_view(rs@));
        assert(out@ =~= old(out)@ + spec_results_json(results_view(rs@)));
    }
}

/// Serialize a search response.
pub fn search_response_json(r: &SearchResponse) -> (s: String)
    ensures
        s@ == spec_search_response_json(r.found, r.count as nat, results_view(r.results@)),
{
    let mut out = String::new();
    out.append("{\"found\":");
    out.append(bool_str(r.found));
    out.append(",\"count\":");
    let d = u64_string(r.count as u64);
    out.append(d.as_str());
    out.append(",\"results\":[");
    append_results(&mut out, &r.results);
    out.append("]}");
    proof {
        assert(out@ =~= spec_search_response_json(
            r.found,
            r.count as nat,
            results_view(r.results@),
        ));
    }
    out
}

fn append_dep(out: &mut String, d: &crate::search::DependencyInfo)
    ensures
        final(out)@ == old(out)@ + spec_dep_json(d@),
{
    out.append("{\"symbol\":\"");
    let e = json_escape(d.symbol.as_str());
    out.append(e.as_str());
    out.append("\",\"kind\":\"");
    out.append(d.kind.label());
    out.append("\",\"file\":\"");
    let e2 = json_escape(d.file.as_str());
    out.append(e2.as_str());
    out.append("\",\"line\":");
    let dd = u64_string(d.line as u64);
    out.append(dd.as_str());
    out.append(",\"relationship\":\"");
    out.append(d.relationship.label());
    out.append("\"}");
    proof {
        assert(out@ =~= old(out)@ + spec_dep_json(d@));
    }
}

fn append_deps(out: &mut String, ds: &Vec<crate::search::DependencyInfo>)
    ensures
        final(out)@ == old(out)@ + spec_deps_json(deps_view(ds@)),
{
    let n = ds.len();
    let mut i: usize = 0;
    while i < n
        invariant
            0 <= i <= n,
            n == ds@.len(),
            out@ == old(out)@ + spec_deps_json(deps_view(ds@).take(i as int)),
        decreases n - i,
    {
        proof {
            assert(deps_view(ds@).take(i + 1).drop_last() =~= deps_view(ds@).take(i as int));
            assert(deps_view(ds@).take(i + 1).last() == ds@[i as int]@);
        }
        if i > 0 {
            out.append(",");
        }
        append_dep(out, &ds[i]);
        i += 1;
        proof {
            assert(out@ =~= old(out)@ + spec_deps_json(deps_view(ds@).take(i as int)));
        }
    }
    proof {
        assert(deps_view(ds@).take(n as int) =~= deps_view(ds@));
        assert(out@ =~= old(out)@ + spec_deps_json(deps_view(ds@)));
    }
}

/// Serialize a dependency report.
pub fn report_json(r: &DependencyReport) -> (s: String)
    ensures
        s@ == spec_report_json(deps_view(r.dependencies@), deps_view(r.dependents@)),
{
    let mut out = String::new();
    out.append("{\"dependencies\":[");
    append_deps(&mut out, &r.dependencies);
    out.append("],\"dependents\":[");
    append_deps(&mut out, &r.dependents);
    out.append("]}");
    proof {
        assert(out@ =~= spec_report_json(deps_view(r.dependencies@), deps_view(r.dependents@)));
    }
    out
}

/// Serialize a statistics response.
pub fn stats_json(r: &StatsResponse) -> (s: String)
    ensures
        s@ == spec_stats_json(r.stats),
{
    let mut out = String::new();
    out.append("{\"stats\":{\"total_nodes\":");
    let d1 = u64_string(r.stats.total_nodes as u64);
    out.append(d1.as_str());
    out.append(",\"total_edges\":");
    let d2 = u64_string(r.stats.total_edges as u64);
    out.append(d2.as_str());
    out.append(",\"file_count\":");
    let d3 = u64_string(r.stats.file_count as u64);
    out.append(d3.as_str());
    out.append(",\"symbol_count\":");
    let d4 = u64_string(r.stats.symbol_count as u64);
    out.append(d4.as_str());
    out.append(",\"unique_symbol_names\":");
    let d5 = u64_string(r.stats.unique_symbol_names as u64);
    out.append(d5.as_str());
    out.append("}}");
    proof {
        assert(out@ =~= spec_stats_json(r.stats));
    }
    out
}

fn append_node(out: &mut String, n: &crate::types::NodeData)
    ensures
        final(out)@ == old(out)@ + spec_node_json(n@),
{
    out.append("{\"name\":\"");
    let e = json_escape(n.name.as_str());
    out.append(e.as_str());
    out.append("\",\"kind\":\"");
    out.append(n.kind.label());
    out.append("\",\"file\":\"");
    let e2 = json_escape(n.file_path.as_str());
    out.append(e2.as_str());
    out.append("\",\"line_start\":");
    let d1 = u64_string(n.line_start as u64);
    out.append(d1.as_str());
    out.append(",\"line_end\":");
    let d2 = u64_string(n.line_end as u64);
    out.append(d2.as_str());
    out.append("}");
    proof {
        assert(out@ =~= old(out)@ + spec_node_json(n@));
    }
}

/// Serialize a file-symbols response.
pub fn file_symbols_json(r: &FileSymbolsResponse) -> (s: String)
    ensures
        s@ == spec_file_symbols_json(r.found, r.file@, nodes_view(r.symbols@)),
{
    let mut out = String::new();
    out.append("{\"found\":");
    out.append(bool_str(r.found));
    out.append(",\"file\":\"");
    let e = json_escape(r.file.as_str());
    out.append(e.as_str());
    out.append("\",\"symbols\":[");
    let n = r.symbols.len();
    let ghost base = out@;
    let mut i: usize = 0;
    while i < n
        invariant
            0 <= i <= n,
            n == r.symbols@.len(),
            out@ == base + spec_nodes_json(nodes_view(r.symbols@).take(i as int)),
        decreases n - i,
    {
        proof {
            assert(nodes_view(r.symbols@).take(i + 1).drop_last() =~= nodes_view(
                r.symbols@,
            ).take(i as int));
            assert(nodes_view(r.symbols@).take(i + 1).last() == r.symbols@[i as int]@);
        }
        if i > 0 {
            out.append(",");
        }
        append_node(&mut out, &r.symbols[i]);
        i += 1;
        proof {
            assert(out@ =~= base + spec_nodes_json(nodes_view(r.symbols@).take(i as int)));
        }
    }
    proof {
        assert(nodes_view(r.symbols@).take(n as int) =~= nodes_view(r.symbols@));
    }
    out.append("]}");
    proof {
        assert(out@ =~= spec_file_symbols_json(r.found, r.file@, nodes_view(r.symbols@)));
    }
    out
}

/// Serialize a context response.
pub fn context_json(r: &ContextResponse) -> (s: String)
    ensures
        s@ == spec_context_json(r.found, r.intent@, results_view(r.symbols@)),
{
    let mut out = String::new();
    out.append("{\"found\":");
    out.append(bool_str(r.found));
    out.append(",\"intent\":\"");
    let e = json_escape(r.intent.as_str());
    out.append(e.as_str());
    out.append("\",\"symbols\":[");
    append_results(&mut out, &r.symbols);
    out.append("]}");
    proof {
        assert(out@ =~= spec_context_json(r.found, r.intent@, results_view(r.symbols@)));
    }
    out
}

} // verus!
