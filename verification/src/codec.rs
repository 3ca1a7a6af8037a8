//! The binary cache format: a version byte, the live node records,
//! and the edges between live nodes, with endpoints renumbered over
//! the records.
//!
//! `encode` produces exactly `spec_encode` of the model. `decode`
//! accepts exactly the byte streams that `spec_parse` accepts, and
//! replays the parsed records through the graph's own operations, so
//! its result is `spec_replay` of the parse and well formed by
//! construction. A malformed or mismatched cache is a recoverable
//! `BadCache` failure.

use vstd::prelude::*;
use vstd::pervasive::unreached;

use crate::engine::{well_formed, CodeGraph, GraphModel};
use crate::error::AnchorError;
use crate::ingest::{model_add_edge, model_add_file, model_add_symbol};
use crate::pgraph::{store_all_edges, store_get_node, store_node_count};
use crate::strutil::{string_from_chars, to_char_vec};
use crate::types::{EdgeKind, NodeKind, NodeView};

verus! {

/// The current schema version of the cache format.
pub const CACHE_VERSION: u8 = 1;

/// What char::from_u32 returns; a function of the number alone.
pub uninterp spec fn char_of_u32(u: u32) -> Option<char>;

/// Relies on char::from_u32: `Some` exactly for valid Unicode scalar
/// values, and the returned character converts back to the argument.
#[verifier::external_body]
fn char_from_u32(u: u32) -> (r: Option<char>)
    ensures
        r == char_of_u32(u),
        match r {
            Some(c) => c as u32 == u,
            None => true,
        },
{
    char::from_u32(u)
}

// ─── Tags ───────────────────────────────────────────────────────

pub open spec fn spec_kind_tag(k: NodeKind) -> u8 {
    match k {
        NodeKind::File => 0,
        NodeKind::Function => 1,
        NodeKind::Method => 2,
        NodeKind::Struct => 3,
        NodeKind::Class => 4,
        NodeKind::Interface => 5,
        NodeKind::Enum => 6,
        NodeKind::Type => 7,
        NodeKind::Constant => 8,
        NodeKind::Module => 9,
        NodeKind::Import => 10,
        NodeKind::Trait => 11,
        NodeKind::Impl => 12,
        NodeKind::Variable => 13,
    }
}

pub open spec fn spec_tag_kind(t: u8) -> Option<NodeKind> {
    if t == 0 {
        Some(NodeKind::File)
    } else if t == 1 {
        Some(NodeKind::Function)
    } else if t == 2 {
        Some(NodeKind::Method)
    } else if t == 3 {
        Some(NodeKind::Struct)
    } else if t == 4 {
        Some(NodeKind::Class)
    } else if t == 5 {
        Some(NodeKind::Interface)
    } else if t == 6 {
        Some(NodeKind::Enum)
    } else if t == 7 {
        Some(NodeKind::Type)
    } else if t == 8 {
        Some(NodeKind::Constant)
    } else if t == 9 {
        Some(NodeKind::Module)
    } else if t == 10 {
        Some(NodeKind::Import)
    } else if t == 11 {
        Some(NodeKind::Trait)
    } else if t == 12 {
        Some(NodeKind::Impl)
    } else if t == 13 {
        Some(NodeKind::Variable)
    } else {
        None
    }
}

pub open spec fn spec_edge_tag(k: EdgeKind) -> u8 {
    match k {
        EdgeKind::Defines => 0,
        EdgeKind::Calls => 1,
        EdgeKind::Imports => 2,
        EdgeKind::Contains => 3,
        EdgeKind::UsesType => 4,
        EdgeKind::Implements => 5,
        EdgeKind::Extends => 6,
        EdgeKind::Exports => 7,
        EdgeKind::References => 8,
        EdgeKind::Parameter => 9,
        EdgeKind::Returns => 10,
    }
}

pub open spec fn spec_tag_edge(t: u8) -> Option<EdgeKind> {
    if t == 0 {
        Some(EdgeKind::Defines)
    } else if t == 1 {
        Some(EdgeKind::Calls)
    } else if t == 2 {
        Some(EdgeKind::Imports)
    } else if t == 3 {
        Some(EdgeKind::Contains)
    } else if t == 4 {
        Some(EdgeKind::UsesType)
    } else if t == 5 {
        Some(EdgeKind::Implements)
    } else if t == 6 {
        Some(EdgeKind::Extends)
    } else if t == 7 {
        Some(EdgeKind::Exports)
    } else if t == 8 {
        Some(EdgeKind::References)
    } else if t == 9 {
        Some(EdgeKind::Parameter)
    } else if t == 10 {
        Some(EdgeKind::Returns)
    } else {
        None
    }
}

fn kind_tag(k: NodeKind) -> (r: u8)
    ensures
        r == spec_kind_tag(k),
{
    match k {
        NodeKind::File => 0,
        NodeKind::Function => 1,
        NodeKind::Method => 2,
        NodeKind::Struct => 3,
        NodeKind::Class => 4,
        NodeKind::Interface => 5,
        NodeKind::Enum => 6,
        NodeKind::Type => 7,
        NodeKind::Constant => 8,
        NodeKind::Module => 9,
        NodeKind::Import => 10,
        NodeKind::Trait => 11,
        NodeKind::Impl => 12,
        NodeKind::Variable => 13,
    }
}

fn tag_kind(t: u8) -> (r: Option<NodeKind>)
    ensures
        r == spec_tag_kind(t),
{
    match t {
        0u8 => Some(NodeKind::File),
        1u8 => Some(NodeKind::Function),
        2u8 => Some(NodeKind::Method),
        3u8 => Some(NodeKind::Struct),
        4u8 => Some(NodeKind::Class),
        5u8 => Some(NodeKind::Interface),
        6u8 => Some(NodeKind::Enum),
        7u8 => Some(NodeKind::Type),
        8u8 => Some(NodeKind::Constant),
        9u8 => Some(NodeKind::Module),
        10u8 => Some(NodeKind::Import),
        11u8 => Some(NodeKind::Trait),
        12u8 => Some(NodeKind::Impl),
        13u8 => Some(NodeKind::Variable),
        _ => None,
    }
}

fn edge_tag(k: EdgeKind) -> (r: u8)
    ensures
        r == spec_edge_tag(k),
{
    match k {
        EdgeKind::Defines => 0,
        EdgeKind::Calls => 1,
        EdgeKind::Imports => 2,
        EdgeKind::Contains => 3,
        EdgeKind::UsesType => 4,
        EdgeKind::Implements => 5,
        EdgeKind::Extends => 6,
        EdgeKind::Exports => 7,
        EdgeKind::References => 8,
        EdgeKind::Parameter => 9,
        EdgeKind::Returns => 10,
    }
}

fn tag_edge(t: u8) -> (r: Option<EdgeKind>)
    ensures
        r == spec_tag_edge(t),
{
    match t {
        0u8 => Some(EdgeKind::Defines),
        1u8 => Some(EdgeKind::Calls),
        2u8 => Some(EdgeKind::Imports),
        3u8 => Some(EdgeKind::Contains),
        4u8 => Some(EdgeKind::UsesType),
        5u8 => Some(EdgeKind::Implements),
        6u8 => Some(EdgeKind::Extends),
        7u8 => Some(EdgeKind::Exports),
        8u8 => Some(EdgeKind::References),
        9u8 => Some(EdgeKind::Parameter),
        10u8 => Some(EdgeKind::Returns),
        _ => None,
    }
}

// ─── Byte-level forms ───────────────────────────────────────────

/// The next `i` little-endian bytes of `v`.
pub open spec fn u64_bytes(v: u64, i: nat) -> Seq<u8>
    decreases i,
{
    if i == 0 {
        Seq::empty()
    } else {
        seq![(v & 0xff) as u8] + u64_bytes(v >> 8, (i - 1) as nat)
    }
}

/// A number as 8 little-endian bytes.
pub open spec fn spec_u64le(x: u64) -> Seq<u8> {
    u64_bytes(x, 8)
}

/// A character as 4 little-endian bytes of its scalar value.
pub open spec fn spec_char_bytes(c: char) -> Seq<u8> {
    seq![
        ((c as u32) & 0xff) as u8,
        (((c as u32) >> 8) & 0xff) as u8,
        (((c as u32) >> 16) & 0xff) as u8,
        (((c as u32) >> 24) & 0xff) as u8,
    ]
}

pub open spec fn chars_bytes(s: Seq<char>) -> Seq<u8>
    decreases s.len(),
{
    if s.len() == 0 {
        Seq::empty()
    } else {
        chars_bytes(s.drop_last()) + spec_char_bytes(s.last())
    }
}

/// A string as a length prefix and its characters' bytes.
pub open spec fn spec_str_bytes(s: Seq<char>) -> Seq<u8> {
    spec_u64le(s.len() as u64) + chars_bytes(s)
}

fn push_u64(out: &mut Vec<u8>, x: u64)
    ensures
        final(out)@ == old(out)@ + spec_u64le(x),
{
    let ghost base = out@;
    let mut v = x;
    let mut i: usize = 0;
    while i < 8
        invariant
            0 <= i <= 8,
            base + spec_u64le(x) == out@ + u64_bytes(v, (8 - i) as nat),
        decreases 8 - i,
    {
        proof {
            assert(u64_bytes(v, (8 - i) as nat) == seq![(v & 0xff) as u8] + u64_bytes(
                v >> 8,
                (8 - i - 1) as nat,
            ));
            assert(out@.push((v & 0xff) as u8) + u64_bytes(v >> 8, (8 - i - 1) as nat) =~= out@
                + u64_bytes(v, (8 - i) as nat));
        }
        out.push((v & 0xff) as u8);
        v = v >> 8;
        i += 1;
    }
    proof {
        assert(u64_bytes(v, 0) =~= Seq::<u8>::empty());
        assert(out@ + u64_bytes(v, 0) =~= out@);
    }
}

fn push_str(out: &mut Vec<u8>, s: &str)
    ensures
        final(out)@ == old(out)@ + spec_str_bytes(s@),
{
    let ghost base = out@;
    let chars = to_char_vec(s);
    push_u64(out, chars.len() as u64);
    let ghost mid = out@;
    let n = chars.len();
    let mut i: usize = 0;
    while i < n
        invariant
            0 <= i <= n,
            n == chars@.len(),
            chars@ == s@,
            out@ == mid + chars_bytes(s@.take(i as int)),
        decreases n - i,
    {
        proof {
            assert(s@.take(i + 1).drop_last() =~= s@.take(i as int));
            assert(s@.take(i + 1).last() == s@[i as int]);
        }
        let u = chars[i] as u32;
        out.push((u & 0xff) as u8);
        out.push(((u >> 8) & 0xff) as u8);
        out.push(((u >> 16) & 0xff) as u8);
        out.push(((u >> 24) & 0xff) as u8);
        i += 1;
        proof {
            assert(out@ =~= mid + chars_bytes(s@.take(i as int)));
        }
    }
    proof {
        assert(s@.take(n as int) =~= s@);
        assert(out@ =~= base + spec_str_bytes(s@));
    }
}

// ─── Byte-level readers ─────────────────────────────────────────

pub open spec fn spec_read_u8(b: Seq<u8>, pos: int) -> Option<(u8, int)> {
    if 0 <= pos < b.len() {
        Some((b[pos], pos + 1))
    } else {
        None
    }
}

fn read_u8(b: &Vec<u8>, pos: usize) -> (r: Option<(u8, usize)>)
    ensures
        match r {
            Some(p) => spec_read_u8(b@, pos as int) == Some((p.0, p.1 as int)),
            None => spec_read_u8(b@, pos as int) is None,
        },
{
    if pos < b.len() {
        Some((b[pos], pos + 1))
    } else {
        None
    }
}

/// The accumulator after folding the first `i` of 8 little-endian
/// bytes, highest first, as the reader does.
pub open spec fn u64_acc(b: Seq<u8>, pos: int, i: int, acc: u64) -> u64
    decreases i,
{
    if i <= 0 {
        acc
    } else {
        u64_acc(b, pos, i - 1, (acc << 8) | (b[pos + i - 1] as u64))
    }
}

pub open spec fn spec_read_u64(b: Seq<u8>, pos: int) -> Option<(u64, int)> {
    if 0 <= pos && pos + 8 <= b.len() {
        Some((u64_acc(b, pos, 8, 0), pos + 8))
    } else {
        None
    }
}

fn read_u64(b: &Vec<u8>, pos: usize) -> (r: Option<(u64, usize)>)
    ensures
        match r {
            Some(p) => spec_read_u64(b@, pos as int) == Some((p.0, p.1 as int)),
            None => spec_read_u64(b@, pos as int) is None,
        },
{
    let bl = b.len();
    if bl >= 8 && pos <= bl - 8 {
        let mut x: u64 = 0;
        let mut i: usize = 8;
        while i > 0
            invariant
                0 <= i <= 8,
                bl == b@.len(),
                pos + 8 <= bl,
                u64_acc(b@, pos as int, 8, 0) == u64_acc(b@, pos as int, i as int, x),
            decreases i,
        {
            i -= 1;
            x = (x << 8) | (b[pos + i] as u64);
        }
        Some((x, pos + 8))
    } else {
        None
    }
}

/// Reading `n` characters of 4 little-endian bytes each.
pub open spec fn spec_read_chars(b: Seq<u8>, pos: int, n: int, acc: Seq<char>) -> Option<
    (Seq<char>, int),
>
    decreases n,
{
    if n <= 0 {
        Some((acc, pos))
    } else if !(0 <= pos && pos + 4 <= b.len()) {
        None
    } else {
        let u = (b[pos] as u32) | ((b[pos + 1] as u32) << 8) | ((b[pos + 2] as u32) << 16) | ((b[
            pos + 3
        ] as u32) << 24);
        match char_of_u32(u) {
            Some(c) => spec_read_chars(b, pos + 4, n - 1, acc.push(c)),
            None => None,
        }
    }
}

pub open spec fn spec_read_str(b: Seq<u8>, pos: int) -> Option<(Seq<char>, int)> {
    match spec_read_u64(b, pos) {
        None => None,
        Some((len, p)) => {
            if len > 0x0fff_ffff {
                None
            } else {
                spec_read_chars(b, p, len as int, Seq::empty())
            }
        },
    }
}

fn read_str(b: &Vec<u8>, pos: usize) -> (r: Option<(String, usize)>)
    ensures
        match r {
            Some(p) => spec_read_str(b@, pos as int) == Some((p.0@, p.1 as int)),
            None => spec_read_str(b@, pos as int) is None,
        },
{
    let (len, p0) = match read_u64(b, pos) {
        Some(x) => x,
        None => {
            return None;
        },
    };
    if len > 0x0fff_ffff {
        return None;
    }
    let n = len as usize;
    let bl = b.len();
    let mut chars: Vec<char> = Vec::new();
    let mut p = p0;
    let mut i: usize = 0;
    while i < n
        invariant
            0 <= i <= n,
            bl == b@.len(),
            p0 <= p,
            spec_read_str(b@, pos as int) == spec_read_chars(
                b@,
                p0 as int,
                n as int,
                Seq::empty(),
            ),
            spec_read_chars(b@, p0 as int, n as int, Seq::empty()) == spec_read_chars(
                b@,
                p as int,
                n - i,
                chars@,
            ),
        decreases n - i,
    {
        if bl < 4 || p > bl - 4 {
            proof {
                assert(spec_read_chars(b@, p as int, n - i, chars@) is None);
            }
            return None;
        }
        let u = (b[p] as u32) | ((b[p + 1] as u32) << 8) | ((b[p + 2] as u32) << 16) | ((b[p
            + 3] as u32) << 24);
        let c = match char_from_u32(u) {
            Some(c) => c,
            None => {
                proof {
                    assert(spec_read_chars(b@, p as int, n - i, chars@) is None);
                }
                return None;
            },
        };
        chars.push(c);
        p += 4;
        i += 1;
    }
    Some((string_from_chars(&chars), p))
}

// ─── The serialized form of a graph ─────────────────────────────

/// Number of live nodes.
pub open spec fn live_count(nodes: Seq<NodeView>) -> nat
    decreases nodes.len(),
{
    if nodes.len() == 0 {
        0
    } else {
        live_count(nodes.drop_last()) + if nodes.last().removed {
            0nat
        } else {
            1nat
        }
    }
}

/// The record position a live handle is renumbered to.
pub open spec fn live_before(nodes: Seq<NodeView>, h: int) -> nat {
    live_count(nodes.take(h))
}

/// One live node's record.
pub open spec fn spec_record(n: NodeView) -> Seq<u8> {
    seq![spec_kind_tag(n.kind)] + spec_str_bytes(n.name) + spec_str_bytes(n.file_path)
        + spec_u64le(n.line_start as u64) + spec_u64le(n.line_end as u64) + spec_str_bytes(
        n.code_snippet,
    )
}

/// The records of the first `h` handles' live nodes, in handle order.
pub open spec fn spec_records(nodes: Seq<NodeView>, h: int) -> Seq<u8>
    decreases h,
{
    if h <= 0 {
        Seq::empty()
    } else {
        spec_records(nodes, h - 1) + if nodes[h - 1].removed {
            Seq::empty()
        } else {
            spec_record(nodes[h - 1])
        }
    }
}

/// The edges between live nodes among the first `k`, renumbered over
/// the records.
pub open spec fn spec_kept_edges(m: GraphModel, k: int) -> Seq<(u64, u64, u8)>
    decreases k,
{
    if k <= 0 {
        Seq::empty()
    } else {
        let rest = spec_kept_edges(m, k - 1);
        let e = m.edges[k - 1];
        if (e.0 as int) < m.nodes.len() && (e.1 as int) < m.nodes.len() && !m.nodes[
            e.0 as int
        ].removed && !m.nodes[e.1 as int].removed {
            rest.push(
                (
                    live_before(m.nodes, e.0 as int) as u64,
                    live_before(m.nodes, e.1 as int) as u64,
                    spec_edge_tag(e.2),
                ),
            )
        } else {
            rest
        }
    }
}

pub open spec fn spec_edge_bytes(es: Seq<(u64, u64, u8)>) -> Seq<u8>
    decreases es.len(),
{
    if es.len() == 0 {
        Seq::empty()
    } else {
        spec_edge_bytes(es.drop_last()) + spec_u64le(es.last().0) + spec_u64le(es.last().1)
            + seq![es.last().2]
    }
}

/// The serialized live content of a graph.
pub open spec fn spec_encode(m: GraphModel) -> Seq<u8> {
    seq![CACHE_VERSION] + spec_u64le(live_count(m.nodes) as u64) + spec_records(
        m.nodes,
        m.nodes.len() as int,
    ) + spec_u64le(spec_kept_edges(m, m.edges.len() as int).len() as u64) + spec_edge_bytes(
        spec_kept_edges(m, m.edges.len() as int),
    )
}

impl CodeGraph {
    /// Serialize the live content of the graph: a version byte, the
    /// live node records in handle order, and every edge whose two
    /// endpoints are live, with endpoints renumbered over the records.
    pub fn encode(&self) -> (r: Vec<u8>)
        requires
            well_formed(self@),
        ensures
            r@ == spec_encode(self@),
            r@.len() >= 1,
            r@[0] == CACHE_VERSION,
    {
        proof {
            crate::engine::lemma_model(self);
        }
        let ghost m = self@;
        let mut out: Vec<u8> = Vec::new();
        out.push(CACHE_VERSION);
        let n = store_node_count(&self.graph);
        // renumber live handles over the records
        let mut map: Vec<Option<u64>> = Vec::new();
        let mut live: u64 = 0;
        let mut h: usize = 0;
        while h < n
            invariant
                0 <= h <= n,
                n == m.nodes.len(),
                m == self@,
                map@.len() == h,
                live == live_count(m.nodes.take(h as int)),
                live <= h as u64,
                forall|x: int|
                    0 <= x < h ==> (#[trigger] map@[x]) == (if m.nodes[x].removed {
                        None::<u64>
                    } else {
                        Some(live_before(m.nodes, x) as u64)
                    }),
            decreases n - h,
        {
            proof {
                crate::engine::lemma_model(self);
                assert(m.nodes.take(h + 1).drop_last() =~= m.nodes.take(h as int));
                assert(m.nodes.take(h + 1).last() == m.nodes[h as int]);
            }
            let node = match store_get_node(&self.graph, h) {
                Some(node) => node,
                None => {
                    proof {
                        assert(false);
                    }
                    unreached()
                },
            };
            if !node.removed {
                map.push(Some(live));
                live += 1;
            } else {
                map.push(None);
            }
            h += 1;
        }
        proof {
            assert(m.nodes.take(n as int) =~= m.nodes);
        }
        push_u64(&mut out, live);
        let ghost head = out@;
        let mut h: usize = 0;
        while h < n
            invariant
                0 <= h <= n,
                n == m.nodes.len(),
                m == self@,
                out@ == head + spec_records(m.nodes, h as int),
            decreases n - h,
        {
            proof {
                crate::engine::lemma_model(self);
            }
            let node = match store_get_node(&self.graph, h) {
                Some(node) => node,
                None => {
                    proof {
                        assert(false);
                    }
                    unreached()
                },
            };
            if !node.removed {
                out.push(kind_tag(node.kind));
                push_str(&mut out, node.name.as_str());
                push_str(&mut out, node.file_path.as_str());
                push_u64(&mut out, node.line_start as u64);
                push_u64(&mut out, node.line_end as u64);
                push_str(&mut out, node.code_snippet.as_str());
                proof {
                    assert(out@ =~= head + spec_records(m.nodes, h + 1));
                }
            } else {
                proof {
                    assert(out@ =~= head + spec_records(m.nodes, h + 1));
                }
            }
            h += 1;
        }
        // edges between live nodes, renumbered
        let edges = store_all_edges(&self.graph);
        let en = edges.len();
        let mut kept: Vec<(u64, u64, u8)> = Vec::new();
        let mut k: usize = 0;
        while k < en
            invariant
                0 <= k <= en,
                en == edges@.len(),
                edges@ == m.edges,
                n == m.nodes.len(),
                map@.len() == n,
                forall|x: int|
                    0 <= x < n ==> (#[trigger] map@[x]) == (if m.nodes[x].removed {
                        None::<u64>
                    } else {
                        Some(live_before(m.nodes, x) as u64)
                    }),
                kept@ == spec_kept_edges(m, k as int),
            decreases en - k,
        {
            let e = edges[k];
            if e.0 < n && e.1 < n {
                match (map[e.0], map[e.1]) {
                    (Some(a), Some(b)) => {
                        kept.push((a, b, edge_tag(e.2)));
                    },
                    _ => {},
                }
            }
            k += 1;
            proof {
                assert(kept@ =~= spec_kept_edges(m, k as int));
            }
        }
        let ghost mid = out@;
        push_u64(&mut out, kept.len() as u64);
        let ghost head2 = out@;
        let kn = kept.len();
        let mut k: usize = 0;
        while k < kn
            invariant
                0 <= k <= kn,
                kn == kept@.len(),
                kept@ == spec_kept_edges(m, m.edges.len() as int),
                out@ == head2 + spec_edge_bytes(kept@.take(k as int)),
            decreases kn - k,
        {
            proof {
                assert(kept@.take(k + 1).drop_last() =~= kept@.take(k as int));
                assert(kept@.take(k + 1).last() == kept@[k as int]);
            }
            let e = kept[k];
            push_u64(&mut out, e.0);
            push_u64(&mut out, e.1);
            out.push(e.2);
            k += 1;
            proof {
                assert(out@ =~= head2 + spec_edge_bytes(kept@.take(k as int)));
            }
        }
        proof {
            assert(kept@.take(kn as int) =~= kept@);
            assert(out@ =~= spec_encode(m));
            assert(spec_encode(m)[0] == CACHE_VERSION);
        }
        out
    }
}

// ─── Parsing and replay ─────────────────────────────────────────

/// One parsed node record.
pub ghost struct RecView {
    pub kind: NodeKind,
    pub name: Seq<char>,
    pub file_path: Seq<char>,
    pub line_start: u64,
    pub line_end: u64,
    pub code_snippet: Seq<char>,
}

/// The largest line number a record may carry: it must fit the
/// node payload's line fields.
pub open spec fn line_cap() -> u64 {
    usize::MAX as u64
}

/// Parse `n` node records.
pub open spec fn spec_parse_recs(b: Seq<u8>, pos: int, n: int, acc: Seq<RecView>) -> Option<
    (Seq<RecView>, int),
>
    decreases n,
{
    if n <= 0 {
        Some((acc, pos))
    } else {
        match spec_read_u8(b, pos) {
            None => None,
            Some((tag, p1)) => match spec_tag_kind(tag) {
                None => None,
                Some(kind) => match spec_read_str(b, p1) {
                    None => None,
                    Some((name, p2)) => match spec_read_str(b, p2) {
                        None => None,
                        Some((file_path, p3)) => match spec_read_u64(b, p3) {
                            None => None,
                            Some((ls, p4)) => match spec_read_u64(b, p4) {
                                None => None,
                                Some((le, p5)) => match spec_read_str(b, p5) {
                                    None => None,
                                    Some((snippet, p6)) => {
                                        if ls > line_cap() || le > line_cap() {
                                            None
                                        } else {
                                            spec_parse_recs(
                                                b,
                                                p6,
                                                n - 1,
                                                acc.push(
                                                    RecView {
                                                        kind,
                                                        name,
                                                        file_path,
                                                        line_start: ls,
                                                        line_end: le,
                                                        code_snippet: snippet,
                                                    },
                                                ),
                                            )
                                        }
                                    },
                                },
                            },
                        },
                    },
                },
            },
        }
    }
}

/// Parse `n` edge triples, with endpoints below `count`.
pub open spec fn spec_parse_edges(
    b: Seq<u8>,
    pos: int,
    n: int,
    count: int,
    acc: Seq<(u64, u64, EdgeKind)>,
) -> Option<(Seq<(u64, u64, EdgeKind)>, int)>
    decreases n,
{
    if n <= 0 {
        Some((acc, pos))
    } else {
        match spec_read_u64(b, pos) {
            None => None,
            Some((a, p1)) => match spec_read_u64(b, p1) {
                None => None,
                Some((bb, p2)) => match spec_read_u8(b, p2) {
                    None => None,
                    Some((tag, p3)) => match spec_tag_edge(tag) {
                        None => None,
                        Some(ek) => {
                            if a >= count || bb >= count {
                                None
                            } else {
                                spec_parse_edges(b, p3, n - 1, count, acc.push((a, bb, ek)))
                            }
                        },
                    },
                },
            },
        }
    }
}

/// What a byte stream parses to: the version byte, the records, and
/// the edges between them.
pub open spec fn spec_parse(b: Seq<u8>) -> Option<(Seq<RecView>, Seq<(u64, u64, EdgeKind)>)> {
    match spec_read_u8(b, 0) {
        None => None,
        Some((version, p0)) => {
            if version != CACHE_VERSION {
                None
            } else {
                match spec_read_u64(b, p0) {
                    None => None,
                    Some((count, p1)) => {
                        if count > 0x0fff_ffff {
                            None
                        } else {
                            match spec_parse_recs(b, p1, count as int, Seq::empty()) {
                                None => None,
                                Some((recs, p2)) => match spec_read_u64(b, p2) {
                                    None => None,
                                    Some((ecount, p3)) => {
                                        if ecount > 0x0fff_ffff {
                                            None
                                        } else {
                                            match spec_parse_edges(
                                                b,
                                                p3,
                                                ecount as int,
                                                recs.len() as int,
                                                Seq::empty(),
                                            ) {
                                                None => None,
                                                Some((es, _)) => Some((recs, es)),
                                            }
                                        }
                                    },
                                },
                            }
                        }
                    },
                }
            }
        },
    }
}

/// Replaying the records through the graph's own operations.
pub open spec fn spec_replay_recs(recs: Seq<RecView>) -> (GraphModel, Seq<usize>)
    decreases recs.len(),
{
    if recs.len() == 0 {
        (crate::ingest::empty_model(), Seq::empty())
    } else {
        let prev = spec_replay_recs(recs.drop_last());
        let rec = recs.last();
        if rec.kind == NodeKind::File {
            let step = model_add_file(prev.0, rec.file_path);
            (step.0, prev.1.push(step.1))
        } else {
            let step = model_add_symbol(
                prev.0,
                rec.name,
                rec.kind,
                rec.file_path,
                rec.line_start as int,
                rec.line_end as int,
                rec.code_snippet,
            );
            (step.0, prev.1.push(step.1))
        }
    }
}

/// Replaying the edges over the replayed handles.
pub open spec fn spec_replay_edges(
    acc: GraphModel,
    handles: Seq<usize>,
    es: Seq<(u64, u64, EdgeKind)>,
) -> GraphModel
    decreases es.len(),
{
    if es.len() == 0 {
        acc
    } else {
        let prev = spec_replay_edges(acc, handles, es.drop_last());
        let e = es.last();
        model_add_edge(prev, handles[e.0 as int], handles[e.1 as int], e.2)
    }
}

/// The graph a parsed cache replays to.
pub open spec fn spec_replay(recs: Seq<RecView>, es: Seq<(u64, u64, EdgeKind)>) -> GraphModel {
    let base = spec_replay_recs(recs);
    spec_replay_edges(base.0, base.1, es)
}

impl CodeGraph {
    /// Rebuild a graph from its serialized live content. The call
    /// succeeds exactly when the bytes parse — a version mismatch, a
    /// bad tag, a truncated stream or an out-of-range edge is a
    /// `BadCache` failure — and the result is the parse replayed
    /// through the graph's own operations, well formed by
    /// construction.
    pub fn decode(bytes: &Vec<u8>) -> (r: Result<CodeGraph, AnchorError>)
        ensures
            (r is Ok) == (spec_parse(bytes@) is Some),
            match r {
                Ok(g) => {
                    &&& bytes@.len() >= 1 && bytes@[0] == CACHE_VERSION
                    &&& well_formed(g@)
                    &&& g@ == spec_replay(
                        spec_parse(bytes@)->Some_0.0,
                        spec_parse(bytes@)->Some_0.1,
                    )
                },
                Err(e) => e is BadCache,
            },
    {
        let (version, pos) = match read_u8(bytes, 0) {
            Some(x) => x,
            None => {
                return Err(AnchorError::BadCache("empty cache".to_owned()));
            },
        };
        if version != CACHE_VERSION {
            return Err(AnchorError::BadCache("version mismatch".to_owned()));
        }
        let mut g = CodeGraph::new();
        proof {
            assert(g@.nodes =~= crate::ingest::empty_model().nodes);
            assert(g@.edges =~= crate::ingest::empty_model().edges);
            assert(g@.files =~= crate::ingest::empty_model().files);
            assert(g@.symbols =~= crate::ingest::empty_model().symbols);
            assert(g@.quals =~= crate::ingest::empty_model().quals);
            assert(g@ == crate::ingest::empty_model());
        }
        let (count, p1) = match read_u64(bytes, pos) {
            Some(x) => x,
            None => {
                return Err(AnchorError::BadCache("truncated node count".to_owned()));
            },
        };
        let mut pos = p1;
        if count > 0x0fff_ffff {
            return Err(AnchorError::BadCache("node count out of range".to_owned()));
        }
        let nrec = count as usize;
        proof {
            assert(spec_parse_recs(bytes@, p1 as int, nrec as int, Seq::empty()) is None
                ==> spec_parse(bytes@) is None);
        }
        let mut handles: Vec<usize> = Vec::new();
        let ghost mut recs: Seq<RecView> = Seq::empty();
        let mut i: usize = 0;
        while i < nrec
            invariant
                0 <= i <= nrec,
                well_formed(g@),
                handles@.len() == i,
                recs.len() == i,
                forall|x: int|
                    0 <= x < handles@.len() ==> ((#[trigger] handles@[x]) as int) < g@.nodes.len(),
                spec_parse_recs(bytes@, p1 as int, nrec as int, Seq::empty())
                    == spec_parse_recs(bytes@, pos as int, nrec - i, recs),
                spec_parse_recs(bytes@, p1 as int, nrec as int, Seq::empty()) is None
                    ==> spec_parse(bytes@) is None,
                (g@, handles@) == spec_replay_recs(recs),
            decreases nrec - i,
        {
            let ghost gm0 = g@;
            let ghost recs0 = recs;
            let (tag, p3) = match read_u8(bytes, pos) {
                Some(x) => x,
                None => {
                    return Err(AnchorError::BadCache("truncated record".to_owned()));
                },
            };
            let kind = match tag_kind(tag) {
                Some(k) => k,
                None => {
                    return Err(AnchorError::BadCache("bad node kind".to_owned()));
                },
            };
            let (name, p4) = match read_str(bytes, p3) {
                Some(x) => x,
                None => {
                    return Err(AnchorError::BadCache("truncated name".to_owned()));
                },
            };
            let (file_path, p5) = match read_str(bytes, p4) {
                Some(x) => x,
                None => {
                    return Err(AnchorError::BadCache("truncated path".to_owned()));
                },
            };
            let (ls, p6) = match read_u64(bytes, p5) {
                Some(x) => x,
                None => {
                    return Err(AnchorError::BadCache("truncated line".to_owned()));
                },
            };
            let (le, p7) = match read_u64(bytes, p6) {
                Some(x) => x,
                None => {
                    return Err(AnchorError::BadCache("truncated line".to_owned()));
                },
            };
            let (snippet, p8) = match read_str(bytes, p7) {
                Some(x) => x,
                None => {
                    return Err(AnchorError::BadCache("truncated snippet".to_owned()));
                },
            };
            pos = p8;
            if ls > (usize::MAX as u64) || le > (usize::MAX as u64) {
                return Err(AnchorError::BadCache("line out of range".to_owned()));
            }
            proof {
                recs = recs.push(
                    RecView {
                        kind,
                        name: name@,
                        file_path: file_path@,
                        line_start: ls,
                        line_end: le,
                        code_snippet: snippet@,
                    },
                );
                assert(recs.drop_last() =~= recs0);
            }
            let h = if kind == NodeKind::File {
                g.add_file(file_path)
            } else {
                g.add_symbol(name, kind, file_path, ls as usize, le as usize, snippet)
            };
            handles.push(h);
            proof {
                assert((g@, handles@) == spec_replay_recs(recs));
                assert forall|x: int|
                    0 <= x < handles@.len() implies ((#[trigger] handles@[x]) as int)
                    < g@.nodes.len() by {
                    if x < handles@.len() - 1 {
                        assert((handles@[x] as int) < gm0.nodes.len());
                    }
                }
            }
            i += 1;
        }
        proof {
            assert(spec_parse_recs(bytes@, p1 as int, nrec as int, Seq::empty()) == Some(
                (recs, pos as int),
            ));
        }
        let (ecount, p9) = match read_u64(bytes, pos) {
            Some(x) => x,
            None => {
                return Err(AnchorError::BadCache("truncated edge count".to_owned()));
            },
        };
        pos = p9;
        if ecount > 0x0fff_ffff {
            return Err(AnchorError::BadCache("edge count out of range".to_owned()));
        }
        let erec = ecount as usize;
        proof {
            assert(spec_parse_edges(
                bytes@,
                p9 as int,
                erec as int,
                handles@.len() as int,
                Seq::empty(),
            ) is None ==> spec_parse(bytes@) is None);
        }
        let ghost base_model = g@;
        let ghost base_handles = handles@;
        let ghost mut es: Seq<(u64, u64, EdgeKind)> = Seq::empty();
        let mut k: usize = 0;
        while k < erec
            invariant
                0 <= k <= erec,
                well_formed(g@),
                handles@ == base_handles,
                es.len() == k,
                forall|x: int|
                    0 <= x < handles@.len() ==> ((#[trigger] handles@[x]) as int) < g@.nodes.len(),
                spec_parse_edges(bytes@, p9 as int, erec as int, handles@.len() as int, Seq::empty())
                    == spec_parse_edges(bytes@, pos as int, erec - k, handles@.len() as int, es),
                spec_parse_edges(bytes@, p9 as int, erec as int, handles@.len() as int,
                    Seq::empty()) is None ==> spec_parse(bytes@) is None,
                g@ == spec_replay_edges(base_model, base_handles, es),
            decreases erec - k,
        {
            let ghost gm0 = g@;
            let ghost es0 = es;
            let (a, pa) = match read_u64(bytes, pos) {
                Some(x) => x,
                None => {
                    return Err(AnchorError::BadCache("truncated edge".to_owned()));
                },
            };
            let (b, pb) = match read_u64(bytes, pa) {
                Some(x) => x,
                None => {
                    return Err(AnchorError::BadCache("truncated edge".to_owned()));
                },
            };
            let (tag, pc) = match read_u8(bytes, pb) {
                Some(x) => x,
                None => {
                    return Err(AnchorError::BadCache("truncated edge".to_owned()));
                },
            };
            pos = pc;
            let ek = match tag_edge(tag) {
                Some(x) => x,
                None => {
                    return Err(AnchorError::BadCache("bad edge kind".to_owned()));
                },
            };
            if a >= handles.len() as u64 || b >= handles.len() as u64 {
                return Err(AnchorError::BadCache("edge endpoint out of range".to_owned()));
            }
            proof {
                es = es.push((a, b, ek));
                assert(es.drop_last() =~= es0);
            }
            let ha = handles[a as usize];
            let hb = handles[b as usize];
            g.add_edge(ha, hb, ek);
            proof {
                assert(g@ == spec_replay_edges(base_model, base_handles, es));
                assert forall|x: int|
                    0 <= x < handles@.len() implies ((#[trigger] handles@[x]) as int)
                    < g@.nodes.len() by {
                    assert((handles@[x] as int) < gm0.nodes.len());
                }
            }
            k += 1;
        }
        proof {
            assert(spec_parse_edges(bytes@, p9 as int, erec as int, handles@.len() as int,
                Seq::empty()) == Some((es, pos as int)));
            assert(spec_parse(bytes@) == Some((recs, es)));
        }
        Ok(g)
    }
}

} // verus!
