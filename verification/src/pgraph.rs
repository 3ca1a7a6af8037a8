//! The trusted boundary around petgraph: the node store of the code
//! graph is a `petgraph::graph::Graph`, held behind wrappers whose
//! contracts speak of the graph's contents as two sequences — its node
//! payloads (as models) and its edges as `(source, target, kind)`
//! triples, both in insertion order.

use vstd::prelude::*;

use petgraph::visit::EdgeRef;

use crate::types::{EdgeData, EdgeKind, NodeData, NodeView};

verus! {

#[verifier::external_type_specification]
#[verifier::external_body]
#[verifier::reject_recursive_types(N)]
#[verifier::reject_recursive_types(E)]
#[verifier::reject_recursive_types(Ty)]
#[verifier::reject_recursive_types(Ix)]
pub struct ExGraph<N, E, Ty, Ix>(petgraph::graph::Graph<N, E, Ty, Ix>);

#[verifier::external_type_specification]
#[verifier::external_body]
pub struct ExDirected(petgraph::Directed);

/// The directed multigraph underlying the code graph. `usize` indices
/// keep node and edge handles plain and free of petgraph's index cap.
pub type Store = petgraph::graph::Graph<NodeData, EdgeData, petgraph::Directed, usize>;

/// The node payloads held by a store, in insertion order.
pub uninterp spec fn store_nodes(g: Store) -> Seq<NodeView>;

/// The edges held by a store, in insertion order, each as
/// `(source handle, target handle, kind)`.
pub uninterp spec fn store_edges(g: Store) -> Seq<(usize, usize, EdgeKind)>;

/// Relies on petgraph's Graph::with_capacity: a fresh graph holds no
/// nodes and no edges.
#[verifier::external_body]
pub(crate) fn store_new() -> (g: Store)
    ensures
        store_nodes(g).len() == 0,
        store_edges(g).len() == 0,
{
    petgraph::graph::Graph::with_capacity(0, 0)
}

/// Relies on petgraph's Graph::add_node: the weight is appended to the
/// node list and its position returned. With `usize` indices the index
/// cap is never hit.
#[verifier::external_body]
pub(crate) fn store_add_node(g: &mut Store, w: NodeData) -> (h: usize)
    ensures
        store_nodes(*final(g)) == store_nodes(*old(g)).push(w@),
        store_edges(*final(g)) == store_edges(*old(g)),
        h == store_nodes(*old(g)).len(),
{
    g.add_node(w).index()
}

/// Relies on petgraph's Graph::node_weight: the weight at a valid
/// index, `None` past the end. The returned clone carries the same
/// field values as the stored payload.
#[verifier::external_body]
pub(crate) fn store_get_node(g: &Store, h: usize) -> (r: Option<NodeData>)
    ensures
        match r {
            Some(n) => h < store_nodes(*g).len() && n@ == store_nodes(*g)[h as int],
            None => h >= store_nodes(*g).len(),
        },
{
    g.node_weight(petgraph::graph::NodeIndex::new(h)).cloned()
}

/// Relies on petgraph's Graph::node_weight_mut: stores the given
/// weight at a valid index and reports whether the index was valid.
#[verifier::external_body]
pub(crate) fn store_set_node(g: &mut Store, h: usize, w: NodeData) -> (ok: bool)
    ensures
        ok == (h < store_nodes(*old(g)).len()),
        ok ==> store_nodes(*final(g)) == store_nodes(*old(g)).update(h as int, w@),
        !ok ==> store_nodes(*final(g)) == store_nodes(*old(g)),
        store_edges(*final(g)) == store_edges(*old(g)),
{
    match g.node_weight_mut(petgraph::graph::NodeIndex::new(h)) {
        Some(slot) => {
            *slot = w;
            true
        },
        None => false,
    }
}

/// Relies on petgraph's Graph::add_edge: the edge is appended to the
/// edge list. Both endpoints must exist, since petgraph panics on an
/// out-of-bounds endpoint; with `usize` indices the edge cap is never
/// hit.
#[verifier::external_body]
pub(crate) fn store_add_edge(g: &mut Store, from: usize, to: usize, d: EdgeData)
    requires
        from < store_nodes(*old(g)).len(),
        to < store_nodes(*old(g)).len(),
    ensures
        store_nodes(*final(g)) == store_nodes(*old(g)),
        store_edges(*final(g)) == store_edges(*old(g)).push((from, to, d.kind)),
{
    g.add_edge(
        petgraph::graph::NodeIndex::new(from),
        petgraph::graph::NodeIndex::new(to),
        d,
    );
}

/// Relies on petgraph's Graph::node_count: the length of the node
/// list.
#[verifier::external_body]
pub(crate) fn store_node_count(g: &Store) -> (n: usize)
    ensures
        n == store_nodes(*g).len(),
{
    g.node_count()
}

/// Relies on petgraph's Graph::edge_count: the length of the edge
/// list.
#[verifier::external_body]
pub(crate) fn store_edge_count(g: &Store) -> (n: usize)
    ensures
        n == store_edges(*g).len(),
{
    g.edge_count()
}

/// Relies on petgraph's Graph::edge_references: edges come out in
/// index (insertion) order, each with its endpoints and weight.
#[verifier::external_body]
pub(crate) fn store_all_edges(g: &Store) -> (r: Vec<(usize, usize, EdgeKind)>)
    ensures
        r@ == store_edges(*g),
{
    g.edge_references().map(|e| (e.source().index(), e.target().index(), e.weight().kind)).collect()
}

} // verus!
