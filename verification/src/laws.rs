//! The laws the topology's mutation interface obeys, stated once over the
//! mathematical model and proved for every state the interface can reach.

use vstd::prelude::*;

use crate::mutations::{
    add_edge_accepted, add_edge_check, add_edge_next, crash_accepted, crash_next, staged_crash,
};
use crate::network::{
    edge_between, hi, id_exists, id_index, lemma_id_index_unique, lo, node_of, wf_model, NetModel,
};
use crate::validator::{scope_connected, valid_topology, TopologyError};

verus! {

/// Invariant closure: whichever topology a committed mutation starts from,
/// the topology it leaves behind satisfies the whole invariant set — so along
/// any sequence of accepted mutations every intermediate state is valid.
pub proof fn lemma_invariant_closure(s: NetModel, from: u8, to: u8, id: u8)
    ensures
        add_edge_accepted(s, from, to) ==> valid_topology(add_edge_next(s, from, to)),
        crash_accepted(s, id) ==> valid_topology(crash_next(s, id)),
{
}

/// Idempotence of rejection: when two nodes are already linked, `add_edge`
/// rejects without touching the state, so an immediate second call sees the
/// same state and rejects for the same reason.  When neither endpoint has
/// crashed and at least one is a relay, that reason is exactly "the edge is
/// already there".
pub proof fn lemma_rejection_idempotent(s: NetModel, a: u8, b: u8)
    requires
        wf_model(s),
        edge_between(s.edges, a, b),
    ensures
        !add_edge_accepted(s, a, b),
        add_edge_check(s, a, b) is Some,
        add_edge_next(s, a, b) == s,
        add_edge_check(add_edge_next(s, a, b), a, b) == add_edge_check(s, a, b),
        !add_edge_accepted(add_edge_next(s, a, b), a, b),
        (!node_of(s, a).kind.is_crashed() && !node_of(s, b).kind.is_crashed() && (node_of(
            s,
            a,
        ).kind.is_drone() || node_of(s, b).kind.is_drone())) ==> add_edge_check(s, a, b) == Some(
            TopologyError::EdgeExists,
        ),
{
    let e = choose|e: int|
        0 <= e < s.edges.len() && (#[trigger] s.edges[e]).a == lo(a, b) && s.edges[e].b == hi(
            a,
            b,
        );
    assert(s.edges[e].a < s.edges[e].b);
    assert(a != b);
    assert(id_exists(s.nodes, s.edges[e].a) && id_exists(s.nodes, s.edges[e].b));
    assert(a == s.edges[e].a || a == s.edges[e].b);
    assert(b == s.edges[e].a || b == s.edges[e].b);
}

/// Atomicity: a rejected mutation leaves the topology — node records and
/// edge set alike — exactly as it was, whether the rejection came before
/// staging or from the validator.
pub proof fn lemma_rejection_atomic(s: NetModel, from: u8, to: u8, id: u8)
    ensures
        !add_edge_accepted(s, from, to) ==> add_edge_next(s, from, to) == s,
        !crash_accepted(s, id) ==> crash_next(s, id) == s,
{
}

/// A crash clears every trace of the relay from the link structure, and any
/// later `add_edge` touching it is rejected because the node is marked
/// crashed.
pub proof fn lemma_crash_clears_adjacency(s: NetModel, id: u8, x: u8)
    requires
        wf_model(s),
        crash_accepted(s, id),
    ensures
        // the state after the crash commits
        crash_next(s, id) == staged_crash(s, id),
        // the crashed record remains, flagged, and no edge or adjacency
        // entry touches it
        id_exists(crash_next(s, id).nodes, id),
        node_of(crash_next(s, id), id).kind.is_crashed(),
        node_of(crash_next(s, id), id).adj.len() == 0,
        forall|e: int|
            0 <= e < crash_next(s, id).edges.len() ==> (#[trigger] crash_next(s, id).edges[e]).a
                != id && crash_next(s, id).edges[e].b != id,
        // a later edge toward the crashed relay is rejected as crashed
        x != id && id_exists(s.nodes, x) ==> add_edge_check(crash_next(s, id), id, x) == Some(
            TopologyError::CrashedEndpoint,
        ) && add_edge_check(crash_next(s, id), x, id) == Some(TopologyError::CrashedEndpoint),
        !add_edge_accepted(crash_next(s, id), id, x),
{
    let s2 = staged_crash(s, id);
    assert(s2.nodes.len() == s.nodes.len());
    assert(forall|i: int| 0 <= i < s.nodes.len() ==> (#[trigger] s2.nodes[i]).id == s.nodes[i].id);
    let idx = id_index(s.nodes, id);
    assert(0 <= idx < s.nodes.len() && s.nodes[idx].id == id);
    assert(s2.nodes[idx].id == id);
    assert(id_exists(s2.nodes, id));
    assert(crate::network::ids_distinct(s2.nodes));
    lemma_id_index_unique(s2.nodes, id, idx);
    assert(node_of(s2, id) == s2.nodes[idx]);
    assert(node_of(s2, id).kind.is_crashed());
    crate::mutations::lemma_filter_elems(s.edges, crate::mutations::edge_keep(id));
    assert forall|e: int|
        0 <= e < s2.edges.len() implies (#[trigger] s2.edges[e]).a != id && s2.edges[e].b
        != id by {
        assert(crate::mutations::edge_keep(id)(s.edges.filter(crate::mutations::edge_keep(id))[e]));
    }
    if x != id && id_exists(s.nodes, x) {
        let ix = id_index(s.nodes, x);
        assert(0 <= ix < s.nodes.len() && s.nodes[ix].id == x);
        assert(s2.nodes[ix].id == x);
        assert(id_exists(s2.nodes, x));
        assert(node_of(s2, id).kind.is_crashed());
    }
    if add_edge_accepted(crash_next(s, id), id, x) {
        assert(add_edge_check(s2, id, x) is None);
        assert(!node_of(s2, id).kind.is_crashed());
    }
}

/// Connectivity boundary: a valid topology stays connected when every client
/// and server is removed — the relay-only subgraph is connected on its own,
/// so clients and servers only ever sit at the edges of the network.
pub proof fn lemma_connectivity_boundary(s: NetModel)
    requires
        valid_topology(s),
    ensures
        scope_connected(s, true),
{
}

} // verus!
