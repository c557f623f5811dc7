//! The transactional mutation interface of the topology: stage, validate,
//! then commit or leave the state untouched.

use vstd::prelude::*;

use crate::network::{
    edge_between, has_id, hi, id_exists, id_index, ids_distinct, lemma_id_index_unique, lo,
    node_of, seq_distinct, wf_model, EdgeEntry, NetModel, Network,
};
use crate::node_kind::NodeKind;
use crate::node_representation::{NodeModel, NodeRepresentation};
use crate::validator::{scope_connected, valid_topology, TopologyError};

verus! {

/// Every element of a filtered sequence comes from the original and
/// satisfies the predicate.
pub proof fn lemma_filter_elems<T>(s: Seq<T>, pred: spec_fn(T) -> bool)
    ensures
        forall|i: int|
            0 <= i < s.filter(pred).len() ==> s.contains(#[trigger] s.filter(pred)[i]) && pred(
                s.filter(pred)[i],
            ),
    decreases s.len(),
{
    reveal_with_fuel(Seq::<int>::filter, 2);
    if s.len() == 0 {
    } else {
        lemma_filter_elems(s.drop_last(), pred);
        let f = s.filter(pred);
        let fd = s.drop_last().filter(pred);
        assert forall|i: int| 0 <= i < f.len() implies s.contains(#[trigger] f[i]) && pred(
            f[i],
        ) by {
            if pred(s.last()) && i == f.len() - 1 {
                assert(f[i] == s.last());
                assert(s[s.len() - 1] == s.last());
            } else {
                assert(f[i] == fd[i]);
                assert(s.drop_last().contains(fd[i]) && pred(fd[i]));
                let j = choose|j: int|
                    0 <= j < s.drop_last().len() && s.drop_last()[j] == fd[i];
                assert(s[j] == fd[i]);
            }
        }
    }
}

/// Everything of the original that satisfies the predicate survives the
/// filter.
pub proof fn lemma_filter_keeps<T>(s: Seq<T>, pred: spec_fn(T) -> bool)
    ensures
        forall|i: int|
            0 <= i < s.len() && pred(#[trigger] s[i]) ==> s.filter(pred).contains(s[i]),
{
    broadcast use vstd::seq_lib::group_filter_ensures;

}

/// Filtering keeps keys distinct: if no two elements of `s` share a key,
/// none of the survivors do either.
pub proof fn lemma_filter_keeps_distinct_keys<T>(
    s: Seq<T>,
    pred: spec_fn(T) -> bool,
    key: spec_fn(T) -> (u8, u8),
)
    requires
        forall|i: int, j: int| 0 <= i < j < s.len() ==> key(s[i]) != key(s[j]),
    ensures
        forall|i: int, j: int|
            0 <= i < j < s.filter(pred).len() ==> key(#[trigger] s.filter(pred)[i]) != key(
                #[trigger] s.filter(pred)[j],
            ),
    decreases s.len(),
{
    reveal_with_fuel(Seq::<int>::filter, 2);
    if s.len() == 0 {
    } else {
        lemma_filter_keeps_distinct_keys(s.drop_last(), pred, key);
        lemma_filter_elems(s.drop_last(), pred);
        let f = s.filter(pred);
        let fd = s.drop_last().filter(pred);
        assert forall|i: int, j: int| 0 <= i < j < f.len() implies key(#[trigger] f[i]) != key(
            #[trigger] f[j],
        ) by {
            if pred(s.last()) && j == f.len() - 1 {
                assert(f[j] == s.last());
                assert(f[i] == fd[i]);
                assert(s.drop_last().contains(fd[i]));
                let t = choose|t: int|
                    0 <= t < s.drop_last().len() && s.drop_last()[t] == fd[i];
                assert(key(s[t]) != key(s[s.len() - 1]));
            } else {
                assert(f[i] == fd[i] && f[j] == fd[j]);
            }
        }
    }
}

/// The node list with `v` appended to the adjacency of the node carrying
/// `id`.
pub open spec fn push_adj_model(ns: Seq<NodeModel>, id: u8, v: u8) -> Seq<NodeModel> {
    ns.map_values(
        |n: NodeModel|
            if n.id == id {
                NodeModel { adj: n.adj.push(v), ..n }
            } else {
                n
            },
    )
}

/// The topology with the edge `{from, to}` staged: the canonical edge is
/// appended and each endpoint gains the other in its adjacency.
pub open spec fn staged_add_edge(s: NetModel, from: u8, to: u8) -> NetModel {
    NetModel {
        nodes: push_adj_model(push_adj_model(s.nodes, from, to), to, from),
        edges: s.edges.push(EdgeEntry { a: lo(from, to), b: hi(from, to), last: None }),
    }
}

/// The early rejections of `add_edge`, decided before anything is staged.
pub open spec fn add_edge_check(s: NetModel, from: u8, to: u8) -> Option<TopologyError> {
    if from == to {
        Some(TopologyError::SelfLoop)
    } else if !id_exists(s.nodes, from) || !id_exists(s.nodes, to) {
        Some(TopologyError::NotFound)
    } else if node_of(s, from).kind.is_crashed() || node_of(s, to).kind.is_crashed() {
        Some(TopologyError::CrashedEndpoint)
    } else if !node_of(s, from).kind.is_drone() && !node_of(s, to).kind.is_drone() {
        Some(TopologyError::NoRelayEndpoint)
    } else if edge_between(s.edges, from, to) {
        Some(TopologyError::EdgeExists)
    } else {
        None
    }
}

/// Whether `add_edge(from, to)` commits on the topology `s`.
pub open spec fn add_edge_accepted(s: NetModel, from: u8, to: u8) -> bool {
    add_edge_check(s, from, to) is None && valid_topology(staged_add_edge(s, from, to))
}

/// The topology `add_edge(from, to)` leaves behind: the staged state when the
/// mutation commits, the original state otherwise.
pub open spec fn add_edge_next(s: NetModel, from: u8, to: u8) -> NetModel {
    if add_edge_accepted(s, from, to) {
        staged_add_edge(s, from, to)
    } else {
        s
    }
}

/// Whether `crash_drone(id)` commits on the topology `s`.
pub open spec fn crash_accepted(s: NetModel, id: u8) -> bool {
    crash_check(s, id) is None && valid_topology(staged_crash(s, id))
}

/// The topology `crash_drone(id)` leaves behind.
pub open spec fn crash_next(s: NetModel, id: u8) -> NetModel {
    if crash_accepted(s, id) {
        staged_crash(s, id)
    } else {
        s
    }
}

/// Which violated rule each validator error names.
pub open spec fn validator_error(s: NetModel, e: TopologyError) -> bool {
    match e {
        TopologyError::ClientKind => !crate::validator::rule_client(s),
        TopologyError::ClientDegree => !crate::validator::rule_client(s),
        TopologyError::ServerKind => !crate::validator::rule_server(s),
        TopologyError::ServerDegree => !crate::validator::rule_server(s),
        TopologyError::Disconnected => !scope_connected(s, false),
        TopologyError::RelaysDisconnected => !scope_connected(s, true),
        _ => false,
    }
}

/// Staging a fresh edge between two distinct existing nodes keeps the
/// representation well-formed.
pub proof fn lemma_staged_add_edge_wf(s: NetModel, from: u8, to: u8)
    requires
        wf_model(s),
        from != to,
        id_exists(s.nodes, from),
        id_exists(s.nodes, to),
        !edge_between(s.edges, from, to),
    ensures
        wf_model(staged_add_edge(s, from, to)),
{
    let s2 = staged_add_edge(s, from, to);
    let e2 = EdgeEntry { a: lo(from, to), b: hi(from, to), last: None };
    assert(s2.nodes.len() == s.nodes.len());
    assert(forall|i: int| 0 <= i < s.nodes.len() ==> (#[trigger] s2.nodes[i]).id == s.nodes[i].id);
    let ifrom = id_index(s.nodes, from);
    let ito = id_index(s.nodes, to);
    assert(0 <= ifrom < s.nodes.len() && s.nodes[ifrom].id == from);
    assert(0 <= ito < s.nodes.len() && s.nodes[ito].id == to);
    assert(ifrom != ito);
    assert forall|i: int, v: u8| 0 <= i < s2.nodes.len() implies (has_id(s2.nodes[i].adj, v)
        <==> #[trigger] edge_between(s2.edges, s2.nodes[i].id, v)) by {
        let idn = s.nodes[i].id;
        assert(s2.nodes[i].id == idn);
        // the new edge set relates exactly the old pairs plus {from, to}
        assert forall|p: u8, q: u8| #[trigger] edge_between(s2.edges, p, q) implies edge_between(
            s.edges,
            p,
            q,
        ) || (lo(p, q) == lo(from, to) && hi(p, q) == hi(from, to)) by {
            let e = choose|e: int|
                0 <= e < s2.edges.len() && (#[trigger] s2.edges[e]).a == lo(p, q) && s2.edges[e].b
                    == hi(p, q);
            if e < s.edges.len() {
                assert(s.edges[e].a == lo(p, q) && s.edges[e].b == hi(p, q));
            }
        }
        assert forall|p: u8, q: u8| edge_between(s.edges, p, q) implies #[trigger] edge_between(
            s2.edges,
            p,
            q,
        ) by {
            let e = choose|e: int|
                0 <= e < s.edges.len() && (#[trigger] s.edges[e]).a == lo(p, q) && s.edges[e].b
                    == hi(p, q);
            assert(s2.edges[e].a == lo(p, q) && s2.edges[e].b == hi(p, q));
        }
        assert(s2.edges[s.edges.len() as int] == e2);
        assert(edge_between(s2.edges, from, to));
        if i == ifrom {
            assert(idn == from);
            assert(s2.nodes[i].adj =~= s.nodes[i].adj.push(to));
            assert forall|w: u8| has_id(s2.nodes[i].adj, w) implies has_id(s.nodes[i].adj, w) || w
                == to by {
                let k = choose|k: int|
                    0 <= k < s2.nodes[i].adj.len() && s2.nodes[i].adj[k] == w;
                if k < s.nodes[i].adj.len() {
                    assert(s.nodes[i].adj[k] == w);
                }
            }
            assert forall|w: u8| has_id(s.nodes[i].adj, w) implies has_id(
                s2.nodes[i].adj,
                w,
            ) by {
                let k = choose|k: int|
                    0 <= k < s.nodes[i].adj.len() && s.nodes[i].adj[k] == w;
                assert(s2.nodes[i].adj[k] == w);
            }
            assert(has_id(s2.nodes[i].adj, to)) by {
                assert(s2.nodes[i].adj[s.nodes[i].adj.len() as int] == to);
            }
            assert(has_id(s.nodes[i].adj, v) <==> edge_between(s.edges, idn, v));
            if lo(idn, v) == lo(from, to) && hi(idn, v) == hi(from, to) {
                assert(v == to);
            }
        } else if i == ito {
            assert(idn == to);
            assert(s2.nodes[i].adj =~= s.nodes[i].adj.push(from));
            assert forall|w: u8| has_id(s2.nodes[i].adj, w) implies has_id(s.nodes[i].adj, w) || w
                == from by {
                let k = choose|k: int|
                    0 <= k < s2.nodes[i].adj.len() && s2.nodes[i].adj[k] == w;
                if k < s.nodes[i].adj.len() {
                    assert(s.nodes[i].adj[k] == w);
                }
            }
            assert forall|w: u8| has_id(s.nodes[i].adj, w) implies has_id(
                s2.nodes[i].adj,
                w,
            ) by {
                let k = choose|k: int|
                    0 <= k < s.nodes[i].adj.len() && s.nodes[i].adj[k] == w;
                assert(s2.nodes[i].adj[k] == w);
            }
            assert(has_id(s2.nodes[i].adj, from)) by {
                assert(s2.nodes[i].adj[s.nodes[i].adj.len() as int] == from);
            }
            assert(has_id(s.nodes[i].adj, v) <==> edge_between(s.edges, idn, v));
            if lo(idn, v) == lo(from, to) && hi(idn, v) == hi(from, to) {
                assert(v == from);
            }
            assert(lo(idn, from) == lo(from, to) && hi(idn, from) == hi(from, to));
        } else {
            lemma_id_index_unique(s.nodes, from, ifrom);
            lemma_id_index_unique(s.nodes, to, ito);
            assert(idn != from && idn != to);
            assert(s2.nodes[i].adj == s.nodes[i].adj);
            assert(has_id(s.nodes[i].adj, v) <==> edge_between(s.edges, idn, v));
            if lo(idn, v) == lo(from, to) && hi(idn, v) == hi(from, to) {
                assert(idn == from || idn == to);
            }
        }
    }
    assert forall|i: int| 0 <= i < s2.nodes.len() implies seq_distinct(
        (#[trigger] s2.nodes[i]).adj,
    ) by {
        if i == ifrom {
            assert(!has_id(s.nodes[i].adj, to)) by {
                assert(s.nodes[i].id == from);
                assert(has_id(s.nodes[i].adj, to) <==> edge_between(s.edges, from, to));
            }
            assert(s2.nodes[i].adj =~= s.nodes[i].adj.push(to));
            assert forall|k1: int, k2: int|
                0 <= k1 < k2 < s2.nodes[i].adj.len() implies s2.nodes[i].adj[k1]
                != s2.nodes[i].adj[k2] by {
                if k2 == s2.nodes[i].adj.len() - 1 {
                    if s.nodes[i].adj[k1] == to {
                        assert(s.nodes[i].adj.contains(to));
                        assert(has_id(s.nodes[i].adj, to));
                    }
                }
            }
        } else if i == ito {
            assert(!has_id(s.nodes[i].adj, from)) by {
                assert(s.nodes[i].id == to);
                assert(has_id(s.nodes[i].adj, from) <==> edge_between(s.edges, to, from));
                assert(lo(to, from) == lo(from, to) && hi(to, from) == hi(from, to));
            }
            assert(s2.nodes[i].adj =~= s.nodes[i].adj.push(from));
            assert forall|k1: int, k2: int|
                0 <= k1 < k2 < s2.nodes[i].adj.len() implies s2.nodes[i].adj[k1]
                != s2.nodes[i].adj[k2] by {
                if k2 == s2.nodes[i].adj.len() - 1 {
                    if s.nodes[i].adj[k1] == from {
                        assert(s.nodes[i].adj.contains(from));
                        assert(has_id(s.nodes[i].adj, from));
                    }
                }
            }
        } else {
            assert(s2.nodes[i].adj == s.nodes[i].adj);
            assert(seq_distinct(s.nodes[i].adj));
        }
    }
    assert forall|e1: int, e2i: int| 0 <= e1 < e2i < s2.edges.len() implies !((
    #[trigger] s2.edges[e1]).a == (#[trigger] s2.edges[e2i]).a && s2.edges[e1].b
        == s2.edges[e2i].b) by {
        if e2i == s2.edges.len() - 1 {
            if s.edges[e1].a == e2.a && s.edges[e1].b == e2.b {
                assert(edge_between(s.edges, from, to));
            }
        }
    }
    assert forall|x: u8| id_exists(s.nodes, x) implies id_exists(s2.nodes, x) by {
        let k = choose|k: int| 0 <= k < s.nodes.len() && s.nodes[k].id == x;
        assert(s2.nodes[k].id == x);
    }
    assert(ids_distinct(s2.nodes));
    assert forall|e: int| 0 <= e < s2.edges.len() implies (#[trigger] s2.edges[e]).a
        < s2.edges[e].b && id_exists(s2.nodes, s2.edges[e].a) && id_exists(
        s2.nodes,
        s2.edges[e].b,
    ) by {
        if e < s.edges.len() {
            assert(s2.edges[e] == s.edges[e]);
        } else {
            assert(s2.edges[e] == e2);
        }
    }
}

impl Network {
    /// Stages the edge `{from, to}`: appends the canonical edge entry and
    /// gives each endpoint the other as a neighbor.  No validation happens
    /// here; the callers validate the staged state.
    pub(crate) fn add_edge_unchecked(&mut self, from: u8, to: u8)
        requires
            old(self).wf(),
            from != to,
            id_exists(old(self)@.nodes, from),
            id_exists(old(self)@.nodes, to),
            !edge_between(old(self)@.edges, from, to),
        ensures
            final(self)@ == staged_add_edge(old(self)@, from, to),
            final(self).wf(),
    {
        let ghost s = self@;
        let ia = match self.find_node(from) {
            Some(i) => i,
            None => {
                proof {
                    assert(false);
                }
                0
            },
        };
        let ib = match self.find_node(to) {
            Some(i) => i,
            None => {
                proof {
                    assert(false);
                }
                0
            },
        };
        proof {
            lemma_id_index_unique(s.nodes, from, ia as int);
            lemma_id_index_unique(s.nodes, to, ib as int);
        }
        let n = self.nodes.len();
        let mut new_nodes: Vec<NodeRepresentation> = Vec::new();
        let mut j: usize = 0;
        while j < n
            invariant
                s == self@,
                wf_model(s),
                n == s.nodes.len(),
                j <= n,
                ia < n && ib < n && ia != ib,
                s.nodes[ia as int].id == from,
                s.nodes[ib as int].id == to,
                new_nodes@.len() == j,
                forall|j2: int|
                    0 <= j2 < j ==> (#[trigger] new_nodes@[j2])@ == (if j2 == ia {
                        NodeModel { adj: s.nodes[j2].adj.push(to), ..s.nodes[j2] }
                    } else if j2 == ib {
                        NodeModel { adj: s.nodes[j2].adj.push(from), ..s.nodes[j2] }
                    } else {
                        s.nodes[j2]
                    }),
            decreases n - j,
        {
            let mut rec = self.nodes[j].duplicate();
            if j == ia {
                rec.adj.push(to);
            } else if j == ib {
                rec.adj.push(from);
            }
            new_nodes.push(rec);
            j = j + 1;
        }
        let a = if from < to {
            from
        } else {
            to
        };
        let b = if from < to {
            to
        } else {
            from
        };
        let mut new_edges: Vec<EdgeEntry> = Vec::new();
        let mut e: usize = 0;
        while e < self.edges.len()
            invariant
                s == self@,
                e <= self.edges.len(),
                new_edges@ == s.edges.subrange(0, e as int),
            decreases self.edges.len() - e,
        {
            new_edges.push(self.edges[e]);
            proof {
                assert(new_edges@ =~= s.edges.subrange(0, e + 1));
            }
            e = e + 1;
        }
        proof {
            assert(s.edges.subrange(0, s.edges.len() as int) =~= s.edges);
        }
        new_edges.push(EdgeEntry { a, b, last: None });
        self.nodes = new_nodes;
        self.edges = new_edges;
        proof {
            let s2 = staged_add_edge(s, from, to);
            assert forall|j2: int| 0 <= j2 < n implies self@.nodes[j2] == s2.nodes[j2] by {
                lemma_id_index_unique(s.nodes, from, ia as int);
                lemma_id_index_unique(s.nodes, to, ib as int);
                assert(s.nodes[j2].id == from <==> j2 == ia);
                assert(s.nodes[j2].id == to <==> j2 == ib);
            }
            assert(self@.nodes =~= s2.nodes);
            assert(self@.edges =~= s2.edges);
            assert(self@ =~= s2);
            lemma_staged_add_edge_wf(s, from, to);
        }
    }

    /// Adds an undirected edge between `from` and `to`.  Rejections that need
    /// no validation come first: a self-edge, an unknown endpoint, a crashed
    /// endpoint, two non-relay endpoints, or an edge that is already there
    /// (each leaving the topology untouched).  Otherwise the edge is staged
    /// and the whole invariant set is re-validated: on success the staged
    /// state is kept, on failure the topology is exactly as before.
    pub fn add_edge(&mut self, from: u8, to: u8) -> (r: Result<(), TopologyError>)
        requires
            old(self).wf(),
        ensures
            final(self).wf(),
            final(self)@ == add_edge_next(old(self)@, from, to),
            r is Ok <==> add_edge_accepted(old(self)@, from, to),
            r is Ok ==> final(self)@ == staged_add_edge(old(self)@, from, to) && valid_topology(
                final(self)@,
            ),
            r is Err ==> final(self)@ == old(self)@,
            forall|e: TopologyError|
                add_edge_check(old(self)@, from, to) == Some(e) ==> r == Err::<(), TopologyError>(
                    e,
                ),
            r matches Err(e) ==> (add_edge_check(old(self)@, from, to) == Some(e) || (
            add_edge_check(old(self)@, from, to) is None && !valid_topology(
                staged_add_edge(old(self)@, from, to),
            ) && validator_error(staged_add_edge(old(self)@, from, to), e))),
    {
        if from == to {
            return Err(TopologyError::SelfLoop);
        }
        let ia = match self.find_node(from) {
            Some(i) => i,
            None => {
                return Err(TopologyError::NotFound);
            },
        };
        let ib = match self.find_node(to) {
            Some(i) => i,
            None => {
                return Err(TopologyError::NotFound);
            },
        };
        proof {
            lemma_id_index_unique(self@.nodes, from, ia as int);
            lemma_id_index_unique(self@.nodes, to, ib as int);
        }
        if self.nodes[ia].kind.check_is_crashed() || self.nodes[ib].kind.check_is_crashed() {
            return Err(TopologyError::CrashedEndpoint);
        }
        if !self.nodes[ia].kind.check_is_drone() && !self.nodes[ib].kind.check_is_drone() {
            return Err(TopologyError::NoRelayEndpoint);
        }
        if self.has_edge(from, to) {
            return Err(TopologyError::EdgeExists);
        }
        let mut staged = self.duplicate();
        staged.add_edge_unchecked(from, to);
        match staged.is_valid() {
            Ok(()) => {
                *self = staged;
                Ok(())
            },
            Err(e) => Err(e),
        }
    }
}

/// The adjacency surviving a crash of `id`: every other id.
pub open spec fn adj_keep(id: u8) -> spec_fn(u8) -> bool {
    |v: u8| v != id
}

/// The edges surviving a crash of `id`: those touching it at neither end.
pub open spec fn edge_keep(id: u8) -> spec_fn(EdgeEntry) -> bool {
    |e: EdgeEntry| e.a != id && e.b != id
}

/// A relay's kind with its crashed flag set; other kinds unchanged.
pub open spec fn crash_kind(k: NodeKind) -> NodeKind {
    match k {
        NodeKind::Drone { pdr, crashed: _ } => NodeKind::Drone { pdr, crashed: true },
        other => other,
    }
}

/// The topology with the relay `id` crashed: its crashed flag set, its
/// adjacency cleared, `id` struck from every other adjacency, and every edge
/// touching `id` removed.
pub open spec fn staged_crash(s: NetModel, id: u8) -> NetModel {
    NetModel {
        nodes: s.nodes.map_values(
            |n: NodeModel|
                if n.id == id {
                    NodeModel { kind: crash_kind(n.kind), adj: Seq::empty(), ..n }
                } else {
                    NodeModel { adj: n.adj.filter(adj_keep(id)), ..n }
                },
        ),
        edges: s.edges.filter(edge_keep(id)),
    }
}

/// The early rejections of `crash_drone`, decided before anything is staged.
pub open spec fn crash_check(s: NetModel, id: u8) -> Option<TopologyError> {
    if !id_exists(s.nodes, id) {
        Some(TopologyError::NotFound)
    } else if !node_of(s, id).kind.is_drone() {
        Some(TopologyError::NotADrone)
    } else if node_of(s, id).kind.is_crashed() {
        Some(TopologyError::AlreadyCrashed)
    } else {
        None
    }
}

/// Crashing a relay keeps the representation well-formed.
pub proof fn lemma_staged_crash_wf(s: NetModel, id: u8)
    requires
        wf_model(s),
    ensures
        wf_model(staged_crash(s, id)),
{
    let s2 = staged_crash(s, id);
    let epred = edge_keep(id);
    assert(s2.nodes.len() == s.nodes.len());
    assert(forall|i: int| 0 <= i < s.nodes.len() ==> (#[trigger] s2.nodes[i]).id == s.nodes[i].id);
    assert(ids_distinct(s2.nodes));
    assert forall|x: u8| id_exists(s.nodes, x) implies id_exists(s2.nodes, x) by {
        let k = choose|k: int| 0 <= k < s.nodes.len() && s.nodes[k].id == x;
        assert(s2.nodes[k].id == x);
    }
    lemma_filter_elems(s.edges, epred);
    lemma_filter_keeps(s.edges, epred);
    lemma_filter_keeps_distinct_keys(s.edges, epred, |e: EdgeEntry| (e.a, e.b));
    assert forall|e: int| 0 <= e < s2.edges.len() implies (#[trigger] s2.edges[e]).a
        < s2.edges[e].b && id_exists(s2.nodes, s2.edges[e].a) && id_exists(
        s2.nodes,
        s2.edges[e].b,
    ) by {
        assert(s.edges.contains(s2.edges[e]));
        let t = choose|t: int| 0 <= t < s.edges.len() && s.edges[t] == s2.edges[e];
    }
    assert forall|i: int| 0 <= i < s2.nodes.len() implies seq_distinct(
        (#[trigger] s2.nodes[i]).adj,
    ) by {
        if s.nodes[i].id != id {
            let vpred = adj_keep(id);
            lemma_filter_keeps_distinct_keys(s.nodes[i].adj, vpred, |v: u8| (v, 0u8));
            assert(s2.nodes[i].adj == s.nodes[i].adj.filter(vpred));
            assert forall|k1: int, k2: int|
                0 <= k1 < k2 < s2.nodes[i].adj.len() implies s2.nodes[i].adj[k1]
                != s2.nodes[i].adj[k2] by {
                let kf = |v: u8| (v, 0u8);
                assert(kf(s.nodes[i].adj.filter(vpred)[k1]) != kf(
                    s.nodes[i].adj.filter(vpred)[k2],
                ));
            }
        }
    }
    assert forall|i: int, w: u8| 0 <= i < s2.nodes.len() implies (has_id(s2.nodes[i].adj, w)
        <==> #[trigger] edge_between(s2.edges, s2.nodes[i].id, w)) by {
        let idn = s.nodes[i].id;
        assert(s2.nodes[i].id == idn);
        if idn == id {
            assert(!has_id(s2.nodes[i].adj, w));
            if edge_between(s2.edges, id, w) {
                let e = choose|e: int|
                    0 <= e < s2.edges.len() && (#[trigger] s2.edges[e]).a == lo(id, w)
                        && s2.edges[e].b == hi(id, w);
                assert(epred(s2.edges[e]));
                assert(id == lo(id, w) || id == hi(id, w));
            }
        } else {
            let vpred = adj_keep(id);
            assert(s2.nodes[i].adj == s.nodes[i].adj.filter(vpred));
            lemma_filter_elems(s.nodes[i].adj, vpred);
            lemma_filter_keeps(s.nodes[i].adj, vpred);
            if has_id(s2.nodes[i].adj, w) {
                let k = choose|k: int|
                    0 <= k < s2.nodes[i].adj.len() && s2.nodes[i].adj[k] == w;
                assert(s.nodes[i].adj.contains(w) && w != id);
                assert(has_id(s.nodes[i].adj, w));
                assert(edge_between(s.edges, idn, w));
                let e = choose|e: int|
                    0 <= e < s.edges.len() && (#[trigger] s.edges[e]).a == lo(idn, w)
                        && s.edges[e].b == hi(idn, w);
                assert(epred(s.edges[e]));
                assert(s.edges.filter(epred).contains(s.edges[e]));
                let t = choose|t: int|
                    0 <= t < s2.edges.len() && s2.edges[t] == s.edges[e];
                assert(edge_between(s2.edges, idn, w));
            }
            if edge_between(s2.edges, idn, w) {
                let e = choose|e: int|
                    0 <= e < s2.edges.len() && (#[trigger] s2.edges[e]).a == lo(idn, w)
                        && s2.edges[e].b == hi(idn, w);
                assert(s.edges.contains(s2.edges[e]) && epred(s2.edges[e]));
                let t = choose|t: int| 0 <= t < s.edges.len() && s.edges[t] == s2.edges[e];
                assert(edge_between(s.edges, idn, w));
                assert(has_id(s.nodes[i].adj, w));
                assert(w == s2.edges[e].a || w == s2.edges[e].b);
                assert(w != id);
                let k = choose|k: int|
                    0 <= k < s.nodes[i].adj.len() && s.nodes[i].adj[k] == w;
                assert(vpred(s.nodes[i].adj[k]));
                assert(s.nodes[i].adj.filter(vpred).contains(w));
                let k2 = choose|k2: int|
                    0 <= k2 < s2.nodes[i].adj.len() && s2.nodes[i].adj[k2] == w;
                assert(has_id(s2.nodes[i].adj, w));
            }
        }
    }
}

/// Keeps the ids different from `id`, preserving order.
pub(crate) fn filter_out_id(xs: &Vec<u8>, id: u8) -> (r: Vec<u8>)
    ensures
        r@ == xs@.filter(adj_keep(id)),
{
    let mut r: Vec<u8> = Vec::new();
    let mut k: usize = 0;
    while k < xs.len()
        invariant
            k <= xs.len(),
            r@ == xs@.subrange(0, k as int).filter(adj_keep(id)),
        decreases xs.len() - k,
    {
        let ghost pre = xs@.subrange(0, k as int);
        let ghost cur = xs@.subrange(0, k as int + 1);
        if xs[k] != id {
            r.push(xs[k]);
        }
        proof {
            reveal_with_fuel(Seq::<u8>::filter, 2);
            let pred = adj_keep(id);
            assert(cur.drop_last() == pre);
            assert(cur.last() == xs@[k as int]);
            assert(pred(cur.last()) == (xs@[k as int] != id));
            if pred(cur.last()) {
                assert(cur.filter(pred) == pre.filter(pred).push(cur.last()));
            } else {
                assert(cur.filter(pred) == pre.filter(pred));
            }
        }
        k = k + 1;
    }
    proof {
        assert(xs@.subrange(0, xs@.len() as int) == xs@);
    }
    r
}

/// Keeps the edges that do not touch `id`, preserving order.
fn filter_out_edges(es: &Vec<EdgeEntry>, id: u8) -> (r: Vec<EdgeEntry>)
    ensures
        r@ == es@.filter(edge_keep(id)),
{
    let mut r: Vec<EdgeEntry> = Vec::new();
    let mut k: usize = 0;
    while k < es.len()
        invariant
            k <= es.len(),
            r@ == es@.subrange(0, k as int).filter(edge_keep(id)),
        decreases es.len() - k,
    {
        let ghost pre = es@.subrange(0, k as int);
        let ghost cur = es@.subrange(0, k as int + 1);
        let entry = es[k];
        if entry.a != id && entry.b != id {
            r.push(entry);
        }
        proof {
            reveal_with_fuel(Seq::<EdgeEntry>::filter, 2);
            let pred = edge_keep(id);
            assert(cur.drop_last() == pre);
            assert(cur.last() == es@[k as int]);
            assert(pred(cur.last()) == (es@[k as int].a != id && es@[k as int].b != id));
            if pred(cur.last()) {
                assert(cur.filter(pred) == pre.filter(pred).push(cur.last()));
            } else {
                assert(cur.filter(pred) == pre.filter(pred));
            }
        }
        k = k + 1;
    }
    proof {
        assert(es@.subrange(0, es@.len() as int) == es@);
    }
    r
}

impl Network {
    /// Crashes the relay `id`: rejects if `id` names no record, is not a
    /// relay, or has already crashed.  Otherwise the crash is staged — flag
    /// set, adjacency cleared on both sides, edges removed — and the whole
    /// invariant set is re-validated: on success the staged state is kept,
    /// on failure the topology is exactly as before.  The record itself is
    /// never removed.
    pub fn crash_drone(&mut self, id: u8) -> (r: Result<(), TopologyError>)
        requires
            old(self).wf(),
        ensures
            final(self).wf(),
            final(self)@ == crash_next(old(self)@, id),
            r is Ok <==> crash_accepted(old(self)@, id),
            r is Ok ==> final(self)@ == staged_crash(old(self)@, id) && valid_topology(
                final(self)@,
            ),
            r is Err ==> final(self)@ == old(self)@,
            forall|e: TopologyError|
                crash_check(old(self)@, id) == Some(e) ==> r == Err::<(), TopologyError>(e),
            r matches Err(e) ==> (crash_check(old(self)@, id) == Some(e) || (crash_check(
                old(self)@,
                id,
            ) is None && !valid_topology(staged_crash(old(self)@, id)) && validator_error(
                staged_crash(old(self)@, id),
                e,
            ))),
            // after a successful crash no edge touches `id` ...
            r is Ok ==> forall|e: int|
                0 <= e < final(self)@.edges.len() ==> (#[trigger] final(self)@.edges[e]).a != id
                    && final(self)@.edges[e].b != id,
            // ... no adjacency lists it ...
            r is Ok ==> forall|i: int|
                0 <= i < final(self)@.nodes.len() ==> !has_id(
                    (#[trigger] final(self)@.nodes[i]).adj,
                    id,
                ),
            // ... and its own record remains, crashed, with an empty link set
            r is Ok ==> id_exists(final(self)@.nodes, id) && node_of(final(self)@, id).adj.len()
                == 0 && node_of(final(self)@, id).kind.is_crashed(),
    {
        let ghost s = self@;
        let idx = match self.find_node(id) {
            Some(i) => i,
            None => {
                return Err(TopologyError::NotFound);
            },
        };
        proof {
            lemma_id_index_unique(s.nodes, id, idx as int);
        }
        let pdr = match self.nodes[idx].kind {
            NodeKind::Drone { pdr, crashed } => {
                if crashed {
                    return Err(TopologyError::AlreadyCrashed);
                }
                pdr
            },
            _ => {
                return Err(TopologyError::NotADrone);
            },
        };
        let n = self.nodes.len();
        let mut new_nodes: Vec<NodeRepresentation> = Vec::new();
        let mut j: usize = 0;
        while j < n
            invariant
                s == self@,
                wf_model(s),
                n == s.nodes.len(),
                j <= n,
                idx < n,
                s.nodes[idx as int].id == id,
                s.nodes[idx as int].kind == (NodeKind::Drone { pdr, crashed: false }),
                new_nodes@.len() == j,
                forall|j2: int|
                    0 <= j2 < j ==> (#[trigger] new_nodes@[j2])@ == (if j2 == idx {
                        NodeModel {
                            kind: crash_kind(s.nodes[j2].kind),
                            adj: Seq::empty(),
                            ..s.nodes[j2]
                        }
                    } else {
                        NodeModel { adj: s.nodes[j2].adj.filter(adj_keep(id)), ..s.nodes[j2] }
                    }),
            decreases n - j,
        {
            let mut rec = self.nodes[j].duplicate();
            if j == idx {
                rec.kind = NodeKind::Drone { pdr, crashed: true };
                rec.adj = Vec::new();
                proof {
                    assert(rec@.adj =~= Seq::<u8>::empty());
                }
            } else {
                rec.adj = filter_out_id(&self.nodes[j].adj, id);
            }
            new_nodes.push(rec);
            j = j + 1;
        }
        let new_edges = filter_out_edges(&self.edges, id);
        let staged = Network { nodes: new_nodes, edges: new_edges };
        proof {
            let s2 = staged_crash(s, id);
            assert forall|j2: int| 0 <= j2 < n implies staged@.nodes[j2] == s2.nodes[j2] by {
                assert(s.nodes[j2].id == id <==> j2 == idx);
            }
            assert(staged@.nodes =~= s2.nodes);
            assert(staged@.edges =~= s2.edges);
            assert(staged@ =~= s2);
            lemma_staged_crash_wf(s, id);
        }
        match staged.is_valid() {
            Ok(()) => {
                *self = staged;
                proof {
                    let s2 = staged_crash(s, id);
                    let epred = edge_keep(id);
                    lemma_filter_elems(s.edges, epred);
                    assert forall|e: int| 0 <= e < self@.edges.len() implies (
                    #[trigger] self@.edges[e]).a != id && self@.edges[e].b != id by {
                        assert(epred(s.edges.filter(epred)[e]));
                    }
                    assert forall|i: int| 0 <= i < self@.nodes.len() implies !has_id(
                        (#[trigger] self@.nodes[i]).adj,
                        id,
                    ) by {
                        if s.nodes[i].id != id {
                            let vpred = adj_keep(id);
                            lemma_filter_elems(s.nodes[i].adj, vpred);
                            if has_id(self@.nodes[i].adj, id) {
                                let k = choose|k: int|
                                    0 <= k < self@.nodes[i].adj.len() && self@.nodes[i].adj[k]
                                        == id;
                                assert(vpred(s.nodes[i].adj.filter(vpred)[k]));
                            }
                        }
                    }
                    lemma_id_index_unique(self@.nodes, id, idx as int);
                }
                Ok(())
            },
            Err(e) => Err(e),
        }
    }
}

} // verus!
