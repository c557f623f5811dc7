//! The controller's authoritative model of the network: the set of node
//! records plus the set of undirected edges.  Every mutation is validated
//! against the network-formation invariants before it is kept.

use vstd::prelude::*;

use crate::node_representation::{NodeModel, NodeRepresentation};
use crate::packet::PacketKind;

verus! {

/// One undirected edge, canonicalized so that `a < b`, with an optional
/// record of the last payload that traveled across it and when.
#[derive(Debug, PartialEq, Eq, Clone, Copy)]
pub struct EdgeEntry {
    pub a: u8,
    pub b: u8,
    pub last: Option<(PacketKind, u64)>,
}

/// Mathematical value of the whole topology.
pub ghost struct NetModel {
    pub nodes: Seq<NodeModel>,
    pub edges: Seq<EdgeEntry>,
}

/// The lesser endpoint of the unordered pair `{p, q}`.
pub open spec fn lo(p: u8, q: u8) -> u8 {
    if p < q {
        p
    } else {
        q
    }
}

/// The greater endpoint of the unordered pair `{p, q}`.
pub open spec fn hi(p: u8, q: u8) -> u8 {
    if p < q {
        q
    } else {
        p
    }
}

/// Whether some node of `ns` carries the id `id`.
pub open spec fn id_exists(ns: Seq<NodeModel>, id: u8) -> bool {
    exists|i: int| 0 <= i < ns.len() && ns[i].id == id
}

/// The index of the node carrying `id`; meaningful only when `id_exists`
/// holds and ids are distinct.
pub open spec fn id_index(ns: Seq<NodeModel>, id: u8) -> int {
    choose|i: int| 0 <= i < ns.len() && ns[i].id == id
}

/// The record of the node carrying `id`.
pub open spec fn node_of(s: NetModel, id: u8) -> NodeModel {
    s.nodes[id_index(s.nodes, id)]
}

/// Whether an edge joins `p` and `q`, in either orientation.
pub open spec fn edge_between(es: Seq<EdgeEntry>, p: u8, q: u8) -> bool {
    exists|e: int| 0 <= e < es.len() && (#[trigger] es[e]).a == lo(p, q) && es[e].b == hi(p, q)
}

/// No two nodes share an id.
pub open spec fn ids_distinct(ns: Seq<NodeModel>) -> bool {
    forall|i: int, j: int| 0 <= i < j < ns.len() ==> ns[i].id != ns[j].id
}

/// The sequence holds no value twice.
pub open spec fn seq_distinct(s: Seq<u8>) -> bool {
    forall|i: int, j: int| 0 <= i < j < s.len() ==> s[i] != s[j]
}

/// Whether the id `v` occurs in `s`.  A named form of `Seq::contains`, usable
/// as a quantifier trigger.
pub open spec fn has_id(s: Seq<u8>, v: u8) -> bool {
    s.contains(v)
}

/// The id `v` is an active node: it names a record whose kind still takes
/// part in the network (not a crashed relay).
pub open spec fn active_id(s: NetModel, v: u8) -> bool {
    id_exists(s.nodes, v) && node_of(s, v).kind.is_active()
}

/// The id `v` is a relay that has not crashed.
pub open spec fn active_drone_id(s: NetModel, v: u8) -> bool {
    id_exists(s.nodes, v) && node_of(s, v).kind.is_drone() && !node_of(s, v).kind.is_crashed()
}

/// Internal consistency of the representation, maintained by every operation:
/// ids are unique, edges are canonical (`a < b`), name existing nodes and hold
/// no pair twice, adjacency lists hold no duplicates, and the adjacency lists
/// and the edge set describe the same relation.
pub open spec fn wf_model(s: NetModel) -> bool {
    &&& ids_distinct(s.nodes)
    &&& forall|e: int|
        0 <= e < s.edges.len() ==> (#[trigger] s.edges[e]).a < s.edges[e].b && id_exists(
            s.nodes,
            s.edges[e].a,
        ) && id_exists(s.nodes, s.edges[e].b)
    &&& forall|e1: int, e2: int|
        0 <= e1 < e2 < s.edges.len() ==> !((#[trigger] s.edges[e1]).a == (
        #[trigger] s.edges[e2]).a && s.edges[e1].b == s.edges[e2].b)
    &&& forall|i: int| 0 <= i < s.nodes.len() ==> seq_distinct((#[trigger] s.nodes[i]).adj)
    &&& forall|i: int, v: u8|
        0 <= i < s.nodes.len() ==> (#[trigger] has_id(s.nodes[i].adj, v) <==> edge_between(
            s.edges,
            s.nodes[i].id,
            v,
        ))
}

/// Under `wf_model`, adjacency is symmetric, self-free, and only names
/// existing nodes.
pub proof fn lemma_wf_adjacency(s: NetModel)
    requires
        wf_model(s),
    ensures
        forall|i: int, j: int|
            0 <= i < s.nodes.len() && 0 <= j < s.nodes.len() ==> (#[trigger] has_id(
                s.nodes[i].adj,
                s.nodes[j].id,
            ) <==> has_id(s.nodes[j].adj, s.nodes[i].id)),
        forall|i: int| 0 <= i < s.nodes.len() ==> !#[trigger] has_id(s.nodes[i].adj, s.nodes[i].id),
        forall|i: int, v: u8|
            0 <= i < s.nodes.len() && #[trigger] has_id(s.nodes[i].adj, v) ==> id_exists(
                s.nodes,
                v,
            ),
{
    assert forall|i: int, j: int|
        0 <= i < s.nodes.len() && 0 <= j < s.nodes.len() && #[trigger] has_id(
            s.nodes[i].adj,
            s.nodes[j].id,
        ) implies has_id(s.nodes[j].adj, s.nodes[i].id) by {
        assert(edge_between(s.edges, s.nodes[i].id, s.nodes[j].id));
        assert(lo(s.nodes[i].id, s.nodes[j].id) == lo(s.nodes[j].id, s.nodes[i].id));
        assert(hi(s.nodes[i].id, s.nodes[j].id) == hi(s.nodes[j].id, s.nodes[i].id));
        assert(edge_between(s.edges, s.nodes[j].id, s.nodes[i].id));
    }
    assert forall|i: int| 0 <= i < s.nodes.len() implies !#[trigger] has_id(
        s.nodes[i].adj,
        s.nodes[i].id,
    ) by {
        if has_id(s.nodes[i].adj, s.nodes[i].id) {
            let id = s.nodes[i].id;
            assert(edge_between(s.edges, id, id));
            let e = choose|e: int|
                0 <= e < s.edges.len() && (#[trigger] s.edges[e]).a == lo(id, id) && s.edges[e].b
                    == hi(id, id);
            assert(s.edges[e].a < s.edges[e].b);
        }
    }
    assert forall|i: int, v: u8|
        0 <= i < s.nodes.len() && #[trigger] has_id(s.nodes[i].adj, v) implies id_exists(
        s.nodes,
        v,
    ) by {
        let id = s.nodes[i].id;
        assert(edge_between(s.edges, id, v));
        let e = choose|e: int|
            0 <= e < s.edges.len() && (#[trigger] s.edges[e]).a == lo(id, v) && s.edges[e].b == hi(
                id,
                v,
            );
        assert(v == s.edges[e].a || v == s.edges[e].b);
    }
}

/// Under distinct ids, any in-range index whose node carries `id` is
/// `id_index(ns, id)`.
pub proof fn lemma_id_index_unique(ns: Seq<NodeModel>, id: u8, i: int)
    requires
        ids_distinct(ns),
        0 <= i < ns.len(),
        ns[i].id == id,
    ensures
        id_exists(ns, id),
        id_index(ns, id) == i,
{
    assert(id_exists(ns, id));
    let j = id_index(ns, id);
    if i < j {
        assert(ns[i].id != ns[j].id);
    } else if j < i {
        assert(ns[j].id != ns[i].id);
    }
}

/// The controller's authoritative topology.  Every change is meant to go
/// through the validated mutation interface, which keeps [`Network::wf`].
#[derive(Debug)]
pub struct Network {
    pub nodes: Vec<NodeRepresentation>,
    pub edges: Vec<EdgeEntry>,
}

impl View for Network {
    type V = NetModel;

    open spec fn view(&self) -> NetModel {
        NetModel {
            nodes: self.nodes@.map_values(|n: NodeRepresentation| n@),
            edges: self.edges@,
        }
    }
}

impl Network {
    /// Internal consistency of the representation.
    pub open spec fn wf(&self) -> bool {
        wf_model(self@)
    }

    /// The number of node records.
    pub fn node_count(&self) -> (r: usize)
        ensures
            r == self@.nodes.len(),
    {
        self.nodes.len()
    }

    /// The position of the record carrying `id`, if any.
    pub fn find_node(&self, id: u8) -> (r: Option<usize>)
        ensures
            match r {
                Some(i) => i < self@.nodes.len() && self@.nodes[i as int].id == id && forall|j: int|
                    0 <= j < i ==> self@.nodes[j].id != id,
                None => !id_exists(self@.nodes, id),
            },
    {
        let mut i: usize = 0;
        while i < self.nodes.len()
            invariant
                i <= self.nodes.len(),
                forall|j: int| 0 <= j < i ==> self@.nodes[j].id != id,
            decreases self.nodes.len() - i,
        {
            if self.nodes[i].id == id {
                return Some(i);
            }
            i = i + 1;
        }
        None
    }

    /// The record at the given position of the node list, if in range.
    pub fn get_node_from_pos(&self, idx: usize) -> (r: Option<&NodeRepresentation>)
        ensures
            match r {
                Some(n) => idx < self@.nodes.len() && n@ == self@.nodes[idx as int],
                None => idx >= self@.nodes.len(),
            },
    {
        if idx < self.nodes.len() {
            Some(&self.nodes[idx])
        } else {
            None
        }
    }

    /// The record carrying `id`, if any.
    pub fn get_node_from_id(&self, id: u8) -> (r: Option<&NodeRepresentation>)
        ensures
            match r {
                Some(n) => id_exists(self@.nodes, id) && exists|i: int|
                    0 <= i < self@.nodes.len() && self@.nodes[i].id == id && n@ == self@.nodes[i],
                None => !id_exists(self@.nodes, id),
            },
    {
        match self.find_node(id) {
            Some(i) => Some(&self.nodes[i]),
            None => None,
        }
    }

    /// A mutable borrow of the record carrying `id`, if any.  The caller is
    /// responsible for keeping [`Network::wf`]: it holds again as long as
    /// the borrow leaves identity and link set alone.
    pub fn get_mut_node_from_id(&mut self, id: u8) -> (r: Option<&mut NodeRepresentation>)
        ensures
            match r {
                Some(n) => id_exists(old(self)@.nodes, id) && exists|i: int|
                    0 <= i < old(self)@.nodes.len() && old(self)@.nodes[i].id == id && *n
                        == old(self).nodes@[i] && final(self)@.nodes == old(self)@.nodes.update(
                        i,
                        final(n)@,
                    ) && final(self)@.edges == old(self)@.edges,
                None => !id_exists(old(self)@.nodes, id) && final(self)@ == old(self)@,
            },
    {
        match self.find_node(id) {
            Some(i) => Some(&mut self.nodes[i]),
            None => None,
        }
    }

    /// Whether an edge joins `p` and `q`.
    pub fn has_edge(&self, p: u8, q: u8) -> (r: bool)
        ensures
            r == edge_between(self@.edges, p, q),
    {
        let a = if p < q {
            p
        } else {
            q
        };
        let b = if p < q {
            q
        } else {
            p
        };
        let mut e: usize = 0;
        while e < self.edges.len()
            invariant
                e <= self.edges.len(),
                a == lo(p, q),
                b == hi(p, q),
                forall|k: int| 0 <= k < e ==> !((#[trigger] self@.edges[k]).a == a
                    && self@.edges[k].b == b),
            decreases self.edges.len() - e,
        {
            if self.edges[e].a == a && self.edges[e].b == b {
                return true;
            }
            e = e + 1;
        }
        false
    }

    /// A copy of the topology with the same mathematical value; the staging
    /// area of the transactional mutations.
    pub fn duplicate(&self) -> (r: Network)
        ensures
            r@ == self@,
    {
        let mut nodes: Vec<NodeRepresentation> = Vec::new();
        let mut i: usize = 0;
        while i < self.nodes.len()
            invariant
                i <= self.nodes.len(),
                nodes@.len() == i,
                forall|j: int| 0 <= j < i ==> nodes@[j]@ == self.nodes@[j]@,
            decreases self.nodes.len() - i,
        {
            nodes.push(self.nodes[i].duplicate());
            i = i + 1;
        }
        let mut edges: Vec<EdgeEntry> = Vec::new();
        let mut e: usize = 0;
        while e < self.edges.len()
            invariant
                e <= self.edges.len(),
                edges@ == self.edges@.subrange(0, e as int),
            decreases self.edges.len() - e,
        {
            edges.push(self.edges[e]);
            proof {
                assert(edges@ =~= self.edges@.subrange(0, e + 1));
            }
            e = e + 1;
        }
        proof {
            assert(self.edges@.subrange(0, self.edges@.len() as int) =~= self.edges@);
        }
        let r = Network { nodes, edges };
        proof {
            assert(r@.nodes =~= self@.nodes);
            assert(r@ =~= self@);
        }
        r
    }

    /// Records the last payload that traveled across the edge joining `from`
    /// and `to`, together with the caller-supplied timestamp.  If no such
    /// edge is tracked, nothing changes.  This annotation never affects
    /// validity.
    pub fn update_edge_activity(&mut self, from: u8, to: u8, packet_passed: PacketKind, now: u64)
        ensures
            final(self)@.nodes == old(self)@.nodes,
            final(self)@.edges.len() == old(self)@.edges.len(),
            forall|k: int|
                0 <= k < final(self)@.edges.len() ==> (#[trigger] final(self)@.edges[k]).a == old(
                    self,
                )@.edges[k].a && final(self)@.edges[k].b == old(self)@.edges[k].b,
            from != to && edge_between(old(self)@.edges, from, to) ==> exists|k: int|
                0 <= k < final(self)@.edges.len() && old(self)@.edges[k].a == lo(from, to) && old(
                    self,
                )@.edges[k].b == hi(from, to) && final(self)@.edges == old(self)@.edges.update(
                    k,
                    EdgeEntry { a: lo(from, to), b: hi(from, to), last: Some((packet_passed, now)) },
                ),
            !(from != to && edge_between(old(self)@.edges, from, to)) ==> final(self)@.edges == old(
                self,
            )@.edges,
            old(self).wf() ==> final(self).wf(),
    {
        if from == to {
            return ;
        }
        let a = if from < to {
            from
        } else {
            to
        };
        let b = if from < to {
            to
        } else {
            from
        };
        let ghost oldself = self@;
        let mut e: usize = 0;
        while e < self.edges.len()
            invariant
                e <= self.edges.len(),
                a == lo(from, to),
                b == hi(from, to),
                self@ == oldself,
                oldself == old(self)@,
                from != to,
                forall|k: int| 0 <= k < e ==> !((#[trigger] self@.edges[k]).a == a
                    && self@.edges[k].b == b),
            decreases self.edges.len() - e,
        {
            if self.edges[e].a == a && self.edges[e].b == b {
                self.edges.set(e, EdgeEntry { a, b, last: Some((packet_passed, now)) });
                proof {
                    assert(self@.nodes =~= oldself.nodes);
                    if wf_model(oldself) {
                        lemma_update_last_preserves_wf(oldself, self@, e as int);
                    }
                }
                return ;
            }
            e = e + 1;
        }
        proof {
            assert(!edge_between(oldself.edges, from, to));
        }
    }
}

/// Replacing one edge's annotation, keeping its endpoints, preserves
/// well-formedness: no part of `wf_model` reads the annotation.
proof fn lemma_update_last_preserves_wf(s0: NetModel, s1: NetModel, k: int)
    requires
        wf_model(s0),
        s1.nodes == s0.nodes,
        0 <= k < s0.edges.len(),
        s1.edges.len() == s0.edges.len(),
        forall|e: int|
            0 <= e < s0.edges.len() ==> (#[trigger] s1.edges[e]).a == s0.edges[e].a
                && s1.edges[e].b == s0.edges[e].b,
    ensures
        wf_model(s1),
{
    assert forall|i: int, v: u8| 0 <= i < s1.nodes.len() implies (#[trigger] has_id(
        s1.nodes[i].adj,
        v,
    ) <==> edge_between(s1.edges, s1.nodes[i].id, v)) by {
        assert(has_id(s0.nodes[i].adj, v) <==> edge_between(s0.edges, s0.nodes[i].id, v));
        assert forall|p: u8, q: u8| edge_between(s0.edges, p, q) implies edge_between(
            s1.edges,
            p,
            q,
        ) by {
            let e = choose|e: int|
                0 <= e < s0.edges.len() && (#[trigger] s0.edges[e]).a == lo(p, q) && s0.edges[e].b
                    == hi(p, q);
            assert(s1.edges[e].a == lo(p, q) && s1.edges[e].b == hi(p, q));
        }
        assert forall|p: u8, q: u8| edge_between(s1.edges, p, q) implies edge_between(
            s0.edges,
            p,
            q,
        ) by {
            let e = choose|e: int|
                0 <= e < s1.edges.len() && (#[trigger] s1.edges[e]).a == lo(p, q) && s1.edges[e].b
                    == hi(p, q);
            assert(s0.edges[e].a == lo(p, q) && s0.edges[e].b == hi(p, q));
        }
    }
}

/// Changing what records hold beside their identity and link set — kind,
/// position, activity buffers — leaves well-formedness intact.
pub proof fn lemma_records_keep_wf(s: NetModel, s2: NetModel)
    requires
        wf_model(s),
        s2.edges == s.edges,
        s2.nodes.len() == s.nodes.len(),
        forall|i: int|
            0 <= i < s.nodes.len() ==> (#[trigger] s2.nodes[i]).id == s.nodes[i].id
                && s2.nodes[i].adj == s.nodes[i].adj,
    ensures
        wf_model(s2),
{
    assert forall|x: u8| id_exists(s.nodes, x) implies id_exists(s2.nodes, x) by {
        let k2 = choose|k2: int| 0 <= k2 < s.nodes.len() && s.nodes[k2].id == x;
        assert(s2.nodes[k2].id == x);
    }
    assert forall|i: int, v: u8|
        0 <= i < s2.nodes.len() implies (has_id(s2.nodes[i].adj, v) <==> #[trigger] edge_between(
        s2.edges,
        s2.nodes[i].id,
        v,
    )) by {
        assert(has_id(s.nodes[i].adj, v) <==> edge_between(s.edges, s.nodes[i].id, v));
    }
}

} // verus!
