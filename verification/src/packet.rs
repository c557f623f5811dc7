//! The controller's view of the payloads and messages that travel through the
//! simulated network.  Payloads are opaque: the only content the controller
//! ever examines is node-id routing information, so that is all these types
//! carry.

use vstd::prelude::*;

verus! {

/// The kind of a payload, used for bookkeeping and display.
#[derive(Debug, PartialEq, Eq, Structural, Clone, Copy)]
pub enum PacketKind {
    MsgFragment,
    Ack,
    Nack,
    FloodRequest,
    FloodResponse,
}

/// The routing information of one payload: its kind, the source route it
/// carries (`hops` plus the index of the current hop), the path trace of a
/// flood request, and its session id.
#[derive(Debug)]
pub struct PacketInfo {
    pub kind: PacketKind,
    pub hops: Vec<u8>,
    pub hop_index: usize,
    pub path_trace: Vec<u8>,
    pub session_id: u64,
}

/// Mathematical value of a [`PacketInfo`].
pub ghost struct PacketModel {
    pub kind: PacketKind,
    pub hops: Seq<u8>,
    pub hop_index: usize,
    pub path_trace: Seq<u8>,
    pub session_id: u64,
}

impl View for PacketInfo {
    type V = PacketModel;

    open spec fn view(&self) -> PacketModel {
        PacketModel {
            kind: self.kind,
            hops: self.hops@,
            hop_index: self.hop_index,
            path_trace: self.path_trace@,
            session_id: self.session_id,
        }
    }
}

impl Clone for PacketInfo {
    fn clone(&self) -> (r: Self)
        ensures
            r@ == self@,
    {
        PacketInfo {
            kind: self.kind,
            hops: clone_ids(&self.hops),
            hop_index: self.hop_index,
            path_trace: clone_ids(&self.path_trace),
            session_id: self.session_id,
        }
    }
}

impl PacketModel {
    /// The final hop of the source route, if there is one.
    pub open spec fn destination(self) -> Option<u8> {
        if self.hops.len() == 0 {
            None
        } else {
            Some(self.hops.last())
        }
    }

    /// The hop the payload currently sits at, if the index is in range.
    pub open spec fn current_hop(self) -> Option<u8> {
        if self.hop_index < self.hops.len() {
            Some(self.hops[self.hop_index as int])
        } else {
            None
        }
    }

    /// The hop the payload came from, if there is one.
    pub open spec fn previous_hop(self) -> Option<u8> {
        if 0 < self.hop_index && self.hop_index - 1 < self.hops.len() {
            Some(self.hops[self.hop_index - 1])
        } else {
            None
        }
    }

    /// The next-to-last entry of a flood request's path trace, if the trace
    /// has at least two entries.  A flood request names no destination, so the
    /// controller falls back on the last edge the request traveled across.
    pub open spec fn trace_before_last(self) -> Option<u8> {
        if self.path_trace.len() >= 2 {
            Some(self.path_trace[self.path_trace.len() - 2])
        } else {
            None
        }
    }

    /// The last entry of a flood request's path trace, if any.
    pub open spec fn trace_last(self) -> Option<u8> {
        if self.path_trace.len() >= 1 {
            Some(self.path_trace.last())
        } else {
            None
        }
    }
}

impl PacketInfo {
    /// The final hop of the source route, if there is one.
    pub fn destination(&self) -> (r: Option<u8>)
        ensures
            r == self@.destination(),
    {
        if self.hops.len() == 0 {
            None
        } else {
            Some(self.hops[self.hops.len() - 1])
        }
    }

    /// The hop the payload currently sits at, if the index is in range.
    pub fn current_hop(&self) -> (r: Option<u8>)
        ensures
            r == self@.current_hop(),
    {
        if self.hop_index < self.hops.len() {
            Some(self.hops[self.hop_index])
        } else {
            None
        }
    }

    /// The hop the payload came from, if there is one.
    pub fn previous_hop(&self) -> (r: Option<u8>)
        ensures
            r == self@.previous_hop(),
    {
        if 0 < self.hop_index && self.hop_index - 1 < self.hops.len() {
            Some(self.hops[self.hop_index - 1])
        } else {
            None
        }
    }

    /// The next-to-last entry of the path trace, if the trace has at least two
    /// entries.
    pub fn trace_before_last(&self) -> (r: Option<u8>)
        ensures
            r == self@.trace_before_last(),
    {
        if self.path_trace.len() >= 2 {
            Some(self.path_trace[self.path_trace.len() - 2])
        } else {
            None
        }
    }

    /// The last entry of the path trace, if any.
    pub fn trace_last(&self) -> (r: Option<u8>)
        ensures
            r == self@.trace_last(),
    {
        if self.path_trace.len() >= 1 {
            Some(self.path_trace[self.path_trace.len() - 1])
        } else {
            None
        }
    }
}

/// Copies a vector of node ids.
pub fn clone_ids(v: &Vec<u8>) -> (r: Vec<u8>)
    ensures
        r@ == v@,
{
    let mut r: Vec<u8> = Vec::new();
    let mut i: usize = 0;
    while i < v.len()
        invariant
            i <= v.len(),
            r@ == v@.subrange(0, i as int),
        decreases v.len() - i,
    {
        r.push(v[i]);
        proof {
            assert(r@ =~= v@.subrange(0, i + 1));
        }
        i = i + 1;
    }
    proof {
        assert(r@ =~= v@);
    }
    r
}

/// What the controller reads of a message exchanged between clients and
/// servers: its session id and its endpoints.
#[derive(Debug, PartialEq, Eq, Structural, Clone, Copy)]
pub struct MessageInfo {
    pub session_id: u64,
    pub source: u8,
    pub destination: u8,
}

/// One node of a topology snapshot reported by a client or server.
/// `neighbors` holds the node ids of its neighbors in the snapshot.
#[derive(Debug)]
pub struct KnownNode {
    pub node_id: u8,
    pub neighbors: Vec<u8>,
}

/// Mathematical value of a [`KnownNode`].
pub ghost struct KnownNodeModel {
    pub node_id: u8,
    pub neighbors: Seq<u8>,
}

impl View for KnownNode {
    type V = KnownNodeModel;

    open spec fn view(&self) -> KnownNodeModel {
        KnownNodeModel { node_id: self.node_id, neighbors: self.neighbors@ }
    }
}

impl Clone for KnownNode {
    fn clone(&self) -> (r: Self)
        ensures
            r@ == self@,
    {
        KnownNode { node_id: self.node_id, neighbors: clone_ids(&self.neighbors) }
    }
}

/// A topology snapshot as one client or server believes it to be.
#[derive(Debug)]
pub struct KnownGraph {
    pub nodes: Vec<KnownNode>,
}

/// Mathematical value of a [`KnownGraph`].
pub ghost struct KnownGraphModel {
    pub nodes: Seq<KnownNodeModel>,
}

impl View for KnownGraph {
    type V = KnownGraphModel;

    open spec fn view(&self) -> KnownGraphModel {
        KnownGraphModel { nodes: self.nodes@.map_values(|n: KnownNode| n@) }
    }
}

impl KnownGraph {
    /// An empty snapshot: what every record starts with.
    pub fn empty() -> (r: KnownGraph)
        ensures
            r@.nodes.len() == 0,
    {
        KnownGraph { nodes: Vec::new() }
    }
}

impl Clone for KnownGraph {
    fn clone(&self) -> (r: Self)
        ensures
            r@ == self@,
    {
        let mut nodes: Vec<KnownNode> = Vec::new();
        let mut i: usize = 0;
        while i < self.nodes.len()
            invariant
                i <= self.nodes.len(),
                nodes@.len() == i,
                forall|j: int| 0 <= j < i ==> nodes@[j]@ == self.nodes@[j]@,
            decreases self.nodes.len() - i,
        {
            nodes.push(self.nodes[i].clone());
            i = i + 1;
        }
        let r = KnownGraph { nodes };
        proof {
            assert(r@.nodes =~= self@.nodes);
            assert(r@ =~= self@);
        }
        r
    }
}

/// Whether every neighbor relation of a reported snapshot is reciprocated:
/// whenever a node lists a neighbor id, every snapshot node carrying that id
/// lists the reporting node's id back.  A neighbor id that names no node of
/// the snapshot constrains nothing.
pub open spec fn symmetric_known_graph(g: KnownGraphModel) -> bool {
    forall|i: int, k: int, j: int|
        #![trigger g.nodes[i].neighbors[k], g.nodes[j].node_id]
        0 <= i < g.nodes.len() && 0 <= k < g.nodes[i].neighbors.len() && 0 <= j < g.nodes.len()
            && g.nodes[j].node_id == g.nodes[i].neighbors[k] ==> g.nodes[j].neighbors.contains(
            g.nodes[i].node_id,
        )
}

/// Checks a reported topology snapshot for internal symmetry: every neighbor
/// relation must be reciprocated by the named node, looked up by its id.
/// Reports that fail this test are discarded by the controller, never applied.
pub fn valid_known_network_graph(g: &KnownGraph) -> (r: bool)
    ensures
        r == symmetric_known_graph(g@),
{
    let ghost gm = g@;
    let n_count = g.nodes.len();
    let mut i: usize = 0;
    while i < n_count
        invariant
            n_count == g.nodes.len(),
            i <= n_count,
            gm == g@,
            forall|i2: int, k2: int, j2: int|
                #![trigger gm.nodes[i2].neighbors[k2], gm.nodes[j2].node_id]
                0 <= i2 < i && 0 <= k2 < gm.nodes[i2].neighbors.len() && 0 <= j2 < gm.nodes.len()
                    && gm.nodes[j2].node_id == gm.nodes[i2].neighbors[k2]
                    ==> gm.nodes[j2].neighbors.contains(gm.nodes[i2].node_id),
        decreases n_count - i,
    {
        let n = &g.nodes[i];
        let mut k: usize = 0;
        while k < n.neighbors.len()
            invariant
                n_count == g.nodes.len(),
                i < n_count,
                k <= n.neighbors.len(),
                gm == g@,
                n == &g.nodes[i as int],
                forall|k2: int, j2: int|
                    #![trigger gm.nodes[i as int].neighbors[k2], gm.nodes[j2].node_id]
                    0 <= k2 < k && 0 <= j2 < gm.nodes.len() && gm.nodes[j2].node_id
                        == gm.nodes[i as int].neighbors[k2] ==> gm.nodes[j2].neighbors.contains(
                        gm.nodes[i as int].node_id,
                    ),
            decreases n.neighbors.len() - k,
        {
            let a = n.neighbors[k];
            let mut j: usize = 0;
            while j < n_count
                invariant
                    n_count == g.nodes.len(),
                    i < n_count,
                    k < n.neighbors.len(),
                    j <= n_count,
                    gm == g@,
                    n == &g.nodes[i as int],
                    a == gm.nodes[i as int].neighbors[k as int],
                    forall|j2: int|
                        0 <= j2 < j && (#[trigger] gm.nodes[j2]).node_id == a
                            ==> gm.nodes[j2].neighbors.contains(gm.nodes[i as int].node_id),
                decreases n_count - j,
            {
                if g.nodes[j].node_id == a {
                    if !contains_id(&g.nodes[j].neighbors, n.node_id) {
                        proof {
                            assert(gm.nodes[i as int] == g.nodes@[i as int]@);
                            assert(gm.nodes[j as int] == g.nodes@[j as int]@);
                            assert(gm.nodes[j as int].node_id
                                == gm.nodes[i as int].neighbors[k as int]);
                            assert(!gm.nodes[j as int].neighbors.contains(
                                gm.nodes[i as int].node_id,
                            ));
                            assert(!symmetric_known_graph(gm));
                        }
                        return false;
                    }
                }
                j = j + 1;
            }
            k = k + 1;
        }
        i = i + 1;
    }
    true
}

/// Whether `v` holds the id `x`.
pub fn contains_id(v: &Vec<u8>, x: u8) -> (r: bool)
    ensures
        r == v@.contains(x),
{
    let mut i: usize = 0;
    while i < v.len()
        invariant
            i <= v.len(),
            forall|j: int| 0 <= j < i ==> v@[j] != x,
        decreases v.len() - i,
    {
        if v[i] == x {
            return true;
        }
        i = i + 1;
    }
    false
}

} // verus!
