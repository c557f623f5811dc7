//! The topology validator: a pure predicate over a candidate topology that
//! decides the network-formation invariants.  Its core is a reachability
//! check, run once on the whole graph (crashed relays and their edges
//! excluded) and once on the relay-only subgraph.

use vstd::prelude::*;

use crate::network::{
    active_drone_id, active_id, has_id, id_exists, id_index, ids_distinct, lemma_id_index_unique,
    lemma_wf_adjacency, wf_model, NetModel, Network,
};
use crate::node_kind::NodeKind;

verus! {

/// Why a candidate topology, or a proposed mutation, was rejected.
#[derive(Debug, PartialEq, Eq, Structural, Clone, Copy)]
pub enum TopologyError {
    /// An edge would connect a node to itself.
    SelfLoop,
    /// Two nodes share an id.
    DuplicateId,
    /// An operation names a node that has no record.
    NotFound,
    /// An edge would touch a crashed relay.
    CrashedEndpoint,
    /// An edge would join a client or server to another client or server.
    NoRelayEndpoint,
    /// The edge to add is already there.
    EdgeExists,
    /// A client is linked to a node that is not an active relay.
    ClientKind,
    /// A client's relay-neighbor count is not in 1..=2.
    ClientDegree,
    /// A server is linked to a node that is not an active relay.
    ServerKind,
    /// A server's relay-neighbor count is below 2.
    ServerDegree,
    /// The graph, crashed relays excluded, is not connected.
    Disconnected,
    /// The relay-only subgraph, crashed relays excluded, is not connected.
    RelaysDisconnected,
    /// The node to crash is not a relay.
    NotADrone,
    /// The relay to crash has already crashed.
    AlreadyCrashed,
}

impl TopologyError {
    /// A short description of the rejection, for display.
    pub fn describe(&self) -> (r: &'static str)
        ensures
            *self is SelfLoop ==> r@ == "cannot connect node to itself"@,
            *self is DuplicateId ==> r@ == "Duplicate node_id found in Network Initialization File"@,
            *self is NotFound ==> r@ == "node not found in network"@,
            *self is CrashedEndpoint ==> r@ == "cannot connect crashed drone"@,
            *self is NoRelayEndpoint ==> r@ == "at least one endpoint must be a relay"@,
            *self is EdgeExists ==> r@ == "trying to add existing edge"@,
            *self is ClientKind ==> r@ == "Client cannot connect to other clients or servers"@,
            *self is ClientDegree ==> r@ == "Client must connect to at least one and at most two drones"@,
            *self is ServerKind ==> r@ == "Server cannot connect to other clients or servers"@,
            *self is ServerDegree ==> r@ == "Server must connect to at least two drones"@,
            *self is Disconnected ==> r@ == "network must represent a connected and bidirectional graph"@,
            *self is RelaysDisconnected ==> r@ == "clients and servers should be at the edges of the network"@,
            *self is NotADrone ==> r@ == "trying to crash a node that is not a drone"@,
            *self is AlreadyCrashed ==> r@ == "trying to crash already crashed drone"@,
    {
        match self {
            TopologyError::SelfLoop => "cannot connect node to itself",
            TopologyError::DuplicateId => "Duplicate node_id found in Network Initialization File",
            TopologyError::NotFound => "node not found in network",
            TopologyError::CrashedEndpoint => "cannot connect crashed drone",
            TopologyError::NoRelayEndpoint => "at least one endpoint must be a relay",
            TopologyError::EdgeExists => "trying to add existing edge",
            TopologyError::ClientKind => "Client cannot connect to other clients or servers",
            TopologyError::ClientDegree => "Client must connect to at least one and at most two drones",
            TopologyError::ServerKind => "Server cannot connect to other clients or servers",
            TopologyError::ServerDegree => "Server must connect to at least two drones",
            TopologyError::Disconnected => "network must represent a connected and bidirectional graph",
            TopologyError::RelaysDisconnected => "clients and servers should be at the edges of the network",
            TopologyError::NotADrone => "trying to crash a node that is not a drone",
            TopologyError::AlreadyCrashed => "trying to crash already crashed drone",
        }
    }
}

/// Whether the node at index `i` takes part in the traversal: it must be
/// active (not a crashed relay), and, for the relay-only pass, a relay.
pub open spec fn in_scope(s: NetModel, i: int, relays_only: bool) -> bool {
    &&& 0 <= i < s.nodes.len()
    &&& s.nodes[i].kind.is_active()
    &&& relays_only ==> s.nodes[i].kind.is_drone()
}

/// Whether the nodes at indices `i` and `j` are both in scope and `i` lists
/// `j` as a neighbor.
pub open spec fn linked(s: NetModel, i: int, j: int, relays_only: bool) -> bool {
    &&& in_scope(s, i, relays_only)
    &&& in_scope(s, j, relays_only)
    &&& has_id(s.nodes[i].adj, s.nodes[j].id)
}

/// Whether `p` is a walk through in-scope nodes along links.
pub open spec fn is_path(s: NetModel, p: Seq<int>, relays_only: bool) -> bool {
    &&& p.len() >= 1
    &&& forall|k: int| 0 <= k < p.len() ==> in_scope(s, #[trigger] p[k], relays_only)
    &&& forall|k: int| 0 <= k < p.len() - 1 ==> linked(s, #[trigger] p[k], p[k + 1], relays_only)
}

/// Whether some walk leads from index `i` to index `j`.
pub open spec fn reach(s: NetModel, i: int, j: int, relays_only: bool) -> bool {
    exists|p: Seq<int>| is_path(s, p, relays_only) && p.first() == i && p.last() == j
}

/// Whether the subgraph induced by the in-scope nodes is nonempty and
/// connected: every in-scope node can be reached from every other.
pub open spec fn scope_connected(s: NetModel, relays_only: bool) -> bool {
    &&& exists|i: int| in_scope(s, i, relays_only)
    &&& forall|i: int, j: int|
        in_scope(s, i, relays_only) && in_scope(s, j, relays_only) ==> #[trigger] reach(
            s,
            i,
            j,
            relays_only,
        )
}

/// No node lists itself as a neighbor.
pub open spec fn rule_no_self_adjacency(s: NetModel) -> bool {
    forall|i: int| 0 <= i < s.nodes.len() ==> !#[trigger] has_id(s.nodes[i].adj, s.nodes[i].id)
}

/// No two nodes share an id.
pub open spec fn rule_ids_unique(s: NetModel) -> bool {
    ids_distinct(s.nodes)
}

/// The number of neighbors of node `i` that are relays still taking part in
/// the network.
pub open spec fn drone_nbr_count(s: NetModel, i: int) -> int {
    s.nodes[i].adj.filter(|v: u8| active_drone_id(s, v)).len() as int
}

/// What invariant 3 asks of the client at index `i`: every active neighbor is
/// a relay, and its relay-neighbor count is one or two.
pub open spec fn client_ok(s: NetModel, i: int) -> bool {
    &&& forall|v: u8|
        #[trigger] has_id(s.nodes[i].adj, v) && active_id(s, v) ==> active_drone_id(s, v)
    &&& 1 <= drone_nbr_count(s, i) <= 2
}

/// What invariant 4 asks of the server at index `i`: every active neighbor is
/// a relay, and its relay-neighbor count is at least two.
pub open spec fn server_ok(s: NetModel, i: int) -> bool {
    &&& forall|v: u8|
        #[trigger] has_id(s.nodes[i].adj, v) && active_id(s, v) ==> active_drone_id(s, v)
    &&& drone_nbr_count(s, i) >= 2
}

/// Every client satisfies invariant 3.
pub open spec fn rule_client(s: NetModel) -> bool {
    forall|i: int|
        0 <= i < s.nodes.len() && (#[trigger] s.nodes[i]).kind == NodeKind::Client ==> client_ok(
            s,
            i,
        )
}

/// Every server satisfies invariant 4.
pub open spec fn rule_server(s: NetModel) -> bool {
    forall|i: int|
        0 <= i < s.nodes.len() && (#[trigger] s.nodes[i]).kind == NodeKind::Server ==> server_ok(
            s,
            i,
        )
}

/// The whole invariant set of the topology: no self-edges, unique ids, the
/// client and server linking rules, connectivity of the graph with crashed
/// relays excluded, and connectivity of its relay-only subgraph.
pub open spec fn valid_topology(s: NetModel) -> bool {
    &&& rule_no_self_adjacency(s)
    &&& rule_ids_unique(s)
    &&& rule_client(s)
    &&& rule_server(s)
    &&& scope_connected(s, false)
    &&& scope_connected(s, true)
}

/// A node reaches itself by the one-step walk.
pub proof fn lemma_reach_refl(s: NetModel, i: int, relays_only: bool)
    requires
        in_scope(s, i, relays_only),
    ensures
        reach(s, i, i, relays_only),
{
    let p = seq![i];
    assert(is_path(s, p, relays_only));
    assert(p.first() == i && p.last() == i);
}

/// A walk can be extended by one link.
pub proof fn lemma_reach_step(s: NetModel, a: int, b: int, c: int, relays_only: bool)
    requires
        reach(s, a, b, relays_only),
        linked(s, b, c, relays_only),
    ensures
        reach(s, a, c, relays_only),
{
    let p = choose|p: Seq<int>|
        is_path(s, p, relays_only) && p.first() == a && p.last() == b;
    let q = p.push(c);
    assert forall|k: int| 0 <= k < q.len() - 1 implies linked(
        s,
        #[trigger] q[k],
        q[k + 1],
        relays_only,
    ) by {
        if k < p.len() - 1 {
            assert(linked(s, p[k], p[k + 1], relays_only));
        } else {
            assert(q[k] == b && q[k + 1] == c);
        }
    }
    assert(is_path(s, q, relays_only));
    assert(q.first() == a && q.last() == c);
}

/// Reachability is transitive: two walks concatenate.
pub proof fn lemma_reach_trans(s: NetModel, a: int, b: int, c: int, relays_only: bool)
    requires
        reach(s, a, b, relays_only),
        reach(s, b, c, relays_only),
    ensures
        reach(s, a, c, relays_only),
{
    let p = choose|p: Seq<int>|
        is_path(s, p, relays_only) && p.first() == a && p.last() == b;
    let q = choose|q: Seq<int>|
        is_path(s, q, relays_only) && q.first() == b && q.last() == c;
    let r = p + q.drop_first();
    if q.len() == 1 {
        assert(r =~= p);
        assert(is_path(s, r, relays_only) && r.first() == a && r.last() == c);
    } else {
        assert forall|k: int| 0 <= k < r.len() implies in_scope(s, #[trigger] r[k], relays_only) by {
            if k < p.len() {
                assert(in_scope(s, p[k], relays_only));
            } else {
                assert(r[k] == q[k - p.len() + 1]);
                assert(in_scope(s, q[k - p.len() + 1], relays_only));
            }
        }
        assert forall|k: int| 0 <= k < r.len() - 1 implies linked(
            s,
            #[trigger] r[k],
            r[k + 1],
            relays_only,
        ) by {
            if k < p.len() - 1 {
                assert(linked(s, p[k], p[k + 1], relays_only));
            } else if k == p.len() - 1 {
                assert(r[k] == b);
                assert(r[k + 1] == q[1]);
                assert(linked(s, q[0], q[1], relays_only));
            } else {
                assert(r[k] == q[k - p.len() + 1]);
                assert(r[k + 1] == q[k - p.len() + 2]);
                assert(linked(s, q[k - p.len() + 1], q[k - p.len() + 2], relays_only));
            }
        }
        assert(is_path(s, r, relays_only));
        assert(r.first() == a && r.last() == c);
    }
}

/// Under a well-formed representation links are symmetric, so reachability
/// is too: the reversed walk works.
pub proof fn lemma_reach_sym(s: NetModel, a: int, b: int, relays_only: bool)
    requires
        wf_model(s),
        reach(s, a, b, relays_only),
    ensures
        reach(s, b, a, relays_only),
{
    lemma_wf_adjacency(s);
    let p = choose|p: Seq<int>|
        is_path(s, p, relays_only) && p.first() == a && p.last() == b;
    let r = p.reverse();
    assert(r.len() == p.len());
    assert forall|k: int| 0 <= k < r.len() implies in_scope(s, #[trigger] r[k], relays_only) by {
        assert(r[k] == p[p.len() - 1 - k]);
        assert(in_scope(s, p[p.len() - 1 - k], relays_only));
    }
    assert forall|k: int| 0 <= k < r.len() - 1 implies linked(
        s,
        #[trigger] r[k],
        r[k + 1],
        relays_only,
    ) by {
        let k2 = p.len() - 2 - k;
        assert(r[k] == p[k2 + 1]);
        assert(r[k + 1] == p[k2]);
        assert(linked(s, p[k2], p[k2 + 1], relays_only));
        assert(has_id(s.nodes[p[k2]].adj, s.nodes[p[k2 + 1]].id));
        assert(has_id(s.nodes[p[k2 + 1]].adj, s.nodes[p[k2]].id));
    }
    assert(is_path(s, r, relays_only));
    assert(r.first() == b && r.last() == a);
}

/// If a set of marks contains the start of a walk and is closed under links,
/// it contains the end of the walk.
proof fn lemma_marks_follow_path(
    s: NetModel,
    marks: Seq<bool>,
    p: Seq<int>,
    relays_only: bool,
)
    requires
        marks.len() == s.nodes.len(),
        is_path(s, p, relays_only),
        marks[p.first()],
        forall|x: int, y: int|
            0 <= x < marks.len() && marks[x] && #[trigger] linked(s, x, y, relays_only)
                ==> marks[y],
    ensures
        marks[p.last()],
    decreases p.len(),
{
    if p.len() == 1 {
    } else {
        let q = p.drop_last();
        assert(q.first() == p.first());
        assert forall|k: int| 0 <= k < q.len() - 1 implies linked(
            s,
            #[trigger] q[k],
            q[k + 1],
            relays_only,
        ) by {
            assert(linked(s, p[k], p[k + 1], relays_only));
        }
        assert(is_path(s, q, relays_only));
        lemma_marks_follow_path(s, marks, q, relays_only);
        assert(marks[p[p.len() - 2]]);
        assert(linked(s, p[p.len() - 2], p[p.len() - 1], relays_only));
    }
}

/// If the marks contain `start` and are closed under links, they contain
/// everything reachable from `start`.
pub proof fn lemma_marks_contain_reachable(
    s: NetModel,
    marks: Seq<bool>,
    start: int,
    j: int,
    relays_only: bool,
)
    requires
        marks.len() == s.nodes.len(),
        0 <= start < marks.len(),
        marks[start],
        forall|x: int, y: int|
            0 <= x < marks.len() && marks[x] && #[trigger] linked(s, x, y, relays_only)
                ==> marks[y],
        reach(s, start, j, relays_only),
    ensures
        0 <= j < marks.len() && marks[j],
{
    let p = choose|p: Seq<int>|
        is_path(s, p, relays_only) && p.first() == start && p.last() == j;
    assert(in_scope(s, p.last(), relays_only));
    lemma_marks_follow_path(s, marks, p, relays_only);
}

/// The count of unmarked entries among the first `n`; the termination
/// measure of the traversal.
pub closed spec fn unmarked(v: Seq<bool>, n: int) -> int
    decreases n,
{
    if n <= 0 {
        0
    } else {
        unmarked(v, n - 1) + if v[n - 1] {
            0int
        } else {
            1int
        }
    }
}

pub proof fn lemma_unmarked_nonneg(v: Seq<bool>, n: int)
    ensures
        unmarked(v, n) >= 0,
    decreases n,
{
    if n > 0 {
        lemma_unmarked_nonneg(v, n - 1);
    }
}

/// Marking one unmarked entry lowers the count by one.
pub proof fn lemma_unmarked_update(v: Seq<bool>, k: int, n: int)
    requires
        0 <= k < n,
        n <= v.len(),
        !v[k],
    ensures
        unmarked(v.update(k, true), n) == unmarked(v, n) - 1,
    decreases n,
{
    let v2 = v.update(k, true);
    if k == n - 1 {
        lemma_unmarked_agree(v, v2, n - 1);
        assert(v2[n - 1]);
        assert(unmarked(v2, n) == unmarked(v2, n - 1));
        assert(unmarked(v, n) == unmarked(v, n - 1) + 1);
    } else {
        lemma_unmarked_update(v, k, n - 1);
        assert(v2[n - 1] == v[n - 1]);
    }
}

/// The count reads only the first `n` entries.
pub proof fn lemma_unmarked_agree(v1: Seq<bool>, v2: Seq<bool>, n: int)
    requires
        forall|i: int| 0 <= i < n ==> v1[i] == v2[i],
    ensures
        unmarked(v1, n) == unmarked(v2, n),
    decreases n,
{
    if n > 0 {
        lemma_unmarked_agree(v1, v2, n - 1);
    }
}

/// A fully unmarked prefix counts in full.
pub proof fn lemma_unmarked_all_false(v: Seq<bool>, n: int)
    requires
        forall|i: int| 0 <= i < n ==> !v[i],
    ensures
        unmarked(v, n) == if n >= 0 { n } else { 0 },
    decreases n,
{
    if n > 0 {
        lemma_unmarked_all_false(v, n - 1);
    }
}

/// When every entry past the first is marked, at most the first counts.
pub proof fn lemma_unmarked_tail_marked(v: Seq<bool>, n: int)
    requires
        forall|i: int| 1 <= i < n ==> v[i],
    ensures
        unmarked(v, n) <= 1,
    decreases n,
{
    if n > 1 {
        lemma_unmarked_tail_marked(v, n - 1);
    } else if n == 1 {
        assert(unmarked(v, 1) == unmarked(v, 0) + if v[0] { 0int } else { 1int });
    }
}

/// Whether the index `v` occurs in `s`.
pub open spec fn has_index(s: Seq<usize>, v: int) -> bool {
    exists|k: int| 0 <= k < s.len() && s[k] == v
}

impl Network {
    /// Whether the node at position `i` takes part in the traversal selected
    /// by `relays_only`.
    fn node_in_scope(&self, i: usize, relays_only: bool) -> (r: bool)
        requires
            i < self@.nodes.len(),
        ensures
            r == in_scope(self@, i as int, relays_only),
    {
        match self.nodes[i].kind {
            NodeKind::Drone { crashed, .. } => !crashed,
            NodeKind::Client => !relays_only,
            NodeKind::Server => !relays_only,
        }
    }

    /// The first in-scope node, if there is one.
    fn first_in_scope(&self, relays_only: bool) -> (r: Option<usize>)
        ensures
            match r {
                Some(i) => in_scope(self@, i as int, relays_only),
                None => forall|j: int| !in_scope(self@, j, relays_only),
            },
    {
        let mut i: usize = 0;
        while i < self.nodes.len()
            invariant
                i <= self@.nodes.len(),
                forall|j: int| 0 <= j < i ==> !in_scope(self@, j, relays_only),
            decreases self.nodes.len() - i,
        {
            if self.node_in_scope(i, relays_only) {
                return Some(i);
            }
            i = i + 1;
        }
        None
    }

    /// Whether the subgraph of in-scope nodes is nonempty and connected,
    /// decided by a depth-first traversal from the first in-scope node.
    #[verifier::rlimit(100)]
    pub fn is_connected(&self, relays_only: bool) -> (r: bool)
        requires
            self.wf(),
        ensures
            r == scope_connected(self@, relays_only),
    {
        let ghost s = self@;
        let n = self.nodes.len();
        let start = match self.first_in_scope(relays_only) {
            Some(i) => i,
            None => {
                return false;
            },
        };
        let mut visited: Vec<bool> = Vec::new();
        let mut v0: usize = 0;
        while v0 < n
            invariant
                v0 <= n,
                visited@.len() == v0,
                forall|j: int| 0 <= j < v0 ==> !visited@[j],
            decreases n - v0,
        {
            visited.push(false);
            v0 = v0 + 1;
        }
        visited.set(start, true);
        let mut stack: Vec<usize> = Vec::new();
        stack.push(start);
        proof {
            lemma_reach_refl(s, start as int, relays_only);
            lemma_unmarked_nonneg(visited@, n as int);
            assert(stack@[0] == start);
            assert(has_index(stack@, start as int));
            assert(forall|i: int| 0 <= i < n && i != start ==> !visited@[i]);
        }
        while stack.len() != 0
            invariant
                s == self@,
                wf_model(s),
                n == s.nodes.len(),
                visited@.len() == n,
                in_scope(s, start as int, relays_only),
                visited@[start as int],
                forall|k: int|
                    0 <= k < stack@.len() ==> #[trigger] stack@[k] < n && visited@[stack@[k] as int],
                forall|i: int| 0 <= i < n && #[trigger] visited@[i] ==> in_scope(s, i, relays_only),
                forall|i: int|
                    0 <= i < n && #[trigger] visited@[i] ==> reach(s, start as int, i, relays_only),
                forall|x: int, y: int|
                    0 <= x < n && visited@[x] && !has_index(stack@, x) && #[trigger] linked(
                        s,
                        x,
                        y,
                        relays_only,
                    ) ==> visited@[y],
            decreases unmarked(visited@, n as int), stack@.len(),
        {
            let ghost visited_entry = visited@;
            let ghost stack_entry = stack@;
            let v = match stack.pop() {
                Some(v) => v,
                None => {
                    proof {
                        assert(false);
                    }
                    0
                },
            };
            proof {
                assert(stack_entry[stack_entry.len() - 1] == v);
                assert(visited@[v as int]);
                assert(in_scope(s, v as int, relays_only));
                assert(stack@ == stack_entry.drop_last());
                assert forall|x: int| has_index(stack_entry, x) && x != v implies has_index(
                    stack@,
                    x,
                ) by {
                    let k2 = choose|k2: int|
                        0 <= k2 < stack_entry.len() && stack_entry[k2] == x;
                    assert(k2 < stack_entry.len() - 1);
                    assert(stack@[k2] == x);
                }
            }
            let deg = self.nodes[v].adj.len();
            let mut k: usize = 0;
            while k < deg
                invariant
                    s == self@,
                    wf_model(s),
                    n == s.nodes.len(),
                    visited@.len() == n,
                    in_scope(s, start as int, relays_only),
                    visited@[start as int],
                    v < n,
                    visited@[v as int],
                    in_scope(s, v as int, relays_only),
                    deg == s.nodes[v as int].adj.len(),
                    k <= deg,
                    stack_entry.len() >= 1,
                    stack_entry[stack_entry.len() - 1] == v,
                    forall|k2: int|
                        0 <= k2 < stack@.len() ==> #[trigger] stack@[k2] < n
                            && visited@[stack@[k2] as int],
                    forall|i: int|
                        0 <= i < n && #[trigger] visited@[i] ==> in_scope(s, i, relays_only),
                    forall|i: int|
                        0 <= i < n && #[trigger] visited@[i] ==> reach(
                            s,
                            start as int,
                            i,
                            relays_only,
                        ),
                    forall|x: int, y: int|
                        0 <= x < n && visited@[x] && !has_index(stack@, x) && x != v
                            && #[trigger] linked(s, x, y, relays_only) ==> visited@[y],
                    forall|i: int| 0 <= i < n && visited_entry[i] ==> #[trigger] visited@[i],
                    forall|t: int|
                        0 <= t < k && id_exists(s.nodes, #[trigger] s.nodes[v as int].adj[t])
                            && in_scope(
                            s,
                            id_index(s.nodes, s.nodes[v as int].adj[t]),
                            relays_only,
                        ) ==> visited@[id_index(s.nodes, s.nodes[v as int].adj[t])],
                    forall|x: int| has_index(stack_entry, x) && x != v ==> has_index(stack@, x),
                    unmarked(visited@, n as int) <= unmarked(visited_entry, n as int),
                    unmarked(visited@, n as int) < unmarked(visited_entry, n as int) || stack@.len()
                        == stack_entry.len() - 1,
                decreases deg - k,
            {
                let w_id = self.nodes[v].adj[k];
                let ghost stack_before = stack@;
                let ghost visited_before = visited@;
                match self.find_node(w_id) {
                    Some(w) => {
                        proof {
                            lemma_id_index_unique(s.nodes, w_id, w as int);
                        }
                        if self.node_in_scope(w, relays_only) && !visited[w] {
                            proof {
                                lemma_unmarked_update(visited@, w as int, n as int);
                                assert(s.nodes[v as int].adj[k as int] == w_id);
                                assert(s.nodes[v as int].adj.contains(w_id));
                                assert(has_id(s.nodes[v as int].adj, s.nodes[w as int].id));
                                assert(linked(s, v as int, w as int, relays_only));
                                assert(reach(s, start as int, v as int, relays_only));
                                lemma_reach_step(s, start as int, v as int, w as int, relays_only);
                            }
                            visited.set(w, true);
                            stack.push(w);
                            proof {
                                assert forall|x: int|
                                    has_index(stack_before, x) implies has_index(stack@, x) by {
                                    let k2 = choose|k2: int|
                                        0 <= k2 < stack_before.len() && stack_before[k2] == x;
                                    assert(stack@[k2] == x);
                                }
                                assert(stack@[stack@.len() - 1] == w);
                                assert(has_index(stack@, w as int));
                            }
                        }
                    },
                    None => {
                        proof {
                            assert(!id_exists(s.nodes, w_id));
                        }
                    },
                }
                k = k + 1;
            }
            proof {
                lemma_unmarked_nonneg(visited@, n as int);
                // the popped node's neighbors are now all visited, so the
                // closure holds without it sitting on the stack
                assert forall|x: int, y: int|
                    0 <= x < n && visited@[x] && !has_index(stack@, x) && #[trigger] linked(
                        s,
                        x,
                        y,
                        relays_only,
                    ) implies visited@[y] by {
                    if x == v as int {
                        let id_y = s.nodes[y].id;
                        assert(has_id(s.nodes[v as int].adj, id_y));
                        assert(s.nodes[v as int].adj.contains(id_y));
                        let t = choose|t: int|
                            0 <= t < s.nodes[v as int].adj.len() && s.nodes[v as int].adj[t]
                                == id_y;
                        lemma_id_index_unique(s.nodes, id_y, y);
                        assert(id_exists(s.nodes, s.nodes[v as int].adj[t]));
                        assert(visited@[id_index(s.nodes, s.nodes[v as int].adj[t])]);
                    }
                }
            }
        }
        // the stack is empty: the marks are closed under links
        let ghost marks = visited@;
        let mut i: usize = 0;
        while i < n
            invariant
                s == self@,
                wf_model(s),
                n == s.nodes.len(),
                visited@ == marks,
                marks.len() == n,
                i <= n,
                in_scope(s, start as int, relays_only),
                marks[start as int],
                forall|i2: int| 0 <= i2 < n && #[trigger] marks[i2] ==> in_scope(s, i2, relays_only),
                forall|i2: int|
                    0 <= i2 < n && #[trigger] marks[i2] ==> reach(s, start as int, i2, relays_only),
                forall|x: int, y: int|
                    0 <= x < n && marks[x] && #[trigger] linked(s, x, y, relays_only) ==> marks[y],
                forall|j: int| 0 <= j < i && in_scope(s, j, relays_only) ==> marks[j],
            decreases n - i,
        {
            if self.node_in_scope(i, relays_only) && !visited[i] {
                proof {
                    if reach(s, start as int, i as int, relays_only) {
                        lemma_marks_contain_reachable(
                            s,
                            marks,
                            start as int,
                            i as int,
                            relays_only,
                        );
                    }
                    assert(!reach(s, start as int, i as int, relays_only));
                }
                return false;
            }
            i = i + 1;
        }
        proof {
            assert forall|a: int, b: int|
                in_scope(s, a, relays_only) && in_scope(s, b, relays_only) implies #[trigger] reach(
                s,
                a,
                b,
                relays_only,
            ) by {
                assert(marks[a] && marks[b]);
                assert(reach(s, start as int, a, relays_only));
                assert(reach(s, start as int, b, relays_only));
                lemma_reach_sym(s, start as int, a, relays_only);
                lemma_reach_trans(s, a, start as int, b, relays_only);
            }
            assert(in_scope(s, start as int, relays_only));
        }
        true
    }

    /// Decides the full invariant set over the current topology.  Returns
    /// `Ok(())` exactly when every invariant holds; otherwise the error
    /// describes a violated invariant.  Pure: the topology is not changed.
    #[verifier::rlimit(100)]
    pub fn is_valid(&self) -> (r: Result<(), TopologyError>)
        requires
            self.wf(),
        ensures
            r is Ok <==> valid_topology(self@),
            r == Err::<(), TopologyError>(TopologyError::ClientKind) ==> !rule_client(self@),
            r == Err::<(), TopologyError>(TopologyError::ClientDegree) ==> !rule_client(self@),
            r == Err::<(), TopologyError>(TopologyError::ServerKind) ==> !rule_server(self@),
            r == Err::<(), TopologyError>(TopologyError::ServerDegree) ==> !rule_server(self@),
            r == Err::<(), TopologyError>(TopologyError::Disconnected) ==> !scope_connected(
                self@,
                false,
            ),
            r == Err::<(), TopologyError>(TopologyError::RelaysDisconnected) ==> !scope_connected(
                self@,
                true,
            ),
            r is Err ==> (r == Err::<(), TopologyError>(TopologyError::ClientKind) || r == Err::<
                (),
                TopologyError,
            >(TopologyError::ClientDegree) || r == Err::<(), TopologyError>(
                TopologyError::ServerKind,
            ) || r == Err::<(), TopologyError>(TopologyError::ServerDegree) || r == Err::<
                (),
                TopologyError,
            >(TopologyError::Disconnected) || r == Err::<(), TopologyError>(
                TopologyError::RelaysDisconnected,
            )),
    {
        let ghost s = self@;
        proof {
            lemma_wf_adjacency(s);
        }
        let n = self.nodes.len();
        let mut i: usize = 0;
        while i < n
            invariant
                s == self@,
                wf_model(s),
                n == s.nodes.len(),
                i <= n,
                forall|i2: int|
                    0 <= i2 < i && (#[trigger] s.nodes[i2]).kind == NodeKind::Client ==> client_ok(
                        s,
                        i2,
                    ),
                forall|i2: int|
                    0 <= i2 < i && (#[trigger] s.nodes[i2]).kind == NodeKind::Server ==> server_ok(
                        s,
                        i2,
                    ),
            decreases n - i,
        {
            let is_client = matches!(self.nodes[i].kind, NodeKind::Client);
            let is_server = matches!(self.nodes[i].kind, NodeKind::Server);
            if is_client || is_server {
                let deg = self.nodes[i].adj.len();
                let mut count: usize = 0;
                let mut k: usize = 0;
                while k < deg
                    invariant
                        s == self@,
                        wf_model(s),
                        n == s.nodes.len(),
                        i < n,
                        is_client == (s.nodes[i as int].kind == NodeKind::Client),
                        is_server == (s.nodes[i as int].kind == NodeKind::Server),
                        is_client || is_server,
                        deg == s.nodes[i as int].adj.len(),
                        k <= deg,
                        count <= k,
                        count == s.nodes[i as int].adj.subrange(0, k as int).filter(
                            |v: u8| active_drone_id(s, v),
                        ).len(),
                        forall|t: int|
                            0 <= t < k && active_id(s, #[trigger] s.nodes[i as int].adj[t])
                                ==> active_drone_id(s, s.nodes[i as int].adj[t]),
                    decreases deg - k,
                {
                    let ghost pre = s.nodes[i as int].adj.subrange(0, k as int);
                    let ghost cur = s.nodes[i as int].adj.subrange(0, k as int + 1);
                    proof {
                        assert(cur.drop_last() =~= pre);
                        assert(cur.last() == s.nodes[i as int].adj[k as int]);
                    }
                    let v = self.nodes[i].adj[k];
                    match self.find_node(v) {
                        Some(j) => {
                            proof {
                                lemma_id_index_unique(s.nodes, v, j as int);
                            }
                            if self.node_in_scope(j, false) {
                                if self.nodes[j].kind.check_is_drone() {
                                    proof {
                                        assert(active_drone_id(s, v));
                                    }
                                    count = count + 1;
                                } else {
                                    proof {
                                        assert(active_id(s, v) && !active_drone_id(s, v));
                                        assert(has_id(
                                            s.nodes[i as int].adj,
                                            s.nodes[i as int].adj[k as int],
                                        ));
                                        if is_client {
                                            assert(!client_ok(s, i as int));
                                            assert(!rule_client(s));
                                        } else {
                                            assert(!server_ok(s, i as int));
                                            assert(!rule_server(s));
                                        }
                                    }
                                    if is_client {
                                        return Err(TopologyError::ClientKind);
                                    } else {
                                        return Err(TopologyError::ServerKind);
                                    }
                                }
                            } else {
                                proof {
                                    assert(!active_id(s, v));
                                    assert(!active_drone_id(s, v));
                                }
                            }
                        },
                        None => {
                            proof {
                                assert(!id_exists(s.nodes, v));
                                assert(!active_id(s, v));
                                assert(!active_drone_id(s, v));
                            }
                        },
                    }
                    proof {
                        reveal_with_fuel(Seq::<u8>::filter, 2);
                        let pred = |v2: u8| active_drone_id(s, v2);
                        assert(cur.drop_last() == pre);
                        if active_drone_id(s, cur.last()) {
                            assert(cur.filter(pred) == pre.filter(pred).push(cur.last()));
                        } else {
                            assert(cur.filter(pred) == pre.filter(pred));
                        }
                    }
                    k = k + 1;
                }
                proof {
                    assert(s.nodes[i as int].adj.subrange(0, deg as int) =~= s.nodes[i as int].adj);
                    assert(count == drone_nbr_count(s, i as int));
                    assert forall|v: u8|
                        #[trigger] has_id(s.nodes[i as int].adj, v) && active_id(s, v)
                            implies active_drone_id(s, v) by {
                        let t = choose|t: int|
                            0 <= t < s.nodes[i as int].adj.len() && s.nodes[i as int].adj[t] == v;
                    }
                }
                if is_client {
                    if count < 1 || count > 2 {
                        proof {
                            assert(!client_ok(s, i as int));
                        }
                        return Err(TopologyError::ClientDegree);
                    }
                    proof {
                        assert(client_ok(s, i as int));
                    }
                } else {
                    if count < 2 {
                        proof {
                            assert(!server_ok(s, i as int));
                        }
                        return Err(TopologyError::ServerDegree);
                    }
                    proof {
                        assert(server_ok(s, i as int));
                    }
                }
            }
            i = i + 1;
        }
        if !self.is_connected(false) {
            return Err(TopologyError::Disconnected);
        }
        if !self.is_connected(true) {
            return Err(TopologyError::RelaysDisconnected);
        }
        proof {
            assert(rule_no_self_adjacency(s));
            assert(rule_ids_unique(s));
            assert(rule_client(s));
            assert(rule_server(s));
        }
        Ok(())
    }
}

} // verus!
