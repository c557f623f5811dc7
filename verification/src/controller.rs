//! The controller: the single owner of the topology and of the channel
//! registry.  Every mutation of the network goes through it, is validated,
//! and, once committed, is turned into the lifecycle commands the
//! surrounding program sends to the worker threads.

use vstd::prelude::*;

use crate::builder::{lemma_add_links_keeps_nodes, spec_build};
use crate::config::Config;
use crate::events::{ActionModel, ControllerError, Defect, DroneCommand, SendAction};
use crate::mutations::{
    add_edge_accepted, add_edge_check, add_edge_next, adj_keep, crash_accepted, crash_check,
    crash_next, staged_add_edge, staged_crash, validator_error,
};
use crate::network::{
    edge_between, has_id, id_exists, id_index, ids_distinct, lemma_id_index_unique, node_of,
    wf_model, NetModel, Network,
};
use crate::node_kind::NodeKind;
use crate::node_representation::{fresh_model, NodeModel, NodeRepresentation};
use crate::packet::{clone_ids, contains_id, PacketInfo, PacketModel};
use crate::screen::{Screen, Window};
use crate::validator::{
    lemma_unmarked_all_false, lemma_unmarked_tail_marked, lemma_unmarked_update, unmarked,
    valid_topology, TopologyError,
};

verus! {

/// What the controller is handed at startup: which nodes have lifecycle and
/// payload channels, the initial configuration, and the capacity of each
/// per-node activity buffer.  The real channel handles and thread handles
/// stay with the surrounding program.
pub struct SimControllerOptions {
    pub command_ids: Vec<u8>,
    pub packet_ids: Vec<u8>,
    pub config: Config,
    pub max_eventbuffer_dim: usize,
}

/// The controller's whole state: the authoritative topology, the view state,
/// and the registry of which nodes can be reached over which channel.
#[derive(Debug)]
pub struct MySimulationController {
    pub running: bool,
    pub network: Network,
    /// The position selected in the node list.
    pub node_list_state: usize,
    /// The row selected in the detail view's table.
    pub packet_table_state: usize,
    pub screen: Screen,
    /// Capacity of each per-node activity buffer.
    pub max_eventbuffer_dim: usize,
    /// Nodes with a lifecycle-command channel.
    pub command_ids: Vec<u8>,
    /// Nodes with a payload channel.
    pub packet_ids: Vec<u8>,
}

/// Mathematical value of the controller state.
pub ghost struct ControllerModel {
    pub running: bool,
    pub network: NetModel,
    pub node_list_state: usize,
    pub packet_table_state: usize,
    pub screen: Screen,
    pub max_eventbuffer_dim: usize,
    pub command_ids: Seq<u8>,
    pub packet_ids: Seq<u8>,
}

impl View for MySimulationController {
    type V = ControllerModel;

    open spec fn view(&self) -> ControllerModel {
        ControllerModel {
            running: self.running,
            network: self.network@,
            node_list_state: self.node_list_state,
            packet_table_state: self.packet_table_state,
            screen: self.screen,
            max_eventbuffer_dim: self.max_eventbuffer_dim,
            command_ids: self.command_ids@,
            packet_ids: self.packet_ids@,
        }
    }
}

impl MySimulationController {
    /// The representation invariant: the topology's.
    pub open spec fn wf(&self) -> bool {
        self.network.wf()
    }

    /// Builds the initial topology from the configuration and rejects a
    /// configuration that violates the invariants.  On success the first
    /// relay of the configuration has focus — a valid topology always has at
    /// least one relay, so that node exists.
    pub fn new(opt: SimControllerOptions) -> (r: Result<MySimulationController, TopologyError>)
        ensures
            r matches Ok(c) ==> spec_build(opt.config) == Ok::<NetModel, TopologyError>(c@.network)
                && c.wf() && valid_topology(c@.network) && c@.running && c@.node_list_state == 0
                && c@.packet_table_state == 0 && c@.max_eventbuffer_dim == opt.max_eventbuffer_dim
                && c@.command_ids == opt.command_ids@ && c@.packet_ids == opt.packet_ids@
                && opt.config.drone@.len() > 0 && c@.screen == (Screen {
                focus: opt.config.drone@[0].id,
                kind: NodeKind::Drone { pdr: opt.config.drone@[0].pdr, crashed: false },
                window: Window::Main,
            }),
            r is Ok <==> (spec_build(opt.config) matches Ok(m) && valid_topology(m)),
            r matches Err(e) ==> spec_build(opt.config) == Err::<NetModel, TopologyError>(e) || (
            spec_build(opt.config) matches Ok(m) && !valid_topology(m) && validator_error(m, e)),
    {
        let network = match Network::new(&opt.config) {
            Ok(n) => n,
            Err(e) => {
                return Err(e);
            },
        };
        proof {
            // a valid topology has a connected, nonempty relay subgraph, and
            // every relay record stems from the configuration's relay list
            let m = network@;
            let base = crate::builder::cfg_models(opt.config);
            lemma_add_links_keeps_nodes(
                NetModel { nodes: base, edges: Seq::empty() },
                crate::builder::declared_links(opt.config),
            );
            let i = choose|i: int| crate::validator::in_scope(m, i, true);
            assert(m.nodes[i].kind.is_drone());
            assert(m.nodes[i].kind == base[i].kind);
            let dn = opt.config.drone@.len() as int;
            let sn = opt.config.server@.len() as int;
            if i >= dn {
                if i < dn + sn {
                    assert(base[i] == crate::builder::server_model(opt.config.server@[i - dn]));
                } else {
                    assert(base[i] == crate::builder::client_model(
                        opt.config.client@[i - dn - sn],
                    ));
                }
            }
            assert(dn > 0);
        }
        let focus = opt.config.drone[0].id;
        let pdr = opt.config.drone[0].pdr;
        Ok(
            MySimulationController {
                running: true,
                network,
                node_list_state: 0,
                packet_table_state: 0,
                screen: Screen {
                    focus,
                    kind: NodeKind::Drone { pdr, crashed: false },
                    window: Window::Main,
                },
                max_eventbuffer_dim: opt.max_eventbuffer_dim,
                command_ids: opt.command_ids,
                packet_ids: opt.packet_ids,
            },
        )
    }

    /// The smallest node id, probing linearly from 1, that no record uses
    /// yet.  With fewer than 255 records such an id always exists.
    pub fn random_unique_id(&self) -> (r: u8)
        requires
            self.wf(),
            self@.network.nodes.len() < 255,
        ensures
            r >= 1,
            !id_exists(self@.network.nodes, r),
            forall|w: u8| 1 <= w < r ==> id_exists(self@.network.nodes, w),
    {
        let ghost s = self@.network;
        let n = self.network.node_count();
        // mark which ids are taken
        let mut used: Vec<bool> = Vec::new();
        let mut b: usize = 0;
        while b < 256
            invariant
                b <= 256,
                used@.len() == b,
                forall|w: int| 0 <= w < b ==> !used@[w],
            decreases 256 - b,
        {
            used.push(false);
            b = b + 1;
        }
        proof {
            lemma_unmarked_all_false(used@, 256);
        }
        let mut j: usize = 0;
        while j < n
            invariant
                s == self@.network,
                n == s.nodes.len(),
                j <= n,
                used@.len() == 256,
                forall|w: int| 0 <= w < 256 && used@[w] ==> id_exists(s.nodes, w as u8),
                forall|j2: int|
                    0 <= j2 < j ==> used@[(#[trigger] s.nodes[j2]).id as int],
                unmarked(used@, 256) >= 256 - j,
            decreases n - j,
        {
            let id = self.network.nodes[j].id;
            proof {
                if !used@[id as int] {
                    lemma_unmarked_update(used@, id as int, 256);
                }
            }
            if !used[id as usize] {
                used.set(id as usize, true);
            }
            proof {
                assert(s.nodes[j as int].id == id);
                assert(id_exists(s.nodes, id));
            }
            j = j + 1;
        }
        // scan for the first unused id from 1
        let mut cand: usize = 1;
        while cand < 256
            invariant
                s == self@.network,
                n == s.nodes.len(),
                n < 255,
                1 <= cand <= 256,
                used@.len() == 256,
                forall|w: int| 0 <= w < 256 && used@[w] ==> id_exists(s.nodes, w as u8),
                forall|j2: int|
                    0 <= j2 < s.nodes.len() ==> used@[(#[trigger] s.nodes[j2]).id as int],
                unmarked(used@, 256) >= 256 - n,
                forall|w: int| 1 <= w < cand ==> used@[w],
            decreases 256 - cand,
        {
            if !used[cand] {
                proof {
                    assert(!id_exists(s.nodes, cand as u8)) by {
                        if id_exists(s.nodes, cand as u8) {
                            let j2 = choose|j2: int|
                                0 <= j2 < s.nodes.len() && s.nodes[j2].id == cand as u8;
                            assert(used@[s.nodes[j2].id as int]);
                        }
                    }
                    assert forall|w: u8| 1 <= w < cand implies id_exists(s.nodes, w) by {
                        assert(used@[w as int]);
                    }
                }
                return cand as u8;
            }
            cand = cand + 1;
        }
        proof {
            lemma_unmarked_tail_marked(used@, 256);
            assert(unmarked(used@, 256) >= 256 - n > 1);
            assert(false);
        }
        1
    }

    /// Creates a fresh relay record with the next free id, the default drop
    /// rate, and no links, registers both its channels, and moves focus and
    /// selection onto it.  The surrounding program spawns the matching
    /// worker thread and channels for the returned id.
    pub fn spawn_drone(&mut self) -> (r: u8)
        requires
            old(self).wf(),
            old(self)@.network.nodes.len() < 255,
        ensures
            final(self).wf(),
            r >= 1,
            !id_exists(old(self)@.network.nodes, r),
            forall|w: u8| 1 <= w < r ==> id_exists(old(self)@.network.nodes, w),
            final(self)@.network.nodes == old(self)@.network.nodes.push(
                fresh_model(r, 0, 0, NodeKind::Drone { pdr: 5, crashed: false }, Seq::empty()),
            ),
            final(self)@.network.edges == old(self)@.network.edges,
            final(self)@.command_ids == old(self)@.command_ids.push(r),
            final(self)@.packet_ids == old(self)@.packet_ids.push(r),
            final(self)@.node_list_state == final(self)@.network.nodes.len() - 1,
            final(self)@.screen == (Screen {
                focus: r,
                kind: NodeKind::Drone { pdr: 5, crashed: false },
                window: old(self)@.screen.window,
            }),
            final(self)@.running == old(self)@.running,
            final(self)@.packet_table_state == old(self)@.packet_table_state,
            final(self)@.max_eventbuffer_dim == old(self)@.max_eventbuffer_dim,
    {
        let ghost s = self@.network;
        let id = self.random_unique_id();
        let kind = NodeKind::Drone { pdr: 5, crashed: false };
        let rec = NodeRepresentation::new(id, 0, 0, kind, Vec::new());
        proof {
            assert(rec@.adj =~= Seq::<u8>::empty());
        }
        self.command_ids.push(id);
        self.packet_ids.push(id);
        self.network.nodes.push(rec);
        self.node_list_state = self.network.nodes.len() - 1;
        self.screen.focus = id;
        self.screen.kind = kind;
        proof {
            let s2 = self@.network;
            assert(s2.nodes =~= s.nodes.push(
                fresh_model(id, 0, 0, NodeKind::Drone { pdr: 5, crashed: false }, Seq::empty()),
            ));
            assert(s2.edges == s.edges);
            // the new record is edgeless and its id is fresh, so every part
            // of well-formedness carries over
            assert forall|i: int, v: u8|
                0 <= i < s2.nodes.len() implies (crate::network::has_id(s2.nodes[i].adj, v)
                <==> #[trigger] edge_between(s2.edges, s2.nodes[i].id, v)) by {
                if i < s.nodes.len() {
                    assert(crate::network::has_id(s.nodes[i].adj, v) <==> edge_between(
                        s.edges,
                        s.nodes[i].id,
                        v,
                    ));
                } else {
                    assert(s2.nodes[i].adj.len() == 0);
                    assert(!crate::network::has_id(s2.nodes[i].adj, v));
                    if edge_between(s2.edges, id, v) {
                        let e = choose|e: int|
                            0 <= e < s2.edges.len() && (#[trigger] s2.edges[e]).a
                                == crate::network::lo(id, v) && s2.edges[e].b
                                == crate::network::hi(id, v);
                        assert(id_exists(s.nodes, s.edges[e].a) && id_exists(s.nodes, s.edges[e].b));
                        assert(id == s.edges[e].a || id == s.edges[e].b);
                        assert(id_exists(s.nodes, id));
                    }
                }
            }
            assert forall|x: u8| id_exists(s.nodes, x) implies id_exists(s2.nodes, x) by {
                let k2 = choose|k2: int| 0 <= k2 < s.nodes.len() && s.nodes[k2].id == x;
                assert(s2.nodes[k2].id == x);
            }
            assert forall|i: int, j: int|
                0 <= i < j < s2.nodes.len() implies s2.nodes[i].id != s2.nodes[j].id by {
                if j == s.nodes.len() {
                    if s.nodes[i].id == id {
                        assert(id_exists(s.nodes, id));
                    }
                }
            }
            assert(final(self).wf()) by {
                assert(wf_model(s2));
            }
        }
        id
    }

    /// Delegates to the topology's `add_edge`; only when the edge commits
    /// does it emit, for each endpoint, the command that teaches it about the
    /// other.  A committed edge whose endpoints lack channels is a defect:
    /// the commit stands (it reflects intended topology) and the controller
    /// escalates.
    pub fn add_connection(&mut self, from: u8, to: u8) -> (r: Result<Vec<SendAction>, ControllerError>)
        requires
            old(self).wf(),
        ensures
            final(self).wf(),
            final(self)@.network == add_edge_next(old(self)@.network, from, to),
            final(self)@ == (ControllerModel { network: final(self)@.network, ..old(self)@ }),
            r is Ok <==> (add_edge_accepted(old(self)@.network, from, to) && has_id(
                old(self)@.command_ids,
                from,
            ) && has_id(old(self)@.command_ids, to) && has_id(old(self)@.packet_ids, to) && has_id(
                old(self)@.packet_ids,
                from,
            )),
            r matches Ok(actions) ==> actions@.len() == 2 && actions@[0]@ == (ActionModel::Command {
                dest: from,
                command: DroneCommand::AddSender(to),
            }) && actions@[1]@ == (ActionModel::Command {
                dest: to,
                command: DroneCommand::AddSender(from),
            }),
            r matches Err(e) ==> (e matches ControllerError::Rejected(t) ==> !add_edge_accepted(
                old(self)@.network,
                from,
                to,
            ) && (add_edge_check(old(self)@.network, from, to) == Some(t) || (add_edge_check(
                old(self)@.network,
                from,
                to,
            ) is None && validator_error(staged_add_edge(old(self)@.network, from, to), t)))),
            r matches Err(e) ==> (e matches ControllerError::Defect(d) ==> add_edge_accepted(
                old(self)@.network,
                from,
                to,
            ) && (d matches Defect::MissingCommandChannel(w) ==> (w == from || w == to) && !has_id(
                old(self)@.command_ids,
                w,
            )) && (d matches Defect::MissingPacketChannel(w) ==> (w == from || w == to) && !has_id(
                old(self)@.packet_ids,
                w,
            ))),
    {
        match self.network.add_edge(from, to) {
            Err(e) => Err(ControllerError::Rejected(e)),
            Ok(()) => {
                if !contains_id(&self.command_ids, from) {
                    return Err(ControllerError::Defect(Defect::MissingCommandChannel(from)));
                }
                if !contains_id(&self.command_ids, to) {
                    return Err(ControllerError::Defect(Defect::MissingCommandChannel(to)));
                }
                if !contains_id(&self.packet_ids, to) {
                    return Err(ControllerError::Defect(Defect::MissingPacketChannel(to)));
                }
                if !contains_id(&self.packet_ids, from) {
                    return Err(ControllerError::Defect(Defect::MissingPacketChannel(from)));
                }
                let mut actions: Vec<SendAction> = Vec::new();
                actions.push(
                    SendAction::Command { dest: from, command: DroneCommand::AddSender(to) },
                );
                actions.push(
                    SendAction::Command { dest: to, command: DroneCommand::AddSender(from) },
                );
                Ok(actions)
            },
        }
    }

    /// Delegates to the topology's `crash_drone`; on commit it emits the
    /// crash command for the target, then one "forget this peer" command for
    /// every neighbor recorded before the edges were cleared, and finally
    /// removes the target's payload channel (its lifecycle channel is kept,
    /// so a late command send has somewhere to go).
    pub fn crash(&mut self, id: u8) -> (r: Result<Vec<SendAction>, ControllerError>)
        requires
            old(self).wf(),
        ensures
            final(self).wf(),
            final(self)@.network == crash_next(old(self)@.network, id),
            final(self)@.running == old(self)@.running,
            final(self)@.screen == old(self)@.screen,
            final(self)@.node_list_state == old(self)@.node_list_state,
            final(self)@.packet_table_state == old(self)@.packet_table_state,
            final(self)@.max_eventbuffer_dim == old(self)@.max_eventbuffer_dim,
            final(self)@.command_ids == old(self)@.command_ids,
            r is Ok ==> final(self)@.packet_ids == old(self)@.packet_ids.filter(adj_keep(id)),
            !(r is Ok) ==> final(self)@.packet_ids == old(self)@.packet_ids,
            r is Ok <==> (crash_accepted(old(self)@.network, id) && has_id(
                old(self)@.command_ids,
                id,
            ) && (forall|k: int|
                0 <= k < node_of(old(self)@.network, id).adj.len() ==> has_id(
                    old(self)@.command_ids,
                    #[trigger] node_of(old(self)@.network, id).adj[k],
                )) && has_id(old(self)@.packet_ids, id)),
            r matches Ok(actions) ==> actions@.len() == 1 + node_of(old(self)@.network, id).adj.len()
                && actions@[0]@ == (ActionModel::Command {
                dest: id,
                command: DroneCommand::Crash,
            }) && forall|k: int|
                0 <= k < node_of(old(self)@.network, id).adj.len() ==> (#[trigger] actions@[k + 1])@
                    == (ActionModel::Command {
                    dest: node_of(old(self)@.network, id).adj[k],
                    command: DroneCommand::RemoveSender(id),
                }),
            r matches Err(e) ==> (e matches ControllerError::Rejected(t) ==> !crash_accepted(
                old(self)@.network,
                id,
            ) && (crash_check(old(self)@.network, id) == Some(t) || (crash_check(
                old(self)@.network,
                id,
            ) is None && validator_error(staged_crash(old(self)@.network, id), t)))),
            r matches Err(e) ==> (e matches ControllerError::Defect(d) ==> crash_accepted(
                old(self)@.network,
                id,
            )),
    {
        let ghost s = self@.network;
        // the neighbors, recorded before the crash clears the edges
        let nbrs: Vec<u8> = match self.network.get_node_from_id(id) {
            Some(n) => clone_ids(&n.adj),
            None => Vec::new(),
        };
        proof {
            if id_exists(s.nodes, id) {
                let i = choose|i: int| 0 <= i < s.nodes.len() && s.nodes[i].id == id;
                lemma_id_index_unique(s.nodes, id, i);
                assert(nbrs@ == node_of(s, id).adj);
            }
        }
        match self.network.crash_drone(id) {
            Err(e) => {
                return Err(ControllerError::Rejected(e));
            },
            Ok(()) => {},
        }
        if !contains_id(&self.command_ids, id) {
            return Err(ControllerError::Defect(Defect::MissingCommandChannel(id)));
        }
        let mut actions: Vec<SendAction> = Vec::new();
        actions.push(SendAction::Command { dest: id, command: DroneCommand::Crash });
        let mut k: usize = 0;
        while k < nbrs.len()
            invariant
                s == old(self)@.network,
                crash_accepted(s, id),
                self.wf(),
                self@.network == crash_next(s, id),
                self@.running == old(self)@.running,
                self@.screen == old(self)@.screen,
                self@.node_list_state == old(self)@.node_list_state,
                self@.packet_table_state == old(self)@.packet_table_state,
                self@.max_eventbuffer_dim == old(self)@.max_eventbuffer_dim,
                self@.packet_ids == old(self)@.packet_ids,
                has_id(old(self)@.command_ids, id),
                k <= nbrs@.len(),
                nbrs@ == node_of(s, id).adj,
                actions@.len() == 1 + k,
                actions@[0]@ == (ActionModel::Command { dest: id, command: DroneCommand::Crash }),
                forall|k2: int|
                    0 <= k2 < k ==> (#[trigger] actions@[k2 + 1])@ == (ActionModel::Command {
                        dest: nbrs@[k2],
                        command: DroneCommand::RemoveSender(id),
                    }),
                forall|k2: int| 0 <= k2 < k ==> has_id(self@.command_ids, #[trigger] nbrs@[k2]),
                self@.command_ids == old(self)@.command_ids,
            decreases nbrs@.len() - k,
        {
            let nb = nbrs[k];
            if !contains_id(&self.command_ids, nb) {
                return Err(ControllerError::Defect(Defect::MissingCommandChannel(nb)));
            }
            actions.push(SendAction::Command { dest: nb, command: DroneCommand::RemoveSender(id) });
            k = k + 1;
        }
        if !contains_id(&self.packet_ids, id) {
            return Err(ControllerError::Defect(Defect::MissingPacketChannel(id)));
        }
        self.packet_ids = crate::mutations::filter_out_id(&self.packet_ids, id);
        Ok(actions)
    }

    /// Sets the focused relay's drop rate, in the record and as a command to
    /// the worker.  Guarded only by "the focus must be a live relay with a
    /// command channel": the drop rate never affects the topology
    /// invariants, so nothing is re-validated.
    pub fn change_pdr(&mut self, newpdr: u32) -> (r: Result<Vec<SendAction>, ControllerError>)
        requires
            old(self).wf(),
        ensures
            final(self).wf(),
            r is Ok <==> (id_exists(old(self)@.network.nodes, old(self)@.screen.focus) && (node_of(
                old(self)@.network,
                old(self)@.screen.focus,
            ).kind matches NodeKind::Drone { crashed: false, .. }) && has_id(
                old(self)@.command_ids,
                old(self)@.screen.focus,
            )),
            r is Ok ==> final(self)@ == (ControllerModel {
                network: NetModel {
                    nodes: old(self)@.network.nodes.update(
                        id_index(old(self)@.network.nodes, old(self)@.screen.focus),
                        (NodeModel {
                            kind: NodeKind::Drone { pdr: newpdr, crashed: false },
                            ..node_of(old(self)@.network, old(self)@.screen.focus)
                        }),
                    ),
                    edges: old(self)@.network.edges,
                },
                ..old(self)@
            }),
            r matches Ok(actions) ==> actions@.len() == 1 && actions@[0]@ == (ActionModel::Command {
                dest: old(self)@.screen.focus,
                command: DroneCommand::SetPacketDropRate(newpdr),
            }),
            r is Err ==> final(self)@ == old(self)@,
            r matches Err(e) ==> e is Defect,
    {
        let ghost s = self@.network;
        let focus = self.screen.focus;
        let idx = match self.network.find_node(focus) {
            Some(i) => i,
            None => {
                return Err(ControllerError::Defect(Defect::UnknownNode(focus)));
            },
        };
        proof {
            lemma_id_index_unique(s.nodes, focus, idx as int);
        }
        let live = matches!(self.network.nodes[idx].kind, NodeKind::Drone { crashed: false, .. });
        if !live {
            return Err(ControllerError::Defect(Defect::NotALiveDrone(focus)));
        }
        if !contains_id(&self.command_ids, focus) {
            return Err(ControllerError::Defect(Defect::MissingCommandChannel(focus)));
        }
        let mut rec = self.network.nodes[idx].duplicate();
        rec.kind = NodeKind::Drone { pdr: newpdr, crashed: false };
        self.network.nodes.set(idx, rec);
        proof {
            let s2 = self@.network;
            assert(s2.nodes =~= s.nodes.update(
                idx as int,
                (NodeModel {
                    kind: NodeKind::Drone { pdr: newpdr, crashed: false },
                    ..node_of(s, focus)
                }),
            ));
            assert(s2.edges == s.edges);
            // only a kind changed: ids and adjacency are untouched, so
            // well-formedness carries over
            assert(ids_distinct(s2.nodes));
            assert forall|i: int, v: u8|
                0 <= i < s2.nodes.len() implies (crate::network::has_id(s2.nodes[i].adj, v)
                <==> #[trigger] edge_between(s2.edges, s2.nodes[i].id, v)) by {
                assert(s2.nodes[i].adj == s.nodes[i].adj);
                assert(s2.nodes[i].id == s.nodes[i].id);
                assert(crate::network::has_id(s.nodes[i].adj, v) <==> edge_between(
                    s.edges,
                    s.nodes[i].id,
                    v,
                ));
            }
            assert forall|x: u8| id_exists(s.nodes, x) implies id_exists(s2.nodes, x) by {
                let k2 = choose|k2: int| 0 <= k2 < s.nodes.len() && s.nodes[k2].id == x;
                assert(s2.nodes[k2].id == x);
            }
            assert(wf_model(s2));
        }
        let mut actions: Vec<SendAction> = Vec::new();
        actions.push(
            SendAction::Command { dest: focus, command: DroneCommand::SetPacketDropRate(newpdr) },
        );
        Ok(actions)
    }

    /// Resolves the direct-delivery bypass for a payload that cannot be
    /// routed the normal way: the destination is the route's final hop, the
    /// position marker is forced onto that hop, and the payload goes out on
    /// the destination's payload channel.  The topology is never touched.
    pub fn shortcut_packet(&self, packet: PacketInfo) -> (r: Result<SendAction, ControllerError>)
        ensures
            r is Ok <==> (packet@.destination() is Some && has_id(
                self@.packet_ids,
                packet@.destination().unwrap(),
            )),
            r matches Ok(a) ==> a@ == (ActionModel::Packet {
                dest: packet@.destination().unwrap(),
                packet: PacketModel { hop_index: (packet@.hops.len() - 1) as usize, ..packet@ },
            }),
            r matches Err(e) ==> e is Defect,
            r == Err::<SendAction, ControllerError>(
                ControllerError::Defect(Defect::NoDestination),
            ) <==> packet@.destination() is None,
    {
        let dst = match packet.destination() {
            Some(d) => d,
            None => {
                return Err(ControllerError::Defect(Defect::NoDestination));
            },
        };
        let mut p = packet;
        if p.hops.len() > 0 {
            p.hop_index = p.hops.len() - 1;
        }
        if !contains_id(&self.packet_ids, dst) {
            return Err(ControllerError::Defect(Defect::MissingPacketChannel(dst)));
        }
        Ok(SendAction::Packet { dest: dst, packet: p })
    }

    /// Classifies a finished worker thread: the only expected exit is a
    /// relay that was commanded to crash and then returned success.
    /// Anything else is a defect the controller escalates.
    pub fn classify_worker_exit(&self, id: u8, exited_ok: bool) -> (r: Result<(), Defect>)
        requires
            self.wf(),
        ensures
            r is Ok <==> (exited_ok && id_exists(self@.network.nodes, id) && node_of(
                self@.network,
                id,
            ).kind.is_crashed()),
    {
        let ghost s = self@.network;
        match self.network.find_node(id) {
            None => Err(Defect::UnknownNode(id)),
            Some(i) => {
                proof {
                    if id_exists(s.nodes, id) {
                        lemma_id_index_unique(s.nodes, id, i as int);
                    }
                    assert(i < self.network.nodes@.len());
                }
                if exited_ok && self.network.nodes[i].kind.check_is_crashed() {
                    Ok(())
                } else {
                    Err(Defect::UnexpectedWorkerExit(id))
                }
            },
        }
    }

    /// Moves the node-list selection one step and lets focus follow it when
    /// the new position names a record.
    pub fn scroll_list(&mut self, up: bool)
        ensures
            final(self)@.node_list_state == (if up {
                if old(self)@.node_list_state > 0 {
                    (old(self)@.node_list_state - 1) as usize
                } else {
                    0usize
                }
            } else {
                if old(self)@.node_list_state < usize::MAX {
                    (old(self)@.node_list_state + 1) as usize
                } else {
                    usize::MAX
                }
            }),
            final(self)@.node_list_state < old(self)@.network.nodes.len() ==> final(self)@.screen
                == (Screen {
                focus: old(self)@.network.nodes[final(self)@.node_list_state as int].id,
                kind: old(self)@.network.nodes[final(self)@.node_list_state as int].kind,
                window: old(self)@.screen.window,
            }),
            final(self)@.node_list_state >= old(self)@.network.nodes.len() ==> final(self)@.screen
                == old(self)@.screen,
            final(self)@ == (ControllerModel {
                node_list_state: final(self)@.node_list_state,
                screen: final(self)@.screen,
                ..old(self)@
            }),
    {
        if up {
            self.node_list_state = self.node_list_state.saturating_sub(1);
        } else {
            self.node_list_state = self.node_list_state.saturating_add(1);
        }
        if let Some(node) = self.network.get_node_from_pos(self.node_list_state) {
            self.screen.focus = node.id;
            self.screen.kind = node.kind;
        }
    }

    /// Resets the selection to the first record and lets focus follow.
    pub fn reset_list(&mut self)
        ensures
            final(self)@.node_list_state == 0,
            old(self)@.network.nodes.len() > 0 ==> final(self)@.screen == (Screen {
                focus: old(self)@.network.nodes[0].id,
                kind: old(self)@.network.nodes[0].kind,
                window: old(self)@.screen.window,
            }),
            old(self)@.network.nodes.len() == 0 ==> final(self)@.screen == old(self)@.screen,
            final(self)@ == (ControllerModel {
                node_list_state: 0,
                screen: final(self)@.screen,
                ..old(self)@
            }),
    {
        self.node_list_state = 0;
        if let Some(node) = self.network.get_node_from_pos(0) {
            self.screen.focus = node.id;
            self.screen.kind = node.kind;
        }
    }
}

} // verus!
