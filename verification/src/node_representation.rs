//! The controller's record of one worker node: identity, kind, link set,
//! position on the canvas, and bounded buffers of recent activity.

use vstd::prelude::*;

use std::collections::VecDeque;

use indexmap::IndexMap;

use crate::config;
use crate::msent::{msent_clone, msent_entries, msent_get, msent_new, MsentValue};
use crate::node_kind::NodeKind;
use crate::packet::{
    clone_ids, KnownGraph, KnownGraphModel, KnownNodeModel, MessageInfo, PacketInfo, PacketModel,
};

verus! {

/// One node record.  Records are created once and never deleted: a crashed
/// relay becomes an inert record with an empty link set, not a removed one.
#[derive(Debug)]
pub struct NodeRepresentation {
    pub id: u8,
    pub x: u32,
    pub y: u32,
    pub kind: NodeKind,
    /// Ids of the neighbors, without duplicates.
    pub adj: Vec<u8>,
    /// Most recent payloads sent, newest first.
    pub sent: VecDeque<PacketInfo>,
    pub n_frags_sent: u64,
    pub thread_name: String,
    /// Most recent payloads dropped (relays only), newest first.
    pub dropped: VecDeque<PacketInfo>,
    pub n_frags_dropped: u64,
    /// Payloads this relay asked the controller to deliver directly.
    pub shortcutted: VecDeque<PacketInfo>,
    /// Transmissions started by this client or server, keyed by session id,
    /// in the order they started, each with its success flag.
    pub msent: IndexMap<u64, MsentValue>,
    /// Most recent messages received, newest first.
    pub mreceived: VecDeque<MessageInfo>,
    /// The topology as last reported by this client or server.
    pub knowntopology: KnownGraph,
}

/// Mathematical value of a [`NodeRepresentation`].
pub ghost struct NodeModel {
    pub id: u8,
    pub x: u32,
    pub y: u32,
    pub kind: NodeKind,
    pub adj: Seq<u8>,
    pub sent: Seq<PacketModel>,
    pub n_frags_sent: u64,
    pub thread_name: Seq<char>,
    pub dropped: Seq<PacketModel>,
    pub n_frags_dropped: u64,
    pub shortcutted: Seq<PacketModel>,
    pub msent: Seq<(u64, MsentValue)>,
    pub mreceived: Seq<MessageInfo>,
    pub knowntopology: KnownGraphModel,
}

impl View for NodeRepresentation {
    type V = NodeModel;

    open spec fn view(&self) -> NodeModel {
        NodeModel {
            id: self.id,
            x: self.x,
            y: self.y,
            kind: self.kind,
            adj: self.adj@,
            sent: self.sent@.map_values(|p: PacketInfo| p@),
            n_frags_sent: self.n_frags_sent,
            thread_name: self.thread_name@,
            dropped: self.dropped@.map_values(|p: PacketInfo| p@),
            n_frags_dropped: self.n_frags_dropped,
            shortcutted: self.shortcutted@.map_values(|p: PacketInfo| p@),
            msent: msent_entries(self.msent),
            mreceived: self.mreceived@,
            knowntopology: self.knowntopology@,
        }
    }
}

/// The mathematical value of a record fresh out of a constructor: the given
/// identity, position, kind and link set, and every activity buffer empty.
pub open spec fn fresh_model(id: u8, x: u32, y: u32, kind: NodeKind, adj: Seq<u8>) -> NodeModel {
    NodeModel {
        id,
        x,
        y,
        kind,
        adj,
        sent: Seq::empty(),
        n_frags_sent: 0,
        thread_name: Seq::empty(),
        dropped: Seq::empty(),
        n_frags_dropped: 0,
        shortcutted: Seq::empty(),
        msent: Seq::empty(),
        mreceived: Seq::empty(),
        knowntopology: KnownGraphModel { nodes: Seq::empty() },
    }
}

// There is never more than one record per id, so records compare by id.
impl PartialEq for NodeRepresentation {
    fn eq(&self, other: &Self) -> (r: bool) {
        self.id == other.id
    }
}

impl Eq for NodeRepresentation {

}

impl vstd::std_specs::cmp::PartialEqSpecImpl for NodeRepresentation {
    open spec fn obeys_eq_spec() -> bool {
        true
    }

    open spec fn eq_spec(&self, other: &Self) -> bool {
        self.id == other.id
    }
}

impl NodeRepresentation {
    /// A fresh record with the given identity, position, kind and link set,
    /// and every activity buffer empty.
    pub fn new(id: u8, x: u32, y: u32, kind: NodeKind, adj: Vec<u8>) -> (r: NodeRepresentation)
        ensures
            r@ == fresh_model(id, x, y, kind, adj@),
    {
        let r = NodeRepresentation {
            id,
            x,
            y,
            kind,
            adj,
            sent: VecDeque::new(),
            n_frags_sent: 0,
            thread_name: String::new(),
            dropped: VecDeque::new(),
            n_frags_dropped: 0,
            shortcutted: VecDeque::new(),
            msent: msent_new(),
            mreceived: VecDeque::new(),
            knowntopology: KnownGraph::empty(),
        };
        proof {
            Self::lemma_fresh(r, id, x, y, kind, r@.adj);
        }
        r
    }

    /// Helps the constructors: shows a just-built record's value field by
    /// field.
    proof fn lemma_fresh(r: NodeRepresentation, id: u8, x: u32, y: u32, kind: NodeKind, adj: Seq<
        u8,
    >)
        requires
            r@.id == id,
            r@.x == x,
            r@.y == y,
            r@.kind == kind,
            r@.adj == adj,
            r@.sent.len() == 0,
            r@.n_frags_sent == 0,
            r@.thread_name.len() == 0,
            r@.dropped.len() == 0,
            r@.n_frags_dropped == 0,
            r@.shortcutted.len() == 0,
            r@.msent.len() == 0,
            r@.mreceived.len() == 0,
            r@.knowntopology.nodes.len() == 0,
        ensures
            r@ == fresh_model(id, x, y, kind, adj),
    {
        assert(r@.sent =~= Seq::<PacketModel>::empty());
        assert(r@.thread_name =~= Seq::<char>::empty());
        assert(r@.dropped =~= Seq::<PacketModel>::empty());
        assert(r@.shortcutted =~= Seq::<PacketModel>::empty());
        assert(r@.msent =~= Seq::<(u64, MsentValue)>::empty());
        assert(r@.mreceived =~= Seq::<MessageInfo>::empty());
        assert(r@.knowntopology.nodes =~= Seq::<KnownNodeModel>::empty());
        assert(r@.knowntopology == (KnownGraphModel { nodes: Seq::empty() }));
    }

    /// The record of a configured relay.  Its starting position is derived
    /// from its id so the initial layout is deterministic.
    pub fn new_from_cfgdrone(d: &config::Drone) -> (r: NodeRepresentation)
        ensures
            r@.id == d.id,
            r@.x == d.id as u32 / 3 * 5,
            r@.y == d.id as u32 % 3 * 5,
            r@.kind == (NodeKind::Drone { pdr: d.pdr, crashed: false }),
            r@.adj == d.connected_node_ids@,
            r@.sent.len() == 0 && r@.dropped.len() == 0 && r@.shortcutted.len() == 0,
            r@.msent.len() == 0 && r@.mreceived.len() == 0,
            r@.n_frags_sent == 0 && r@.n_frags_dropped == 0,
            r@.knowntopology.nodes.len() == 0,
    {
        NodeRepresentation::new(
            d.id,
            d.id as u32 / 3 * 5,
            d.id as u32 % 3 * 5,
            NodeKind::Drone { pdr: d.pdr, crashed: false },
            clone_ids(&d.connected_node_ids),
        )
    }

    /// The record of a configured client.
    pub fn new_from_cfgclient(c: &config::Client) -> (r: NodeRepresentation)
        ensures
            r@.id == c.id,
            r@.x == c.id as u32 / 3 * 5,
            r@.y == c.id as u32 % 3 * 5,
            r@.kind == NodeKind::Client,
            r@.adj == c.connected_drone_ids@,
            r@.sent.len() == 0 && r@.dropped.len() == 0 && r@.shortcutted.len() == 0,
            r@.msent.len() == 0 && r@.mreceived.len() == 0,
            r@.n_frags_sent == 0 && r@.n_frags_dropped == 0,
            r@.knowntopology.nodes.len() == 0,
    {
        NodeRepresentation::new(
            c.id,
            c.id as u32 / 3 * 5,
            c.id as u32 % 3 * 5,
            NodeKind::Client,
            clone_ids(&c.connected_drone_ids),
        )
    }

    /// The record of a configured server.
    pub fn new_from_cfgserver(s: &config::Server) -> (r: NodeRepresentation)
        ensures
            r@.id == s.id,
            r@.x == s.id as u32 / 3 * 5,
            r@.y == s.id as u32 % 3 * 5,
            r@.kind == NodeKind::Server,
            r@.adj == s.connected_drone_ids@,
            r@.sent.len() == 0 && r@.dropped.len() == 0 && r@.shortcutted.len() == 0,
            r@.msent.len() == 0 && r@.mreceived.len() == 0,
            r@.n_frags_sent == 0 && r@.n_frags_dropped == 0,
            r@.knowntopology.nodes.len() == 0,
    {
        NodeRepresentation::new(
            s.id,
            s.id as u32 / 3 * 5,
            s.id as u32 % 3 * 5,
            NodeKind::Server,
            clone_ids(&s.connected_drone_ids),
        )
    }

    /// Moves the node right on the canvas, stopping at the edge.
    pub fn shiftr(&mut self, offset: u32)
        ensures
            *final(self) == (NodeRepresentation {
                x: old(self).x.saturating_add(offset),
                ..*old(self)
            }),
    {
        self.x = self.x.saturating_add(offset);
    }

    /// Moves the node left on the canvas, stopping at the edge.
    pub fn shiftl(&mut self, offset: u32)
        ensures
            *final(self) == (NodeRepresentation {
                x: old(self).x.saturating_sub(offset),
                ..*old(self)
            }),
    {
        self.x = self.x.saturating_sub(offset);
    }

    /// Moves the node up on the canvas, stopping at the edge.
    pub fn shiftu(&mut self, offset: u32)
        ensures
            *final(self) == (NodeRepresentation {
                y: old(self).y.saturating_add(offset),
                ..*old(self)
            }),
    {
        self.y = self.y.saturating_add(offset);
    }

    /// Moves the node down on the canvas, stopping at the edge.
    pub fn shiftd(&mut self, offset: u32)
        ensures
            *final(self) == (NodeRepresentation {
                y: old(self).y.saturating_sub(offset),
                ..*old(self)
            }),
    {
        self.y = self.y.saturating_sub(offset);
    }

    /// A three-character label for the node, by kind and crash state.
    pub fn short_label(&self) -> (r: String)
        ensures
            self@.kind.is_crashed() ==> r@ == "(X)"@,
            self@.kind.is_drone() && !self@.kind.is_crashed() ==> r@ == "(D)"@,
            self@.kind == NodeKind::Client ==> r@ == "[C]"@,
            self@.kind == NodeKind::Server ==> r@ == "[S]"@,
    {
        match self.kind {
            NodeKind::Drone { crashed, .. } => {
                if crashed {
                    "(X)".to_owned()
                } else {
                    "(D)".to_owned()
                }
            },
            NodeKind::Client => "[C]".to_owned(),
            NodeKind::Server => "[S]".to_owned(),
        }
    }

    /// The transmission record stored for this session id, if any: source,
    /// destination, and whether success has been reported.
    pub fn transmission_record(&self, session_id: u64) -> (r: Option<MsentValue>)
        ensures
            match r {
                Some(v) => exists|i: int|
                    0 <= i < self@.msent.len() && self@.msent[i] == (session_id, v),
                None => forall|i: int| 0 <= i < self@.msent.len() ==> self@.msent[i].0 != session_id,
            },
    {
        let r = msent_get(&self.msent, session_id);
        proof {
            match r {
                Some(v) => {
                    let i = choose|i: int|
                        0 <= i < msent_entries(self.msent).len() && msent_entries(self.msent)[i]
                            == (session_id, v);
                    assert(self@.msent[i] == (session_id, v));
                },
                None => {},
            }
        }
        r
    }

    /// A copy of the record with the same mathematical value.
    pub fn duplicate(&self) -> (r: NodeRepresentation)
        ensures
            r@ == self@,
    {
        let r = NodeRepresentation {
            id: self.id,
            x: self.x,
            y: self.y,
            kind: self.kind,
            adj: clone_ids(&self.adj),
            sent: clone_packets(&self.sent),
            n_frags_sent: self.n_frags_sent,
            thread_name: self.thread_name.clone(),
            dropped: clone_packets(&self.dropped),
            n_frags_dropped: self.n_frags_dropped,
            shortcutted: clone_packets(&self.shortcutted),
            msent: msent_clone(&self.msent),
            mreceived: clone_messages(&self.mreceived),
            knowntopology: self.knowntopology.clone(),
        };
        proof {
            assert(r@ =~= self@);
        }
        r
    }
}

/// Copies a buffer of payload records, preserving order and values.
pub fn clone_packets(v: &VecDeque<PacketInfo>) -> (r: VecDeque<PacketInfo>)
    ensures
        r@.map_values(|p: PacketInfo| p@) == v@.map_values(|p: PacketInfo| p@),
{
    let mut r: VecDeque<PacketInfo> = VecDeque::new();
    let mut i: usize = 0;
    while i < v.len()
        invariant
            i <= v.len(),
            r@.len() == i,
            forall|j: int| 0 <= j < i ==> r@[j]@ == v@[j]@,
        decreases v.len() - i,
    {
        r.push_back(v[i].clone());
        i = i + 1;
    }
    proof {
        assert(r@.map_values(|p: PacketInfo| p@) =~= v@.map_values(|p: PacketInfo| p@));
    }
    r
}

/// Copies a buffer of message records, preserving order and values.
pub fn clone_messages(v: &VecDeque<MessageInfo>) -> (r: VecDeque<MessageInfo>)
    ensures
        r@ == v@,
{
    let mut r: VecDeque<MessageInfo> = VecDeque::new();
    let mut i: usize = 0;
    while i < v.len()
        invariant
            i <= v.len(),
            r@.len() == i,
            forall|j: int| 0 <= j < i ==> r@[j] == v@[j],
        decreases v.len() - i,
    {
        r.push_back(v[i]);
        i = i + 1;
    }
    proof {
        assert(r@ =~= v@);
    }
    r
}

} // verus!
