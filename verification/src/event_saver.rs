//! Folding the events the worker threads report into the per-node activity
//! records: bounded buffers of recent traffic, transmission bookkeeping, and
//! the freshness annotation of the edge a payload traveled across.

use vstd::prelude::*;

use crate::controller::{ControllerModel, MySimulationController};
use crate::events::{Defect, DroneEvent, DroneEventModel, NodeEvent, NodeEventModel};
use crate::msent::{
    msent_contains_key, msent_evict_oldest, msent_has_key, msent_insert, msent_len, MsentValue,
};
use crate::network::{
    edge_between, hi, id_exists, id_index, lemma_id_index_unique, lemma_records_keep_wf, lo,
    node_of, EdgeEntry, NetModel,
};
use crate::node_representation::NodeModel;
use crate::packet::{symmetric_known_graph, valid_known_network_graph, PacketKind, PacketModel};
use crate::screen::Window;
use crate::transition::sel_inc;

verus! {

/// A buffer bounded by evicting its oldest entry, which sits at the back:
/// the activity buffers grow at the front.
pub open spec fn bounded<T>(s: Seq<T>, max: int) -> Seq<T> {
    if s.len() > max {
        s.drop_last()
    } else {
        s
    }
}

/// A buffer bounded by evicting its oldest entry, which sits at the front:
/// the transmission record grows at the back.
pub open spec fn bounded_front<T>(s: Seq<T>, max: int) -> Seq<T> {
    if s.len() > max {
        s.drop_first()
    } else {
        s
    }
}

/// The peer a sent payload is charged to: a flood request carries no route,
/// so the next-to-last entry of its path trace stands in; every other
/// payload names its current hop.
pub open spec fn sent_peer(p: PacketModel) -> Option<u8> {
    if p.kind == PacketKind::FloodRequest {
        p.trace_before_last()
    } else {
        p.current_hop()
    }
}

/// How one edge-annotation update relates the edge set before and after:
/// endpoints untouched everywhere, and exactly the edge joining `p` and `q`,
/// if one is tracked, carries the new annotation.
pub open spec fn edges_annotated(
    es0: Seq<EdgeEntry>,
    es1: Seq<EdgeEntry>,
    p: u8,
    q: u8,
    pk: PacketKind,
    now: u64,
) -> bool {
    &&& es1.len() == es0.len()
    &&& forall|k: int|
        0 <= k < es0.len() ==> (#[trigger] es1[k]).a == es0[k].a && es1[k].b == es0[k].b
    &&& (p != q && edge_between(es0, p, q) ==> exists|k: int|
        0 <= k < es0.len() && (#[trigger] es0[k]).a == lo(p, q) && es0[k].b == hi(p, q) && es1
            == es0.update(k, EdgeEntry { a: lo(p, q), b: hi(p, q), last: Some((pk, now)) }))
    &&& (!(p != q && edge_between(es0, p, q)) ==> es1 == es0)
}

/// The table row after a node event pushes the view down: only the detail
/// window scrolls, and only when the event belongs to the focused node and
/// the open tab.
pub open spec fn table_after_node_event(c: ControllerModel, ev: NodeEventModel) -> usize {
    match c.screen.window {
        Window::Detail { tab } => match ev {
            NodeEventModel::PacketSent(p) => if tab == 0 && ev.source() == Some(c.screen.focus) {
                sel_inc(c.packet_table_state)
            } else {
                c.packet_table_state
            },
            NodeEventModel::StartingMessageTransmission(m) => if tab == 1 && m.source
                == c.screen.focus {
                sel_inc(c.packet_table_state)
            } else {
                c.packet_table_state
            },
            NodeEventModel::MessageReceived(m) => if tab == 2 && m.destination == c.screen.focus {
                sel_inc(c.packet_table_state)
            } else {
                c.packet_table_state
            },
            _ => c.packet_table_state,
        },
        _ => c.packet_table_state,
    }
}

/// The record a client or server event is folded into: a received message is
/// shown on its destination, everything else on the event's source.
pub open spec fn node_event_target(ev: NodeEventModel, src: u8) -> u8 {
    match ev {
        NodeEventModel::MessageReceived(m) => m.destination,
        _ => src,
    }
}

/// A transmission-record sequence with the entry for `key` replaced.
pub open spec fn msent_updated(
    s: Seq<(u64, MsentValue)>,
    s2: Seq<(u64, MsentValue)>,
    key: u64,
    value: MsentValue,
) -> bool {
    exists|j: int| 0 <= j < s.len() && (#[trigger] s[j]).0 == key && s2 == s.update(j, (key, value))
}

impl MySimulationController {
    /// Folds one client/server event into the model: refreshes the edge a
    /// sent payload traveled across, scrolls the detail table under the
    /// focused node, and updates the target record's buffers.  An event
    /// without a source, or a completion no transmission was recorded for,
    /// is a defect.
    #[verifier::rlimit(100)]
    pub fn save_nodeevent(&mut self, event: &NodeEvent, now: u64) -> (r: Result<(), Defect>)
        requires
            old(self).wf(),
        ensures
            final(self).wf(),
            final(self)@.running == old(self)@.running,
            final(self)@.screen == old(self)@.screen,
            final(self)@.node_list_state == old(self)@.node_list_state,
            final(self)@.max_eventbuffer_dim == old(self)@.max_eventbuffer_dim,
            final(self)@.command_ids == old(self)@.command_ids,
            final(self)@.packet_ids == old(self)@.packet_ids,
            // when the defect cases hold nothing at all has changed
            r matches Err(d) ==> final(self)@ == old(self)@ && ((d == Defect::EventWithoutSource
                && event@.source() is None) || (event@ matches
            NodeEventModel::MessageSentSuccessfully(m) && d == Defect::SuccessWithoutStart(
                m.session_id,
            ))),
            r is Ok <==> (event@.source() is Some && !(event@ matches
            NodeEventModel::MessageSentSuccessfully(m) && id_exists(
                old(self)@.network.nodes,
                m.source,
            ) && !msent_has_key(node_of(old(self)@.network, m.source).msent, m.session_id))),
            // the freshness annotation moves exactly with a sent payload
            r is Ok ==> (match event@ {
                NodeEventModel::PacketSent(p) => match sent_peer(p) {
                    Some(dst) => edges_annotated(
                        old(self)@.network.edges,
                        final(self)@.network.edges,
                        event@.source().unwrap(),
                        dst,
                        p.kind,
                        now,
                    ),
                    None => final(self)@.network.edges == old(self)@.network.edges,
                },
                _ => final(self)@.network.edges == old(self)@.network.edges,
            }),
            r is Ok ==> final(self)@.packet_table_state == table_after_node_event(
                old(self)@,
                event@,
            ),
            // the target record's buffers, when the target exists
            r is Ok ==> ({
                let c = old(self)@;
                let src = event@.source().unwrap();
                let tgt = node_event_target(event@, src);
                if id_exists(c.network.nodes, tgt) {
                    let nd = node_of(c.network, tgt);
                    let ti = id_index(c.network.nodes, tgt);
                    match event@ {
                        NodeEventModel::PacketSent(p) => final(self)@.network.nodes
                            == c.network.nodes.update(
                            ti,
                            (NodeModel {
                                sent: bounded(seq![p] + nd.sent, c.max_eventbuffer_dim as int),
                                ..nd
                            }),
                        ),
                        NodeEventModel::MessageSentSuccessfully(m) => exists|
                            s2: Seq<(u64, MsentValue)>,
                        |
                            msent_updated(
                                nd.msent,
                                s2,
                                m.session_id,
                                (m.source, m.destination, true),
                            ) && final(self)@.network.nodes == c.network.nodes.update(
                                ti,
                                (NodeModel { msent: s2, ..nd }),
                            ),
                        NodeEventModel::StartingMessageTransmission(m) => ({
                            ||| (!msent_has_key(nd.msent, m.session_id) && final(self)@.network.nodes == c.network.nodes.update(
                                ti,
                                (NodeModel {
                                    msent: bounded_front(
                                        nd.msent.push(
                                            (m.session_id, (m.source, m.destination, false)),
                                        ),
                                        c.max_eventbuffer_dim as int,
                                    ),
                                    ..nd
                                }),
                            ))
                            ||| exists|s2: Seq<(u64, MsentValue)>|
                                msent_updated(
                                    nd.msent,
                                    s2,
                                    m.session_id,
                                    (m.source, m.destination, false),
                                ) && final(self)@.network.nodes == c.network.nodes.update(
                                    ti,
                                    (NodeModel {
                                        msent: bounded_front(s2, c.max_eventbuffer_dim as int),
                                        ..nd
                                    }),
                                )
                        }),
                        NodeEventModel::MessageReceived(m) => final(self)@.network.nodes
                            == c.network.nodes.update(
                            ti,
                            (NodeModel {
                                mreceived: bounded(
                                    seq![m] + nd.mreceived,
                                    c.max_eventbuffer_dim as int,
                                ),
                                ..nd
                            }),
                        ),
                        NodeEventModel::KnownNetworkGraph { graph, .. } => final(self)@.network.nodes == c.network.nodes.update(
                            ti,
                            (NodeModel {
                                knowntopology: if symmetric_known_graph(graph) {
                                    graph
                                } else {
                                    nd.knowntopology
                                },
                                ..nd
                            }),
                        ),
                    }
                } else {
                    final(self)@.network.nodes == c.network.nodes
                }
            }),
    {
        let ghost c = self@;
        let src = match event.source() {
            Some(s) => s,
            None => {
                return Err(Defect::EventWithoutSource);
            },
        };
        // refresh the edge the payload traveled across
        if let NodeEvent::PacketSent(p) = event {
            let dst_opt = if matches!(p.kind, PacketKind::FloodRequest) {
                p.trace_before_last()
            } else {
                p.current_hop()
            };
            if let Some(dst) = dst_opt {
                self.network.update_edge_activity(src, dst, p.kind, now);
            }
        }
        // keep the detail table pinned to the newest entry of the focused node
        if let Window::Detail { tab } = self.screen.window {
            match event {
                NodeEvent::PacketSent(_) => {
                    if tab == 0 && src == self.screen.focus {
                        self.packet_table_state = self.packet_table_state.saturating_add(1);
                    }
                },
                NodeEvent::StartingMessageTransmission(m) => {
                    if tab == 1 && m.source == self.screen.focus {
                        self.packet_table_state = self.packet_table_state.saturating_add(1);
                    }
                },
                NodeEvent::MessageReceived(m) => {
                    if tab == 2 && m.destination == self.screen.focus {
                        self.packet_table_state = self.packet_table_state.saturating_add(1);
                    }
                },
                _ => {},
            }
        }
        // fold the event into the target record
        let target = match event {
            NodeEvent::MessageReceived(m) => m.destination,
            _ => src,
        };
        let ghost mid = self@;
        proof {
            assert(mid.network.nodes == c.network.nodes);
        }
        if let Some(idx) = self.network.find_node(target) {
            proof {
                lemma_id_index_unique(mid.network.nodes, target, idx as int);
                lemma_id_index_unique(c.network.nodes, target, idx as int);
            }
            let max = self.max_eventbuffer_dim;
            let ghost nd = node_of(c.network, target);
            let mut rec = self.network.nodes[idx].duplicate();
            proof {
                assert(rec@ == nd);
            }
            match event {
                NodeEvent::PacketSent(p) => {
                    rec.sent.push_front(p.clone());
                    if rec.sent.len() > max {
                        rec.sent.pop_back();
                    }
                    proof {
                        assert(rec@.sent =~= bounded(seq![p@] + nd.sent, max as int));
                        assert(rec@ == (NodeModel {
                            sent: bounded(seq![p@] + nd.sent, max as int),
                            ..nd
                        }));
                    }
                },
                NodeEvent::MessageSentSuccessfully(m) => {
                    if msent_contains_key(&rec.msent, m.session_id) {
                        let _ = msent_insert(
                            &mut rec.msent,
                            m.session_id,
                            (m.source, m.destination, true),
                        );
                        proof {
                            assert(msent_updated(
                                nd.msent,
                                rec@.msent,
                                m.session_id,
                                (m.source, m.destination, true),
                            ));
                            assert(rec@ == (NodeModel { msent: rec@.msent, ..nd }));
                        }
                    } else {
                        return Err(Defect::SuccessWithoutStart(m.session_id));
                    }
                },
                NodeEvent::StartingMessageTransmission(m) => {
                    let ghost before = rec@.msent;
                    let _ = msent_insert(
                        &mut rec.msent,
                        m.session_id,
                        (m.source, m.destination, false),
                    );
                    let ghost inserted = rec@.msent;
                    if msent_len(&rec.msent) > max {
                        let _ = msent_evict_oldest(&mut rec.msent);
                    }
                    proof {
                        assert(rec@.msent == bounded_front(inserted, max as int));
                        if msent_has_key(before, m.session_id) {
                            assert(msent_updated(
                                nd.msent,
                                inserted,
                                m.session_id,
                                (m.source, m.destination, false),
                            ));
                        } else {
                            assert(inserted == nd.msent.push(
                                (m.session_id, (m.source, m.destination, false)),
                            ));
                        }
                        assert(rec@ == (NodeModel {
                            msent: bounded_front(inserted, max as int),
                            ..nd
                        }));
                    }
                },
                NodeEvent::MessageReceived(m) => {
                    rec.mreceived.push_front(*m);
                    if rec.mreceived.len() > max {
                        rec.mreceived.pop_back();
                    }
                    proof {
                        assert(rec@.mreceived =~= bounded(seq![*m] + nd.mreceived, max as int));
                        assert(rec@ == (NodeModel {
                            mreceived: bounded(seq![*m] + nd.mreceived, max as int),
                            ..nd
                        }));
                    }
                },
                NodeEvent::KnownNetworkGraph { graph, .. } => {
                    if valid_known_network_graph(graph) {
                        rec.knowntopology = graph.clone();
                    }
                    proof {
                        assert(rec@ == (NodeModel {
                            knowntopology: if symmetric_known_graph(graph@) {
                                graph@
                            } else {
                                nd.knowntopology
                            },
                            ..nd
                        }));
                    }
                },
            }
            self.network.nodes.set(idx, rec);
            proof {
                assert(self@.network.nodes =~= mid.network.nodes.update(idx as int, rec@));
                lemma_records_keep_wf(mid.network, self@.network);
                lemma_node_update_frames(c.network, mid.network, self@.network, idx as int, rec@);
            }
        }
        Ok(())
    }

    /// Folds one relay event into the model: charges the payload to the
    /// relay it names, refreshes the traveled edge for sent payloads, keeps
    /// the fragment counters, and scrolls the matching detail tab.  A
    /// payload that names no usable hop is a defect.
    #[verifier::rlimit(100)]
    pub fn save_droneevent(&mut self, event: &DroneEvent, now: u64) -> (r: Result<(), Defect>)
        requires
            old(self).wf(),
        ensures
            final(self).wf(),
            final(self)@.running == old(self)@.running,
            final(self)@.screen == old(self)@.screen,
            final(self)@.node_list_state == old(self)@.node_list_state,
            final(self)@.max_eventbuffer_dim == old(self)@.max_eventbuffer_dim,
            final(self)@.command_ids == old(self)@.command_ids,
            final(self)@.packet_ids == old(self)@.packet_ids,
            r matches Err(d) ==> final(self)@ == old(self)@ && (d == Defect::EmptyPathTrace || d
                == Defect::MissingHop),
            r is Ok <==> drone_event_id(event@) is Some,
            r is Ok ==> (match event@ {
                DroneEventModel::PacketSent(p) => match sent_peer(p) {
                    Some(dst) => edges_annotated(
                        old(self)@.network.edges,
                        final(self)@.network.edges,
                        drone_event_id(event@).unwrap(),
                        dst,
                        p.kind,
                        now,
                    ),
                    None => final(self)@.network.edges == old(self)@.network.edges,
                },
                _ => final(self)@.network.edges == old(self)@.network.edges,
            }),
            // the charged relay's record, when it exists
            r is Ok ==> ({
                let c = old(self)@;
                let id = drone_event_id(event@).unwrap();
                if id_exists(c.network.nodes, id) {
                    let nd = node_of(c.network, id);
                    let ti = id_index(c.network.nodes, id);
                    match event@ {
                        DroneEventModel::PacketSent(p) => final(self)@.network.nodes
                            == c.network.nodes.update(
                            ti,
                            (NodeModel {
                                sent: bounded(seq![p] + nd.sent, c.max_eventbuffer_dim as int),
                                n_frags_sent: if p.kind == PacketKind::MsgFragment {
                                    if nd.n_frags_sent < u64::MAX {
                                        (nd.n_frags_sent + 1) as u64
                                    } else {
                                        u64::MAX
                                    }
                                } else {
                                    nd.n_frags_sent
                                },
                                ..nd
                            }),
                        ) && final(self)@.packet_table_state == (if c.screen.window == (
                        Window::Detail { tab: 0 }) {
                            sel_inc(c.packet_table_state)
                        } else {
                            c.packet_table_state
                        }),
                        DroneEventModel::PacketDropped(p) => final(self)@.network.nodes
                            == c.network.nodes.update(
                            ti,
                            (NodeModel {
                                dropped: bounded(
                                    seq![p] + nd.dropped,
                                    c.max_eventbuffer_dim as int,
                                ),
                                n_frags_sent: if nd.n_frags_sent < u64::MAX {
                                    (nd.n_frags_sent + 1) as u64
                                } else {
                                    u64::MAX
                                },
                                n_frags_dropped: if nd.n_frags_dropped < u64::MAX {
                                    (nd.n_frags_dropped + 1) as u64
                                } else {
                                    u64::MAX
                                },
                                ..nd
                            }),
                        ) && final(self)@.packet_table_state == (if c.screen.window == (
                        Window::Detail { tab: 1 }) {
                            sel_inc(c.packet_table_state)
                        } else {
                            c.packet_table_state
                        }),
                        DroneEventModel::ControllerShortcut(p) => final(self)@.network.nodes
                            == c.network.nodes.update(
                            ti,
                            (NodeModel {
                                shortcutted: bounded(
                                    seq![p] + nd.shortcutted,
                                    c.max_eventbuffer_dim as int,
                                ),
                                ..nd
                            }),
                        ) && final(self)@.packet_table_state == (if c.screen.window == (
                        Window::Detail { tab: 2 }) {
                            sel_inc(c.packet_table_state)
                        } else {
                            c.packet_table_state
                        }),
                    }
                } else {
                    final(self)@.network.nodes == c.network.nodes && final(self)@.packet_table_state == c.packet_table_state
                }
            }),
    {
        let ghost c = self@;
        let packet = match event {
            DroneEvent::PacketSent(p) => p,
            DroneEvent::PacketDropped(p) => p,
            DroneEvent::ControllerShortcut(p) => p,
        };
        let id = if matches!(packet.kind, PacketKind::FloodRequest) {
            match packet.trace_last() {
                Some(x) => x,
                None => {
                    return Err(Defect::EmptyPathTrace);
                },
            }
        } else if matches!(event, DroneEvent::PacketDropped(_)) {
            match packet.current_hop() {
                Some(x) => x,
                None => {
                    return Err(Defect::MissingHop);
                },
            }
        } else {
            match packet.previous_hop() {
                Some(x) => x,
                None => {
                    return Err(Defect::MissingHop);
                },
            }
        };
        if let DroneEvent::PacketSent(p) = event {
            let dst_opt = if matches!(p.kind, PacketKind::FloodRequest) {
                p.trace_before_last()
            } else {
                p.current_hop()
            };
            if let Some(dst) = dst_opt {
                self.network.update_edge_activity(id, dst, p.kind, now);
            }
        }
        let ghost mid = self@;
        proof {
            assert(mid.network.nodes == c.network.nodes);
        }
        if let Some(idx) = self.network.find_node(id) {
            proof {
                lemma_id_index_unique(mid.network.nodes, id, idx as int);
                lemma_id_index_unique(c.network.nodes, id, idx as int);
            }
            let max = self.max_eventbuffer_dim;
            let ghost nd = node_of(c.network, id);
            let mut rec = self.network.nodes[idx].duplicate();
            proof {
                assert(rec@ == nd);
            }
            match event {
                DroneEvent::PacketSent(p) => {
                    if matches!(p.kind, PacketKind::MsgFragment) {
                        rec.n_frags_sent = rec.n_frags_sent.saturating_add(1);
                    }
                    rec.sent.push_front(p.clone());
                    if matches!(self.screen.window, Window::Detail { tab: 0 }) {
                        self.packet_table_state = self.packet_table_state.saturating_add(1);
                    }
                    if rec.sent.len() > max {
                        rec.sent.pop_back();
                    }
                    proof {
                        assert(rec@.sent =~= bounded(seq![p@] + nd.sent, max as int));
                        assert(rec@ == (NodeModel {
                            sent: bounded(seq![p@] + nd.sent, max as int),
                            n_frags_sent: rec@.n_frags_sent,
                            ..nd
                        }));
                    }
                },
                DroneEvent::PacketDropped(p) => {
                    rec.n_frags_dropped = rec.n_frags_dropped.saturating_add(1);
                    rec.n_frags_sent = rec.n_frags_sent.saturating_add(1);
                    rec.dropped.push_front(p.clone());
                    if matches!(self.screen.window, Window::Detail { tab: 1 }) {
                        self.packet_table_state = self.packet_table_state.saturating_add(1);
                    }
                    if rec.dropped.len() > max {
                        rec.dropped.pop_back();
                    }
                    proof {
                        assert(rec@.dropped =~= bounded(seq![p@] + nd.dropped, max as int));
                        assert(rec@ == (NodeModel {
                            dropped: bounded(seq![p@] + nd.dropped, max as int),
                            n_frags_sent: rec@.n_frags_sent,
                            n_frags_dropped: rec@.n_frags_dropped,
                            ..nd
                        }));
                    }
                },
                DroneEvent::ControllerShortcut(p) => {
                    rec.shortcutted.push_front(p.clone());
                    if matches!(self.screen.window, Window::Detail { tab: 2 }) {
                        self.packet_table_state = self.packet_table_state.saturating_add(1);
                    }
                    if rec.shortcutted.len() > max {
                        rec.shortcutted.pop_back();
                    }
                    proof {
                        assert(rec@.shortcutted =~= bounded(seq![p@] + nd.shortcutted, max as int));
                        assert(rec@ == (NodeModel {
                            shortcutted: bounded(seq![p@] + nd.shortcutted, max as int),
                            ..nd
                        }));
                    }
                },
            }
            self.network.nodes.set(idx, rec);
            proof {
                assert(self@.network.nodes =~= mid.network.nodes.update(idx as int, rec@));
                lemma_records_keep_wf(mid.network, self@.network);
                lemma_node_update_frames(c.network, mid.network, self@.network, idx as int, rec@);
            }
        }
        Ok(())
    }
}

/// The relay a reported payload is charged to: the last path-trace entry of
/// a flood request, the current hop of a dropped payload, the previous hop
/// otherwise.
pub open spec fn drone_event_id(ev: DroneEventModel) -> Option<u8> {
    match ev {
        DroneEventModel::PacketSent(p) => if p.kind == PacketKind::FloodRequest {
            p.trace_last()
        } else {
            p.previous_hop()
        },
        DroneEventModel::PacketDropped(p) => if p.kind == PacketKind::FloodRequest {
            p.trace_last()
        } else {
            p.current_hop()
        },
        DroneEventModel::ControllerShortcut(p) => if p.kind == PacketKind::FloodRequest {
            p.trace_last()
        } else {
            p.previous_hop()
        },
    }
}

/// Updating one record while the edge annotation step already ran relates
/// the final node list to the original one.
proof fn lemma_node_update_frames(
    s0: NetModel,
    s1: NetModel,
    s2: NetModel,
    idx: int,
    rec: NodeModel,
)
    requires
        s1.nodes == s0.nodes,
        0 <= idx < s1.nodes.len(),
        s2.nodes == s1.nodes.update(idx, rec),
    ensures
        s2.nodes == s0.nodes.update(idx, rec),
{
}

} // verus!
