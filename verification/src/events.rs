//! The events the worker threads report to the controller, and the lifecycle
//! commands the controller sends back.  The real channels carry richer
//! values; these types hold exactly what the controller's logic reads, and
//! the surrounding program converts at the boundary.

use vstd::prelude::*;

use crate::packet::{KnownGraph, KnownGraphModel, MessageInfo, PacketInfo, PacketModel};
use crate::validator::TopologyError;

verus! {

/// What a relay reports on the relay-event channel.
#[derive(Debug)]
pub enum DroneEvent {
    PacketSent(PacketInfo),
    PacketDropped(PacketInfo),
    /// A payload the relay could not route and hands to the controller for
    /// direct delivery.
    ControllerShortcut(PacketInfo),
}

/// What a client or server reports on the node-event channel.
#[derive(Debug)]
pub enum NodeEvent {
    PacketSent(PacketInfo),
    /// A transmission reported complete, by session id.
    MessageSentSuccessfully(MessageInfo),
    /// A transmission starting, by session id.
    StartingMessageTransmission(MessageInfo),
    MessageReceived(MessageInfo),
    /// The reporting node's own view of the topology.
    KnownNetworkGraph { source: u8, graph: KnownGraph },
}

/// Mathematical value of a [`NodeEvent`].
pub ghost enum NodeEventModel {
    PacketSent(PacketModel),
    MessageSentSuccessfully(MessageInfo),
    StartingMessageTransmission(MessageInfo),
    MessageReceived(MessageInfo),
    KnownNetworkGraph { source: u8, graph: KnownGraphModel },
}

impl View for NodeEvent {
    type V = NodeEventModel;

    open spec fn view(&self) -> NodeEventModel {
        match self {
            NodeEvent::PacketSent(p) => NodeEventModel::PacketSent(p@),
            NodeEvent::MessageSentSuccessfully(m) => NodeEventModel::MessageSentSuccessfully(*m),
            NodeEvent::StartingMessageTransmission(m) => NodeEventModel::StartingMessageTransmission(
                *m,
            ),
            NodeEvent::MessageReceived(m) => NodeEventModel::MessageReceived(*m),
            NodeEvent::KnownNetworkGraph { source, graph } => NodeEventModel::KnownNetworkGraph {
                source: *source,
                graph: graph@,
            },
        }
    }
}

/// Mathematical value of a [`DroneEvent`].
pub ghost enum DroneEventModel {
    PacketSent(PacketModel),
    PacketDropped(PacketModel),
    ControllerShortcut(PacketModel),
}

impl View for DroneEvent {
    type V = DroneEventModel;

    open spec fn view(&self) -> DroneEventModel {
        match self {
            DroneEvent::PacketSent(p) => DroneEventModel::PacketSent(p@),
            DroneEvent::PacketDropped(p) => DroneEventModel::PacketDropped(p@),
            DroneEvent::ControllerShortcut(p) => DroneEventModel::ControllerShortcut(p@),
        }
    }
}

impl NodeEventModel {
    /// The node an event is attributed to: the first hop of a sent payload's
    /// route, a message's source, or a report's declared source.
    pub open spec fn source(self) -> Option<u8> {
        match self {
            NodeEventModel::PacketSent(p) => if p.hops.len() > 0 {
                Some(p.hops[0])
            } else {
                None
            },
            NodeEventModel::MessageSentSuccessfully(m) => Some(m.source),
            NodeEventModel::StartingMessageTransmission(m) => Some(m.source),
            NodeEventModel::MessageReceived(m) => Some(m.source),
            NodeEventModel::KnownNetworkGraph { source, .. } => Some(source),
        }
    }
}

impl NodeEvent {
    /// The node this event is attributed to, if the event carries one.
    pub fn source(&self) -> (r: Option<u8>)
        ensures
            r == self@.source(),
    {
        match self {
            NodeEvent::PacketSent(p) => {
                if p.hops.len() > 0 {
                    Some(p.hops[0])
                } else {
                    None
                }
            },
            NodeEvent::MessageSentSuccessfully(m) => Some(m.source),
            NodeEvent::StartingMessageTransmission(m) => Some(m.source),
            NodeEvent::MessageReceived(m) => Some(m.source),
            NodeEvent::KnownNetworkGraph { source, .. } => Some(*source),
        }
    }
}

/// A lifecycle command for one worker.  For `AddSender` the surrounding
/// program attaches the named peer's real payload-channel handle when it
/// performs the send.
#[derive(Debug, PartialEq, Eq, Structural, Clone, Copy)]
pub enum DroneCommand {
    /// Learn about the peer with this id.
    AddSender(u8),
    /// Forget the peer with this id.
    RemoveSender(u8),
    /// Adopt this packet drop rate, in hundredths.
    SetPacketDropRate(u32),
    Crash,
}

/// One side effect a committed operation asks the surrounding program to
/// perform: a lifecycle command or a payload, sent to one worker.
#[derive(Debug)]
pub enum SendAction {
    Command { dest: u8, command: DroneCommand },
    Packet { dest: u8, packet: PacketInfo },
    /// Start a worker thread, with its channels, for the freshly created
    /// relay with this id.
    Spawn { id: u8 },
}

/// Mathematical value of a [`SendAction`].
pub ghost enum ActionModel {
    Command { dest: u8, command: DroneCommand },
    Packet { dest: u8, packet: PacketModel },
    Spawn { id: u8 },
}

impl View for SendAction {
    type V = ActionModel;

    open spec fn view(&self) -> ActionModel {
        match self {
            SendAction::Command { dest, command } => ActionModel::Command {
                dest: *dest,
                command: *command,
            },
            SendAction::Packet { dest, packet } => ActionModel::Packet {
                dest: *dest,
                packet: packet@,
            },
            SendAction::Spawn { id } => ActionModel::Spawn { id: *id },
        }
    }
}

/// A condition the controller's own invariants rule out.  Observing one
/// means the model no longer matches reality; the surrounding program
/// terminates the controller rather than continue on a corrupt model.
#[derive(Debug, PartialEq, Eq, Structural, Clone, Copy)]
pub enum Defect {
    /// No lifecycle-command channel for a node the registry should cover.
    MissingCommandChannel(u8),
    /// No payload channel for a node the registry should cover.
    MissingPacketChannel(u8),
    /// A payload to deliver directly names no destination.
    NoDestination,
    /// An inbound event names no source node.
    EventWithoutSource,
    /// A transmission reported complete though none was reported started.
    SuccessWithoutStart(u64),
    /// A flood request whose path trace is empty.
    EmptyPathTrace,
    /// A payload that names no hop where one is required.
    MissingHop,
    /// A command that only applies to a live relay reached another node.
    NotALiveDrone(u8),
    /// An event or command names a node that has no record.
    UnknownNode(u8),
    /// A worker thread finished without having been told to crash.
    UnexpectedWorkerExit(u8),
}

/// Why a controller operation did not complete: the mutation was rejected by
/// the validator (recoverable, the topology is unchanged), or the controller
/// hit a condition its invariants rule out (fatal).
#[derive(Debug, PartialEq, Eq, Structural, Clone, Copy)]
pub enum ControllerError {
    Rejected(TopologyError),
    Defect(Defect),
}

} // verus!
