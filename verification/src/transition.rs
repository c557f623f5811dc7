//! The controller's reaction to one request from the presentation layer:
//! a state machine over the screen's windows, delegating every topology
//! mutation to the validated operations.

use vstd::prelude::*;

use crate::app_message::AppMessage;
use crate::controller::{ControllerModel, MySimulationController};
use crate::events::{ControllerError, SendAction};
use crate::mutations::{add_edge_next, crash_next};
use crate::network::{id_exists, id_index, lemma_id_index_unique, node_of, NetModel};
use crate::node_kind::NodeKind;
use crate::node_representation::NodeModel;
use crate::screen::{Screen, Window};

verus! {

/// One step down, stopping at zero.
pub open spec fn sel_dec(x: usize) -> usize {
    if x > 0 {
        (x - 1) as usize
    } else {
        0usize
    }
}

/// One step up, stopping at the machine bound.
pub open spec fn sel_inc(x: usize) -> usize {
    if x < usize::MAX {
        (x + 1) as usize
    } else {
        x
    }
}

/// The magnitude of a canvas step.
pub open spec fn step_abs(d: i8) -> u32 {
    if d >= 0 {
        d as u32
    } else {
        (-(d as int)) as u32
    }
}

/// Where a horizontal step takes a node: right for positive steps, left
/// otherwise, stopping at the canvas edge.
pub open spec fn shifted_x(x0: u32, d: i8) -> u32 {
    if d > 0 {
        if x0 + step_abs(d) <= u32::MAX {
            (x0 + step_abs(d)) as u32
        } else {
            u32::MAX
        }
    } else {
        if x0 >= step_abs(d) {
            (x0 - step_abs(d)) as u32
        } else {
            0u32
        }
    }
}

/// Where a vertical step takes a node: up for positive steps, down
/// otherwise, stopping at the canvas edge.
pub open spec fn shifted_y(y0: u32, d: i8) -> u32 {
    if d > 0 {
        if y0 + step_abs(d) <= u32::MAX {
            (y0 + step_abs(d)) as u32
        } else {
            u32::MAX
        }
    } else {
        if y0 >= step_abs(d) {
            (y0 - step_abs(d)) as u32
        } else {
            0u32
        }
    }
}

/// The controller state with only its open window replaced.
pub open spec fn with_window(c: ControllerModel, w: Window) -> ControllerModel {
    ControllerModel { screen: Screen { window: w, ..c.screen }, ..c }
}

impl MySimulationController {
    /// Services one request from the presentation layer.  Window bookkeeping
    /// happens here; every topology mutation goes through the validated
    /// operations, a rejected mutation surfaces as the error window, and a
    /// defect is passed to the caller to escalate.  The returned actions are
    /// the sends the surrounding program must perform.
    #[verifier::rlimit(100)]
    pub fn transition(&mut self, message: &AppMessage) -> (r: Result<Vec<SendAction>, ControllerError>)
        requires
            old(self).wf(),
            *message == AppMessage::SpawnDrone && old(self)@.screen.window == Window::Main ==> old(
                self,
            )@.network.nodes.len() < 255,
        ensures
            final(self).wf(),
            // Quit stops the loop and changes nothing else.
            *message == AppMessage::Quit ==> final(self)@ == (ControllerModel {
                running: false,
                ..old(self)@
            }) && (r matches Ok(a) && a@.len() == 0),
            // Crash acts only from the detail window of a relay; a committed
            // crash returns to the main window, a rejected one shows why.
            *message == AppMessage::Crash ==> ({
                let c = old(self)@;
                if (c.screen.window matches Window::Detail { .. }) && c.screen.kind.is_drone() {
                    &&& final(self)@.network == crash_next(c.network, c.screen.focus)
                    &&& (r matches Ok(a) ==> (a@.len() == 1 + node_of(
                        c.network,
                        c.screen.focus,
                    ).adj.len() && a@[0]@ == (crate::events::ActionModel::Command {
                        dest: c.screen.focus,
                        command: crate::events::DroneCommand::Crash,
                    }) && (forall|k: int|
                        0 <= k < node_of(c.network, c.screen.focus).adj.len()
                            ==> (#[trigger] a@[k + 1])@ == (crate::events::ActionModel::Command {
                            dest: node_of(c.network, c.screen.focus).adj[k],
                            command: crate::events::DroneCommand::RemoveSender(c.screen.focus),
                        })) && final(self)@.screen.window == Window::Main) || (a@.len() == 0
                        && final(self)@.screen.window is Error))
                    &&& (r matches Err(e) ==> e is Defect)
                } else {
                    final(self)@ == c && (r matches Ok(a) && a@.len() == 0)
                }
            }),
            // ChangeTab cycles the detail tab and resets the table row.
            *message == AppMessage::ChangeTab ==> ({
                let c = old(self)@;
                match c.screen.window {
                    Window::Detail { tab } => final(self)@ == (ControllerModel {
                        packet_table_state: 0,
                        screen: Screen {
                            window: Window::Detail { tab: sel_inc(tab) % 3 },
                            ..c.screen
                        },
                        ..c
                    }),
                    _ => final(self)@ == c,
                }
            }) && (r matches Ok(a) && a@.len() == 0),
            // SpawnDrone creates a fresh relay from the main window and asks
            // the surrounding program to start its worker.
            *message == AppMessage::SpawnDrone ==> ({
                let c = old(self)@;
                if c.screen.window == Window::Main {
                    &&& final(self)@.network.edges == c.network.edges
                    &&& final(self)@.network.nodes.len() == c.network.nodes.len() + 1
                    &&& final(self)@.network.nodes.last().kind == (NodeKind::Drone {
                        pdr: 5,
                        crashed: false,
                    })
                    &&& !id_exists(c.network.nodes, final(self)@.network.nodes.last().id)
                    &&& final(self)@.screen.focus == final(self)@.network.nodes.last().id
                    &&& (r matches Ok(a) && a@.len() == 1 && a@[0]@ == (
                    crate::events::ActionModel::Spawn { id: final(self)@.screen.focus }))
                } else {
                    final(self)@ == c && (r matches Ok(a) && a@.len() == 0)
                }
            }),
            // the window-opening requests act only from the window they
            // belong to and touch nothing else
            *message == AppMessage::WindowAddConnection ==> final(self)@ == (if old(
                self,
            )@.screen.window == Window::Main {
                with_window(
                    old(self)@,
                    Window::AddConnection { origin: old(self)@.screen.focus },
                )
            } else {
                old(self)@
            }) && (r matches Ok(a) && a@.len() == 0),
            *message == AppMessage::WindowChangePDR ==> ({
                let c = old(self)@;
                match (c.screen.window, c.screen.kind) {
                    (Window::Detail { .. }, NodeKind::Drone { pdr, crashed: false }) => final(self)@ == with_window(c, Window::ChangePdr { pdr }),
                    _ => final(self)@ == c,
                }
            }) && (r matches Ok(a) && a@.len() == 0),
            *message == AppMessage::WindowMove ==> final(self)@ == (if old(self)@.screen.window
                == Window::Main {
                with_window(old(self)@, Window::Move)
            } else {
                old(self)@
            }) && (r matches Ok(a) && a@.len() == 0),
            *message == AppMessage::WindowDetail ==> final(self)@ == (if old(self)@.screen.window
                == Window::Main {
                ControllerModel {
                    packet_table_state: 0,
                    screen: Screen { window: Window::Detail { tab: 0 }, ..old(self)@.screen },
                    ..old(self)@
                }
            } else {
                old(self)@
            }) && (r matches Ok(a) && a@.len() == 0),
            // Done confirms the open window: it commits a staged connection,
            // applies a staged drop rate, or simply returns to the main
            // window
            *message == AppMessage::Done ==> ({
                let c = old(self)@;
                match c.screen.window {
                    Window::Main => final(self)@ == c && (r matches Ok(a) && a@.len() == 0),
                    Window::Error { .. } => final(self)@.screen.window == Window::Main && final(self)@.network == c.network && final(self)@.node_list_state == 0 && (r matches Ok(a)
                        && a@.len() == 0),
                    Window::Move => final(self)@ == with_window(c, Window::Main) && (r matches Ok(a)
                        && a@.len() == 0),
                    Window::Detail { .. } => final(self)@ == with_window(c, Window::Main) && (
                    r matches Ok(a) && a@.len() == 0),
                    Window::AddConnection { origin } => {
                        &&& final(self)@.network == add_edge_next(
                            c.network,
                            origin,
                            c.screen.focus,
                        )
                        &&& (r matches Ok(a) ==> (a@.len() == 2 && a@[0]@ == (
                        crate::events::ActionModel::Command {
                            dest: origin,
                            command: crate::events::DroneCommand::AddSender(c.screen.focus),
                        }) && a@[1]@ == (crate::events::ActionModel::Command {
                            dest: c.screen.focus,
                            command: crate::events::DroneCommand::AddSender(origin),
                        }) && final(self)@.screen.window == Window::Main && final(self)@.node_list_state == 0) || (a@.len() == 0
                            && final(self)@.screen.window is Error))
                        &&& (r matches Err(e) ==> e is Defect)
                    },
                    Window::ChangePdr { pdr } => {
                        &&& (r matches Ok(a) ==> a@.len() == 1 && a@[0]@ == (
                        crate::events::ActionModel::Command {
                            dest: c.screen.focus,
                            command: crate::events::DroneCommand::SetPacketDropRate(pdr),
                        }) && final(self)@.screen.window == (
                        Window::Detail { tab: 0 }) && final(self)@.network.nodes == c.network.nodes.update(
                            id_index(c.network.nodes, c.screen.focus),
                            (NodeModel {
                                kind: NodeKind::Drone { pdr, crashed: false },
                                ..node_of(c.network, c.screen.focus)
                            }),
                        ))
                        &&& (r matches Err(e) ==> e is Defect && final(self)@ == c)
                    },
                }
            }),
            // scrolling moves the list, the table, or the staged drop rate,
            // depending on the open window
            *message == AppMessage::ScrollUp ==> ({
                let c = old(self)@;
                match c.screen.window {
                    Window::Main | Window::AddConnection { .. } => final(self)@.node_list_state
                        == sel_dec(c.node_list_state) && final(self)@.network == c.network && final(self)@.running == c.running && final(self)@.screen.window == c.screen.window,
                    Window::Detail { .. } => final(self)@ == (ControllerModel {
                        packet_table_state: sel_dec(c.packet_table_state),
                        ..c
                    }),
                    Window::ChangePdr { pdr } => final(self)@ == with_window(
                        c,
                        Window::ChangePdr {
                            pdr: if pdr + 1 <= 100 {
                                (pdr + 1) as u32
                            } else {
                                100u32
                            },
                        },
                    ),
                    _ => final(self)@ == c,
                }
            }) && (r matches Ok(a) && a@.len() == 0),
            *message == AppMessage::ScrollDown ==> ({
                let c = old(self)@;
                match c.screen.window {
                    Window::Main | Window::AddConnection { .. } => final(self)@.node_list_state
                        == sel_inc(c.node_list_state) && final(self)@.network == c.network && final(self)@.running == c.running && final(self)@.screen.window == c.screen.window,
                    Window::Detail { .. } => final(self)@ == (ControllerModel {
                        packet_table_state: sel_inc(c.packet_table_state),
                        ..c
                    }),
                    Window::ChangePdr { pdr } => final(self)@ == with_window(
                        c,
                        Window::ChangePdr {
                            pdr: if pdr >= 1 {
                                (pdr - 1) as u32
                            } else {
                                0u32
                            },
                        },
                    ),
                    _ => final(self)@ == c,
                }
            }) && (r matches Ok(a) && a@.len() == 0),
            // moving shifts the focused node on the canvas, stopping at the
            // edges; a focus without a record is a defect
            *message matches AppMessage::MoveNode { x, y } ==> ({
                let c = old(self)@;
                if id_exists(c.network.nodes, c.screen.focus) {
                    &&& final(self)@ == (ControllerModel {
                        network: NetModel {
                            nodes: c.network.nodes.update(
                                id_index(c.network.nodes, c.screen.focus),
                                (NodeModel {
                                    x: shifted_x(node_of(c.network, c.screen.focus).x, x),
                                    y: shifted_y(node_of(c.network, c.screen.focus).y, y),
                                    ..node_of(c.network, c.screen.focus)
                                }),
                            ),
                            edges: c.network.edges,
                        },
                        ..c
                    })
                    &&& (r matches Ok(a) && a@.len() == 0)
                } else {
                    final(self)@ == c && r is Err
                }
            }),
    {
        let kind = self.screen.kind;
        let id = self.screen.focus;
        match message {
            AppMessage::Quit => {
                self.running = false;
                Ok(Vec::new())
            },
            AppMessage::Crash => {
                let in_detail = matches!(self.screen.window, Window::Detail { .. });
                if in_detail && kind.check_is_drone() {
                    match self.crash(id) {
                        Ok(actions) => {
                            self.screen.window = Window::Main;
                            Ok(actions)
                        },
                        Err(ControllerError::Rejected(message)) => {
                            self.screen.window = Window::Error { message };
                            Ok(Vec::new())
                        },
                        Err(e) => Err(e),
                    }
                } else {
                    Ok(Vec::new())
                }
            },
            AppMessage::ChangeTab => {
                if let Window::Detail { tab } = self.screen.window {
                    let tab2 = tab.saturating_add(1) % 3;
                    self.packet_table_state = 0;
                    self.screen.window = Window::Detail { tab: tab2 };
                }
                Ok(Vec::new())
            },
            AppMessage::SpawnDrone => {
                if matches!(self.screen.window, Window::Main) {
                    let new_id = self.spawn_drone();
                    let mut actions: Vec<SendAction> = Vec::new();
                    actions.push(SendAction::Spawn { id: new_id });
                    Ok(actions)
                } else {
                    Ok(Vec::new())
                }
            },
            AppMessage::WindowAddConnection => {
                if matches!(self.screen.window, Window::Main) {
                    self.screen.window = Window::AddConnection { origin: id };
                }
                Ok(Vec::new())
            },
            AppMessage::WindowChangePDR => {
                if matches!(self.screen.window, Window::Detail { .. }) {
                    if let NodeKind::Drone { pdr, crashed: false } = kind {
                        self.screen.window = Window::ChangePdr { pdr };
                    }
                }
                Ok(Vec::new())
            },
            AppMessage::WindowMove => {
                if matches!(self.screen.window, Window::Main) {
                    self.screen.window = Window::Move;
                }
                Ok(Vec::new())
            },
            AppMessage::WindowDetail => {
                if matches!(self.screen.window, Window::Main) {
                    self.packet_table_state = 0;
                    self.screen.window = Window::Detail { tab: 0 };
                }
                Ok(Vec::new())
            },
            AppMessage::Done => {
                match self.screen.window {
                    Window::Main => Ok(Vec::new()),
                    Window::Error { .. } => {
                        self.reset_list();
                        self.screen.window = Window::Main;
                        Ok(Vec::new())
                    },
                    Window::Move | Window::Detail { .. } => {
                        self.screen.window = Window::Main;
                        Ok(Vec::new())
                    },
                    Window::AddConnection { origin } => {
                        match self.add_connection(origin, id) {
                            Ok(actions) => {
                                self.reset_list();
                                self.screen.window = Window::Main;
                                Ok(actions)
                            },
                            Err(ControllerError::Rejected(message)) => {
                                self.screen.window = Window::Error { message };
                                Ok(Vec::new())
                            },
                            Err(e) => Err(e),
                        }
                    },
                    Window::ChangePdr { pdr } => {
                        match self.change_pdr(pdr) {
                            Ok(actions) => {
                                self.screen.window = Window::Detail { tab: 0 };
                                Ok(actions)
                            },
                            Err(e) => Err(e),
                        }
                    },
                }
            },
            AppMessage::ScrollUp => {
                match self.screen.window {
                    Window::Main | Window::AddConnection { .. } => {
                        self.scroll_list(true);
                    },
                    Window::Detail { .. } => {
                        self.packet_table_state = self.packet_table_state.saturating_sub(1);
                    },
                    Window::ChangePdr { pdr } => {
                        let p2 = if pdr < 100 {
                            pdr + 1
                        } else {
                            100
                        };
                        self.screen.window = Window::ChangePdr { pdr: p2 };
                    },
                    _ => {},
                }
                Ok(Vec::new())
            },
            AppMessage::ScrollDown => {
                match self.screen.window {
                    Window::Main | Window::AddConnection { .. } => {
                        self.scroll_list(false);
                    },
                    Window::Detail { .. } => {
                        self.packet_table_state = self.packet_table_state.saturating_add(1);
                    },
                    Window::ChangePdr { pdr } => {
                        let p2 = if pdr >= 1 {
                            pdr - 1
                        } else {
                            0
                        };
                        self.screen.window = Window::ChangePdr { pdr: p2 };
                    },
                    _ => {},
                }
                Ok(Vec::new())
            },
            AppMessage::MoveNode { x, y } => {
                let ghost s = self@.network;
                let idx = match self.network.find_node(id) {
                    Some(i) => i,
                    None => {
                        return Err(
                            ControllerError::Defect(crate::events::Defect::UnknownNode(id)),
                        );
                    },
                };
                proof {
                    lemma_id_index_unique(s.nodes, id, idx as int);
                }
                let mut rec = self.network.nodes[idx].duplicate();
                let ax: u32 = if *x >= 0 {
                    *x as u32
                } else {
                    (-(*x as i16)) as u32
                };
                let ay: u32 = if *y >= 0 {
                    *y as u32
                } else {
                    (-(*y as i16)) as u32
                };
                if *x > 0 {
                    rec.shiftr(ax);
                } else {
                    rec.shiftl(ax);
                }
                if *y > 0 {
                    rec.shiftu(ay);
                } else {
                    rec.shiftd(ay);
                }
                self.network.nodes.set(idx, rec);
                proof {
                    let c = old(self)@;
                    let s2 = self@.network;
                    assert(s2.nodes =~= c.network.nodes.update(
                        idx as int,
                        (NodeModel {
                            x: shifted_x(node_of(c.network, id).x, *x),
                            y: shifted_y(node_of(c.network, id).y, *y),
                            ..node_of(c.network, id)
                        }),
                    ));
                    crate::network::lemma_records_keep_wf(c.network, s2);
                    assert(self@ =~= (ControllerModel {
                        network: NetModel {
                            nodes: c.network.nodes.update(
                                id_index(c.network.nodes, c.screen.focus),
                                (NodeModel {
                                    x: shifted_x(node_of(c.network, c.screen.focus).x, *x),
                                    y: shifted_y(node_of(c.network, c.screen.focus).y, *y),
                                    ..node_of(c.network, c.screen.focus)
                                }),
                            ),
                            edges: c.network.edges,
                        },
                        ..c
                    }));
                }
                Ok(Vec::new())
            },
        }
    }
}

} // verus!
