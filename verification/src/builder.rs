//! Building the initial topology from the startup configuration, and
//! rejecting it when it already violates the invariants.

use vstd::prelude::*;

use crate::config;
use crate::config::Config;
use crate::mutations::{staged_add_edge, validator_error};
use crate::network::{edge_between, id_exists, ids_distinct, wf_model, EdgeEntry, NetModel, Network};
use crate::node_kind::NodeKind;
use crate::node_representation::{fresh_model, NodeModel, NodeRepresentation};
use crate::validator::{valid_topology, TopologyError};

verus! {

/// The canvas column a configured node starts at, derived from its id.
pub open spec fn cfg_pos_x(id: u8) -> u32 {
    (id as int / 3 * 5) as u32
}

/// The canvas row a configured node starts at, derived from its id.
pub open spec fn cfg_pos_y(id: u8) -> u32 {
    (id as int % 3 * 5) as u32
}

/// The fresh record of a configured relay, before any link is staged.
pub open spec fn drone_model(d: config::Drone) -> NodeModel {
    fresh_model(
        d.id,
        cfg_pos_x(d.id),
        cfg_pos_y(d.id),
        NodeKind::Drone { pdr: d.pdr, crashed: false },
        Seq::empty(),
    )
}

/// The fresh record of a configured server.
pub open spec fn server_model(s: config::Server) -> NodeModel {
    fresh_model(s.id, cfg_pos_x(s.id), cfg_pos_y(s.id), NodeKind::Server, Seq::empty())
}

/// The fresh record of a configured client.
pub open spec fn client_model(c: config::Client) -> NodeModel {
    fresh_model(c.id, cfg_pos_x(c.id), cfg_pos_y(c.id), NodeKind::Client, Seq::empty())
}

/// All node records a configuration declares: relays, then servers, then
/// clients, each with an empty link set.
pub open spec fn cfg_models(cfg: Config) -> Seq<NodeModel> {
    cfg.drone@.map_values(|d: config::Drone| drone_model(d)) + cfg.server@.map_values(
        |s: config::Server| server_model(s),
    ) + cfg.client@.map_values(|c: config::Client| client_model(c))
}

/// The links one node declares, in order.
pub open spec fn pairs_of(p: u8, qs: Seq<u8>) -> Seq<(u8, u8)>
    decreases qs.len(),
{
    if qs.len() == 0 {
        Seq::empty()
    } else {
        pairs_of(p, qs.drop_last()).push((p, qs.last()))
    }
}

/// The links the relays declare.
pub open spec fn drone_links(ds: Seq<config::Drone>) -> Seq<(u8, u8)>
    decreases ds.len(),
{
    if ds.len() == 0 {
        Seq::empty()
    } else {
        drone_links(ds.drop_last()) + pairs_of(ds.last().id, ds.last().connected_node_ids@)
    }
}

/// The links the servers declare.
pub open spec fn server_links(ss: Seq<config::Server>) -> Seq<(u8, u8)>
    decreases ss.len(),
{
    if ss.len() == 0 {
        Seq::empty()
    } else {
        server_links(ss.drop_last()) + pairs_of(ss.last().id, ss.last().connected_drone_ids@)
    }
}

/// The links the clients declare.
pub open spec fn client_links(cs: Seq<config::Client>) -> Seq<(u8, u8)>
    decreases cs.len(),
{
    if cs.len() == 0 {
        Seq::empty()
    } else {
        client_links(cs.drop_last()) + pairs_of(cs.last().id, cs.last().connected_drone_ids@)
    }
}

/// Every link the configuration declares, in the order the build walks them.
pub open spec fn declared_links(cfg: Config) -> Seq<(u8, u8)> {
    drone_links(cfg.drone@) + server_links(cfg.server@) + client_links(cfg.client@)
}

/// One declared link folded into the staged topology: a self-link or a link
/// naming an unknown node rejects the configuration; a link already staged
/// (the reciprocal declaration of one handled before) changes nothing;
/// otherwise the edge is staged.
pub open spec fn spec_add_one_link(m: NetModel, p: u8, q: u8) -> Result<NetModel, TopologyError> {
    if p == q {
        Err(TopologyError::SelfLoop)
    } else if !id_exists(m.nodes, p) || !id_exists(m.nodes, q) {
        Err(TopologyError::NotFound)
    } else if edge_between(m.edges, p, q) {
        Ok(m)
    } else {
        Ok(staged_add_edge(m, p, q))
    }
}

/// The declared links folded left to right, stopping at the first rejection.
pub open spec fn spec_add_links(m: NetModel, ls: Seq<(u8, u8)>) -> Result<NetModel, TopologyError>
    decreases ls.len(),
{
    if ls.len() == 0 {
        Ok(m)
    } else {
        match spec_add_links(m, ls.drop_last()) {
            Err(e) => Err(e),
            Ok(m1) => spec_add_one_link(m1, ls.last().0, ls.last().1),
        }
    }
}

/// What building a topology from the configuration yields, before the final
/// validation: the declared records (rejected on a duplicate id) with the
/// declared links folded in.
pub open spec fn spec_build(cfg: Config) -> Result<NetModel, TopologyError> {
    if !ids_distinct(cfg_models(cfg)) {
        Err(TopologyError::DuplicateId)
    } else {
        spec_add_links(NetModel { nodes: cfg_models(cfg), edges: Seq::empty() }, declared_links(cfg))
    }
}

/// Folding links only grows adjacency: the nodes keep their count, ids,
/// kinds and positions.
pub proof fn lemma_add_links_keeps_nodes(m: NetModel, ls: Seq<(u8, u8)>)
    ensures
        spec_add_links(m, ls) matches Ok(m2) ==> m2.nodes.len() == m.nodes.len() && forall|i: int|
            0 <= i < m.nodes.len() ==> (#[trigger] m2.nodes[i]).id == m.nodes[i].id
                && m2.nodes[i].kind == m.nodes[i].kind && m2.nodes[i].x == m.nodes[i].x
                && m2.nodes[i].y == m.nodes[i].y,
    decreases ls.len(),
{
    if ls.len() > 0 {
        lemma_add_links_keeps_nodes(m, ls.drop_last());
        match spec_add_links(m, ls.drop_last()) {
            Err(_) => {},
            Ok(m1) => {
                let p = ls.last().0;
                let q = ls.last().1;
                match spec_add_one_link(m1, p, q) {
                    Err(_) => {},
                    Ok(m2) => {
                        if !(p == q) && id_exists(m1.nodes, p) && id_exists(m1.nodes, q)
                            && !edge_between(m1.edges, p, q) {
                            assert(m2 == staged_add_edge(m1, p, q));
                            assert(m2.nodes.len() == m1.nodes.len());
                            assert(forall|i: int|
                                0 <= i < m1.nodes.len() ==> (#[trigger] m2.nodes[i]).id
                                    == m1.nodes[i].id && m2.nodes[i].kind == m1.nodes[i].kind
                                    && m2.nodes[i].x == m1.nodes[i].x && m2.nodes[i].y
                                    == m1.nodes[i].y);
                        }
                    },
                }
            },
        }
    }
}

/// Once a prefix of the fold rejects, every longer prefix rejects the same
/// way.
proof fn lemma_add_links_err_extend(m: NetModel, ls: Seq<(u8, u8)>, x: int, u: int)
    requires
        0 <= x <= u <= ls.len(),
        spec_add_links(m, ls.subrange(0, x)) is Err,
    ensures
        spec_add_links(m, ls.subrange(0, u)) == spec_add_links(m, ls.subrange(0, x)),
    decreases u - x,
{
    if u > x {
        lemma_add_links_err_extend(m, ls, x, u - 1);
        assert(ls.subrange(0, u).drop_last() =~= ls.subrange(0, u - 1));
        assert(ls.subrange(0, u).len() > 0);
        let r1 = spec_add_links(m, ls.subrange(0, u - 1));
        assert(r1 is Err);
        assert(spec_add_links(m, ls.subrange(0, u)) == match spec_add_links(
            m,
            ls.subrange(0, u).drop_last(),
        ) {
            Err(e) => Err::<NetModel, TopologyError>(e),
            Ok(m1) => spec_add_one_link(
                m1,
                ls.subrange(0, u).last().0,
                ls.subrange(0, u).last().1,
            ),
        });
    }
}

/// Whether two records of the list share an id.
fn has_duplicate_ids(nodes: &Vec<NodeRepresentation>) -> (r: bool)
    ensures
        r == !ids_distinct(nodes@.map_values(|n: NodeRepresentation| n@)),
{
    let ghost ns = nodes@.map_values(|n: NodeRepresentation| n@);
    let mut i: usize = 0;
    while i < nodes.len()
        invariant
            i <= nodes.len(),
            ns == nodes@.map_values(|n: NodeRepresentation| n@),
            forall|i2: int, j2: int| 0 <= i2 < j2 < ns.len() && i2 < i ==> ns[i2].id != ns[j2].id,
        decreases nodes.len() - i,
    {
        let mut j: usize = i + 1;
        while j < nodes.len()
            invariant
                i < j,
                j <= nodes.len(),
                i < nodes.len(),
                ns == nodes@.map_values(|n: NodeRepresentation| n@),
                forall|j2: int| i < j2 < j ==> ns[i as int].id != ns[j2].id,
            decreases nodes.len() - j,
        {
            if nodes[i].id == nodes[j].id {
                proof {
                    assert(ns[i as int].id == nodes@[i as int]@.id);
                    assert(ns[j as int].id == nodes@[j as int]@.id);
                    assert(!ids_distinct(ns));
                }
                return true;
            }
            j = j + 1;
        }
        i = i + 1;
    }
    false
}

/// Collects every link the configuration declares, in build order.
fn collect_links(cfg: &Config) -> (r: Vec<(u8, u8)>)
    ensures
        r@ == declared_links(*cfg),
{
    let mut links: Vec<(u8, u8)> = Vec::new();
    let mut i: usize = 0;
    proof {
        assert(cfg.drone@.subrange(0, 0) =~= Seq::<config::Drone>::empty());
        assert(links@ =~= drone_links(cfg.drone@.subrange(0, 0)));
    }
    while i < cfg.drone.len()
        invariant
            i <= cfg.drone@.len(),
            links@ == drone_links(cfg.drone@.subrange(0, i as int)),
        decreases cfg.drone@.len() - i,
    {
        let d = &cfg.drone[i];
        let mut k: usize = 0;
        proof {
            assert(d.connected_node_ids@.subrange(0, 0) =~= Seq::<u8>::empty());
            assert(links@ =~= drone_links(cfg.drone@.subrange(0, i as int)) + pairs_of(
                d.id,
                d.connected_node_ids@.subrange(0, 0),
            ));
        }
        while k < d.connected_node_ids.len()
            invariant
                i < cfg.drone@.len(),
                k <= d.connected_node_ids@.len(),
                d == &cfg.drone@[i as int],
                links@ == drone_links(cfg.drone@.subrange(0, i as int)) + pairs_of(
                    d.id,
                    d.connected_node_ids@.subrange(0, k as int),
                ),
            decreases d.connected_node_ids@.len() - k,
        {
            links.push((d.id, d.connected_node_ids[k]));
            proof {
                let qs = d.connected_node_ids@;
                assert(qs.subrange(0, k + 1).drop_last() =~= qs.subrange(0, k as int));
                assert(qs.subrange(0, k + 1).last() == qs[k as int]);
                assert(pairs_of(d.id, qs.subrange(0, k + 1)) == pairs_of(
                    d.id,
                    qs.subrange(0, k as int),
                ).push((d.id, qs[k as int])));
                assert(links@ =~= drone_links(cfg.drone@.subrange(0, i as int)) + pairs_of(
                    d.id,
                    qs.subrange(0, k + 1),
                ));
            }
            k = k + 1;
        }
        proof {
            let qs = d.connected_node_ids@;
            assert(qs.subrange(0, qs.len() as int) =~= qs);
            assert(cfg.drone@.subrange(0, i + 1).drop_last() =~= cfg.drone@.subrange(0, i as int));
            assert(cfg.drone@.subrange(0, i + 1).last() == cfg.drone@[i as int]);
            assert(drone_links(cfg.drone@.subrange(0, i + 1)) == drone_links(
                cfg.drone@.subrange(0, i as int),
            ) + pairs_of(cfg.drone@[i as int].id, cfg.drone@[i as int].connected_node_ids@));
        }
        i = i + 1;
    }
    proof {
        assert(cfg.drone@.subrange(0, cfg.drone@.len() as int) =~= cfg.drone@);
    }
    let ghost dpart = drone_links(cfg.drone@);
    let mut i2: usize = 0;
    proof {
        assert(cfg.server@.subrange(0, 0) =~= Seq::<config::Server>::empty());
        assert(links@ =~= dpart + server_links(cfg.server@.subrange(0, 0)));
    }
    while i2 < cfg.server.len()
        invariant
            i2 <= cfg.server@.len(),
            dpart == drone_links(cfg.drone@),
            links@ == dpart + server_links(cfg.server@.subrange(0, i2 as int)),
        decreases cfg.server@.len() - i2,
    {
        let sv = &cfg.server[i2];
        let mut k: usize = 0;
        proof {
            assert(sv.connected_drone_ids@.subrange(0, 0) =~= Seq::<u8>::empty());
            assert(links@ =~= dpart + (server_links(cfg.server@.subrange(0, i2 as int)) + pairs_of(
                sv.id,
                sv.connected_drone_ids@.subrange(0, 0),
            )));
        }
        while k < sv.connected_drone_ids.len()
            invariant
                i2 < cfg.server@.len(),
                k <= sv.connected_drone_ids@.len(),
                sv == &cfg.server@[i2 as int],
                dpart == drone_links(cfg.drone@),
                links@ == dpart + (server_links(cfg.server@.subrange(0, i2 as int)) + pairs_of(
                    sv.id,
                    sv.connected_drone_ids@.subrange(0, k as int),
                )),
            decreases sv.connected_drone_ids@.len() - k,
        {
            links.push((sv.id, sv.connected_drone_ids[k]));
            proof {
                let qs = sv.connected_drone_ids@;
                assert(qs.subrange(0, k + 1).drop_last() =~= qs.subrange(0, k as int));
                assert(qs.subrange(0, k + 1).last() == qs[k as int]);
                assert(pairs_of(sv.id, qs.subrange(0, k + 1)) == pairs_of(
                    sv.id,
                    qs.subrange(0, k as int),
                ).push((sv.id, qs[k as int])));
                assert(links@ =~= dpart + (server_links(cfg.server@.subrange(0, i2 as int))
                    + pairs_of(sv.id, qs.subrange(0, k + 1))));
            }
            k = k + 1;
        }
        proof {
            let qs = sv.connected_drone_ids@;
            assert(qs.subrange(0, qs.len() as int) =~= qs);
            assert(cfg.server@.subrange(0, i2 + 1).drop_last() =~= cfg.server@.subrange(
                0,
                i2 as int,
            ));
            assert(cfg.server@.subrange(0, i2 + 1).last() == cfg.server@[i2 as int]);
            assert(server_links(cfg.server@.subrange(0, i2 + 1)) == server_links(
                cfg.server@.subrange(0, i2 as int),
            ) + pairs_of(cfg.server@[i2 as int].id, cfg.server@[i2 as int].connected_drone_ids@));
            assert(links@ =~= dpart + server_links(cfg.server@.subrange(0, i2 + 1)));
        }
        i2 = i2 + 1;
    }
    proof {
        assert(cfg.server@.subrange(0, cfg.server@.len() as int) =~= cfg.server@);
    }
    let ghost spart = dpart + server_links(cfg.server@);
    let mut i3: usize = 0;
    proof {
        assert(cfg.client@.subrange(0, 0) =~= Seq::<config::Client>::empty());
        assert(links@ =~= spart + client_links(cfg.client@.subrange(0, 0)));
    }
    while i3 < cfg.client.len()
        invariant
            i3 <= cfg.client@.len(),
            spart == drone_links(cfg.drone@) + server_links(cfg.server@),
            links@ == spart + client_links(cfg.client@.subrange(0, i3 as int)),
        decreases cfg.client@.len() - i3,
    {
        let cl = &cfg.client[i3];
        let mut k: usize = 0;
        proof {
            assert(cl.connected_drone_ids@.subrange(0, 0) =~= Seq::<u8>::empty());
            assert(links@ =~= spart + (client_links(cfg.client@.subrange(0, i3 as int)) + pairs_of(
                cl.id,
                cl.connected_drone_ids@.subrange(0, 0),
            )));
        }
        while k < cl.connected_drone_ids.len()
            invariant
                i3 < cfg.client@.len(),
                k <= cl.connected_drone_ids@.len(),
                cl == &cfg.client@[i3 as int],
                spart == drone_links(cfg.drone@) + server_links(cfg.server@),
                links@ == spart + (client_links(cfg.client@.subrange(0, i3 as int)) + pairs_of(
                    cl.id,
                    cl.connected_drone_ids@.subrange(0, k as int),
                )),
            decreases cl.connected_drone_ids@.len() - k,
        {
            links.push((cl.id, cl.connected_drone_ids[k]));
            proof {
                let qs = cl.connected_drone_ids@;
                assert(qs.subrange(0, k + 1).drop_last() =~= qs.subrange(0, k as int));
                assert(qs.subrange(0, k + 1).last() == qs[k as int]);
                assert(pairs_of(cl.id, qs.subrange(0, k + 1)) == pairs_of(
                    cl.id,
                    qs.subrange(0, k as int),
                ).push((cl.id, qs[k as int])));
                assert(links@ =~= spart + (client_links(cfg.client@.subrange(0, i3 as int))
                    + pairs_of(cl.id, qs.subrange(0, k + 1))));
            }
            k = k + 1;
        }
        proof {
            let qs = cl.connected_drone_ids@;
            assert(qs.subrange(0, qs.len() as int) =~= qs);
            assert(cfg.client@.subrange(0, i3 + 1).drop_last() =~= cfg.client@.subrange(
                0,
                i3 as int,
            ));
            assert(cfg.client@.subrange(0, i3 + 1).last() == cfg.client@[i3 as int]);
            assert(client_links(cfg.client@.subrange(0, i3 + 1)) == client_links(
                cfg.client@.subrange(0, i3 as int),
            ) + pairs_of(cfg.client@[i3 as int].id, cfg.client@[i3 as int].connected_drone_ids@));
            assert(links@ =~= spart + client_links(cfg.client@.subrange(0, i3 + 1)));
        }
        i3 = i3 + 1;
    }
    proof {
        assert(cfg.client@.subrange(0, cfg.client@.len() as int) =~= cfg.client@);
        assert(links@ =~= declared_links(*cfg));
    }
    links
}

impl Network {
    /// Builds the initial topology from the configuration: one record per
    /// declared node, then every declared link staged once (the reciprocal
    /// declaration of a link is no error), and finally the whole invariant
    /// set validated.  Rejects a duplicate id, a self-link, a link naming an
    /// unknown node, and any configuration whose topology the validator
    /// refuses.
    pub fn new(cfg: &Config) -> (r: Result<Network, TopologyError>)
        ensures
            r matches Ok(n) ==> spec_build(*cfg) == Ok::<NetModel, TopologyError>(n@) && n.wf()
                && valid_topology(n@),
            r is Ok <==> (spec_build(*cfg) matches Ok(m) && valid_topology(m)),
            r matches Err(e) ==> spec_build(*cfg) == Err::<NetModel, TopologyError>(e) || (
            spec_build(*cfg) matches Ok(m) && !valid_topology(m) && validator_error(m, e)),
    {
        let ghost base_nodes = cfg_models(*cfg);
        let mut nodes: Vec<NodeRepresentation> = Vec::new();
        let dn = cfg.drone.len();
        let sn = cfg.server.len();
        let cn = cfg.client.len();
        let mut i: usize = 0;
        while i < dn
            invariant
                dn == cfg.drone@.len(),
                i <= dn,
                nodes@.len() == i,
                forall|j: int|
                    0 <= j < i ==> (#[trigger] nodes@[j])@ == drone_model(cfg.drone@[j]),
            decreases dn - i,
        {
            let d = &cfg.drone[i];
            let x = (d.id as u32) / 3 * 5;
            let y = (d.id as u32) % 3 * 5;
            nodes.push(
                NodeRepresentation::new(
                    d.id,
                    x,
                    y,
                    NodeKind::Drone { pdr: d.pdr, crashed: false },
                    Vec::new(),
                ),
            );
            proof {
                assert(nodes@[i as int]@.adj =~= Seq::<u8>::empty());
                assert(nodes@[i as int]@ == drone_model(cfg.drone@[i as int]));
            }
            i = i + 1;
        }
        let mut i2: usize = 0;
        while i2 < sn
            invariant
                dn == cfg.drone@.len(),
                sn == cfg.server@.len(),
                i2 <= sn,
                nodes@.len() == dn + i2,
                forall|j: int|
                    0 <= j < dn ==> (#[trigger] nodes@[j])@ == drone_model(cfg.drone@[j]),
                forall|j: int|
                    0 <= j < i2 ==> (#[trigger] nodes@[dn + j])@ == server_model(cfg.server@[j]),
            decreases sn - i2,
        {
            let sv = &cfg.server[i2];
            let x = (sv.id as u32) / 3 * 5;
            let y = (sv.id as u32) % 3 * 5;
            nodes.push(NodeRepresentation::new(sv.id, x, y, NodeKind::Server, Vec::new()));
            proof {
                assert(nodes@[(dn + i2) as int]@.adj =~= Seq::<u8>::empty());
                assert(nodes@[(dn + i2) as int]@ == server_model(cfg.server@[i2 as int]));
            }
            i2 = i2 + 1;
        }
        let mut i3: usize = 0;
        while i3 < cn
            invariant
                dn == cfg.drone@.len(),
                sn == cfg.server@.len(),
                cn == cfg.client@.len(),
                i3 <= cn,
                nodes@.len() == dn + sn + i3,
                forall|j: int|
                    0 <= j < dn ==> (#[trigger] nodes@[j])@ == drone_model(cfg.drone@[j]),
                forall|j: int|
                    0 <= j < sn ==> (#[trigger] nodes@[dn + j])@ == server_model(cfg.server@[j]),
                forall|j: int|
                    0 <= j < i3 ==> (#[trigger] nodes@[dn + sn + j])@ == client_model(
                        cfg.client@[j],
                    ),
            decreases cn - i3,
        {
            let cl = &cfg.client[i3];
            let x = (cl.id as u32) / 3 * 5;
            let y = (cl.id as u32) % 3 * 5;
            nodes.push(NodeRepresentation::new(cl.id, x, y, NodeKind::Client, Vec::new()));
            proof {
                assert(x == cfg_pos_x(cl.id));
                assert(y == cfg_pos_y(cl.id));
                assert(nodes@[(dn + sn + i3) as int]@.adj =~= Seq::<u8>::empty());
                assert(nodes@[(dn + sn + i3) as int]@ == fresh_model(
                    cl.id,
                    x,
                    y,
                    NodeKind::Client,
                    Seq::empty(),
                ));
                assert(nodes@[(dn + sn + i3) as int]@ == client_model(cfg.client@[i3 as int]));
            }
            i3 = i3 + 1;
        }
        proof {
            let built = nodes@.map_values(|n: NodeRepresentation| n@);
            assert(built.len() == base_nodes.len());
            assert forall|j: int| 0 <= j < built.len() implies built[j] == base_nodes[j] by {
                assert(built[j] == nodes@[j]@);
                if j < dn {
                    assert(base_nodes[j] == drone_model(cfg.drone@[j]));
                } else if j < dn + sn {
                    assert(base_nodes[j] == server_model(cfg.server@[j - dn]));
                    assert(nodes@[dn + (j - dn)]@ == server_model(cfg.server@[j - dn]));
                    assert(nodes@[j]@ == server_model(cfg.server@[j - dn]));
                } else {
                    assert(base_nodes[j] == client_model(cfg.client@[j - dn - sn]));
                    assert(nodes@[dn + sn + (j - dn - sn)]@ == client_model(
                        cfg.client@[j - dn - sn],
                    ));
                    assert(nodes@[j]@ == client_model(cfg.client@[j - dn - sn]));
                }
            }
            assert(nodes@.map_values(|n: NodeRepresentation| n@) =~= base_nodes);
        }
        if has_duplicate_ids(&nodes) {
            return Err(TopologyError::DuplicateId);
        }
        let mut net = Network { nodes, edges: Vec::new() };
        let ghost base = NetModel { nodes: base_nodes, edges: Seq::empty() };
        proof {
            assert(net@.edges =~= Seq::<EdgeEntry>::empty());
            assert(net@ =~= base);
            assert forall|i4: int, v: u8|
                0 <= i4 < base.nodes.len() implies (crate::network::has_id(base.nodes[i4].adj, v)
                <==> #[trigger] edge_between(base.edges, base.nodes[i4].id, v)) by {
                assert(base.nodes[i4].adj.len() == 0);
                if edge_between(base.edges, base.nodes[i4].id, v) {
                    let e = choose|e: int|
                        0 <= e < base.edges.len() && (#[trigger] base.edges[e]).a == crate::network::lo(
                            base.nodes[i4].id,
                            v,
                        ) && base.edges[e].b == crate::network::hi(base.nodes[i4].id, v);
                }
                if crate::network::has_id(base.nodes[i4].adj, v) {
                    let k = choose|k: int|
                        0 <= k < base.nodes[i4].adj.len() && base.nodes[i4].adj[k] == v;
                }
            }
            assert(wf_model(base));
        }
        let links = collect_links(cfg);
        let ln = links.len();
        let mut t: usize = 0;
        while t < ln
            invariant
                ln == links@.len(),
                t <= ln,
                links@ == declared_links(*cfg),
                base == (NetModel { nodes: cfg_models(*cfg), edges: Seq::<EdgeEntry>::empty() }),
                ids_distinct(cfg_models(*cfg)),
                net.wf(),
                spec_add_links(base, links@.subrange(0, t as int)) == Ok::<NetModel, TopologyError>(
                    net@,
                ),
            decreases ln - t,
        {
            let l = links[t];
            let p = l.0;
            let q = l.1;
            let ghost pre_ls = links@.subrange(0, t as int);
            let ghost cur_ls = links@.subrange(0, t + 1);
            proof {
                assert(cur_ls.drop_last() =~= pre_ls);
                assert(cur_ls.last() == links@[t as int]);
                assert(cur_ls.len() > 0);
                assert(spec_add_links(base, cur_ls) == spec_add_one_link(net@, p, q));
            }
            if p == q {
                proof {
                    lemma_add_links_err_extend(base, links@, t + 1, links@.len() as int);
                    assert(links@.subrange(0, links@.len() as int) =~= links@);
                }
                return Err(TopologyError::SelfLoop);
            }
            let ip = match net.find_node(p) {
                Some(ip) => ip,
                None => {
                    proof {
                        lemma_add_links_err_extend(base, links@, t + 1, links@.len() as int);
                        assert(links@.subrange(0, links@.len() as int) =~= links@);
                    }
                    return Err(TopologyError::NotFound);
                },
            };
            let iq = match net.find_node(q) {
                Some(iq) => iq,
                None => {
                    proof {
                        lemma_add_links_err_extend(base, links@, t + 1, links@.len() as int);
                        assert(links@.subrange(0, links@.len() as int) =~= links@);
                    }
                    return Err(TopologyError::NotFound);
                },
            };
            proof {
                assert(net@.nodes[ip as int].id == p);
                assert(id_exists(net@.nodes, p));
                assert(net@.nodes[iq as int].id == q);
                assert(id_exists(net@.nodes, q));
            }
            if !net.has_edge(p, q) {
                net.add_edge_unchecked(p, q);
            }
            t = t + 1;
        }
        proof {
            assert(links@.subrange(0, ln as int) =~= links@);
            assert(spec_build(*cfg) == Ok::<NetModel, TopologyError>(net@));
        }
        match net.is_valid() {
            Ok(()) => Ok(net),
            Err(e) => Err(e),
        }
    }
}

} // verus!
