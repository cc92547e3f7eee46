//! Lookups over one topology snapshot, keyed by record key.
//!
//! A key that several rows share resolves to the last of them, as a table built by
//! inserting the rows in order would. An edge is found for a port either as the
//! first edge that touches it (the topology checker) or as the last one (the
//! config deriver).

use crate::model::{CanvasTopology, EdgeView, IpRecordView, NodeWithPorts, NodeWithPortsView, PortEntity, PortView, TopologyView};
use crate::seqs::{first_where, last_where, lemma_first_where, lemma_last_where, lemma_last_where_props};
use vstd::prelude::*;

verus! {

pub open spec fn opt_idx(r: Option<usize>) -> Option<int> {
    match r {
        Some(i) => Some(i as int),
        None => None,
    }
}

/// The node whose id is `key`.
pub open spec fn node_at(t: TopologyView, key: Seq<char>) -> Option<int> {
    last_where(t.nodes, |n: NodeWithPortsView| n.node.id == key)
}

/// Where the port `key` sits: the node's index and the port's index in it.
pub open spec fn port_loc_in(ns: Seq<NodeWithPortsView>, key: Seq<char>) -> Option<(int, int)>
    decreases ns.len(),
{
    if ns.len() == 0 {
        None
    } else {
        match last_where(ns.last().ports, |p: PortView| p.id == key) {
            Some(j) => Some((ns.len() - 1, j)),
            None => port_loc_in(ns.drop_last(), key),
        }
    }
}

pub open spec fn port_loc(t: TopologyView, key: Seq<char>) -> Option<(int, int)> {
    port_loc_in(t.nodes, key)
}

/// The node that owns port `key`.
pub open spec fn port_owner(t: TopologyView, key: Seq<char>) -> Option<int> {
    match port_loc(t, key) {
        Some((i, _)) => Some(i),
        None => None,
    }
}

/// The ip record whose id is `key`.
pub open spec fn ip_at(t: TopologyView, key: Seq<char>) -> Option<int> {
    last_where(t.ips, |r: IpRecordView| r.id == key)
}

pub open spec fn server_known(t: TopologyView, key: Seq<char>) -> bool {
    exists|i: int| 0 <= i < t.servers.len() && #[trigger] t.servers[i].id == key
}

pub open spec fn touches(e: EdgeView, key: Seq<char>) -> bool {
    e.source == key || e.target == key
}

/// The first edge that touches port `key`.
pub open spec fn edge_first(t: TopologyView, key: Seq<char>) -> Option<int> {
    first_where(t.edges, |e: EdgeView| touches(e, key))
}

/// The last edge that touches port `key`.
pub open spec fn edge_last(t: TopologyView, key: Seq<char>) -> Option<int> {
    last_where(t.edges, |e: EdgeView| touches(e, key))
}

/// The port of `e` that is not `key`'s side.
pub open spec fn other_end(e: EdgeView, key: Seq<char>) -> Seq<char> {
    if e.source == key {
        e.target
    } else {
        e.source
    }
}

/// The node on the other side of the first edge on port `key`.
pub open spec fn peer_first(t: TopologyView, key: Seq<char>) -> Option<int> {
    match edge_first(t, key) {
        Some(e) => port_owner(t, other_end(t.edges[e], key)),
        None => None,
    }
}

/// The node on the other side of the last edge on port `key`.
pub open spec fn peer_last(t: TopologyView, key: Seq<char>) -> Option<int> {
    match edge_last(t, key) {
        Some(e) => port_owner(t, other_end(t.edges[e], key)),
        None => None,
    }
}

/// The first port of `n` with the given key.
pub open spec fn port_by_key(n: NodeWithPortsView, key: Seq<char>) -> Option<int> {
    first_where(n.ports, |p: PortView| p.key == key)
}

pub open spec fn port_loc_ok(t: TopologyView, r: Option<(usize, usize)>, key: Seq<char>) -> bool {
    match r {
        Some((i, j)) => port_loc(t, key) == Some((i as int, j as int)) && i < t.nodes.len()
            && j < t.nodes[i as int].ports.len(),
        None => port_loc(t, key) is None,
    }
}

pub fn node_at_exec(t: &CanvasTopology, key: &String) -> (r: Option<usize>)
    ensures
        opt_idx(r) == node_at(t@, key@),
        r matches Some(i) ==> i < t.nodes.len(),
{
    let ghost p = |n: NodeWithPortsView| n.node.id == key@;
    let mut i = t.nodes.len();
    while i > 0
        invariant
            i <= t.nodes.len(),
            p == (|n: NodeWithPortsView| n.node.id == key@),
            forall|k: int| i <= k < t@.nodes.len() ==> !p(#[trigger] t@.nodes[k]),
        decreases i,
    {
        if t.nodes[i - 1].node.id == *key {
            proof {
                lemma_last_where(t@.nodes, p, i - 1);
            }
            return Some(i - 1);
        }
        i = i - 1;
    }
    proof {
        lemma_last_where(t@.nodes, p, -1);
    }
    None
}

fn last_port_in(ports: &Vec<PortEntity>, key: &String) -> (r: Option<usize>)
    ensures
        opt_idx(r) == last_where(ports@.map_values(|p: PortEntity| p@), |p: PortView| p.id == key@),
        r matches Some(j) ==> j < ports.len(),
{
    let ghost s = ports@.map_values(|p: PortEntity| p@);
    let ghost p = |q: PortView| q.id == key@;
    let mut j = ports.len();
    while j > 0
        invariant
            j <= ports.len(),
            s == ports@.map_values(|p: PortEntity| p@),
            p == (|q: PortView| q.id == key@),
            forall|k: int| j <= k < s.len() ==> !p(#[trigger] s[k]),
        decreases j,
    {
        if ports[j - 1].id == *key {
            proof {
                lemma_last_where(s, p, j - 1);
            }
            return Some(j - 1);
        }
        j = j - 1;
    }
    proof {
        lemma_last_where(s, p, -1);
    }
    None
}

pub fn port_loc_exec(t: &CanvasTopology, key: &String) -> (r: Option<(usize, usize)>)
    ensures
        port_loc_ok(t@, r, key@),
{
    let mut i = t.nodes.len();
    assert(t@.nodes.subrange(0, i as int) =~= t@.nodes);
    while i > 0
        invariant
            i <= t.nodes.len(),
            port_loc(t@, key@) == port_loc_in(t@.nodes.subrange(0, i as int), key@),
        decreases i,
    {
        let ghost pre = t@.nodes.subrange(0, i as int);
        assert(pre.last() == t@.nodes[i - 1]);
        assert(pre.drop_last() =~= t@.nodes.subrange(0, i - 1));
        match last_port_in(&t.nodes[i - 1].ports, key) {
            Some(j) => {
                return Some((i - 1, j));
            },
            None => {},
        }
        i = i - 1;
    }
    None
}

pub fn port_owner_exec(t: &CanvasTopology, key: &String) -> (r: Option<usize>)
    ensures
        opt_idx(r) == port_owner(t@, key@),
        r matches Some(i) ==> i < t.nodes.len(),
{
    match port_loc_exec(t, key) {
        Some((i, _)) => Some(i),
        None => None,
    }
}

pub fn ip_at_exec(t: &CanvasTopology, key: &String) -> (r: Option<usize>)
    ensures
        opt_idx(r) == ip_at(t@, key@),
        r matches Some(i) ==> i < t.ips.len(),
{
    let ghost p = |r: IpRecordView| r.id == key@;
    let mut i = t.ips.len();
    while i > 0
        invariant
            i <= t.ips.len(),
            p == (|r: IpRecordView| r.id == key@),
            forall|k: int| i <= k < t@.ips.len() ==> !p(#[trigger] t@.ips[k]),
        decreases i,
    {
        if t.ips[i - 1].id == *key {
            proof {
                lemma_last_where(t@.ips, p, i - 1);
            }
            return Some(i - 1);
        }
        i = i - 1;
    }
    proof {
        lemma_last_where(t@.ips, p, -1);
    }
    None
}

pub fn server_known_exec(t: &CanvasTopology, key: &String) -> (r: bool)
    ensures
        r == server_known(t@, key@),
{
    let mut i: usize = 0;
    while i < t.servers.len()
        invariant
            i <= t.servers.len(),
            forall|k: int| 0 <= k < i ==> #[trigger] t@.servers[k].id != key@,
        decreases t.servers.len() - i,
    {
        if t.servers[i].id == *key {
            assert(t@.servers[i as int].id == key@);
            return true;
        }
        i = i + 1;
    }
    false
}

pub fn edge_first_exec(t: &CanvasTopology, key: &String) -> (r: Option<usize>)
    ensures
        opt_idx(r) == edge_first(t@, key@),
        r matches Some(e) ==> e < t.edges.len(),
{
    let ghost p = |e: EdgeView| touches(e, key@);
    let mut i: usize = 0;
    while i < t.edges.len()
        invariant
            i <= t.edges.len(),
            p == (|e: EdgeView| touches(e, key@)),
            forall|k: int| 0 <= k < i ==> !p(#[trigger] t@.edges[k]),
        decreases t.edges.len() - i,
    {
        if t.edges[i].source == *key || t.edges[i].target == *key {
            proof {
                lemma_first_where(t@.edges, p, i as int);
            }
            return Some(i);
        }
        i = i + 1;
    }
    proof {
        lemma_first_where(t@.edges, p, i as int);
    }
    None
}

pub fn edge_last_exec(t: &CanvasTopology, key: &String) -> (r: Option<usize>)
    ensures
        opt_idx(r) == edge_last(t@, key@),
        r matches Some(e) ==> e < t.edges.len(),
{
    let ghost p = |e: EdgeView| touches(e, key@);
    let mut i = t.edges.len();
    while i > 0
        invariant
            i <= t.edges.len(),
            p == (|e: EdgeView| touches(e, key@)),
            forall|k: int| i <= k < t@.edges.len() ==> !p(#[trigger] t@.edges[k]),
        decreases i,
    {
        if t.edges[i - 1].source == *key || t.edges[i - 1].target == *key {
            proof {
                lemma_last_where(t@.edges, p, i - 1);
            }
            return Some(i - 1);
        }
        i = i - 1;
    }
    proof {
        lemma_last_where(t@.edges, p, -1);
    }
    None
}

/// The node on the other side of the first edge on `port`.
pub fn peer_first_exec(t: &CanvasTopology, port: &String) -> (r: Option<usize>)
    ensures
        opt_idx(r) == peer_first(t@, port@),
        r matches Some(i) ==> i < t.nodes.len(),
{
    match edge_first_exec(t, port) {
        Some(e) => {
            let edge = &t.edges[e];
            if edge.source == *port {
                port_owner_exec(t, &edge.target)
            } else {
                port_owner_exec(t, &edge.source)
            }
        },
        None => None,
    }
}

/// The node on the other side of the last edge on `port`.
pub fn peer_last_exec(t: &CanvasTopology, port: &String) -> (r: Option<usize>)
    ensures
        opt_idx(r) == peer_last(t@, port@),
        r matches Some(i) ==> i < t.nodes.len(),
{
    match edge_last_exec(t, port) {
        Some(e) => {
            let edge = &t.edges[e];
            if edge.source == *port {
                port_owner_exec(t, &edge.target)
            } else {
                port_owner_exec(t, &edge.source)
            }
        },
        None => None,
    }
}

/// The first port of `n` with the given key.
pub fn port_by_key_exec(n: &NodeWithPorts, key: &str) -> (r: Option<usize>)
    ensures
        opt_idx(r) == port_by_key(n@, key@),
        r matches Some(j) ==> j < n.ports.len(),
{
    let k = String::from_str(key);
    let ghost p = |q: PortView| q.key == key@;
    let mut j: usize = 0;
    while j < n.ports.len()
        invariant
            j <= n.ports.len(),
            k@ == key@,
            p == (|q: PortView| q.key == key@),
            forall|m: int| 0 <= m < j ==> !p(#[trigger] n@.ports[m]),
        decreases n.ports.len() - j,
    {
        if n.ports[j].key == k {
            proof {
                lemma_first_where(n@.ports, p, j as int);
            }
            return Some(j);
        }
        j = j + 1;
    }
    proof {
        lemma_first_where(n@.ports, p, j as int);
    }
    None
}

/// Properties of a found port location.
pub proof fn lemma_port_loc_in_props(ns: Seq<NodeWithPortsView>, key: Seq<char>)
    ensures
        port_loc_in(ns, key) matches Some((i, j)) ==> 0 <= i < ns.len() && 0 <= j < ns[i].ports.len()
            && ns[i].ports[j].id == key,
    decreases ns.len(),
{
    if ns.len() > 0 {
        lemma_last_where_props(ns.last().ports, |p: PortView| p.id == key);
        lemma_port_loc_in_props(ns.drop_last(), key);
    }
}

} // verus!
