//! Config derivation: one server's ideal worker config from a canvas topology.
//!
//! Derivation is a function of the topology alone, so the same snapshot always
//! gives the same config; that is what lets a derivation pass skip servers whose
//! config did not change. Each pod stands on its own: a pod that cannot be derived
//! is reported with its reason and costs only its own forwarding. Only a server
//! that is not on the canvas, or two pods claiming one listener, fail the server.

use crate::checks::{idxs, node_ids, sorted_nodes};
use crate::cycles::{sorted_keys, sorted_ok};
use crate::index::{
    edge_last, edge_last_exec, ip_at, ip_at_exec, opt_idx, peer_last, peer_last_exec,
    port_by_key, port_by_key_exec,
};
use crate::model::{
    CanvasTopology, LoadBalanceMode, NodeSpec, NodeSpecView, NodeWithPorts, NodeWithPortsView,
    PortDirection, PortView, ProxyProtocolVersion, RelayProtocol as NodeRelayProtocol,
    TopologyView,
};
use crate::net::{parse_ip, parse_ip_exec, IpAddr, SocketAddr};
use crate::seqs::first_where;
use crate::text::{decimal, push_decimal, push_str, string_eq};
use crate::topology::strs;
use crate::worker_config::{
    has_empty_group, spec_parse_remote, Config, ConfigError, ConfigErrorView, ConfigView,
    Forwarding, ForwardingTo, ForwardingToView, ForwardingView, ListenAs, ListenAsView,
    LoadBalanceGroup, LogConfig, RelayHost, RelayHostView, RelayProtocol, Remote, RemoteView,
};
use vstd::prelude::*;

verus! {

/// How a listener accepts its traffic.
#[derive(Debug, Clone, Copy, PartialEq, Eq, Structural)]
pub enum ListenProtocol {
    Raw,
    RelayTcp,
    RelayTls,
    RelayQuic,
}

/// A listener one server serves: its ip text, port and protocol.
#[derive(Debug)]
pub struct ListenerCap {
    pub ip: String,
    pub port: i64,
    pub protocol: ListenProtocol,
}

pub struct ListenerCapView {
    pub ip: Seq<char>,
    pub port: i64,
    pub protocol: ListenProtocol,
}

impl View for ListenerCap {
    type V = ListenerCapView;

    open spec fn view(&self) -> ListenerCapView {
        ListenerCapView { ip: self.ip@, port: self.port, protocol: self.protocol }
    }
}

impl ListenerCapView {
    /// Two listeners on one socket that accept different protocols cannot coexist.
    pub open spec fn spec_conflicts(self, other: ListenerCapView) -> bool {
        self.ip == other.ip && self.port == other.port && self.protocol != other.protocol
    }
}

impl ListenerCap {
    pub fn duplicate(&self) -> (r: ListenerCap)
        ensures
            r@ == self@,
    {
        ListenerCap { ip: self.ip.clone(), port: self.port, protocol: self.protocol }
    }

    /// Whether `self` and `other` claim one socket with different protocols.
    pub fn conflicts(&self, other: &ListenerCap) -> (r: bool)
        ensures
            r == self@.spec_conflicts(other@),
    {
        string_eq(&self.ip, &other.ip) && self.port == other.port && self.protocol != other.protocol
    }

    /// Whether `self` and `other` are the same listener.
    pub fn same(&self, other: &ListenerCap) -> (r: bool)
        ensures
            r == (self@ == other@),
    {
        string_eq(&self.ip, &other.ip) && self.port == other.port && self.protocol == other.protocol
    }
}

/// What one forwarding serves, and the listeners on other servers it dials.
#[derive(Debug)]
pub struct ForwardingDeps {
    pub serves: ListenerCap,
    pub points_at: Vec<ListenerCap>,
}

pub struct DepsView {
    pub serves: ListenerCapView,
    pub points_at: Seq<ListenerCapView>,
}

pub open spec fn caps_view(v: Seq<ListenerCap>) -> Seq<ListenerCapView> {
    v.map_values(|c: ListenerCap| c@)
}

impl View for ForwardingDeps {
    type V = DepsView;

    open spec fn view(&self) -> DepsView {
        DepsView { serves: self.serves@, points_at: caps_view(self.points_at@) }
    }
}

pub fn duplicate_caps(v: &Vec<ListenerCap>) -> (r: Vec<ListenerCap>)
    ensures
        caps_view(r@) == caps_view(v@),
{
    let mut out: Vec<ListenerCap> = Vec::new();
    let mut i: usize = 0;
    while i < v.len()
        invariant
            i <= v.len(),
            caps_view(out@) == caps_view(v@).subrange(0, i as int),
        decreases v.len() - i,
    {
        let ghost prev = caps_view(out@);
        out.push(v[i].duplicate());
        assert(caps_view(out@) =~= prev.push(v@[i as int]@));
        i = i + 1;
    }
    assert(caps_view(v@).subrange(0, v.len() as int) =~= caps_view(v@));
    out
}

impl ForwardingDeps {
    pub fn duplicate(&self) -> (r: ForwardingDeps)
        ensures
            r@ == self@,
    {
        ForwardingDeps { serves: self.serves.duplicate(), points_at: duplicate_caps(&self.points_at) }
    }
}

/// A pod that could not be derived: its name, the socket it would listen on, and
/// why.
#[derive(Debug)]
pub struct InvalidPod {
    pub pod: String,
    pub listen: String,
    pub error: String,
}

pub struct InvalidPodView {
    pub pod: Seq<char>,
    pub listen: Seq<char>,
    pub error: Seq<char>,
}

impl View for InvalidPod {
    type V = InvalidPodView;

    open spec fn view(&self) -> InvalidPodView {
        InvalidPodView { pod: self.pod@, listen: self.listen@, error: self.error@ }
    }
}

/// Why a pod, or a whole server, could not be derived.
#[derive(Debug)]
pub enum DeriveError {
    TlsNotYetSupported { node: String },
    RelayProtocolNotYetSupported { node: String, protocol: String },
    UnsupportedSpec { node: String },
    MissingIpRecord { node: String, ip: String },
    InvalidIp { ip: String, value: String },
    InvalidDestination { node: String, destination: String },
    RelayWithoutPod { node: String },
    Cycle { node: String },
    UnknownServer { server: String },
    Invalid(ConfigError),
}

pub enum DeriveErrorView {
    TlsNotYetSupported { node: Seq<char> },
    RelayProtocolNotYetSupported { node: Seq<char>, protocol: Seq<char> },
    UnsupportedSpec { node: Seq<char> },
    MissingIpRecord { node: Seq<char>, ip: Seq<char> },
    InvalidIp { ip: Seq<char>, value: Seq<char> },
    InvalidDestination { node: Seq<char>, destination: Seq<char> },
    RelayWithoutPod { node: Seq<char> },
    Cycle { node: Seq<char> },
    UnknownServer { server: Seq<char> },
    Invalid(ConfigErrorView),
}

impl View for DeriveError {
    type V = DeriveErrorView;

    open spec fn view(&self) -> DeriveErrorView {
        match self {
            DeriveError::TlsNotYetSupported { node } => DeriveErrorView::TlsNotYetSupported {
                node: node@,
            },
            DeriveError::RelayProtocolNotYetSupported { node, protocol } =>
                DeriveErrorView::RelayProtocolNotYetSupported { node: node@, protocol: protocol@ },
            DeriveError::UnsupportedSpec { node } => DeriveErrorView::UnsupportedSpec { node: node@ },
            DeriveError::MissingIpRecord { node, ip } => DeriveErrorView::MissingIpRecord {
                node: node@,
                ip: ip@,
            },
            DeriveError::InvalidIp { ip, value } => DeriveErrorView::InvalidIp { ip: ip@, value: value@ },
            DeriveError::InvalidDestination { node, destination } =>
                DeriveErrorView::InvalidDestination { node: node@, destination: destination@ },
            DeriveError::RelayWithoutPod { node } => DeriveErrorView::RelayWithoutPod { node: node@ },
            DeriveError::Cycle { node } => DeriveErrorView::Cycle { node: node@ },
            DeriveError::UnknownServer { server } => DeriveErrorView::UnknownServer {
                server: server@,
            },
            DeriveError::Invalid(e) => DeriveErrorView::Invalid(e@),
        }
    }
}

/// The worker config's name of a relay protocol, as the messages spell it.
pub open spec fn spec_relay_protocol_name(p: NodeRelayProtocol) -> Seq<char> {
    match p {
        NodeRelayProtocol::TcpRaw => "tcp_raw"@,
        NodeRelayProtocol::TcpTls => "tcp_tls"@,
        NodeRelayProtocol::Quic => "quic"@,
    }
}

pub fn relay_protocol_name(p: NodeRelayProtocol) -> (r: &'static str)
    ensures
        r@ == spec_relay_protocol_name(p),
{
    proof {
        reveal_strlit("tcp_raw");
        reveal_strlit("tcp_tls");
        reveal_strlit("quic");
    }
    match p {
        NodeRelayProtocol::TcpRaw => "tcp_raw",
        NodeRelayProtocol::TcpTls => "tcp_tls",
        NodeRelayProtocol::Quic => "quic",
    }
}

// ---------------------------------------------------------------------------
// Input ports in position order.
// ---------------------------------------------------------------------------

/// `s` with port `i` inserted after every port whose position is not greater.
pub open spec fn insert_by_position(ports: Seq<PortView>, s: Seq<int>, i: int) -> Seq<int>
    decreases s.len(),
{
    if s.len() == 0 {
        seq![i]
    } else if ports[s.last()].position <= ports[i].position {
        s.push(i)
    } else {
        insert_by_position(ports, s.drop_last(), i).push(s.last())
    }
}

/// The input ports among the first `j`, ordered by position; ports with equal
/// positions keep their order.
pub open spec fn inputs_upto(ports: Seq<PortView>, j: int) -> Seq<int>
    decreases j,
{
    if j <= 0 {
        Seq::empty()
    } else if ports[j - 1].direction == PortDirection::Input {
        insert_by_position(ports, inputs_upto(ports, j - 1), j - 1)
    } else {
        inputs_upto(ports, j - 1)
    }
}

pub open spec fn spec_inputs_in_order(n: NodeWithPortsView) -> Seq<int> {
    inputs_upto(n.ports, n.ports.len() as int)
}

proof fn lemma_insert_at(ports: Seq<PortView>, s: Seq<int>, i: int, k: int)
    requires
        0 <= k <= s.len(),
        forall|z: int| k <= z < s.len() ==> ports[#[trigger] s[z]].position > ports[i].position,
        k > 0 ==> ports[s[k - 1]].position <= ports[i].position,
    ensures
        insert_by_position(ports, s, i) == s.subrange(0, k).push(i) + s.subrange(k, s.len() as int),
    decreases s.len(),
{
    if s.len() == 0 {
        assert(seq![i] =~= Seq::<int>::empty().push(i) + Seq::<int>::empty());
    } else if k == s.len() {
        assert(s.subrange(0, k) =~= s);
        assert(s.push(i) =~= s.subrange(0, k).push(i) + s.subrange(k, s.len() as int));
    } else {
        let d = s.drop_last();
        assert(ports[s[s.len() - 1]].position > ports[i].position);
        assert forall|z: int| k <= z < d.len() implies ports[#[trigger] d[z]].position > ports[i].position by {
            assert(d[z] == s[z]);
        }
        if k > 0 {
            assert(d[k - 1] == s[k - 1]);
        }
        lemma_insert_at(ports, d, i, k);
        assert(insert_by_position(ports, d, i).push(s.last()) =~= s.subrange(0, k).push(i) + s.subrange(
            k,
            s.len() as int,
        ));
    }
}

/// The input ports of `n`, in position order.
pub fn inputs_in_order(n: &NodeWithPorts) -> (r: Vec<usize>)
    ensures
        idxs(r) == spec_inputs_in_order(n@),
        forall|z: int| 0 <= z < r.len() ==> (#[trigger] r@[z]) < n.ports.len(),
{
    let ghost ports = n@.ports;
    let mut out: Vec<usize> = Vec::new();
    let mut j: usize = 0;
    while j < n.ports.len()
        invariant
            j <= n.ports.len(),
            ports == n@.ports,
            ports.len() == n.ports.len(),
            idxs(out) == inputs_upto(ports, j as int),
            forall|z: int| 0 <= z < out.len() ==> (#[trigger] out@[z]) < j,
        decreases n.ports.len() - j,
    {
        assert(ports[j as int] == n.ports@[j as int]@);
        if n.ports[j].direction == PortDirection::Input {
            let pos = n.ports[j].position;
            let mut k: usize = out.len();
            while k > 0 && n.ports[out[k - 1]].position > pos
                invariant
                    k <= out.len(),
                    j < n.ports.len(),
                    ports == n@.ports,
                    pos == ports[j as int].position,
                    forall|z: int| 0 <= z < out.len() ==> (#[trigger] out@[z]) < j,
                    forall|z: int| k <= z < out.len() ==> ports[#[trigger] idxs(out)[z]].position > pos,
                decreases k,
            {
                assert(ports[out@[k - 1] as int] == n.ports@[out@[k - 1] as int]@);
                k = k - 1;
            }
            if k > 0 {
                assert(ports[out@[k - 1] as int] == n.ports@[out@[k - 1] as int]@);
            }
            let ghost before = idxs(out);
            proof {
                lemma_insert_at(ports, before, j as int, k as int);
            }
            out.insert(k, j);
            assert(idxs(out) =~= before.subrange(0, k as int).push(j as int) + before.subrange(
                k as int,
                before.len() as int,
            ));
        }
        j = j + 1;
    }
    out
}

// ---------------------------------------------------------------------------
// The destination side of a pod.
// ---------------------------------------------------------------------------

pub open spec fn opt_pp(o: Option<ProxyProtocolVersion>) -> Option<crate::worker_config::TcpProxyProtocol> {
    match o {
        Some(v) => Some(v.spec_to_worker()),
        None => None,
    }
}

pub open spec fn dest_ok(to: ForwardingToView, caps: Seq<ListenerCapView>) -> Result<
    (ForwardingToView, Seq<ListenerCapView>),
    DeriveErrorView,
> {
    Ok((to, caps))
}

#[verifier::opaque]
/// A relay hop: it dials the pod that feeds its listen side, at the pod's own
/// address unless the relay overrides host or port, and depends on that pod's
/// listener.
pub open spec fn relay_dest(
    t: TopologyView,
    ni: int,
    protocol: NodeRelayProtocol,
    override_ip: Option<Seq<char>>,
    override_port: Option<u16>,
) -> Result<(ForwardingToView, Seq<ListenerCapView>), DeriveErrorView> {
    let n = t.nodes[ni];
    let name = n.node.name;
    if protocol != NodeRelayProtocol::TcpRaw {
        Err(
            DeriveErrorView::RelayProtocolNotYetSupported {
                node: name,
                protocol: spec_relay_protocol_name(protocol),
            },
        )
    } else {
        match port_by_key(n, "listen"@) {
            None => Err(DeriveErrorView::RelayWithoutPod { node: name }),
            Some(j) => match peer_last(t, n.ports[j].id) {
                None => Err(DeriveErrorView::RelayWithoutPod { node: name }),
                Some(q) => match t.nodes[q].node.spec {
                    NodeSpecView::Pod { ip, port } => match ip_at(t, ip) {
                        None => Err(DeriveErrorView::MissingIpRecord { node: t.nodes[q].node.name, ip }),
                        Some(r) => {
                            let rec = t.ips[r];
                            let cap = ListenerCapView {
                                ip: rec.ip,
                                port: port as i64,
                                protocol: ListenProtocol::RelayTcp,
                            };
                            let host = match override_ip {
                                Some(h) => h,
                                None => rec.ip,
                            };
                            let p = match override_port {
                                Some(p) => p,
                                None => port,
                            };
                            let text = host + ":"@ + decimal(p as nat);
                            match parse_ip(host) {
                                Some(a) => dest_ok(
                                    ForwardingToView::Relay {
                                        protocol: RelayProtocol::Tcp,
                                        destination: RemoteView::Address(SocketAddr::spec_new(a, p)),
                                        sni: None,
                                    },
                                    seq![cap],
                                ),
                                None => match spec_parse_remote(text) {
                                    Ok(rm) => dest_ok(
                                        ForwardingToView::Relay {
                                            protocol: RelayProtocol::Tcp,
                                            destination: rm,
                                            sni: None,
                                        },
                                        seq![cap],
                                    ),
                                    Err(_) => Err(
                                        DeriveErrorView::InvalidDestination { node: name, destination: text },
                                    ),
                                },
                            }
                        },
                    },
                    _ => Err(DeriveErrorView::RelayWithoutPod { node: name }),
                },
            },
        }
    }
}

/// The pod that feeds the listen side of node `ni`: the text of its ip record and
/// its port.
pub open spec fn relay_feeder(t: TopologyView, ni: int) -> Option<(Seq<char>, u16)> {
    let n = t.nodes[ni];
    match port_by_key(n, "listen"@) {
        None => None,
        Some(j) => match peer_last(t, n.ports[j].id) {
            None => None,
            Some(q) => match t.nodes[q].node.spec {
                NodeSpecView::Pod { ip, port } => match ip_at(t, ip) {
                    Some(r) => Some((t.ips[r].ip, port)),
                    None => None,
                },
                _ => None,
            },
        },
    }
}

/// A TCP relay hop dials the pod that feeds it: at the override address if the
/// relay sets one and at the pod's ip otherwise, and at the override port if the
/// relay sets one and at the pod's port otherwise. (Stated where the address is an
/// IP literal; a host name goes through the remote parser.)
pub proof fn relay_hops_dial_their_override_port(
    t: TopologyView,
    ni: int,
    override_ip: Option<Seq<char>>,
    override_port: Option<u16>,
)
    ensures
        relay_feeder(t, ni) matches Some((ip, port)) ==> (parse_ip(
            match override_ip {
                Some(h) => h,
                None => ip,
            },
        ) matches Some(a) ==> relay_dest(t, ni, NodeRelayProtocol::TcpRaw, override_ip, override_port) == Ok::<
            (ForwardingToView, Seq<ListenerCapView>),
            DeriveErrorView,
        >(
            (
                ForwardingToView::Relay {
                    protocol: RelayProtocol::Tcp,
                    destination: RemoteView::Address(
                        SocketAddr::spec_new(
                            a,
                            match override_port {
                                Some(p) => p,
                                None => port,
                            },
                        ),
                    ),
                    sni: None,
                },
                seq![ListenerCapView { ip, port: port as i64, protocol: ListenProtocol::RelayTcp }],
            ),
        )),
{
    reveal(relay_dest);
}

/// An exit: its destination parsed as a remote.
#[verifier::opaque]
pub open spec fn exit_dest(name: Seq<char>, destination: Seq<char>, pass: Option<ProxyProtocolVersion>) -> Result<
    (ForwardingToView, Seq<ListenerCapView>),
    DeriveErrorView,
> {
    match spec_parse_remote(destination) {
        Ok(r) => dest_ok(
            ForwardingToView::Exit { destination: r, send_proxy_protocol: opt_pp(pass) },
            Seq::empty(),
        ),
        Err(_) => Err(DeriveErrorView::InvalidDestination { node: name, destination }),
    }
}

fn exit_destination(name: &String, cfg: &crate::model::ExitConfig) -> (r: Result<ForwardingTo, DeriveError>)
    ensures
        match exit_dest(name@, cfg.destination@, cfg.pass_proxy_protocol) {
            Ok((to, caps)) => r matches Ok(x) && x@ == to && caps == Seq::<ListenerCapView>::empty(),
            Err(e) => r matches Err(x) && x@ == e,
        },
{
    proof {
        reveal(exit_dest);
    }
    match Remote::parse(cfg.destination.as_str()) {
        Ok(rm) => Ok(
            ForwardingTo::Exit {
                destination: rm,
                send_proxy_protocol: match cfg.pass_proxy_protocol {
                    Some(v) => Some(v.to_worker()),
                    None => None,
                },
            },
        ),
        Err(_) => Err(
            DeriveError::InvalidDestination { node: name.clone(), destination: cfg.destination.clone() },
        ),
    }
}

#[verifier::opaque]
/// What walking the destination side from node `ni` gives, `visited` holding the
/// nodes on the walk so far: the destination tree and the listeners it dials, in
/// walk order. Meeting a node of the walk again is a cycle.
pub open spec fn dest(t: TopologyView, ni: int, visited: Seq<Seq<char>>) -> Result<
    (ForwardingToView, Seq<ListenerCapView>),
    DeriveErrorView,
>
    decreases t.nodes.len() - visited.len(), 0int,
{
    let n = t.nodes[ni];
    let name = n.node.name;
    if visited.contains(n.node.id) || visited.len() >= t.nodes.len() {
        Err(DeriveErrorView::Cycle { node: name })
    } else {
        let v2 = visited.push(n.node.id);
        match n.node.spec {
            NodeSpecView::Exit { destination, pass_proxy_protocol } => exit_dest(
                name,
                destination,
                pass_proxy_protocol,
            ),
            NodeSpecView::Relay { protocol, override_ip_address, override_port } => relay_dest(
                t,
                ni,
                protocol,
                override_ip_address,
                override_port,
            ),
            NodeSpecView::LoadBalanceDistribute { mode } => match members(
                t,
                ni,
                spec_inputs_in_order(n),
                0,
                v2,
            ) {
                Ok((ms, caps)) => dest_ok(
                    ForwardingToView::LoadBalance { strategy: mode.spec_to_worker(), members: ms },
                    caps,
                ),
                Err(e) => Err(e),
            },
            NodeSpecView::LoadBalanceAggregate => {
                let ins = spec_inputs_in_order(n);
                if ins.len() == 0 {
                    Err(DeriveErrorView::UnsupportedSpec { node: name })
                } else {
                    match peer_last(t, n.ports[ins[0]].id) {
                        None => Err(DeriveErrorView::UnsupportedSpec { node: name }),
                        Some(q) => dest(t, q, v2),
                    }
                }
            },
            _ => Err(DeriveErrorView::UnsupportedSpec { node: name }),
        }
    }
}

/// The members of a distributing group from its `k`-th input port on: each
/// connected input is walked in turn, an unconnected one is skipped.
pub open spec fn members(t: TopologyView, ni: int, ins: Seq<int>, k: int, visited: Seq<Seq<char>>) -> Result<
    (Seq<ForwardingToView>, Seq<ListenerCapView>),
    DeriveErrorView,
>
    decreases t.nodes.len() - visited.len(), ins.len() - k + 1,
{
    if k < 0 || k >= ins.len() {
        Ok((Seq::empty(), Seq::empty()))
    } else {
        match peer_last(t, t.nodes[ni].ports[ins[k]].id) {
            None => members(t, ni, ins, k + 1, visited),
            Some(q) => match dest(t, q, visited) {
                Err(e) => Err(e),
                Ok((m, caps)) => match members(t, ni, ins, k + 1, visited) {
                    Err(e) => Err(e),
                    Ok((ms, cs)) => Ok((seq![m] + ms, caps + cs)),
                },
            },
        }
    }
}

proof fn lemma_visited_push(t: TopologyView, v0: Seq<Seq<char>>, k: Seq<char>)
    requires
        visited_ok(t, v0),
        !v0.contains(k),
        node_ids(t).contains(k),
    ensures
        visited_ok(t, v0.push(k)),
        v0.len() < t.nodes.len(),
{
    lemma_walk_shorter(t, v0, k);
    let v2 = v0.push(k);
    assert forall|i: int| 0 <= i < v2.len() implies node_ids(t).contains(#[trigger] v2[i]) by {
        if i < v0.len() {
            assert(v2[i] == v0[i]);
        }
    }
    assert forall|i: int, j: int| 0 <= i < v2.len() && 0 <= j < v2.len() && i != j implies v2[i] != v2[j] by {
        if i < v0.len() && j < v0.len() {
            assert(v2[i] == v0[i] && v2[j] == v0[j]);
        } else if i == v0.len() {
            assert(v2[j] == v0[j]);
            if v0[j] == k {
                assert(v0.contains(k));
            }
        } else {
            assert(v2[i] == v0[i]);
            if v0[i] == k {
                assert(v0.contains(k));
            }
        }
    }
}

/// The walk so far holds distinct node keys.
pub open spec fn visited_ok(t: TopologyView, v: Seq<Seq<char>>) -> bool {
    &&& v.no_duplicates()
    &&& forall|i: int| 0 <= i < v.len() ==> node_ids(t).contains(#[trigger] v[i])
}

/// A walk of distinct node keys that misses one key is shorter than the node list.
proof fn lemma_walk_shorter(t: TopologyView, v: Seq<Seq<char>>, k: Seq<char>)
    requires
        visited_ok(t, v),
        !v.contains(k),
        node_ids(t).contains(k),
    ensures
        v.len() < t.nodes.len(),
{
    let w = v.push(k);
    assert(w.no_duplicates()) by {
        assert forall|i: int, j: int| 0 <= i < w.len() && 0 <= j < w.len() && i != j implies w[i] != w[j] by {
            if i < v.len() && j < v.len() {
                assert(w[i] == v[i] && w[j] == v[j]);
            } else if i == v.len() {
                assert(w[j] == v[j]);
                if v[j] == k {
                    assert(v.contains(k));
                }
            } else {
                assert(w[i] == v[i]);
                if v[i] == k {
                    assert(v.contains(k));
                }
            }
        }
    }
    w.unique_seq_to_set();
    let ids = node_ids(t);
    assert(w.to_set().subset_of(ids.to_set())) by {
        assert forall|x: Seq<char>| w.to_set().contains(x) implies ids.to_set().contains(x) by {
            let i = choose|i: int| 0 <= i < w.len() && w[i] == x;
            if i < v.len() {
                assert(w[i] == v[i]);
                assert(ids.contains(v[i]));
            }
        }
    }
    vstd::set_lib::lemma_len_subset(w.to_set(), ids.to_set());
    ids.lemma_cardinality_of_set();
}

fn contains_string(v: &Vec<String>, k: &String) -> (r: bool)
    ensures
        r == strs(*v).contains(k@),
{
    let mut i: usize = 0;
    while i < v.len()
        invariant
            i <= v.len(),
            forall|z: int| 0 <= z < i ==> strs(*v)[z] != k@,
        decreases v.len() - i,
    {
        if string_eq(&v[i], k) {
            assert(strs(*v)[i as int] == k@);
            return true;
        }
        i = i + 1;
    }
    false
}

#[verifier::rlimit(60)]
#[verifier::spinoff_prover]
fn relay_destination(
    t: &CanvasTopology,
    ni: usize,
    cfg: &crate::model::RelayConfig,
    points_at: &mut Vec<ListenerCap>,
) -> (r: Result<ForwardingTo, DeriveError>)
    requires
        ni < t.nodes.len(),
    ensures
        match relay_dest(
            t@,
            ni as int,
            cfg.protocol,
            crate::model::opt_str(cfg.override_ip_address),
            cfg.override_port,
        ) {
            Ok((to, caps)) => r matches Ok(x) && x@ == to && caps_view(final(points_at)@) == caps_view(
                old(points_at)@,
            ) + caps,
            Err(e) => r matches Err(x) && x@ == e,
        },
{
    proof {
        reveal(relay_dest);
    }
    let n = &t.nodes[ni];
    if cfg.protocol != NodeRelayProtocol::TcpRaw {
        return Err(
            DeriveError::RelayProtocolNotYetSupported {
                node: n.node.name.clone(),
                protocol: String::from_str(relay_protocol_name(cfg.protocol)),
            },
        );
    }
    let j = match port_by_key_exec(n, "listen") {
        Some(j) => j,
        None => return Err(DeriveError::RelayWithoutPod { node: n.node.name.clone() }),
    };
    let q = match peer_last_exec(t, &n.ports[j].id) {
        Some(q) => q,
        None => return Err(DeriveError::RelayWithoutPod { node: n.node.name.clone() }),
    };
    let pod = &t.nodes[q];
    let pod_cfg = match &pod.node.spec {
        NodeSpec::Pod(c) => c,
        _ => return Err(DeriveError::RelayWithoutPod { node: n.node.name.clone() }),
    };
    let r = match ip_at_exec(t, &pod_cfg.ip) {
        Some(r) => r,
        None => return Err(
            DeriveError::MissingIpRecord { node: pod.node.name.clone(), ip: pod_cfg.ip.clone() },
        ),
    };
    let rec = &t.ips[r];
    let ghost before = caps_view(points_at@);
    let cap = ListenerCap { ip: rec.ip.clone(), port: pod_cfg.port as i64, protocol: ListenProtocol::RelayTcp };
    let host = match &cfg.override_ip_address {
        Some(h) => h.clone(),
        None => rec.ip.clone(),
    };
    let p = match cfg.override_port {
        Some(p) => p,
        None => pod_cfg.port,
    };
    let mut text = host.clone();
    push_str(&mut text, ":");
    push_decimal(&mut text, p as u128);
    let destination = match parse_ip_exec(host.as_str()) {
        Some(a) => Remote::Address(SocketAddr::new(a, p)),
        None => match Remote::parse(text.as_str()) {
            Ok(rm) => rm,
            Err(_) => return Err(DeriveError::InvalidDestination { node: n.node.name.clone(), destination: text }),
        },
    };
    points_at.push(cap);
    assert(caps_view(points_at@) =~= before + seq![points_at@[points_at@.len() - 1]@]);
    Ok(ForwardingTo::Relay { protocol: RelayProtocol::Tcp, destination, sni: None })
}

pub open spec fn prepend(
    ms0: Seq<ForwardingToView>,
    cs0: Seq<ListenerCapView>,
    r: Result<(Seq<ForwardingToView>, Seq<ListenerCapView>), DeriveErrorView>,
) -> Result<(Seq<ForwardingToView>, Seq<ListenerCapView>), DeriveErrorView> {
    match r {
        Ok((ms, cs)) => Ok((ms0 + ms, cs0 + cs)),
        Err(e) => Err(e),
    }
}

/// Walks the destination side from node `ni`, collecting into `points_at` every
/// listener on another server the forwarding will dial.
#[verifier::rlimit(80)]
#[verifier::spinoff_prover]
fn derive_destination(
    t: &CanvasTopology,
    ni: usize,
    visited: &mut Vec<String>,
    points_at: &mut Vec<ListenerCap>,
) -> (r: Result<ForwardingTo, DeriveError>)
    requires
        ni < t.nodes.len(),
        visited_ok(t@, strs(*old(visited))),
    ensures
        match dest(t@, ni as int, strs(*old(visited))) {
            Ok((to, caps)) => r matches Ok(x) && x@ == to && caps_view(final(points_at)@) == caps_view(
                old(points_at)@,
            ) + caps && strs(*final(visited)) == strs(*old(visited)),
            Err(e) => r matches Err(x) && x@ == e,
        },
        strs(*old(visited)).contains(t@.nodes[ni as int].node.id) ==> final(visited)@ == old(visited)@
            && final(points_at)@ == old(points_at)@,
    decreases t.nodes.len() - visited.len(), 0int,
{
    proof {
        reveal_with_fuel(dest, 1);
    }
    let n = &t.nodes[ni];
    let ghost v0 = strs(*visited);
    let ghost c0 = caps_view(points_at@);
    if contains_string(visited, &n.node.id) {
        return Err(DeriveError::Cycle { node: n.node.name.clone() });
    }
    proof {
        assert(node_ids(t@)[ni as int] == n.node.id@);
        lemma_visited_push(t@, v0, n.node.id@);
    }
    visited.push(n.node.id.clone());
    let ghost v2 = strs(*visited);
    assert(v2 =~= v0.push(n.node.id@));
    let ghost want = dest(t@, ni as int, v0);
    let result = match &n.node.spec {
        NodeSpec::Exit(cfg) => match exit_destination(&n.node.name, cfg) {
            Ok(x) => {
                assert(want == exit_dest(n.node.name@, cfg.destination@, cfg.pass_proxy_protocol));
                assert(caps_view(points_at@) =~= c0 + Seq::<ListenerCapView>::empty());
                assert(want matches Ok((to, caps)) && to == x@ && caps.len() == 0);
                x
            },
            Err(e) => {
                return Err(e);
            },
        },
        NodeSpec::Relay(cfg) => match relay_destination(t, ni, cfg, points_at) {
            Ok(x) => {
                assert(want == relay_dest(t@, ni as int, cfg.protocol, crate::model::opt_str(cfg.override_ip_address), cfg.override_port));
                x
            },
            Err(e) => {
                return Err(e);
            },
        },
        NodeSpec::LoadBalanceDistribute(cfg) => match derive_members(t, ni, visited, points_at) {
            Ok(ms) => {
                assert(strs(*visited) == v2);
                let r = ForwardingTo::LoadBalance(Box::new(LoadBalanceGroup { strategy: cfg.mode.to_worker(), members: ms }));
                assert(want matches Ok((to, caps)) && to == r@);
                r
            },
            Err(e) => {
                return Err(e);
            },
        },
        NodeSpec::LoadBalanceAggregate(_) => {
            let ins = inputs_in_order(n);
            if ins.len() == 0 {
                return Err(DeriveError::UnsupportedSpec { node: n.node.name.clone() });
            }
            assert(t@.nodes[ni as int].ports[idxs(ins)[0]] == n.ports@[ins@[0] as int]@);
            match peer_last_exec(t, &n.ports[ins[0]].id) {
                None => {
                    return Err(DeriveError::UnsupportedSpec { node: n.node.name.clone() });
                },
                Some(q) => match derive_destination(t, q, visited, points_at) {
                    Ok(x) => {
                        assert(strs(*visited) == v2);
                        x
                    },
                    Err(e) => {
                        return Err(e);
                    },
                },
            }
        },
        _ => {
            return Err(DeriveError::UnsupportedSpec { node: n.node.name.clone() });
        },
    };
    assert(strs(*visited) == v2);
    let ghost before_pop = visited@;
    visited.pop();
    assert(visited@ == before_pop.drop_last());
    proof {
        assert(v2 == before_pop.map_values(|s: String| s@));
        assert(v2.len() == v0.len() + 1);
        assert forall|i: int| 0 <= i < v0.len() implies #[trigger] strs(*visited)[i] == v0[i] by {
            assert(visited@[i] == before_pop[i]);
            assert(v2[i] == before_pop[i]@);
            assert(v2[i] == v0.push(n.node.id@)[i]);
        }
        assert(strs(*visited).len() == v0.len());
    }
    assert(strs(*visited) =~= v0);
    Ok(result)
}

/// The members of the distributing group at node `ni`, walked with `visited` as the
/// walk so far (which already holds the group itself).
fn derive_members(
    t: &CanvasTopology,
    ni: usize,
    visited: &mut Vec<String>,
    points_at: &mut Vec<ListenerCap>,
) -> (r: Result<Vec<ForwardingTo>, DeriveError>)
    requires
        ni < t.nodes.len(),
        visited_ok(t@, strs(*old(visited))),
        old(visited).len() <= t.nodes.len(),
    ensures
        match members(t@, ni as int, spec_inputs_in_order(t@.nodes[ni as int]), 0, strs(*old(visited))) {
            Ok((ms, caps)) => r matches Ok(x) && crate::worker_config::members_view(x@) == ms && caps_view(
                final(points_at)@,
            ) == caps_view(old(points_at)@) + caps && strs(*final(visited)) == strs(*old(visited)),
            Err(e) => r matches Err(x) && x@ == e,
        },
    decreases t.nodes.len() - visited.len(), 1int,
{
    let n = &t.nodes[ni];
    let ins = inputs_in_order(n);
    let ghost insv = idxs(ins);
    let ghost v2 = strs(*visited);
    let ghost base = caps_view(points_at@);
    let mut ms: Vec<ForwardingTo> = Vec::new();
    let mut k: usize = 0;
    assert(crate::worker_config::members_view(ms@) =~= Seq::<ForwardingToView>::empty());
    while k < ins.len()
        invariant
            k <= ins.len(),
            ni < t.nodes.len(),
            n == &t.nodes[ni as int],
            insv == idxs(ins),
            insv == spec_inputs_in_order(n@),
            forall|z: int| 0 <= z < ins.len() ==> (#[trigger] ins@[z]) < n.ports.len(),
            strs(*visited) == v2,
            v2 == strs(*old(visited)),
            visited_ok(t@, v2),
            v2.len() <= t.nodes.len(),
            base == caps_view(old(points_at)@),
            caps_view(points_at@).len() >= base.len(),
            caps_view(points_at@).subrange(0, base.len() as int) == base,
            members(t@, ni as int, insv, 0, v2) == prepend(
                crate::worker_config::members_view(ms@),
                caps_view(points_at@).subrange(base.len() as int, caps_view(points_at@).len() as int),
                members(t@, ni as int, insv, k as int, v2),
            ),
        decreases ins.len() - k,
    {
        assert(insv.len() == ins.len());
        let ghost ms_before = crate::worker_config::members_view(ms@);
        let ghost pa_before = caps_view(points_at@);
        assert(t@.nodes[ni as int].ports[insv[k as int]] == n.ports@[ins@[k as int] as int]@);
        proof {
            lemma_members_step(t@, ni as int, insv, k as int, v2);
        }
        match peer_last_exec(t, &n.ports[ins[k]].id) {
            None => {
                assert(caps_view(points_at@) == pa_before);
            },
            Some(q) => {
                assert(peer_last(t@, t@.nodes[ni as int].ports[insv[k as int]].id) == Some(q as int));
                let ghost mk = members(t@, ni as int, insv, k as int, v2);
                proof {
                    lemma_members_step(t@, ni as int, insv, k as int, v2);
                }
                match derive_destination(t, q, visited, points_at) {
                    Ok(m) => {
                        proof {
                            crate::worker_config::lemma_members_view_push(ms@, m);
                            let caps = dest(t@, q as int, v2)->Ok_0.1;
                            let added0 = pa_before.subrange(base.len() as int, pa_before.len() as int);
                            let added1 = caps_view(points_at@).subrange(base.len() as int, caps_view(points_at@).len() as int);
                            assert(added1 =~= added0 + caps);
                            match members(t@, ni as int, insv, k + 1, v2) {
                                Ok((a, b)) => {
                                    assert(ms_before.push(m@) + a =~= ms_before + (seq![m@] + a));
                                    assert(added0 + caps + b =~= added0 + (caps + b));
                                },
                                Err(_) => {},
                            }
                        }
                        ms.push(m);
                        assert(caps_view(points_at@).subrange(0, base.len() as int) =~= base);
                    },
                    Err(e) => {
                        assert(dest(t@, q as int, v2) == Err::<(ForwardingToView, Seq<ListenerCapView>), DeriveErrorView>(e@));
                        assert(mk == Err::<(Seq<ForwardingToView>, Seq<ListenerCapView>), DeriveErrorView>(e@));
                        return Err(e);
                    },
                }
            },
        }
        k = k + 1;
    }
    proof {
        let added = caps_view(points_at@).subrange(base.len() as int, caps_view(points_at@).len() as int);
        assert(crate::worker_config::members_view(ms@) + Seq::<ForwardingToView>::empty() =~= crate::worker_config::members_view(ms@));
        assert(added + Seq::<ListenerCapView>::empty() =~= added);
        assert(caps_view(points_at@) =~= base + added);
    }
    Ok(ms)
}

proof fn lemma_members_step(t: TopologyView, ni: int, ins: Seq<int>, k: int, v: Seq<Seq<char>>)
    requires
        0 <= k < ins.len(),
    ensures
        members(t, ni, ins, k, v) == (match peer_last(t, t.nodes[ni].ports[ins[k]].id) {
            None => members(t, ni, ins, k + 1, v),
            Some(q) => match dest(t, q, v) {
                Err(e) => Err(e),
                Ok((m, caps)) => match members(t, ni, ins, k + 1, v) {
                    Err(e) => Err(e),
                    Ok((ms, cs)) => Ok((seq![m] + ms, caps + cs)),
                },
            },
        }),
{
    reveal_with_fuel(dest, 1);
}

// ---------------------------------------------------------------------------
// Messages.
// ---------------------------------------------------------------------------

/// The message of a derivation error.
pub open spec fn derive_message(e: DeriveErrorView) -> Seq<char> {
    match e {
        DeriveErrorView::TlsNotYetSupported { node } => "entry "@ + node
            + " uses TLS, which needs certificates from a later stage"@,
        DeriveErrorView::RelayProtocolNotYetSupported { node, protocol } => "relay "@ + node
            + " uses protocol "@ + protocol + ", which needs the internal CA from a later stage"@,
        DeriveErrorView::UnsupportedSpec { node } => "node "@ + node
            + ": canvas import/export is not supported yet"@,
        DeriveErrorView::MissingIpRecord { node, ip } => "pod "@ + node + " references missing ip record "@
            + ip,
        DeriveErrorView::InvalidIp { ip, value } => "ip record "@ + ip + " holds '"@ + value
            + "', which is not an IP address"@,
        DeriveErrorView::InvalidDestination { node, destination } => "exit "@ + node + " destination '"@
            + destination + "' is not host:port"@,
        DeriveErrorView::RelayWithoutPod { node } => "relay "@ + node + " listen input is not fed by a pod"@,
        DeriveErrorView::Cycle { node } => "cycle through node "@ + node,
        DeriveErrorView::UnknownServer { server } => "server "@ + server + " is not part of this canvas"@,
        DeriveErrorView::Invalid(c) => "derived config is invalid: "@ + crate::worker_config::config_message(c),
    }
}

impl DeriveError {
    /// What went wrong, in words.
    pub fn message(&self) -> (r: String)
        ensures
            r@ == derive_message(self@),
    {
        let mut m = String::new();
        match self {
            DeriveError::TlsNotYetSupported { node } => {
                push_str(&mut m, "entry ");
                push_str(&mut m, node.as_str());
                push_str(&mut m, " uses TLS, which needs certificates from a later stage");
            },
            DeriveError::RelayProtocolNotYetSupported { node, protocol } => {
                push_str(&mut m, "relay ");
                push_str(&mut m, node.as_str());
                push_str(&mut m, " uses protocol ");
                push_str(&mut m, protocol.as_str());
                push_str(&mut m, ", which needs the internal CA from a later stage");
            },
            DeriveError::UnsupportedSpec { node } => {
                push_str(&mut m, "node ");
                push_str(&mut m, node.as_str());
                push_str(&mut m, ": canvas import/export is not supported yet");
            },
            DeriveError::MissingIpRecord { node, ip } => {
                push_str(&mut m, "pod ");
                push_str(&mut m, node.as_str());
                push_str(&mut m, " references missing ip record ");
                push_str(&mut m, ip.as_str());
            },
            DeriveError::InvalidIp { ip, value } => {
                push_str(&mut m, "ip record ");
                push_str(&mut m, ip.as_str());
                push_str(&mut m, " holds '");
                push_str(&mut m, value.as_str());
                push_str(&mut m, "', which is not an IP address");
            },
            DeriveError::InvalidDestination { node, destination } => {
                push_str(&mut m, "exit ");
                push_str(&mut m, node.as_str());
                push_str(&mut m, " destination '");
                push_str(&mut m, destination.as_str());
                push_str(&mut m, "' is not host:port");
            },
            DeriveError::RelayWithoutPod { node } => {
                push_str(&mut m, "relay ");
                push_str(&mut m, node.as_str());
                push_str(&mut m, " listen input is not fed by a pod");
            },
            DeriveError::Cycle { node } => {
                push_str(&mut m, "cycle through node ");
                push_str(&mut m, node.as_str());
            },
            DeriveError::UnknownServer { server } => {
                push_str(&mut m, "server ");
                push_str(&mut m, server.as_str());
                push_str(&mut m, " is not part of this canvas");
            },
            DeriveError::Invalid(c) => {
                push_str(&mut m, "derived config is invalid: ");
                let cm = c.message();
                push_str(&mut m, cm.as_str());
            },
        }
        assert(m@ =~= derive_message(self@));
        m
    }
}

// ---------------------------------------------------------------------------
// One pod.
// ---------------------------------------------------------------------------

/// The socket a pod listens on, as it is reported: `ip:port`, with an IPv6 address in
/// brackets.
pub open spec fn listen_text(ip: Seq<char>, port: u16) -> Seq<char> {
    if ip.contains(':') {
        "["@ + ip + "]:"@ + decimal(port as nat)
    } else {
        ip + ":"@ + decimal(port as nat)
    }
}

/// How a pod listens, decided by the node that consumes its listen output: an entry
/// takes raw traffic (TLS is not offered yet), a raw TCP relay hands it over a relay
/// ingest.
pub open spec fn consumer_listen(c: NodeWithPortsView) -> Result<
    (ListenAsView, ListenProtocol, Option<crate::worker_config::TcpProxyProtocol>),
    DeriveErrorView,
> {
    match c.node.spec {
        NodeSpecView::Entry { receive_proxy_protocol, tls } => if tls is Some {
            Err(DeriveErrorView::TlsNotYetSupported { node: c.node.name })
        } else {
            Ok((ListenAsView::Raw, ListenProtocol::Raw, opt_pp(receive_proxy_protocol)))
        },
        NodeSpecView::Relay { protocol, .. } => if protocol == NodeRelayProtocol::TcpRaw {
            Ok((ListenAsView::Relay(RelayHostView::Tcp), ListenProtocol::RelayTcp, None))
        } else {
            Err(
                DeriveErrorView::RelayProtocolNotYetSupported {
                    node: c.node.name,
                    protocol: spec_relay_protocol_name(protocol),
                },
            )
        },
        _ => Err(DeriveErrorView::UnsupportedSpec { node: c.node.name }),
    }
}

/// The forwarding of pod `ni`, which listens on ip record `rec` and `port` and whose
/// listen and destination ports are `lj` and `dj`; or why it has none.
pub open spec fn pod_forwarding(
    t: TopologyView,
    ni: int,
    rec: crate::model::IpRecordView,
    port: u16,
    lj: int,
    dj: int,
) -> Result<(ForwardingView, DepsView), DeriveErrorView> {
    let n = t.nodes[ni];
    let name = n.node.name;
    match parse_ip(rec.ip) {
        None => Err(DeriveErrorView::InvalidIp { ip: rec.id, value: rec.ip }),
        Some(address) => match peer_last(t, n.ports[lj].id) {
            None => Err(DeriveErrorView::UnsupportedSpec { node: name }),
            Some(c) => match consumer_listen(t.nodes[c]) {
                Err(e) => Err(e),
                Ok((listen_as, protocol, rpp)) => match peer_last(t, n.ports[dj].id) {
                    None => Err(DeriveErrorView::UnsupportedSpec { node: name }),
                    Some(p) => match dest(t, p, Seq::empty()) {
                        Err(e) => Err(e),
                        Ok((to, caps)) => if has_empty_group(to) {
                            Err(DeriveErrorView::Invalid(ConfigErrorView::EmptyLoadBalance(name)))
                        } else {
                            Ok(
                                (
                                    ForwardingView {
                                        tag: name,
                                        listen: SocketAddr::spec_new(address, port),
                                        receive_proxy_protocol: rpp,
                                        listen_as,
                                        to,
                                    },
                                    DepsView {
                                        serves: ListenerCapView { ip: rec.ip, port: port as i64, protocol },
                                        points_at: caps,
                                    },
                                ),
                            )
                        },
                    },
                },
            },
        },
    }
}

/// What becomes of one pod on a server's config.
pub enum PodOutcome {
    /// Not this server's pod, or not wired up yet.
    Skip,
    Serve(ForwardingView, DepsView),
    Invalid(InvalidPodView),
}

/// What becomes of node `ni` when deriving the server `key`: pods of other servers
/// and pods with an unconnected port are skipped; a wired pod is served, or reported
/// with the reason it cannot be. (A pod on an unknown ip record fails the whole
/// derivation before this is asked.)
pub open spec fn pod_outcome(t: TopologyView, key: Seq<char>, ni: int) -> PodOutcome {
    let n = t.nodes[ni];
    match n.node.spec {
        NodeSpecView::Pod { ip, port } => match ip_at(t, ip) {
            None => PodOutcome::Skip,
            Some(r) => {
                let rec = t.ips[r];
                if rec.server != key {
                    PodOutcome::Skip
                } else {
                    match (port_by_key(n, "listen"@), port_by_key(n, "destination"@)) {
                        (Some(lj), Some(dj)) => if edge_last(t, n.ports[lj].id) is None || edge_last(
                            t,
                            n.ports[dj].id,
                        ) is None {
                            PodOutcome::Skip
                        } else {
                            match pod_forwarding(t, ni, rec, port, lj, dj) {
                                Ok((f, d)) => PodOutcome::Serve(f, d),
                                Err(e) => PodOutcome::Invalid(
                                    InvalidPodView {
                                        pod: n.node.name,
                                        listen: listen_text(rec.ip, port),
                                        error: derive_message(e),
                                    },
                                ),
                            }
                        },
                        _ => PodOutcome::Skip,
                    }
                }
            },
        },
        _ => PodOutcome::Skip,
    }
}

fn consumer_listen_exec(c: &NodeWithPorts) -> (r: Result<
    (ListenAs, ListenProtocol, Option<crate::worker_config::TcpProxyProtocol>),
    DeriveError,
>)
    ensures
        match consumer_listen(c@) {
            Ok((a, p, rpp)) => r matches Ok(x) && x.0@ == a && x.1 == p && x.2 == rpp,
            Err(e) => r matches Err(x) && x@ == e,
        },
{
    match &c.node.spec {
        NodeSpec::Entry(entry) => {
            if entry.tls.is_some() {
                return Err(DeriveError::TlsNotYetSupported { node: c.node.name.clone() });
            }
            let rpp = match entry.receive_proxy_protocol {
                Some(v) => Some(v.to_worker()),
                None => None,
            };
            Ok((ListenAs::Raw, ListenProtocol::Raw, rpp))
        },
        NodeSpec::Relay(relay) => {
            if relay.protocol == NodeRelayProtocol::TcpRaw {
                Ok((ListenAs::Relay(RelayHost::Tcp), ListenProtocol::RelayTcp, None))
            } else {
                Err(
                    DeriveError::RelayProtocolNotYetSupported {
                        node: c.node.name.clone(),
                        protocol: String::from_str(relay_protocol_name(relay.protocol)),
                    },
                )
            }
        },
        _ => Err(DeriveError::UnsupportedSpec { node: c.node.name.clone() }),
    }
}

#[verifier::rlimit(40)]
fn pod_forwarding_exec(t: &CanvasTopology, ni: usize, r: usize, port: u16, lj: usize, dj: usize) -> (res: Result<
    (Forwarding, ForwardingDeps),
    DeriveError,
>)
    requires
        ni < t.nodes.len(),
        r < t.ips.len(),
        lj < t.nodes[ni as int].ports.len(),
        dj < t.nodes[ni as int].ports.len(),
    ensures
        match pod_forwarding(t@, ni as int, t@.ips[r as int], port, lj as int, dj as int) {
            Ok((f, d)) => res matches Ok(x) && x.0@ == f && x.1@ == d,
            Err(e) => res matches Err(x) && x@ == e,
        },
{
    let n = &t.nodes[ni];
    let rec = &t.ips[r];
    assert(t@.ips[r as int] == rec@);
    assert(t@.nodes[ni as int].ports[lj as int] == n.ports@[lj as int]@);
    assert(t@.nodes[ni as int].ports[dj as int] == n.ports@[dj as int]@);
    let address = match parse_ip_exec(rec.ip.as_str()) {
        Some(a) => a,
        None => return Err(DeriveError::InvalidIp { ip: rec.id.clone(), value: rec.ip.clone() }),
    };
    let c = match peer_last_exec(t, &n.ports[lj].id) {
        Some(c) => c,
        None => return Err(DeriveError::UnsupportedSpec { node: n.node.name.clone() }),
    };
    let (listen_as, protocol, rpp) = match consumer_listen_exec(&t.nodes[c]) {
        Ok(x) => x,
        Err(e) => return Err(e),
    };
    let p = match peer_last_exec(t, &n.ports[dj].id) {
        Some(p) => p,
        None => return Err(DeriveError::UnsupportedSpec { node: n.node.name.clone() }),
    };
    let mut visited: Vec<String> = Vec::new();
    let mut points_at: Vec<ListenerCap> = Vec::new();
    assert(strs(visited) =~= Seq::<Seq<char>>::empty());
    assert(caps_view(points_at@) =~= Seq::<ListenerCapView>::empty());
    let to = match derive_destination(t, p, &mut visited, &mut points_at) {
        Ok(to) => to,
        Err(e) => return Err(e),
    };
    assert(caps_view(points_at@) =~= Seq::<ListenerCapView>::empty() + caps_view(points_at@));
    if to.has_empty_group() {
        return Err(DeriveError::Invalid(ConfigError::EmptyLoadBalance(n.node.name.clone())));
    }
    let f = Forwarding {
        tag: n.node.name.clone(),
        listen: SocketAddr::new(address, port),
        receive_proxy_protocol: rpp,
        listen_as,
        to,
    };
    let d = ForwardingDeps {
        serves: ListenerCap { ip: rec.ip.clone(), port: port as i64, protocol },
        points_at,
    };
    Ok((f, d))
}

fn listen_text_exec(ip: &String, port: u16) -> (r: String)
    ensures
        r@ == listen_text(ip@, port),
{
    let cs = crate::text::chars_of(ip.as_str());
    let mut colon = false;
    let mut i: usize = 0;
    while i < cs.len()
        invariant
            i <= cs.len(),
            cs@ == ip@,
            colon == exists|z: int| 0 <= z < i && cs@[z] == ':',
        decreases cs.len() - i,
    {
        if cs[i] == ':' {
            colon = true;
        }
        i = i + 1;
    }
    let mut s = String::new();
    if colon {
        push_str(&mut s, "[");
        push_str(&mut s, ip.as_str());
        push_str(&mut s, "]:");
    } else {
        push_str(&mut s, ip.as_str());
        push_str(&mut s, ":");
    }
    push_decimal(&mut s, port as u128);
    assert(s@ =~= listen_text(ip@, port));
    s
}

/// What becomes of one pod, as values.
enum PodResult {
    Skip,
    Serve(Forwarding, ForwardingDeps),
    Invalid(InvalidPod),
}

spec fn pod_result_matches(r: PodResult, o: PodOutcome) -> bool {
    match (r, o) {
        (PodResult::Skip, PodOutcome::Skip) => true,
        (PodResult::Serve(f, d), PodOutcome::Serve(fv, dv)) => f@ == fv && d@ == dv,
        (PodResult::Invalid(i), PodOutcome::Invalid(iv)) => i@ == iv,
        _ => false,
    }
}

fn pod_outcome_exec(t: &CanvasTopology, key: &String, ni: usize) -> (r: PodResult)
    requires
        ni < t.nodes.len(),
    ensures
        pod_result_matches(r, pod_outcome(t@, key@, ni as int)),
{
    let n = &t.nodes[ni];
    let cfg = match &n.node.spec {
        NodeSpec::Pod(cfg) => cfg,
        _ => return PodResult::Skip,
    };
    let r = match ip_at_exec(t, &cfg.ip) {
        Some(r) => r,
        None => return PodResult::Skip,
    };
    let rec = &t.ips[r];
    assert(t@.ips[r as int] == rec@);
    if !string_eq(&rec.server, key) {
        return PodResult::Skip;
    }
    let lj = match port_by_key_exec(n, "listen") {
        Some(j) => j,
        None => return PodResult::Skip,
    };
    let dj = match port_by_key_exec(n, "destination") {
        Some(j) => j,
        None => return PodResult::Skip,
    };
    assert(t@.nodes[ni as int].ports[lj as int] == n.ports@[lj as int]@);
    assert(t@.nodes[ni as int].ports[dj as int] == n.ports@[dj as int]@);
    if edge_last_exec(t, &n.ports[lj].id).is_none() || edge_last_exec(t, &n.ports[dj].id).is_none() {
        return PodResult::Skip;
    }
    match pod_forwarding_exec(t, ni, r, cfg.port, lj, dj) {
        Ok((f, d)) => PodResult::Serve(f, d),
        Err(e) => PodResult::Invalid(
            InvalidPod { pod: n.node.name.clone(), listen: listen_text_exec(&rec.ip, cfg.port), error: e.message() },
        ),
    }
}

// ---------------------------------------------------------------------------
// A server.
// ---------------------------------------------------------------------------

/// The pods among the first `i` nodes whose key is `k`, in node order.
pub open spec fn pods_with_key(t: TopologyView, k: Seq<char>, i: int) -> Seq<int>
    decreases i,
{
    if i <= 0 {
        Seq::empty()
    } else {
        let s = pods_with_key(t, k, i - 1);
        if t.nodes[i - 1].node.id == k && t.nodes[i - 1].node.spec is Pod {
            s.push(i - 1)
        } else {
            s
        }
    }
}

pub open spec fn pods_upto(t: TopologyView, keys: Seq<Seq<char>>, p: int) -> Seq<int>
    decreases p,
{
    if p <= 0 {
        Seq::empty()
    } else {
        pods_upto(t, keys, p - 1) + pods_with_key(t, keys[p - 1], t.nodes.len() as int)
    }
}

/// The pods ordered by record key; pods that share a key keep their order.
pub open spec fn pods_in_order(t: TopologyView) -> Seq<int> {
    pods_upto(t, sorted_keys(t), sorted_keys(t).len() as int)
}

/// The forwardings, their dependencies and the invalid pods of the first `k` pods of
/// `pods`, in order.
pub open spec fn collect(t: TopologyView, key: Seq<char>, pods: Seq<int>, k: int) -> (
    Seq<ForwardingView>,
    Seq<DepsView>,
    Seq<InvalidPodView>,
)
    decreases k,
{
    if k <= 0 {
        (Seq::empty(), Seq::empty(), Seq::empty())
    } else {
        let (f, d, i) = collect(t, key, pods, k - 1);
        match pod_outcome(t, key, pods[k - 1]) {
            PodOutcome::Skip => (f, d, i),
            PodOutcome::Serve(a, b) => (f.push(a), d.push(b), i),
            PodOutcome::Invalid(x) => (f, d, i.push(x)),
        }
    }
}

/// A server's ideal config: what the canvas says it should serve, ignoring what the
/// rest of the fabric runs; and the pods that could not be derived.
#[derive(Debug)]
pub struct DerivedConfig {
    pub config: Config,
    /// Index-aligned with `config.forwardings`.
    pub forwardings: Vec<ForwardingDeps>,
    pub invalid: Vec<InvalidPod>,
}

pub struct DerivedView {
    pub config: ConfigView,
    pub forwardings: Seq<DepsView>,
    pub invalid: Seq<InvalidPodView>,
}

pub open spec fn deps_view(v: Seq<ForwardingDeps>) -> Seq<DepsView> {
    v.map_values(|d: ForwardingDeps| d@)
}

pub open spec fn invalid_view(v: Seq<InvalidPod>) -> Seq<InvalidPodView> {
    v.map_values(|i: InvalidPod| i@)
}

impl View for DerivedConfig {
    type V = DerivedView;

    open spec fn view(&self) -> DerivedView {
        DerivedView {
            config: self.config@,
            forwardings: deps_view(self.forwardings@),
            invalid: invalid_view(self.invalid@),
        }
    }
}

/// The derivation of server `key` from `t`.
/// Pod `ni` names an ip record the canvas does not hold.
pub open spec fn ip_missing(t: TopologyView, ni: int) -> bool {
    t.nodes[ni].node.spec matches NodeSpecView::Pod { ip, .. } && ip_at(t, ip) is None
}

/// The error for the first pod of `pods` whose ip record is missing, if any.
pub open spec fn missing_ip_error(t: TopologyView, pods: Seq<int>) -> Option<DeriveErrorView> {
    match first_where(pods, |ni: int| ip_missing(t, ni)) {
        Some(k) => match t.nodes[pods[k]].node.spec {
            NodeSpecView::Pod { ip, .. } => Some(
                DeriveErrorView::MissingIpRecord { node: t.nodes[pods[k]].node.name, ip },
            ),
            _ => None,
        },
        None => None,
    }
}

pub open spec fn derivation(t: TopologyView, key: Seq<char>) -> Result<DerivedView, DeriveErrorView> {
    match first_where(t.servers, |s: crate::model::ServerView| s.id == key) {
        None => Err(DeriveErrorView::UnknownServer { server: key }),
        Some(si) => match missing_ip_error(t, pods_in_order(t)) {
            Some(e) => Err(e),
            None => derivation_of(t, key, si),
        },
    }
}

/// The derivation of server `key`, whose row is `t.servers[si]`, once every pod's ip
/// record is known.
pub open spec fn derivation_of(t: TopologyView, key: Seq<char>, si: int) -> Result<DerivedView, DeriveErrorView> {
        {
            let row = t.servers[si];
            let pods = pods_in_order(t);
            let (fs, ds, inv) = collect(t, key, pods, pods.len() as int);
            let config = ConfigView {
                ipv6_resolve: row.ipv6_resolve.spec_to_worker(),
                log_level: row.log_level,
                forwardings: fs,
            };
            match config.validation() {
                Some(e) => Err(DeriveErrorView::Invalid(e)),
                None => Ok(DerivedView { config, forwardings: ds, invalid: inv }),
            }
        }
}

fn find_server(t: &CanvasTopology, key: &String) -> (r: Option<usize>)
    ensures
        opt_idx(r) == first_where(t@.servers, |s: crate::model::ServerView| s.id == key@),
        r matches Some(i) ==> i < t.servers.len(),
{
    let ghost p = |s: crate::model::ServerView| s.id == key@;
    let mut i: usize = 0;
    while i < t.servers.len()
        invariant
            i <= t.servers.len(),
            p == (|s: crate::model::ServerView| s.id == key@),
            forall|z: int| 0 <= z < i ==> !p(#[trigger] t@.servers[z]),
        decreases t.servers.len() - i,
    {
        assert(t@.servers[i as int] == t.servers@[i as int]@);
        if string_eq(&t.servers[i].id, key) {
            proof {
                crate::seqs::lemma_first_where(t@.servers, p, i as int);
            }
            return Some(i);
        }
        i = i + 1;
    }
    proof {
        crate::seqs::lemma_first_where(t@.servers, p, i as int);
    }
    None
}

/// The pods in record-key order.
fn pods_in_order_exec(t: &CanvasTopology) -> (r: Vec<usize>)
    ensures
        idxs(r) == pods_in_order(t@),
        forall|z: int| 0 <= z < r.len() ==> (#[trigger] r@[z]) < t.nodes.len(),
{
    let order = sorted_nodes(t);
    let ghost sk = sorted_keys(t@);
    let mut out: Vec<usize> = Vec::new();
    let mut p: usize = 0;
    while p < order.len()
        invariant
            p <= order.len(),
            order.len() == sk.len(),
            sk == sorted_keys(t@),
            forall|m: int| 0 <= m < order.len() ==> #[trigger] order@[m] < t.nodes.len(),
            forall|m: int| 0 <= m < order.len() ==> t@.nodes[#[trigger] order@[m] as int].node.id == sk[m],
            idxs(out) == pods_upto(t@, sk, p as int),
            forall|z: int| 0 <= z < out.len() ==> (#[trigger] out@[z]) < t.nodes.len(),
        decreases order.len() - p,
    {
        let key = &t.nodes[order[p]].node.id;
        assert(key@ == sk[p as int]);
        let ghost before = idxs(out);
        let mut i: usize = 0;
        while i < t.nodes.len()
            invariant
                i <= t.nodes.len(),
                p < sk.len(),
                key@ == sk[p as int],
                idxs(out) == before + pods_with_key(t@, sk[p as int], i as int),
                forall|z: int| 0 <= z < out.len() ==> (#[trigger] out@[z]) < t.nodes.len(),
            decreases t.nodes.len() - i,
        {
            assert(t@.nodes[i as int] == t.nodes@[i as int]@);
            let is_pod = match &t.nodes[i].node.spec {
                NodeSpec::Pod(_) => true,
                _ => false,
            };
            if is_pod && string_eq(&t.nodes[i].node.id, key) {
                let ghost o = idxs(out);
                out.push(i);
                assert(idxs(out) =~= o.push(i as int));
            }
            i = i + 1;
        }
        p = p + 1;
    }
    out
}

/// Derives server `server`'s ideal config from the canvas topology `t`. Each pod of
/// the server, in record-key order, is served or reported; the server fails only
/// when it is not on the canvas or when the served forwardings do not validate
/// together.
pub fn derive_server_config(t: &CanvasTopology, server: &String) -> (r: Result<DerivedConfig, DeriveError>)
    ensures
        match derivation(t@, server@) {
            Ok(d) => r matches Ok(x) && x@ == d,
            Err(e) => r matches Err(x) && x@ == e,
        },
{
    let si = match find_server(t, server) {
        Some(si) => si,
        None => return Err(DeriveError::UnknownServer { server: server.clone() }),
    };
    let row = &t.servers[si];
    assert(t@.servers[si as int] == row@);
    let pods = pods_in_order_exec(t);
    let ghost pv = idxs(pods);
    let ghost pm = |ni: int| ip_missing(t@, ni);
    let mut q: usize = 0;
    while q < pods.len()
        invariant
            q <= pods.len(),
            pv == idxs(pods),
            pv == pods_in_order(t@),
            pm == (|ni: int| ip_missing(t@, ni)),
            si < t.servers.len(),
            first_where(t@.servers, |s: crate::model::ServerView| s.id == server@) == Some(si as int),
            forall|z: int| 0 <= z < pods.len() ==> (#[trigger] pods@[z]) < t.nodes.len(),
            forall|z: int| 0 <= z < q ==> !pm(#[trigger] pv[z]),
        decreases pods.len() - q,
    {
        let n = &t.nodes[pods[q]];
        assert(t@.nodes[pv[q as int]] == n@);
        if let NodeSpec::Pod(cfg) = &n.node.spec {
            if ip_at_exec(t, &cfg.ip).is_none() {
                proof {
                    assert(ip_missing(t@, pv[q as int]));
                    crate::seqs::lemma_first_where(pv, pm, q as int);
                    assert(pv == pods_in_order(t@));
                    assert(missing_ip_error(t@, pv) == Some(
                        DeriveErrorView::MissingIpRecord { node: n.node.name@, ip: cfg.ip@ },
                    ));
                }
                let node = n.node.name.clone();
                let ip = cfg.ip.clone();
                assert(first_where(t@.servers, |s: crate::model::ServerView| s.id == server@) == Some(si as int));
                assert(missing_ip_error(t@, pods_in_order(t@)) == Some(
                    DeriveErrorView::MissingIpRecord { node: node@, ip: ip@ },
                ));
                assert(derivation(t@, server@) == Err::<DerivedView, DeriveErrorView>(
                    DeriveErrorView::MissingIpRecord { node: node@, ip: ip@ },
                ));
                return Err(DeriveError::MissingIpRecord { node, ip });
            }
        }
        q = q + 1;
    }
    proof {
        crate::seqs::lemma_first_where(pv, pm, pods.len() as int);
    }
    let mut forwardings: Vec<Forwarding> = Vec::new();
    let mut deps: Vec<ForwardingDeps> = Vec::new();
    let mut invalid: Vec<InvalidPod> = Vec::new();
    let mut k: usize = 0;
    while k < pods.len()
        invariant
            k <= pods.len(),
            pv == idxs(pods),
            pv == pods_in_order(t@),
            forall|z: int| 0 <= z < pods.len() ==> (#[trigger] pods@[z]) < t.nodes.len(),
            collect(t@, server@, pv, k as int) == (
                forwardings@.map_values(|f: Forwarding| f@),
                deps_view(deps@),
                invalid_view(invalid@),
            ),
        decreases pods.len() - k,
    {
        let ghost fv = forwardings@.map_values(|f: Forwarding| f@);
        let ghost dv = deps_view(deps@);
        let ghost iv = invalid_view(invalid@);
        match pod_outcome_exec(t, server, pods[k]) {
            PodResult::Skip => {},
            PodResult::Serve(f, d) => {
                forwardings.push(f);
                deps.push(d);
                assert(forwardings@.map_values(|f: Forwarding| f@) =~= fv.push(f@));
                assert(deps_view(deps@) =~= dv.push(d@));
            },
            PodResult::Invalid(x) => {
                invalid.push(x);
                assert(invalid_view(invalid@) =~= iv.push(x@));
            },
        }
        k = k + 1;
    }
    let config = Config {
        ipv6_resolve: row.ipv6_resolve.to_worker(),
        log: LogConfig { level: row.log_level.clone() },
        forwardings,
    };
    match config.validate() {
        Ok(()) => Ok(DerivedConfig { config, forwardings: deps, invalid }),
        Err(e) => Err(DeriveError::Invalid(e)),
    }
}

// ---------------------------------------------------------------------------
// What a derivation guarantees.
// ---------------------------------------------------------------------------

proof fn lemma_collect_aligned(t: TopologyView, key: Seq<char>, pods: Seq<int>, k: int)
    ensures
        collect(t, key, pods, k).0.len() == collect(t, key, pods, k).1.len(),
    decreases k,
{
    if k > 0 {
        lemma_collect_aligned(t, key, pods, k - 1);
    }
}

proof fn lemma_collect_keeps(t: TopologyView, key: Seq<char>, pods: Seq<int>, k: int, m: int)
    requires
        0 <= m < k,
    ensures
        pod_outcome(t, key, pods[m]) matches PodOutcome::Serve(f, d) ==> collect(t, key, pods, k).0.contains(f)
            && collect(t, key, pods, k).1.contains(d),
        pod_outcome(t, key, pods[m]) matches PodOutcome::Invalid(x) ==> collect(t, key, pods, k).2.contains(x),
    decreases k,
{
    let (f0, d0, i0) = collect(t, key, pods, k - 1);
    if m < k - 1 {
        lemma_collect_keeps(t, key, pods, k - 1, m);
        match pod_outcome(t, key, pods[m]) {
            PodOutcome::Serve(f, d) => {
                let a = choose|a: int| 0 <= a < f0.len() && f0[a] == f;
                let b = choose|b: int| 0 <= b < d0.len() && d0[b] == d;
                assert(collect(t, key, pods, k).0[a] == f);
                assert(collect(t, key, pods, k).1[b] == d);
            },
            PodOutcome::Invalid(x) => {
                let a = choose|a: int| 0 <= a < i0.len() && i0[a] == x;
                assert(collect(t, key, pods, k).2[a] == x);
            },
            PodOutcome::Skip => {},
        }
    } else {
        match pod_outcome(t, key, pods[m]) {
            PodOutcome::Serve(f, d) => {
                assert(collect(t, key, pods, k).0[f0.len() as int] == f);
                assert(collect(t, key, pods, k).1[d0.len() as int] == d);
            },
            PodOutcome::Invalid(x) => {
                assert(collect(t, key, pods, k).2[i0.len() as int] == x);
            },
            PodOutcome::Skip => {},
        }
    }
}

proof fn lemma_no_error_from(fs: Seq<ForwardingView>, i: int)
    requires
        crate::worker_config::first_config_error(fs, 0) is None,
        0 <= i <= fs.len(),
    ensures
        crate::worker_config::first_config_error(fs, i) is None,
    decreases i,
{
    if i > 0 {
        lemma_no_error_from(fs, i - 1);
    }
}

/// A derivation is a function of the topology and the server alone: deriving again
/// from an equal snapshot gives the same config.
pub proof fn derivation_is_deterministic(t1: TopologyView, t2: TopologyView, server: Seq<char>)
    requires
        t1 == t2,
    ensures
        derivation(t1, server) == derivation(t2, server),
{
}

/// A derived config lists one set of dependencies per forwarding, in the same order.
pub proof fn derived_dependencies_are_aligned(t: TopologyView, server: Seq<char>)
    ensures
        derivation(t, server) matches Ok(d) ==> d.forwardings.len() == d.config.forwardings.len(),
{
    let pods = pods_in_order(t);
    lemma_collect_aligned(t, server, pods, pods.len() as int);
}

/// Pods are derived one by one: whenever the server derives, every pod that can be
/// served is served and every pod that cannot is reported, whatever the other pods
/// look like.
pub proof fn pods_are_derived_in_isolation(t: TopologyView, server: Seq<char>, m: int)
    requires
        0 <= m < pods_in_order(t).len(),
    ensures
        derivation(t, server) matches Ok(d) ==> {
            &&& pod_outcome(t, server, pods_in_order(t)[m]) matches PodOutcome::Serve(f, deps) ==> d.config.forwardings.contains(f)
                && d.forwardings.contains(deps)
            &&& pod_outcome(t, server, pods_in_order(t)[m]) matches PodOutcome::Invalid(x) ==> d.invalid.contains(x)
        },
{
    let pods = pods_in_order(t);
    lemma_collect_keeps(t, server, pods, pods.len() as int, m);
}

/// In a derived config no two forwardings share a listener, and no load-balance
/// group is empty.
pub proof fn derived_configs_are_valid(t: TopologyView, server: Seq<char>)
    ensures
        derivation(t, server) matches Ok(d) ==> {
            &&& forall|i: int, j: int|
                0 <= i < j < d.config.forwardings.len() ==> (#[trigger] d.config.forwardings[i]).listen_key()
                    != (#[trigger] d.config.forwardings[j]).listen_key()
            &&& forall|i: int|
                0 <= i < d.config.forwardings.len() ==> !has_empty_group((#[trigger] d.config.forwardings[i]).to)
        },
{
    if let Ok(d) = derivation(t, server) {
        let fs = d.config.forwardings;
        assert forall|i: int| 0 <= i < fs.len() implies crate::worker_config::forwarding_error(fs, i) is None by {
            lemma_no_error_from(fs, i);
        }
        assert forall|i: int, j: int| 0 <= i < j < fs.len() implies (#[trigger] fs[i]).listen_key()
            != (#[trigger] fs[j]).listen_key() by {
            assert(crate::worker_config::forwarding_error(fs, j) is None);
        }
        assert forall|i: int| 0 <= i < fs.len() implies !has_empty_group((#[trigger] fs[i]).to) by {
            assert(crate::worker_config::forwarding_error(fs, i) is None);
        }
    }
}

} // verus!
