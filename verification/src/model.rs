//! The canvas model: servers, their ip records, nodes with their ports, and the edges
//! between ports. Records are identified by their record keys.

use crate::worker_config::{Ipv6Resolve, LoadBalanceStrategy, TcpProxyProtocol};
use vstd::prelude::*;

verus! {

pub open spec fn opt_str(o: Option<String>) -> Option<Seq<char>> {
    match o {
        Some(s) => Some(s@),
        None => None,
    }
}

pub fn dup_opt_string(o: &Option<String>) -> (r: Option<String>)
    ensures
        opt_str(r) == opt_str(*o),
{
    match o {
        Some(s) => Some(s.clone()),
        None => None,
    }
}

#[derive(Debug, Clone, Copy, PartialEq, Eq, Structural)]
pub struct CanvasUiPosition {
    pub x: i64,
    pub y: i64,
}

#[derive(Debug, Clone, Copy, PartialEq, Eq, Structural)]
pub enum PortKind {
    DeriveListen,
    DeriveDestination,
}

#[derive(Debug, Clone, Copy, PartialEq, Eq, Structural)]
pub enum PortDirection {
    Input,
    Output,
}

#[derive(Debug)]
pub struct PortEntity {
    pub id: String,
    pub owner: String,
    pub kind: PortKind,
    pub direction: PortDirection,
    pub key: String,
    pub position: i64,
}

pub struct PortView {
    pub id: Seq<char>,
    pub owner: Seq<char>,
    pub kind: PortKind,
    pub direction: PortDirection,
    pub key: Seq<char>,
    pub position: i64,
}

impl View for PortEntity {
    type V = PortView;

    open spec fn view(&self) -> PortView {
        PortView {
            id: self.id@,
            owner: self.owner@,
            kind: self.kind,
            direction: self.direction,
            key: self.key@,
            position: self.position,
        }
    }
}

impl PortEntity {
    pub fn duplicate(&self) -> (r: PortEntity)
        ensures
            r@ == self@,
    {
        PortEntity {
            id: self.id.clone(),
            owner: self.owner.clone(),
            kind: self.kind,
            direction: self.direction,
            key: self.key.clone(),
            position: self.position,
        }
    }
}

#[derive(Debug, Clone, Copy, PartialEq, Eq, Structural)]
pub enum ProxyProtocolVersion {
    V1,
    V2,
}

impl ProxyProtocolVersion {
    pub open spec fn spec_to_worker(self) -> TcpProxyProtocol {
        match self {
            ProxyProtocolVersion::V1 => TcpProxyProtocol::V1,
            ProxyProtocolVersion::V2 => TcpProxyProtocol::V2,
        }
    }

    /// The worker config's name for this PROXY protocol version.
    #[verifier::when_used_as_spec(spec_to_worker)]
    pub fn to_worker(self) -> (r: TcpProxyProtocol)
        ensures
            r == self.spec_to_worker(),
    {
        match self {
            ProxyProtocolVersion::V1 => TcpProxyProtocol::V1,
            ProxyProtocolVersion::V2 => TcpProxyProtocol::V2,
        }
    }
}

/// A certificate the master acquires and hands to the workers.
#[derive(Debug)]
pub struct TlsConfig {
    /// The certificate's server name.
    pub sni: String,
    /// The record key of the DNS provider that proves the domain.
    pub dns_provider: String,
    /// The provider's identifier of the domain.
    pub domain_id: String,
    /// The ACME directory URL.
    pub acme_directory: String,
}

pub struct TlsConfigView {
    pub sni: Seq<char>,
    pub dns_provider: Seq<char>,
    pub domain_id: Seq<char>,
    pub acme_directory: Seq<char>,
}

impl View for TlsConfig {
    type V = TlsConfigView;

    open spec fn view(&self) -> TlsConfigView {
        TlsConfigView {
            sni: self.sni@,
            dns_provider: self.dns_provider@,
            domain_id: self.domain_id@,
            acme_directory: self.acme_directory@,
        }
    }
}

#[derive(Debug)]
pub struct PodConfig {
    /// The ip record this pod listens on; it pins the pod to one server.
    pub ip: String,
    pub port: u16,
}

#[derive(Debug)]
pub struct EntryConfig {
    pub receive_proxy_protocol: Option<ProxyProtocolVersion>,
    pub tls: Option<TlsConfig>,
}

#[derive(Debug, Clone, Copy, PartialEq, Eq, Structural)]
pub enum RelayProtocol {
    TcpRaw,
    TcpTls,
    Quic,
}

#[derive(Debug)]
pub struct RelayConfig {
    pub protocol: RelayProtocol,
    pub override_ip_address: Option<String>,
    pub override_port: Option<u16>,
}

#[derive(Debug)]
pub struct ExitConfig {
    pub destination: String,
    pub pass_proxy_protocol: Option<ProxyProtocolVersion>,
}

#[derive(Debug, Clone, Copy, PartialEq, Eq, Structural)]
pub enum LoadBalanceMode {
    RoundRobin,
    Random,
    IpHash,
    Fallback,
}

impl LoadBalanceMode {
    pub open spec fn spec_to_worker(self) -> LoadBalanceStrategy {
        match self {
            LoadBalanceMode::RoundRobin => LoadBalanceStrategy::RoundRobin,
            LoadBalanceMode::Random => LoadBalanceStrategy::Random,
            LoadBalanceMode::IpHash => LoadBalanceStrategy::IpHash,
            LoadBalanceMode::Fallback => LoadBalanceStrategy::Fallback,
        }
    }

    /// The worker config's strategy for this mode.
    #[verifier::when_used_as_spec(spec_to_worker)]
    pub fn to_worker(self) -> (r: LoadBalanceStrategy)
        ensures
            r == self.spec_to_worker(),
    {
        match self {
            LoadBalanceMode::RoundRobin => LoadBalanceStrategy::RoundRobin,
            LoadBalanceMode::Random => LoadBalanceStrategy::Random,
            LoadBalanceMode::IpHash => LoadBalanceStrategy::IpHash,
            LoadBalanceMode::Fallback => LoadBalanceStrategy::Fallback,
        }
    }
}

#[derive(Debug, Clone, Copy, PartialEq, Eq, Structural)]
pub struct LoadBalanceDistributeConfig {
    pub mode: LoadBalanceMode,
}

#[derive(Debug, Clone, Copy, PartialEq, Eq, Structural)]
pub struct LoadBalanceAggregateConfig {}

#[derive(Debug, Clone, Copy, PartialEq, Eq, Structural)]
pub enum CanvasExportAs {
    InputIntoCanvas,
    OutputOutOfCanvas,
}

#[derive(Debug, Clone, Copy, PartialEq, Eq, Structural)]
pub struct CanvasExportConfig {
    pub kind: PortKind,
    pub direction: CanvasExportAs,
}

#[derive(Debug, Clone, Copy, PartialEq, Eq, Structural)]
pub struct CanvasImportConfig {}

#[derive(Debug)]
pub enum NodeSpec {
    CanvasExport(CanvasExportConfig),
    CanvasImport(CanvasImportConfig),
    Pod(PodConfig),
    Entry(EntryConfig),
    Relay(RelayConfig),
    Exit(ExitConfig),
    LoadBalanceDistribute(LoadBalanceDistributeConfig),
    LoadBalanceAggregate(LoadBalanceAggregateConfig),
}

pub enum NodeSpecView {
    CanvasExport(CanvasExportConfig),
    CanvasImport,
    Pod { ip: Seq<char>, port: u16 },
    Entry { receive_proxy_protocol: Option<ProxyProtocolVersion>, tls: Option<TlsConfigView> },
    Relay {
        protocol: RelayProtocol,
        override_ip_address: Option<Seq<char>>,
        override_port: Option<u16>,
    },
    Exit { destination: Seq<char>, pass_proxy_protocol: Option<ProxyProtocolVersion> },
    LoadBalanceDistribute { mode: LoadBalanceMode },
    LoadBalanceAggregate,
}

impl View for NodeSpec {
    type V = NodeSpecView;

    open spec fn view(&self) -> NodeSpecView {
        match self {
            NodeSpec::CanvasExport(c) => NodeSpecView::CanvasExport(*c),
            NodeSpec::CanvasImport(_) => NodeSpecView::CanvasImport,
            NodeSpec::Pod(c) => NodeSpecView::Pod { ip: c.ip@, port: c.port },
            NodeSpec::Entry(c) => NodeSpecView::Entry {
                receive_proxy_protocol: c.receive_proxy_protocol,
                tls: match c.tls {
                    Some(t) => Some(t@),
                    None => None,
                },
            },
            NodeSpec::Relay(c) => NodeSpecView::Relay {
                protocol: c.protocol,
                override_ip_address: opt_str(c.override_ip_address),
                override_port: c.override_port,
            },
            NodeSpec::Exit(c) => NodeSpecView::Exit {
                destination: c.destination@,
                pass_proxy_protocol: c.pass_proxy_protocol,
            },
            NodeSpec::LoadBalanceDistribute(c) => NodeSpecView::LoadBalanceDistribute {
                mode: c.mode,
            },
            NodeSpec::LoadBalanceAggregate(_) => NodeSpecView::LoadBalanceAggregate,
        }
    }
}

impl NodeSpec {
    pub fn duplicate(&self) -> (r: NodeSpec)
        ensures
            r@ == self@,
    {
        match self {
            NodeSpec::CanvasExport(c) => NodeSpec::CanvasExport(*c),
            NodeSpec::CanvasImport(c) => NodeSpec::CanvasImport(*c),
            NodeSpec::Pod(c) => NodeSpec::Pod(PodConfig { ip: c.ip.clone(), port: c.port }),
            NodeSpec::Entry(c) => NodeSpec::Entry(
                EntryConfig {
                    receive_proxy_protocol: c.receive_proxy_protocol,
                    tls: match &c.tls {
                        Some(t) => Some(
                            TlsConfig {
                                sni: t.sni.clone(),
                                dns_provider: t.dns_provider.clone(),
                                domain_id: t.domain_id.clone(),
                                acme_directory: t.acme_directory.clone(),
                            },
                        ),
                        None => None,
                    },
                },
            ),
            NodeSpec::Relay(c) => NodeSpec::Relay(
                RelayConfig {
                    protocol: c.protocol,
                    override_ip_address: dup_opt_string(&c.override_ip_address),
                    override_port: c.override_port,
                },
            ),
            NodeSpec::Exit(c) => NodeSpec::Exit(
                ExitConfig {
                    destination: c.destination.clone(),
                    pass_proxy_protocol: c.pass_proxy_protocol,
                },
            ),
            NodeSpec::LoadBalanceDistribute(c) => NodeSpec::LoadBalanceDistribute(*c),
            NodeSpec::LoadBalanceAggregate(c) => NodeSpec::LoadBalanceAggregate(*c),
        }
    }

    /// Whether two specs are of the same kind.
    pub fn same_kind(&self, other: &NodeSpec) -> (r: bool)
        ensures
            r == same_spec_kind(self@, other@),
    {
        match (self, other) {
            (NodeSpec::CanvasExport(_), NodeSpec::CanvasExport(_)) => true,
            (NodeSpec::CanvasImport(_), NodeSpec::CanvasImport(_)) => true,
            (NodeSpec::Pod(_), NodeSpec::Pod(_)) => true,
            (NodeSpec::Entry(_), NodeSpec::Entry(_)) => true,
            (NodeSpec::Relay(_), NodeSpec::Relay(_)) => true,
            (NodeSpec::Exit(_), NodeSpec::Exit(_)) => true,
            (NodeSpec::LoadBalanceDistribute(_), NodeSpec::LoadBalanceDistribute(_)) => true,
            (NodeSpec::LoadBalanceAggregate(_), NodeSpec::LoadBalanceAggregate(_)) => true,
            _ => false,
        }
    }
}

pub open spec fn same_spec_kind(a: NodeSpecView, b: NodeSpecView) -> bool {
    match (a, b) {
        (NodeSpecView::CanvasExport(_), NodeSpecView::CanvasExport(_)) => true,
        (NodeSpecView::CanvasImport, NodeSpecView::CanvasImport) => true,
        (NodeSpecView::Pod { .. }, NodeSpecView::Pod { .. }) => true,
        (NodeSpecView::Entry { .. }, NodeSpecView::Entry { .. }) => true,
        (NodeSpecView::Relay { .. }, NodeSpecView::Relay { .. }) => true,
        (NodeSpecView::Exit { .. }, NodeSpecView::Exit { .. }) => true,
        (NodeSpecView::LoadBalanceDistribute { .. }, NodeSpecView::LoadBalanceDistribute { .. }) => true,
        (NodeSpecView::LoadBalanceAggregate, NodeSpecView::LoadBalanceAggregate) => true,
        _ => false,
    }
}

#[derive(Debug)]
pub struct NodeEntity {
    pub id: String,
    pub canvas: String,
    pub name: String,
    pub comment: String,
    pub spec: NodeSpec,
    pub position: CanvasUiPosition,
}

pub struct NodeView {
    pub id: Seq<char>,
    pub canvas: Seq<char>,
    pub name: Seq<char>,
    pub comment: Seq<char>,
    pub spec: NodeSpecView,
    pub position: CanvasUiPosition,
}

impl View for NodeEntity {
    type V = NodeView;

    open spec fn view(&self) -> NodeView {
        NodeView {
            id: self.id@,
            canvas: self.canvas@,
            name: self.name@,
            comment: self.comment@,
            spec: self.spec@,
            position: self.position,
        }
    }
}

impl NodeEntity {
    pub fn duplicate(&self) -> (r: NodeEntity)
        ensures
            r@ == self@,
    {
        NodeEntity {
            id: self.id.clone(),
            canvas: self.canvas.clone(),
            name: self.name.clone(),
            comment: self.comment.clone(),
            spec: self.spec.duplicate(),
            position: self.position,
        }
    }
}

#[derive(Debug)]
pub struct NodeWithPorts {
    pub node: NodeEntity,
    pub ports: Vec<PortEntity>,
}

pub struct NodeWithPortsView {
    pub node: NodeView,
    pub ports: Seq<PortView>,
}

impl View for NodeWithPorts {
    type V = NodeWithPortsView;

    open spec fn view(&self) -> NodeWithPortsView {
        NodeWithPortsView { node: self.node@, ports: self.ports@.map_values(|p: PortEntity| p@) }
    }
}

/// Copies of the ports in `ps`.
pub fn duplicate_ports(ps: &Vec<PortEntity>) -> (r: Vec<PortEntity>)
    ensures
        r@.map_values(|p: PortEntity| p@) == ps@.map_values(|p: PortEntity| p@),
{
    let mut out: Vec<PortEntity> = Vec::new();
    let mut i: usize = 0;
    while i < ps.len()
        invariant
            i <= ps.len(),
            out@.map_values(|p: PortEntity| p@) == ps@.subrange(0, i as int).map_values(
                |p: PortEntity| p@,
            ),
        decreases ps.len() - i,
    {
        let d = ps[i].duplicate();
        let ghost o = out@;
        out.push(d);
        assert(out@.map_values(|p: PortEntity| p@) =~= o.map_values(|p: PortEntity| p@).push(d@));
        assert(ps@.subrange(0, i + 1).map_values(|p: PortEntity| p@) =~= ps@.subrange(0, i as int).map_values(|p: PortEntity| p@).push(ps@[i as int]@));
        i = i + 1;
    }
    assert(ps@.subrange(0, ps.len() as int) =~= ps@);
    out
}

impl NodeWithPorts {
    pub fn duplicate(&self) -> (r: NodeWithPorts)
        ensures
            r@ == self@,
    {
        NodeWithPorts { node: self.node.duplicate(), ports: duplicate_ports(&self.ports) }
    }
}

/// A port to create together with its node.
#[derive(Debug)]
pub struct NewPort {
    pub kind: PortKind,
    pub direction: PortDirection,
    pub key: String,
    pub position: i64,
}

pub struct NewPortView {
    pub kind: PortKind,
    pub direction: PortDirection,
    pub key: Seq<char>,
    pub position: i64,
}

impl View for NewPort {
    type V = NewPortView;

    open spec fn view(&self) -> NewPortView {
        NewPortView {
            kind: self.kind,
            direction: self.direction,
            key: self.key@,
            position: self.position,
        }
    }
}

/// Per-server policy mirror of the worker's [`Ipv6Resolve`].
#[derive(Debug, Clone, Copy, PartialEq, Eq, Structural)]
pub enum ServerIpv6Resolve {
    Required,
    Preferred,
    Tolerated,
    Forbidden,
}

impl ServerIpv6Resolve {
    pub open spec fn spec_to_worker(self) -> Ipv6Resolve {
        match self {
            ServerIpv6Resolve::Required => Ipv6Resolve::Required,
            ServerIpv6Resolve::Preferred => Ipv6Resolve::Preferred,
            ServerIpv6Resolve::Tolerated => Ipv6Resolve::Tolerated,
            ServerIpv6Resolve::Forbidden => Ipv6Resolve::Forbidden,
        }
    }

    /// The worker config's policy for this setting.
    #[verifier::when_used_as_spec(spec_to_worker)]
    pub fn to_worker(self) -> (r: Ipv6Resolve)
        ensures
            r == self.spec_to_worker(),
    {
        match self {
            ServerIpv6Resolve::Required => Ipv6Resolve::Required,
            ServerIpv6Resolve::Preferred => Ipv6Resolve::Preferred,
            ServerIpv6Resolve::Tolerated => Ipv6Resolve::Tolerated,
            ServerIpv6Resolve::Forbidden => Ipv6Resolve::Forbidden,
        }
    }
}

#[derive(Debug)]
pub struct ServerEntity {
    pub id: String,
    pub canvas: String,
    pub name: String,
    pub icon: String,
    pub comment: String,
    pub position: CanvasUiPosition,
    pub ipv6_resolve: ServerIpv6Resolve,
    pub log_level: String,
    pub desired_revision: i64,
    pub applied_revision: i64,
    pub last_apply_error: Option<String>,
    pub current_dynamic_refresh_key: Option<String>,
    pub refresh_key_generation: i64,
    /// Milliseconds since the Unix epoch.
    pub last_seen_at: Option<i64>,
}

pub struct ServerView {
    pub id: Seq<char>,
    pub canvas: Seq<char>,
    pub name: Seq<char>,
    pub icon: Seq<char>,
    pub comment: Seq<char>,
    pub position: CanvasUiPosition,
    pub ipv6_resolve: ServerIpv6Resolve,
    pub log_level: Seq<char>,
    pub desired_revision: i64,
    pub applied_revision: i64,
    pub last_apply_error: Option<Seq<char>>,
    pub current_dynamic_refresh_key: Option<Seq<char>>,
    pub refresh_key_generation: i64,
    pub last_seen_at: Option<i64>,
}

impl View for ServerEntity {
    type V = ServerView;

    open spec fn view(&self) -> ServerView {
        ServerView {
            id: self.id@,
            canvas: self.canvas@,
            name: self.name@,
            icon: self.icon@,
            comment: self.comment@,
            position: self.position,
            ipv6_resolve: self.ipv6_resolve,
            log_level: self.log_level@,
            desired_revision: self.desired_revision,
            applied_revision: self.applied_revision,
            last_apply_error: opt_str(self.last_apply_error),
            current_dynamic_refresh_key: opt_str(self.current_dynamic_refresh_key),
            refresh_key_generation: self.refresh_key_generation,
            last_seen_at: self.last_seen_at,
        }
    }
}

impl ServerEntity {
    pub fn duplicate(&self) -> (r: ServerEntity)
        ensures
            r@ == self@,
    {
        ServerEntity {
            id: self.id.clone(),
            canvas: self.canvas.clone(),
            name: self.name.clone(),
            icon: self.icon.clone(),
            comment: self.comment.clone(),
            position: self.position,
            ipv6_resolve: self.ipv6_resolve,
            log_level: self.log_level.clone(),
            desired_revision: self.desired_revision,
            applied_revision: self.applied_revision,
            last_apply_error: dup_opt_string(&self.last_apply_error),
            current_dynamic_refresh_key: dup_opt_string(&self.current_dynamic_refresh_key),
            refresh_key_generation: self.refresh_key_generation,
            last_seen_at: self.last_seen_at,
        }
    }
}

#[derive(Debug)]
pub struct ServerIpRecordEntity {
    pub id: String,
    pub server: String,
    pub ip: String,
    pub country: String,
}

pub struct IpRecordView {
    pub id: Seq<char>,
    pub server: Seq<char>,
    pub ip: Seq<char>,
    pub country: Seq<char>,
}

impl View for ServerIpRecordEntity {
    type V = IpRecordView;

    open spec fn view(&self) -> IpRecordView {
        IpRecordView { id: self.id@, server: self.server@, ip: self.ip@, country: self.country@ }
    }
}

impl ServerIpRecordEntity {
    pub fn duplicate(&self) -> (r: ServerIpRecordEntity)
        ensures
            r@ == self@,
    {
        ServerIpRecordEntity {
            id: self.id.clone(),
            server: self.server.clone(),
            ip: self.ip.clone(),
            country: self.country.clone(),
        }
    }
}

#[derive(Debug)]
pub struct ServerWithIp {
    pub server: ServerEntity,
    pub ips: Vec<ServerIpRecordEntity>,
}

#[derive(Debug)]
pub struct EdgeConnectionEntity {
    pub id: String,
    /// The output port the edge leaves.
    pub source: String,
    /// The input port the edge enters.
    pub target: String,
}

pub struct EdgeView {
    pub id: Seq<char>,
    pub source: Seq<char>,
    pub target: Seq<char>,
}

impl View for EdgeConnectionEntity {
    type V = EdgeView;

    open spec fn view(&self) -> EdgeView {
        EdgeView { id: self.id@, source: self.source@, target: self.target@ }
    }
}

impl EdgeConnectionEntity {
    pub fn duplicate(&self) -> (r: EdgeConnectionEntity)
        ensures
            r@ == self@,
    {
        EdgeConnectionEntity {
            id: self.id.clone(),
            source: self.source.clone(),
            target: self.target.clone(),
        }
    }
}

#[derive(Debug)]
pub struct CanvasEntity {
    pub id: String,
    pub name: String,
    pub description: String,
}

/// Everything the dashboard renders for one canvas.
#[derive(Debug)]
pub struct CanvasContents {
    pub canvas: CanvasEntity,
    pub servers: Vec<ServerWithIp>,
    pub nodes: Vec<NodeWithPorts>,
    pub edges: Vec<EdgeConnectionEntity>,
}

/// A consistent read of what the topology checker and the config deriver need:
/// the live rows of one canvas.
#[derive(Debug)]
pub struct CanvasTopology {
    pub canvas: String,
    pub servers: Vec<ServerEntity>,
    pub ips: Vec<ServerIpRecordEntity>,
    pub nodes: Vec<NodeWithPorts>,
    pub edges: Vec<EdgeConnectionEntity>,
}

pub struct TopologyView {
    pub canvas: Seq<char>,
    pub servers: Seq<ServerView>,
    pub ips: Seq<IpRecordView>,
    pub nodes: Seq<NodeWithPortsView>,
    pub edges: Seq<EdgeView>,
}

impl View for CanvasTopology {
    type V = TopologyView;

    open spec fn view(&self) -> TopologyView {
        TopologyView {
            canvas: self.canvas@,
            servers: self.servers@.map_values(|s: ServerEntity| s@),
            ips: self.ips@.map_values(|i: ServerIpRecordEntity| i@),
            nodes: self.nodes@.map_values(|n: NodeWithPorts| n@),
            edges: self.edges@.map_values(|e: EdgeConnectionEntity| e@),
        }
    }
}

} // verus!
