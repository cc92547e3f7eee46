//! A node spec as the operator API carries it, and its reading into a [`NodeSpec`].
//!
//! On the wire every field is present: enum fields may hold an unspecified value,
//! numbers are 32-bit, and an absent override is an empty string or a zero port.

use crate::model::{
    CanvasExportAs, CanvasExportConfig, CanvasImportConfig, EntryConfig, ExitConfig,
    LoadBalanceAggregateConfig, LoadBalanceDistributeConfig, LoadBalanceMode, NodeSpec, NodeSpecView,
    PodConfig, PortKind, ProxyProtocolVersion, RelayConfig, RelayProtocol, TlsConfig, TlsConfigView,
};
use crate::node_edits::{OrchestrationError, RefusalView};
use vstd::prelude::*;

verus! {

#[derive(Debug, Clone, Copy, PartialEq, Eq, Structural)]
pub enum WireProxyProtocol {
    Unspecified,
    V1,
    V2,
}

#[derive(Debug, Clone, Copy, PartialEq, Eq, Structural)]
pub enum WireRelayProtocol {
    Unspecified,
    TcpRaw,
    TcpTls,
    Quic,
}

#[derive(Debug, Clone, Copy, PartialEq, Eq, Structural)]
pub enum WireLoadBalanceMode {
    Unspecified,
    RoundRobin,
    Random,
    IpHash,
    Fallback,
}

#[derive(Debug, Clone, Copy, PartialEq, Eq, Structural)]
pub enum WirePortKind {
    Unspecified,
    DeriveListen,
    DeriveDestination,
}

#[derive(Debug, Clone, Copy, PartialEq, Eq, Structural)]
pub enum WireExportAs {
    Unspecified,
    InputIntoCanvas,
    OutputOutOfCanvas,
}

#[derive(Debug)]
pub struct WireTls {
    pub sni: String,
    pub dns_provider_id: String,
    pub domain_id: String,
    pub acme_directory: String,
}

/// A node spec on the wire.
#[derive(Debug)]
pub enum WireNodeSpec {
    Pod { ip_record_id: String, port: u32 },
    Entry { receive_proxy_protocol: WireProxyProtocol, tls: Option<WireTls> },
    Relay { protocol: WireRelayProtocol, override_ip_address: String, override_port: u32 },
    Exit { destination: String, pass_proxy_protocol: WireProxyProtocol },
    LoadBalanceDistribute { mode: WireLoadBalanceMode },
    LoadBalanceAggregate,
    CanvasImport,
    CanvasExport { kind: WirePortKind, direction: WireExportAs },
}

/// A PROXY protocol version; an unspecified one means none.
pub open spec fn proxy_from_wire(p: WireProxyProtocol) -> Option<ProxyProtocolVersion> {
    match p {
        WireProxyProtocol::V1 => Some(ProxyProtocolVersion::V1),
        WireProxyProtocol::V2 => Some(ProxyProtocolVersion::V2),
        WireProxyProtocol::Unspecified => None,
    }
}

/// A relay protocol; an unspecified one is raw TCP.
pub open spec fn relay_from_wire(p: WireRelayProtocol) -> RelayProtocol {
    match p {
        WireRelayProtocol::TcpTls => RelayProtocol::TcpTls,
        WireRelayProtocol::Quic => RelayProtocol::Quic,
        _ => RelayProtocol::TcpRaw,
    }
}

/// A load-balance mode; an unspecified one is round robin.
pub open spec fn mode_from_wire(m: WireLoadBalanceMode) -> LoadBalanceMode {
    match m {
        WireLoadBalanceMode::Random => LoadBalanceMode::Random,
        WireLoadBalanceMode::IpHash => LoadBalanceMode::IpHash,
        WireLoadBalanceMode::Fallback => LoadBalanceMode::Fallback,
        _ => LoadBalanceMode::RoundRobin,
    }
}

/// An exported port's kind; an unspecified one is a destination.
pub open spec fn kind_from_wire(k: WirePortKind) -> PortKind {
    match k {
        WirePortKind::DeriveListen => PortKind::DeriveListen,
        _ => PortKind::DeriveDestination,
    }
}

/// An export's direction; an unspecified one goes into the canvas.
pub open spec fn export_from_wire(d: WireExportAs) -> CanvasExportAs {
    match d {
        WireExportAs::OutputOutOfCanvas => CanvasExportAs::OutputOutOfCanvas,
        _ => CanvasExportAs::InputIntoCanvas,
    }
}

/// What a node spec on the wire reads as: a spec is required, a port must fit in
/// 16 bits, an empty override address and a zero override port mean none.
pub open spec fn spec_from_wire(w: Option<WireNodeSpec>) -> Result<NodeSpecView, RefusalView> {
    match w {
        None => Err(RefusalView::Invalid("spec is required"@)),
        Some(WireNodeSpec::Pod { ip_record_id, port }) => if port > 0xffff {
            Err(RefusalView::Invalid("port out of range"@))
        } else {
            Ok(NodeSpecView::Pod { ip: ip_record_id@, port: port as u16 })
        },
        Some(WireNodeSpec::Entry { receive_proxy_protocol, tls }) => Ok(
            NodeSpecView::Entry {
                receive_proxy_protocol: proxy_from_wire(receive_proxy_protocol),
                tls: match tls {
                    Some(x) => Some(
                        TlsConfigView {
                            sni: x.sni@,
                            dns_provider: x.dns_provider_id@,
                            domain_id: x.domain_id@,
                            acme_directory: x.acme_directory@,
                        },
                    ),
                    None => None,
                },
            },
        ),
        Some(WireNodeSpec::Relay { protocol, override_ip_address, override_port }) => if override_port > 0xffff {
            Err(RefusalView::Invalid("override_port out of range"@))
        } else {
            Ok(
                NodeSpecView::Relay {
                    protocol: relay_from_wire(protocol),
                    override_ip_address: if override_ip_address@.len() == 0 {
                        None
                    } else {
                        Some(override_ip_address@)
                    },
                    override_port: if override_port == 0 {
                        None
                    } else {
                        Some(override_port as u16)
                    },
                },
            )
        },
        Some(WireNodeSpec::Exit { destination, pass_proxy_protocol }) => Ok(
            NodeSpecView::Exit { destination: destination@, pass_proxy_protocol: proxy_from_wire(pass_proxy_protocol) },
        ),
        Some(WireNodeSpec::LoadBalanceDistribute { mode }) => Ok(
            NodeSpecView::LoadBalanceDistribute { mode: mode_from_wire(mode) },
        ),
        Some(WireNodeSpec::LoadBalanceAggregate) => Ok(NodeSpecView::LoadBalanceAggregate),
        Some(WireNodeSpec::CanvasImport) => Ok(NodeSpecView::CanvasImport),
        Some(WireNodeSpec::CanvasExport { kind, direction }) => Ok(
            NodeSpecView::CanvasExport(
                CanvasExportConfig { kind: kind_from_wire(kind), direction: export_from_wire(direction) },
            ),
        ),
    }
}

fn proxy_from_wire_exec(p: WireProxyProtocol) -> (r: Option<ProxyProtocolVersion>)
    ensures
        r == proxy_from_wire(p),
{
    match p {
        WireProxyProtocol::V1 => Some(ProxyProtocolVersion::V1),
        WireProxyProtocol::V2 => Some(ProxyProtocolVersion::V2),
        WireProxyProtocol::Unspecified => None,
    }
}

fn invalid(m: &str) -> (r: OrchestrationError)
    ensures
        r@ == RefusalView::Invalid(m@),
{
    OrchestrationError::Invalid(String::from_str(m))
}

/// Reads a node spec from the wire; see [`spec_from_wire`].
pub fn node_spec_from_wire(w: Option<WireNodeSpec>) -> (r: Result<NodeSpec, OrchestrationError>)
    ensures
        match spec_from_wire(w) {
            Ok(s) => r matches Ok(x) && x@ == s,
            Err(e) => r matches Err(x) && x@ == e,
        },
{
    proof {
        reveal_strlit("spec is required");
        reveal_strlit("port out of range");
        reveal_strlit("override_port out of range");
    }
    let w = match w {
        None => return Err(invalid("spec is required")),
        Some(w) => w,
    };
    match w {
        WireNodeSpec::Pod { ip_record_id, port } => {
            if port > 0xffff {
                return Err(invalid("port out of range"));
            }
            Ok(NodeSpec::Pod(PodConfig { ip: ip_record_id, port: port as u16 }))
        },
        WireNodeSpec::Entry { receive_proxy_protocol, tls } => Ok(
            NodeSpec::Entry(
                EntryConfig {
                    receive_proxy_protocol: proxy_from_wire_exec(receive_proxy_protocol),
                    tls: match tls {
                        Some(x) => Some(
                            TlsConfig {
                                sni: x.sni,
                                dns_provider: x.dns_provider_id,
                                domain_id: x.domain_id,
                                acme_directory: x.acme_directory,
                            },
                        ),
                        None => None,
                    },
                },
            ),
        ),
        WireNodeSpec::Relay { protocol, override_ip_address, override_port } => {
            if override_port > 0xffff {
                return Err(invalid("override_port out of range"));
            }
            let protocol = match protocol {
                WireRelayProtocol::TcpTls => RelayProtocol::TcpTls,
                WireRelayProtocol::Quic => RelayProtocol::Quic,
                _ => RelayProtocol::TcpRaw,
            };
            let address = if override_ip_address.as_str().is_empty() {
                None
            } else {
                Some(override_ip_address)
            };
            let port = if override_port == 0 {
                None
            } else {
                Some(override_port as u16)
            };
            Ok(NodeSpec::Relay(RelayConfig { protocol, override_ip_address: address, override_port: port }))
        },
        WireNodeSpec::Exit { destination, pass_proxy_protocol } => Ok(
            NodeSpec::Exit(ExitConfig { destination, pass_proxy_protocol: proxy_from_wire_exec(pass_proxy_protocol) }),
        ),
        WireNodeSpec::LoadBalanceDistribute { mode } => {
            let mode = match mode {
                WireLoadBalanceMode::Random => LoadBalanceMode::Random,
                WireLoadBalanceMode::IpHash => LoadBalanceMode::IpHash,
                WireLoadBalanceMode::Fallback => LoadBalanceMode::Fallback,
                _ => LoadBalanceMode::RoundRobin,
            };
            Ok(NodeSpec::LoadBalanceDistribute(LoadBalanceDistributeConfig { mode }))
        },
        WireNodeSpec::LoadBalanceAggregate => Ok(NodeSpec::LoadBalanceAggregate(LoadBalanceAggregateConfig {})),
        WireNodeSpec::CanvasImport => Ok(NodeSpec::CanvasImport(CanvasImportConfig {})),
        WireNodeSpec::CanvasExport { kind, direction } => {
            let kind = match kind {
                WirePortKind::DeriveListen => PortKind::DeriveListen,
                _ => PortKind::DeriveDestination,
            };
            let direction = match direction {
                WireExportAs::OutputOutOfCanvas => CanvasExportAs::OutputOutOfCanvas,
                _ => CanvasExportAs::InputIntoCanvas,
            };
            Ok(NodeSpec::CanvasExport(CanvasExportConfig { kind, direction }))
        },
    }
}

} // verus!
