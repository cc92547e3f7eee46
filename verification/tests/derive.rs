use guru::derive::{derive_server_config, DeriveError, DerivedConfig, ListenProtocol};
use guru::model::{
    CanvasTopology, CanvasUiPosition, EdgeConnectionEntity, EntryConfig, ExitConfig,
    LoadBalanceAggregateConfig, LoadBalanceDistributeConfig, LoadBalanceMode, NodeEntity, NodeSpec,
    NodeWithPorts, PodConfig, PortDirection, PortEntity, PortKind, ProxyProtocolVersion, RelayConfig,
    RelayProtocol, ServerEntity, ServerIpRecordEntity, ServerIpv6Resolve, TlsConfig,
};
use guru::net::{parse_socket_addr_exec, SocketAddr};
use guru::worker_config::{
    ForwardingTo, ListenAs, LoadBalanceStrategy, RelayHost, RelayProtocol as WorkerRelayProtocol,
    Remote, TcpProxyProtocol,
};

type PortSpec = (String, PortKind, PortDirection, i64);

fn spec(key: &str, kind: PortKind, direction: PortDirection, position: i64) -> PortSpec {
    (key.to_string(), kind, direction, position)
}

fn pod_ports() -> Vec<PortSpec> {
    vec![
        spec("listen", PortKind::DeriveListen, PortDirection::Output, 0),
        spec("destination", PortKind::DeriveDestination, PortDirection::Input, 1),
    ]
}

fn entry_ports() -> Vec<PortSpec> {
    vec![spec("listen", PortKind::DeriveListen, PortDirection::Input, 0)]
}

fn relay_ports() -> Vec<PortSpec> {
    vec![
        spec("listen", PortKind::DeriveListen, PortDirection::Input, 0),
        spec("destination", PortKind::DeriveDestination, PortDirection::Output, 1),
    ]
}

fn exit_ports() -> Vec<PortSpec> {
    vec![spec("destination", PortKind::DeriveDestination, PortDirection::Output, 0)]
}

fn distribute_ports(members: i64) -> Vec<PortSpec> {
    let mut ports: Vec<PortSpec> = (0..members)
        .map(|i| spec(&format!("member_{i}"), PortKind::DeriveDestination, PortDirection::Input, i))
        .collect();
    ports.push(spec("destination", PortKind::DeriveDestination, PortDirection::Output, members));
    ports
}

fn aggregate_ports(copies: i64) -> Vec<PortSpec> {
    let mut ports = vec![spec("source", PortKind::DeriveDestination, PortDirection::Input, 0)];
    for i in 0..copies {
        ports.push(spec(&format!("copy_{i}"), PortKind::DeriveDestination, PortDirection::Output, i + 1));
    }
    ports
}

/// An in-memory canvas, its rows keyed as `<node>` and `<node>-<port>`.
struct Builder {
    canvas: String,
    servers: Vec<ServerEntity>,
    ips: Vec<ServerIpRecordEntity>,
    nodes: Vec<(String, String, NodeSpec, Vec<PortSpec>)>,
    edges: Vec<(String, String)>,
}

impl Builder {
    fn new(canvas: &str) -> Self {
        Builder { canvas: canvas.to_string(), servers: Vec::new(), ips: Vec::new(), nodes: Vec::new(), edges: Vec::new() }
    }

    fn server(&mut self, key: &str) -> String {
        self.servers.push(ServerEntity {
            id: key.to_string(),
            canvas: self.canvas.clone(),
            name: key.to_string(),
            icon: String::new(),
            comment: String::new(),
            position: CanvasUiPosition { x: 0, y: 0 },
            ipv6_resolve: ServerIpv6Resolve::Tolerated,
            log_level: "info".to_string(),
            desired_revision: 0,
            applied_revision: 0,
            last_apply_error: None,
            current_dynamic_refresh_key: None,
            refresh_key_generation: 0,
            last_seen_at: None,
        });
        key.to_string()
    }

    fn ip(&mut self, key: &str, server: &str, ip: &str) -> String {
        self.ips.push(ServerIpRecordEntity {
            id: key.to_string(),
            server: server.to_string(),
            ip: ip.to_string(),
            country: "jp".to_string(),
        });
        key.to_string()
    }

    fn node(&mut self, key: &str, spec: NodeSpec, ports: Vec<PortSpec>) {
        self.named_node(key, key, spec, ports)
    }

    fn named_node(&mut self, key: &str, name: &str, spec: NodeSpec, ports: Vec<PortSpec>) {
        self.nodes.push((key.to_string(), name.to_string(), spec, ports));
    }

    fn connect(&mut self, source: &str, target: &str) {
        self.edges.push((source.to_string(), target.to_string()));
    }

    fn build(&self) -> CanvasTopology {
        CanvasTopology {
            canvas: self.canvas.clone(),
            servers: self.servers.iter().map(|s| s.duplicate()).collect(),
            ips: self.ips.iter().map(|r| r.duplicate()).collect(),
            nodes: self
                .nodes
                .iter()
                .map(|(key, name, spec, ports)| NodeWithPorts {
                    node: NodeEntity {
                        id: key.clone(),
                        canvas: self.canvas.clone(),
                        name: name.clone(),
                        comment: String::new(),
                        spec: spec.duplicate(),
                        position: CanvasUiPosition { x: 0, y: 0 },
                    },
                    ports: ports
                        .iter()
                        .map(|(port_key, kind, direction, position)| PortEntity {
                            id: format!("{key}-{port_key}"),
                            owner: key.clone(),
                            kind: *kind,
                            direction: *direction,
                            key: port_key.clone(),
                            position: *position,
                        })
                        .collect(),
                })
                .collect(),
            edges: self
                .edges
                .iter()
                .map(|(s, t)| EdgeConnectionEntity { id: format!("{s}->{t}"), source: s.clone(), target: t.clone() })
                .collect(),
        }
    }
}

fn exit(dest: &str) -> NodeSpec {
    NodeSpec::Exit(ExitConfig { destination: dest.to_string(), pass_proxy_protocol: None })
}

fn entry(pp: Option<ProxyProtocolVersion>) -> NodeSpec {
    NodeSpec::Entry(EntryConfig { receive_proxy_protocol: pp, tls: None })
}

fn pod(ip: &str, port: u16) -> NodeSpec {
    NodeSpec::Pod(PodConfig { ip: ip.to_string(), port })
}

fn relay(protocol: RelayProtocol) -> NodeSpec {
    NodeSpec::Relay(RelayConfig { protocol, override_ip_address: None, override_port: None })
}

fn distribute(mode: LoadBalanceMode) -> NodeSpec {
    NodeSpec::LoadBalanceDistribute(LoadBalanceDistributeConfig { mode })
}


fn addr(s: &str) -> SocketAddr {
    parse_socket_addr_exec(s).unwrap()
}

fn derive(b: &Builder, server: &str) -> DerivedConfig {
    derive_server_config(&b.build(), &server.to_string()).unwrap_or_else(|e| panic!("derive failed: {}", e.message()))
}

/// Derives twice from independently built snapshots: the same topology must give
/// the same config every time.
fn derived(b: &Builder, server: &str) -> DerivedConfig {
    let once = derive(b, server);
    let twice = derive(b, server);
    assert_eq!(format!("{:?}", once.config), format!("{:?}", twice.config), "derivation is not stable");
    once
}

fn exit_to(to: &ForwardingTo) -> (String, Option<TcpProxyProtocol>) {
    match to {
        ForwardingTo::Exit { destination, send_proxy_protocol } => (remote_text(destination), *send_proxy_protocol),
        other => panic!("expected an exit, got {other:?}"),
    }
}

fn remote_text(r: &Remote) -> String {
    match r {
        Remote::Address(a) => format!("{a:?}"),
        Remote::Domain(h, p) => format!("{h}:{p}"),
    }
}

#[test]
fn single_pod_to_entry_and_exit() {
    let mut b = Builder::new("prod");
    let s = b.server("tokyo");
    let ip = b.ip("ip1", &s, "203.0.113.10");
    b.named_node("pod", "edge", pod(&ip, 443), pod_ports());
    b.node("entry", entry(None), entry_ports());
    b.node("exit", exit("10.0.0.5:8080"), exit_ports());
    b.connect("pod-listen", "entry-listen");
    b.connect("exit-destination", "pod-destination");

    let result = derived(&b, &s);
    assert_eq!(result.config.ipv6_resolve, guru::worker_config::Ipv6Resolve::Tolerated);
    assert_eq!(result.config.log.level, "info");
    assert_eq!(result.config.forwardings.len(), 1);
    let f = &result.config.forwardings[0];
    assert_eq!(f.tag, "edge");
    assert_eq!(f.listen, addr("203.0.113.10:443"));
    assert!(f.receive_proxy_protocol.is_none());
    assert!(matches!(f.listen_as, ListenAs::Raw));
    match &f.to {
        ForwardingTo::Exit { destination: Remote::Address(a), send_proxy_protocol: None } => {
            assert_eq!(*a, addr("10.0.0.5:8080"))
        }
        other => panic!("expected an exit to 10.0.0.5:8080, got {other:?}"),
    }
    assert_eq!(result.forwardings.len(), 1, "one pod, one forwarding, one listener capability");
    assert_eq!(result.forwardings[0].serves.port, 443);
    assert_eq!(result.forwardings[0].serves.ip, "203.0.113.10");
    assert_eq!(result.forwardings[0].serves.protocol, ListenProtocol::Raw);
    assert!(result.forwardings[0].points_at.is_empty(), "an exit destination is not a listener this fabric serves");
    assert!(result.invalid.is_empty());
}

#[test]
fn load_balance_members_follow_port_position() {
    let mut b = Builder::new("prod");
    let s = b.server("tokyo");
    let ip = b.ip("ip1", &s, "203.0.113.10");
    b.named_node("pod", "edge", pod(&ip, 443), pod_ports());
    b.node("entry", entry(Some(ProxyProtocolVersion::V2)), entry_ports());
    b.node(
        "lb",
        NodeSpec::LoadBalanceDistribute(LoadBalanceDistributeConfig { mode: LoadBalanceMode::Fallback }),
        distribute_ports(3),
    );
    // Deliberately connected out of order: emission must follow the port position.
    b.node("exit_c", exit("10.0.0.7:8080"), exit_ports());
    b.node("exit_a", exit("10.0.0.5:8080"), exit_ports());
    b.node("exit_b", exit("backend.internal:9000"), exit_ports());
    b.connect("pod-listen", "entry-listen");
    b.connect("lb-destination", "pod-destination");
    b.connect("exit_c-destination", "lb-member_2");
    b.connect("exit_a-destination", "lb-member_0");
    b.connect("exit_b-destination", "lb-member_1");

    let result = derived(&b, &s);
    let f = &result.config.forwardings[0];
    assert_eq!(f.receive_proxy_protocol, Some(TcpProxyProtocol::V2));
    let group = match &f.to {
        ForwardingTo::LoadBalance(g) => g,
        other => panic!("expected a load balance group, got {other:?}"),
    };
    assert_eq!(group.strategy, LoadBalanceStrategy::Fallback);
    let destinations: Vec<String> = group.members.iter().map(|m| exit_to(m).0).collect();
    assert_eq!(destinations.len(), 3);
    assert!(destinations[0].contains("V4") && destinations[0] == format!("{:?}", addr("10.0.0.5:8080")));
    assert_eq!(destinations[1], "backend.internal:9000");
    assert_eq!(destinations[2], format!("{:?}", addr("10.0.0.7:8080")));
}

#[test]
fn an_aggregate_feeds_the_same_subtree_to_two_pods() {
    let mut b = Builder::new("prod");
    let s = b.server("tokyo");
    let ip = b.ip("ip1", &s, "203.0.113.10");
    b.named_node("pod_a", "alpha", pod(&ip, 443), pod_ports());
    b.named_node("pod_b", "beta", pod(&ip, 8443), pod_ports());
    b.node("entry_a", entry(None), entry_ports());
    b.node("entry_b", entry(None), entry_ports());
    b.node("agg", NodeSpec::LoadBalanceAggregate(LoadBalanceAggregateConfig {}), aggregate_ports(2));
    b.node("exit", exit("10.0.0.5:8080"), exit_ports());
    b.connect("pod_a-listen", "entry_a-listen");
    b.connect("pod_b-listen", "entry_b-listen");
    b.connect("agg-copy_0", "pod_a-destination");
    b.connect("agg-copy_1", "pod_b-destination");
    b.connect("exit-destination", "agg-source");

    let result = derived(&b, &s);
    let tags: Vec<&str> = result.config.forwardings.iter().map(|f| f.tag.as_str()).collect();
    assert_eq!(tags, ["alpha", "beta"]);
    assert_eq!(result.config.forwardings[0].listen, addr("203.0.113.10:443"));
    assert_eq!(result.config.forwardings[1].listen, addr("203.0.113.10:8443"));
    for f in &result.config.forwardings {
        assert_eq!(exit_to(&f.to).0, format!("{:?}", addr("10.0.0.5:8080")));
    }
}

/// tokyo -> osaka -> singapore, each hop a raw TCP relay.
fn relay_chain() -> (Builder, String, String, String) {
    let mut b = Builder::new("prod");
    let tokyo = b.server("tokyo");
    let osaka = b.server("osaka");
    let singapore = b.server("singapore");
    let ip_tokyo = b.ip("ip_tokyo", &tokyo, "203.0.113.10");
    let ip_osaka = b.ip("ip_osaka", &osaka, "198.51.100.10");
    let ip_sg = b.ip("ip_sg", &singapore, "192.0.2.10");

    // Tokyo takes client traffic and relays it to Osaka.
    b.named_node("pod_tokyo", "ingress", pod(&ip_tokyo, 443), pod_ports());
    b.node("entry", entry(None), entry_ports());
    b.named_node("relay_osaka", "to-osaka", relay(RelayProtocol::TcpRaw), relay_ports());
    // Osaka's pod terminates the relay and hands off to the next relay.
    b.named_node("pod_osaka", "osaka-hop", pod(&ip_osaka, 9443), pod_ports());
    b.named_node("relay_sg", "to-singapore", relay(RelayProtocol::TcpRaw), relay_ports());
    // Singapore's pod exits to the origin.
    b.named_node("pod_sg", "singapore-hop", pod(&ip_sg, 9443), pod_ports());
    b.node("exit", exit("10.0.0.5:8080"), exit_ports());

    b.connect("pod_tokyo-listen", "entry-listen");
    b.connect("relay_osaka-destination", "pod_tokyo-destination");
    b.connect("pod_osaka-listen", "relay_osaka-listen");
    b.connect("relay_sg-destination", "pod_osaka-destination");
    b.connect("pod_sg-listen", "relay_sg-listen");
    b.connect("exit-destination", "pod_sg-destination");
    (b, tokyo, osaka, singapore)
}

fn relay_target(to: &ForwardingTo) -> SocketAddr {
    match to {
        ForwardingTo::Relay { protocol: WorkerRelayProtocol::Tcp, destination: Remote::Address(a), sni: None } => *a,
        other => panic!("expected a raw TCP relay to an address, got {other:?}"),
    }
}

#[test]
fn a_two_hop_relay_chain_derives_each_server() {
    let (b, tokyo, osaka, singapore) = relay_chain();

    let t = derived(&b, &tokyo);
    assert_eq!(t.config.forwardings.len(), 1);
    assert_eq!(t.config.forwardings[0].tag, "ingress");
    assert!(matches!(t.config.forwardings[0].listen_as, ListenAs::Raw));
    assert_eq!(relay_target(&t.config.forwardings[0].to), addr("198.51.100.10:9443"));
    assert_eq!(t.forwardings[0].points_at.len(), 1);
    assert_eq!(t.forwardings[0].points_at[0].ip, "198.51.100.10");
    assert_eq!(t.forwardings[0].points_at[0].port, 9443);
    assert_eq!(t.forwardings[0].points_at[0].protocol, ListenProtocol::RelayTcp);

    let o = derived(&b, &osaka);
    assert_eq!(o.config.forwardings.len(), 1);
    assert_eq!(o.config.forwardings[0].tag, "osaka-hop");
    assert_eq!(o.config.forwardings[0].listen, addr("198.51.100.10:9443"));
    assert!(matches!(o.config.forwardings[0].listen_as, ListenAs::Relay(RelayHost::Tcp)));
    assert!(o.config.forwardings[0].receive_proxy_protocol.is_none());
    assert_eq!(relay_target(&o.config.forwardings[0].to), addr("192.0.2.10:9443"));
    assert_eq!(o.forwardings[0].serves.protocol, ListenProtocol::RelayTcp);

    let g = derived(&b, &singapore);
    assert_eq!(g.config.forwardings.len(), 1);
    assert_eq!(g.config.forwardings[0].tag, "singapore-hop");
    assert!(matches!(g.config.forwardings[0].listen_as, ListenAs::Relay(RelayHost::Tcp)));
    assert_eq!(exit_to(&g.config.forwardings[0].to).0, format!("{:?}", addr("10.0.0.5:8080")));
    assert!(g.forwardings[0].points_at.is_empty());
}

#[test]
fn tls_entries_are_not_supported_yet() {
    let mut b = Builder::new("prod");
    let s = b.server("tokyo");
    let ip = b.ip("ip1", &s, "203.0.113.10");
    b.node("pod", pod(&ip, 443), pod_ports());
    b.node(
        "entry",
        NodeSpec::Entry(EntryConfig {
            receive_proxy_protocol: None,
            tls: Some(TlsConfig {
                sni: "example.com".to_string(),
                dns_provider: "cf".to_string(),
                domain_id: "zone".to_string(),
                acme_directory: "https://acme.example/directory".to_string(),
            }),
        }),
        entry_ports(),
    );
    b.node("exit", exit("10.0.0.5:8080"), exit_ports());
    b.connect("pod-listen", "entry-listen");
    b.connect("exit-destination", "pod-destination");

    let result = derive_server_config(&b.build(), &s).expect("the server still derives");
    assert!(
        result.config.forwardings.is_empty(),
        "the only pod is invalid, so nothing is served: {:?}",
        result.config.forwardings
    );
    let [invalid] = result.invalid.as_slice() else {
        panic!("expected exactly one invalid pod, got {:?}", result.invalid);
    };
    assert_eq!(invalid.pod, "pod");
    assert_eq!(invalid.listen, "203.0.113.10:443");
    assert!(invalid.error.contains("TLS"), "the stored reason must name the cause: {}", invalid.error);
}

#[test]
fn quic_relays_are_not_supported_yet() {
    let mut b = Builder::new("prod");
    let s = b.server("tokyo");
    let ip = b.ip("ip1", &s, "203.0.113.10");
    b.node("pod", pod(&ip, 443), pod_ports());
    b.node("relay", relay(RelayProtocol::Quic), relay_ports());
    b.node("pod2", pod(&ip, 9443), pod_ports());
    b.node("entry", entry(None), entry_ports());
    b.node("exit", exit("10.0.0.5:8080"), exit_ports());
    b.connect("pod-listen", "relay-listen");
    b.connect("relay-destination", "pod2-destination");
    b.connect("pod2-listen", "entry-listen");
    b.connect("exit-destination", "pod-destination");

    // Both pods sit behind the unsupported relay: the quic hop is on pod's
    // destination side and pod2 is the relay's listening side.
    let result = derive_server_config(&b.build(), &s).expect("the server still derives");
    let mut invalid: Vec<&str> = result.invalid.iter().map(|p| p.pod.as_str()).collect();
    invalid.sort_unstable();
    assert_eq!(invalid, ["pod", "pod2"]);
    assert!(result.invalid.iter().all(|p| p.error.contains("quic")), "{:?}", result.invalid);
}

#[test]
fn a_pod_with_an_unconnected_port_is_skipped() {
    let mut b = Builder::new("prod");
    let s = b.server("tokyo");
    let ip = b.ip("ip1", &s, "203.0.113.10");
    b.node("pod", pod(&ip, 443), pod_ports());
    let result = derive_server_config(&b.build(), &s).unwrap();
    assert!(result.config.forwardings.is_empty());
    assert!(result.forwardings.is_empty());
}

/// The point of per-pod isolation: a half-drawn relay must not cost the server
/// its other pods.
#[test]
fn a_broken_pod_leaves_its_neighbour_deriving() {
    let mut b = Builder::new("prod");
    let s = b.server("tokyo");
    let ip = b.ip("ip1", &s, "203.0.113.10");

    // Healthy: entry -> good -> exit.
    b.node("good", pod(&ip, 443), pod_ports());
    b.node("in", entry(None), entry_ports());
    b.node("out", exit("10.0.0.5:8080"), exit_ports());
    b.connect("good-listen", "in-listen");
    b.connect("out-destination", "good-destination");

    // Broken: dials a relay whose own listen side nothing feeds yet.
    b.node("half", pod(&ip, 8443), pod_ports());
    b.node("in2", entry(None), entry_ports());
    b.node("hop", relay(RelayProtocol::TcpRaw), relay_ports());
    b.connect("half-listen", "in2-listen");
    b.connect("hop-destination", "half-destination");

    let result = derive_server_config(&b.build(), &s).expect("the healthy pod still derives");
    let tags: Vec<&str> = result.config.forwardings.iter().map(|f| f.tag.as_str()).collect();
    assert_eq!(tags, ["good"], "the healthy pod is served on its own");
    assert_eq!(result.forwardings.len(), 1);
    let [invalid] = result.invalid.as_slice() else {
        panic!("expected exactly one invalid pod, got {:?}", result.invalid);
    };
    assert_eq!(invalid.pod, "half");
    assert_eq!(invalid.listen, "203.0.113.10:8443");
}

/// A load-balance group with no connected members used to reach the worker as an
/// empty group and fail the whole server at validation.
#[test]
fn an_empty_load_balance_group_invalidates_only_its_pod() {
    let mut b = Builder::new("prod");
    let s = b.server("tokyo");
    let ip = b.ip("ip1", &s, "203.0.113.10");

    b.node("good", pod(&ip, 443), pod_ports());
    b.node("in", entry(None), entry_ports());
    b.node("out", exit("10.0.0.5:8080"), exit_ports());
    b.connect("good-listen", "in-listen");
    b.connect("out-destination", "good-destination");

    b.node("lb-pod", pod(&ip, 8443), pod_ports());
    b.node("in2", entry(None), entry_ports());
    b.node(
        "lb",
        NodeSpec::LoadBalanceDistribute(LoadBalanceDistributeConfig { mode: LoadBalanceMode::RoundRobin }),
        distribute_ports(2),
    );
    b.connect("lb-pod-listen", "in2-listen");
    b.connect("lb-destination", "lb-pod-destination");

    let result = derive_server_config(&b.build(), &s).expect("the healthy pod still derives");
    let tags: Vec<&str> = result.config.forwardings.iter().map(|f| f.tag.as_str()).collect();
    assert_eq!(tags, ["good"]);
    let [invalid] = result.invalid.as_slice() else {
        panic!("expected exactly one invalid pod, got {:?}", result.invalid);
    };
    assert_eq!(invalid.pod, "lb-pod");
}

// Beyond the scenarios above.

#[test]
fn an_unknown_server_is_an_error() {
    let b = Builder::new("prod");
    assert!(derive_server_config(&b.build(), &"nowhere".to_string()).is_err());
}

#[test]
fn pods_of_other_servers_are_not_derived() {
    let mut b = Builder::new("prod");
    let tokyo = b.server("tokyo");
    let osaka = b.server("osaka");
    let ip = b.ip("ip_osaka", &osaka, "198.51.100.10");
    b.node("pod", pod(&ip, 443), pod_ports());
    b.node("entry", entry(None), entry_ports());
    b.node("exit", exit("10.0.0.5:8080"), exit_ports());
    b.connect("pod-listen", "entry-listen");
    b.connect("exit-destination", "pod-destination");
    assert!(derive(&b, &tokyo).config.forwardings.is_empty());
    assert_eq!(derive(&b, &osaka).config.forwardings.len(), 1);
}

#[test]
fn an_invalid_ipv6_listen_is_bracketed() {
    let mut b = Builder::new("prod");
    let s = b.server("tokyo");
    let ip = b.ip("ip6", &s, "2001:db8::1");
    b.node("pod", pod(&ip, 443), pod_ports());
    b.node(
        "entry",
        NodeSpec::Entry(EntryConfig {
            receive_proxy_protocol: None,
            tls: Some(TlsConfig {
                sni: "example.com".to_string(),
                dns_provider: "cf".to_string(),
                domain_id: "zone".to_string(),
                acme_directory: "https://acme.example/directory".to_string(),
            }),
        }),
        entry_ports(),
    );
    b.node("exit", exit("10.0.0.5:8080"), exit_ports());
    b.connect("pod-listen", "entry-listen");
    b.connect("exit-destination", "pod-destination");
    let result = derive(&b, &s);
    assert_eq!(result.invalid.len(), 1);
    assert_eq!(result.invalid[0].listen, "[2001:db8::1]:443");
}

#[test]
fn pod_on_a_missing_ip_record_fails_the_derivation() {
    let mut b = Builder::new("prod");
    let s = b.server("tokyo");
    let ip = b.ip("ip1", &s, "203.0.113.10");
    b.named_node("pod", "edge", pod(&ip, 443), pod_ports());
    b.node("lost", pod("foreign", 8443), pod_ports());
    b.node("entry", entry(None), entry_ports());
    b.node("exit", exit("10.0.0.5:8080"), exit_ports());
    b.connect("pod-listen", "entry-listen");
    b.connect("exit-destination", "pod-destination");

    let err = derive_server_config(&b.build(), &s).err().expect("a pod on a missing ip record must fail");
    match &err {
        DeriveError::MissingIpRecord { node, ip } => {
            assert_eq!(node, "lost");
            assert_eq!(ip, "foreign");
        }
        other => panic!("expected a missing ip record, got {}", other.message()),
    }
    assert_eq!(err.message(), "pod lost references missing ip record foreign");
}
