use guru::converge::{
    converge, ensure_switch_safe, ConfigSnapshot, ConvergeError, ServerConfigViewEntity, StoredConfigs,
};
use guru::derive::{derive_server_config, DerivedConfig, ForwardingDeps, ListenProtocol, ListenerCap};
use guru::model::{
    CanvasTopology, CanvasUiPosition, EdgeConnectionEntity, EntryConfig, ExitConfig,
    LoadBalanceAggregateConfig, LoadBalanceDistributeConfig, LoadBalanceMode, NodeEntity, NodeSpec,
    NodeWithPorts, PodConfig, PortDirection, PortEntity, PortKind, ProxyProtocolVersion, RelayConfig,
    RelayProtocol, ServerEntity, ServerIpRecordEntity, ServerIpv6Resolve,
};
use guru::net::parse_socket_addr_exec;
use guru::rollout::{failed_update, offer, stamped_update};
use guru::worker_config::{Config, Forwarding, ForwardingTo, ListenAs, LogConfig, Remote};

type PortSpec = (String, PortKind, PortDirection, i64);

fn spec(key: &str, kind: PortKind, direction: PortDirection, position: i64) -> PortSpec {
    (key.to_string(), kind, direction, position)
}

fn pod_ports() -> Vec<PortSpec> {
    vec![
        spec("listen", PortKind::DeriveListen, PortDirection::Output, 0),
        spec("destination", PortKind::DeriveDestination, PortDirection::Input, 1),
    ]
}

fn entry_ports() -> Vec<PortSpec> {
    vec![spec("listen", PortKind::DeriveListen, PortDirection::Input, 0)]
}

fn relay_ports() -> Vec<PortSpec> {
    vec![
        spec("listen", PortKind::DeriveListen, PortDirection::Input, 0),
        spec("destination", PortKind::DeriveDestination, PortDirection::Output, 1),
    ]
}

fn exit_ports() -> Vec<PortSpec> {
    vec![spec("destination", PortKind::DeriveDestination, PortDirection::Output, 0)]
}

fn distribute_ports(members: i64) -> Vec<PortSpec> {
    let mut ports: Vec<PortSpec> = (0..members)
        .map(|i| spec(&format!("member_{i}"), PortKind::DeriveDestination, PortDirection::Input, i))
        .collect();
    ports.push(spec("destination", PortKind::DeriveDestination, PortDirection::Output, members));
    ports
}

fn aggregate_ports(copies: i64) -> Vec<PortSpec> {
    let mut ports = vec![spec("source", PortKind::DeriveDestination, PortDirection::Input, 0)];
    for i in 0..copies {
        ports.push(spec(&format!("copy_{i}"), PortKind::DeriveDestination, PortDirection::Output, i + 1));
    }
    ports
}

/// An in-memory canvas, its rows keyed as `<node>` and `<node>-<port>`.
struct Builder {
    canvas: String,
    servers: Vec<ServerEntity>,
    ips: Vec<ServerIpRecordEntity>,
    nodes: Vec<(String, String, NodeSpec, Vec<PortSpec>)>,
    edges: Vec<(String, String)>,
}

impl Builder {
    fn new(canvas: &str) -> Self {
        Builder { canvas: canvas.to_string(), servers: Vec::new(), ips: Vec::new(), nodes: Vec::new(), edges: Vec::new() }
    }

    fn server(&mut self, key: &str) -> String {
        self.servers.push(ServerEntity {
            id: key.to_string(),
            canvas: self.canvas.clone(),
            name: key.to_string(),
            icon: String::new(),
            comment: String::new(),
            position: CanvasUiPosition { x: 0, y: 0 },
            ipv6_resolve: ServerIpv6Resolve::Tolerated,
            log_level: "info".to_string(),
            desired_revision: 0,
            applied_revision: 0,
            last_apply_error: None,
            current_dynamic_refresh_key: None,
            refresh_key_generation: 0,
            last_seen_at: None,
        });
        key.to_string()
    }

    fn ip(&mut self, key: &str, server: &str, ip: &str) -> String {
        self.ips.push(ServerIpRecordEntity {
            id: key.to_string(),
            server: server.to_string(),
            ip: ip.to_string(),
            country: "jp".to_string(),
        });
        key.to_string()
    }

    fn node(&mut self, key: &str, spec: NodeSpec, ports: Vec<PortSpec>) {
        self.named_node(key, key, spec, ports)
    }

    fn named_node(&mut self, key: &str, name: &str, spec: NodeSpec, ports: Vec<PortSpec>) {
        self.nodes.push((key.to_string(), name.to_string(), spec, ports));
    }

    fn connect(&mut self, source: &str, target: &str) {
        self.edges.push((source.to_string(), target.to_string()));
    }

    fn build(&self) -> CanvasTopology {
        CanvasTopology {
            canvas: self.canvas.clone(),
            servers: self.servers.iter().map(|s| s.duplicate()).collect(),
            ips: self.ips.iter().map(|r| r.duplicate()).collect(),
            nodes: self
                .nodes
                .iter()
                .map(|(key, name, spec, ports)| NodeWithPorts {
                    node: NodeEntity {
                        id: key.clone(),
                        canvas: self.canvas.clone(),
                        name: name.clone(),
                        comment: String::new(),
                        spec: spec.duplicate(),
                        position: CanvasUiPosition { x: 0, y: 0 },
                    },
                    ports: ports
                        .iter()
                        .map(|(port_key, kind, direction, position)| PortEntity {
                            id: format!("{key}-{port_key}"),
                            owner: key.clone(),
                            kind: *kind,
                            direction: *direction,
                            key: port_key.clone(),
                            position: *position,
                        })
                        .collect(),
                })
                .collect(),
            edges: self
                .edges
                .iter()
                .map(|(s, t)| EdgeConnectionEntity { id: format!("{s}->{t}"), source: s.clone(), target: t.clone() })
                .collect(),
        }
    }
}

fn exit(dest: &str) -> NodeSpec {
    NodeSpec::Exit(ExitConfig { destination: dest.to_string(), pass_proxy_protocol: None })
}

fn entry(pp: Option<ProxyProtocolVersion>) -> NodeSpec {
    NodeSpec::Entry(EntryConfig { receive_proxy_protocol: pp, tls: None })
}

fn pod(ip: &str, port: u16) -> NodeSpec {
    NodeSpec::Pod(PodConfig { ip: ip.to_string(), port })
}

fn relay(protocol: RelayProtocol) -> NodeSpec {
    NodeSpec::Relay(RelayConfig { protocol, override_ip_address: None, override_port: None })
}

fn distribute(mode: LoadBalanceMode) -> NodeSpec {
    NodeSpec::LoadBalanceDistribute(LoadBalanceDistributeConfig { mode })
}


/// tokyo relays its client traffic to a pod on osaka, which exits.
fn two_hop() -> Builder {
    let mut b = Builder::new("prod");
    let tokyo = b.server("tokyo");
    let osaka = b.server("osaka");
    let ip_tokyo = b.ip("ip_tokyo", &tokyo, "203.0.113.10");
    let ip_osaka = b.ip("ip_osaka", &osaka, "198.51.100.10");
    b.named_node("pod_tokyo", "ingress", pod(&ip_tokyo, 443), pod_ports());
    b.node("entry", entry(None), entry_ports());
    b.named_node("relay_osaka", "to-osaka", relay(RelayProtocol::TcpRaw), relay_ports());
    b.named_node("pod_osaka", "osaka-hop", pod(&ip_osaka, 9443), pod_ports());
    b.node("exit", exit("10.0.0.5:8080"), exit_ports());
    b.connect("pod_tokyo-listen", "entry-listen");
    b.connect("relay_osaka-destination", "pod_tokyo-destination");
    b.connect("pod_osaka-listen", "relay_osaka-listen");
    b.connect("exit-destination", "pod_osaka-destination");
    b
}

fn ip_servers() -> Vec<(String, String)> {
    vec![
        ("203.0.113.10".to_string(), "tokyo".to_string()),
        ("198.51.100.10".to_string(), "osaka".to_string()),
    ]
}

fn cap(ip: &str, port: i64, protocol: ListenProtocol) -> ListenerCap {
    ListenerCap { ip: ip.to_string(), port, protocol }
}

fn snapshot(revision: i64, forwardings: Vec<ForwardingDeps>) -> ConfigSnapshot {
    ConfigSnapshot { revision, toml: format!("# revision {revision}"), created_at: 0, forwardings }
}

fn state(server: &str, applied: Option<ConfigSnapshot>) -> ServerConfigViewEntity {
    ServerConfigViewEntity { server: server.to_string(), desired: None, in_flight: None, applied }
}

fn desired(server: &str, s: ConfigSnapshot) -> ServerConfigViewEntity {
    ServerConfigViewEntity { server: server.to_string(), desired: Some(s), in_flight: None, applied: None }
}

fn nothing_stored() -> StoredConfigs {
    StoredConfigs { applied: None, in_flight: None, desired: None }
}

fn exit_forwarding(tag: &str, listen: &str, destination: &str) -> Forwarding {
    Forwarding {
        tag: tag.to_string(),
        listen: parse_socket_addr_exec(listen).unwrap(),
        receive_proxy_protocol: None,
        listen_as: ListenAs::Raw,
        to: ForwardingTo::Exit { destination: Remote::parse(destination).unwrap(), send_proxy_protocol: None },
    }
}

fn config_of(forwardings: Vec<Forwarding>) -> Config {
    Config { ipv6_resolve: guru::worker_config::Ipv6Resolve::Tolerated, log: LogConfig::default(), forwardings }
}

fn ideal(b: &Builder, server: &str) -> DerivedConfig {
    derive_server_config(&b.build(), &server.to_string()).unwrap_or_else(|e| panic!("derive failed: {}", e.message()))
}

#[test]
fn a_forwarding_to_an_unserved_listener_is_withheld() {
    let b = two_hop();
    let own = state("tokyo", None);
    let views = vec![state("tokyo", None), state("osaka", None)];
    let c = converge(ideal(&b, "tokyo"), &own, &views, &ip_servers(), &nothing_stored()).unwrap();
    assert!(c.config.forwardings.is_empty(), "never point at a listener nobody serves yet");
    assert!(c.forwardings.is_empty());
    assert_eq!(c.waiting_for, vec!["osaka".to_string()]);
}

#[test]
fn a_forwarding_whose_targets_are_served_goes_in_as_derived() {
    let b = two_hop();
    let own = state("tokyo", None);
    let osaka = state(
        "osaka",
        Some(snapshot(1, vec![ForwardingDeps { serves: cap("198.51.100.10", 9443, ListenProtocol::RelayTcp), points_at: vec![] }])),
    );
    let views = vec![state("tokyo", None), osaka];
    let c = converge(ideal(&b, "tokyo"), &own, &views, &ip_servers(), &nothing_stored()).unwrap();
    assert_eq!(c.config.forwardings.len(), 1);
    assert_eq!(c.config.forwardings[0].tag, "ingress");
    assert!(c.waiting_for.is_empty());
    assert_eq!(c.forwardings[0].points_at.len(), 1);
    assert_eq!(c.forwardings[0].points_at[0].port, 9443);
}

#[test]
fn a_waiting_forwarding_keeps_its_previous_shape() {
    let b = two_hop();
    let previous = ForwardingDeps { serves: cap("203.0.113.10", 443, ListenProtocol::Raw), points_at: vec![] };
    let own = state("tokyo", Some(snapshot(3, vec![previous.duplicate()])));
    let views = vec![state("tokyo", Some(snapshot(3, vec![previous.duplicate()]))), state("osaka", None)];
    let stored = StoredConfigs {
        applied: Some(Ok(config_of(vec![exit_forwarding("ingress", "203.0.113.10:443", "10.0.0.9:80")]))),
        in_flight: None,
        desired: None,
    };
    let c = converge(ideal(&b, "tokyo"), &own, &views, &ip_servers(), &stored).unwrap();
    assert_eq!(c.config.forwardings.len(), 1);
    match &c.config.forwardings[0].to {
        ForwardingTo::Exit { destination: Remote::Address(a), .. } => {
            assert_eq!(*a, parse_socket_addr_exec("10.0.0.9:80").unwrap())
        }
        other => panic!("expected the previous exit, got {other:?}"),
    }
    assert_eq!(c.waiting_for, vec!["osaka".to_string()]);
}

#[test]
fn a_listener_still_pointed_at_is_kept_alive() {
    // The canvas no longer asks osaka for anything, but tokyo still runs a relay to it.
    let served = cap("198.51.100.10", 9443, ListenProtocol::RelayTcp);
    let osaka_applied = snapshot(2, vec![ForwardingDeps { serves: served.duplicate(), points_at: vec![] }]);
    let own = state("osaka", Some(snapshot(2, vec![ForwardingDeps { serves: served.duplicate(), points_at: vec![] }])));
    let tokyo = state(
        "tokyo",
        Some(snapshot(
            4,
            vec![ForwardingDeps { serves: cap("203.0.113.10", 443, ListenProtocol::Raw), points_at: vec![served.duplicate()] }],
        )),
    );
    let views = vec![tokyo, state("osaka", Some(osaka_applied))];
    let stored = StoredConfigs {
        applied: Some(Ok(config_of(vec![exit_forwarding("osaka-hop", "198.51.100.10:9443", "10.0.0.5:8080")]))),
        in_flight: None,
        desired: None,
    };
    let empty = DerivedConfig { config: config_of(vec![]), forwardings: vec![], invalid: vec![] };
    let c = converge(empty, &own, &views, &ip_servers(), &stored).unwrap();
    assert_eq!(c.config.forwardings.len(), 1, "never drop a listener somebody still points at");
    assert_eq!(c.config.forwardings[0].tag, "osaka-hop");
    assert_eq!(c.forwardings[0].serves.port, 9443);
}

#[test]
fn an_unreferenced_listener_is_dropped() {
    let own = state("osaka", Some(snapshot(2, vec![ForwardingDeps { serves: cap("198.51.100.10", 9443, ListenProtocol::RelayTcp), points_at: vec![] }])));
    let views = vec![state("tokyo", None)];
    let stored = StoredConfigs {
        applied: Some(Ok(config_of(vec![exit_forwarding("osaka-hop", "198.51.100.10:9443", "10.0.0.5:8080")]))),
        in_flight: None,
        desired: None,
    };
    let empty = DerivedConfig { config: config_of(vec![]), forwardings: vec![], invalid: vec![] };
    let c = converge(empty, &own, &views, &ip_servers(), &stored).unwrap();
    assert!(c.config.forwardings.is_empty());
}

#[test]
fn an_unreadable_snapshot_that_is_needed_is_an_error() {
    let b = two_hop();
    let previous = ForwardingDeps { serves: cap("203.0.113.10", 443, ListenProtocol::Raw), points_at: vec![] };
    let own = state("tokyo", Some(snapshot(3, vec![previous.duplicate()])));
    let views = vec![state("osaka", None)];
    let stored = StoredConfigs {
        applied: Some(Err(guru::worker_config::ConfigError::Parse("bad toml".to_string()))),
        in_flight: None,
        desired: None,
    };
    match converge(ideal(&b, "tokyo"), &own, &views, &ip_servers(), &stored) {
        Err(ConvergeError::Snapshot(_)) => {}
        other => panic!("expected a snapshot error, got {other:?}"),
    }
}

#[test]
fn two_protocols_on_one_socket_conflict() {
    // The ideal config serves 198.51.100.10:9443 raw, while tokyo still relays to the
    // same socket over TCP and osaka's running snapshot serves it as a relay.
    let mut b = Builder::new("prod");
    let osaka = b.server("osaka");
    let ip = b.ip("ip_osaka", &osaka, "198.51.100.10");
    b.node("pod", pod(&ip, 9443), pod_ports());
    b.node("entry", entry(None), entry_ports());
    b.node("exit", exit("10.0.0.5:8080"), exit_ports());
    b.connect("pod-listen", "entry-listen");
    b.connect("exit-destination", "pod-destination");
    let relay_cap = cap("198.51.100.10", 9443, ListenProtocol::RelayTcp);
    let own = state("osaka", Some(snapshot(2, vec![ForwardingDeps { serves: relay_cap.duplicate(), points_at: vec![] }])));
    let tokyo = state(
        "tokyo",
        Some(snapshot(4, vec![ForwardingDeps { serves: cap("203.0.113.10", 443, ListenProtocol::Raw), points_at: vec![relay_cap.duplicate()] }])),
    );
    let stored = StoredConfigs {
        applied: Some(Ok(config_of(vec![exit_forwarding("old-hop", "198.51.100.10:9443", "10.0.0.5:8080")]))),
        in_flight: None,
        desired: None,
    };
    let views = vec![tokyo];
    match converge(ideal(&b, "osaka"), &own, &views, &ip_servers(), &stored) {
        Err(ConvergeError::ListenerConflict { ip, port, .. }) => {
            assert_eq!(ip, "198.51.100.10");
            assert_eq!(port, 9443);
        }
        other => panic!("expected a listener conflict, got {other:?}"),
    }
}

#[test]
fn switching_a_referenced_listeners_protocol_is_refused() {
    let mut b = Builder::new("prod");
    let osaka = b.server("osaka");
    let ip = b.ip("ip_osaka", &osaka, "198.51.100.10");
    b.node("pod", pod(&ip, 9443), pod_ports());
    b.node("entry", entry(None), entry_ports());
    b.node("exit", exit("10.0.0.5:8080"), exit_ports());
    b.connect("pod-listen", "entry-listen");
    b.connect("exit-destination", "pod-destination");
    let tokyo = state(
        "tokyo",
        Some(snapshot(
            4,
            vec![ForwardingDeps {
                serves: cap("203.0.113.10", 443, ListenProtocol::Raw),
                points_at: vec![cap("198.51.100.10", 9443, ListenProtocol::RelayTcp)],
            }],
        )),
    );
    let err = ensure_switch_safe(&b.build(), &vec![tokyo]).unwrap_err();
    assert_eq!(
        err,
        "listener 198.51.100.10:9443 is still in use as RelayTcp; use a new port instead of changing its protocol"
    );
    assert!(ensure_switch_safe(&b.build(), &vec![state("tokyo", None)]).is_ok());
}

// One server's slot in a derivation pass.

#[test]
fn an_unknown_server_fails_as_a_whole() {
    let b = two_hop();
    let own = state("nowhere", None);
    let err = offer(&b.build(), &"nowhere".to_string(), &own, &vec![], &ip_servers(), &nothing_stored()).unwrap_err();
    assert_eq!(err, "server nowhere is not part of this canvas");
    let u = failed_update("nowhere".to_string(), err);
    assert!(u.desired.is_none());
    assert_eq!(u.derive_error.as_deref(), Some("server nowhere is not part of this canvas"));
    assert!(!u.clear_failure);
}

#[test]
fn an_offer_converges_the_ideal_config() {
    let b = two_hop();
    let own = state("tokyo", None);
    let views = vec![state("tokyo", None), state("osaka", None)];
    let c = offer(&b.build(), &"tokyo".to_string(), &own, &views, &ip_servers(), &nothing_stored()).unwrap();
    assert!(c.config.forwardings.is_empty());
    assert_eq!(c.waiting_for, vec!["osaka".to_string()]);
    let c = offer(&b.build(), &"osaka".to_string(), &state("osaka", None), &views, &ip_servers(), &nothing_stored()).unwrap();
    assert_eq!(c.config.forwardings.len(), 1);
}

#[test]
fn an_unchanged_config_gets_no_new_revision() {
    let b = two_hop();
    let views = vec![state("osaka", None)];
    let own = desired("osaka", snapshot(4, vec![]));
    let converged = offer(&b.build(), &"osaka".to_string(), &own, &views, &ip_servers(), &nothing_stored()).unwrap();
    let u = stamped_update("osaka".to_string(), &own, converged, "# revision 4".to_string(), 1000);
    assert!(u.desired.is_none(), "byte-identical text is not stamped again");
    assert!(u.derive_error.is_none());
    assert!(!u.clear_failure);
}

#[test]
fn a_changed_config_gets_the_next_revision() {
    let b = two_hop();
    let views = vec![state("osaka", None)];
    let own = desired("osaka", snapshot(4, vec![]));
    let converged = offer(&b.build(), &"osaka".to_string(), &own, &views, &ip_servers(), &nothing_stored()).unwrap();
    let u = stamped_update("osaka".to_string(), &own, converged, "# new text".to_string(), 1000);
    let d = u.desired.expect("a new desired snapshot");
    assert_eq!(d.revision, 5);
    assert_eq!(d.toml, "# new text");
    assert_eq!(d.created_at, 1000);
    assert_eq!(d.forwardings.len(), 1);
    assert!(u.clear_failure);

    let fresh = state("osaka", None);
    let converged = offer(&b.build(), &"osaka".to_string(), &fresh, &views, &ip_servers(), &nothing_stored()).unwrap();
    let u = stamped_update("osaka".to_string(), &fresh, converged, "# first".to_string(), 7);
    assert_eq!(u.desired.unwrap().revision, 1, "every real revision starts at 1");
}

#[test]
fn convergence_errors_have_messages() {
    let e = ConvergeError::ListenerConflict {
        ip: "198.51.100.10".to_string(),
        port: 9443,
        old: ListenProtocol::RelayTcp,
        new: ListenProtocol::Raw,
    };
    assert_eq!(
        e.message(),
        "listener 198.51.100.10:9443 is still referenced as RelayTcp and cannot become Raw; change the port"
    );
    let e = ConvergeError::Snapshot(guru::worker_config::ConfigError::Parse("bad".to_string()));
    assert_eq!(e.message(), "stored snapshot is not valid TOML: parse toml: bad");
}

#[test]
fn a_stream_and_an_ack_promote_desired_to_applied() {
    let mut v = desired("osaka", snapshot(4, vec![]));
    assert!(!v.promote_in_flight(4), "nothing is in flight yet");
    assert!(v.applied.is_none());
    v.promote_desired();
    assert_eq!(v.in_flight.as_ref().unwrap().revision, 4);
    assert!(!v.promote_in_flight(3), "an acknowledgement of another revision changes nothing");
    assert!(v.applied.is_none());
    assert!(v.promote_in_flight(4));
    assert_eq!(v.applied.as_ref().unwrap().revision, 4);
    assert_eq!(v.applied.as_ref().unwrap().toml, "# revision 4");
}
