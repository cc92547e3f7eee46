use guru::agent::{
    ack_action, refresh_key_digest, running_revision_outcome, AccountRole, AckAction, AckConfig,
    AgentIdentity, AgentSignal, AuthConfig, AuthenticateRefreshKey, Identity, IdentityKind,
    RegisterWorker, RunningRevision, ServerWatchState, WatchEntry,
};
use guru::display::socket_text_exec;
use guru::model::{
    CanvasTopology, CanvasUiPosition, EdgeConnectionEntity, EntryConfig, ExitConfig,
    LoadBalanceAggregateConfig, LoadBalanceDistributeConfig, LoadBalanceMode, NodeEntity, NodeSpec,
    NodeWithPorts, PodConfig, PortDirection, PortEntity, PortKind, ProxyProtocolVersion, RelayConfig,
    RelayProtocol, ServerEntity, ServerIpRecordEntity, ServerIpv6Resolve,
};
use guru::net::parse_socket_addr_exec;
use guru::node_edits::{load_balance_count, plan_spec_replacement, port_layout, OrchestrationError};
use guru::services::{
    check_projection, connect_edits, creation_edits, disconnect_edits, require_admin, retire_edits,
    Connect, CreateNode, Disconnect, GcReport, RetireNode,
};
use guru::token::{generate_api_key_secret, generate_refresh_key, generate_session_token, sha256_hex, TOKEN_LEN};
use guru::topology::TopologyEdit;
use guru::wire::{node_spec_from_wire, WireLoadBalanceMode, WireNodeSpec, WireProxyProtocol, WireRelayProtocol};

type PortSpec = (String, PortKind, PortDirection, i64);

fn spec(key: &str, kind: PortKind, direction: PortDirection, position: i64) -> PortSpec {
    (key.to_string(), kind, direction, position)
}

fn pod_ports() -> Vec<PortSpec> {
    vec![
        spec("listen", PortKind::DeriveListen, PortDirection::Output, 0),
        spec("destination", PortKind::DeriveDestination, PortDirection::Input, 1),
    ]
}

fn entry_ports() -> Vec<PortSpec> {
    vec![spec("listen", PortKind::DeriveListen, PortDirection::Input, 0)]
}

fn relay_ports() -> Vec<PortSpec> {
    vec![
        spec("listen", PortKind::DeriveListen, PortDirection::Input, 0),
        spec("destination", PortKind::DeriveDestination, PortDirection::Output, 1),
    ]
}

fn exit_ports() -> Vec<PortSpec> {
    vec![spec("destination", PortKind::DeriveDestination, PortDirection::Output, 0)]
}

fn distribute_ports(members: i64) -> Vec<PortSpec> {
    let mut ports: Vec<PortSpec> = (0..members)
        .map(|i| spec(&format!("member_{i}"), PortKind::DeriveDestination, PortDirection::Input, i))
        .collect();
    ports.push(spec("destination", PortKind::DeriveDestination, PortDirection::Output, members));
    ports
}

fn aggregate_ports(copies: i64) -> Vec<PortSpec> {
    let mut ports = vec![spec("source", PortKind::DeriveDestination, PortDirection::Input, 0)];
    for i in 0..copies {
        ports.push(spec(&format!("copy_{i}"), PortKind::DeriveDestination, PortDirection::Output, i + 1));
    }
    ports
}

/// An in-memory canvas, its rows keyed as `<node>` and `<node>-<port>`.
struct Builder {
    canvas: String,
    servers: Vec<ServerEntity>,
    ips: Vec<ServerIpRecordEntity>,
    nodes: Vec<(String, String, NodeSpec, Vec<PortSpec>)>,
    edges: Vec<(String, String)>,
}

impl Builder {
    fn new(canvas: &str) -> Self {
        Builder { canvas: canvas.to_string(), servers: Vec::new(), ips: Vec::new(), nodes: Vec::new(), edges: Vec::new() }
    }

    fn server(&mut self, key: &str) -> String {
        self.servers.push(ServerEntity {
            id: key.to_string(),
            canvas: self.canvas.clone(),
            name: key.to_string(),
            icon: String::new(),
            comment: String::new(),
            position: CanvasUiPosition { x: 0, y: 0 },
            ipv6_resolve: ServerIpv6Resolve::Tolerated,
            log_level: "info".to_string(),
            desired_revision: 0,
            applied_revision: 0,
            last_apply_error: None,
            current_dynamic_refresh_key: None,
            refresh_key_generation: 0,
            last_seen_at: None,
        });
        key.to_string()
    }

    fn ip(&mut self, key: &str, server: &str, ip: &str) -> String {
        self.ips.push(ServerIpRecordEntity {
            id: key.to_string(),
            server: server.to_string(),
            ip: ip.to_string(),
            country: "jp".to_string(),
        });
        key.to_string()
    }

    fn node(&mut self, key: &str, spec: NodeSpec, ports: Vec<PortSpec>) {
        self.named_node(key, key, spec, ports)
    }

    fn named_node(&mut self, key: &str, name: &str, spec: NodeSpec, ports: Vec<PortSpec>) {
        self.nodes.push((key.to_string(), name.to_string(), spec, ports));
    }

    fn connect(&mut self, source: &str, target: &str) {
        self.edges.push((source.to_string(), target.to_string()));
    }

    fn build(&self) -> CanvasTopology {
        CanvasTopology {
            canvas: self.canvas.clone(),
            servers: self.servers.iter().map(|s| s.duplicate()).collect(),
            ips: self.ips.iter().map(|r| r.duplicate()).collect(),
            nodes: self
                .nodes
                .iter()
                .map(|(key, name, spec, ports)| NodeWithPorts {
                    node: NodeEntity {
                        id: key.clone(),
                        canvas: self.canvas.clone(),
                        name: name.clone(),
                        comment: String::new(),
                        spec: spec.duplicate(),
                        position: CanvasUiPosition { x: 0, y: 0 },
                    },
                    ports: ports
                        .iter()
                        .map(|(port_key, kind, direction, position)| PortEntity {
                            id: format!("{key}-{port_key}"),
                            owner: key.clone(),
                            kind: *kind,
                            direction: *direction,
                            key: port_key.clone(),
                            position: *position,
                        })
                        .collect(),
                })
                .collect(),
            edges: self
                .edges
                .iter()
                .map(|(s, t)| EdgeConnectionEntity { id: format!("{s}->{t}"), source: s.clone(), target: t.clone() })
                .collect(),
        }
    }
}

fn exit(dest: &str) -> NodeSpec {
    NodeSpec::Exit(ExitConfig { destination: dest.to_string(), pass_proxy_protocol: None })
}

fn entry(pp: Option<ProxyProtocolVersion>) -> NodeSpec {
    NodeSpec::Entry(EntryConfig { receive_proxy_protocol: pp, tls: None })
}

fn pod(ip: &str, port: u16) -> NodeSpec {
    NodeSpec::Pod(PodConfig { ip: ip.to_string(), port })
}

fn relay(protocol: RelayProtocol) -> NodeSpec {
    NodeSpec::Relay(RelayConfig { protocol, override_ip_address: None, override_port: None })
}

fn distribute(mode: LoadBalanceMode) -> NodeSpec {
    NodeSpec::LoadBalanceDistribute(LoadBalanceDistributeConfig { mode })
}


fn valid_builder() -> Builder {
    let mut b = Builder::new("prod");
    let s = b.server("tokyo");
    let ip = b.ip("ip1", &s, "203.0.113.10");
    b.node("pod", pod(&ip, 443), pod_ports());
    b.node("entry", entry(None), entry_ports());
    b.node("exit", exit("10.0.0.5:8080"), exit_ports());
    b.connect("pod-listen", "entry-listen");
    b.connect("exit-destination", "pod-destination");
    b
}

fn human(role: AccountRole) -> Identity {
    Identity { account_id: "alice".to_string(), role, kind: IdentityKind::Session }
}

// Credentials.

#[test]
fn credentials_have_their_prefix_and_length() {
    let session = generate_session_token();
    assert_eq!(session.len(), TOKEN_LEN);
    assert!(session.chars().all(|c| c.is_ascii_alphanumeric()));
    let api = generate_api_key_secret();
    assert!(api.starts_with("gk_"));
    assert_eq!(api.len(), 3 + TOKEN_LEN);
    assert!(api[3..].chars().all(|c| c.is_ascii_alphanumeric()));
    let refresh = generate_refresh_key();
    assert!(refresh.starts_with("gr_"));
    assert_eq!(refresh.len(), 3 + TOKEN_LEN);
    assert_ne!(generate_refresh_key(), refresh, "two fresh keys differ");
}

#[test]
fn sha256_hex_matches_the_standard_vectors() {
    assert_eq!(sha256_hex(""), "e3b0c44298fc1c149afbf4c8996fb92427ae41e4649b934ca495991b7852b855");
    assert_eq!(sha256_hex("abc"), "ba7816bf8f01cfea414140de5dae2223b00361a396177a9cb410ff61f20015ad");
}

#[test]
fn a_refresh_key_is_looked_up_by_its_digest() {
    let key = AuthenticateRefreshKey { secret: "abc".to_string() };
    assert_eq!(refresh_key_digest(&key), sha256_hex("abc"));
    assert_ne!(refresh_key_digest(&key), "abc");
}

// Who may do what.

#[test]
fn only_admins_may_skip_validation() {
    assert!(require_admin(&human(AccountRole::Admin)).is_ok());
    assert!(matches!(require_admin(&human(AccountRole::Maintainer)), Err(OrchestrationError::PermissionDenied)));
    assert!(matches!(require_admin(&human(AccountRole::Observer)), Err(OrchestrationError::PermissionDenied)));
}

#[test]
fn self_service_needs_a_human_session() {
    assert!(human(AccountRole::Observer).require_human().is_ok());
    let machine = Identity { account_id: "bot".to_string(), role: AccountRole::Admin, kind: IdentityKind::ApiKey };
    assert!(matches!(machine.require_human(), Err(OrchestrationError::PermissionDenied)));
    assert!(machine.is_admin());
}

#[test]
fn sessions_idle_out_after_a_week() {
    assert_eq!(AuthConfig::default().session_idle_ttl_secs, 604_800);
}

// Worker registration and acknowledgement.

#[test]
fn registration_reports_the_running_revision() {
    let reg = |rev: i64| RegisterWorker { actor: human(AccountRole::Admin), server_id: "tokyo".to_string(), running_revision: rev };
    assert!(matches!(running_revision_outcome(&reg(0), true), RunningRevision::Nothing));
    assert!(matches!(running_revision_outcome(&reg(7), true), RunningRevision::Applied(7)));
    match running_revision_outcome(&reg(7), false) {
        RunningRevision::Unknown(m) => assert_eq!(m, "running revision 7 unknown"),
        other => panic!("expected Unknown, got {other:?}"),
    }
}

#[test]
fn a_stale_session_cannot_acknowledge() {
    let ack = |generation: i64, error: Option<&str>| AckConfig {
        agent: AgentIdentity { server: "tokyo".to_string(), generation },
        revision: 5,
        error: error.map(|e| e.to_string()),
    };
    assert!(matches!(ack_action(ack(1, None), 2), Err(OrchestrationError::PermissionDenied)));
    assert!(matches!(ack_action(ack(2, None), 2), Ok(AckAction::MarkApplied(5))));
    match ack_action(ack(2, Some("boom")), 2) {
        Ok(AckAction::RecordError(m)) => assert_eq!(m, "boom"),
        other => panic!("expected RecordError, got {other:?}"),
    }
}

#[test]
fn watch_entries_announce_only_newer_revisions() {
    let mut e = WatchEntry::subscribe(None, 1, 3);
    assert_eq!(e, WatchEntry { subscribers: 1, last_revision: 3, generation: 1 });
    let state = |rev: i64, generation: i64| ServerWatchState { id: "tokyo".to_string(), desired_revision: rev, refresh_key_generation: generation };
    assert_eq!(e.publish(&state(2, 1)), None);
    assert_eq!(e.publish(&state(3, 1)), None);
    assert_eq!(e.publish(&state(4, 1)), Some(AgentSignal::Revision(4)));
    assert_eq!(e.last_revision, 4);
    assert_eq!(e.publish(&state(4, 2)), Some(AgentSignal::Superseded));
    assert_eq!(e.generation, 2);
    assert_eq!(e.last_revision, 4);
}

#[test]
fn a_newer_registration_supersedes_older_streams() {
    let mut e = WatchEntry::subscribe(None, 1, 0);
    e = WatchEntry::subscribe(Some(e), 1, 2);
    assert_eq!(e.subscribers, 2);
    assert_eq!(e.last_revision, 2);
    assert_eq!(e.supersede(1), None);
    assert_eq!(e.supersede(2), Some(AgentSignal::Superseded));
    assert_eq!(e.generation, 2);
    assert!(!e.unsubscribe());
    assert!(e.unsubscribe());
    assert!(e.unsubscribe(), "an empty entry stays empty");
    assert_eq!(e.subscribers, 0);
}

// Socket text.

#[test]
fn socket_text_follows_the_standard_forms() {
    let t = |s: &str| socket_text_exec(&parse_socket_addr_exec(s).unwrap());
    assert_eq!(t("203.0.113.10:443"), "203.0.113.10:443");
    assert_eq!(t("[::1]:9000"), "[::1]:9000");
    assert_eq!(t("[2001:db8:0:0:1:0:0:1]:80"), "[2001:db8::1:0:0:1]:80");
    assert_eq!(t("[2001:0db8::0001]:8080"), "[2001:db8::1]:8080");
    assert_eq!(t("[::ffff:192.0.2.1]:1"), "[::ffff:192.0.2.1]:1");
    assert_eq!(t("[fe80::1%2]:22"), "[fe80::1%2]:22");
    assert_eq!(t("[1:2:3:4:5:6:7:8]:1"), "[1:2:3:4:5:6:7:8]:1");
    assert_eq!(t("[1:0:3:4:5:6:7:8]:1"), "[1:0:3:4:5:6:7:8]:1");
}

// Node edits.

#[test]
fn port_layouts_follow_the_spec() {
    let layout = port_layout(&NodeSpec::LoadBalanceDistribute(LoadBalanceDistributeConfig { mode: LoadBalanceMode::Random }), 3).unwrap();
    let keys: Vec<(&str, i64)> = layout.iter().map(|p| (p.key.as_str(), p.position)).collect();
    assert_eq!(keys, [("member_0", 0), ("member_1", 1), ("member_2", 2), ("destination", 3)]);
    assert!(layout[..3].iter().all(|p| p.direction == PortDirection::Input));
    assert_eq!(layout[3].direction, PortDirection::Output);

    let layout = port_layout(&NodeSpec::LoadBalanceAggregate(LoadBalanceAggregateConfig {}), 2).unwrap();
    let keys: Vec<(&str, i64)> = layout.iter().map(|p| (p.key.as_str(), p.position)).collect();
    assert_eq!(keys, [("source", 0), ("copy_0", 1), ("copy_1", 2)]);

    let layout = port_layout(&pod("ip1", 443), 0).unwrap();
    let keys: Vec<&str> = layout.iter().map(|p| p.key.as_str()).collect();
    assert_eq!(keys, ["listen", "destination"]);
}

#[test]
fn a_load_balancer_needs_two_members() {
    assert_eq!(load_balance_count(2).unwrap(), 2);
    match load_balance_count(1) {
        Err(OrchestrationError::Invalid(m)) => assert_eq!(m, "load balance nodes need at least 2 members"),
        other => panic!("expected Invalid, got {other:?}"),
    }
    assert!(port_layout(&NodeSpec::LoadBalanceDistribute(LoadBalanceDistributeConfig { mode: LoadBalanceMode::Random }), 1).is_err());
}

#[test]
fn canvas_import_has_no_layout() {
    match port_layout(&NodeSpec::CanvasImport(guru::model::CanvasImportConfig {}), 0) {
        Err(OrchestrationError::Invalid(m)) => assert_eq!(m, "canvas import/export is not supported yet"),
        other => panic!("expected Invalid, got {other:?}"),
    }
}

#[test]
fn replacing_a_spec_keeps_port_ids_and_carries_edges() {
    let topology = valid_builder().build();
    let old = topology.nodes[0].duplicate();
    let (ports, edits) = plan_spec_replacement(&old, &pod("ip1", 8443), 0, &topology).unwrap();
    assert_eq!(ports.len(), 2);
    assert_eq!(edits.len(), 4, "retire, add back, and both edges re-attached");
    match &edits[0] {
        TopologyEdit::RetireNode { node } => assert_eq!(node, "pod"),
        other => panic!("expected RetireNode, got {other:?}"),
    }
    match &edits[1] {
        TopologyEdit::AddNode { node, ports } => {
            assert_eq!(node.id, "pod");
            assert!(matches!(&node.spec, NodeSpec::Pod(PodConfig { port: 8443, .. })));
            let ids: Vec<&str> = ports.iter().map(|p| p.id.as_str()).collect();
            assert_eq!(ids, ["pod-listen", "pod-destination"], "the ports keep their ids");
        }
        other => panic!("expected AddNode, got {other:?}"),
    }
    assert!(matches!(&edits[2], TopologyEdit::AddEdge { .. }));
    let projected = topology.project(&edits);
    assert_eq!(projected.nodes.len(), 3);
    assert_eq!(projected.edges.len(), 2);
    assert!(guru::analysis::ensure_valid(&projected).is_ok());
}

#[test]
fn a_spec_cannot_change_kind() {
    let topology = valid_builder().build();
    let old = topology.nodes[0].duplicate();
    match plan_spec_replacement(&old, &exit("10.0.0.1:1"), 0, &topology) {
        Err(OrchestrationError::Invalid(m)) => assert_eq!(m, "spec kind cannot change; create a new node"),
        other => panic!("expected Invalid, got {other:?}"),
    }
}

#[test]
fn shrinking_a_load_balancer_under_its_edges_is_a_conflict() {
    let mut b = valid_builder();
    b.node("lb", NodeSpec::LoadBalanceDistribute(LoadBalanceDistributeConfig { mode: LoadBalanceMode::RoundRobin }), distribute_ports(3));
    b.node("exit_c", exit("10.0.0.7:8080"), exit_ports());
    b.connect("exit_c-destination", "lb-member_2");
    let topology = b.build();
    let old = topology.nodes[3].duplicate();
    let spec = NodeSpec::LoadBalanceDistribute(LoadBalanceDistributeConfig { mode: LoadBalanceMode::RoundRobin });
    match plan_spec_replacement(&old, &spec, 2, &topology) {
        Err(OrchestrationError::Conflict(m)) => assert_eq!(m, "disconnect edges on removed ports first"),
        other => panic!("expected Conflict, got {other:?}"),
    }
    assert!(plan_spec_replacement(&old, &spec, 4, &topology).is_ok());
}

// Requests checked against their projection.

#[test]
fn a_node_creation_is_validated_with_placeholder_rows() {
    let input = CreateNode {
        actor: human(AccountRole::Maintainer),
        canvas: "prod".to_string(),
        name: "exit2".to_string(),
        comment: String::new(),
        spec: exit("10.0.0.6:8080"),
        position: CanvasUiPosition { x: 1, y: 2 },
        item_count: 0,
    };
    let (ports, edits) = creation_edits(&input).unwrap();
    assert_eq!(ports.len(), 1);
    match &edits[0] {
        TopologyEdit::AddNode { node, ports } => {
            assert_eq!(node.id, "pending-node");
            assert_eq!(node.name, "exit2");
            assert_eq!(ports[0].id, "pending-port-0");
            assert_eq!(ports[0].owner, "pending-node");
        }
        other => panic!("expected AddNode, got {other:?}"),
    }
    let topology = valid_builder().build();
    let projected = check_projection(&topology, &edits).unwrap();
    assert_eq!(projected.nodes.len(), 4);
}

#[test]
fn connecting_an_occupied_port_is_refused() {
    let topology = valid_builder().build();
    let mut b = valid_builder();
    b.node("exit2", exit("10.0.0.6:8080"), exit_ports());
    let with_exit2 = b.build();
    let edits = connect_edits(&Connect {
        actor: human(AccountRole::Maintainer),
        output_port: "exit2-destination".to_string(),
        input_port: "pod-destination".to_string(),
    });
    match &edits[0] {
        TopologyEdit::AddEdge { edge } => assert_eq!(edge.id, "pending-0"),
        other => panic!("expected AddEdge, got {other:?}"),
    }
    assert!(matches!(check_projection(&with_exit2, &edits), Err(OrchestrationError::Topology(_))));
    let fine = connect_edits(&Connect {
        actor: human(AccountRole::Maintainer),
        output_port: "exit-destination".to_string(),
        input_port: "pod-destination".to_string(),
    });
    // The same edge twice oversubscribes both ports.
    assert!(check_projection(&topology, &fine).is_err());
}

#[test]
fn retiring_leaves_warnings_only() {
    let topology = valid_builder().build();
    let edits = retire_edits(&RetireNode { actor: human(AccountRole::Maintainer), node: "exit".to_string() });
    let projected = check_projection(&topology, &edits).unwrap();
    assert_eq!(projected.edges.len(), 1);
    let edits = disconnect_edits(&Disconnect { actor: human(AccountRole::Maintainer), edge: "pod-listen->entry-listen".to_string() });
    let projected = check_projection(&topology, &edits).unwrap();
    assert_eq!(projected.edges.len(), 1);
}

#[test]
fn an_empty_collection_is_not_reported() {
    assert!(!GcReport { nodes: 0, edges: 0 }.collected_anything());
    assert!(GcReport { nodes: 1, edges: 0 }.collected_anything());
    assert!(GcReport { nodes: 0, edges: 2 }.collected_anything());
}

// Node specs from the wire.

#[test]
fn a_wire_spec_is_required_and_ports_must_fit() {
    match node_spec_from_wire(None) {
        Err(OrchestrationError::Invalid(m)) => assert_eq!(m, "spec is required"),
        other => panic!("expected Invalid, got {other:?}"),
    }
    match node_spec_from_wire(Some(WireNodeSpec::Pod { ip_record_id: "ip1".to_string(), port: 70000 })) {
        Err(OrchestrationError::Invalid(m)) => assert_eq!(m, "port out of range"),
        other => panic!("expected Invalid, got {other:?}"),
    }
    match node_spec_from_wire(Some(WireNodeSpec::Pod { ip_record_id: "ip1".to_string(), port: 443 })) {
        Ok(NodeSpec::Pod(PodConfig { ip, port })) => {
            assert_eq!(ip, "ip1");
            assert_eq!(port, 443);
        }
        other => panic!("expected a pod, got {other:?}"),
    }
}

#[test]
fn wire_defaults_fill_unspecified_fields() {
    match node_spec_from_wire(Some(WireNodeSpec::Relay {
        protocol: WireRelayProtocol::Unspecified,
        override_ip_address: String::new(),
        override_port: 0,
    })) {
        Ok(NodeSpec::Relay(c)) => {
            assert_eq!(c.protocol, RelayProtocol::TcpRaw);
            assert!(c.override_ip_address.is_none());
            assert!(c.override_port.is_none());
        }
        other => panic!("expected a relay, got {other:?}"),
    }
    match node_spec_from_wire(Some(WireNodeSpec::Relay {
        protocol: WireRelayProtocol::Quic,
        override_ip_address: "10.0.0.1".to_string(),
        override_port: 9443,
    })) {
        Ok(NodeSpec::Relay(c)) => {
            assert_eq!(c.protocol, RelayProtocol::Quic);
            assert_eq!(c.override_ip_address.as_deref(), Some("10.0.0.1"));
            assert_eq!(c.override_port, Some(9443));
        }
        other => panic!("expected a relay, got {other:?}"),
    }
    assert!(node_spec_from_wire(Some(WireNodeSpec::Relay {
        protocol: WireRelayProtocol::TcpRaw,
        override_ip_address: String::new(),
        override_port: 65536,
    }))
    .is_err());
    match node_spec_from_wire(Some(WireNodeSpec::LoadBalanceDistribute { mode: WireLoadBalanceMode::Unspecified })) {
        Ok(NodeSpec::LoadBalanceDistribute(c)) => assert_eq!(c.mode, LoadBalanceMode::RoundRobin),
        other => panic!("expected a load balancer, got {other:?}"),
    }
    match node_spec_from_wire(Some(WireNodeSpec::Exit {
        destination: "10.0.0.5:8080".to_string(),
        pass_proxy_protocol: WireProxyProtocol::V2,
    })) {
        Ok(NodeSpec::Exit(c)) => assert_eq!(c.pass_proxy_protocol, Some(ProxyProtocolVersion::V2)),
        other => panic!("expected an exit, got {other:?}"),
    }
}
