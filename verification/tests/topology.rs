use guru::analysis::{analyze, ensure_valid};
use guru::cycles::check_cycles;
use guru::model::{
    CanvasImportConfig, CanvasTopology, CanvasUiPosition, EdgeConnectionEntity, EntryConfig,
    ExitConfig, LoadBalanceAggregateConfig, LoadBalanceDistributeConfig, LoadBalanceMode,
    NodeEntity, NodeSpec, NodeWithPorts, PodConfig, PortDirection, PortEntity, PortKind,
    ProxyProtocolVersion, RelayConfig, RelayProtocol, ServerEntity, ServerIpRecordEntity,
    ServerIpv6Resolve,
};
use guru::topology::{ProblemKind, ProblemSeverity, TopologyEdit, TopologyProblem};

type PortSpec = (String, PortKind, PortDirection, i64);

fn spec(key: &str, kind: PortKind, direction: PortDirection, position: i64) -> PortSpec {
    (key.to_string(), kind, direction, position)
}

fn pod_ports() -> Vec<PortSpec> {
    vec![
        spec("listen", PortKind::DeriveListen, PortDirection::Output, 0),
        spec("destination", PortKind::DeriveDestination, PortDirection::Input, 1),
    ]
}

fn entry_ports() -> Vec<PortSpec> {
    vec![spec("listen", PortKind::DeriveListen, PortDirection::Input, 0)]
}

fn relay_ports() -> Vec<PortSpec> {
    vec![
        spec("listen", PortKind::DeriveListen, PortDirection::Input, 0),
        spec("destination", PortKind::DeriveDestination, PortDirection::Output, 1),
    ]
}

fn exit_ports() -> Vec<PortSpec> {
    vec![spec("destination", PortKind::DeriveDestination, PortDirection::Output, 0)]
}

fn distribute_ports(members: i64) -> Vec<PortSpec> {
    let mut ports: Vec<PortSpec> = (0..members)
        .map(|i| spec(&format!("member_{i}"), PortKind::DeriveDestination, PortDirection::Input, i))
        .collect();
    ports.push(spec("destination", PortKind::DeriveDestination, PortDirection::Output, members));
    ports
}

fn aggregate_ports(copies: i64) -> Vec<PortSpec> {
    let mut ports = vec![spec("source", PortKind::DeriveDestination, PortDirection::Input, 0)];
    for i in 0..copies {
        ports.push(spec(&format!("copy_{i}"), PortKind::DeriveDestination, PortDirection::Output, i + 1));
    }
    ports
}

/// An in-memory canvas, its rows keyed as `<node>` and `<node>-<port>`.
struct Builder {
    canvas: String,
    servers: Vec<ServerEntity>,
    ips: Vec<ServerIpRecordEntity>,
    nodes: Vec<(String, String, NodeSpec, Vec<PortSpec>)>,
    edges: Vec<(String, String)>,
}

impl Builder {
    fn new(canvas: &str) -> Self {
        Builder { canvas: canvas.to_string(), servers: Vec::new(), ips: Vec::new(), nodes: Vec::new(), edges: Vec::new() }
    }

    fn server(&mut self, key: &str) -> String {
        self.servers.push(ServerEntity {
            id: key.to_string(),
            canvas: self.canvas.clone(),
            name: key.to_string(),
            icon: String::new(),
            comment: String::new(),
            position: CanvasUiPosition { x: 0, y: 0 },
            ipv6_resolve: ServerIpv6Resolve::Tolerated,
            log_level: "info".to_string(),
            desired_revision: 0,
            applied_revision: 0,
            last_apply_error: None,
            current_dynamic_refresh_key: None,
            refresh_key_generation: 0,
            last_seen_at: None,
        });
        key.to_string()
    }

    fn ip(&mut self, key: &str, server: &str, ip: &str) -> String {
        self.ips.push(ServerIpRecordEntity {
            id: key.to_string(),
            server: server.to_string(),
            ip: ip.to_string(),
            country: "jp".to_string(),
        });
        key.to_string()
    }

    fn node(&mut self, key: &str, spec: NodeSpec, ports: Vec<PortSpec>) {
        self.named_node(key, key, spec, ports)
    }

    fn named_node(&mut self, key: &str, name: &str, spec: NodeSpec, ports: Vec<PortSpec>) {
        self.nodes.push((key.to_string(), name.to_string(), spec, ports));
    }

    fn connect(&mut self, source: &str, target: &str) {
        self.edges.push((source.to_string(), target.to_string()));
    }

    fn build(&self) -> CanvasTopology {
        CanvasTopology {
            canvas: self.canvas.clone(),
            servers: self.servers.iter().map(|s| s.duplicate()).collect(),
            ips: self.ips.iter().map(|r| r.duplicate()).collect(),
            nodes: self
                .nodes
                .iter()
                .map(|(key, name, spec, ports)| NodeWithPorts {
                    node: NodeEntity {
                        id: key.clone(),
                        canvas: self.canvas.clone(),
                        name: name.clone(),
                        comment: String::new(),
                        spec: spec.duplicate(),
                        position: CanvasUiPosition { x: 0, y: 0 },
                    },
                    ports: ports
                        .iter()
                        .map(|(port_key, kind, direction, position)| PortEntity {
                            id: format!("{key}-{port_key}"),
                            owner: key.clone(),
                            kind: *kind,
                            direction: *direction,
                            key: port_key.clone(),
                            position: *position,
                        })
                        .collect(),
                })
                .collect(),
            edges: self
                .edges
                .iter()
                .map(|(s, t)| EdgeConnectionEntity { id: format!("{s}->{t}"), source: s.clone(), target: t.clone() })
                .collect(),
        }
    }
}

fn kinds(problems: &[TopologyProblem], severity: ProblemSeverity) -> Vec<ProblemKind> {
    problems.iter().filter(|p| p.severity == severity).map(|p| p.kind).collect()
}

fn errors(problems: &[TopologyProblem]) -> Vec<ProblemKind> {
    kinds(problems, ProblemSeverity::Error)
}

fn warnings(problems: &[TopologyProblem]) -> Vec<ProblemKind> {
    kinds(problems, ProblemSeverity::Warning)
}

fn exit(dest: &str) -> NodeSpec {
    NodeSpec::Exit(ExitConfig { destination: dest.to_string(), pass_proxy_protocol: None })
}

fn entry(pp: Option<ProxyProtocolVersion>) -> NodeSpec {
    NodeSpec::Entry(EntryConfig { receive_proxy_protocol: pp, tls: None })
}

fn pod(ip: &str, port: u16) -> NodeSpec {
    NodeSpec::Pod(PodConfig { ip: ip.to_string(), port })
}

fn relay(protocol: RelayProtocol) -> NodeSpec {
    NodeSpec::Relay(RelayConfig { protocol, override_ip_address: None, override_port: None })
}

fn distribute(mode: LoadBalanceMode) -> NodeSpec {
    NodeSpec::LoadBalanceDistribute(LoadBalanceDistributeConfig { mode })
}

/// pod -> entry, exit -> pod: the smallest valid canvas.
fn valid_builder() -> Builder {
    let mut b = Builder::new("prod");
    let s = b.server("tokyo");
    let ip = b.ip("ip1", &s, "203.0.113.10");
    b.node("pod", pod(&ip, 443), pod_ports());
    b.node("entry", entry(None), entry_ports());
    b.node("exit", exit("10.0.0.5:8080"), exit_ports());
    b.connect("pod-listen", "entry-listen");
    b.connect("exit-destination", "pod-destination");
    b
}

#[test]
fn a_valid_canvas_has_no_problems() {
    let topology = valid_builder().build();
    let problems = analyze(&topology);
    assert!(problems.is_empty(), "{problems:?}");
    assert!(ensure_valid(&topology).is_ok());
}

#[test]
fn edge_direction_must_be_output_to_input() {
    let mut b = Builder::new("prod");
    let s = b.server("tokyo");
    let ip = b.ip("ip1", &s, "203.0.113.10");
    b.node("pod", pod(&ip, 443), pod_ports());
    b.node("entry", entry(None), entry_ports());
    b.node("exit", exit("10.0.0.5:8080"), exit_ports());
    // Both endpoints are inputs.
    b.connect("entry-listen", "pod-destination");
    let problems = analyze(&b.build());
    assert!(errors(&problems).contains(&ProblemKind::EdgeDirectionInvalid));
}

#[test]
fn edges_must_join_ports_of_the_same_kind() {
    let mut b = Builder::new("prod");
    let s = b.server("tokyo");
    let ip = b.ip("ip1", &s, "203.0.113.10");
    b.node("pod", pod(&ip, 443), pod_ports());
    b.node("pod2", pod(&ip, 8443), pod_ports());
    // listen output -> destination input
    b.connect("pod-listen", "pod2-destination");
    let problems = analyze(&b.build());
    assert!(errors(&problems).contains(&ProblemKind::PortKindMismatch));
}

#[test]
fn a_node_cannot_connect_to_itself() {
    let mut b = Builder::new("prod");
    b.node("lb", distribute(LoadBalanceMode::RoundRobin), distribute_ports(2));
    b.connect("lb-destination", "lb-member_0");
    let problems = analyze(&b.build());
    assert!(errors(&problems).contains(&ProblemKind::EdgeSelfNode));
}

#[test]
fn edges_may_not_cross_canvases() {
    let b = valid_builder();
    let mut topology = b.build();
    topology.nodes[2].node.canvas = "other".to_string();
    let problems = analyze(&topology);
    assert!(errors(&problems).contains(&ProblemKind::EdgeCrossCanvas));
}

#[test]
fn a_port_carries_at_most_one_edge() {
    let mut b = valid_builder();
    b.node("exit2", exit("10.0.0.6:8080"), exit_ports());
    b.connect("exit2-destination", "pod-destination");
    let problems = analyze(&b.build());
    assert!(errors(&problems).contains(&ProblemKind::PortOversubscribed));
}

#[test]
fn a_node_must_have_the_ports_its_spec_requires() {
    let mut b = Builder::new("prod");
    let s = b.server("tokyo");
    let ip = b.ip("ip1", &s, "203.0.113.10");
    // A pod without its destination input.
    b.node(
        "pod",
        pod(&ip, 443),
        vec![("listen".to_string(), PortKind::DeriveListen, PortDirection::Output, 0)],
    );
    let problems = analyze(&b.build());
    assert!(errors(&problems).contains(&ProblemKind::PortShapeInvalid));
}

#[test]
fn canvas_import_and_export_are_rejected() {
    let mut b = Builder::new("prod");
    b.node("import", NodeSpec::CanvasImport(CanvasImportConfig {}), vec![]);
    let problems = analyze(&b.build());
    assert_eq!(errors(&problems), vec![ProblemKind::UnsupportedSpec]);
}

#[test]
fn a_pod_must_reference_an_ip_of_this_canvas() {
    let mut b = Builder::new("prod");
    let s = b.server("tokyo");
    b.ip("ip1", &s, "203.0.113.10");
    b.node("pod", pod("foreign", 443), pod_ports());
    b.node("entry", entry(None), entry_ports());
    b.node("exit", exit("10.0.0.5:8080"), exit_ports());
    b.connect("pod-listen", "entry-listen");
    b.connect("exit-destination", "pod-destination");
    let problems = analyze(&b.build());
    assert_eq!(errors(&problems), vec![ProblemKind::PodIpForeign]);
}

#[test]
fn an_exit_destination_must_be_host_port() {
    let mut b = Builder::new("prod");
    let s = b.server("tokyo");
    let ip = b.ip("ip1", &s, "203.0.113.10");
    b.node("pod", pod(&ip, 443), pod_ports());
    b.node("entry", entry(None), entry_ports());
    b.node("exit", exit("no-port-here"), exit_ports());
    b.connect("pod-listen", "entry-listen");
    b.connect("exit-destination", "pod-destination");
    let problems = analyze(&b.build());
    assert_eq!(errors(&problems), vec![ProblemKind::ExitDestinationInvalid]);
}

#[test]
fn two_pods_may_not_share_a_listen_address() {
    let mut b = Builder::new("prod");
    let s = b.server("tokyo");
    let ip = b.ip("ip1", &s, "203.0.113.10");
    for tag in ["pod_a", "pod_b"] {
        b.node(tag, pod(&ip, 443), pod_ports());
        b.named_node(&format!("{tag}_entry"), &format!("{tag}_entry"), entry(None), entry_ports());
        b.named_node(&format!("{tag}_exit"), &format!("{tag}_exit"), exit("10.0.0.5:8080"), exit_ports());
        b.connect(&format!("{tag}-listen"), &format!("{tag}_entry-listen"));
        b.connect(&format!("{tag}_exit-destination"), &format!("{tag}-destination"));
    }
    let problems = analyze(&b.build());
    assert_eq!(errors(&problems), vec![ProblemKind::DuplicateListen]);
}

#[test]
fn a_relay_loop_is_a_cycle() {
    let mut b = Builder::new("prod");
    let s = b.server("tokyo");
    let ip = b.ip("ip1", &s, "203.0.113.10");
    b.node("pod", pod(&ip, 443), pod_ports());
    b.node("relay", relay(RelayProtocol::TcpRaw), relay_ports());
    // The relay dials the very pod it feeds.
    b.connect("pod-listen", "relay-listen");
    b.connect("relay-destination", "pod-destination");
    let problems = analyze(&b.build());
    assert!(errors(&problems).contains(&ProblemKind::Cycle), "{problems:?}");
}

#[test]
fn ip_hash_needs_the_client_address() {
    let mut b = Builder::new("prod");
    let s = b.server("tokyo");
    let ip = b.ip("ip1", &s, "203.0.113.10");
    b.node("pod", pod(&ip, 443), pod_ports());
    b.node("entry", entry(None), entry_ports());
    b.node("lb", distribute(LoadBalanceMode::IpHash), distribute_ports(2));
    b.node("exit_a", exit("10.0.0.5:8080"), exit_ports());
    b.node("exit_b", exit("10.0.0.6:8080"), exit_ports());
    b.connect("pod-listen", "entry-listen");
    b.connect("lb-destination", "pod-destination");
    b.connect("exit_a-destination", "lb-member_0");
    b.connect("exit_b-destination", "lb-member_1");
    let problems = analyze(&b.build());
    assert_eq!(errors(&problems), vec![ProblemKind::IpHashWithoutClientIp]);

    // With PROXY protocol on the entry the client address is known again.
    let mut ok = Builder::new("prod");
    let s = ok.server("tokyo");
    let ip = ok.ip("ip1", &s, "203.0.113.10");
    ok.node("pod", pod(&ip, 443), pod_ports());
    ok.node("entry", entry(Some(ProxyProtocolVersion::V2)), entry_ports());
    ok.node("lb", distribute(LoadBalanceMode::IpHash), distribute_ports(2));
    ok.node("exit_a", exit("10.0.0.5:8080"), exit_ports());
    ok.node("exit_b", exit("10.0.0.6:8080"), exit_ports());
    ok.connect("pod-listen", "entry-listen");
    ok.connect("lb-destination", "pod-destination");
    ok.connect("exit_a-destination", "lb-member_0");
    ok.connect("exit_b-destination", "lb-member_1");
    assert!(errors(&analyze(&ok.build())).is_empty());
}

#[test]
fn ip_hash_behind_an_aggregate_is_still_reachable() {
    let mut b = Builder::new("prod");
    let s = b.server("tokyo");
    let ip = b.ip("ip1", &s, "203.0.113.10");
    b.node("pod", pod(&ip, 443), pod_ports());
    b.node("entry", entry(None), entry_ports());
    b.node("agg", NodeSpec::LoadBalanceAggregate(LoadBalanceAggregateConfig {}), aggregate_ports(2));
    b.node("lb", distribute(LoadBalanceMode::IpHash), distribute_ports(2));
    b.node("exit_a", exit("10.0.0.5:8080"), exit_ports());
    b.node("exit_b", exit("10.0.0.6:8080"), exit_ports());
    b.connect("pod-listen", "entry-listen");
    b.connect("agg-copy_0", "pod-destination");
    b.connect("lb-destination", "agg-source");
    b.connect("exit_a-destination", "lb-member_0");
    b.connect("exit_b-destination", "lb-member_1");
    let problems = analyze(&b.build());
    assert!(errors(&problems).contains(&ProblemKind::IpHashWithoutClientIp));
}

#[test]
fn an_unconnected_pod_port_is_a_warning() {
    let mut b = Builder::new("prod");
    let s = b.server("tokyo");
    let ip = b.ip("ip1", &s, "203.0.113.10");
    b.node("pod", pod(&ip, 443), pod_ports());
    let topology = b.build();
    let problems = analyze(&topology);
    assert!(errors(&problems).is_empty(), "{problems:?}");
    assert_eq!(warnings(&problems), vec![ProblemKind::PodPortUnconnected]);
    assert!(ensure_valid(&topology).is_ok(), "warnings never block a write");
}

#[test]
fn a_relay_hopping_within_one_server_is_a_warning() {
    let mut b = Builder::new("prod");
    let s = b.server("tokyo");
    let ip = b.ip("ip1", &s, "203.0.113.10");
    b.node("pod_in", pod(&ip, 443), pod_ports());
    b.node("pod_out", pod(&ip, 8443), pod_ports());
    b.node("entry", entry(None), entry_ports());
    b.node("relay", relay(RelayProtocol::TcpRaw), relay_ports());
    b.node("exit", exit("10.0.0.5:8080"), exit_ports());
    b.connect("pod_in-listen", "relay-listen");
    b.connect("relay-destination", "pod_out-destination");
    b.connect("pod_out-listen", "entry-listen");
    b.connect("exit-destination", "pod_in-destination");
    let problems = analyze(&b.build());
    assert!(errors(&problems).is_empty(), "{problems:?}");
    assert!(warnings(&problems).contains(&ProblemKind::RelaySameServer));
}

#[test]
fn a_single_member_load_balancer_is_a_warning() {
    let mut b = Builder::new("prod");
    let s = b.server("tokyo");
    let ip = b.ip("ip1", &s, "203.0.113.10");
    b.node("pod", pod(&ip, 443), pod_ports());
    b.node("entry", entry(None), entry_ports());
    b.node("lb", distribute(LoadBalanceMode::RoundRobin), distribute_ports(2));
    b.node("exit_a", exit("10.0.0.5:8080"), exit_ports());
    b.connect("pod-listen", "entry-listen");
    b.connect("lb-destination", "pod-destination");
    b.connect("exit_a-destination", "lb-member_0");
    let problems = analyze(&b.build());
    assert!(errors(&problems).is_empty(), "{problems:?}");
    assert!(warnings(&problems).contains(&ProblemKind::DistributeSingleMember));
}

#[test]
fn projection_validates_a_change_before_it_is_written() {
    let b = valid_builder();
    let topology = b.build();

    // Retiring the exit leaves the pod's destination unconnected: a warning, not an error.
    let exit_id = topology.nodes[2].node.id.clone();
    let projected = topology.project(&vec![TopologyEdit::RetireNode { node: exit_id }]);
    assert_eq!(projected.nodes.len(), 2);
    assert_eq!(projected.edges.len(), 1, "the exit's edge went with it");
    assert!(ensure_valid(&projected).is_ok());

    // Adding a second edge into an occupied port is rejected before writing.
    let extra = EdgeConnectionEntity {
        id: "pending-0".to_string(),
        source: "exit-destination".to_string(),
        target: "pod-destination".to_string(),
    };
    let projected = topology.project(&vec![TopologyEdit::AddEdge { edge: extra }]);
    let err = ensure_valid(&projected).expect_err("oversubscribed port must be rejected");
    assert_eq!(err.first.kind, ProblemKind::PortOversubscribed);
}

// Beyond the scenarios above.

#[test]
fn an_acyclic_canvas_reports_no_cycle() {
    assert!(check_cycles(&valid_builder().build()).is_empty());
}

#[test]
fn a_cycle_report_names_the_nodes_on_the_loop() {
    let mut b = Builder::new("prod");
    let s = b.server("tokyo");
    let ip = b.ip("ip1", &s, "203.0.113.10");
    b.node("pod", pod(&ip, 443), pod_ports());
    b.node("relay", relay(RelayProtocol::TcpRaw), relay_ports());
    b.connect("pod-listen", "relay-listen");
    b.connect("relay-destination", "pod-destination");
    let cycles = check_cycles(&b.build());
    assert_eq!(cycles.len(), 1);
    assert_eq!(cycles[0].kind, ProblemKind::Cycle);
    assert_eq!(cycles[0].severity, ProblemSeverity::Error);
    assert!(cycles[0].nodes.contains(&"pod".to_string()));
    assert!(cycles[0].nodes.contains(&"relay".to_string()));
}

#[test]
fn a_failed_check_reports_the_first_error() {
    let mut b = valid_builder();
    b.node("exit2", exit("no-port-here"), exit_ports());
    b.connect("exit2-destination", "pod-destination");
    let t = b.build();
    let first_error = analyze(&t)
        .into_iter()
        .find(|p| p.severity == ProblemSeverity::Error)
        .unwrap();
    let err = ensure_valid(&t).unwrap_err();
    assert_eq!(err.first.kind, first_error.kind);
    assert_eq!(err.first.message, first_error.message);
}

#[test]
fn retiring_an_edge_and_a_node_project_in_order() {
    let topology = valid_builder().build();
    let projected = topology.project(&vec![
        TopologyEdit::RetireEdge { edge: "pod-listen->entry-listen".to_string() },
        TopologyEdit::RetireNode { node: "entry".to_string() },
    ]);
    assert_eq!(projected.nodes.len(), 2);
    assert_eq!(projected.edges.len(), 1);
    assert_eq!(projected.edges[0].id, "exit-destination->pod-destination");
    assert_eq!(warnings(&analyze(&projected)), vec![ProblemKind::PodPortUnconnected]);
}

#[test]
fn an_exit_without_destination_warns_after_every_error() {
    let mut b = Builder::new("prod");
    let s = b.server("tokyo");
    let ip = b.ip("ip1", &s, "203.0.113.10");
    b.node("pod", pod(&ip, 443), pod_ports());
    b.node("exit", exit(""), exit_ports());
    b.node("bad", pod("foreign", 8443), pod_ports());
    b.node("relay", relay(RelayProtocol::TcpRaw), relay_ports());
    b.connect("pod-listen", "relay-listen");
    b.connect("relay-destination", "pod-destination");
    let problems = analyze(&b.build());
    let severities: Vec<ProblemSeverity> = problems.iter().map(|p| p.severity).collect();
    let first_warning = severities.iter().position(|s| *s == ProblemSeverity::Warning).unwrap();
    assert!(severities[first_warning..].iter().all(|s| *s == ProblemSeverity::Warning), "{problems:?}");
    assert!(errors(&problems).contains(&ProblemKind::PodIpForeign));
    assert!(errors(&problems).contains(&ProblemKind::Cycle));
    assert!(warnings(&problems).contains(&ProblemKind::ExitDestinationInvalid));
    let err = ensure_valid(&b.build()).unwrap_err();
    assert_eq!(err.first.kind, ProblemKind::PodIpForeign);
}

#[test]
fn each_cycle_is_reported_once() {
    // pod <-> relay, and pod2 <-> relay2: two separate loops.
    let mut b = Builder::new("prod");
    let s = b.server("tokyo");
    let ip = b.ip("ip1", &s, "203.0.113.10");
    b.node("pod", pod(&ip, 443), pod_ports());
    b.node("relay", relay(RelayProtocol::TcpRaw), relay_ports());
    b.node("pod2", pod(&ip, 8443), pod_ports());
    b.node("relay2", relay(RelayProtocol::TcpRaw), relay_ports());
    b.connect("pod-listen", "relay-listen");
    b.connect("relay-destination", "pod-destination");
    b.connect("pod2-listen", "relay2-listen");
    b.connect("relay2-destination", "pod2-destination");
    let cycles = check_cycles(&b.build());
    let mut named: Vec<Vec<String>> = cycles.iter().map(|p| p.nodes.clone()).collect();
    named.sort();
    assert_eq!(
        named,
        vec![
            vec!["pod".to_string(), "relay".to_string()],
            vec!["pod2".to_string(), "relay2".to_string()],
        ]
    );
}

#[test]
fn a_rejected_cycle_is_the_first_one_the_analysis_reports() {
    let mut b = Builder::new("prod");
    let s = b.server("tokyo");
    let ip = b.ip("ip1", &s, "203.0.113.10");
    b.node("pod", pod(&ip, 443), pod_ports());
    b.node("relay", relay(RelayProtocol::TcpRaw), relay_ports());
    b.node("pod2", pod(&ip, 8443), pod_ports());
    b.node("relay2", relay(RelayProtocol::TcpRaw), relay_ports());
    b.connect("pod-listen", "relay-listen");
    b.connect("relay-destination", "pod-destination");
    b.connect("pod2-listen", "relay2-listen");
    b.connect("relay2-destination", "pod2-destination");
    let t = b.build();
    let first_error = analyze(&t)
        .into_iter()
        .find(|p| p.severity == ProblemSeverity::Error)
        .unwrap();
    assert_eq!(first_error.kind, ProblemKind::Cycle);
    let err = ensure_valid(&t).unwrap_err();
    assert_eq!(err.first.kind, ProblemKind::Cycle);
    assert_eq!(err.first.nodes, first_error.nodes);
    assert_eq!(err.first.message, first_error.message);
    assert_eq!(check_cycles(&t)[0].nodes, first_error.nodes);
}
