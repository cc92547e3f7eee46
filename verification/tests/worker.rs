use guru::net::{parse_socket_addr_exec, SocketAddr};
use guru::worker::{
    member_index, next_backoff, no_records, plan_apply, select_addr, xorshift, BACKOFF_CAP_MS,
    BACKOFF_START_MS,
};
use guru::worker_config::{
    Config, ConfigError, Forwarding, ForwardingTo, Ipv6Resolve, ListenAs, LoadBalanceGroup,
    LoadBalanceStrategy, LogConfig, RelayHost, Remote, TlsHostConfig, Transport,
};

fn addr(s: &str) -> SocketAddr {
    parse_socket_addr_exec(s).unwrap()
}

fn v4() -> SocketAddr {
    addr("127.0.0.1:9000")
}

fn v6() -> SocketAddr {
    addr("[::1]:9000")
}

// Remote parsing, as the worker binary's config reader uses it.

#[test]
fn config_remote_parses_ipv4_socket_addr() {
    let r = Remote::parse("127.0.0.1:9000").unwrap();
    match r {
        Remote::Address(a) => assert_eq!(a, addr("127.0.0.1:9000")),
        other => panic!("expected Address, got {other:?}"),
    }
}

#[test]
fn config_remote_parses_ipv6_socket_addr() {
    let r = Remote::parse("[::1]:443").unwrap();
    match r {
        Remote::Address(a) => assert_eq!(a, addr("[::1]:443")),
        other => panic!("expected Address, got {other:?}"),
    }
}

#[test]
fn config_remote_parses_domain() {
    let r = Remote::parse("backend.internal:9000").unwrap();
    match r {
        Remote::Domain(host, port) => {
            assert_eq!(host, "backend.internal");
            assert_eq!(port, 9000);
        }
        other => panic!("expected Domain, got {other:?}"),
    }
}

#[test]
fn config_remote_rejects_missing_port() {
    assert!(Remote::parse("no-port").is_err());
}

#[test]
fn config_remote_rejects_bad_port() {
    assert!(Remote::parse("host:notaport").is_err());
}

// Remote parsing, as the shared config library uses it.

#[test]
fn lib_remote_parses_ipv4_socket_addr() {
    let r = Remote::parse("127.0.0.1:9000").unwrap();
    match r {
        Remote::Address(a) => assert_eq!(a, addr("127.0.0.1:9000")),
        other => panic!("expected Address, got {other:?}"),
    }
}

#[test]
fn lib_remote_parses_ipv6_socket_addr() {
    let r = Remote::parse("[::1]:443").unwrap();
    match r {
        Remote::Address(a) => assert_eq!(a, addr("[::1]:443")),
        other => panic!("expected Address, got {other:?}"),
    }
}

#[test]
fn lib_remote_parses_domain() {
    let r = Remote::parse("backend.internal:9000").unwrap();
    match r {
        Remote::Domain(host, port) => {
            assert_eq!(host, "backend.internal");
            assert_eq!(port, 9000);
        }
        other => panic!("expected Domain, got {other:?}"),
    }
}

#[test]
fn lib_remote_rejects_missing_port() {
    assert!(Remote::parse("no-port").is_err());
}

#[test]
fn lib_remote_rejects_bad_port() {
    assert!(Remote::parse("host:notaport").is_err());
}

#[test]
fn remote_errors_name_the_input() {
    match Remote::parse("no-port") {
        Err(ConfigError::RemoteFormat(s)) => assert_eq!(s, "no-port"),
        other => panic!("expected RemoteFormat, got {other:?}"),
    }
    match Remote::parse("host:notaport") {
        Err(ConfigError::RemotePort(s)) => assert_eq!(s, "host:notaport"),
        other => panic!("expected RemotePort, got {other:?}"),
    }
}

// Address selection under the IPv6 policy.

#[test]
fn required_picks_v6_when_present() {
    assert_eq!(select_addr(&vec![v4(), v6()], Ipv6Resolve::Required), Some(v6()));
}

#[test]
fn required_fails_without_v6() {
    assert_eq!(select_addr(&vec![v4()], Ipv6Resolve::Required), None);
}

#[test]
fn preferred_picks_v6_but_falls_back_to_v4() {
    assert_eq!(select_addr(&vec![v4(), v6()], Ipv6Resolve::Preferred), Some(v6()));
    assert_eq!(select_addr(&vec![v4()], Ipv6Resolve::Preferred), Some(v4()));
}

#[test]
fn tolerated_picks_v4_but_falls_back_to_v6() {
    assert_eq!(select_addr(&vec![v6(), v4()], Ipv6Resolve::Tolerated), Some(v4()));
    assert_eq!(select_addr(&vec![v6()], Ipv6Resolve::Tolerated), Some(v6()));
}

#[test]
fn forbidden_picks_v4_when_present() {
    assert_eq!(select_addr(&vec![v6(), v4()], Ipv6Resolve::Forbidden), Some(v4()));
}

#[test]
fn forbidden_fails_without_v4() {
    assert_eq!(select_addr(&vec![v6()], Ipv6Resolve::Forbidden), None);
}

#[test]
fn empty_result_is_none() {
    assert_eq!(select_addr(&Vec::new(), Ipv6Resolve::Tolerated), None);
}

#[test]
fn the_first_address_of_a_family_is_taken() {
    let first = addr("10.0.0.1:1");
    let second = addr("10.0.0.2:1");
    assert_eq!(
        select_addr(&vec![v6(), first, second], Ipv6Resolve::Forbidden),
        Some(first)
    );
}

#[test]
fn no_records_message_names_the_policy() {
    assert_eq!(
        no_records(&"backend.internal".to_string(), 9000, Ipv6Resolve::Required),
        "no IPv6 DNS records for backend.internal:9000"
    );
    assert_eq!(
        no_records(&"h".to_string(), 1, Ipv6Resolve::Forbidden),
        "no IPv4 DNS records for h:1"
    );
    assert_eq!(
        no_records(&"h".to_string(), 80, Ipv6Resolve::Tolerated),
        "no DNS records for h:80"
    );
}

// Load balancing.

#[test]
fn xorshift_advances_the_state() {
    let mut state: u64 = 1;
    let r = xorshift(&mut state);
    // 1 ^ 1<<13 = 0x2001; ^ >>7 = 0x2001 ^ 0x40 = 0x2041; ^ <<17 = 0x2041 ^ 0x4082_0000.
    assert_eq!(r, 0x4082_2041);
    assert_eq!(state, r);
    let r2 = xorshift(&mut state);
    assert_ne!(r2, r);
    assert_eq!(state, r2);
}

#[test]
fn member_index_follows_the_strategy() {
    assert_eq!(member_index(LoadBalanceStrategy::RoundRobin, 3, 7, 0, 0), Some(1));
    assert_eq!(member_index(LoadBalanceStrategy::Random, 4, 0, 10, 0), Some(2));
    assert_eq!(member_index(LoadBalanceStrategy::IpHash, 5, 0, 0, 12), Some(2));
    assert_eq!(member_index(LoadBalanceStrategy::Fallback, 5, 1, 2, 3), None);
    assert_eq!(member_index(LoadBalanceStrategy::RoundRobin, 0, 7, 0, 0), None);
}

// Applying a config over running listeners.

fn exit_forwarding(tag: &str, listen: &str) -> Forwarding {
    Forwarding {
        tag: tag.to_string(),
        listen: addr(listen),
        receive_proxy_protocol: None,
        listen_as: ListenAs::Raw,
        to: ForwardingTo::Exit {
            destination: Remote::parse("10.0.0.5:8080").unwrap(),
            send_proxy_protocol: None,
        },
    }
}

fn config(forwardings: Vec<Forwarding>) -> Config {
    Config {
        ipv6_resolve: Ipv6Resolve::Tolerated,
        log: LogConfig::default(),
        forwardings,
    }
}

#[test]
fn apply_plan_keeps_starts_and_stops_listeners() {
    let running = vec![
        (addr("127.0.0.1:1000"), Transport::Tcp),
        (addr("127.0.0.1:2000"), Transport::Tcp),
    ];
    let cfg = config(vec![
        exit_forwarding("kept", "127.0.0.1:1000"),
        exit_forwarding("new", "127.0.0.1:3000"),
    ]);
    let plan = plan_apply(&running, &cfg);
    assert_eq!(plan.remove, vec![(addr("127.0.0.1:2000"), Transport::Tcp)]);
    assert_eq!(plan.retain, vec![0]);
    assert_eq!(plan.start, vec![1]);
}

#[test]
fn apply_plan_lets_the_later_forwarding_take_a_shared_listener() {
    let cfg = config(vec![
        exit_forwarding("first", "127.0.0.1:1000"),
        exit_forwarding("second", "127.0.0.1:1000"),
    ]);
    let plan = plan_apply(&Vec::new(), &cfg);
    assert!(plan.remove.is_empty());
    assert!(plan.retain.is_empty());
    assert_eq!(plan.start, vec![1]);
}

#[test]
fn reapplying_the_running_config_retains_everything() {
    let running = vec![(addr("127.0.0.1:1000"), Transport::Tcp)];
    let cfg = config(vec![exit_forwarding("only", "127.0.0.1:1000")]);
    let plan = plan_apply(&running, &cfg);
    assert!(plan.remove.is_empty());
    assert_eq!(plan.retain, vec![0]);
    assert!(plan.start.is_empty());
}

#[test]
fn a_quic_listener_is_distinct_from_a_tcp_one() {
    let running = vec![(addr("127.0.0.1:1000"), Transport::Tcp)];
    let mut f = exit_forwarding("quic", "127.0.0.1:1000");
    f.listen_as = ListenAs::Relay(RelayHost::Quic(TlsHostConfig {
        key: "/etc/guru/key.pem".to_string(),
        full_chain: "/etc/guru/chain.pem".to_string(),
    }));
    let plan = plan_apply(&running, &config(vec![f]));
    assert_eq!(plan.remove, running);
    assert_eq!(plan.start, vec![0]);
}

#[test]
fn load_balance_group_reports_its_shape() {
    let empty = LoadBalanceGroup {
        strategy: LoadBalanceStrategy::IpHash,
        members: Vec::new(),
    };
    assert!(empty.empty_members());
    assert!(empty.ip_hash_somewhere());
    let single = LoadBalanceGroup {
        strategy: LoadBalanceStrategy::RoundRobin,
        members: vec![ForwardingTo::Exit {
            destination: Remote::parse("10.0.0.5:8080").unwrap(),
            send_proxy_protocol: None,
        }],
    };
    assert!(!single.empty_members());
    assert!(single.unnecessary_load_balance());
    assert!(!single.ip_hash_somewhere());
}

#[test]
fn reconnection_backs_off_exponentially_up_to_the_cap() {
    let mut b = BACKOFF_START_MS;
    let mut seen = vec![b];
    for _ in 0..6 {
        b = next_backoff(b);
        seen.push(b);
    }
    assert_eq!(seen, vec![1000, 2000, 4000, 8000, 16000, 30000, 30000]);
    assert_eq!(next_backoff(BACKOFF_CAP_MS), BACKOFF_CAP_MS);
    assert_eq!(next_backoff(u64::MAX), BACKOFF_CAP_MS);
}


#[test]
fn carrying_out_a_plan_serves_exactly_the_config_keys() {
    let running = vec![
        (addr("127.0.0.1:1000"), Transport::Tcp),
        (addr("127.0.0.1:2000"), Transport::Tcp),
        (addr("127.0.0.1:4000"), Transport::Tcp),
    ];
    let cfg = config(vec![
        exit_forwarding("a", "127.0.0.1:4000"),
        exit_forwarding("b", "127.0.0.1:3000"),
        exit_forwarding("c", "127.0.0.1:1000"),
        exit_forwarding("d", "127.0.0.1:3000"),
    ]);
    let plan = plan_apply(&running, &cfg);
    let mut served: Vec<(SocketAddr, Transport)> =
        running.iter().filter(|k| !plan.remove.contains(k)).cloned().collect();
    for &i in &plan.start {
        served.push(cfg.forwardings[i].listen_key());
    }
    let mut wanted: Vec<(SocketAddr, Transport)> = Vec::new();
    for f in &cfg.forwardings {
        let k = f.listen_key();
        if !wanted.contains(&k) {
            wanted.push(k);
        }
    }
    assert_eq!(served.len(), wanted.len());
    for k in &wanted {
        assert!(served.contains(k));
    }
    assert_eq!(plan.remove, vec![(addr("127.0.0.1:2000"), Transport::Tcp)]);
    assert_eq!(plan.start, vec![3]);
}
