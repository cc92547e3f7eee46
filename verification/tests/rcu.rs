use guru::password::{Argon2PasswordAlgorithm, PasswordAlgorithm, PasswordHashError};
use guru::rcu::{collect_rcu_garbage, EdgeRow, NodeRow, PortRow, RevisionRefs};

fn s(x: &str) -> String {
    x.to_string()
}

fn node(id: &str, retired: bool) -> NodeRow {
    NodeRow { id: s(id), retired }
}

fn port(id: &str, owner: &str) -> PortRow {
    PortRow { id: s(id), owner: s(owner) }
}

fn edge(id: &str, source: &str, target: &str, retired: bool) -> EdgeRow {
    EdgeRow { id: s(id), source: s(source), target: s(target), retired }
}

/// pod and exit, their ports, and the edge exit -> pod.
fn rows(pod_retired: bool, edge_retired: bool) -> (Vec<NodeRow>, Vec<PortRow>, Vec<EdgeRow>) {
    (
        vec![node("pod", pod_retired), node("exit", false)],
        vec![port("pod-listen", "pod"), port("pod-destination", "pod"), port("exit-destination", "exit")],
        vec![edge("e1", "exit-destination", "pod-destination", edge_retired)],
    )
}

#[test]
fn a_retained_revision_pins_the_retired_rows() {
    let (nodes, ports, edges) = rows(true, false);
    let running = vec![RevisionRefs { nodes: vec![s("pod"), s("exit")], edges: vec![s("e1")] }];
    let g = collect_rcu_garbage(&running, &nodes, &ports, &edges);
    let report = g.report();
    assert_eq!((report.nodes, report.edges), (0, 0), "a revision the server still runs pins the retired rows");
    assert!(g.ports.is_empty());
}

#[test]
fn once_unreferenced_a_retired_node_goes_with_its_ports_and_edges() {
    let (nodes, ports, edges) = rows(true, false);
    let g = collect_rcu_garbage(&Vec::new(), &nodes, &ports, &edges);
    assert_eq!(g.nodes, vec![s("pod")], "live nodes are never collected");
    assert_eq!(g.ports, vec![s("pod-listen"), s("pod-destination")]);
    assert_eq!(g.edges, vec![s("e1")], "an edge touching a collected port goes too");
    let report = g.report();
    assert_eq!((report.nodes, report.edges), (1, 1));
    assert!(report.collected_anything());
}

#[test]
fn a_retired_edge_is_kept_while_a_revision_references_it() {
    let (nodes, ports, edges) = rows(false, true);
    let pinned = vec![RevisionRefs { nodes: vec![], edges: vec![s("e1")] }];
    assert!(collect_rcu_garbage(&pinned, &nodes, &ports, &edges).edges.is_empty());
    let other = vec![RevisionRefs { nodes: vec![s("pod")], edges: vec![s("e2")] }];
    let g = collect_rcu_garbage(&other, &nodes, &ports, &edges);
    assert_eq!(g.edges, vec![s("e1")]);
    assert!(g.nodes.is_empty());
    assert_eq!(g.report().edges, 1);
}

#[test]
fn an_empty_fabric_collects_nothing() {
    let g = collect_rcu_garbage(&Vec::new(), &Vec::new(), &Vec::new(), &Vec::new());
    assert!(!g.report().collected_anything());
}

#[test]
fn a_password_verifies_against_its_own_hash_only() {
    let algo = Argon2PasswordAlgorithm;
    let hash = algo.hash_password("correct horse").unwrap();
    assert!(hash.starts_with("$argon2id$v=19$"), "{hash}");
    assert!(algo.verify_password("correct horse", &hash));
    assert!(!algo.verify_password("wrong horse", &hash));
    assert!(!algo.verify_password("correct horse", "not a phc string"));
    let again = algo.hash_password("correct horse").unwrap();
    assert_ne!(hash, again, "every hash has its own salt");
}

#[test]
fn password_errors_have_messages() {
    assert_eq!(PasswordHashError::InvalidConfig.message(), "invalid argon2 configuration");
    assert_eq!(PasswordHashError::EncodingFailed.message(), "failed to encode password hash");
    assert_eq!(PasswordHashError::DecodeFailed.message(), "failed to decode password hashing input");
    assert_eq!(PasswordHashError::UnknownError.message(), "unknown password hashing error");
}
