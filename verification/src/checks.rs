//! Topology rules.
//!
//! What passes here is storable, not necessarily derivable: a half-drawn chain (a
//! relay whose `listen` side is not fed yet, a load balancer with no connected
//! members) is allowed so an operator can save mid-edit; derivation reports such a
//! pod and leaves every other pod on the server alone. A rule belongs here only when
//! the shape is unsatisfiable whatever else the operator draws.

use crate::index::{
    edge_first, edge_first_exec, ip_at, ip_at_exec, node_at, node_at_exec, opt_idx, peer_first,
    peer_first_exec, port_by_key, port_by_key_exec, port_loc, port_loc_exec, port_owner,
    port_owner_exec, server_known, server_known_exec, lemma_port_loc_in_props,
};
use crate::model::{
    CanvasTopology, EdgeView, LoadBalanceMode, NodeSpec, NodeSpecView, NodeWithPorts,
    NodeWithPortsView, PortDirection, PortKind, PortView, RelayProtocol, TopologyView,
};
use crate::seqs::{first_where, lemma_filter_step, lemma_first_where, lemma_first_where_props};
use crate::sorting::{sort_distinct, sorted_distinct, strictly_sorted};
use crate::text::{decimal, push_decimal, push_str, string_eq};
use crate::topology::{
    one, problem, problems_view, strs, two, ProblemKind, ProblemSeverity, ProblemView,
    TopologyError, TopologyProblem,
};
use crate::worker_config::{spec_parse_remote, Remote};
use vstd::prelude::*;

verus! {

// ---------------------------------------------------------------------------
// Messages.
// ---------------------------------------------------------------------------

pub open spec fn kind_name(k: PortKind) -> Seq<char> {
    match k {
        PortKind::DeriveListen => "derive_listen"@,
        PortKind::DeriveDestination => "derive_destination"@,
    }
}

pub fn kind_name_exec(k: PortKind) -> (r: &'static str)
    ensures
        r@ == kind_name(k),
{
    match k {
        PortKind::DeriveListen => "derive_listen",
        PortKind::DeriveDestination => "derive_destination",
    }
}

pub open spec fn msg_edge_direction(edge: Seq<char>) -> Seq<char> {
    "edge "@ + edge + " must connect an output port to an input port"@
}

pub open spec fn msg_kind_mismatch(edge: Seq<char>, a: PortKind, b: PortKind) -> Seq<char> {
    "edge "@ + edge + " connects "@ + kind_name(a) + " to "@ + kind_name(b)
}

pub open spec fn msg_self_node(edge: Seq<char>, name: Seq<char>) -> Seq<char> {
    "edge "@ + edge + " connects node "@ + name + " to itself"@
}

pub open spec fn msg_cross_canvas(edge: Seq<char>) -> Seq<char> {
    "edge "@ + edge + " crosses canvas boundaries"@
}

pub open spec fn msg_oversubscribed(port: Seq<char>, name: Seq<char>, count: nat) -> Seq<char> {
    "port "@ + port + " of node "@ + name + " carries "@ + decimal(count) + " edges"@
}

pub open spec fn msg_shape(name: Seq<char>) -> Seq<char> {
    "node "@ + name + " has invalid ports for its spec"@
}

pub open spec fn msg_unsupported(name: Seq<char>) -> Seq<char> {
    "node "@ + name + ": canvas import/export is not supported until subcanvases land"@
}

pub open spec fn msg_pod_foreign(name: Seq<char>) -> Seq<char> {
    "pod "@ + name + " references an ip record outside this canvas"@
}

pub open spec fn msg_exit_empty(name: Seq<char>) -> Seq<char> {
    "exit "@ + name + " has no destination yet"@
}

pub open spec fn msg_exit_invalid(name: Seq<char>, dest: Seq<char>) -> Seq<char> {
    "exit "@ + name + " destination '"@ + dest + "' is not host:port"@
}

pub open spec fn transport_name(quic: bool) -> Seq<char> {
    if quic {
        "quic"@
    } else {
        "tcp"@
    }
}

pub open spec fn msg_duplicate(
    first: Seq<char>,
    second: Seq<char>,
    ip: Seq<char>,
    port: u16,
    quic: bool,
) -> Seq<char> {
    "pods "@ + first + " and "@ + second + " both listen on "@ + ip + ":"@ + decimal(port as nat)
        + " ("@ + transport_name(quic) + ")"@
}

pub open spec fn msg_cycle(name: Seq<char>) -> Seq<char> {
    "cycle through node "@ + name
}

pub open spec fn msg_ip_hash(name: Seq<char>) -> Seq<char> {
    "load balancer under pod "@ + name + " uses ip_hash but the client address is unknown"@
}

pub open spec fn msg_unconnected(name: Seq<char>) -> Seq<char> {
    "pod "@ + name + " has an unconnected port; it will be skipped"@
}

pub open spec fn msg_relay_same_server(name: Seq<char>) -> Seq<char> {
    "relay "@ + name + " hops within one server"@
}

pub open spec fn msg_single_member(name: Seq<char>) -> Seq<char> {
    "load balancer "@ + name + " has a single member"@
}

fn text2(a: &str, b: &String, c: &str) -> (r: String)
    ensures
        r@ == a@ + b@ + c@,
{
    let mut s = String::new();
    push_str(&mut s, a);
    push_str(&mut s, b.as_str());
    push_str(&mut s, c);
    assert(s@ =~= a@ + b@ + c@);
    s
}

// ---------------------------------------------------------------------------
// Traversal orders.
// ---------------------------------------------------------------------------

pub open spec fn node_ids(t: TopologyView) -> Seq<Seq<char>> {
    t.nodes.map_values(|n: NodeWithPortsView| n.node.id)
}

/// The nodes in record-key order, one per key (the last row with that key), so that
/// problems are reported deterministically.
pub open spec fn sorted_order(t: TopologyView) -> Seq<int> {
    sorted_distinct(node_ids(t)).map_values(|k: Seq<char>| node_at(t, k).unwrap())
}

pub open spec fn idxs(v: Vec<usize>) -> Seq<int> {
    v@.map_values(|i: usize| i as int)
}

proof fn lemma_node_at_props(t: TopologyView, key: Seq<char>)
    ensures
        node_at(t, key) matches Some(i) ==> 0 <= i < t.nodes.len() && t.nodes[i].node.id == key,
        node_ids(t).contains(key) ==> node_at(t, key) is Some,
{
    crate::seqs::lemma_last_where_props(t.nodes, |n: NodeWithPortsView| n.node.id == key);
    if node_ids(t).contains(key) {
        let k = choose|k: int| 0 <= k < node_ids(t).len() && node_ids(t)[k] == key;
        assert(t.nodes[k].node.id == key);
    }
}

/// The node indices in record-key order.
pub fn sorted_nodes(t: &CanvasTopology) -> (r: Vec<usize>)
    ensures
        idxs(r) == sorted_order(t@),
        r.len() == sorted_distinct(node_ids(t@)).len(),
        strictly_sorted(sorted_distinct(node_ids(t@))),
        sorted_distinct(node_ids(t@)).to_set() == node_ids(t@).to_set(),
        forall|m: int| 0 <= m < r.len() ==> #[trigger] r@[m] < t.nodes.len(),
        forall|m: int| 0 <= m < r.len() ==> t@.nodes[#[trigger] r@[m] as int].node.id == sorted_distinct(node_ids(t@))[m],
{
    let mut keys: Vec<String> = Vec::new();
    let mut i: usize = 0;
    while i < t.nodes.len()
        invariant
            i <= t.nodes.len(),
            strs(keys) == node_ids(t@).subrange(0, i as int),
        decreases t.nodes.len() - i,
    {
        let ghost prev = strs(keys);
        keys.push(t.nodes[i].node.id.clone());
        assert(strs(keys) =~= prev.push(node_ids(t@)[i as int]));
        assert(node_ids(t@).subrange(0, i + 1) =~= node_ids(t@).subrange(0, i as int).push(node_ids(t@)[i as int]));
        i = i + 1;
    }
    assert(node_ids(t@).subrange(0, t.nodes.len() as int) =~= node_ids(t@));
    let sorted = sort_distinct(keys);
    let ghost sk = sorted_distinct(node_ids(t@));
    assert(strs(sorted) == sk);
    proof {
        crate::sorting::lemma_sorted_distinct_is(node_ids(t@), sk);
    }
    let mut out: Vec<usize> = Vec::new();
    let mut m: usize = 0;
    while m < sorted.len()
        invariant
            m <= sorted.len(),
            strs(sorted) == sk,
            sk == sorted_distinct(node_ids(t@)),
            sk.to_set() == node_ids(t@).to_set(),
            idxs(out) == sk.subrange(0, m as int).map_values(|k: Seq<char>| node_at(t@, k).unwrap()),
            strictly_sorted(sk),
            out.len() == m,
            forall|q: int| 0 <= q < out.len() ==> #[trigger] out@[q] < t.nodes.len(),
            forall|q: int| 0 <= q < out.len() ==> t@.nodes[#[trigger] out@[q] as int].node.id == sk[q],
        decreases sorted.len() - m,
    {
        proof {
            assert(sk.to_set().contains(sk[m as int]));
            lemma_node_at_props(t@, sk[m as int]);
        }
        let idx = node_at_exec(t, &sorted[m]);
        let ix = match idx {
            Some(x) => x,
            None => {
                assert(false);
                0
            },
        };
        let ghost prev = out@;
        out.push(ix);
        assert(sk.subrange(0, m + 1).map_values(|k: Seq<char>| node_at(t@, k).unwrap()) =~= sk.subrange(0, m as int).map_values(|k: Seq<char>| node_at(t@, k).unwrap()).push(node_at(t@, sk[m as int]).unwrap()));
        assert(idxs(out) =~= prev.map_values(|i: usize| i as int).push(ix as int));
        m = m + 1;
    }
    assert(sk.subrange(0, sorted.len() as int) =~= sk);
    out
}

/// Per-position findings over an order of nodes, concatenated.
pub open spec fn flat_pos(
    t: TopologyView,
    order: Seq<int>,
    n: int,
    f: spec_fn(TopologyView, Seq<int>, int) -> Seq<ProblemView>,
) -> Seq<ProblemView>
    decreases n,
{
    if n <= 0 {
        Seq::empty()
    } else {
        flat_pos(t, order, n - 1, f) + f(t, order, n - 1)
    }
}

/// Per-edge findings, concatenated in edge order.
pub open spec fn flat_edges(
    t: TopologyView,
    n: int,
    f: spec_fn(TopologyView, int) -> Seq<ProblemView>,
) -> Seq<ProblemView>
    decreases n,
{
    if n <= 0 {
        Seq::empty()
    } else {
        flat_edges(t, n - 1, f) + f(t, n - 1)
    }
}

/// Appends `extra` to `out`.
pub(crate) fn append_problems(out: &mut Vec<TopologyProblem>, extra: Vec<TopologyProblem>)
    ensures
        problems_view(final(out)@) == problems_view(old(out)@) + problems_view(extra@),
{
    let mut extra = extra;
    let mut rest: Vec<TopologyProblem> = Vec::new();
    // Move the elements over, preserving their order.
    let ghost ev = problems_view(extra@);
    let ghost o = problems_view(out@);
    let n = extra.len();
    let mut moved: Vec<TopologyProblem> = Vec::new();
    while extra.len() > 0
        invariant
            problems_view(extra@) + problems_view(moved@).reverse() == ev,
        decreases extra.len(),
    {
        let ghost before_e = problems_view(extra@);
        let ghost before_m = problems_view(moved@);
        let p = extra.pop().unwrap();
        assert(before_e =~= problems_view(extra@).push(p@));
        moved.push(p);
        assert(problems_view(moved@) =~= before_m.push(p@));
        assert(problems_view(moved@).reverse() =~= seq![p@] + before_m.reverse());
        assert(problems_view(extra@) + problems_view(moved@).reverse() =~= before_e + before_m.reverse());
    }
    assert(problems_view(extra@) =~= Seq::<ProblemView>::empty());
    assert(problems_view(moved@).reverse() =~= ev);
    while moved.len() > 0
        invariant
            o + ev == problems_view(out@) + problems_view(moved@).reverse(),
        decreases moved.len(),
    {
        let ghost before_m = problems_view(moved@);
        let ghost before_o = problems_view(out@);
        let p = moved.pop().unwrap();
        assert(before_m =~= problems_view(moved@).push(p@));
        out.push(p);
        assert(problems_view(out@) =~= before_o.push(p@));
        assert(before_m.reverse() =~= seq![p@] + problems_view(moved@).reverse());
        assert(problems_view(out@) + problems_view(moved@).reverse() =~= before_o + before_m.reverse());
    }
    assert(problems_view(moved@).reverse() =~= Seq::<ProblemView>::empty());
    assert(problems_view(out@) =~= o + ev);
}

// ---------------------------------------------------------------------------
// Edges.
// ---------------------------------------------------------------------------

pub open spec fn edge_rule_problems(t: TopologyView, ei: int) -> Seq<ProblemView> {
    let e = t.edges[ei];
    let k = e.id;
    match (port_loc(t, e.source), port_loc(t, e.target)) {
        (Some((si, sj)), Some((ti, tj))) => {
            let sp = t.nodes[si].ports[sj];
            let tp = t.nodes[ti].ports[tj];
            let sn = t.nodes[si].node;
            let tn = t.nodes[ti].node;
            if sp.direction != PortDirection::Output || tp.direction != PortDirection::Input {
                seq![
                    problem(
                        ProblemSeverity::Error,
                        ProblemKind::EdgeDirectionInvalid,
                        msg_edge_direction(k),
                        seq![],
                        seq![k],
                        seq![e.source, e.target],
                    ),
                ]
            } else {
                (if sp.kind != tp.kind {
                    seq![
                        problem(
                            ProblemSeverity::Error,
                            ProblemKind::PortKindMismatch,
                            msg_kind_mismatch(k, sp.kind, tp.kind),
                            seq![],
                            seq![k],
                            seq![e.source, e.target],
                        ),
                    ]
                } else {
                    Seq::empty()
                }) + (if sn.id == tn.id {
                    seq![
                        problem(
                            ProblemSeverity::Error,
                            ProblemKind::EdgeSelfNode,
                            msg_self_node(k, sn.name),
                            seq![sn.id],
                            seq![k],
                            seq![],
                        ),
                    ]
                } else {
                    Seq::empty()
                }) + (if sn.canvas != t.canvas || tn.canvas != t.canvas {
                    seq![
                        problem(
                            ProblemSeverity::Error,
                            ProblemKind::EdgeCrossCanvas,
                            msg_cross_canvas(k),
                            seq![],
                            seq![k],
                            seq![],
                        ),
                    ]
                } else {
                    Seq::empty()
                })
            }
        },
        _ => seq![
            problem(
                ProblemSeverity::Error,
                ProblemKind::EdgeDirectionInvalid,
                msg_edge_direction(k),
                seq![],
                seq![k],
                seq![],
            ),
        ],
    }
}

/// How many edge endpoints are the port `key`.
pub open spec fn endpoint_count(es: Seq<EdgeView>, key: Seq<char>) -> nat
    decreases es.len(),
{
    if es.len() == 0 {
        0
    } else {
        endpoint_count(es.drop_last(), key) + (if es.last().source == key {
            1nat
        } else {
            0nat
        }) + (if es.last().target == key {
            1nat
        } else {
            0nat
        })
    }
}

/// Every endpoint of every edge, in order.
pub open spec fn endpoints(es: Seq<EdgeView>) -> Seq<Seq<char>>
    decreases es.len(),
{
    if es.len() == 0 {
        Seq::empty()
    } else {
        endpoints(es.drop_last()).push(es.last().source).push(es.last().target)
    }
}

/// The ports carrying more than one edge, in key order.
pub open spec fn oversubscribed(t: TopologyView) -> Seq<Seq<char>> {
    sorted_distinct(endpoints(t.edges).filter(|k: Seq<char>| endpoint_count(t.edges, k) > 1))
}

pub open spec fn node_name_of_port(t: TopologyView, key: Seq<char>) -> Seq<char> {
    match port_owner(t, key) {
        Some(i) => t.nodes[i].node.name,
        None => Seq::empty(),
    }
}

pub open spec fn oversubscribed_problem(t: TopologyView, key: Seq<char>) -> ProblemView {
    problem(
        ProblemSeverity::Error,
        ProblemKind::PortOversubscribed,
        msg_oversubscribed(key, node_name_of_port(t, key), endpoint_count(t.edges, key)),
        seq![],
        seq![],
        seq![key],
    )
}

/// The edge rules: direction, kind, self-loops, canvas crossing, then the ports that
/// carry more than one edge.
pub open spec fn check_edges(t: TopologyView) -> Seq<ProblemView> {
    flat_edges(t, t.edges.len() as int, |t: TopologyView, ei: int| edge_rule_problems(t, ei))
        + oversubscribed(t).map_values(|k: Seq<char>| oversubscribed_problem(t, k))
}

fn edge_rule_problems_exec(t: &CanvasTopology, ei: usize) -> (r: Vec<TopologyProblem>)
    requires
        ei < t.edges.len(),
    ensures
        problems_view(r@) == edge_rule_problems(t@, ei as int),
{
    let e = &t.edges[ei];
    let mut out: Vec<TopologyProblem> = Vec::new();
    let sl = port_loc_exec(t, &e.source);
    let tl = port_loc_exec(t, &e.target);
    match (sl, tl) {
        (Some((si, sj)), Some((ti, tj))) => {
            let sp = &t.nodes[si].ports[sj];
            let tp = &t.nodes[ti].ports[tj];
            let sn = &t.nodes[si].node;
            let tn = &t.nodes[ti].node;
            if sp.direction != PortDirection::Output || tp.direction != PortDirection::Input {
                let p = TopologyProblem::error(
                    ProblemKind::EdgeDirectionInvalid,
                    text2("edge ", &e.id, " must connect an output port to an input port"),
                ).with_edges(one(&e.id)).with_ports(two(&e.source, &e.target));
                out.push(p);
                assert(problems_view(out@) =~= edge_rule_problems(t@, ei as int));
                return out;
            }
            if sp.kind != tp.kind {
                let mut m = String::new();
                push_str(&mut m, "edge ");
                push_str(&mut m, e.id.as_str());
                push_str(&mut m, " connects ");
                push_str(&mut m, kind_name_exec(sp.kind));
                push_str(&mut m, " to ");
                push_str(&mut m, kind_name_exec(tp.kind));
                assert(m@ =~= msg_kind_mismatch(e.id@, sp.kind, tp.kind));
                let p = TopologyProblem::error(ProblemKind::PortKindMismatch, m).with_edges(
                    one(&e.id),
                ).with_ports(two(&e.source, &e.target));
                out.push(p);
            }
            let ghost o1 = problems_view(out@);
            if sn.id == tn.id {
                let mut m = String::new();
                push_str(&mut m, "edge ");
                push_str(&mut m, e.id.as_str());
                push_str(&mut m, " connects node ");
                push_str(&mut m, sn.name.as_str());
                push_str(&mut m, " to itself");
                assert(m@ =~= msg_self_node(e.id@, sn.name@));
                let p = TopologyProblem::error(ProblemKind::EdgeSelfNode, m).with_edges(
                    one(&e.id),
                ).with_nodes(one(&sn.id));
                out.push(p);
            }
            let ghost o2 = problems_view(out@);
            if sn.canvas != t.canvas || tn.canvas != t.canvas {
                let p = TopologyProblem::error(
                    ProblemKind::EdgeCrossCanvas,
                    text2("edge ", &e.id, " crosses canvas boundaries"),
                ).with_edges(one(&e.id));
                out.push(p);
            }
            assert(problems_view(out@) =~= edge_rule_problems(t@, ei as int));
            out
        },
        _ => {
            let p = TopologyProblem::error(
                ProblemKind::EdgeDirectionInvalid,
                text2("edge ", &e.id, " must connect an output port to an input port"),
            ).with_edges(one(&e.id));
            out.push(p);
            assert(problems_view(out@) =~= edge_rule_problems(t@, ei as int));
            out
        },
    }
}

fn endpoint_count_exec(t: &CanvasTopology, key: &String) -> (r: u128)
    ensures
        r == endpoint_count(t@.edges, key@),
{
    let mut c: u128 = 0;
    let mut i: usize = 0;
    while i < t.edges.len()
        invariant
            i <= t.edges.len(),
            c == endpoint_count(t@.edges.subrange(0, i as int), key@),
            c <= 2 * (i as int),
        decreases t.edges.len() - i,
    {
        let ghost pre = t@.edges.subrange(0, i + 1);
        assert(pre.drop_last() =~= t@.edges.subrange(0, i as int));
        if t.edges[i].source == *key {
            c = c + 1;
        }
        if t.edges[i].target == *key {
            c = c + 1;
        }
        i = i + 1;
    }
    assert(t@.edges.subrange(0, t.edges.len() as int) =~= t@.edges);
    c
}

/// The edge rules, as [`check_edges`] describes.
pub(crate) fn check_edges_exec(t: &CanvasTopology) -> (r: Vec<TopologyProblem>)
    ensures
        problems_view(r@) == check_edges(t@),
{
    let mut out: Vec<TopologyProblem> = Vec::new();
    let ghost f = |t: TopologyView, ei: int| edge_rule_problems(t, ei);
    let mut i: usize = 0;
    while i < t.edges.len()
        invariant
            i <= t.edges.len(),
            f == (|t: TopologyView, ei: int| edge_rule_problems(t, ei)),
            problems_view(out@) == flat_edges(t@, i as int, f),
        decreases t.edges.len() - i,
    {
        let extra = edge_rule_problems_exec(t, i);
        append_problems(&mut out, extra);
        i = i + 1;
    }
    // Endpoints with more than one edge.
    let ghost eps = endpoints(t@.edges);
    let ghost pc = |k: Seq<char>| endpoint_count(t@.edges, k) > 1;
    let mut over: Vec<String> = Vec::new();
    let mut i: usize = 0;
    while i < t.edges.len()
        invariant
            i <= t.edges.len(),
            pc == (|k: Seq<char>| endpoint_count(t@.edges, k) > 1),
            strs(over) == endpoints(t@.edges.subrange(0, i as int)).filter(pc),
        decreases t.edges.len() - i,
    {
        let ghost pre = t@.edges.subrange(0, i + 1);
        let ghost e0 = endpoints(t@.edges.subrange(0, i as int));
        assert(pre.drop_last() =~= t@.edges.subrange(0, i as int));
        assert(endpoints(pre) == e0.push(pre.last().source).push(pre.last().target));
        proof {
            lemma_filter_step(e0.push(pre.last().source).push(pre.last().target), pc, e0.len() as int);
            lemma_filter_step(e0.push(pre.last().source).push(pre.last().target), pc, e0.len() as int + 1);
            assert(e0.push(pre.last().source).push(pre.last().target).subrange(0, e0.len() as int) =~= e0);
            assert(e0.push(pre.last().source).push(pre.last().target).subrange(0, e0.len() as int + 1) =~= e0.push(pre.last().source));
            assert(e0.push(pre.last().source).push(pre.last().target).subrange(0, e0.len() as int + 2) =~= e0.push(pre.last().source).push(pre.last().target));
        }
        let e = &t.edges[i];
        let ghost before = strs(over);
        if endpoint_count_exec(t, &e.source) > 1 {
            over.push(e.source.clone());
        }
        assert(strs(over) =~= e0.push(pre.last().source).filter(pc));
        if endpoint_count_exec(t, &e.target) > 1 {
            let ghost b2 = strs(over);
            over.push(e.target.clone());
            assert(strs(over) =~= b2.push(e.target@));
        }
        i = i + 1;
    }
    assert(t@.edges.subrange(0, t.edges.len() as int) =~= t@.edges);
    let sorted = sort_distinct(over);
    let ghost ov = oversubscribed(t@);
    assert(strs(sorted) == ov);
    let mut k: usize = 0;
    let ghost head = problems_view(out@);
    while k < sorted.len()
        invariant
            k <= sorted.len(),
            strs(sorted) == ov,
            problems_view(out@) == head + ov.subrange(0, k as int).map_values(
                |key: Seq<char>| oversubscribed_problem(t@, key),
            ),
        decreases sorted.len() - k,
    {
        let key = &sorted[k];
        let count = endpoint_count_exec(t, key);
        let name = match port_owner_exec(t, key) {
            Some(ni) => t.nodes[ni].node.name.clone(),
            None => String::new(),
        };
        let mut m = String::new();
        push_str(&mut m, "port ");
        push_str(&mut m, key.as_str());
        push_str(&mut m, " of node ");
        push_str(&mut m, name.as_str());
        push_str(&mut m, " carries ");
        push_decimal(&mut m, count);
        push_str(&mut m, " edges");
        assert(m@ =~= msg_oversubscribed(key@, node_name_of_port(t@, key@), endpoint_count(t@.edges, key@)));
        let p = TopologyProblem::error(ProblemKind::PortOversubscribed, m).with_ports(one(key));
        let ghost prev = problems_view(out@);
        out.push(p);
        assert(problems_view(out@) =~= prev.push(p@));
        assert(ov.subrange(0, k + 1).map_values(|key: Seq<char>| oversubscribed_problem(t@, key)) =~= ov.subrange(0, k as int).map_values(|key: Seq<char>| oversubscribed_problem(t@, key)).push(oversubscribed_problem(t@, ov[k as int])));
        k = k + 1;
    }
    assert(ov.subrange(0, sorted.len() as int) =~= ov);
    out
}


// ---------------------------------------------------------------------------
// Node rules, shared loop.
// ---------------------------------------------------------------------------

pub open spec fn order_ok(t: TopologyView, order: Seq<int>) -> bool {
    &&& order == sorted_order(t)
    &&& forall|m: int| 0 <= m < order.len() ==> 0 <= #[trigger] order[m] < t.nodes.len()
}

// ---------------------------------------------------------------------------
// Port shapes.
// ---------------------------------------------------------------------------

#[derive(Debug, Clone, Copy, PartialEq, Eq, Structural)]
pub enum Multiplicity {
    One,
    AtLeastTwo,
}

pub open spec fn spec_expected_ports(spec: NodeSpecView) -> Option<
    Seq<(PortKind, PortDirection, Multiplicity)>,
> {
    match spec {
        NodeSpecView::Pod { .. } => Some(
            seq![
                (PortKind::DeriveListen, PortDirection::Output, Multiplicity::One),
                (PortKind::DeriveDestination, PortDirection::Input, Multiplicity::One),
            ],
        ),
        NodeSpecView::Entry { .. } => Some(
            seq![(PortKind::DeriveListen, PortDirection::Input, Multiplicity::One)],
        ),
        NodeSpecView::Relay { .. } => Some(
            seq![
                (PortKind::DeriveListen, PortDirection::Input, Multiplicity::One),
                (PortKind::DeriveDestination, PortDirection::Output, Multiplicity::One),
            ],
        ),
        NodeSpecView::Exit { .. } => Some(
            seq![(PortKind::DeriveDestination, PortDirection::Output, Multiplicity::One)],
        ),
        NodeSpecView::LoadBalanceDistribute { .. } => Some(
            seq![
                (PortKind::DeriveDestination, PortDirection::Input, Multiplicity::AtLeastTwo),
                (PortKind::DeriveDestination, PortDirection::Output, Multiplicity::One),
            ],
        ),
        NodeSpecView::LoadBalanceAggregate => Some(
            seq![
                (PortKind::DeriveDestination, PortDirection::Input, Multiplicity::One),
                (PortKind::DeriveDestination, PortDirection::Output, Multiplicity::AtLeastTwo),
            ],
        ),
        NodeSpecView::CanvasImport | NodeSpecView::CanvasExport(_) => None,
    }
}

/// The `(kind, direction, count)` a spec's ports must match; none for canvas
/// import/export, which are reported separately.
pub fn expected_ports(spec: &NodeSpec) -> (r: Option<Vec<(PortKind, PortDirection, Multiplicity)>>)
    ensures
        match r {
            Some(v) => spec_expected_ports(spec@) == Some(v@),
            None => spec_expected_ports(spec@) is None,
        },
{
    let mut v: Vec<(PortKind, PortDirection, Multiplicity)> = Vec::new();
    match spec {
        NodeSpec::Pod(_) => {
            v.push((PortKind::DeriveListen, PortDirection::Output, Multiplicity::One));
            v.push((PortKind::DeriveDestination, PortDirection::Input, Multiplicity::One));
        },
        NodeSpec::Entry(_) => {
            v.push((PortKind::DeriveListen, PortDirection::Input, Multiplicity::One));
        },
        NodeSpec::Relay(_) => {
            v.push((PortKind::DeriveListen, PortDirection::Input, Multiplicity::One));
            v.push((PortKind::DeriveDestination, PortDirection::Output, Multiplicity::One));
        },
        NodeSpec::Exit(_) => {
            v.push((PortKind::DeriveDestination, PortDirection::Output, Multiplicity::One));
        },
        NodeSpec::LoadBalanceDistribute(_) => {
            v.push((PortKind::DeriveDestination, PortDirection::Input, Multiplicity::AtLeastTwo));
            v.push((PortKind::DeriveDestination, PortDirection::Output, Multiplicity::One));
        },
        NodeSpec::LoadBalanceAggregate(_) => {
            v.push((PortKind::DeriveDestination, PortDirection::Input, Multiplicity::One));
            v.push((PortKind::DeriveDestination, PortDirection::Output, Multiplicity::AtLeastTwo));
        },
        NodeSpec::CanvasImport(_) | NodeSpec::CanvasExport(_) => {
            return None;
        },
    }
    assert(spec_expected_ports(spec@) == Some(v@)) by {
        assert(v@ =~= spec_expected_ports(spec@).unwrap());
    }
    Some(v)
}

/// How many ports have this kind and direction.
pub open spec fn kd_count(ports: Seq<PortView>, k: PortKind, d: PortDirection) -> nat {
    ports.filter(|p: PortView| p.kind == k && p.direction == d).len()
}

/// How many distinct `(kind, direction)` pairs the ports show.
pub open spec fn distinct_kd(ports: Seq<PortView>) -> nat {
    (if kd_count(ports, PortKind::DeriveListen, PortDirection::Input) > 0 { 1nat } else { 0nat })
        + (if kd_count(ports, PortKind::DeriveListen, PortDirection::Output) > 0 { 1nat } else { 0nat })
        + (if kd_count(ports, PortKind::DeriveDestination, PortDirection::Input) > 0 { 1nat } else { 0nat })
        + (if kd_count(ports, PortKind::DeriveDestination, PortDirection::Output) > 0 { 1nat } else { 0nat })
}

pub open spec fn mult_ok(count: nat, m: Multiplicity) -> bool {
    match m {
        Multiplicity::One => count == 1,
        Multiplicity::AtLeastTwo => count >= 2,
    }
}

/// Whether a node's ports match what its spec requires.
pub open spec fn shape_ok(n: NodeWithPortsView) -> bool {
    match spec_expected_ports(n.node.spec) {
        None => true,
        Some(ex) => distinct_kd(n.ports) == ex.len() && forall|i: int|
            0 <= i < ex.len() ==> mult_ok(kd_count(n.ports, ex[i].0, ex[i].1), #[trigger] ex[i].2),
    }
}

pub open spec fn shape_problems(t: TopologyView, order: Seq<int>, m: int) -> Seq<ProblemView> {
    let n = t.nodes[order[m]];
    if shape_ok(n) {
        Seq::empty()
    } else {
        seq![
            problem(
                ProblemSeverity::Error,
                ProblemKind::PortShapeInvalid,
                msg_shape(n.node.name),
                seq![n.node.id],
                seq![],
                seq![],
            ),
        ]
    }
}

pub open spec fn check_port_shapes(t: TopologyView) -> Seq<ProblemView> {
    let order = sorted_order(t);
    flat_pos(t, order, order.len() as int, |t: TopologyView, o: Seq<int>, m: int| shape_problems(t, o, m))
}

fn kd_count_exec(n: &NodeWithPorts, k: PortKind, d: PortDirection) -> (r: usize)
    ensures
        r == kd_count(n@.ports, k, d),
{
    let ghost p = |q: PortView| q.kind == k && q.direction == d;
    let mut c: usize = 0;
    let mut i: usize = 0;
    while i < n.ports.len()
        invariant
            i <= n.ports.len(),
            p == (|q: PortView| q.kind == k && q.direction == d),
            c == n@.ports.subrange(0, i as int).filter(p).len(),
            c <= i,
        decreases n.ports.len() - i,
    {
        proof {
            lemma_filter_step(n@.ports, p, i as int);
        }
        if n.ports[i].kind == k && n.ports[i].direction == d {
            c = c + 1;
        }
        i = i + 1;
    }
    assert(n@.ports.subrange(0, n.ports.len() as int) =~= n@.ports);
    c
}

fn shape_ok_exec(n: &NodeWithPorts) -> (r: bool)
    ensures
        r == shape_ok(n@),
{
    let ex = match expected_ports(&n.node.spec) {
        None => return true,
        Some(ex) => ex,
    };
    let mut distinct: usize = 0;
    if kd_count_exec(n, PortKind::DeriveListen, PortDirection::Input) > 0 {
        distinct = distinct + 1;
    }
    if kd_count_exec(n, PortKind::DeriveListen, PortDirection::Output) > 0 {
        distinct = distinct + 1;
    }
    if kd_count_exec(n, PortKind::DeriveDestination, PortDirection::Input) > 0 {
        distinct = distinct + 1;
    }
    if kd_count_exec(n, PortKind::DeriveDestination, PortDirection::Output) > 0 {
        distinct = distinct + 1;
    }
    let mut ok = distinct == ex.len();
    let mut i: usize = 0;
    while i < ex.len()
        invariant
            i <= ex.len(),
            ok == (distinct_kd(n@.ports) == ex@.len() && forall|q: int|
                0 <= q < i ==> mult_ok(kd_count(n@.ports, ex@[q].0, ex@[q].1), #[trigger] ex@[q].2)),
        decreases ex.len() - i,
    {
        let (k, d, m) = ex[i];
        let c = kd_count_exec(n, k, d);
        let good = match m {
            Multiplicity::One => c == 1,
            Multiplicity::AtLeastTwo => c >= 2,
        };
        ok = ok && good;
        i = i + 1;
    }
    ok
}

fn shape_problems_exec(t: &CanvasTopology, ni: usize) -> (r: Vec<TopologyProblem>)
    requires
        ni < t.nodes.len(),
    ensures
        forall|order: Seq<int>, m: int| 0 <= m < order.len() && order[m] == ni ==> problems_view(r@) == #[trigger] shape_problems(t@, order, m),
{
    let n = &t.nodes[ni];
    let mut out: Vec<TopologyProblem> = Vec::new();
    if !shape_ok_exec(n) {
        let p = TopologyProblem::error(
            ProblemKind::PortShapeInvalid,
            text2("node ", &n.node.name, " has invalid ports for its spec"),
        ).with_nodes(one(&n.node.id));
        out.push(p);
    }
    assert(problems_view(out@) =~= (if shape_ok(t@.nodes[ni as int]) { Seq::empty() } else { seq![problem(ProblemSeverity::Error, ProblemKind::PortShapeInvalid, msg_shape(t@.nodes[ni as int].node.name), seq![t@.nodes[ni as int].node.id], seq![], seq![])] }));
    out
}

pub(crate) fn check_port_shapes_exec(t: &CanvasTopology, order: &Vec<usize>) -> (r: Vec<TopologyProblem>)
    requires
        order_ok(t@, idxs(*order)),
    ensures
        problems_view(r@) == check_port_shapes(t@),
{
    let ghost o = idxs(*order);
    let ghost f = |t: TopologyView, o: Seq<int>, m: int| shape_problems(t, o, m);
    let mut out: Vec<TopologyProblem> = Vec::new();
    let mut m: usize = 0;
    while m < order.len()
        invariant
            m <= order.len(),
            o == idxs(*order),
            order_ok(t@, o),
            f == (|t: TopologyView, o: Seq<int>, m: int| shape_problems(t, o, m)),
            problems_view(out@) == flat_pos(t@, o, m as int, f),
        decreases order.len() - m,
    {
        assert(0 <= o[m as int] < t.nodes.len());
        let extra = shape_problems_exec(t, order[m]);
        assert(problems_view(extra@) == shape_problems(t@, o, m as int));
        append_problems(&mut out, extra);
        m = m + 1;
    }
    out
}

// ---------------------------------------------------------------------------
// Specs.
// ---------------------------------------------------------------------------

pub open spec fn spec_node_problems(t: TopologyView, ni: int) -> Seq<ProblemView> {
    let n = t.nodes[ni].node;
    match n.spec {
        NodeSpecView::CanvasImport | NodeSpecView::CanvasExport(_) => seq![
            problem(
                ProblemSeverity::Error,
                ProblemKind::UnsupportedSpec,
                msg_unsupported(n.name),
                seq![n.id],
                seq![],
                seq![],
            ),
        ],
        NodeSpecView::Pod { ip, .. } => {
            let foreign = match ip_at(t, ip) {
                None => true,
                Some(r) => !server_known(t, t.ips[r].server),
            };
            if foreign {
                seq![
                    problem(
                        ProblemSeverity::Error,
                        ProblemKind::PodIpForeign,
                        msg_pod_foreign(n.name),
                        seq![n.id],
                        seq![],
                        seq![],
                    ),
                ]
            } else {
                Seq::empty()
            }
        },
        NodeSpecView::Exit { destination, .. } => if destination.len() == 0 {
            Seq::empty()
        } else if spec_parse_remote(destination) is Err {
            seq![
                problem(
                    ProblemSeverity::Error,
                    ProblemKind::ExitDestinationInvalid,
                    msg_exit_invalid(n.name, destination),
                    seq![n.id],
                    seq![],
                    seq![],
                ),
            ]
        } else {
            Seq::empty()
        },
        _ => Seq::empty(),
    }
}

/// Unsupported specs, pods on a foreign ip record, exits whose destination is not
/// `host:port`. An exit that has no destination yet is left to the warnings.
pub open spec fn check_specs(t: TopologyView) -> Seq<ProblemView> {
    let order = sorted_order(t);
    flat_pos(t, order, order.len() as int, |t: TopologyView, o: Seq<int>, m: int| spec_node_problems(t, o[m]))
}

fn spec_node_problems_exec(t: &CanvasTopology, ni: usize) -> (r: Vec<TopologyProblem>)
    requires
        ni < t.nodes.len(),
    ensures
        problems_view(r@) == spec_node_problems(t@, ni as int),
{
    let n = &t.nodes[ni].node;
    let mut out: Vec<TopologyProblem> = Vec::new();
    match &n.spec {
        NodeSpec::CanvasImport(_) | NodeSpec::CanvasExport(_) => {
            let p = TopologyProblem::error(
                ProblemKind::UnsupportedSpec,
                text2(
                    "node ",
                    &n.name,
                    ": canvas import/export is not supported until subcanvases land",
                ),
            ).with_nodes(one(&n.id));
            out.push(p);
        },
        NodeSpec::Pod(cfg) => {
            let foreign = match ip_at_exec(t, &cfg.ip) {
                None => true,
                Some(r) => !server_known_exec(t, &t.ips[r].server),
            };
            if foreign {
                let p = TopologyProblem::error(
                    ProblemKind::PodIpForeign,
                    text2("pod ", &n.name, " references an ip record outside this canvas"),
                ).with_nodes(one(&n.id));
                out.push(p);
            }
        },
        NodeSpec::Exit(cfg) => {
            if cfg.destination.as_str().is_empty() {
            } else if Remote::parse(cfg.destination.as_str()).is_err() {
                let mut m = String::new();
                push_str(&mut m, "exit ");
                push_str(&mut m, n.name.as_str());
                push_str(&mut m, " destination '");
                push_str(&mut m, cfg.destination.as_str());
                push_str(&mut m, "' is not host:port");
                assert(m@ =~= msg_exit_invalid(n.name@, cfg.destination@));
                let p = TopologyProblem::error(ProblemKind::ExitDestinationInvalid, m).with_nodes(
                    one(&n.id),
                );
                out.push(p);
            }
        },
        _ => {},
    }
    assert(problems_view(out@) =~= spec_node_problems(t@, ni as int));
    out
}

pub(crate) fn check_specs_exec(t: &CanvasTopology, order: &Vec<usize>) -> (r: Vec<TopologyProblem>)
    requires
        order_ok(t@, idxs(*order)),
    ensures
        problems_view(r@) == check_specs(t@),
{
    let ghost o = idxs(*order);
    let ghost f = |t: TopologyView, o: Seq<int>, m: int| spec_node_problems(t, o[m]);
    let mut out: Vec<TopologyProblem> = Vec::new();
    let mut m: usize = 0;
    while m < order.len()
        invariant
            m <= order.len(),
            o == idxs(*order),
            order_ok(t@, o),
            f == (|t: TopologyView, o: Seq<int>, m: int| spec_node_problems(t, o[m])),
            problems_view(out@) == flat_pos(t@, o, m as int, f),
        decreases order.len() - m,
    {
        assert(0 <= o[m as int] < t.nodes.len());
        let extra = spec_node_problems_exec(t, order[m]);
        append_problems(&mut out, extra);
        m = m + 1;
    }
    out
}


// ---------------------------------------------------------------------------
// Duplicate listeners.
// ---------------------------------------------------------------------------

/// A pod listens over QUIC iff its listen output is consumed by a QUIC relay.
pub open spec fn pod_is_quic(t: TopologyView, ni: int) -> bool {
    let n = t.nodes[ni];
    match port_by_key(n, "listen"@) {
        Some(j) => match peer_first(t, n.ports[j].id) {
            Some(p) => t.nodes[p].node.spec matches NodeSpecView::Relay { protocol, .. } && protocol
                == RelayProtocol::Quic,
            None => false,
        },
        None => false,
    }
}

/// The listener a pod claims: its ip record, port and transport.
pub open spec fn listen_key_of(t: TopologyView, ni: int) -> Option<(Seq<char>, u16, bool)> {
    match t.nodes[ni].node.spec {
        NodeSpecView::Pod { ip, port } => Some((ip, port, pod_is_quic(t, ni))),
        _ => None,
    }
}

/// The text of an ip record, or its key when the record is unknown.
pub open spec fn ip_text(t: TopologyView, key: Seq<char>) -> Seq<char> {
    match ip_at(t, key) {
        Some(r) => t.ips[r].ip,
        None => key,
    }
}

/// A pod that claims the listener of an earlier pod in the order is reported
/// together with the first pod that claimed it.
pub open spec fn dup_problems(t: TopologyView, order: Seq<int>, m: int) -> Seq<ProblemView> {
    match listen_key_of(t, order[m]) {
        None => Seq::empty(),
        Some(k) => match first_where(
            order.subrange(0, m),
            |x: int| listen_key_of(t, x) == Some(k),
        ) {
            None => Seq::empty(),
            Some(f) => {
                let a = t.nodes[order[f]].node;
                let b = t.nodes[order[m]].node;
                seq![
                    problem(
                        ProblemSeverity::Error,
                        ProblemKind::DuplicateListen,
                        msg_duplicate(a.name, b.name, ip_text(t, k.0), k.1, k.2),
                        seq![a.id, b.id],
                        seq![],
                        seq![],
                    ),
                ]
            },
        },
    }
}

pub open spec fn check_duplicate_listen(t: TopologyView) -> Seq<ProblemView> {
    let order = sorted_order(t);
    flat_pos(t, order, order.len() as int, |t: TopologyView, o: Seq<int>, m: int| dup_problems(t, o, m))
}

fn pod_is_quic_exec(t: &CanvasTopology, ni: usize) -> (r: bool)
    requires
        ni < t.nodes.len(),
    ensures
        r == pod_is_quic(t@, ni as int),
{
    let n = &t.nodes[ni];
    match port_by_key_exec(n, "listen") {
        Some(j) => match peer_first_exec(t, &n.ports[j].id) {
            Some(p) => match &t.nodes[p].node.spec {
                NodeSpec::Relay(cfg) => cfg.protocol == RelayProtocol::Quic,
                _ => false,
            },
            None => false,
        },
        None => false,
    }
}

pub open spec fn key_view(k: Option<(String, u16, bool)>) -> Option<(Seq<char>, u16, bool)> {
    match k {
        Some((a, b, c)) => Some((a@, b, c)),
        None => None,
    }
}

fn listen_key_exec(t: &CanvasTopology, ni: usize) -> (r: Option<(String, u16, bool)>)
    requires
        ni < t.nodes.len(),
    ensures
        key_view(r) == listen_key_of(t@, ni as int),
{
    match &t.nodes[ni].node.spec {
        NodeSpec::Pod(cfg) => Some((cfg.ip.clone(), cfg.port, pod_is_quic_exec(t, ni))),
        _ => None,
    }
}

pub(crate) fn check_duplicate_listen_exec(t: &CanvasTopology, order: &Vec<usize>) -> (r: Vec<TopologyProblem>)
    requires
        order_ok(t@, idxs(*order)),
    ensures
        problems_view(r@) == check_duplicate_listen(t@),
{
    let ghost o = idxs(*order);
    let ghost f = |t: TopologyView, o: Seq<int>, m: int| dup_problems(t, o, m);
    // The listener each position claims.
    let mut keys: Vec<Option<(String, u16, bool)>> = Vec::new();
    let mut m: usize = 0;
    while m < order.len()
        invariant
            m <= order.len(),
            o == idxs(*order),
            order_ok(t@, o),
            keys.len() == m,
            forall|q: int| 0 <= q < m ==> key_view(#[trigger] keys@[q]) == listen_key_of(t@, o[q]),
        decreases order.len() - m,
    {
        assert(0 <= o[m as int] < t.nodes.len());
        let k = listen_key_exec(t, order[m]);
        keys.push(k);
        m = m + 1;
    }
    let mut out: Vec<TopologyProblem> = Vec::new();
    let mut m: usize = 0;
    while m < order.len()
        invariant
            m <= order.len(),
            o == idxs(*order),
            order_ok(t@, o),
            keys.len() == order.len(),
            forall|q: int| 0 <= q < order.len() ==> key_view(#[trigger] keys@[q]) == listen_key_of(t@, o[q]),
            f == (|t: TopologyView, o: Seq<int>, m: int| dup_problems(t, o, m)),
            problems_view(out@) == flat_pos(t@, o, m as int, f),
        decreases order.len() - m,
    {
        let ghost before = problems_view(out@);
        match &keys[m] {
            None => {
                assert(dup_problems(t@, o, m as int) =~= Seq::<ProblemView>::empty());
                assert(problems_view(out@) =~= before + dup_problems(t@, o, m as int));
            },
            Some((ip, port, quic)) => {
                let ghost kk = (ip@, *port, *quic);
                let ghost pred = |x: int| listen_key_of(t@, x) == Some(kk);
                let ghost pre = o.subrange(0, m as int);
                let mut q: usize = 0;
                let mut found: Option<usize> = None;
                while q < m
                    invariant_except_break
                        found is None,
                    invariant
                        q <= m < order.len(),
                        o == idxs(*order),
                        o.len() == order.len(),
                        keys.len() == order.len(),
                        pre == o.subrange(0, m as int),
                        pre.len() == m,
                        kk == (ip@, *port, *quic),
                        pred == (|x: int| listen_key_of(t@, x) == Some(kk)),
                        forall|z: int| 0 <= z < order.len() ==> key_view(#[trigger] keys@[z]) == listen_key_of(t@, o[z]),
                        forall|z: int| 0 <= z < q ==> !pred(#[trigger] pre[z]),
                    ensures
                        match found {
                            Some(fq) => fq < m && first_where(pre, pred) == Some(fq as int),
                            None => q == m,
                        },
                    decreases m - q,
                {
                    let hit = match &keys[q] {
                        Some(k2) => {
                            let same = string_eq(&k2.0, ip) && k2.1 == *port && k2.2 == *quic;
                            assert(key_view(keys@[q as int]) == Some((k2.0@, k2.1, k2.2)));
                            assert(same == ((k2.0@, k2.1, k2.2) == kk));
                            same
                        },
                        None => false,
                    };
                    assert(pre[q as int] == o[q as int]);
                    assert(key_view(keys@[q as int]) == listen_key_of(t@, o[q as int]));
                    assert(hit == (key_view(keys@[q as int]) == Some(kk)));
                    assert(pred(pre[q as int]) == (listen_key_of(t@, o[q as int]) == Some(kk)));
                    assert(hit == pred(pre[q as int]));
                    if hit {
                        proof {
                            lemma_first_where(pre, pred, q as int);
                        }
                        found = Some(q);
                        break;
                    }
                    q = q + 1;
                }
                proof {
                    if found is None {
                        lemma_first_where(pre, pred, m as int);
                    }
                }
                match found {
                    None => {
                        assert(problems_view(out@) =~= before + dup_problems(t@, o, m as int));
                    },
                    Some(fq) => {
                        assert(0 <= o[fq as int] < t.nodes.len());
                        assert(0 <= o[m as int] < t.nodes.len());
                        let a = &t.nodes[order[fq]].node;
                        let b = &t.nodes[order[m]].node;
                        let ip_txt = match ip_at_exec(t, ip) {
                            Some(r) => t.ips[r].ip.clone(),
                            None => ip.clone(),
                        };
                        let mut msg = String::new();
                        push_str(&mut msg, "pods ");
                        push_str(&mut msg, a.name.as_str());
                        push_str(&mut msg, " and ");
                        push_str(&mut msg, b.name.as_str());
                        push_str(&mut msg, " both listen on ");
                        push_str(&mut msg, ip_txt.as_str());
                        push_str(&mut msg, ":");
                        push_decimal(&mut msg, *port as u128);
                        push_str(&mut msg, " (");
                        push_str(&mut msg, if *quic { "quic" } else { "tcp" });
                        push_str(&mut msg, ")");
                        assert(msg@ =~= msg_duplicate(a.name@, b.name@, ip_text(t@, ip@), *port, *quic));
                        let p = TopologyProblem::error(ProblemKind::DuplicateListen, msg).with_nodes(
                            two(&a.id, &b.id),
                        );
                        out.push(p);
                        assert(problems_view(out@) =~= before + dup_problems(t@, o, m as int));
                    },
                }
            },
        }
        m = m + 1;
    }
    out
}

// ---------------------------------------------------------------------------
// ip_hash without a known client address.
// ---------------------------------------------------------------------------

pub open spec fn ports_len(t: TopologyView, ni: int) -> int {
    t.nodes[ni].ports.len() as int
}

/// Whether the destination subtree behind node `ni` hashes on the client address.
/// The walk gives up past depth 64: a cycle is reported separately.
pub open spec fn iphash_reachable(t: TopologyView, ni: int, depth: int) -> bool
    decreases 65 - depth, ports_len(t, ni) + 1,
{
    if depth > 64 || depth < 0 {
        false
    } else {
        match t.nodes[ni].node.spec {
            NodeSpecView::LoadBalanceDistribute { mode } => mode == LoadBalanceMode::IpHash
                || members_iphash(t, ni, 0, depth),
            NodeSpecView::LoadBalanceAggregate => match first_where(
                t.nodes[ni].ports,
                |p: PortView| p.direction == PortDirection::Input,
            ) {
                Some(j) => match peer_first(t, t.nodes[ni].ports[j].id) {
                    Some(src) => iphash_reachable(t, src, depth + 1),
                    None => false,
                },
                None => false,
            },
            _ => false,
        }
    }
}

/// Whether one of the members fed into ports `j..` of node `ni` reaches `ip_hash`.
pub open spec fn members_iphash(t: TopologyView, ni: int, j: int, depth: int) -> bool
    decreases 65 - depth, ports_len(t, ni) - j,
{
    if depth > 64 || depth < 0 || j < 0 || j >= ports_len(t, ni) {
        false
    } else {
        (t.nodes[ni].ports[j].direction == PortDirection::Input && match peer_first(
            t,
            t.nodes[ni].ports[j].id,
        ) {
            Some(m) => iphash_reachable(t, m, depth + 1),
            None => false,
        }) || members_iphash(t, ni, j + 1, depth)
    }
}

fn first_input_port(n: &NodeWithPorts) -> (r: Option<usize>)
    ensures
        opt_idx(r) == first_where(n@.ports, |p: PortView| p.direction == PortDirection::Input),
        r matches Some(j) ==> j < n.ports.len(),
{
    let ghost p = |q: PortView| q.direction == PortDirection::Input;
    let mut j: usize = 0;
    while j < n.ports.len()
        invariant
            j <= n.ports.len(),
            p == (|q: PortView| q.direction == PortDirection::Input),
            forall|m: int| 0 <= m < j ==> !p(#[trigger] n@.ports[m]),
        decreases n.ports.len() - j,
    {
        if n.ports[j].direction == PortDirection::Input {
            proof {
                lemma_first_where(n@.ports, p, j as int);
            }
            return Some(j);
        }
        j = j + 1;
    }
    proof {
        lemma_first_where(n@.ports, p, j as int);
    }
    None
}

fn iphash_reachable_exec(t: &CanvasTopology, ni: usize, depth: usize) -> (r: bool)
    requires
        ni < t.nodes.len(),
    ensures
        r == iphash_reachable(t@, ni as int, depth as int),
    decreases 65 - depth, t.nodes[ni as int].ports.len() + 1,
{
    if depth > 64 {
        return false;
    }
    let n = &t.nodes[ni];
    match &n.node.spec {
        NodeSpec::LoadBalanceDistribute(cfg) => {
            if cfg.mode == LoadBalanceMode::IpHash {
                return true;
            }
            members_iphash_exec(t, ni, 0, depth)
        },
        NodeSpec::LoadBalanceAggregate(_) => match first_input_port(n) {
            Some(j) => match peer_first_exec(t, &n.ports[j].id) {
                Some(src) => iphash_reachable_exec(t, src, depth + 1),
                None => false,
            },
            None => false,
        },
        _ => false,
    }
}

fn members_iphash_exec(t: &CanvasTopology, ni: usize, j: usize, depth: usize) -> (r: bool)
    requires
        ni < t.nodes.len(),
        depth <= 64,
    ensures
        r == members_iphash(t@, ni as int, j as int, depth as int),
    decreases 65 - depth, t.nodes[ni as int].ports.len() - j,
{
    let n = &t.nodes[ni];
    if j >= n.ports.len() {
        return false;
    }
    let here = if n.ports[j].direction == PortDirection::Input {
        match peer_first_exec(t, &n.ports[j].id) {
            Some(m) => iphash_reachable_exec(t, m, depth + 1),
            None => false,
        }
    } else {
        false
    };
    if here {
        return true;
    }
    members_iphash_exec(t, ni, j + 1, depth)
}

proof fn lemma_members_iphash_at(t: TopologyView, ni: int, k: int, j: int, depth: int, m: int)
    requires
        0 <= k <= j < ports_len(t, ni),
        0 <= depth <= 64,
        t.nodes[ni].ports[j].direction == PortDirection::Input,
        peer_first(t, t.nodes[ni].ports[j].id) == Some(m),
        iphash_reachable(t, m, depth + 1),
    ensures
        members_iphash(t, ni, k, depth),
    decreases j - k,
{
    if k < j {
        lemma_members_iphash_at(t, ni, k + 1, j, depth, m);
    }
}

/// An `ip_hash` group is found at any depth of a destination tree (up to the walk's
/// bound): a distribute node in `ip_hash` mode hashes; a distribute node hashes when
/// any of its member inputs is fed by a subtree that hashes; an aggregate node hashes
/// when the source of its first input hashes.
pub proof fn ip_hash_is_found_through_members_and_sources(t: TopologyView, ni: int, depth: int, j: int)
    requires
        0 <= depth <= 64,
    ensures
        t.nodes[ni].node.spec == (NodeSpecView::LoadBalanceDistribute { mode: LoadBalanceMode::IpHash })
            ==> iphash_reachable(t, ni, depth),
        (peer_first(t, t.nodes[ni].ports[j].id) matches Some(m) && t.nodes[ni].node.spec is LoadBalanceDistribute
            && 0 <= j < t.nodes[ni].ports.len() && t.nodes[ni].ports[j].direction == PortDirection::Input
            && iphash_reachable(t, m, depth + 1)) ==> iphash_reachable(t, ni, depth),
        (peer_first(t, t.nodes[ni].ports[j].id) matches Some(m) && t.nodes[ni].node.spec is LoadBalanceAggregate
            && 0 <= j < t.nodes[ni].ports.len() && t.nodes[ni].ports[j].direction == PortDirection::Input
            && (forall|k: int| 0 <= k < j ==> (#[trigger] t.nodes[ni].ports[k]).direction != PortDirection::Input)
            && iphash_reachable(t, m, depth + 1)) ==> iphash_reachable(t, ni, depth),
{
    if 0 <= j < t.nodes[ni].ports.len() && t.nodes[ni].ports[j].direction == PortDirection::Input {
        if let Some(m) = peer_first(t, t.nodes[ni].ports[j].id) {
            if iphash_reachable(t, m, depth + 1) {
                if t.nodes[ni].node.spec is LoadBalanceDistribute {
                    lemma_members_iphash_at(t, ni, 0, j, depth, m);
                }
                if t.nodes[ni].node.spec is LoadBalanceAggregate && (forall|k: int|
                    0 <= k < j ==> (#[trigger] t.nodes[ni].ports[k]).direction != PortDirection::Input) {
                    lemma_first_where(
                        t.nodes[ni].ports,
                        |p: PortView| p.direction == PortDirection::Input,
                        j,
                    );
                }
            }
        }
    }
}

/// Whether the client address reaches the pod: only an entry without PROXY protocol
/// hides it (a relay hop always carries PROXY v2).
pub open spec fn client_ip_known(t: TopologyView, ni: int) -> bool {
    let n = t.nodes[ni];
    match port_by_key(n, "listen"@) {
        Some(j) => match peer_first(t, n.ports[j].id) {
            Some(c) => match t.nodes[c].node.spec {
                NodeSpecView::Entry { receive_proxy_protocol, .. } => receive_proxy_protocol is Some,
                _ => true,
            },
            None => true,
        },
        None => true,
    }
}

pub open spec fn uses_hash(t: TopologyView, ni: int) -> bool {
    let n = t.nodes[ni];
    match port_by_key(n, "destination"@) {
        Some(j) => match peer_first(t, n.ports[j].id) {
            Some(p) => iphash_reachable(t, p, 0),
            None => false,
        },
        None => false,
    }
}

pub open spec fn ip_hash_problems(t: TopologyView, ni: int) -> Seq<ProblemView> {
    let n = t.nodes[ni].node;
    if n.spec is Pod && !client_ip_known(t, ni) && uses_hash(t, ni) {
        seq![
            problem(
                ProblemSeverity::Error,
                ProblemKind::IpHashWithoutClientIp,
                msg_ip_hash(n.name),
                seq![n.id],
                seq![],
                seq![],
            ),
        ]
    } else {
        Seq::empty()
    }
}

pub open spec fn check_ip_hash(t: TopologyView) -> Seq<ProblemView> {
    let order = sorted_order(t);
    flat_pos(t, order, order.len() as int, |t: TopologyView, o: Seq<int>, m: int| ip_hash_problems(t, o[m]))
}

fn ip_hash_problems_exec(t: &CanvasTopology, ni: usize) -> (r: Vec<TopologyProblem>)
    requires
        ni < t.nodes.len(),
    ensures
        problems_view(r@) == ip_hash_problems(t@, ni as int),
{
    let n = &t.nodes[ni];
    let mut out: Vec<TopologyProblem> = Vec::new();
    let is_pod = match &n.node.spec {
        NodeSpec::Pod(_) => true,
        _ => false,
    };
    if !is_pod {
        assert(problems_view(out@) =~= ip_hash_problems(t@, ni as int));
        return out;
    }
    let known = match port_by_key_exec(n, "listen") {
        Some(j) => match peer_first_exec(t, &n.ports[j].id) {
            Some(c) => match &t.nodes[c].node.spec {
                NodeSpec::Entry(cfg) => cfg.receive_proxy_protocol.is_some(),
                _ => true,
            },
            None => true,
        },
        None => true,
    };
    if known {
        assert(problems_view(out@) =~= ip_hash_problems(t@, ni as int));
        return out;
    }
    let hashed = match port_by_key_exec(n, "destination") {
        Some(j) => match peer_first_exec(t, &n.ports[j].id) {
            Some(p) => iphash_reachable_exec(t, p, 0),
            None => false,
        },
        None => false,
    };
    if hashed {
        let p = TopologyProblem::error(
            ProblemKind::IpHashWithoutClientIp,
            text2(
                "load balancer under pod ",
                &n.node.name,
                " uses ip_hash but the client address is unknown",
            ),
        ).with_nodes(one(&n.node.id));
        out.push(p);
    }
    assert(problems_view(out@) =~= ip_hash_problems(t@, ni as int));
    out
}

pub(crate) fn check_ip_hash_exec(t: &CanvasTopology, order: &Vec<usize>) -> (r: Vec<TopologyProblem>)
    requires
        order_ok(t@, idxs(*order)),
    ensures
        problems_view(r@) == check_ip_hash(t@),
{
    let ghost o = idxs(*order);
    let ghost f = |t: TopologyView, o: Seq<int>, m: int| ip_hash_problems(t, o[m]);
    let mut out: Vec<TopologyProblem> = Vec::new();
    let mut m: usize = 0;
    while m < order.len()
        invariant
            m <= order.len(),
            o == idxs(*order),
            order_ok(t@, o),
            f == (|t: TopologyView, o: Seq<int>, m: int| ip_hash_problems(t, o[m])),
            problems_view(out@) == flat_pos(t@, o, m as int, f),
        decreases order.len() - m,
    {
        assert(0 <= o[m as int] < t.nodes.len());
        let extra = ip_hash_problems_exec(t, order[m]);
        append_problems(&mut out, extra);
        m = m + 1;
    }
    out
}

// ---------------------------------------------------------------------------
// Warnings.
// ---------------------------------------------------------------------------

/// The server a pod listens on.
pub open spec fn pod_server(t: TopologyView, ni: int) -> Option<Seq<char>> {
    match t.nodes[ni].node.spec {
        NodeSpecView::Pod { ip, .. } => match ip_at(t, ip) {
            Some(r) => Some(t.ips[r].server),
            None => None,
        },
        _ => None,
    }
}

pub open spec fn peer_via(t: TopologyView, ni: int, key: Seq<char>) -> Option<int> {
    match port_by_key(t.nodes[ni], key) {
        Some(j) => peer_first(t, t.nodes[ni].ports[j].id),
        None => None,
    }
}

/// How many input ports of node `ni` carry an edge.
pub open spec fn connected_inputs(t: TopologyView, ni: int) -> nat {
    t.nodes[ni].ports.filter(
        |p: PortView| p.direction == PortDirection::Input && edge_first(t, p.id) is Some,
    ).len()
}

pub open spec fn warning_problems(t: TopologyView, ni: int) -> Seq<ProblemView> {
    let n = t.nodes[ni];
    let w = |k: ProblemKind, msg: Seq<char>|
        seq![problem(ProblemSeverity::Warning, k, msg, seq![n.node.id], seq![], seq![])];
    match n.node.spec {
        NodeSpecView::Pod { .. } => if exists|j: int|
            0 <= j < n.ports.len() && (#[trigger] edge_first(t, n.ports[j].id)) is None {
            w(ProblemKind::PodPortUnconnected, msg_unconnected(n.node.name))
        } else {
            Seq::empty()
        },
        NodeSpecView::Relay { .. } => match (peer_via(t, ni, "listen"@), peer_via(t, ni, "destination"@)) {
            (Some(a), Some(b)) => match (pod_server(t, a), pod_server(t, b)) {
                (Some(sa), Some(sb)) => if sa == sb {
                    w(ProblemKind::RelaySameServer, msg_relay_same_server(n.node.name))
                } else {
                    Seq::empty()
                },
                _ => Seq::empty(),
            },
            _ => Seq::empty(),
        },
        NodeSpecView::LoadBalanceDistribute { .. } => if connected_inputs(t, ni) == 1 {
            w(ProblemKind::DistributeSingleMember, msg_single_member(n.node.name))
        } else {
            Seq::empty()
        },
        NodeSpecView::Exit { destination, .. } => if destination.len() == 0 {
            w(ProblemKind::ExitDestinationInvalid, msg_exit_empty(n.node.name))
        } else {
            Seq::empty()
        },
        _ => Seq::empty(),
    }
}

pub open spec fn check_warnings(t: TopologyView) -> Seq<ProblemView> {
    let order = sorted_order(t);
    flat_pos(t, order, order.len() as int, |t: TopologyView, o: Seq<int>, m: int| warning_problems(t, o[m]))
}

fn pod_server_exec(t: &CanvasTopology, ni: usize) -> (r: Option<&String>)
    requires
        ni < t.nodes.len(),
    ensures
        match r {
            Some(s) => pod_server(t@, ni as int) == Some(s@),
            None => pod_server(t@, ni as int) is None,
        },
{
    match &t.nodes[ni].node.spec {
        NodeSpec::Pod(cfg) => match ip_at_exec(t, &cfg.ip) {
            Some(r) => Some(&t.ips[r].server),
            None => None,
        },
        _ => None,
    }
}

fn peer_via_exec(t: &CanvasTopology, ni: usize, key: &str) -> (r: Option<usize>)
    requires
        ni < t.nodes.len(),
    ensures
        opt_idx(r) == peer_via(t@, ni as int, key@),
        r matches Some(i) ==> i < t.nodes.len(),
{
    let n = &t.nodes[ni];
    match port_by_key_exec(n, key) {
        Some(j) => peer_first_exec(t, &n.ports[j].id),
        None => None,
    }
}

fn warning_problems_exec(t: &CanvasTopology, ni: usize) -> (r: Vec<TopologyProblem>)
    requires
        ni < t.nodes.len(),
    ensures
        problems_view(r@) == warning_problems(t@, ni as int),
{
    let n = &t.nodes[ni];
    let mut out: Vec<TopologyProblem> = Vec::new();
    match &n.node.spec {
        NodeSpec::Pod(_) => {
            let mut j: usize = 0;
            let mut loose = false;
            while j < n.ports.len()
                invariant
                    j <= n.ports.len(),
                    ni < t.nodes.len(),
                    n == &t.nodes[ni as int],
                    loose == exists|q: int| 0 <= q < j && (#[trigger] edge_first(t@, n@.ports[q].id)) is None,
                decreases n.ports.len() - j,
            {
                let e = edge_first_exec(t, &n.ports[j].id);
                assert(n@.ports[j as int].id == n.ports[j as int].id@);
                if e.is_none() {
                    assert(edge_first(t@, n@.ports[j as int].id) is None);
                    loose = true;
                } else {
                    assert(edge_first(t@, n@.ports[j as int].id) is Some);
                }
                j = j + 1;
            }
            if loose {
                let p = TopologyProblem::warning(
                    ProblemKind::PodPortUnconnected,
                    text2("pod ", &n.node.name, " has an unconnected port; it will be skipped"),
                ).with_nodes(one(&n.node.id));
                out.push(p);
            }
        },
        NodeSpec::Relay(_) => {
            let a = peer_via_exec(t, ni, "listen");
            let b = peer_via_exec(t, ni, "destination");
            if let (Some(a), Some(b)) = (a, b) {
                if let (Some(sa), Some(sb)) = (pod_server_exec(t, a), pod_server_exec(t, b)) {
                    if *sa == *sb {
                        let p = TopologyProblem::warning(
                            ProblemKind::RelaySameServer,
                            text2("relay ", &n.node.name, " hops within one server"),
                        ).with_nodes(one(&n.node.id));
                        out.push(p);
                    }
                }
            }
        },
        NodeSpec::LoadBalanceDistribute(_) => {
            let ghost pc = |p: PortView| p.direction == PortDirection::Input && edge_first(t@, p.id) is Some;
            let mut c: usize = 0;
            let mut j: usize = 0;
            while j < n.ports.len()
                invariant
                    j <= n.ports.len(),
                    ni < t.nodes.len(),
                    n == &t.nodes[ni as int],
                    pc == (|p: PortView| p.direction == PortDirection::Input && edge_first(t@, p.id) is Some),
                    c == n@.ports.subrange(0, j as int).filter(pc).len(),
                    c <= j,
                decreases n.ports.len() - j,
            {
                proof {
                    lemma_filter_step(n@.ports, pc, j as int);
                }
                if n.ports[j].direction == PortDirection::Input && edge_first_exec(t, &n.ports[j].id).is_some() {
                    c = c + 1;
                }
                j = j + 1;
            }
            assert(n@.ports.subrange(0, n.ports.len() as int) =~= n@.ports);
            if c == 1 {
                let p = TopologyProblem::warning(
                    ProblemKind::DistributeSingleMember,
                    text2("load balancer ", &n.node.name, " has a single member"),
                ).with_nodes(one(&n.node.id));
                out.push(p);
            }
        },
        NodeSpec::Exit(cfg) => {
            if cfg.destination.as_str().is_empty() {
                let p = TopologyProblem::warning(
                    ProblemKind::ExitDestinationInvalid,
                    text2("exit ", &n.node.name, " has no destination yet"),
                ).with_nodes(one(&n.node.id));
                out.push(p);
            }
        },
        _ => {},
    }
    assert(problems_view(out@) =~= warning_problems(t@, ni as int));
    out
}

pub(crate) fn check_warnings_exec(t: &CanvasTopology, order: &Vec<usize>) -> (r: Vec<TopologyProblem>)
    requires
        order_ok(t@, idxs(*order)),
    ensures
        problems_view(r@) == check_warnings(t@),
{
    let ghost o = idxs(*order);
    let ghost f = |t: TopologyView, o: Seq<int>, m: int| warning_problems(t, o[m]);
    let mut out: Vec<TopologyProblem> = Vec::new();
    let mut m: usize = 0;
    while m < order.len()
        invariant
            m <= order.len(),
            o == idxs(*order),
            order_ok(t@, o),
            f == (|t: TopologyView, o: Seq<int>, m: int| warning_problems(t, o[m])),
            problems_view(out@) == flat_pos(t@, o, m as int, f),
        decreases order.len() - m,
    {
        assert(0 <= o[m as int] < t.nodes.len());
        let extra = warning_problems_exec(t, order[m]);
        append_problems(&mut out, extra);
        m = m + 1;
    }
    out
}

} // verus!
