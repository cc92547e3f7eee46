//! Topology problems, and the projection of pending edits onto a topology.
//!
//! Every mutation runs the checker ([`crate::checks`]) on the topology it *would*
//! produce ([`CanvasTopology::project`]) and is rejected before anything is written.

use crate::model::{
    dup_opt_string, CanvasTopology, EdgeConnectionEntity, EdgeView, IpRecordView, NodeEntity,
    NodeView, NodeWithPorts, NodeWithPortsView, PortEntity, PortView, ServerEntity,
    ServerIpv6Resolve, ServerView, TopologyView, duplicate_ports,
};
use crate::seqs::lemma_filter_step;
use vstd::prelude::*;

verus! {

#[derive(Debug, Clone, Copy, PartialEq, Eq, Structural)]
pub enum ProblemSeverity {
    Error,
    Warning,
}

#[derive(Debug, Clone, Copy, PartialEq, Eq, Structural)]
pub enum ProblemKind {
    PortKindMismatch,
    EdgeDirectionInvalid,
    EdgeSelfNode,
    EdgeCrossCanvas,
    PortOversubscribed,
    PortShapeInvalid,
    Cycle,
    DuplicateListen,
    PodIpForeign,
    ExitDestinationInvalid,
    IpHashWithoutClientIp,
    UnsupportedSpec,
    PodPortUnconnected,
    RelaySameServer,
    DistributeSingleMember,
}

/// One finding of the topology checker, naming the rows it concerns.
#[derive(Debug)]
pub struct TopologyProblem {
    pub severity: ProblemSeverity,
    pub kind: ProblemKind,
    pub message: String,
    pub nodes: Vec<String>,
    pub edges: Vec<String>,
    pub ports: Vec<String>,
}

pub struct ProblemView {
    pub severity: ProblemSeverity,
    pub kind: ProblemKind,
    pub message: Seq<char>,
    pub nodes: Seq<Seq<char>>,
    pub edges: Seq<Seq<char>>,
    pub ports: Seq<Seq<char>>,
}

pub open spec fn strs(v: Vec<String>) -> Seq<Seq<char>> {
    v@.map_values(|s: String| s@)
}

impl View for TopologyProblem {
    type V = ProblemView;

    open spec fn view(&self) -> ProblemView {
        ProblemView {
            severity: self.severity,
            kind: self.kind,
            message: self.message@,
            nodes: strs(self.nodes),
            edges: strs(self.edges),
            ports: strs(self.ports),
        }
    }
}

pub open spec fn problems_view(v: Seq<TopologyProblem>) -> Seq<ProblemView> {
    v.map_values(|p: TopologyProblem| p@)
}

pub open spec fn problem(
    severity: ProblemSeverity,
    kind: ProblemKind,
    message: Seq<char>,
    nodes: Seq<Seq<char>>,
    edges: Seq<Seq<char>>,
    ports: Seq<Seq<char>>,
) -> ProblemView {
    ProblemView { severity, kind, message, nodes, edges, ports }
}

impl TopologyProblem {
    /// An error of `kind` naming no rows yet.
    pub fn error(kind: ProblemKind, message: String) -> (r: TopologyProblem)
        ensures
            r@ == problem(ProblemSeverity::Error, kind, message@, seq![], seq![], seq![]),
    {
        let r = TopologyProblem {
            severity: ProblemSeverity::Error,
            kind,
            message,
            nodes: Vec::new(),
            edges: Vec::new(),
            ports: Vec::new(),
        };
        assert(strs(r.nodes) =~= seq![]);
        assert(strs(r.edges) =~= seq![]);
        assert(strs(r.ports) =~= seq![]);
        r
    }

    /// A warning of `kind` naming no rows yet.
    pub fn warning(kind: ProblemKind, message: String) -> (r: TopologyProblem)
        ensures
            r@ == problem(ProblemSeverity::Warning, kind, message@, seq![], seq![], seq![]),
    {
        let r = TopologyProblem {
            severity: ProblemSeverity::Warning,
            kind,
            message,
            nodes: Vec::new(),
            edges: Vec::new(),
            ports: Vec::new(),
        };
        assert(strs(r.nodes) =~= seq![]);
        assert(strs(r.edges) =~= seq![]);
        assert(strs(r.ports) =~= seq![]);
        r
    }

    pub fn with_nodes(self, nodes: Vec<String>) -> (r: TopologyProblem)
        ensures
            r@ == (ProblemView { nodes: strs(nodes), ..self@ }),
    {
        TopologyProblem { nodes, ..self }
    }

    pub fn with_edges(self, edges: Vec<String>) -> (r: TopologyProblem)
        ensures
            r@ == (ProblemView { edges: strs(edges), ..self@ }),
    {
        TopologyProblem { edges, ..self }
    }

    pub fn with_ports(self, ports: Vec<String>) -> (r: TopologyProblem)
        ensures
            r@ == (ProblemView { ports: strs(ports), ..self@ }),
    {
        TopologyProblem { ports, ..self }
    }
}

/// A one-element list holding a copy of `s`.
pub fn one(s: &String) -> (r: Vec<String>)
    ensures
        strs(r) == seq![s@],
{
    let mut v: Vec<String> = Vec::new();
    v.push(s.clone());
    assert(strs(v) =~= seq![s@]);
    v
}

/// A two-element list holding copies of `a` and `b`.
pub fn two(a: &String, b: &String) -> (r: Vec<String>)
    ensures
        strs(r) == seq![a@, b@],
{
    let mut v: Vec<String> = Vec::new();
    v.push(a.clone());
    v.push(b.clone());
    assert(strs(v) =~= seq![a@, b@]);
    v
}

/// The rejection of a topology: its first error.
#[derive(Debug)]
pub struct TopologyError {
    pub first: TopologyProblem,
}

/// One pending change to a topology, used to validate before writing.
#[derive(Debug)]
#[allow(inconsistent_fields)]
pub enum TopologyEdit {
    AddNode { node: Box<NodeEntity>, ports: Vec<PortEntity> },
    RetireNode { node: String },
    AddEdge { edge: EdgeConnectionEntity },
    RetireEdge { edge: String },
    RemoveIp { ip: String },
    SetServerSettings { server: String, ipv6_resolve: ServerIpv6Resolve, log_level: String },
}

#[allow(inconsistent_fields)]
pub enum EditView {
    AddNode { node: NodeView, ports: Seq<PortView> },
    RetireNode { node: Seq<char> },
    AddEdge { edge: EdgeView },
    RetireEdge { edge: Seq<char> },
    RemoveIp { ip: Seq<char> },
    SetServerSettings { server: Seq<char>, ipv6_resolve: ServerIpv6Resolve, log_level: Seq<char> },
}

impl View for TopologyEdit {
    type V = EditView;

    open spec fn view(&self) -> EditView {
        match self {
            TopologyEdit::AddNode { node, ports } => EditView::AddNode {
                node: node@,
                ports: ports@.map_values(|p: PortEntity| p@),
            },
            TopologyEdit::RetireNode { node } => EditView::RetireNode { node: node@ },
            TopologyEdit::AddEdge { edge } => EditView::AddEdge { edge: edge@ },
            TopologyEdit::RetireEdge { edge } => EditView::RetireEdge { edge: edge@ },
            TopologyEdit::RemoveIp { ip } => EditView::RemoveIp { ip: ip@ },
            TopologyEdit::SetServerSettings { server, ipv6_resolve, log_level } =>
                EditView::SetServerSettings {
                server: server@,
                ipv6_resolve: *ipv6_resolve,
                log_level: log_level@,
            },
        }
    }
}

/// The ids of the ports of the nodes in `ns` whose id is `node`, in order.
pub open spec fn ports_of_nodes(ns: Seq<NodeWithPortsView>, node: Seq<char>) -> Seq<Seq<char>>
    decreases ns.len(),
{
    if ns.len() == 0 {
        Seq::empty()
    } else {
        ports_of_nodes(ns.drop_last(), node) + (if ns.last().node.id == node {
            ns.last().ports.map_values(|p: PortView| p.id)
        } else {
            Seq::empty()
        })
    }
}

/// The topology after one edit.
pub open spec fn apply_edit(t: TopologyView, e: EditView) -> TopologyView {
    match e {
        EditView::AddNode { node, ports } => TopologyView {
            nodes: t.nodes.push(NodeWithPortsView { node, ports }),
            ..t
        },
        EditView::RetireNode { node } => TopologyView {
            nodes: t.nodes.filter(|n: NodeWithPortsView| n.node.id != node),
            edges: t.edges.filter(
                |x: EdgeView|
                    !ports_of_nodes(t.nodes, node).contains(x.source) && !ports_of_nodes(
                        t.nodes,
                        node,
                    ).contains(x.target),
            ),
            ..t
        },
        EditView::AddEdge { edge } => TopologyView { edges: t.edges.push(edge), ..t },
        EditView::RetireEdge { edge } => TopologyView {
            edges: t.edges.filter(|x: EdgeView| x.id != edge),
            ..t
        },
        EditView::RemoveIp { ip } => TopologyView {
            ips: t.ips.filter(|r: IpRecordView| r.id != ip),
            ..t
        },
        EditView::SetServerSettings { server, ipv6_resolve, log_level } => TopologyView {
            servers: t.servers.map_values(
                |s: ServerView|
                    if s.id == server {
                        ServerView { ipv6_resolve, log_level, ..s }
                    } else {
                        s
                    },
            ),
            ..t
        },
    }
}

/// The topology after the edits `es[i..]`, applied in order.
pub open spec fn apply_edits(t: TopologyView, es: Seq<EditView>, i: int) -> TopologyView
    decreases es.len() - i,
{
    if i < 0 || i >= es.len() {
        t
    } else {
        apply_edits(apply_edit(t, es[i]), es, i + 1)
    }
}

proof fn lemma_apply_edits_shift(t: TopologyView, a: Seq<EditView>, b: Seq<EditView>, j: int)
    requires
        0 <= j <= b.len(),
    ensures
        apply_edits(t, a + b, a.len() + j) == apply_edits(t, b, j),
    decreases b.len() - j,
{
    if j < b.len() {
        assert((a + b)[a.len() + j] == b[j]);
        lemma_apply_edits_shift(apply_edit(t, b[j]), a, b, j + 1);
    }
}

proof fn lemma_apply_edits_split(t: TopologyView, a: Seq<EditView>, b: Seq<EditView>, i: int)
    requires
        0 <= i <= a.len(),
    ensures
        apply_edits(t, a + b, i) == apply_edits(apply_edits(t, a, i), b, 0),
    decreases a.len() - i,
{
    if i == a.len() {
        lemma_apply_edits_shift(t, a, b, 0);
    } else {
        assert((a + b)[i] == a[i]);
        lemma_apply_edits_split(apply_edit(t, a[i]), a, b, i + 1);
    }
}

/// Projecting edits is applying them one after another: projecting `a` then `b` is
/// projecting `a` followed by `b`, and projecting nothing leaves the topology as it is.
pub proof fn projection_composes(t: TopologyView, a: Seq<EditView>, b: Seq<EditView>)
    ensures
        apply_edits(t, a + b, 0) == apply_edits(apply_edits(t, a, 0), b, 0),
        apply_edits(t, Seq::empty(), 0) == t,
{
    lemma_apply_edits_split(t, a, b, 0);
}

fn retire_node(t: &mut CanvasTopology, key: &String)
    ensures
        final(t)@ == apply_edit(old(t)@, EditView::RetireNode { node: key@ }),
{
    let ghost t0 = t@;
    // The ports of the retiring node(s).
    let mut ports: Vec<String> = Vec::new();
    let mut i: usize = 0;
    while i < t.nodes.len()
        invariant
            t@ == t0,
            i <= t.nodes.len(),
            strs(ports) == ports_of_nodes(t0.nodes.subrange(0, i as int), key@),
        decreases t.nodes.len() - i,
    {
        let ghost pre = t0.nodes.subrange(0, i + 1);
        assert(pre.drop_last() =~= t0.nodes.subrange(0, i as int));
        assert(pre.last() == t0.nodes[i as int]);
        if t.nodes[i].node.id == *key {
            let mut j: usize = 0;
            let ghost before = strs(ports);
            let ghost ids = t0.nodes[i as int].ports.map_values(|p: PortView| p.id);
            while j < t.nodes[i].ports.len()
                invariant
                    t@ == t0,
                    i < t.nodes.len(),
                    ids == t0.nodes[i as int].ports.map_values(|p: PortView| p.id),
                    j <= t.nodes[i as int].ports.len(),
                    strs(ports) == before + ids.subrange(0, j as int),
                decreases t.nodes[i as int].ports.len() - j,
            {
                let ghost prev = strs(ports);
                ports.push(t.nodes[i].ports[j].id.clone());
                assert(strs(ports) =~= prev.push(ids[j as int]));
                assert(ids.subrange(0, j + 1) =~= ids.subrange(0, j as int).push(ids[j as int]));
                j = j + 1;
            }
            assert(ids.subrange(0, ids.len() as int) =~= ids);
        } else {
            assert(strs(ports) =~= ports_of_nodes(pre, key@));
        }
        i = i + 1;
    }
    assert(t0.nodes.subrange(0, t0.nodes.len() as int) =~= t0.nodes);
    // Keep the other nodes.
    let mut nodes: Vec<NodeWithPorts> = Vec::new();
    let mut old_nodes: Vec<NodeWithPorts> = Vec::new();
    std::mem::swap(&mut old_nodes, &mut t.nodes);
    let ghost pn = |n: NodeWithPortsView| n.node.id != key@;
    let ghost on = old_nodes@.map_values(|n: NodeWithPorts| n@);
    assert(on == t0.nodes);
    let mut k: usize = 0;
    while k < old_nodes.len()
        invariant
            k <= old_nodes.len(),
            on == old_nodes@.map_values(|n: NodeWithPorts| n@),
            pn == (|n: NodeWithPortsView| n.node.id != key@),
            nodes@.map_values(|n: NodeWithPorts| n@) == on.subrange(0, k as int).filter(pn),
        decreases old_nodes.len() - k,
    {
        proof {
            lemma_filter_step(on, pn, k as int);
        }
        if old_nodes[k].node.id != *key {
            let d = old_nodes[k].duplicate();
            let ghost prev = nodes@;
            nodes.push(d);
            assert(nodes@.map_values(|n: NodeWithPorts| n@) =~= prev.map_values(|n: NodeWithPorts| n@).push(d@));
        }
        k = k + 1;
    }
    assert(on.subrange(0, old_nodes.len() as int) =~= on);
    t.nodes = nodes;
    // Keep the edges that touch none of those ports.
    let mut edges: Vec<EdgeConnectionEntity> = Vec::new();
    let ghost rp = ports_of_nodes(t0.nodes, key@);
    let ghost pe = |x: EdgeView| !rp.contains(x.source) && !rp.contains(x.target);
    let mut k: usize = 0;
    while k < t.edges.len()
        invariant
            k <= t.edges.len(),
            t@.edges == t0.edges,
            rp == ports_of_nodes(t0.nodes, key@),
            pe == (|x: EdgeView| !rp.contains(x.source) && !rp.contains(x.target)),
            strs(ports) == rp,
            edges@.map_values(|e: EdgeConnectionEntity| e@) == t0.edges.subrange(0, k as int).filter(pe),
        decreases t.edges.len() - k,
    {
        proof {
            lemma_filter_step(t0.edges, pe, k as int);
        }
        let src_in = contains_string(&ports, &t.edges[k].source);
        let dst_in = contains_string(&ports, &t.edges[k].target);
        if !src_in && !dst_in {
            let d = t.edges[k].duplicate();
            let ghost prev = edges@;
            edges.push(d);
            assert(edges@.map_values(|e: EdgeConnectionEntity| e@) =~= prev.map_values(|e: EdgeConnectionEntity| e@).push(d@));
        }
        k = k + 1;
    }
    assert(t0.edges.subrange(0, t0.edges.len() as int) =~= t0.edges);
    t.edges = edges;
    assert(t@.nodes =~= apply_edit(t0, EditView::RetireNode { node: key@ }).nodes);
}

/// Whether `v` holds a string equal to `s`.
pub fn contains_string(v: &Vec<String>, s: &String) -> (r: bool)
    ensures
        r == strs(*v).contains(s@),
{
    let mut i: usize = 0;
    while i < v.len()
        invariant
            i <= v.len(),
            forall|k: int| 0 <= k < i ==> #[trigger] strs(*v)[k] != s@,
        decreases v.len() - i,
    {
        if v[i] == *s {
            assert(strs(*v)[i as int] == s@);
            return true;
        }
        i = i + 1;
    }
    false
}

fn retire_edge(t: &mut CanvasTopology, key: &String)
    ensures
        final(t)@ == apply_edit(old(t)@, EditView::RetireEdge { edge: key@ }),
{
    let ghost t0 = t@;
    let mut edges: Vec<EdgeConnectionEntity> = Vec::new();
    let ghost pe = |x: EdgeView| x.id != key@;
    let mut k: usize = 0;
    while k < t.edges.len()
        invariant
            k <= t.edges.len(),
            t@ == t0,
            pe == (|x: EdgeView| x.id != key@),
            edges@.map_values(|e: EdgeConnectionEntity| e@) == t0.edges.subrange(0, k as int).filter(pe),
        decreases t.edges.len() - k,
    {
        proof {
            lemma_filter_step(t0.edges, pe, k as int);
        }
        if t.edges[k].id != *key {
            let d = t.edges[k].duplicate();
            let ghost prev = edges@;
            edges.push(d);
            assert(edges@.map_values(|e: EdgeConnectionEntity| e@) =~= prev.map_values(|e: EdgeConnectionEntity| e@).push(d@));
        }
        k = k + 1;
    }
    assert(t0.edges.subrange(0, t0.edges.len() as int) =~= t0.edges);
    t.edges = edges;
}

fn remove_ip(t: &mut CanvasTopology, key: &String)
    ensures
        final(t)@ == apply_edit(old(t)@, EditView::RemoveIp { ip: key@ }),
{
    let ghost t0 = t@;
    let mut ips: Vec<crate::model::ServerIpRecordEntity> = Vec::new();
    let ghost pi = |r: IpRecordView| r.id != key@;
    let mut k: usize = 0;
    while k < t.ips.len()
        invariant
            k <= t.ips.len(),
            t@ == t0,
            pi == (|r: IpRecordView| r.id != key@),
            ips@.map_values(|r: crate::model::ServerIpRecordEntity| r@) == t0.ips.subrange(0, k as int).filter(pi),
        decreases t.ips.len() - k,
    {
        proof {
            lemma_filter_step(t0.ips, pi, k as int);
        }
        if t.ips[k].id != *key {
            let d = t.ips[k].duplicate();
            let ghost prev = ips@;
            ips.push(d);
            assert(ips@.map_values(|r: crate::model::ServerIpRecordEntity| r@) =~= prev.map_values(|r: crate::model::ServerIpRecordEntity| r@).push(d@));
        }
        k = k + 1;
    }
    assert(t0.ips.subrange(0, t0.ips.len() as int) =~= t0.ips);
    t.ips = ips;
}

fn set_server_settings(t: &mut CanvasTopology, key: &String, ipv6: ServerIpv6Resolve, level: &String)
    ensures
        final(t)@ == apply_edit(
            old(t)@,
            EditView::SetServerSettings { server: key@, ipv6_resolve: ipv6, log_level: level@ },
        ),
{
    let ghost t0 = t@;
    let ghost f = |s: ServerView|
        if s.id == key@ {
            ServerView { ipv6_resolve: ipv6, log_level: level@, ..s }
        } else {
            s
        };
    let mut servers: Vec<ServerEntity> = Vec::new();
    let mut k: usize = 0;
    while k < t.servers.len()
        invariant
            k <= t.servers.len(),
            t@ == t0,
            f == (|s: ServerView|
                if s.id == key@ {
                    ServerView { ipv6_resolve: ipv6, log_level: level@, ..s }
                } else {
                    s
                }),
            servers@.map_values(|s: ServerEntity| s@) == t0.servers.subrange(0, k as int).map_values(f),
        decreases t.servers.len() - k,
    {
        let mut d = t.servers[k].duplicate();
        if d.id == *key {
            d.ipv6_resolve = ipv6;
            d.log_level = level.clone();
        }
        let ghost prev = servers@;
        servers.push(d);
        assert(servers@.map_values(|s: ServerEntity| s@) =~= prev.map_values(|s: ServerEntity| s@).push(d@));
        assert(t0.servers.subrange(0, k + 1).map_values(f) =~= t0.servers.subrange(0, k as int).map_values(f).push(f(t0.servers[k as int])));
        k = k + 1;
    }
    assert(t0.servers.subrange(0, t0.servers.len() as int) =~= t0.servers);
    t.servers = servers;
}

fn apply_edit_exec(t: &mut CanvasTopology, e: &TopologyEdit)
    ensures
        final(t)@ == apply_edit(old(t)@, e@),
{
    match e {
        TopologyEdit::AddNode { node, ports } => {
            let n = NodeWithPorts { node: node.duplicate(), ports: duplicate_ports(ports) };
            let ghost prev = t.nodes@;
            t.nodes.push(n);
            assert(t@.nodes =~= old(t)@.nodes.push(n@));
        },
        TopologyEdit::RetireNode { node } => retire_node(t, node),
        TopologyEdit::AddEdge { edge } => {
            let d = edge.duplicate();
            t.edges.push(d);
            assert(t@.edges =~= old(t)@.edges.push(d@));
        },
        TopologyEdit::RetireEdge { edge } => retire_edge(t, edge),
        TopologyEdit::RemoveIp { ip } => remove_ip(t, ip),
        TopologyEdit::SetServerSettings { server, ipv6_resolve, log_level } => set_server_settings(
            t,
            server,
            *ipv6_resolve,
            log_level,
        ),
    }
}

impl CanvasTopology {
    /// A copy of this topology.
    pub fn duplicate(&self) -> (r: CanvasTopology)
        ensures
            r@ == self@,
    {
        let mut servers: Vec<ServerEntity> = Vec::new();
        let mut i: usize = 0;
        while i < self.servers.len()
            invariant
                i <= self.servers.len(),
                servers@.map_values(|s: ServerEntity| s@) == self@.servers.subrange(0, i as int),
            decreases self.servers.len() - i,
        {
            let d = self.servers[i].duplicate();
            let ghost prev = servers@;
            servers.push(d);
            assert(servers@.map_values(|s: ServerEntity| s@) =~= prev.map_values(|s: ServerEntity| s@).push(d@));
            assert(self@.servers.subrange(0, i + 1) =~= self@.servers.subrange(0, i as int).push(d@));
            i = i + 1;
        }
        let mut ips: Vec<crate::model::ServerIpRecordEntity> = Vec::new();
        let mut i: usize = 0;
        while i < self.ips.len()
            invariant
                i <= self.ips.len(),
                ips@.map_values(|r: crate::model::ServerIpRecordEntity| r@) == self@.ips.subrange(0, i as int),
            decreases self.ips.len() - i,
        {
            let d = self.ips[i].duplicate();
            let ghost prev = ips@;
            ips.push(d);
            assert(ips@.map_values(|r: crate::model::ServerIpRecordEntity| r@) =~= prev.map_values(|r: crate::model::ServerIpRecordEntity| r@).push(d@));
            assert(self@.ips.subrange(0, i + 1) =~= self@.ips.subrange(0, i as int).push(d@));
            i = i + 1;
        }
        let mut nodes: Vec<NodeWithPorts> = Vec::new();
        let mut i: usize = 0;
        while i < self.nodes.len()
            invariant
                i <= self.nodes.len(),
                nodes@.map_values(|n: NodeWithPorts| n@) == self@.nodes.subrange(0, i as int),
            decreases self.nodes.len() - i,
        {
            let d = self.nodes[i].duplicate();
            let ghost prev = nodes@;
            nodes.push(d);
            assert(nodes@.map_values(|n: NodeWithPorts| n@) =~= prev.map_values(|n: NodeWithPorts| n@).push(d@));
            assert(self@.nodes.subrange(0, i + 1) =~= self@.nodes.subrange(0, i as int).push(d@));
            i = i + 1;
        }
        let mut edges: Vec<EdgeConnectionEntity> = Vec::new();
        let mut i: usize = 0;
        while i < self.edges.len()
            invariant
                i <= self.edges.len(),
                edges@.map_values(|e: EdgeConnectionEntity| e@) == self@.edges.subrange(0, i as int),
            decreases self.edges.len() - i,
        {
            let d = self.edges[i].duplicate();
            let ghost prev = edges@;
            edges.push(d);
            assert(edges@.map_values(|e: EdgeConnectionEntity| e@) =~= prev.map_values(|e: EdgeConnectionEntity| e@).push(d@));
            assert(self@.edges.subrange(0, i + 1) =~= self@.edges.subrange(0, i as int).push(d@));
            i = i + 1;
        }
        assert(self@.servers.subrange(0, self.servers.len() as int) =~= self@.servers);
        assert(self@.ips.subrange(0, self.ips.len() as int) =~= self@.ips);
        assert(self@.nodes.subrange(0, self.nodes.len() as int) =~= self@.nodes);
        assert(self@.edges.subrange(0, self.edges.len() as int) =~= self@.edges);
        CanvasTopology { canvas: self.canvas.clone(), servers, ips, nodes, edges }
    }

    /// The topology that results from applying `edits`, without writing anything.
    pub fn project(&self, edits: &Vec<TopologyEdit>) -> (r: CanvasTopology)
        ensures
            r@ == apply_edits(self@, edits@.map_values(|e: TopologyEdit| e@), 0),
    {
        let ghost es = edits@.map_values(|e: TopologyEdit| e@);
        let mut out = self.duplicate();
        let mut i: usize = 0;
        while i < edits.len()
            invariant
                i <= edits.len(),
                es == edits@.map_values(|e: TopologyEdit| e@),
                apply_edits(self@, es, 0) == apply_edits(out@, es, i as int),
            decreases edits.len() - i,
        {
            apply_edit_exec(&mut out, &edits[i]);
            i = i + 1;
        }
        out
    }
}

} // verus!
