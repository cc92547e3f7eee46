//! The RCU garbage collector's rule.
//!
//! A revision row retains the exact node and edge rows a server's running config was
//! derived from. A retired node or edge may only be deleted once no retained revision
//! references it any more; the ports of a deleted node go with it, and so does every
//! edge that touches one of those ports.

use crate::services::GcReport;
use crate::topology::{contains_string, strs};
use vstd::prelude::*;

verus! {

/// The rows one retained revision references.
#[derive(Debug)]
pub struct RevisionRefs {
    pub nodes: Vec<String>,
    pub edges: Vec<String>,
}

/// A node row as the collector sees it.
#[derive(Debug)]
pub struct NodeRow {
    pub id: String,
    pub retired: bool,
}

/// A port row as the collector sees it.
#[derive(Debug)]
pub struct PortRow {
    pub id: String,
    pub owner: String,
}

/// An edge row as the collector sees it.
#[derive(Debug)]
pub struct EdgeRow {
    pub id: String,
    pub source: String,
    pub target: String,
    pub retired: bool,
}

/// The rows one collection deletes.
#[derive(Debug)]
pub struct RcuGarbage {
    pub nodes: Vec<String>,
    pub ports: Vec<String>,
    pub edges: Vec<String>,
}

/// Whether some retained revision references node `id`.
pub open spec fn node_pinned(revs: Seq<RevisionRefs>, id: Seq<char>) -> bool {
    exists|r: int| 0 <= r < revs.len() && strs(#[trigger] revs[r].nodes).contains(id)
}

/// Whether some retained revision references edge `id`.
pub open spec fn edge_pinned(revs: Seq<RevisionRefs>, id: Seq<char>) -> bool {
    exists|r: int| 0 <= r < revs.len() && strs(#[trigger] revs[r].edges).contains(id)
}

/// A node is collected when it is retired and no retained revision references it.
pub open spec fn node_dead(revs: Seq<RevisionRefs>, n: NodeRow) -> bool {
    n.retired && !node_pinned(revs, n.id@)
}

/// The ids of the collected nodes among `ns`, in order.
pub open spec fn dead_nodes(revs: Seq<RevisionRefs>, ns: Seq<NodeRow>) -> Seq<Seq<char>>
    decreases ns.len(),
{
    if ns.len() == 0 {
        Seq::empty()
    } else {
        let prev = dead_nodes(revs, ns.drop_last());
        if node_dead(revs, ns.last()) {
            prev.push(ns.last().id@)
        } else {
            prev
        }
    }
}

/// The ids of the ports among `ps` whose owner is collected, in order.
pub open spec fn dead_ports(dn: Seq<Seq<char>>, ps: Seq<PortRow>) -> Seq<Seq<char>>
    decreases ps.len(),
{
    if ps.len() == 0 {
        Seq::empty()
    } else {
        let prev = dead_ports(dn, ps.drop_last());
        if dn.contains(ps.last().owner@) {
            prev.push(ps.last().id@)
        } else {
            prev
        }
    }
}

/// An edge is collected when it is retired and no retained revision references it,
/// or when it touches a collected port.
pub open spec fn edge_dead(revs: Seq<RevisionRefs>, dp: Seq<Seq<char>>, e: EdgeRow) -> bool {
    ||| (e.retired && !edge_pinned(revs, e.id@))
    ||| dp.contains(e.source@)
    ||| dp.contains(e.target@)
}

/// The ids of the collected edges among `es`, in order.
pub open spec fn dead_edges(revs: Seq<RevisionRefs>, dp: Seq<Seq<char>>, es: Seq<EdgeRow>) -> Seq<Seq<char>>
    decreases es.len(),
{
    if es.len() == 0 {
        Seq::empty()
    } else {
        let prev = dead_edges(revs, dp, es.drop_last());
        if edge_dead(revs, dp, es.last()) {
            prev.push(es.last().id@)
        } else {
            prev
        }
    }
}

fn node_is_pinned(revs: &Vec<RevisionRefs>, id: &String) -> (r: bool)
    ensures
        r == node_pinned(revs@, id@),
{
    let mut k: usize = 0;
    while k < revs.len()
        invariant
            k <= revs.len(),
            forall|z: int| 0 <= z < k ==> !strs(#[trigger] revs@[z].nodes).contains(id@),
        decreases revs.len() - k,
    {
        if contains_string(&revs[k].nodes, id) {
            return true;
        }
        k = k + 1;
    }
    false
}

fn edge_is_pinned(revs: &Vec<RevisionRefs>, id: &String) -> (r: bool)
    ensures
        r == edge_pinned(revs@, id@),
{
    let mut k: usize = 0;
    while k < revs.len()
        invariant
            k <= revs.len(),
            forall|z: int| 0 <= z < k ==> !strs(#[trigger] revs@[z].edges).contains(id@),
        decreases revs.len() - k,
    {
        if contains_string(&revs[k].edges, id) {
            return true;
        }
        k = k + 1;
    }
    false
}

/// What one collection deletes, given the retained revisions and the node, port and
/// edge rows: the retired nodes no revision references, their ports, and the edges
/// that are retired and unreferenced or that touch one of those ports.
pub fn collect_rcu_garbage(
    revs: &Vec<RevisionRefs>,
    nodes: &Vec<NodeRow>,
    ports: &Vec<PortRow>,
    edges: &Vec<EdgeRow>,
) -> (r: RcuGarbage)
    ensures
        strs(r.nodes) == dead_nodes(revs@, nodes@),
        strs(r.ports) == dead_ports(dead_nodes(revs@, nodes@), ports@),
        strs(r.edges) == dead_edges(revs@, dead_ports(dead_nodes(revs@, nodes@), ports@), edges@),
{
    let mut dn: Vec<String> = Vec::new();
    let mut i: usize = 0;
    while i < nodes.len()
        invariant
            i <= nodes.len(),
            strs(dn) == dead_nodes(revs@, nodes@.subrange(0, i as int)),
        decreases nodes.len() - i,
    {
        assert(nodes@.subrange(0, i + 1).drop_last() =~= nodes@.subrange(0, i as int));
        let n = &nodes[i];
        if n.retired && !node_is_pinned(revs, &n.id) {
            dn.push(n.id.clone());
        }
        assert(strs(dn) =~= dead_nodes(revs@, nodes@.subrange(0, i + 1)));
        i = i + 1;
    }
    assert(nodes@.subrange(0, nodes.len() as int) =~= nodes@);
    let mut dp: Vec<String> = Vec::new();
    let mut j: usize = 0;
    while j < ports.len()
        invariant
            j <= ports.len(),
            strs(dp) == dead_ports(strs(dn), ports@.subrange(0, j as int)),
        decreases ports.len() - j,
    {
        assert(ports@.subrange(0, j + 1).drop_last() =~= ports@.subrange(0, j as int));
        let p = &ports[j];
        if contains_string(&dn, &p.owner) {
            dp.push(p.id.clone());
        }
        assert(strs(dp) =~= dead_ports(strs(dn), ports@.subrange(0, j + 1)));
        j = j + 1;
    }
    assert(ports@.subrange(0, ports.len() as int) =~= ports@);
    let mut de: Vec<String> = Vec::new();
    let mut k: usize = 0;
    while k < edges.len()
        invariant
            k <= edges.len(),
            strs(de) == dead_edges(revs@, strs(dp), edges@.subrange(0, k as int)),
        decreases edges.len() - k,
    {
        assert(edges@.subrange(0, k + 1).drop_last() =~= edges@.subrange(0, k as int));
        let e = &edges[k];
        let dead = (e.retired && !edge_is_pinned(revs, &e.id)) || contains_string(&dp, &e.source)
            || contains_string(&dp, &e.target);
        if dead {
            de.push(e.id.clone());
        }
        assert(strs(de) =~= dead_edges(revs@, strs(dp), edges@.subrange(0, k + 1)));
        k = k + 1;
    }
    assert(edges@.subrange(0, edges.len() as int) =~= edges@);
    RcuGarbage { nodes: dn, ports: dp, edges: de }
}

impl RcuGarbage {
    /// How many nodes and edges the collection deletes.
    pub fn report(&self) -> (r: GcReport)
        requires
            self.nodes.len() <= i64::MAX,
            self.edges.len() <= i64::MAX,
        ensures
            r.nodes == self.nodes.len(),
            r.edges == self.edges.len(),
    {
        GcReport { nodes: self.nodes.len() as i64, edges: self.edges.len() as i64 }
    }
}

proof fn lemma_dead_nodes_are_dead(revs: Seq<RevisionRefs>, ns: Seq<NodeRow>, x: Seq<char>)
    requires
        dead_nodes(revs, ns).contains(x),
    ensures
        exists|i: int| 0 <= i < ns.len() && (#[trigger] ns[i]).id@ == x && node_dead(revs, ns[i]),
    decreases ns.len(),
{
    let prev = dead_nodes(revs, ns.drop_last());
    if prev.contains(x) {
        lemma_dead_nodes_are_dead(revs, ns.drop_last(), x);
        let i = choose|i: int| 0 <= i < ns.drop_last().len() && (#[trigger] ns.drop_last()[i]).id@ == x && node_dead(revs, ns.drop_last()[i]);
        assert(ns[i] == ns.drop_last()[i]);
    } else {
        assert(ns[ns.len() - 1] == ns.last());
    }
}

proof fn lemma_dead_edges_are_dead(revs: Seq<RevisionRefs>, dp: Seq<Seq<char>>, es: Seq<EdgeRow>, x: Seq<char>)
    requires
        dead_edges(revs, dp, es).contains(x),
    ensures
        exists|i: int| 0 <= i < es.len() && (#[trigger] es[i]).id@ == x && edge_dead(revs, dp, es[i]),
    decreases es.len(),
{
    let prev = dead_edges(revs, dp, es.drop_last());
    if prev.contains(x) {
        lemma_dead_edges_are_dead(revs, dp, es.drop_last(), x);
        let i = choose|i: int| 0 <= i < es.drop_last().len() && (#[trigger] es.drop_last()[i]).id@ == x && edge_dead(revs, dp, es.drop_last()[i]);
        assert(es[i] == es.drop_last()[i]);
    } else {
        assert(es[es.len() - 1] == es.last());
    }
}

proof fn lemma_dead_ports_owned(dn: Seq<Seq<char>>, ps: Seq<PortRow>, x: Seq<char>)
    requires
        dead_ports(dn, ps).contains(x),
    ensures
        exists|i: int| 0 <= i < ps.len() && (#[trigger] ps[i]).id@ == x && dn.contains(ps[i].owner@),
    decreases ps.len(),
{
    let prev = dead_ports(dn, ps.drop_last());
    if prev.contains(x) {
        lemma_dead_ports_owned(dn, ps.drop_last(), x);
        let i = choose|i: int| 0 <= i < ps.drop_last().len() && (#[trigger] ps.drop_last()[i]).id@ == x && dn.contains(ps.drop_last()[i].owner@);
        assert(ps[i] == ps.drop_last()[i]);
    } else {
        assert(ps[ps.len() - 1] == ps.last());
    }
}

/// Ids name rows uniquely.
pub open spec fn node_ids_unique(ns: Seq<NodeRow>) -> bool {
    forall|i: int, j: int| 0 <= i < ns.len() && 0 <= j < ns.len() && i != j ==> (#[trigger] ns[i]).id@ != (#[trigger] ns[j]).id@
}

pub open spec fn edge_ids_unique(es: Seq<EdgeRow>) -> bool {
    forall|i: int, j: int| 0 <= i < es.len() && 0 <= j < es.len() && i != j ==> (#[trigger] es[i]).id@ != (#[trigger] es[j]).id@
}

/// The collector never deletes a live node or one that a retained revision still
/// references, and every port it deletes belongs to a node it deletes.
pub proof fn collection_spares_live_and_pinned_nodes(
    revs: Seq<RevisionRefs>,
    ns: Seq<NodeRow>,
    ps: Seq<PortRow>,
    i: int,
)
    requires
        node_ids_unique(ns),
        0 <= i < ns.len(),
        !ns[i].retired || node_pinned(revs, ns[i].id@),
    ensures
        !dead_nodes(revs, ns).contains(ns[i].id@),
        forall|x: Seq<char>| #[trigger] dead_ports(dead_nodes(revs, ns), ps).contains(x) ==> exists|k: int|
            0 <= k < ps.len() && ps[k].id@ == x && dead_nodes(revs, ns).contains(#[trigger] ps[k].owner@),
{
    if dead_nodes(revs, ns).contains(ns[i].id@) {
        lemma_dead_nodes_are_dead(revs, ns, ns[i].id@);
    }
    assert forall|x: Seq<char>| #[trigger] dead_ports(dead_nodes(revs, ns), ps).contains(x) implies exists|k: int|
        0 <= k < ps.len() && ps[k].id@ == x && dead_nodes(revs, ns).contains(#[trigger] ps[k].owner@) by {
        lemma_dead_ports_owned(dead_nodes(revs, ns), ps, x);
    }
}

/// The collector deletes an edge that a retained revision still references, or a
/// live one, only together with a deleted port it touches.
pub proof fn collection_spares_pinned_edges(
    revs: Seq<RevisionRefs>,
    dp: Seq<Seq<char>>,
    es: Seq<EdgeRow>,
    i: int,
)
    requires
        edge_ids_unique(es),
        0 <= i < es.len(),
        !es[i].retired || edge_pinned(revs, es[i].id@),
        dead_edges(revs, dp, es).contains(es[i].id@),
    ensures
        dp.contains(es[i].source@) || dp.contains(es[i].target@),
{
    lemma_dead_edges_are_dead(revs, dp, es, es[i].id@);
}

proof fn lemma_dead_nodes_complete(revs: Seq<RevisionRefs>, ns: Seq<NodeRow>, i: int)
    requires
        0 <= i < ns.len(),
        node_dead(revs, ns[i]),
    ensures
        dead_nodes(revs, ns).contains(ns[i].id@),
    decreases ns.len(),
{
    let prev = dead_nodes(revs, ns.drop_last());
    if i == ns.len() - 1 {
        assert(ns.last() == ns[i]);
        assert(dead_nodes(revs, ns)[prev.len() as int] == ns[i].id@);
    } else {
        assert(ns.drop_last()[i] == ns[i]);
        lemma_dead_nodes_complete(revs, ns.drop_last(), i);
        let w = choose|w: int| 0 <= w < prev.len() && prev[w] == ns[i].id@;
        assert(dead_nodes(revs, ns)[w] == ns[i].id@);
    }
}

proof fn lemma_dead_ports_complete(dn: Seq<Seq<char>>, ps: Seq<PortRow>, i: int)
    requires
        0 <= i < ps.len(),
        dn.contains(ps[i].owner@),
    ensures
        dead_ports(dn, ps).contains(ps[i].id@),
    decreases ps.len(),
{
    let prev = dead_ports(dn, ps.drop_last());
    if i == ps.len() - 1 {
        assert(ps.last() == ps[i]);
        assert(dead_ports(dn, ps)[prev.len() as int] == ps[i].id@);
    } else {
        assert(ps.drop_last()[i] == ps[i]);
        lemma_dead_ports_complete(dn, ps.drop_last(), i);
        let w = choose|w: int| 0 <= w < prev.len() && prev[w] == ps[i].id@;
        assert(dead_ports(dn, ps)[w] == ps[i].id@);
    }
}

proof fn lemma_dead_edges_complete(revs: Seq<RevisionRefs>, dp: Seq<Seq<char>>, es: Seq<EdgeRow>, i: int)
    requires
        0 <= i < es.len(),
        edge_dead(revs, dp, es[i]),
    ensures
        dead_edges(revs, dp, es).contains(es[i].id@),
    decreases es.len(),
{
    let prev = dead_edges(revs, dp, es.drop_last());
    if i == es.len() - 1 {
        assert(es.last() == es[i]);
        assert(dead_edges(revs, dp, es)[prev.len() as int] == es[i].id@);
    } else {
        assert(es.drop_last()[i] == es[i]);
        lemma_dead_edges_complete(revs, dp, es.drop_last(), i);
        let w = choose|w: int| 0 <= w < prev.len() && prev[w] == es[i].id@;
        assert(dead_edges(revs, dp, es)[w] == es[i].id@);
    }
}

/// A collection leaves nothing dangling: every retired node that no retained
/// revision references is collected, every port of a collected node is collected,
/// and every edge is collected that starts or ends at a collected port, or that is
/// retired and referenced by no retained revision.
pub proof fn collection_leaves_nothing_dangling(
    revs: Seq<RevisionRefs>,
    ns: Seq<NodeRow>,
    ps: Seq<PortRow>,
    es: Seq<EdgeRow>,
)
    ensures
        forall|i: int|
            0 <= i < ns.len() && (#[trigger] ns[i]).retired && !node_pinned(revs, ns[i].id@) ==> dead_nodes(
                revs,
                ns,
            ).contains(ns[i].id@),
        forall|k: int|
            0 <= k < ps.len() && dead_nodes(revs, ns).contains((#[trigger] ps[k]).owner@) ==> dead_ports(
                dead_nodes(revs, ns),
                ps,
            ).contains(ps[k].id@),
        forall|e: int|
            0 <= e < es.len() && ({
                let dp = dead_ports(dead_nodes(revs, ns), ps);
                ||| dp.contains((#[trigger] es[e]).source@)
                ||| dp.contains(es[e].target@)
                ||| (es[e].retired && !edge_pinned(revs, es[e].id@))
            }) ==> dead_edges(revs, dead_ports(dead_nodes(revs, ns), ps), es).contains(es[e].id@),
{
    let dn = dead_nodes(revs, ns);
    let dp = dead_ports(dn, ps);
    assert forall|i: int|
        0 <= i < ns.len() && (#[trigger] ns[i]).retired && !node_pinned(revs, ns[i].id@) implies dn.contains(
            ns[i].id@,
        ) by {
        lemma_dead_nodes_complete(revs, ns, i);
    }
    assert forall|k: int| 0 <= k < ps.len() && dn.contains((#[trigger] ps[k]).owner@) implies dp.contains(
        ps[k].id@,
    ) by {
        lemma_dead_ports_complete(dn, ps, k);
    }
    assert forall|e: int|
        0 <= e < es.len() && ({
            ||| dp.contains((#[trigger] es[e]).source@)
            ||| dp.contains(es[e].target@)
            ||| (es[e].retired && !edge_pinned(revs, es[e].id@))
        }) implies dead_edges(revs, dp, es).contains(es[e].id@) by {
        lemma_dead_edges_complete(revs, dp, es, e);
    }
}

} // verus!
