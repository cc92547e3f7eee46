//! Dependency cycles between the nodes of a canvas.
//!
//! A node depends on whatever feeds its input ports, and a relay also on the pod its
//! listen port is fed by. The nodes are taken one per record key, in key order, and
//! a depth-first walk from each of them in turn reports every back edge it meets as
//! a cycle (each distinct set of nodes once).

use crate::checks::{idxs, msg_cycle, node_ids, sorted_nodes, sorted_order};
use crate::index::{node_at, opt_idx, peer_first, peer_first_exec, port_by_key, port_by_key_exec};
use crate::model::{CanvasTopology, NodeSpec, NodeSpecView, PortDirection, TopologyView};
use crate::seqs::{first_where, lemma_first_where};
use crate::sorting::{sorted_distinct, strictly_sorted};
use crate::text::{push_str, string_eq};
use crate::topology::{problem, problems_view, strs, ProblemKind, ProblemSeverity, ProblemView, TopologyProblem};
use vstd::prelude::*;

verus! {

/// The ids of the nodes that feed the input ports among the first `j` ports of node
/// `ni`, in port order.
pub open spec fn input_peers(t: TopologyView, ni: int, j: int) -> Seq<Seq<char>>
    decreases j,
{
    if j <= 0 {
        Seq::empty()
    } else {
        let prev = input_peers(t, ni, j - 1);
        let p = t.nodes[ni].ports[j - 1];
        if p.direction == PortDirection::Input {
            match peer_first(t, p.id) {
                Some(q) => prev.push(t.nodes[q].node.id),
                None => prev,
            }
        } else {
            prev
        }
    }
}

/// What node `ni` depends on: the nodes feeding its inputs and, for a relay, the pod
/// that feeds its listen port once more.
pub open spec fn dep_ids(t: TopologyView, ni: int) -> Seq<Seq<char>> {
    let n = t.nodes[ni];
    let base = input_peers(t, ni, n.ports.len() as int);
    match n.node.spec {
        NodeSpecView::Relay { .. } => match port_by_key(n, "listen"@) {
            Some(j) => match peer_first(t, n.ports[j].id) {
                Some(q) => base.push(t.nodes[q].node.id),
                None => base,
            },
            None => base,
        },
        _ => base,
    }
}

/// The node keys of a topology, distinct and in order.
pub open spec fn sorted_keys(t: TopologyView) -> Seq<Seq<char>> {
    sorted_distinct(node_ids(t))
}

/// The position of key `k` among the sorted keys.
pub open spec fn key_pos(t: TopologyView, k: Seq<char>) -> int {
    match first_where(sorted_keys(t), |x: Seq<char>| x == k) {
        Some(p) => p,
        None => -1,
    }
}

/// The dependency graph over key positions: position `p` depends on each position in
/// `dep_graph(t)[p]`, in the order the walk follows them.
pub open spec fn dep_graph(t: TopologyView) -> Seq<Seq<int>> {
    Seq::new(
        sorted_keys(t).len(),
        |p: int| dep_ids(t, sorted_order(t)[p]).map_values(|k: Seq<char>| key_pos(t, k)),
    )
}

/// What `sorted_nodes` establishes about an order of nodes.
pub open spec fn sorted_ok(t: TopologyView, order: Seq<int>) -> bool {
    &&& order == sorted_order(t)
    &&& order.len() == sorted_keys(t).len()
    &&& strictly_sorted(sorted_keys(t))
    &&& sorted_keys(t).to_set() == node_ids(t).to_set()
    &&& forall|m: int| 0 <= m < order.len() ==> 0 <= #[trigger] order[m] < t.nodes.len()
    &&& forall|m: int| 0 <= m < order.len() ==> t.nodes[#[trigger] order[m]].node.id == sorted_keys(t)[m]
}

pub open spec fn graph_ok(g: Seq<Seq<int>>) -> bool {
    forall|x: int, i: int| 0 <= x < g.len() && 0 <= i < g[x].len() ==> 0 <= #[trigger] g[x][i] < g.len()
}

pub open spec fn gview(g: Vec<Vec<usize>>) -> Seq<Seq<int>> {
    g@.map_values(|v: Vec<usize>| idxs(v))
}

pub open spec fn walk_step(g: Seq<Seq<int>>, w: Seq<int>, i: int) -> bool {
    g[w[i]].contains(w[i + 1])
}

/// `w` follows dependencies, and its last node depends on its first.
pub open spec fn closed_walk(g: Seq<Seq<int>>, w: Seq<int>) -> bool {
    &&& w.len() > 0
    &&& forall|i: int| 0 <= i < w.len() ==> 0 <= #[trigger] w[i] < g.len()
    &&& forall|i: int| 0 <= i < w.len() - 1 ==> #[trigger] walk_step(g, w, i)
    &&& g[w.last()].contains(w[0])
}

pub open spec fn has_cycle(g: Seq<Seq<int>>) -> bool {
    exists|w: Seq<int>| closed_walk(g, w)
}

/// `nodes` names exactly the nodes on walk `w`.
pub open spec fn names_walk(t: TopologyView, nodes: Seq<Seq<char>>, w: Seq<int>) -> bool {
    forall|id: Seq<char>|
        #![trigger nodes.contains(id)]
        nodes.contains(id) <==> exists|i: int| 0 <= i < w.len() && sorted_keys(t)[#[trigger] w[i]] == id
}

/// A reported cycle: an error naming, in key order, exactly the nodes of one closed
/// walk of the dependency graph, worded after the node with the least key.
pub open spec fn cycle_problem(t: TopologyView, p: ProblemView) -> bool {
    &&& exists|w: Seq<int>| closed_walk(dep_graph(t), w) && #[trigger] names_walk(t, p.nodes, w)
    &&& p.severity == ProblemSeverity::Error
    &&& p.kind == ProblemKind::Cycle
    &&& p.nodes.len() > 0
    &&& strictly_sorted(p.nodes)
    &&& forall|i: int| 0 <= i < p.nodes.len() ==> node_ids(t).contains(#[trigger] p.nodes[i])
    &&& p.message == msg_cycle(t.nodes[node_at(t, p.nodes[0]).unwrap()].node.name)
    &&& p.edges.len() == 0
    &&& p.ports.len() == 0
}

proof fn lemma_rank_along(g: Seq<Seq<int>>, rank: Seq<int>, w: Seq<int>, k: int)
    requires
        graph_ok(g),
        rank.len() == g.len(),
        forall|x: int, i: int| 0 <= x < g.len() && 0 <= i < g[x].len() ==> rank[#[trigger] g[x][i]] < rank[x],
        closed_walk(g, w),
        0 <= k < w.len(),
    ensures
        rank[w[k]] <= rank[w[0]] - k,
    decreases k,
{
    if k > 0 {
        lemma_rank_along(g, rank, w, k - 1);
        assert(walk_step(g, w, k - 1));
        let a = w[k - 1];
        let i = choose|i: int| 0 <= i < g[a].len() && #[trigger] g[a][i] == w[k];
        assert(rank[g[a][i]] < rank[a]);
    }
}

/// A graph whose every edge goes down in rank has no cycle.
proof fn lemma_ranked_acyclic(g: Seq<Seq<int>>, rank: Seq<int>)
    requires
        graph_ok(g),
        rank.len() == g.len(),
        forall|x: int, i: int| 0 <= x < g.len() && 0 <= i < g[x].len() ==> rank[#[trigger] g[x][i]] < rank[x],
    ensures
        !has_cycle(g),
{
    if has_cycle(g) {
        let w = choose|w: Seq<int>| closed_walk(g, w);
        lemma_rank_along(g, rank, w, w.len() - 1);
        let a = w.last();
        let i = choose|i: int| 0 <= i < g[a].len() && #[trigger] g[a][i] == w[0];
        assert(rank[g[a][i]] < rank[a]);
    }
}

// ---------------------------------------------------------------------------
// The graph.
// ---------------------------------------------------------------------------

fn input_peers_exec(t: &CanvasTopology, ni: usize) -> (r: Vec<String>)
    requires
        ni < t.nodes.len(),
    ensures
        strs(r) == input_peers(t@, ni as int, t@.nodes[ni as int].ports.len() as int),
{
    let n = &t.nodes[ni];
    let mut out: Vec<String> = Vec::new();
    let mut j: usize = 0;
    while j < n.ports.len()
        invariant
            j <= n.ports.len(),
            ni < t.nodes.len(),
            n == &t.nodes[ni as int],
            strs(out) == input_peers(t@, ni as int, j as int),
        decreases n.ports.len() - j,
    {
        let p = &n.ports[j];
        assert(t@.nodes[ni as int].ports[j as int] == p@);
        if p.direction == PortDirection::Input {
            match peer_first_exec(t, &p.id) {
                Some(q) => {
                    let ghost prev = strs(out);
                    out.push(t.nodes[q].node.id.clone());
                    assert(strs(out) =~= prev.push(t@.nodes[q as int].node.id));
                },
                None => {},
            }
        }
        j = j + 1;
    }
    out
}

fn dep_ids_exec(t: &CanvasTopology, ni: usize) -> (r: Vec<String>)
    requires
        ni < t.nodes.len(),
    ensures
        strs(r) == dep_ids(t@, ni as int),
{
    let mut out = input_peers_exec(t, ni);
    let n = &t.nodes[ni];
    match &n.node.spec {
        NodeSpec::Relay(_) => match port_by_key_exec(n, "listen") {
            Some(j) => match peer_first_exec(t, &n.ports[j].id) {
                Some(q) => {
                    let ghost prev = strs(out);
                    out.push(t.nodes[q].node.id.clone());
                    assert(strs(out) =~= prev.push(t@.nodes[q as int].node.id));
                },
                None => {},
            },
            None => {},
        },
        _ => {},
    }
    out
}

/// The position of node key `k` in the order.
fn key_pos_exec(t: &CanvasTopology, order: &Vec<usize>, k: &String) -> (r: usize)
    requires
        sorted_ok(t@, idxs(*order)),
        node_ids(t@).contains(k@),
    ensures
        r < order.len(),
        r as int == key_pos(t@, k@),
        sorted_keys(t@)[r as int] == k@,
{
    let ghost sk = sorted_keys(t@);
    let ghost o = idxs(*order);
    let ghost p = |x: Seq<char>| x == k@;
    assert(sk.to_set().contains(k@));
    let ghost at = choose|a: int| 0 <= a < sk.len() && sk[a] == k@;
    let mut m: usize = 0;
    while m < order.len()
        invariant
            m <= order.len(),
            o == idxs(*order),
            sorted_ok(t@, o),
            sk == sorted_keys(t@),
            p == (|x: Seq<char>| x == k@),
            0 <= at < sk.len(),
            sk[at] == k@,
            forall|z: int| 0 <= z < m ==> !p(#[trigger] sk[z]),
        decreases order.len() - m,
    {
        assert(0 <= o[m as int] < t.nodes.len());
        assert(t@.nodes[o[m as int]].node.id == sk[m as int]);
        if string_eq(&t.nodes[order[m]].node.id, k) {
            proof {
                lemma_first_where(sk, p, m as int);
            }
            return m;
        }
        m = m + 1;
    }
    assert(!p(sk[at]));
    0
}

/// For each node in key order, the positions of the nodes it depends on.
pub fn dependency_graph(t: &CanvasTopology, order: &Vec<usize>) -> (g: Vec<Vec<usize>>)
    requires
        sorted_ok(t@, idxs(*order)),
    ensures
        gview(g) == dep_graph(t@),
        graph_ok(gview(g)),
        g.len() == order.len(),
{
    let ghost o = idxs(*order);
    let mut g: Vec<Vec<usize>> = Vec::new();
    let mut p: usize = 0;
    while p < order.len()
        invariant
            p <= order.len(),
            o == idxs(*order),
            sorted_ok(t@, o),
            g.len() == p,
            forall|x: int| 0 <= x < p ==> #[trigger] gview(g)[x] == dep_graph(t@)[x],
            forall|x: int, i: int| 0 <= x < p && 0 <= i < gview(g)[x].len() ==> 0 <= #[trigger] gview(g)[x][i] < order.len(),
        decreases order.len() - p,
    {
        assert(0 <= o[p as int] < t.nodes.len());
        let ids = dep_ids_exec(t, order[p]);
        let ghost want = dep_ids(t@, o[p as int]).map_values(|k: Seq<char>| key_pos(t@, k));
        let mut row: Vec<usize> = Vec::new();
        let mut i: usize = 0;
        while i < ids.len()
            invariant
                i <= ids.len(),
                o == idxs(*order),
                sorted_ok(t@, o),
                p < order.len(),
                strs(ids) == dep_ids(t@, o[p as int]),
                want == dep_ids(t@, o[p as int]).map_values(|k: Seq<char>| key_pos(t@, k)),
                idxs(row) == want.subrange(0, i as int),
                forall|z: int| 0 <= z < row.len() ==> #[trigger] row@[z] < order.len(),
            decreases ids.len() - i,
        {
            proof {
                lemma_dep_ids_are_nodes(t@, o[p as int], i as int);
            }
            let q = key_pos_exec(t, order, &ids[i]);
            let ghost prev = idxs(row);
            row.push(q);
            assert(idxs(row) =~= prev.push(q as int));
            assert(want.subrange(0, i + 1) =~= want.subrange(0, i as int).push(want[i as int]));
            i = i + 1;
        }
        assert(want.subrange(0, ids.len() as int) =~= want);
        let ghost prev = gview(g);
        g.push(row);
        assert(gview(g) =~= prev.push(want));
        p = p + 1;
    }
    assert(gview(g) =~= dep_graph(t@));
    g
}

proof fn lemma_input_peers_are_nodes(t: TopologyView, ni: int, j: int, i: int)
    requires
        0 <= i < input_peers(t, ni, j).len(),
    ensures
        node_ids(t).contains(input_peers(t, ni, j)[i]),
    decreases j,
{
    if j > 0 {
        let prev = input_peers(t, ni, j - 1);
        if i < prev.len() {
            lemma_input_peers_are_nodes(t, ni, j - 1, i);
        } else {
            let p = t.nodes[ni].ports[j - 1];
            let q = peer_first(t, p.id).unwrap();
            lemma_peer_in_range(t, p.id);
            assert(node_ids(t)[q] == t.nodes[q].node.id);
        }
    }
}

proof fn lemma_peer_in_range(t: TopologyView, key: Seq<char>)
    ensures
        peer_first(t, key) matches Some(q) ==> 0 <= q < t.nodes.len(),
{
    match crate::index::edge_first(t, key) {
        Some(e) => {
            crate::index::lemma_port_loc_in_props(t.nodes, crate::index::other_end(t.edges[e], key));
        },
        None => {},
    }
}

proof fn lemma_dep_ids_are_nodes(t: TopologyView, ni: int, i: int)
    requires
        0 <= i < dep_ids(t, ni).len(),
    ensures
        node_ids(t).contains(dep_ids(t, ni)[i]),
{
    let n = t.nodes[ni];
    let base = input_peers(t, ni, n.ports.len() as int);
    if i < base.len() {
        lemma_input_peers_are_nodes(t, ni, n.ports.len() as int, i);
    } else {
        let j = port_by_key(n, "listen"@).unwrap();
        let q = peer_first(t, n.ports[j].id).unwrap();
        lemma_peer_in_range(t, n.ports[j].id);
        assert(node_ids(t)[q] == t.nodes[q].node.id);
    }
}

// ---------------------------------------------------------------------------
// The walk.
// ---------------------------------------------------------------------------

/// The state of the depth-first walk over key positions. The ghost rank numbers the
/// finished nodes in the order they finished.
struct Walk {
    done: Vec<bool>,
    on_path: Vec<bool>,
    path: Vec<usize>,
    reported: Vec<String>,
    out: Vec<TopologyProblem>,
    rank: Ghost<Seq<int>>,
    clock: Ghost<int>,
}

spec fn path_step(g: Seq<Seq<int>>, path: Seq<usize>, i: int) -> bool {
    g[path[i] as int].contains(path[i + 1] as int)
}

spec fn walk_inv(t: TopologyView, g: Seq<Seq<int>>, w: Walk) -> bool {
    let n = g.len();
    &&& graph_ok(g)
    &&& w.done@.len() == n
    &&& w.on_path@.len() == n
    &&& w.rank@.len() == n
    &&& forall|i: int| 0 <= i < w.path@.len() ==> (#[trigger] w.path@[i]) < n
    &&& forall|x: int| 0 <= x < n ==> (#[trigger] w.on_path@[x] <==> w.path@.contains(x as usize))
    &&& forall|i: int, j: int| 0 <= i < j < w.path@.len() ==> w.path@[i] != w.path@[j]
    &&& forall|i: int| 0 <= i < w.path@.len() - 1 ==> #[trigger] path_step(g, w.path@, i)
    &&& forall|x: int| 0 <= x < n && #[trigger] w.done@[x] ==> !w.on_path@[x] && w.rank@[x] < w.clock@
    &&& w.out@.len() == 0 ==> forall|x: int, i: int|
        0 <= x < n && w.done@[x] && 0 <= i < g[x].len() ==> w.done@[#[trigger] g[x][i]] && w.rank@[g[x][i]]
            < w.rank@[x]
    &&& w.out@.len() > 0 ==> has_cycle(g)
    &&& forall|k: int| 0 <= k < w.out@.len() ==> cycle_problem(t, #[trigger] w.out@[k]@)
    &&& w.reported@.len() == w.out@.len()
    &&& forall|k: int| 0 <= k < w.out@.len() ==> (#[trigger] w.reported@[k])@ == joined(w.out@[k]@.nodes)
    &&& forall|i: int, j: int| 0 <= i < j < w.reported@.len() ==> (#[trigger] w.reported@[i])@ != (#[trigger] w.reported@[j])@
}

/// Whether `y` sits on `path` at or after position `s`.
pub open spec fn on_tail(path: Seq<usize>, s: int, y: int) -> bool {
    exists|z: int| s <= z < path.len() && path[z] as int == y
}

/// The positions below `x` that sit on `path` from `s` on, in increasing order.
pub open spec fn members_upto(path: Seq<usize>, s: int, x: int) -> Seq<usize>
    decreases x,
{
    if x <= 0 {
        Seq::empty()
    } else {
        let prev = members_upto(path, s, x - 1);
        if on_tail(path, s, x - 1) {
            prev.push((x - 1) as usize)
        } else {
            prev
        }
    }
}

/// What the depth-first walk has done: the positions it finished, the path it is on,
/// the signatures of the cycles it reported and the reports.
pub struct WalkState {
    pub done: Seq<bool>,
    pub path: Seq<usize>,
    pub reported: Seq<Seq<char>>,
    pub out: Seq<ProblemView>,
}

/// A path of distinct positions below `n` that misses `u < n` is shorter than `n`.
proof fn lemma_path_short(path: Seq<usize>, u: usize, n: int)
    requires
        forall|i: int, j: int| 0 <= i < j < path.len() ==> path[i] != path[j],
        forall|i: int| 0 <= i < path.len() ==> (#[trigger] path[i]) < n,
        u < n,
        !path.contains(u),
    ensures
        path.len() < n,
{
    let q = path.push(u).map_values(|x: usize| x as int);
    assert(q.no_duplicates()) by {
        assert forall|i: int, j: int| 0 <= i < q.len() && 0 <= j < q.len() && i != j implies q[i] != q[j] by {
            if i < path.len() && j < path.len() {
                if i < j {
                    assert(path[i] != path[j]);
                } else {
                    assert(path[j] != path[i]);
                }
            } else if i == path.len() as int {
                assert(q[i] == u as int);
                assert(path[j] != u) by {
                    if path[j] == u {
                        assert(path.contains(u));
                    }
                }
            } else {
                assert(q[j] == u as int);
                assert(path[i] != u) by {
                    if path[i] == u {
                        assert(path.contains(u));
                    }
                }
            }
        }
    }
    q.unique_seq_to_set();
    vstd::set_lib::lemma_int_range(0, n);
    assert(q.to_set().subset_of(vstd::set_lib::set_int_range(0, n))) by {
        assert forall|x: int| q.to_set().contains(x) implies vstd::set_lib::set_int_range(0, n).contains(x) by {
            let i = choose|i: int| 0 <= i < q.len() && q[i] == x;
            if i < path.len() {
                assert(path[i] < n);
            }
        }
    }
    vstd::set_lib::lemma_len_subset(q.to_set(), vstd::set_lib::set_int_range(0, n));
}

/// The position of the first `x` on `path` (its length when there is none).
pub open spec fn pos_of(path: Seq<usize>, x: usize) -> int
    decreases path.len(),
{
    if path.len() == 0 {
        0
    } else if path[0] == x {
        0
    } else {
        1 + pos_of(path.drop_first(), x)
    }
}

proof fn lemma_pos_of(path: Seq<usize>, x: usize, s: int)
    requires
        0 <= s < path.len(),
        path[s] == x,
        forall|z: int| 0 <= z < s ==> path[z] != x,
    ensures
        pos_of(path, x) == s,
    decreases s,
{
    if s > 0 {
        let d = path.drop_first();
        assert(path[0] != x);
        assert forall|z: int| 0 <= z < s - 1 implies d[z] != x by {
            assert(d[z] == path[z + 1]);
        }
        lemma_pos_of(d, x, s - 1);
    }
}

/// The cycle report for the cycle that closes where the walk meets `next` on its
/// path again: the nodes on the path from there on, in key order, worded after the
/// node with the least key.
pub open spec fn cycle_report(t: TopologyView, n: int, path: Seq<usize>, next: usize) -> ProblemView {
    let s = pos_of(path, next);
    let ms = members_upto(path, s, n);
    let ids = ms.map_values(|m: usize| sorted_keys(t)[m as int]);
    problem(
        ProblemSeverity::Error,
        ProblemKind::Cycle,
        msg_cycle(t.nodes[node_at(t, ids[0]).unwrap()].node.name),
        ids,
        seq![],
        seq![],
    )
}

/// The walk after it meets `next` on its path: the cycle is reported unless one over
/// the same nodes was.
pub open spec fn walk_report(t: TopologyView, g: Seq<Seq<int>>, st: WalkState, next: usize) -> WalkState {
    let p = cycle_report(t, g.len() as int, st.path, next);
    let sig = joined(p.nodes);
    if st.reported.contains(sig) {
        st
    } else {
        WalkState { reported: st.reported.push(sig), out: st.out.push(p), ..st }
    }
}

/// The walk from position `u`: enter it, follow its dependencies in order, finish it.
/// `fuel` bounds the depth (the walk never needs more than the positions left off
/// its path).
pub open spec fn walk_visit(t: TopologyView, g: Seq<Seq<int>>, st: WalkState, u: usize, fuel: nat) -> WalkState
    decreases fuel, 1int, 0int,
{
    if fuel == 0 {
        st
    } else {
        walk_deps(t, g, WalkState { path: st.path.push(u), ..st }, u, 0, fuel)
    }
}

/// The walk through the dependencies of `u` from the `i`-th on, then finishing `u`.
pub open spec fn walk_deps(t: TopologyView, g: Seq<Seq<int>>, st: WalkState, u: usize, i: int, fuel: nat) -> WalkState
    decreases fuel, 0int, g[u as int].len() - i,
{
    if i < 0 || i >= g[u as int].len() {
        WalkState { path: st.path.drop_last(), done: st.done.update(u as int, true), ..st }
    } else {
        let next = g[u as int][i] as usize;
        let st2 = if st.path.contains(next) {
            walk_report(t, g, st, next)
        } else if !st.done[next as int] && fuel > 0 {
            walk_visit(t, g, st, next, (fuel - 1) as nat)
        } else {
            st
        };
        walk_deps(t, g, st2, u, i + 1, fuel)
    }
}

/// The walk started from every position from `s` on that is not finished yet.
pub open spec fn walk_from(t: TopologyView, g: Seq<Seq<int>>, st: WalkState, s: int) -> WalkState
    decreases g.len() - s,
{
    if s < 0 || s >= g.len() {
        st
    } else {
        let st2 = if !st.done[s] {
            walk_visit(t, g, st, s as usize, g.len() as nat)
        } else {
            st
        };
        walk_from(t, g, st2, s + 1)
    }
}

/// The cycle reports of a canvas: the depth-first walk over its nodes in key order,
/// following each node's dependencies in port order, reports the cycle every back
/// edge closes, once per set of nodes.
pub open spec fn cycle_reports(t: TopologyView) -> Seq<ProblemView> {
    let g = dep_graph(t);
    walk_from(
        t,
        g,
        WalkState { done: Seq::new(g.len(), |x: int| false), path: Seq::empty(), reported: Seq::empty(), out: Seq::empty() },
        0,
    ).out
}

spec fn wstate(w: Walk) -> WalkState {
    WalkState { done: w.done@, path: w.path@, reported: strs(w.reported), out: problems_view(w.out@) }
}

/// How many positions the walk has neither entered nor finished.
spec fn fresh_count(d: Seq<bool>, o: Seq<bool>, n: int) -> nat
    decreases n,
{
    if n <= 0 {
        0
    } else {
        fresh_count(d, o, n - 1) + (if !d[n - 1] && !o[n - 1] {
            1nat
        } else {
            0nat
        })
    }
}

proof fn lemma_fresh_le(d1: Seq<bool>, o1: Seq<bool>, d2: Seq<bool>, o2: Seq<bool>, n: int)
    requires
        forall|x: int| 0 <= x < n && !#[trigger] d2[x] && !o2[x] ==> !d1[x] && !o1[x],
    ensures
        fresh_count(d2, o2, n) <= fresh_count(d1, o1, n),
    decreases n,
{
    if n > 0 {
        lemma_fresh_le(d1, o1, d2, o2, n - 1);
    }
}

proof fn lemma_fresh_lt(d1: Seq<bool>, o1: Seq<bool>, d2: Seq<bool>, o2: Seq<bool>, n: int, u: int)
    requires
        forall|x: int| 0 <= x < n && !#[trigger] d2[x] && !o2[x] ==> !d1[x] && !o1[x],
        0 <= u < n,
        !d1[u] && !o1[u],
        d2[u] || o2[u],
    ensures
        fresh_count(d2, o2, n) < fresh_count(d1, o1, n),
    decreases n,
{
    if u == n - 1 {
        lemma_fresh_le(d1, o1, d2, o2, n - 1);
    } else {
        lemma_fresh_lt(d1, o1, d2, o2, n - 1, u);
    }
}

/// The ids of `members`, and their signature: the ids joined by commas.
pub open spec fn joined(s: Seq<Seq<char>>) -> Seq<char>
    decreases s.len(),
{
    if s.len() == 0 {
        Seq::empty()
    } else if s.len() == 1 {
        s[0]
    } else {
        joined(s.drop_last()) + ","@ + s.last()
    }
}

fn all_false(n: usize) -> (r: Vec<bool>)
    ensures
        r@.len() == n,
        forall|x: int| 0 <= x < n ==> !#[trigger] r@[x],
{
    let mut r: Vec<bool> = Vec::new();
    let mut i: usize = 0;
    while i < n
        invariant
            i <= n,
            r@.len() == i,
            forall|x: int| 0 <= x < i ==> !#[trigger] r@[x],
        decreases n - i,
    {
        r.push(false);
        i = i + 1;
    }
    r
}

/// The positions on `path` from `s` on, in increasing order.
fn members_from(path: &Vec<usize>, s: usize, n: usize) -> (r: Vec<usize>)
    requires
        s <= path.len(),
        forall|i: int| 0 <= i < path.len() ==> (#[trigger] path@[i]) < n,
    ensures
        forall|i: int, j: int| 0 <= i < j < r.len() ==> r@[i] < r@[j],
        forall|i: int| 0 <= i < r.len() ==> (#[trigger] r@[i]) < n,
        forall|x: usize| r@.contains(x) <==> exists|z: int| s <= z < path.len() && path@[z] == x,
        r@ == members_upto(path@, s as int, n as int),
{
    let mut flags = all_false(n);
    let mut i: usize = s;
    while i < path.len()
        invariant
            s <= i <= path.len(),
            flags@.len() == n,
            forall|q: int| 0 <= q < path.len() ==> (#[trigger] path@[q]) < n,
            forall|x: int| 0 <= x < n ==> (#[trigger] flags@[x] <==> exists|z: int| s <= z < i && path@[z] == x),
        decreases path.len() - i,
    {
        let x = path[i];
        flags.set(x, true);
        proof {
            assert forall|y: int| 0 <= y < n implies (#[trigger] flags@[y] <==> exists|z: int| s <= z < i + 1
                && path@[z] == y) by {
                if y == x {
                    assert(path@[i as int] == y);
                }
            }
        }
        i = i + 1;
    }
    let mut r: Vec<usize> = Vec::new();
    let mut x: usize = 0;
    while x < n
        invariant
            x <= n,
            flags@.len() == n,
            forall|q: int| 0 <= q < path.len() ==> (#[trigger] path@[q]) < n,
            forall|y: int| 0 <= y < n ==> (#[trigger] flags@[y] <==> exists|z: int| s <= z < path.len() && path@[z] == y),
            forall|a: int, b: int| 0 <= a < b < r.len() ==> r@[a] < r@[b],
            forall|a: int| 0 <= a < r.len() ==> (#[trigger] r@[a]) < x,
            forall|y: usize| y < x ==> (r@.contains(y) <==> flags@[y as int]),
            r@ == members_upto(path@, s as int, x as int),
        decreases n - x,
    {
        let ghost prev = r@;
        assert(flags@[x as int] <==> on_tail(path@, s as int, x as int));
        if flags[x] {
            r.push(x);
            assert(r@ == prev.push(x));
        }
        assert forall|y: usize| y < x + 1 implies (r@.contains(y) <==> flags@[y as int]) by {
            if y == x && flags@[y as int] {
                assert(r@[r.len() - 1] == y);
            }
            if y < x {
                if r@.contains(y) && !prev.contains(y) {
                    assert(y == x);
                }
                if prev.contains(y) {
                    let z = choose|z: int| 0 <= z < prev.len() && prev[z] == y;
                    assert(r@[z] == y);
                }
            }
        }
        x = x + 1;
    }
    assert forall|y: usize| r@.contains(y) <==> exists|z: int| s <= z < path.len() && path@[z] == y by {
        if r@.contains(y) {
            let a = choose|a: int| 0 <= a < r.len() && r@[a] == y;
            assert(r@[a] < n);
        }
        if exists|z: int| s <= z < path.len() && path@[z] == y {
            let z = choose|z: int| s <= z < path.len() && path@[z] == y;
            assert(path@[z] < n);
            assert(flags@[y as int]);
        }
    }
    r
}

/// Reports the cycle that closes where the walk meets `next` on its path again,
/// unless a cycle over the same nodes was reported before.
fn report_cycle(t: &CanvasTopology, order: &Vec<usize>, g: &Vec<Vec<usize>>, w: &mut Walk, next: usize)
    requires
        sorted_ok(t@, idxs(*order)),
        g.len() == order.len(),
        walk_inv(t@, gview(*g), *old(w)),
        gview(*g) == dep_graph(t@),
        next < g.len(),
        old(w).on_path@[next as int],
        old(w).path@.len() > 0,
        gview(*g)[old(w).path@.last() as int].contains(next as int),
    ensures
        walk_inv(t@, gview(*g), *final(w)),
        final(w).done@ == old(w).done@,
        final(w).on_path@ == old(w).on_path@,
        final(w).path@ == old(w).path@,
        final(w).rank@ == old(w).rank@,
        final(w).clock@ == old(w).clock@,
        old(w).out@.len() <= final(w).out@.len(),
        final(w).out@.len() > 0,
        wstate(*final(w)) == walk_report(t@, gview(*g), wstate(*old(w)), next),
{
    let ghost gv = gview(*g);
    let ghost o = idxs(*order);
    let ghost sk = sorted_keys(t@);
    let ghost st0 = wstate(*w);
    let n = g.len();
    let mut s: usize = 0;
    while s < w.path.len() && w.path[s] != next
        invariant
            s <= w.path.len(),
            forall|z: int| 0 <= z < s ==> w.path@[z] != next,
        decreases w.path.len() - s,
    {
        s = s + 1;
    }
    assert(w.path@.contains(next));
    if s >= w.path.len() {
        proof {
            let z = choose|z: int| 0 <= z < w.path@.len() && w.path@[z] == next;
            assert(w.path@[z] == next);
        }
        assert(false);
    }
    let ghost cyc = w.path@.subrange(s as int, w.path@.len() as int).map_values(|x: usize| x as int);
    proof {
        assert forall|i: int| 0 <= i < cyc.len() - 1 implies #[trigger] walk_step(gv, cyc, i) by {
            assert(path_step(gv, w.path@, s + i));
        }
        assert(cyc.last() == w.path@.last() as int);
        assert(closed_walk(gv, cyc));
    }
    let members = members_from(&w.path, s, n);
    proof {
        lemma_pos_of(w.path@, next, s as int);
    }
    assert(members@.contains(next)) by {
        assert(w.path@[s as int] == next);
    }
    let mut ids: Vec<String> = Vec::new();
    let mut sig = String::new();
    let mut k: usize = 0;
    while k < members.len()
        invariant
            k <= members.len(),
            o == idxs(*order),
            sorted_ok(t@, o),
            sk == sorted_keys(t@),
            n == order.len(),
            forall|a: int| 0 <= a < members.len() ==> (#[trigger] members@[a]) < n,
            strs(ids) == members@.subrange(0, k as int).map_values(|m: usize| sk[m as int]),
            sig@ == joined(strs(ids)),
        decreases members.len() - k,
    {
        let m = members[k];
        assert(0 <= o[m as int] < t.nodes.len());
        let id = t.nodes[order[m]].node.id.clone();
        assert(id@ == sk[m as int]);
        let ghost prev = strs(ids);
        if k > 0 {
            push_str(&mut sig, ",");
        }
        push_str(&mut sig, id.as_str());
        ids.push(id);
        proof {
            assert(strs(ids) =~= prev.push(sk[m as int]));
            assert(strs(ids).drop_last() =~= prev);
            assert(members@.subrange(0, k + 1).map_values(|m: usize| sk[m as int]) =~= members@.subrange(
                0,
                k as int,
            ).map_values(|m: usize| sk[m as int]).push(sk[m as int]));
            if k == 0 {
                assert(sig@ =~= joined(strs(ids)));
            } else {
                assert(sig@ =~= joined(prev) + ","@ + sk[m as int]);
            }
        }
        k = k + 1;
    }
    assert(members@.subrange(0, members.len() as int) =~= members@);
    let mut seen = false;
    let mut q: usize = 0;
    while q < w.reported.len()
        invariant
            q <= w.reported.len(),
            seen <==> exists|z: int| 0 <= z < q && (#[trigger] w.reported@[z])@ == sig@,
        decreases w.reported.len() - q,
    {
        if string_eq(&w.reported[q], &sig) {
            seen = true;
        }
        q = q + 1;
    }
    proof {
        assert forall|id: Seq<char>| #![trigger strs(ids).contains(id)] strs(ids).contains(id) <==> exists|i: int|
            0 <= i < cyc.len() && sk[#[trigger] cyc[i]] == id by {
            if strs(ids).contains(id) {
                let a = choose|a: int| 0 <= a < strs(ids).len() && strs(ids)[a] == id;
                assert(strs(ids)[a] == sk[members@[a] as int]);
                assert(members@.contains(members@[a]));
                let z = choose|z: int| s <= z < w.path@.len() && w.path@[z] == members@[a];
                assert(cyc[z - s] == w.path@[z] as int);
            }
            if exists|i: int| 0 <= i < cyc.len() && sk[#[trigger] cyc[i]] == id {
                let i = choose|i: int| 0 <= i < cyc.len() && sk[#[trigger] cyc[i]] == id;
                let x = w.path@[s + i];
                assert(cyc[i] == x as int);
                assert(exists|z: int| s <= z < w.path@.len() && w.path@[z] == x);
                assert(members@.contains(x));
                let a = choose|a: int| 0 <= a < members@.len() && members@[a] == x;
                assert(strs(ids)[a] == sk[x as int]);
            }
        }
        assert(names_walk(t@, strs(ids), cyc));
    }
    let ghost sigv = sig@;
    let ghost want = cycle_report(t@, n as int, w.path@, next);
    proof {
        assert(members@ == members_upto(w.path@, s as int, n as int));
        assert(pos_of(w.path@, next) == s as int);
        assert(strs(ids) =~= members@.map_values(|m: usize| sk[m as int]));
        let ms = members_upto(w.path@, s as int, n as int);
        assert(want == problem(
            ProblemSeverity::Error,
            ProblemKind::Cycle,
            msg_cycle(t@.nodes[node_at(t@, ms.map_values(|m: usize| sorted_keys(t@)[m as int])[0]).unwrap()].node.name),
            ms.map_values(|m: usize| sorted_keys(t@)[m as int]),
            seq![],
            seq![],
        ));
        assert(want.nodes =~= members@.map_values(|m: usize| sk[m as int]));
        assert(want.nodes == strs(ids));
        assert(seen <==> st0.reported.contains(sigv)) by {
            if seen {
                let z = choose|z: int| 0 <= z < w.reported@.len() && (#[trigger] w.reported@[z])@ == sigv;
                assert(st0.reported[z] == sigv);
            }
            if st0.reported.contains(sigv) {
                let z = choose|z: int| 0 <= z < st0.reported.len() && st0.reported[z] == sigv;
                assert(w.reported@[z]@ == sigv);
            }
        }
    }
    if !seen {
        let ghost rep0 = w.reported@;
        w.reported.push(sig);
        let first = members[0];
        assert(0 <= o[first as int] < t.nodes.len());
        let mut msg = String::new();
        push_str(&mut msg, "cycle through node ");
        push_str(&mut msg, t.nodes[order[first]].node.name.as_str());
        let ghost node_ids_v = strs(ids);
        let p = TopologyProblem::error(ProblemKind::Cycle, msg).with_nodes(ids);
        proof {
            assert(node_ids_v =~= members@.map_values(|m: usize| sk[m as int]));
            assert forall|a: int, b: int| 0 <= a < b < node_ids_v.len() implies crate::text::str_lt(
                #[trigger] node_ids_v[a],
                #[trigger] node_ids_v[b],
            ) by {
                assert(members@[a] < members@[b]);
            }
            assert forall|a: int| 0 <= a < node_ids_v.len() implies node_ids(t@).contains(
                #[trigger] node_ids_v[a],
            ) by {
                assert(sk.contains(sk[members@[a] as int]));
                assert(sk.to_set().contains(node_ids_v[a]));
            }
            assert(o[first as int] == node_at(t@, sk[first as int]).unwrap());
            assert(p@.nodes == node_ids_v);
            assert(names_walk(t@, p@.nodes, cyc));
            assert(cycle_problem(t@, p@));
            assert(p@ == want);
        }
        let ghost before = w.out@;
        w.out.push(p);
        proof {
            assert forall|k: int| 0 <= k < w.out@.len() implies cycle_problem(t@, #[trigger] w.out@[k]@) by {
                if k < before.len() {
                    assert(w.out@[k] == before[k]);
                }
            }
            assert forall|k: int| 0 <= k < w.out@.len() implies (#[trigger] w.reported@[k])@ == joined(
                w.out@[k]@.nodes,
            ) by {
                if k < before.len() {
                    assert(w.out@[k] == before[k]);
                    assert(w.reported@[k] == rep0[k]);
                }
            }
            assert forall|i: int, j: int| 0 <= i < j < w.reported@.len() implies (#[trigger] w.reported@[i])@
                != (#[trigger] w.reported@[j])@ by {
                assert(w.reported@[i] == rep0[i]);
                if j < rep0.len() {
                    assert(w.reported@[j] == rep0[j]);
                } else {
                    assert(w.reported@[j]@ == sigv);
                }
            }
            assert(strs(w.reported) =~= st0.reported.push(sigv));
            assert(problems_view(w.out@) =~= st0.out.push(want));
            assert(wstate(*w) =~= walk_report(t@, gv, st0, next));
        }
    }
}

/// Walks from position `u`, which the walk has not entered yet, through everything
/// it depends on, and finishes it.
fn visit(t: &CanvasTopology, order: &Vec<usize>, g: &Vec<Vec<usize>>, u: usize, w: &mut Walk)
    requires
        sorted_ok(t@, idxs(*order)),
        g.len() == order.len(),
        walk_inv(t@, gview(*g), *old(w)),
        gview(*g) == dep_graph(t@),
        u < g.len(),
        !old(w).done@[u as int],
        !old(w).on_path@[u as int],
        old(w).path@.len() > 0 ==> gview(*g)[old(w).path@.last() as int].contains(u as int),
    ensures
        walk_inv(t@, gview(*g), *final(w)),
        final(w).done@[u as int],
        final(w).path@ == old(w).path@,
        final(w).on_path@ == old(w).on_path@,
        forall|x: int| 0 <= x < g.len() && #[trigger] old(w).done@[x] ==> final(w).done@[x] && final(w).rank@[x]
            == old(w).rank@[x],
        forall|x: int| 0 <= x < g.len() && !#[trigger] final(w).done@[x] && !final(w).on_path@[x] ==> !old(
            w,
        ).done@[x] && !old(w).on_path@[x],
        old(w).clock@ <= final(w).clock@,
        old(w).out@.len() <= final(w).out@.len(),
        wstate(*final(w)) == walk_visit(t@, gview(*g), wstate(*old(w)), u, (g.len() - old(w).path@.len()) as nat),
    decreases fresh_count(w.done@, w.on_path@, g.len() as int),
{
    let ghost gv = gview(*g);
    let ghost d0 = w.done@;
    let ghost o0 = w.on_path@;
    let ghost p0 = w.path@;
    let ghost r0 = w.rank@;
    let ghost c0 = w.clock@;
    let ghost n0 = w.out@.len();
    let ghost st0 = wstate(*w);
    let n = g.len();
    proof {
        lemma_path_short(p0, u, n as int);
    }
    let ghost fuel: nat = (n - p0.len()) as nat;
    w.path.push(u);
    w.on_path.set(u, true);
    proof {
        assert forall|x: int| 0 <= x < n implies (#[trigger] w.on_path@[x] <==> w.path@.contains(x as usize)) by {
            if x == u {
                assert(w.path@[p0.len() as int] == u);
            } else {
                if w.path@.contains(x as usize) {
                    let z = choose|z: int| 0 <= z < w.path@.len() && w.path@[z] == x as usize;
                    assert(p0[z] == x as usize);
                }
                if p0.contains(x as usize) {
                    let z = choose|z: int| 0 <= z < p0.len() && p0[z] == x as usize;
                    assert(w.path@[z] == x as usize);
                }
            }
        }
        assert forall|i: int, j: int| 0 <= i < j < w.path@.len() implies w.path@[i] != w.path@[j] by {
            if j == p0.len() {
                assert(p0.contains(p0[i]));
            }
        }
        assert forall|i: int| 0 <= i < w.path@.len() - 1 implies #[trigger] path_step(gv, w.path@, i) by {
            if i < p0.len() - 1 {
                assert(path_step(gv, p0, i));
            }
        }
    }
    assert(wstate(*w) == WalkState { path: st0.path.push(u), ..st0 });
    let deps = &g[u];
    let mut i: usize = 0;
    while i < deps.len()
        invariant
            sorted_ok(t@, idxs(*order)),
            g.len() == order.len(),
            n == g.len(),
            gv == gview(*g),
            u < n,
            gv == dep_graph(t@),
            deps == &g[u as int],
            i <= deps.len(),
            walk_inv(t@, gv, *w),
            w.path@ == p0.push(u),
            w.on_path@ == o0.update(u as int, true),
            !w.done@[u as int],
            !d0[u as int],
            !o0[u as int],
            d0.len() == n,
            o0.len() == n,
            d0 == old(w).done@,
            o0 == old(w).on_path@,
            forall|x: int| 0 <= x < n && #[trigger] d0[x] ==> w.done@[x] && w.rank@[x] == r0[x],
            forall|x: int| 0 <= x < n && !#[trigger] w.done@[x] && !w.on_path@[x] ==> !d0[x] && !o0[x],
            c0 <= w.clock@,
            n0 <= w.out@.len(),
            w.out@.len() == 0 ==> forall|j: int| 0 <= j < i ==> w.done@[#[trigger] gv[u as int][j]],
            fuel == n - p0.len(),
            fuel >= 1,
            walk_visit(t@, gv, st0, u, fuel) == walk_deps(t@, gv, wstate(*w), u, i as int, fuel),
        decreases deps.len() - i,
    {
        let next = deps[i];
        assert(gv[u as int][i as int] == next as int);
        assert(next < n);
        let ghost stb = wstate(*w);
        assert(w.on_path@[next as int] <==> stb.path.contains(next));
        if w.on_path[next] {
            assert(w.path@.last() == u);
            assert(gv[u as int].contains(next as int));
            report_cycle(t, order, g, w, next);
        } else if !w.done[next] {
            assert(gv[u as int].contains(next as int));
            proof {
                lemma_fresh_lt(d0, o0, w.done@, w.on_path@, n as int, u as int);
            }
            assert(fresh_count(w.done@, w.on_path@, n as int) < fresh_count(d0, o0, n as int));
            let ghost before_done = w.done@;
            visit(t, order, g, next, w);
            proof {
                assert forall|j: int| 0 <= j < i + 1 && w.out@.len() == 0 implies w.done@[#[trigger] gv[u as int][j]] by {
                    if j < i {
                        assert(before_done[gv[u as int][j]]);
                    }
                }
            }
        }
        assert(walk_deps(t@, gv, stb, u, i as int, fuel) == walk_deps(t@, gv, wstate(*w), u, i + 1, fuel));
        i = i + 1;
    }
    let ghost ste = wstate(*w);
    w.path.pop();
    w.on_path.set(u, false);
    w.done.set(u, true);
    let ghost cl = w.clock@;
    w.rank = Ghost(w.rank@.update(u as int, cl));
    w.clock = Ghost(cl + 1);
    proof {
        assert(w.path@ =~= p0);
        assert(w.on_path@ =~= o0);
        assert forall|x: int| 0 <= x < n implies (#[trigger] w.on_path@[x] <==> w.path@.contains(x as usize)) by {
            assert(o0[x] <==> p0.contains(x as usize));
        }
        assert(ste.path.drop_last() =~= p0);
        assert(wstate(*w) == WalkState { path: ste.path.drop_last(), done: ste.done.update(u as int, true), ..ste });
    }
}

/// The cycles the depth-first walk over the canvas's nodes (in key order) closes,
/// each set of nodes reported once.
pub fn check_cycles(t: &CanvasTopology) -> (r: Vec<TopologyProblem>)
    ensures
        forall|k: int| 0 <= k < r.len() ==> cycle_problem(t@, #[trigger] r@[k]@),
        forall|i: int, j: int| 0 <= i < j < r.len() ==> (#[trigger] r@[i]@).nodes != (#[trigger] r@[j]@).nodes,
        problems_view(r@) == cycle_reports(t@),
        r.len() == 0 <==> !has_cycle(dep_graph(t@)),
{
    let order = sorted_nodes(t);
    let g = dependency_graph(t, &order);
    let ghost gv = gview(g);
    let n = g.len();
    let mut w = Walk {
        done: all_false(n),
        on_path: all_false(n),
        path: Vec::new(),
        reported: Vec::new(),
        out: Vec::new(),
        rank: Ghost(Seq::new(n as nat, |x: int| 0int)),
        clock: Ghost(0int),
    };
    assert(walk_inv(t@, gv, w));
    let ghost init = WalkState {
        done: Seq::new(gv.len(), |x: int| false),
        path: Seq::empty(),
        reported: Seq::empty(),
        out: Seq::empty(),
    };
    assert(w.done@ =~= init.done);
    assert(w.path@ =~= init.path);
    assert(strs(w.reported) =~= Seq::<Seq<char>>::empty());
    assert(problems_view(w.out@) =~= Seq::<ProblemView>::empty());
    assert(wstate(w) == init);
    let mut s: usize = 0;
    while s < n
        invariant
            sorted_ok(t@, idxs(order)),
            g.len() == order.len(),
            n == g.len(),
            gv == gview(g),
            gv == dep_graph(t@),
            s <= n,
            walk_inv(t@, gv, w),
            w.path@.len() == 0,
            forall|x: int| 0 <= x < n ==> !#[trigger] w.on_path@[x],
            forall|x: int| 0 <= x < s ==> #[trigger] w.done@[x],
            walk_from(t@, gv, init, 0) == walk_from(t@, gv, wstate(w), s as int),
        decreases n - s,
    {
        let ghost stb = wstate(w);
        if !w.done[s] {
            visit(t, &order, &g, s, &mut w);
        }
        assert(walk_from(t@, gv, stb, s as int) == walk_from(t@, gv, wstate(w), s + 1));
        s = s + 1;
    }
    assert(walk_from(t@, gv, wstate(w), s as int) == wstate(w));
    proof {
        if w.out@.len() == 0 {
            lemma_ranked_acyclic(gv, w.rank@);
        }
        assert forall|i: int, j: int| 0 <= i < j < w.out@.len() implies (#[trigger] w.out@[i]@).nodes != (
        #[trigger] w.out@[j]@).nodes by {
            assert(w.reported@[i]@ == joined(w.out@[i]@.nodes));
            assert(w.reported@[j]@ == joined(w.out@[j]@.nodes));
            assert(w.reported@[i]@ != w.reported@[j]@);
        }
    }
    w.out
}

} // verus!
