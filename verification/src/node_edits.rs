//! Node edits: the port layout of each spec, and the rows a creation or a spec change
//! would write, so that the resulting topology can be checked before anything is
//! written. Ports keep their identity across a spec change, so the edges attached to
//! them survive it.

use crate::checks::{kd_count, shape_ok};
use crate::derive::{DeriveError, DeriveErrorView};
use crate::model::{
    same_spec_kind, CanvasUiPosition, CanvasTopology, EdgeConnectionEntity, EdgeView, NewPort,
    NewPortView, NodeEntity, NodeSpec, NodeSpecView, NodeView, NodeWithPorts, NodeWithPortsView,
    PortDirection, PortEntity, PortKind, PortView, TopologyView,
};
use crate::seqs::{first_where, lemma_first_where};
use crate::text::{decimal, digit_char, push_decimal, push_str, string_eq};
use crate::topology::{strs, EditView, ProblemView, TopologyEdit, TopologyError};
use vstd::prelude::*;

verus! {

/// Why a request to the orchestrator is refused.
#[derive(Debug)]
pub enum OrchestrationError {
    Topology(Box<TopologyError>),
    Derive(DeriveError),
    Invalid(String),
    Conflict(String),
    NotFound,
    PermissionDenied,
}

/// The kind of refusal and its message, where it has one.
pub enum RefusalView {
    Topology(ProblemView),
    Derive(DeriveErrorView),
    Invalid(Seq<char>),
    Conflict(Seq<char>),
    NotFound,
    PermissionDenied,
}

impl View for OrchestrationError {
    type V = RefusalView;

    open spec fn view(&self) -> RefusalView {
        match self {
            OrchestrationError::Topology(b) => RefusalView::Topology(b.first@),
            OrchestrationError::Derive(e) => RefusalView::Derive(e@),
            OrchestrationError::Invalid(m) => RefusalView::Invalid(m@),
            OrchestrationError::Conflict(m) => RefusalView::Conflict(m@),
            OrchestrationError::NotFound => RefusalView::NotFound,
            OrchestrationError::PermissionDenied => RefusalView::PermissionDenied,
        }
    }
}

pub open spec fn new_port(key: Seq<char>, kind: PortKind, direction: PortDirection, position: i64) -> NewPortView {
    NewPortView { kind, direction, key, position }
}

/// `member_0 .. member_{n-1}` inputs at positions `0..n`.
pub open spec fn members_layout(n: nat) -> Seq<NewPortView> {
    Seq::new(
        n,
        |i: int|
            new_port("member_"@ + decimal(i as nat), PortKind::DeriveDestination, PortDirection::Input, i as i64),
    )
}

/// `copy_0 .. copy_{n-1}` outputs at positions `1..=n`.
pub open spec fn copies_layout(n: nat) -> Seq<NewPortView> {
    Seq::new(
        n,
        |i: int|
            new_port("copy_"@ + decimal(i as nat), PortKind::DeriveDestination, PortDirection::Output, (i + 1) as i64),
    )
}

pub open spec fn lb_count_message() -> Seq<char> {
    "load balance nodes need at least 2 members"@
}

pub open spec fn unsupported_message() -> Seq<char> {
    "canvas import/export is not supported yet"@
}

/// The ports a node of `spec` has: keys, kinds, directions and positions. A
/// load-balance node has `item_count` members (at least two).
pub open spec fn spec_port_layout(spec: NodeSpecView, item_count: u32) -> Result<Seq<NewPortView>, Seq<char>> {
    match spec {
        NodeSpecView::Pod { .. } => Ok(
            seq![
                new_port("listen"@, PortKind::DeriveListen, PortDirection::Output, 0),
                new_port("destination"@, PortKind::DeriveDestination, PortDirection::Input, 1),
            ],
        ),
        NodeSpecView::Entry { .. } => Ok(seq![new_port("listen"@, PortKind::DeriveListen, PortDirection::Input, 0)]),
        NodeSpecView::Relay { .. } => Ok(
            seq![
                new_port("listen"@, PortKind::DeriveListen, PortDirection::Input, 0),
                new_port("destination"@, PortKind::DeriveDestination, PortDirection::Output, 1),
            ],
        ),
        NodeSpecView::Exit { .. } => Ok(
            seq![new_port("destination"@, PortKind::DeriveDestination, PortDirection::Output, 0)],
        ),
        NodeSpecView::LoadBalanceDistribute { .. } => if item_count < 2 {
            Err(lb_count_message())
        } else {
            Ok(
                members_layout(item_count as nat).push(
                    new_port("destination"@, PortKind::DeriveDestination, PortDirection::Output, item_count as i64),
                ),
            )
        },
        NodeSpecView::LoadBalanceAggregate => if item_count < 2 {
            Err(lb_count_message())
        } else {
            Ok(
                seq![new_port("source"@, PortKind::DeriveDestination, PortDirection::Input, 0)] + copies_layout(
                    item_count as nat,
                ),
            )
        },
        NodeSpecView::CanvasImport | NodeSpecView::CanvasExport(_) => Err(unsupported_message()),
    }
}

pub open spec fn new_ports_view(v: Seq<NewPort>) -> Seq<NewPortView> {
    v.map_values(|p: NewPort| p@)
}

fn mk_port(key: &str, kind: PortKind, direction: PortDirection, position: i64) -> (r: NewPort)
    ensures
        r@ == new_port(key@, kind, direction, position),
{
    NewPort { kind, direction, key: String::from_str(key), position }
}
proof fn lemma_decimal_len(n: nat)
    ensures
        decimal(n).len() >= 1,
        decimal(n).len() == 1 <==> n < 10,
    decreases n,
{
    if n >= 10 {
        lemma_decimal_len(n / 10);
    }
}

proof fn lemma_decimal_injective(a: nat, b: nat)
    requires
        decimal(a) == decimal(b),
    ensures
        a == b,
    decreases a,
{
    lemma_decimal_len(a);
    lemma_decimal_len(b);
    if a < 10 && b < 10 {
        assert(decimal(a)[0] == digit_char(a));
        assert(decimal(b)[0] == digit_char(b));
    } else if a >= 10 && b >= 10 {
        let da = decimal(a / 10);
        let db = decimal(b / 10);
        assert(decimal(a) == da.push(digit_char(a % 10)));
        assert(decimal(b) == db.push(digit_char(b % 10)));
        assert(decimal(a).drop_last() =~= da);
        assert(decimal(b).drop_last() =~= db);
        lemma_decimal_injective(a / 10, b / 10);
        assert(decimal(a).last() == digit_char(a % 10));
        assert(decimal(b).last() == digit_char(b % 10));
        assert(a % 10 == b % 10);
    }
}

proof fn lemma_prefixed_distinct(p: Seq<char>, a: nat, b: nat)
    requires
        a != b,
    ensures
        p + decimal(a) != p + decimal(b),
{
    if p + decimal(a) == p + decimal(b) {
        assert((p + decimal(a)).subrange(p.len() as int, (p + decimal(a)).len() as int) =~= decimal(a));
        assert((p + decimal(b)).subrange(p.len() as int, (p + decimal(b)).len() as int) =~= decimal(b));
        lemma_decimal_injective(a, b);
    }
}

/// How many of the first `m` ports have kind `k` and direction `d`.
spec fn kd_rec(s: Seq<PortView>, k: PortKind, d: PortDirection, m: int) -> nat
    decreases m,
{
    if m <= 0 {
        0
    } else {
        kd_rec(s, k, d, m - 1) + (if s[m - 1].kind == k && s[m - 1].direction == d {
            1nat
        } else {
            0nat
        })
    }
}

proof fn lemma_kd_rec_count(s: Seq<PortView>, k: PortKind, d: PortDirection, m: int)
    requires
        0 <= m <= s.len(),
    ensures
        kd_count(s.subrange(0, m), k, d) == kd_rec(s, k, d, m),
    decreases m,
{
    let p = |q: PortView| q.kind == k && q.direction == d;
    if m == 0 {
        assert(s.subrange(0, 0) =~= Seq::<PortView>::empty());
        assert(Seq::<PortView>::empty().filter(p) =~= Seq::<PortView>::empty()) by {
            reveal_with_fuel(Seq::filter, 1);
        }
    } else {
        lemma_kd_rec_count(s, k, d, m - 1);
        assert(s.subrange(0, m) =~= s.subrange(0, m - 1).push(s[m - 1]));
        s.subrange(0, m - 1).lemma_filter_push(s[m - 1], p);
    }
}

proof fn lemma_kd_rec_block(
    s: Seq<PortView>,
    k: PortKind,
    d: PortDirection,
    a: int,
    b: int,
    k0: PortKind,
    d0: PortDirection,
)
    requires
        0 <= a <= b <= s.len(),
        forall|i: int| a <= i < b ==> (#[trigger] s[i]).kind == k0 && s[i].direction == d0,
    ensures
        kd_rec(s, k, d, b) == kd_rec(s, k, d, a) + (if k == k0 && d == d0 {
            (b - a) as nat
        } else {
            0nat
        }),
    decreases b - a,
{
    if b > a {
        lemma_kd_rec_block(s, k, d, a, b - 1, k0, d0);
        assert(s[b - 1].kind == k0 && s[b - 1].direction == d0);
    }
}

proof fn lemma_kd_all(s: Seq<PortView>)
    ensures
        kd_count(s, PortKind::DeriveListen, PortDirection::Input) == kd_rec(s, PortKind::DeriveListen, PortDirection::Input, s.len() as int),
        kd_count(s, PortKind::DeriveListen, PortDirection::Output) == kd_rec(s, PortKind::DeriveListen, PortDirection::Output, s.len() as int),
        kd_count(s, PortKind::DeriveDestination, PortDirection::Input) == kd_rec(s, PortKind::DeriveDestination, PortDirection::Input, s.len() as int),
        kd_count(s, PortKind::DeriveDestination, PortDirection::Output) == kd_rec(s, PortKind::DeriveDestination, PortDirection::Output, s.len() as int),
{
    assert(s.subrange(0, s.len() as int) =~= s);
    lemma_kd_rec_count(s, PortKind::DeriveListen, PortDirection::Input, s.len() as int);
    lemma_kd_rec_count(s, PortKind::DeriveListen, PortDirection::Output, s.len() as int);
    lemma_kd_rec_count(s, PortKind::DeriveDestination, PortDirection::Input, s.len() as int);
    lemma_kd_rec_count(s, PortKind::DeriveDestination, PortDirection::Output, s.len() as int);
}

proof fn lemma_kd_blocks(s: Seq<PortView>, a: int, b: int, k0: PortKind, d0: PortDirection)
    requires
        0 <= a <= b <= s.len(),
        forall|i: int| a <= i < b ==> (#[trigger] s[i]).kind == k0 && s[i].direction == d0,
    ensures
        forall|k: PortKind, d: PortDirection| #[trigger] kd_rec(s, k, d, b) == kd_rec(s, k, d, a) + (if k == k0 && d == d0 {
            (b - a) as nat
        } else {
            0nat
        }),
{
    assert forall|k: PortKind, d: PortDirection| #[trigger] kd_rec(s, k, d, b) == kd_rec(s, k, d, a) + (if k == k0
        && d == d0 {
        (b - a) as nat
    } else {
        0nat
    }) by {
        lemma_kd_rec_block(s, k, d, a, b, k0, d0);
    }
}

/// Ports made from a layout pass the shape check: a node whose ports have the
/// kinds and directions of its spec's layout is never reported for its port shape.
pub proof fn port_layouts_pass_the_shape_check(nv: NodeWithPortsView, item_count: u32)
    requires
        spec_port_layout(nv.node.spec, item_count) is Ok,
        nv.ports.len() == spec_port_layout(nv.node.spec, item_count)->Ok_0.len(),
        forall|i: int|
            0 <= i < nv.ports.len() ==> (#[trigger] nv.ports[i]).kind == spec_port_layout(nv.node.spec, item_count)->Ok_0[i].kind
                && nv.ports[i].direction == spec_port_layout(nv.node.spec, item_count)->Ok_0[i].direction,
    ensures
        shape_ok(nv),
{
    let ps = spec_port_layout(nv.node.spec, item_count)->Ok_0;
    let s = nv.ports;
    let n = s.len() as int;
    lemma_kd_all(s);
    match nv.node.spec {
        NodeSpecView::LoadBalanceDistribute { .. } => {
            let c = item_count as int;
            assert forall|i: int| 0 <= i < c implies (#[trigger] s[i]).kind == PortKind::DeriveDestination
                && s[i].direction == PortDirection::Input by {
                assert(ps[i] == members_layout(item_count as nat)[i]);
            }
            lemma_kd_blocks(s, 0, c, PortKind::DeriveDestination, PortDirection::Input);
            assert(ps[c] == new_port("destination"@, PortKind::DeriveDestination, PortDirection::Output, item_count as i64));
            lemma_kd_blocks(s, c, c + 1, PortKind::DeriveDestination, PortDirection::Output);
        },
        NodeSpecView::LoadBalanceAggregate => {
            let c = item_count as int;
            lemma_kd_blocks(s, 0, 1, PortKind::DeriveDestination, PortDirection::Input);
            assert forall|i: int| 1 <= i < c + 1 implies (#[trigger] s[i]).kind == PortKind::DeriveDestination
                && s[i].direction == PortDirection::Output by {
                assert(ps[i] == copies_layout(item_count as nat)[i - 1]);
            }
            lemma_kd_blocks(s, 1, c + 1, PortKind::DeriveDestination, PortDirection::Output);
        },
        _ => {
            reveal_with_fuel(kd_rec, 3);
        },
    }
}

/// A port layout is well formed: ports sit at positions `0, 1, 2, ...` in order, no
/// two ports share a key, and the layout of a pod, entry, relay or exit does not
/// depend on the item count.
pub proof fn port_layouts_are_well_formed(spec: NodeSpecView, item_count: u32, other_count: u32)
    ensures
        spec_port_layout(spec, item_count) matches Ok(ps) ==> (forall|i: int|
            0 <= i < ps.len() ==> (#[trigger] ps[i]).position == i) && (forall|i: int, j: int|
            0 <= i < j < ps.len() ==> (#[trigger] ps[i]).key != (#[trigger] ps[j]).key),
        (spec is Pod || spec is Entry || spec is Relay || spec is Exit) ==> spec_port_layout(spec, item_count)
            == spec_port_layout(spec, other_count),
{
    reveal_strlit("listen");
    reveal_strlit("destination");
    reveal_strlit("source");
    reveal_strlit("member_");
    reveal_strlit("copy_");
    if let Ok(ps) = spec_port_layout(spec, item_count) {
        assert forall|i: int, j: int| 0 <= i < j < ps.len() implies (#[trigger] ps[i]).key != (
        #[trigger] ps[j]).key by {
            match spec {
                NodeSpecView::LoadBalanceDistribute { .. } => {
                    let n = item_count as nat;
                    if j < n {
                        assert(ps[i] == members_layout(n)[i]);
                        assert(ps[j] == members_layout(n)[j]);
                        lemma_prefixed_distinct("member_"@, i as nat, j as nat);
                    } else {
                        assert(ps[i] == members_layout(n)[i]);
                        assert(ps[i].key[0] == 'm');
                        assert(ps[j].key[0] == 'd');
                    }
                },
                NodeSpecView::LoadBalanceAggregate => {
                    let n = item_count as nat;
                    if i == 0 {
                        assert(ps[j] == copies_layout(n)[j - 1]);
                        assert(ps[i].key[0] == 's');
                        assert(ps[j].key[0] == 'c');
                    } else {
                        assert(ps[i] == copies_layout(n)[i - 1]);
                        assert(ps[j] == copies_layout(n)[j - 1]);
                        lemma_prefixed_distinct("copy_"@, (i - 1) as nat, (j - 1) as nat);
                    }
                },
                _ => {
                    assert(ps[i].key[0] != ps[j].key[0]);
                },
            }
        }
        assert forall|i: int| 0 <= i < ps.len() implies (#[trigger] ps[i]).position == i by {
            match spec {
                NodeSpecView::LoadBalanceDistribute { .. } => {
                    if i < item_count {
                        assert(ps[i] == members_layout(item_count as nat)[i]);
                    }
                },
                NodeSpecView::LoadBalanceAggregate => {
                    if i > 0 {
                        assert(ps[i] == copies_layout(item_count as nat)[i - 1]);
                    }
                },
                _ => {},
            }
        }
    }
}


/// How many members a load-balance node gets: at least two.
pub fn load_balance_count(item_count: u32) -> (r: Result<i64, OrchestrationError>)
    ensures
        match r {
            Ok(n) => item_count >= 2 && n == item_count as i64,
            Err(e) => item_count < 2 && e@ == RefusalView::Invalid(lb_count_message()),
        },
{
    if item_count < 2 {
        proof {
            reveal_strlit("load balance nodes need at least 2 members");
        }
        return Err(OrchestrationError::Invalid(String::from_str("load balance nodes need at least 2 members")));
    }
    Ok(item_count as i64)
}

/// The port layout of a spec: the single source of truth for port keys and
/// positions, from which both creation and replacement make ports.
pub fn port_layout(spec: &NodeSpec, item_count: u32) -> (r: Result<Vec<NewPort>, OrchestrationError>)
    ensures
        match spec_port_layout(spec@, item_count) {
            Ok(ps) => r matches Ok(v) && new_ports_view(v@) == ps,
            Err(m) => r matches Err(e) && e@ == RefusalView::Invalid(m),
        },
{
    let mut out: Vec<NewPort> = Vec::new();
    match spec {
        NodeSpec::Pod(_) => {
            out.push(mk_port("listen", PortKind::DeriveListen, PortDirection::Output, 0));
            out.push(mk_port("destination", PortKind::DeriveDestination, PortDirection::Input, 1));
        },
        NodeSpec::Entry(_) => {
            out.push(mk_port("listen", PortKind::DeriveListen, PortDirection::Input, 0));
        },
        NodeSpec::Relay(_) => {
            out.push(mk_port("listen", PortKind::DeriveListen, PortDirection::Input, 0));
            out.push(mk_port("destination", PortKind::DeriveDestination, PortDirection::Output, 1));
        },
        NodeSpec::Exit(_) => {
            out.push(mk_port("destination", PortKind::DeriveDestination, PortDirection::Output, 0));
        },
        NodeSpec::LoadBalanceDistribute(_) => {
            let count = match load_balance_count(item_count) {
                Ok(n) => n,
                Err(e) => return Err(e),
            };
            let mut i: i64 = 0;
            while i < count
                invariant
                    0 <= i <= count,
                    count == item_count as i64,
                    new_ports_view(out@) == members_layout(i as nat),
                decreases count - i,
            {
                let mut key = String::from_str("member_");
                push_decimal(&mut key, i as u128);
                assert(key@ == "member_"@ + decimal(i as nat));
                let ghost before = new_ports_view(out@);
                out.push(NewPort { kind: PortKind::DeriveDestination, direction: PortDirection::Input, key, position: i });
                assert(new_ports_view(out@) == before.push(new_port("member_"@ + decimal(i as nat), PortKind::DeriveDestination, PortDirection::Input, i)));
                assert(new_ports_view(out@) =~= members_layout((i + 1) as nat));
                i = i + 1;
            }
            out.push(mk_port("destination", PortKind::DeriveDestination, PortDirection::Output, count));
        },
        NodeSpec::LoadBalanceAggregate(_) => {
            let count = match load_balance_count(item_count) {
                Ok(n) => n,
                Err(e) => return Err(e),
            };
            out.push(mk_port("source", PortKind::DeriveDestination, PortDirection::Input, 0));
            let ghost head = new_ports_view(out@);
            let mut i: i64 = 0;
            while i < count
                invariant
                    0 <= i <= count,
                    count == item_count as i64,
                    head.len() == 1,
                    new_ports_view(out@) == head + copies_layout(i as nat),
                decreases count - i,
            {
                let mut key = String::from_str("copy_");
                push_decimal(&mut key, i as u128);
                assert(key@ == "copy_"@ + decimal(i as nat));
                let ghost before = new_ports_view(out@);
                out.push(NewPort { kind: PortKind::DeriveDestination, direction: PortDirection::Output, key, position: i + 1 });
                assert(new_ports_view(out@) == before.push(new_port("copy_"@ + decimal(i as nat), PortKind::DeriveDestination, PortDirection::Output, (i + 1) as i64)));
                assert(new_ports_view(out@) =~= head + copies_layout((i + 1) as nat));
                i = i + 1;
            }
        },
        NodeSpec::CanvasImport(_) | NodeSpec::CanvasExport(_) => {
            proof {
                reveal_strlit("canvas import/export is not supported yet");
            }
            return Err(OrchestrationError::Invalid(String::from_str("canvas import/export is not supported yet")));
        },
    }
    assert(new_ports_view(out@) =~= spec_port_layout(spec@, item_count)->Ok_0);
    Ok(out)
}

// ---------------------------------------------------------------------------
// The rows an edit would write.
// ---------------------------------------------------------------------------

pub open spec fn pending_node_id() -> Seq<char> {
    "pending-node"@
}

pub open spec fn pending_port_id(i: int) -> Seq<char> {
    "pending-port-"@ + decimal(i as nat)
}

pub open spec fn ports_view(v: Seq<PortEntity>) -> Seq<PortView> {
    v.map_values(|p: PortEntity| p@)
}

fn pending_port_id_exec(i: usize) -> (r: String)
    ensures
        r@ == pending_port_id(i as int),
{
    let mut s = String::from_str("pending-port-");
    push_decimal(&mut s, i as u128);
    s
}

/// The rows creating a node would write, with placeholder ids, for validation.
pub fn pending_node(
    canvas: &String,
    name: &String,
    comment: &String,
    spec: &NodeSpec,
    position: CanvasUiPosition,
    ports: &Vec<NewPort>,
) -> (r: (NodeEntity, Vec<PortEntity>))
    ensures
        r.0@ == (NodeView {
            id: pending_node_id(),
            canvas: canvas@,
            name: name@,
            comment: comment@,
            spec: spec@,
            position,
        }),
        ports_view(r.1@) == Seq::new(
            ports.len() as nat,
            |i: int|
                PortView {
                    id: pending_port_id(i),
                    owner: pending_node_id(),
                    kind: ports@[i].kind,
                    direction: ports@[i].direction,
                    key: ports@[i].key@,
                    position: ports@[i].position,
                },
        ),
{
    let node_id = String::from_str("pending-node");
    let node = NodeEntity {
        id: node_id.clone(),
        canvas: canvas.clone(),
        name: name.clone(),
        comment: comment.clone(),
        spec: spec.duplicate(),
        position,
    };
    let mut rows: Vec<PortEntity> = Vec::new();
    let mut i: usize = 0;
    while i < ports.len()
        invariant
            i <= ports.len(),
            node_id@ == pending_node_id(),
            ports_view(rows@) == Seq::new(
                i as nat,
                |k: int|
                    PortView {
                        id: pending_port_id(k),
                        owner: pending_node_id(),
                        kind: ports@[k].kind,
                        direction: ports@[k].direction,
                        key: ports@[k].key@,
                        position: ports@[k].position,
                    },
            ),
        decreases ports.len() - i,
    {
        let p = &ports[i];
        let ghost before = ports_view(rows@);
        let row = PortEntity {
            id: pending_port_id_exec(i),
            owner: node_id.clone(),
            kind: p.kind,
            direction: p.direction,
            key: p.key.clone(),
            position: p.position,
        };
        assert(row@ == PortView {
            id: pending_port_id(i as int),
            owner: pending_node_id(),
            kind: ports@[i as int].kind,
            direction: ports@[i as int].direction,
            key: ports@[i as int].key@,
            position: ports@[i as int].position,
        });
        rows.push(row);
        assert(ports_view(rows@) == before.push(row@));
        assert(ports_view(rows@) =~= Seq::new(
            (i + 1) as nat,
            |k: int|
                PortView {
                    id: pending_port_id(k),
                    owner: pending_node_id(),
                    kind: ports@[k].kind,
                    direction: ports@[k].direction,
                    key: ports@[k].key@,
                    position: ports@[k].position,
                },
        ));
        i = i + 1;
    }
    (node, rows)
}

/// The row of the `i`-th port of the new layout: a key the node already had keeps
/// that port's id, and with it the edges attached to it.
pub open spec fn kept_port(old: NodeWithPortsView, p: NewPortView, i: int) -> PortView {
    PortView {
        id: match first_where(old.ports, |q: PortView| q.key == p.key) {
            Some(j) => old.ports[j].id,
            None => pending_port_id(i),
        },
        owner: old.node.id,
        kind: p.kind,
        direction: p.direction,
        key: p.key,
        position: p.position,
    }
}

pub open spec fn kept_rows(old: NodeWithPortsView, ps: Seq<NewPortView>) -> Seq<PortView> {
    Seq::new(ps.len(), |i: int| kept_port(old, ps[i], i))
}

/// `c` with edge `e` carried for its endpoint `port`, or `None` when `port` is a port
/// of the node that the new layout drops.
pub open spec fn carry_end(
    old: NodeWithPortsView,
    kept: Seq<Seq<char>>,
    c: Seq<EdgeView>,
    e: EdgeView,
    port: Seq<char>,
) -> Option<Seq<EdgeView>> {
    match first_where(old.ports, |q: PortView| q.id == port) {
        None => Some(c),
        Some(j) => if kept.contains(old.ports[j].id) {
            Some(c.push(e))
        } else {
            None
        },
    }
}

/// The edges of `edges[..k]` to re-attach after the spec change (once per endpoint on
/// the node), or `None` when one of them sits on a port the change drops.
pub open spec fn carried(old: NodeWithPortsView, kept: Seq<Seq<char>>, edges: Seq<EdgeView>, k: int) -> Option<
    Seq<EdgeView>,
>
    decreases k,
{
    if k <= 0 {
        Some(Seq::empty())
    } else {
        match carried(old, kept, edges, k - 1) {
            None => None,
            Some(c) => match carry_end(old, kept, c, edges[k - 1], edges[k - 1].source) {
                None => None,
                Some(c1) => carry_end(old, kept, c1, edges[k - 1], edges[k - 1].target),
            },
        }
    }
}

pub open spec fn kind_change_message() -> Seq<char> {
    "spec kind cannot change; create a new node"@
}

pub open spec fn dropped_port_message() -> Seq<char> {
    "disconnect edges on removed ports first"@
}

pub open spec fn edits_view(v: Seq<TopologyEdit>) -> Seq<EditView> {
    v.map_values(|e: TopologyEdit| e@)
}

/// What replacing the spec of `old` with `spec` would do to `t`: the new port layout
/// and the edits that project it (retire the node, add it back with its new ports,
/// re-attach the edges it keeps); or why it is refused.
pub open spec fn spec_replacement(
    old: NodeWithPortsView,
    spec: NodeSpecView,
    item_count: u32,
    t: TopologyView,
) -> Result<(Seq<NewPortView>, Seq<EditView>), RefusalView> {
    if !same_spec_kind(old.node.spec, spec) {
        Err(RefusalView::Invalid(kind_change_message()))
    } else {
        match spec_port_layout(spec, item_count) {
            Err(m) => Err(RefusalView::Invalid(m)),
            Ok(ps) => {
                let rows = kept_rows(old, ps);
                let kept = rows.map_values(|p: PortView| p.id);
                match carried(old, kept, t.edges, t.edges.len() as int) {
                    None => Err(RefusalView::Conflict(dropped_port_message())),
                    Some(c) => Ok(
                        (
                            ps,
                            seq![
                                EditView::RetireNode { node: old.node.id },
                                EditView::AddNode {
                                    node: NodeView { spec, ..old.node },
                                    ports: rows,
                                },
                            ] + c.map_values(|e: EdgeView| EditView::AddEdge { edge: e }),
                        ),
                    ),
                }
            },
        }
    }
}

fn port_with_key(old: &NodeWithPorts, key: &String) -> (r: Option<usize>)
    ensures
        crate::index::opt_idx(r) == first_where(old@.ports, |q: PortView| q.key == key@),
        r matches Some(j) ==> j < old.ports.len(),
{
    let ghost p = |q: PortView| q.key == key@;
    let mut j: usize = 0;
    while j < old.ports.len()
        invariant
            j <= old.ports.len(),
            p == (|q: PortView| q.key == key@),
            forall|z: int| 0 <= z < j ==> !p(#[trigger] old@.ports[z]),
        decreases old.ports.len() - j,
    {
        assert(old@.ports[j as int] == old.ports@[j as int]@);
        if string_eq(&old.ports[j].key, key) {
            proof {
                lemma_first_where(old@.ports, p, j as int);
            }
            return Some(j);
        }
        j = j + 1;
    }
    proof {
        lemma_first_where(old@.ports, p, j as int);
    }
    None
}

fn port_with_id(old: &NodeWithPorts, id: &String) -> (r: Option<usize>)
    ensures
        crate::index::opt_idx(r) == first_where(old@.ports, |q: PortView| q.id == id@),
        r matches Some(j) ==> j < old.ports.len(),
{
    let ghost p = |q: PortView| q.id == id@;
    let mut j: usize = 0;
    while j < old.ports.len()
        invariant
            j <= old.ports.len(),
            p == (|q: PortView| q.id == id@),
            forall|z: int| 0 <= z < j ==> !p(#[trigger] old@.ports[z]),
        decreases old.ports.len() - j,
    {
        assert(old@.ports[j as int] == old.ports@[j as int]@);
        if string_eq(&old.ports[j].id, id) {
            proof {
                lemma_first_where(old@.ports, p, j as int);
            }
            return Some(j);
        }
        j = j + 1;
    }
    proof {
        lemma_first_where(old@.ports, p, j as int);
    }
    None
}

fn carry_end_exec(
    node: &NodeWithPorts,
    rows: &Vec<PortEntity>,
    c: &mut Vec<EdgeConnectionEntity>,
    e: &EdgeConnectionEntity,
    port: &String,
) -> (ok: bool)
    ensures
        match carry_end(node@, ports_view(rows@).map_values(|p: PortView| p.id), c_view(old(c)@), e@, port@) {
            Some(c2) => ok && c_view(final(c)@) == c2,
            None => !ok,
        },
{
    match port_with_id(node, port) {
        None => true,
        Some(j) => {
            let ghost kept = ports_view(rows@).map_values(|p: PortView| p.id);
            let mut found = false;
            let mut k: usize = 0;
            while k < rows.len()
                invariant
                    k <= rows.len(),
                    j < node.ports.len(),
                    kept == ports_view(rows@).map_values(|p: PortView| p.id),
                    kept.len() == rows.len(),
                    found == exists|z: int| 0 <= z < k && kept[z] == node.ports@[j as int].id@,
                decreases rows.len() - k,
            {
                assert(kept[k as int] == rows@[k as int].id@);
                if string_eq(&rows[k].id, &node.ports[j].id) {
                    found = true;
                }
                k = k + 1;
            }
            assert(node@.ports[j as int] == node.ports@[j as int]@);
            if found {
                let ghost before = c_view(c@);
                c.push(e.duplicate());
                assert(c_view(c@) =~= before.push(e@));
                true
            } else {
                false
            }
        },
    }
}

pub open spec fn c_view(v: Seq<EdgeConnectionEntity>) -> Seq<EdgeView> {
    v.map_values(|e: EdgeConnectionEntity| e@)
}

/// Plans replacing the spec of `old` with `spec` on topology `t`: the new port layout,
/// and the edits whose projection must validate before the change is written.
#[verifier::loop_isolation(false)]
pub fn plan_spec_replacement(old: &NodeWithPorts, spec: &NodeSpec, item_count: u32, t: &CanvasTopology) -> (r: Result<
    (Vec<NewPort>, Vec<TopologyEdit>),
    OrchestrationError,
>)
    ensures
        match spec_replacement(old@, spec@, item_count, t@) {
            Ok((ps, es)) => r matches Ok(x) && new_ports_view(x.0@) == ps && edits_view(x.1@) == es,
            Err(e) => r matches Err(x) && x@ == e,
        },
{
    if !old.node.spec.same_kind(spec) {
        proof {
            reveal_strlit("spec kind cannot change; create a new node");
        }
        return Err(OrchestrationError::Invalid(String::from_str("spec kind cannot change; create a new node")));
    }
    let ports = match port_layout(spec, item_count) {
        Ok(p) => p,
        Err(e) => return Err(e),
    };
    let ghost ps = new_ports_view(ports@);
    let mut rows: Vec<PortEntity> = Vec::new();
    let mut i: usize = 0;
    while i < ports.len()
        invariant
            i <= ports.len(),
            ps == new_ports_view(ports@),
            ps.len() == ports.len(),
            ports_view(rows@) == kept_rows(old@, ps).subrange(0, i as int),
        decreases ports.len() - i,
    {
        let p = &ports[i];
        assert(ps[i as int] == p@);
        let id = match port_with_key(old, &p.key) {
            Some(j) => {
                assert(old@.ports[j as int] == old.ports@[j as int]@);
                old.ports[j].id.clone()
            },
            None => pending_port_id_exec(i),
        };
        let row = PortEntity {
            id,
            owner: old.node.id.clone(),
            kind: p.kind,
            direction: p.direction,
            key: p.key.clone(),
            position: p.position,
        };
        assert(row@ == kept_port(old@, ps[i as int], i as int));
        assert(kept_rows(old@, ps)[i as int] == kept_port(old@, ps[i as int], i as int));
        let ghost before = ports_view(rows@);
        rows.push(row);
        assert(ports_view(rows@) == before.push(row@));
        assert(ports_view(rows@) =~= kept_rows(old@, ps).subrange(0, i + 1));
        i = i + 1;
    }
    assert(ports_view(rows@) =~= kept_rows(old@, ps));
    let ghost kept = ports_view(rows@).map_values(|p: PortView| p.id);
    let mut carried_edges: Vec<EdgeConnectionEntity> = Vec::new();
    let mut k: usize = 0;
    while k < t.edges.len()
        invariant
            k <= t.edges.len(),
            kept == ports_view(rows@).map_values(|p: PortView| p.id),
            carried(old@, kept, t@.edges, k as int) == Some(c_view(carried_edges@)),
        decreases t.edges.len() - k,
    {
        let e = &t.edges[k];
        assert(t@.edges[k as int] == e@);
        if !carry_end_exec(old, &rows, &mut carried_edges, e, &e.source) {
            proof {
                reveal_strlit("disconnect edges on removed ports first");
                lemma_carried_none_sticks(old@, kept, t@.edges, k + 1, t.edges.len() as int);
            }
            return Err(OrchestrationError::Conflict(String::from_str("disconnect edges on removed ports first")));
        }
        if !carry_end_exec(old, &rows, &mut carried_edges, e, &e.target) {
            proof {
                reveal_strlit("disconnect edges on removed ports first");
                lemma_carried_none_sticks(old@, kept, t@.edges, k + 1, t.edges.len() as int);
            }
            return Err(OrchestrationError::Conflict(String::from_str("disconnect edges on removed ports first")));
        }
        k = k + 1;
    }
    let node = NodeEntity {
        id: old.node.id.clone(),
        canvas: old.node.canvas.clone(),
        name: old.node.name.clone(),
        comment: old.node.comment.clone(),
        spec: spec.duplicate(),
        position: old.node.position,
    };
    let mut edits: Vec<TopologyEdit> = Vec::new();
    edits.push(TopologyEdit::RetireNode { node: old.node.id.clone() });
    edits.push(TopologyEdit::AddNode { node: Box::new(node), ports: rows });
    let ghost head = edits_view(edits@);
    let ghost cv = c_view(carried_edges@);
    let mut q: usize = 0;
    while q < carried_edges.len()
        invariant
            q <= carried_edges.len(),
            cv == c_view(carried_edges@),
            cv.len() == carried_edges.len(),
            edits_view(edits@) == head + cv.subrange(0, q as int).map_values(|e: EdgeView| EditView::AddEdge { edge: e }),
        decreases carried_edges.len() - q,
    {
        let ghost before = edits_view(edits@);
        edits.push(TopologyEdit::AddEdge { edge: carried_edges[q].duplicate() });
        assert(cv.subrange(0, q + 1).map_values(|e: EdgeView| EditView::AddEdge { edge: e }) =~= cv.subrange(
            0,
            q as int,
        ).map_values(|e: EdgeView| EditView::AddEdge { edge: e }).push(EditView::AddEdge { edge: cv[q as int] }));
        assert(edits_view(edits@) =~= before.push(EditView::AddEdge { edge: cv[q as int] }));
        q = q + 1;
    }
    assert(cv.subrange(0, cv.len() as int) =~= cv);
    Ok((ports, edits))
}

proof fn lemma_carried_none_sticks(old: NodeWithPortsView, kept: Seq<Seq<char>>, edges: Seq<EdgeView>, j: int, n: int)
    requires
        0 <= j <= n,
        carried(old, kept, edges, j) is None,
    ensures
        carried(old, kept, edges, n) is None,
    decreases n - j,
{
    if j < n {
        lemma_carried_none_sticks(old, kept, edges, j, n - 1);
    }
}

/// Ports keep their identity across a spec change: a port of the new layout whose key
/// the node already had keeps that port's id, so the edges on it survive.
pub proof fn spec_change_keeps_port_identity(
    old: NodeWithPortsView,
    spec: NodeSpecView,
    item_count: u32,
    t: TopologyView,
    i: int,
    j: int,
)
    requires
        spec_replacement(old, spec, item_count, t) is Ok,
        0 <= i < spec_port_layout(spec, item_count)->Ok_0.len(),
        0 <= j < old.ports.len(),
        old.ports[j].key == spec_port_layout(spec, item_count)->Ok_0[i].key,
        forall|z: int| 0 <= z < j ==> old.ports[z].key != old.ports[j].key,
    ensures
        spec_replacement(old, spec, item_count, t)->Ok_0.1[1] matches EditView::AddNode { ports, .. } && ports[i].id
            == old.ports[j].id,
{
    let ps = spec_port_layout(spec, item_count)->Ok_0;
    lemma_first_where(old.ports, |q: PortView| q.key == ps[i].key, j);
}

} // verus!
