//! Seamless switching: what a server may actually serve right now.
//!
//! Derivation answers what a server should serve once the whole canvas has caught
//! up. Convergence answers which of those forwardings can be handed to the server
//! now, given what every server is running, without breaking a path in use:
//!
//! 1. Never point at a listener nobody serves yet. A forwarding whose targets are not
//!    in some server's applied snapshot keeps its previous shape (or is withheld if it
//!    never had one), and the server waits for the targets' servers.
//! 2. Never drop a listener somebody still points at. A listener of this server that
//!    any snapshot still points at is kept alive from this server's own previous
//!    snapshot, even after the canvas stopped asking for it.

use crate::derive::{
    caps_view, deps_view, invalid_view, DepsView, DerivedConfig, ForwardingDeps, InvalidPod,
    InvalidPodView, ListenProtocol, ListenerCap, ListenerCapView,
};
use crate::model::CanvasTopology;
use crate::seqs::{first_where, last_where, lemma_first_where, lemma_last_where};
use crate::sorting::{sort_distinct, sorted_distinct, strictly_sorted};
use crate::text::{str_lt, string_eq, string_lt};
use crate::topology::strs;
use crate::worker_config::{
    Config, ConfigError, ConfigErrorView, ConfigView, Forwarding, ForwardingView, LogConfig,
    Transport,
};
use vstd::prelude::*;

verus! {

/// One stored config of a server: its revision, its TOML text, when it was made
/// (milliseconds since the Unix epoch) and what each of its forwardings serves and
/// dials.
#[derive(Debug)]
pub struct ConfigSnapshot {
    pub revision: i64,
    pub toml: String,
    pub created_at: i64,
    pub forwardings: Vec<ForwardingDeps>,
}

pub struct SnapshotView {
    pub revision: i64,
    pub toml: Seq<char>,
    pub created_at: i64,
    pub forwardings: Seq<DepsView>,
}

impl View for ConfigSnapshot {
    type V = SnapshotView;

    open spec fn view(&self) -> SnapshotView {
        SnapshotView {
            revision: self.revision,
            toml: self.toml@,
            created_at: self.created_at,
            forwardings: deps_view(self.forwardings@),
        }
    }
}

pub open spec fn snap_view(s: Option<ConfigSnapshot>) -> Option<SnapshotView> {
    match s {
        Some(x) => Some(x@),
        None => None,
    }
}

/// The snapshots of one server: the config it should run, the one it was offered
/// and the one it reported running.
#[derive(Debug)]
pub struct ServerConfigViewEntity {
    pub server: String,
    pub desired: Option<ConfigSnapshot>,
    pub in_flight: Option<ConfigSnapshot>,
    pub applied: Option<ConfigSnapshot>,
}

pub struct ServerStateView {
    pub server: Seq<char>,
    pub desired: Option<SnapshotView>,
    pub in_flight: Option<SnapshotView>,
    pub applied: Option<SnapshotView>,
}

impl View for ServerConfigViewEntity {
    type V = ServerStateView;

    open spec fn view(&self) -> ServerStateView {
        ServerStateView {
            server: self.server@,
            desired: snap_view(self.desired),
            in_flight: snap_view(self.in_flight),
            applied: snap_view(self.applied),
        }
    }
}

pub open spec fn states_view(v: Seq<ServerConfigViewEntity>) -> Seq<ServerStateView> {
    v.map_values(|s: ServerConfigViewEntity| s@)
}

/// The configs of a server's own snapshots, as read from their TOML text.
pub struct StoredConfigs {
    pub applied: Option<Result<Config, ConfigError>>,
    pub in_flight: Option<Result<Config, ConfigError>>,
    pub desired: Option<Result<Config, ConfigError>>,
}

pub open spec fn read_view(r: Option<Result<Config, ConfigError>>) -> Option<Result<ConfigView, ConfigErrorView>> {
    match r {
        Some(Ok(c)) => Some(Ok(c@)),
        Some(Err(e)) => Some(Err(e@)),
        None => None,
    }
}

pub struct StoredView {
    pub applied: Option<Result<ConfigView, ConfigErrorView>>,
    pub in_flight: Option<Result<ConfigView, ConfigErrorView>>,
    pub desired: Option<Result<ConfigView, ConfigErrorView>>,
}

impl View for StoredConfigs {
    type V = StoredView;

    open spec fn view(&self) -> StoredView {
        StoredView {
            applied: read_view(self.applied),
            in_flight: read_view(self.in_flight),
            desired: read_view(self.desired),
        }
    }
}

/// One server's config as it may be rolled out right now.
#[derive(Debug)]
pub struct Converged {
    pub config: Config,
    /// Index-aligned with `config.forwardings`.
    pub forwardings: Vec<ForwardingDeps>,
    /// Servers this one waits on before it can adopt its ideal config.
    pub waiting_for: Vec<String>,
    pub invalid: Vec<InvalidPod>,
}

pub struct ConvergedView {
    pub config: ConfigView,
    pub forwardings: Seq<DepsView>,
    pub waiting_for: Seq<Seq<char>>,
    pub invalid: Seq<InvalidPodView>,
}

impl View for Converged {
    type V = ConvergedView;

    open spec fn view(&self) -> ConvergedView {
        ConvergedView {
            config: self.config@,
            forwardings: deps_view(self.forwardings@),
            waiting_for: strs(self.waiting_for),
            invalid: invalid_view(self.invalid@),
        }
    }
}

#[derive(Debug)]
pub enum ConvergeError {
    /// Two listeners on one socket with different protocols would have to coexist.
    ListenerConflict { ip: String, port: i64, old: ListenProtocol, new: ListenProtocol },
    /// A stored snapshot that is needed does not read as a config.
    Snapshot(ConfigError),
}

pub enum ConvergeErrorView {
    ListenerConflict { ip: Seq<char>, port: i64, old: ListenProtocol, new: ListenProtocol },
    Snapshot(ConfigErrorView),
}

impl View for ConvergeError {
    type V = ConvergeErrorView;

    open spec fn view(&self) -> ConvergeErrorView {
        match self {
            ConvergeError::ListenerConflict { ip, port, old, new } => ConvergeErrorView::ListenerConflict {
                ip: ip@,
                port: *port,
                old: *old,
                new: *new,
            },
            ConvergeError::Snapshot(e) => ConvergeErrorView::Snapshot(e@),
        }
    }
}

// ---------------------------------------------------------------------------
// What the fabric serves and points at.
// ---------------------------------------------------------------------------

pub open spec fn snap_serves(s: Option<SnapshotView>, cap: ListenerCapView) -> bool {
    s matches Some(x) && exists|i: int| 0 <= i < x.forwardings.len() && (#[trigger] x.forwardings[i]).serves == cap
}

pub open spec fn snap_points(s: Option<SnapshotView>, cap: ListenerCapView) -> bool {
    s matches Some(x) && exists|i: int, j: int|
        0 <= i < x.forwardings.len() && 0 <= j < x.forwardings[i].points_at.len()
            && (#[trigger] x.forwardings[i].points_at[j]) == cap
}

/// Some server reports running a forwarding that serves `cap`.
pub open spec fn served_now(views: Seq<ServerStateView>, cap: ListenerCapView) -> bool {
    exists|v: int| 0 <= v < views.len() && snap_serves((#[trigger] views[v]).applied, cap)
}

/// Some snapshot still points at `cap`: anyone's offered or running config, or the
/// config another server should run. (A server's own desired config does not pin
/// its own listeners, or a self-reference would never drain.)
pub open spec fn referenced(views: Seq<ServerStateView>, own: Seq<char>, cap: ListenerCapView) -> bool {
    exists|v: int|
        0 <= v < views.len() && {
            let s = #[trigger] views[v];
            ||| snap_points(s.in_flight, cap)
            ||| snap_points(s.applied, cap)
            ||| (s.server != own && snap_points(s.desired, cap))
        }
}

/// The server an ip text belongs to.
pub open spec fn server_of(pairs: Seq<(Seq<char>, Seq<char>)>, ip: Seq<char>) -> Option<Seq<char>> {
    match last_where(pairs, |p: (Seq<char>, Seq<char>)| p.0 == ip) {
        Some(i) => Some(pairs[i].1),
        None => None,
    }
}

pub open spec fn pairs_view(v: Seq<(String, String)>) -> Seq<(Seq<char>, Seq<char>)> {
    v.map_values(|p: (String, String)| (p.0@, p.1@))
}

// ---------------------------------------------------------------------------
// Previous shapes of a listener.
// ---------------------------------------------------------------------------

/// The forwarding of snapshot `s` (read as `c`) that serves `cap`, if any.
pub open spec fn forwarding_in(
    s: Option<SnapshotView>,
    c: Option<Result<ConfigView, ConfigErrorView>>,
    cap: ListenerCapView,
) -> Result<Option<(ForwardingView, DepsView)>, ConfigErrorView> {
    match s {
        None => Ok(None),
        Some(x) => match first_where(x.forwardings, |d: DepsView| d.serves == cap) {
            None => Ok(None),
            Some(i) => match c {
                Some(Err(e)) => Err(e),
                Some(Ok(cfg)) => if i < cfg.forwardings.len() {
                    Ok(Some((cfg.forwardings[i], x.forwardings[i])))
                } else {
                    Ok(None)
                },
                None => Ok(None),
            },
        },
    }
}

/// This server's newest stored shape of listener `cap`, preferring what it runs over
/// what it was offered over what it should run.
pub open spec fn old_forwarding(own: ServerStateView, c: StoredView, cap: ListenerCapView) -> Result<
    Option<(ForwardingView, DepsView)>,
    ConfigErrorView,
> {
    match forwarding_in(own.applied, c.applied, cap) {
        Err(e) => Err(e),
        Ok(Some(p)) => Ok(Some(p)),
        Ok(None) => match forwarding_in(own.in_flight, c.in_flight, cap) {
            Err(e) => Err(e),
            Ok(Some(p)) => Ok(Some(p)),
            Ok(None) => forwarding_in(own.desired, c.desired, cap),
        },
    }
}

// ---------------------------------------------------------------------------
// The merge.
// ---------------------------------------------------------------------------

/// `w` with the server of each cap's ip added in turn, each server once.
pub open spec fn add_targets(
    w: Seq<Seq<char>>,
    caps: Seq<ListenerCapView>,
    pairs: Seq<(Seq<char>, Seq<char>)>,
) -> Seq<Seq<char>>
    decreases caps.len(),
{
    if caps.len() == 0 {
        w
    } else {
        let w1 = add_targets(w, caps.drop_last(), pairs);
        match server_of(pairs, caps.last().ip) {
            Some(s) => if w1.contains(s) {
                w1
            } else {
                w1.push(s)
            },
            None => w1,
        }
    }
}

pub open spec fn unready(views: Seq<ServerStateView>, d: DepsView) -> Seq<ListenerCapView> {
    d.points_at.filter(|x: ListenerCapView| !served_now(views, x))
}

pub type Merge = Result<(Seq<(ForwardingView, DepsView)>, Seq<Seq<char>>), ConfigErrorView>;

/// The first `k` ideal forwardings, merged: one whose targets are all served goes in
/// as derived; otherwise its previous shape (if any) goes in and the servers of the
/// unserved targets are waited for.
pub open spec fn merge_ideal(
    fs: Seq<ForwardingView>,
    ds: Seq<DepsView>,
    k: int,
    views: Seq<ServerStateView>,
    own: ServerStateView,
    c: StoredView,
    pairs: Seq<(Seq<char>, Seq<char>)>,
) -> Merge
    decreases k,
{
    if k <= 0 {
        Ok((Seq::empty(), Seq::empty()))
    } else {
        match merge_ideal(fs, ds, k - 1, views, own, c, pairs) {
            Err(e) => Err(e),
            Ok((m, w)) => {
                let d = ds[k - 1];
                let un = unready(views, d);
                if un.len() == 0 {
                    Ok((m.push((fs[k - 1], d)), w))
                } else {
                    let w2 = add_targets(w, un, pairs);
                    match old_forwarding(own, c, d.serves) {
                        Err(e) => Err(e),
                        Ok(Some(p)) => Ok((m.push(p), w2)),
                        Ok(None) => Ok((m, w2)),
                    }
                }
            },
        }
    }
}

pub open spec fn proto_rank(p: ListenProtocol) -> int {
    match p {
        ListenProtocol::Raw => 0,
        ListenProtocol::RelayTcp => 1,
        ListenProtocol::RelayTls => 2,
        ListenProtocol::RelayQuic => 3,
    }
}

/// Listeners in order of ip text, then port, then protocol.
pub open spec fn cap_lt(a: ListenerCapView, b: ListenerCapView) -> bool {
    ||| str_lt(a.ip, b.ip)
    ||| (a.ip == b.ip && a.port < b.port)
    ||| (a.ip == b.ip && a.port == b.port && proto_rank(a.protocol) < proto_rank(b.protocol))
}

pub open spec fn caps_sorted(s: Seq<ListenerCapView>) -> bool {
    forall|i: int, j: int| 0 <= i < j < s.len() ==> cap_lt(#[trigger] s[i], #[trigger] s[j])
}

/// A listener of this server that something still points at and that the merge does
/// not serve.
pub open spec fn is_stale(
    views: Seq<ServerStateView>,
    own: Seq<char>,
    pairs: Seq<(Seq<char>, Seq<char>)>,
    m: Seq<(ForwardingView, DepsView)>,
    cap: ListenerCapView,
) -> bool {
    &&& referenced(views, own, cap)
    &&& server_of(pairs, cap.ip) == Some(own)
    &&& !(exists|i: int| 0 <= i < m.len() && (#[trigger] m[i]).1.serves == cap)
}

/// The stale listeners, in order.
pub open spec fn stale_caps(
    views: Seq<ServerStateView>,
    own: Seq<char>,
    pairs: Seq<(Seq<char>, Seq<char>)>,
    m: Seq<(ForwardingView, DepsView)>,
) -> Seq<ListenerCapView> {
    choose|s: Seq<ListenerCapView>|
        caps_sorted(s) && forall|x: ListenerCapView| s.contains(x) <==> is_stale(views, own, pairs, m, x)
}

/// `m` with the previous shape of each of the first `k` stale listeners added.
pub open spec fn add_stale(
    m: Seq<(ForwardingView, DepsView)>,
    st: Seq<ListenerCapView>,
    k: int,
    own: ServerStateView,
    c: StoredView,
) -> Result<Seq<(ForwardingView, DepsView)>, ConfigErrorView>
    decreases k,
{
    if k <= 0 {
        Ok(m)
    } else {
        match add_stale(m, st, k - 1, own, c) {
            Err(e) => Err(e),
            Ok(m1) => match old_forwarding(own, c, st[k - 1]) {
                Err(e) => Err(e),
                Ok(Some(p)) => Ok(m1.push(p)),
                Ok(None) => Ok(m1),
            },
        }
    }
}

pub open spec fn is_quic(f: ForwardingView) -> bool {
    f.transport() == Transport::Quic
}

/// The order of forwardings: by listen socket, a QUIC listener after a TCP one on
/// the same socket.
pub open spec fn entry_le(a: (ForwardingView, DepsView), b: (ForwardingView, DepsView)) -> bool {
    if a.0.listen != b.0.listen {
        a.0.listen.le(b.0.listen)
    } else {
        !is_quic(a.0) || is_quic(b.0)
    }
}

pub open spec fn insert_entry(s: Seq<(ForwardingView, DepsView)>, x: (ForwardingView, DepsView)) -> Seq<
    (ForwardingView, DepsView),
>
    decreases s.len(),
{
    if s.len() == 0 {
        seq![x]
    } else if entry_le(s.last(), x) {
        s.push(x)
    } else {
        insert_entry(s.drop_last(), x).push(s.last())
    }
}

/// The first `j` entries sorted by `entry_le`; equal ones keep their order.
pub open spec fn sort_entries(s: Seq<(ForwardingView, DepsView)>, j: int) -> Seq<(ForwardingView, DepsView)>
    decreases j,
{
    if j <= 0 {
        Seq::empty()
    } else {
        insert_entry(sort_entries(s, j - 1), s[j - 1])
    }
}

/// The first place, from `i` on, where two neighbours claim one listener.
pub open spec fn first_conflict(s: Seq<(ForwardingView, DepsView)>, i: int) -> Option<int>
    decreases s.len() - i,
{
    if i < 0 || i + 1 >= s.len() {
        None
    } else if s[i].0.listen_key() == s[i + 1].0.listen_key() {
        Some(i)
    } else {
        first_conflict(s, i + 1)
    }
}

/// What converging `ideal` for server `own` gives, the fabric being in `views`.
pub open spec fn convergence(
    ideal: crate::derive::DerivedView,
    own: ServerStateView,
    views: Seq<ServerStateView>,
    pairs: Seq<(Seq<char>, Seq<char>)>,
    c: StoredView,
) -> Result<ConvergedView, ConvergeErrorView> {
    let fs = ideal.config.forwardings;
    let ds = ideal.forwardings;
    let n = if fs.len() < ds.len() {
        fs.len() as int
    } else {
        ds.len() as int
    };
    match merge_ideal(fs, ds, n, views, own, c, pairs) {
        Err(e) => Err(ConvergeErrorView::Snapshot(e)),
        Ok((m, w)) => {
            let st = stale_caps(views, own.server, pairs, m);
            match add_stale(m, st, st.len() as int, own, c) {
                Err(e) => Err(ConvergeErrorView::Snapshot(e)),
                Ok(m2) => {
                    let sorted = sort_entries(m2, m2.len() as int);
                    match first_conflict(sorted, 0) {
                        Some(i) => Err(
                            ConvergeErrorView::ListenerConflict {
                                ip: sorted[i].1.serves.ip,
                                port: sorted[i].1.serves.port,
                                old: sorted[i].1.serves.protocol,
                                new: sorted[i + 1].1.serves.protocol,
                            },
                        ),
                        None => Ok(
                            ConvergedView {
                                config: ConfigView {
                                    ipv6_resolve: ideal.config.ipv6_resolve,
                                    log_level: ideal.config.log_level,
                                    forwardings: sorted.map_values(|e: (ForwardingView, DepsView)| e.0),
                                },
                                forwardings: sorted.map_values(|e: (ForwardingView, DepsView)| e.1),
                                waiting_for: sorted_distinct(w),
                                invalid: ideal.invalid,
                            },
                        ),
                    }
                },
            }
        },
    }
}

// ---------------------------------------------------------------------------
// Gathering listeners.
// ---------------------------------------------------------------------------

proof fn lemma_contains_push<A>(s: Seq<A>, y: A)
    ensures
        forall|x: A| #[trigger] s.push(y).contains(x) <==> (s.contains(x) || x == y),
{
    assert forall|x: A| #[trigger] s.push(y).contains(x) <==> (s.contains(x) || x == y) by {
        if s.push(y).contains(x) {
            let k = choose|k: int| 0 <= k < s.push(y).len() && s.push(y)[k] == x;
            if k < s.len() {
                assert(s[k] == x);
            }
        }
        if s.contains(x) {
            let k = choose|k: int| 0 <= k < s.len() && s[k] == x;
            assert(s.push(y)[k] == x);
        }
        if x == y {
            assert(s.push(y)[s.len() as int] == x);
        }
    }
}

fn push_cap(out: &mut Vec<ListenerCap>, c: &ListenerCap)
    ensures
        caps_view(final(out)@) == caps_view(old(out)@).push(c@),
        forall|x: ListenerCapView| #[trigger] caps_view(final(out)@).contains(x) <==> (caps_view(old(out)@).contains(x)
            || x == c@),
{
    let ghost before = caps_view(out@);
    out.push(c.duplicate());
    assert(caps_view(out@) =~= before.push(c@));
    proof {
        lemma_contains_push(before, c@);
    }
}

/// Adds what the forwardings of `s` serve.
fn push_serves(out: &mut Vec<ListenerCap>, s: &ConfigSnapshot)
    ensures
        forall|x: ListenerCapView| #[trigger] caps_view(final(out)@).contains(x) <==> (caps_view(old(out)@).contains(x)
            || snap_serves(Some(s@), x)),
{
    let ghost sv = s@;
    let mut i: usize = 0;
    while i < s.forwardings.len()
        invariant
            i <= s.forwardings.len(),
            sv == s@,
            sv.forwardings.len() == s.forwardings.len(),
            forall|x: ListenerCapView| #[trigger] caps_view(out@).contains(x) <==> (caps_view(old(out)@).contains(x)
                || exists|k: int| 0 <= k < i && (#[trigger] sv.forwardings[k]).serves == x),
        decreases s.forwardings.len() - i,
    {
        assert(sv.forwardings[i as int] == s.forwardings@[i as int]@);
        push_cap(out, &s.forwardings[i].serves);
        assert forall|x: ListenerCapView| #[trigger] caps_view(out@).contains(x) <==> (caps_view(old(out)@).contains(x)
            || exists|k: int| 0 <= k < i + 1 && (#[trigger] sv.forwardings[k]).serves == x) by {
            if x == sv.forwardings[i as int].serves {
            }
        }
        i = i + 1;
    }
}

/// Adds what the forwardings of `s` point at.
fn push_points(out: &mut Vec<ListenerCap>, s: &ConfigSnapshot)
    ensures
        forall|x: ListenerCapView| #[trigger] caps_view(final(out)@).contains(x) <==> (caps_view(old(out)@).contains(x)
            || snap_points(Some(s@), x)),
{
    let ghost sv = s@;
    let mut i: usize = 0;
    while i < s.forwardings.len()
        invariant
            i <= s.forwardings.len(),
            sv == s@,
            sv.forwardings.len() == s.forwardings.len(),
            forall|x: ListenerCapView| #[trigger] caps_view(out@).contains(x) <==> (caps_view(old(out)@).contains(x)
                || exists|k: int, j: int|
                0 <= k < i && 0 <= j < sv.forwardings[k].points_at.len() && (#[trigger] sv.forwardings[k].points_at[j])
                    == x),
        decreases s.forwardings.len() - i,
    {
        let d = &s.forwardings[i];
        assert(sv.forwardings[i as int] == d@);
        let ghost mid = caps_view(out@);
        let mut j: usize = 0;
        while j < d.points_at.len()
            invariant
                j <= d.points_at.len(),
                i < s.forwardings.len(),
                sv == s@,
                sv.forwardings[i as int] == d@,
                forall|x: ListenerCapView| #[trigger] caps_view(out@).contains(x) <==> (mid.contains(x) || exists|q: int|
                    0 <= q < j && (#[trigger] sv.forwardings[i as int].points_at[q]) == x),
            decreases d.points_at.len() - j,
        {
            assert(sv.forwardings[i as int].points_at[j as int] == d.points_at@[j as int]@);
            push_cap(out, &d.points_at[j]);
            assert forall|x: ListenerCapView| #[trigger] caps_view(out@).contains(x) <==> (mid.contains(x) || exists|q: int|
                0 <= q < j + 1 && (#[trigger] sv.forwardings[i as int].points_at[q]) == x) by {
                if x == sv.forwardings[i as int].points_at[j as int] {
                }
            }
            j = j + 1;
        }
        assert forall|x: ListenerCapView| #[trigger] caps_view(out@).contains(x) <==> (caps_view(old(out)@).contains(x)
            || exists|k: int, q: int|
            0 <= k < i + 1 && 0 <= q < sv.forwardings[k].points_at.len() && (#[trigger] sv.forwardings[k].points_at[q])
                == x) by {
            if exists|k: int, q: int|
                0 <= k < i + 1 && 0 <= q < sv.forwardings[k].points_at.len() && (#[trigger] sv.forwardings[k].points_at[q])
                    == x {
                let (k, q) = choose|k: int, q: int|
                    0 <= k < i + 1 && 0 <= q < sv.forwardings[k].points_at.len() && (#[trigger] sv.forwardings[k].points_at[q])
                        == x;
                if k == i {
                    assert(sv.forwardings[i as int].points_at[q] == x);
                }
            }
        }
        i = i + 1;
    }
}

/// Every listener some server reports serving.
fn served_caps(views: &Vec<ServerConfigViewEntity>) -> (r: Vec<ListenerCap>)
    ensures
        forall|x: ListenerCapView| #[trigger] caps_view(r@).contains(x) <==> served_now(states_view(views@), x),
{
    let ghost vs = states_view(views@);
    let mut out: Vec<ListenerCap> = Vec::new();
    let mut v: usize = 0;
    while v < views.len()
        invariant
            v <= views.len(),
            vs == states_view(views@),
            forall|x: ListenerCapView| #[trigger] caps_view(out@).contains(x) <==> exists|w: int|
                0 <= w < v && snap_serves((#[trigger] vs[w]).applied, x),
        decreases views.len() - v,
    {
        assert(vs[v as int] == views@[v as int]@);
        let ghost before = caps_view(out@);
        if let Some(a) = &views[v].applied {
            push_serves(&mut out, a);
        }
        assert forall|x: ListenerCapView| #[trigger] caps_view(out@).contains(x) <==> exists|w: int|
            0 <= w < v + 1 && snap_serves((#[trigger] vs[w]).applied, x) by {
            if exists|w: int| 0 <= w < v + 1 && snap_serves((#[trigger] vs[w]).applied, x) {
                let w = choose|w: int| 0 <= w < v + 1 && snap_serves((#[trigger] vs[w]).applied, x);
                if w < v {
                    assert(before.contains(x));
                }
            }
        }
        v = v + 1;
    }
    out
}

/// Every listener some snapshot still points at.
fn referenced_caps(views: &Vec<ServerConfigViewEntity>, own: &String) -> (r: Vec<ListenerCap>)
    ensures
        forall|x: ListenerCapView| #[trigger] caps_view(r@).contains(x) <==> referenced(states_view(views@), own@, x),
{
    let ghost vs = states_view(views@);
    let mut out: Vec<ListenerCap> = Vec::new();
    let mut v: usize = 0;
    while v < views.len()
        invariant
            v <= views.len(),
            vs == states_view(views@),
            forall|x: ListenerCapView| #[trigger] caps_view(out@).contains(x) <==> exists|w: int|
                0 <= w < v && {
                    let s = #[trigger] vs[w];
                    ||| snap_points(s.in_flight, x)
                    ||| snap_points(s.applied, x)
                    ||| (s.server != own@ && snap_points(s.desired, x))
                },
        decreases views.len() - v,
    {
        let sv = &views[v];
        assert(vs[v as int] == sv@);
        let ghost before = caps_view(out@);
        if let Some(a) = &sv.in_flight {
            push_points(&mut out, a);
        }
        if let Some(a) = &sv.applied {
            push_points(&mut out, a);
        }
        if !string_eq(&sv.server, own) {
            if let Some(a) = &sv.desired {
                push_points(&mut out, a);
            }
        }
        assert forall|x: ListenerCapView| #[trigger] caps_view(out@).contains(x) <==> exists|w: int|
            0 <= w < v + 1 && {
                let s = #[trigger] vs[w];
                ||| snap_points(s.in_flight, x)
                ||| snap_points(s.applied, x)
                ||| (s.server != own@ && snap_points(s.desired, x))
            } by {
            if exists|w: int|
                0 <= w < v + 1 && {
                    let s = #[trigger] vs[w];
                    ||| snap_points(s.in_flight, x)
                    ||| snap_points(s.applied, x)
                    ||| (s.server != own@ && snap_points(s.desired, x))
                } {
                let w = choose|w: int|
                    0 <= w < v + 1 && {
                        let s = #[trigger] vs[w];
                        ||| snap_points(s.in_flight, x)
                        ||| snap_points(s.applied, x)
                        ||| (s.server != own@ && snap_points(s.desired, x))
                    };
                if w < v {
                    assert(before.contains(x));
                }
            }
        }
        v = v + 1;
    }
    out
}

// ---------------------------------------------------------------------------
// Lookups.
// ---------------------------------------------------------------------------

fn server_of_exec(pairs: &Vec<(String, String)>, ip: &String) -> (r: Option<String>)
    ensures
        match r {
            Some(s) => server_of(pairs_view(pairs@), ip@) == Some(s@),
            None => server_of(pairs_view(pairs@), ip@) is None,
        },
{
    let ghost pv = pairs_view(pairs@);
    let ghost p = |q: (Seq<char>, Seq<char>)| q.0 == ip@;
    let mut i = pairs.len();
    while i > 0
        invariant
            i <= pairs.len(),
            pv == pairs_view(pairs@),
            p == (|q: (Seq<char>, Seq<char>)| q.0 == ip@),
            forall|k: int| i <= k < pv.len() ==> !p(#[trigger] pv[k]),
        decreases i,
    {
        assert(pv[i - 1] == (pairs@[i - 1].0@, pairs@[i - 1].1@));
        if string_eq(&pairs[i - 1].0, ip) {
            proof {
                lemma_last_where(pv, p, i - 1);
            }
            return Some(pairs[i - 1].1.clone());
        }
        i = i - 1;
    }
    proof {
        lemma_last_where(pv, p, -1);
    }
    None
}

fn forwarding_in_exec(s: &Option<ConfigSnapshot>, c: &Option<Result<Config, ConfigError>>, cap: &ListenerCap) -> (r: Result<
    Option<(Forwarding, ForwardingDeps)>,
    ConfigError,
>)
    ensures
        match forwarding_in(snap_view(*s), read_view(*c), cap@) {
            Ok(Some(p)) => r matches Ok(Some(x)) && x.0@ == p.0 && x.1@ == p.1,
            Ok(None) => r matches Ok(None),
            Err(e) => r matches Err(x) && x@ == e,
        },
{
    let snap = match s {
        None => return Ok(None),
        Some(x) => x,
    };
    let ghost fv = snap@.forwardings;
    let ghost pr = |d: DepsView| d.serves == cap@;
    let mut i: usize = 0;
    while i < snap.forwardings.len()
        invariant
            i <= snap.forwardings.len(),
            fv == snap@.forwardings,
            fv.len() == snap.forwardings.len(),
            pr == (|d: DepsView| d.serves == cap@),
            forall|k: int| 0 <= k < i ==> !pr(#[trigger] fv[k]),
        ensures
            i <= snap.forwardings.len(),
            forall|k: int| 0 <= k < i ==> !pr(#[trigger] fv[k]),
            i < snap.forwardings.len() ==> pr(fv[i as int]),
        decreases snap.forwardings.len() - i,
    {
        assert(fv[i as int] == snap.forwardings@[i as int]@);
        if snap.forwardings[i].serves.same(cap) {
            break;
        }
        i = i + 1;
    }
    proof {
        if i < snap.forwardings.len() {
            assert(fv[i as int] == snap.forwardings@[i as int]@);
        }
        lemma_first_where(fv, pr, i as int);
    }
    if i >= snap.forwardings.len() {
        return Ok(None);
    }
    match c {
        Some(Err(e)) => Err(e.duplicate()),
        Some(Ok(cfg)) => {
            if i < cfg.forwardings.len() {
                assert(cfg@.forwardings[i as int] == cfg.forwardings@[i as int]@);
                Ok(Some((cfg.forwardings[i].duplicate(), snap.forwardings[i].duplicate())))
            } else {
                Ok(None)
            }
        },
        None => Ok(None),
    }
}

fn old_forwarding_exec(own: &ServerConfigViewEntity, c: &StoredConfigs, cap: &ListenerCap) -> (r: Result<
    Option<(Forwarding, ForwardingDeps)>,
    ConfigError,
>)
    ensures
        match old_forwarding(own@, c@, cap@) {
            Ok(Some(p)) => r matches Ok(Some(x)) && x.0@ == p.0 && x.1@ == p.1,
            Ok(None) => r matches Ok(None),
            Err(e) => r matches Err(x) && x@ == e,
        },
{
    match forwarding_in_exec(&own.applied, &c.applied, cap) {
        Err(e) => return Err(e),
        Ok(Some(p)) => return Ok(Some(p)),
        Ok(None) => {},
    }
    match forwarding_in_exec(&own.in_flight, &c.in_flight, cap) {
        Err(e) => return Err(e),
        Ok(Some(p)) => return Ok(Some(p)),
        Ok(None) => {},
    }
    forwarding_in_exec(&own.desired, &c.desired, cap)
}

// ---------------------------------------------------------------------------
// Merging the ideal forwardings.
// ---------------------------------------------------------------------------

pub open spec fn entries_view(v: Seq<(Forwarding, ForwardingDeps)>) -> Seq<(ForwardingView, DepsView)> {
    v.map_values(|e: (Forwarding, ForwardingDeps)| (e.0@, e.1@))
}

fn has_cap(v: &Vec<ListenerCap>, c: &ListenerCap) -> (r: bool)
    ensures
        r == caps_view(v@).contains(c@),
{
    let mut i: usize = 0;
    while i < v.len()
        invariant
            i <= v.len(),
            forall|k: int| 0 <= k < i ==> caps_view(v@)[k] != c@,
        decreases v.len() - i,
    {
        if v[i].same(c) {
            assert(caps_view(v@)[i as int] == c@);
            return true;
        }
        i = i + 1;
    }
    false
}

fn has_string(v: &Vec<String>, k: &String) -> (r: bool)
    ensures
        r == strs(*v).contains(k@),
{
    let mut i: usize = 0;
    while i < v.len()
        invariant
            i <= v.len(),
            forall|z: int| 0 <= z < i ==> strs(*v)[z] != k@,
        decreases v.len() - i,
    {
        if string_eq(&v[i], k) {
            assert(strs(*v)[i as int] == k@);
            return true;
        }
        i = i + 1;
    }
    false
}

/// The listeners `d` points at that nobody serves yet.
fn unready_exec(served: &Vec<ListenerCap>, d: &ForwardingDeps, Ghost(vs): Ghost<Seq<ServerStateView>>) -> (r: Vec<ListenerCap>)
    requires
        forall|x: ListenerCapView| #[trigger] caps_view(served@).contains(x) <==> served_now(vs, x),
    ensures
        caps_view(r@) == unready(vs, d@),
{
    let ghost pts = d@.points_at;
    let ghost pr = |x: ListenerCapView| !served_now(vs, x);
    let mut out: Vec<ListenerCap> = Vec::new();
    let mut i: usize = 0;
    while i < d.points_at.len()
        invariant
            i <= d.points_at.len(),
            pts == d@.points_at,
            pts.len() == d.points_at.len(),
            pr == (|x: ListenerCapView| !served_now(vs, x)),
            forall|x: ListenerCapView| #[trigger] caps_view(served@).contains(x) <==> served_now(vs, x),
            caps_view(out@) == pts.subrange(0, i as int).filter(pr),
        decreases d.points_at.len() - i,
    {
        assert(pts[i as int] == d.points_at@[i as int]@);
        proof {
            crate::seqs::lemma_filter_step(pts, pr, i as int);
        }
        if !has_cap(served, &d.points_at[i]) {
            let ghost before = caps_view(out@);
            out.push(d.points_at[i].duplicate());
            assert(caps_view(out@) =~= before.push(pts[i as int]));
        }
        i = i + 1;
    }
    assert(pts.subrange(0, pts.len() as int) =~= pts);
    out
}

/// Adds the servers of the listeners in `caps` to `w`, each once.
fn add_targets_exec(w: &mut Vec<String>, caps: &Vec<ListenerCap>, pairs: &Vec<(String, String)>)
    ensures
        strs(*final(w)) == add_targets(strs(*old(w)), caps_view(caps@), pairs_view(pairs@)),
{
    let ghost w0 = strs(*w);
    let ghost cv = caps_view(caps@);
    let ghost pv = pairs_view(pairs@);
    let mut j: usize = 0;
    assert(cv.subrange(0, 0) =~= Seq::<ListenerCapView>::empty());
    while j < caps.len()
        invariant
            j <= caps.len(),
            cv == caps_view(caps@),
            cv.len() == caps.len(),
            pv == pairs_view(pairs@),
            strs(*w) == add_targets(w0, cv.subrange(0, j as int), pv),
        decreases caps.len() - j,
    {
        let ghost sub = cv.subrange(0, j + 1);
        assert(sub.drop_last() =~= cv.subrange(0, j as int));
        assert(sub.last() == caps@[j as int]@);
        match server_of_exec(pairs, &caps[j].ip) {
            Some(s) => {
                if !has_string(w, &s) {
                    let ghost before = strs(*w);
                    w.push(s);
                    assert(strs(*w) =~= before.push(s@));
                }
            },
            None => {},
        }
        j = j + 1;
    }
    assert(cv.subrange(0, cv.len() as int) =~= cv);
}

proof fn lemma_merge_err_sticks(
    fs: Seq<ForwardingView>,
    ds: Seq<DepsView>,
    j: int,
    n: int,
    views: Seq<ServerStateView>,
    own: ServerStateView,
    c: StoredView,
    pairs: Seq<(Seq<char>, Seq<char>)>,
)
    requires
        0 <= j <= n,
        merge_ideal(fs, ds, j, views, own, c, pairs) is Err,
    ensures
        merge_ideal(fs, ds, n, views, own, c, pairs) == merge_ideal(fs, ds, j, views, own, c, pairs),
    decreases n - j,
{
    if j < n {
        lemma_merge_err_sticks(fs, ds, j, n - 1, views, own, c, pairs);
    }
}

fn merge_ideal_exec(
    ideal: &DerivedConfig,
    own: &ServerConfigViewEntity,
    c: &StoredConfigs,
    served: &Vec<ListenerCap>,
    pairs: &Vec<(String, String)>,
    Ghost(vs): Ghost<Seq<ServerStateView>>,
) -> (r: Result<(Vec<(Forwarding, ForwardingDeps)>, Vec<String>), ConfigError>)
    requires
        forall|x: ListenerCapView| #[trigger] caps_view(served@).contains(x) <==> served_now(vs, x),
    ensures
        ({
            let fs = ideal@.config.forwardings;
            let ds = ideal@.forwardings;
            let n = if fs.len() < ds.len() {
                fs.len() as int
            } else {
                ds.len() as int
            };
            match merge_ideal(fs, ds, n, vs, own@, c@, pairs_view(pairs@)) {
                Ok((m, w)) => r matches Ok(x) && entries_view(x.0@) == m && strs(x.1) == w,
                Err(e) => r matches Err(x) && x@ == e,
            }
        }),
{
    let ghost fs = ideal@.config.forwardings;
    let ghost ds = ideal@.forwardings;
    let n = if ideal.config.forwardings.len() < ideal.forwardings.len() {
        ideal.config.forwardings.len()
    } else {
        ideal.forwardings.len()
    };
    let mut m: Vec<(Forwarding, ForwardingDeps)> = Vec::new();
    let mut w: Vec<String> = Vec::new();
    let mut k: usize = 0;
    assert(entries_view(m@) =~= Seq::<(ForwardingView, DepsView)>::empty());
    assert(strs(w) =~= Seq::<Seq<char>>::empty());
    while k < n
        invariant
            k <= n,
            n <= ideal.config.forwardings.len(),
            n <= ideal.forwardings.len(),
            n as int == (if fs.len() < ds.len() {
                fs.len() as int
            } else {
                ds.len() as int
            }),
            fs == ideal@.config.forwardings,
            ds == ideal@.forwardings,
            fs.len() == ideal.config.forwardings.len(),
            ds.len() == ideal.forwardings.len(),
            forall|x: ListenerCapView| #[trigger] caps_view(served@).contains(x) <==> served_now(vs, x),
            merge_ideal(fs, ds, k as int, vs, own@, c@, pairs_view(pairs@)) == Ok::<
                (Seq<(ForwardingView, DepsView)>, Seq<Seq<char>>),
                ConfigErrorView,
            >((entries_view(m@), strs(w))),
        decreases n - k,
    {
        let d = &ideal.forwardings[k];
        let f = &ideal.config.forwardings[k];
        assert(ds[k as int] == d@);
        assert(fs[k as int] == f@);
        let un = unready_exec(served, d, Ghost(vs));
        let ghost mv = entries_view(m@);
        if un.len() == 0 {
            m.push((f.duplicate(), d.duplicate()));
            assert(entries_view(m@) =~= mv.push((f@, d@)));
        } else {
            add_targets_exec(&mut w, &un, pairs);
            match old_forwarding_exec(own, c, &d.serves) {
                Err(e) => {
                    proof {
                        assert(merge_ideal(fs, ds, k + 1, vs, own@, c@, pairs_view(pairs@)) == Err::<
                            (Seq<(ForwardingView, DepsView)>, Seq<Seq<char>>),
                            ConfigErrorView,
                        >(e@));
                        lemma_merge_err_sticks(fs, ds, k + 1, n as int, vs, own@, c@, pairs_view(pairs@));
                        assert(n as int == (if fs.len() < ds.len() {
                            fs.len() as int
                        } else {
                            ds.len() as int
                        }));
                        assert(merge_ideal(fs, ds, n as int, vs, own@, c@, pairs_view(pairs@)) == Err::<
                            (Seq<(ForwardingView, DepsView)>, Seq<Seq<char>>),
                            ConfigErrorView,
                        >(e@));
                    }
                    return Err(e);
                },
                Ok(Some(p)) => {
                    let ghost pv = (p.0@, p.1@);
                    m.push(p);
                    assert(entries_view(m@) =~= mv.push(pv));
                },
                Ok(None) => {},
            }
        }
        k = k + 1;
    }
    Ok((m, w))
}

// ---------------------------------------------------------------------------
// Stale listeners.
// ---------------------------------------------------------------------------

proof fn lemma_cap_lt_irreflexive(a: ListenerCapView)
    ensures
        !cap_lt(a, a),
{
    crate::text::lemma_str_lt_irreflexive(a.ip);
}

proof fn lemma_cap_lt_transitive(a: ListenerCapView, b: ListenerCapView, c: ListenerCapView)
    requires
        cap_lt(a, b),
        cap_lt(b, c),
    ensures
        cap_lt(a, c),
{
    if str_lt(a.ip, b.ip) && str_lt(b.ip, c.ip) {
        crate::text::lemma_str_lt_transitive(a.ip, b.ip, c.ip);
    }
}

proof fn lemma_cap_lt_total(a: ListenerCapView, b: ListenerCapView)
    ensures
        a == b || cap_lt(a, b) || cap_lt(b, a),
{
    crate::text::lemma_str_lt_total(a.ip, b.ip);
    if a.ip =~= b.ip && a.port == b.port && proto_rank(a.protocol) == proto_rank(b.protocol) {
        assert(a.protocol == b.protocol);
    }
}

proof fn lemma_cap_lt_asymmetric(a: ListenerCapView, b: ListenerCapView)
    requires
        cap_lt(a, b),
    ensures
        !cap_lt(b, a),
{
    if cap_lt(b, a) {
        lemma_cap_lt_transitive(a, b, a);
        lemma_cap_lt_irreflexive(a);
    }
}

/// Two sorted lists of listeners with the same members are equal.
proof fn lemma_caps_sorted_unique(a: Seq<ListenerCapView>, b: Seq<ListenerCapView>)
    requires
        caps_sorted(a),
        caps_sorted(b),
        forall|x: ListenerCapView| a.contains(x) <==> b.contains(x),
    ensures
        a == b,
    decreases a.len(),
{
    if a.len() == 0 {
        if b.len() > 0 {
            assert(b.contains(b[0]));
        }
        assert(a =~= b);
    } else {
        assert(a.contains(a[0]));
        assert(b.contains(a[0]));
        assert(b.len() > 0);
        assert(b.contains(b[0]));
        assert(a.contains(b[0]));
        let i = choose|i: int| 0 <= i < a.len() && a[i] == b[0];
        let j = choose|j: int| 0 <= j < b.len() && b[j] == a[0];
        if a[0] != b[0] {
            assert(i != 0 && j != 0);
            assert(cap_lt(a[0], a[i]));
            assert(cap_lt(b[0], b[j]));
            lemma_cap_lt_asymmetric(a[0], b[0]);
        }
        let a1 = a.drop_first();
        let b1 = b.drop_first();
        assert forall|x: ListenerCapView| a1.contains(x) implies b1.contains(x) by {
            let k = choose|k: int| 0 <= k < a1.len() && a1[k] == x;
            assert(a[k + 1] == x);
            assert(cap_lt(a[0], x));
            lemma_cap_lt_irreflexive(x);
            assert(a.contains(x));
            let m = choose|m: int| 0 <= m < b.len() && b[m] == x;
            assert(m != 0);
            assert(b1[m - 1] == x);
        }
        assert forall|x: ListenerCapView| b1.contains(x) implies a1.contains(x) by {
            let k = choose|k: int| 0 <= k < b1.len() && b1[k] == x;
            assert(b[k + 1] == x);
            assert(cap_lt(b[0], x));
            lemma_cap_lt_irreflexive(x);
            assert(b.contains(x));
            let m = choose|m: int| 0 <= m < a.len() && a[m] == x;
            assert(m != 0);
            assert(a1[m - 1] == x);
        }
        lemma_caps_sorted_unique(a1, b1);
        assert(a =~= seq![a[0]] + a1);
        assert(b =~= seq![b[0]] + b1);
    }
}

fn cap_lt_exec(a: &ListenerCap, b: &ListenerCap) -> (r: bool)
    ensures
        r == cap_lt(a@, b@),
{
    let ra: u8 = match a.protocol {
        ListenProtocol::Raw => 0,
        ListenProtocol::RelayTcp => 1,
        ListenProtocol::RelayTls => 2,
        ListenProtocol::RelayQuic => 3,
    };
    let rb: u8 = match b.protocol {
        ListenProtocol::Raw => 0,
        ListenProtocol::RelayTcp => 1,
        ListenProtocol::RelayTls => 2,
        ListenProtocol::RelayQuic => 3,
    };
    if string_lt(&a.ip, &b.ip) {
        true
    } else if string_eq(&a.ip, &b.ip) {
        a.port < b.port || (a.port == b.port && ra < rb)
    } else {
        false
    }
}

/// Whether some entry of `m` serves `c`.
fn serves_any(m: &Vec<(Forwarding, ForwardingDeps)>, c: &ListenerCap) -> (r: bool)
    ensures
        r == exists|i: int| 0 <= i < m.len() && (#[trigger] entries_view(m@)[i]).1.serves == c@,
{
    let mut i: usize = 0;
    while i < m.len()
        invariant
            i <= m.len(),
            forall|k: int| 0 <= k < i ==> (#[trigger] entries_view(m@)[k]).1.serves != c@,
        decreases m.len() - i,
    {
        if m[i].1.serves.same(c) {
            assert(entries_view(m@)[i as int].1.serves == c@);
            return true;
        }
        i = i + 1;
    }
    false
}

/// The stale listeners of this server, in order.
fn stale_exec(
    refs: &Vec<ListenerCap>,
    own: &String,
    pairs: &Vec<(String, String)>,
    m: &Vec<(Forwarding, ForwardingDeps)>,
    Ghost(vs): Ghost<Seq<ServerStateView>>,
) -> (r: Vec<ListenerCap>)
    requires
        forall|x: ListenerCapView| #[trigger] caps_view(refs@).contains(x) <==> referenced(vs, own@, x),
    ensures
        caps_view(r@) == stale_caps(vs, own@, pairs_view(pairs@), entries_view(m@)),
{
    let ghost mv = entries_view(m@);
    let ghost pv = pairs_view(pairs@);
    let ghost rv = caps_view(refs@);
    let mut out: Vec<ListenerCap> = Vec::new();
    let mut i: usize = 0;
    while i < refs.len()
        invariant
            i <= refs.len(),
            mv == entries_view(m@),
            pv == pairs_view(pairs@),
            rv == caps_view(refs@),
            rv.len() == refs.len(),
            forall|x: ListenerCapView| #[trigger] caps_view(refs@).contains(x) <==> referenced(vs, own@, x),
            caps_sorted(caps_view(out@)),
            forall|x: ListenerCapView| #[trigger] caps_view(out@).contains(x) <==> (exists|k: int|
                0 <= k < i && rv[k] == x) && server_of(pv, x.ip) == Some(own@) && !(exists|q: int|
                0 <= q < mv.len() && (#[trigger] mv[q]).1.serves == x),
        decreases refs.len() - i,
    {
        let c = &refs[i];
        assert(rv[i as int] == c@);
        let ghost ov = caps_view(out@);
        let mine = match server_of_exec(pairs, &c.ip) {
            Some(s) => string_eq(&s, own),
            None => false,
        };
        if mine && !serves_any(m, c) {
            let mut j: usize = 0;
            while j < out.len() && cap_lt_exec(&out[j], c)
                invariant
                    j <= out.len(),
                    ov == caps_view(out@),
                    forall|z: int| 0 <= z < j ==> cap_lt(#[trigger] ov[z], c@),
                decreases out.len() - j,
            {
                j = j + 1;
            }
            if j < out.len() && out[j].same(c) {
                assert(ov[j as int] == c@);
            } else {
                proof {
                    if j < out.len() {
                        lemma_cap_lt_total(ov[j as int], c@);
                    }
                }
                out.insert(j, c.duplicate());
                let ghost nv = caps_view(out@);
                assert(nv =~= ov.insert(j as int, c@));
                assert forall|a: int, b: int| 0 <= a < b < nv.len() implies cap_lt(#[trigger] nv[a], #[trigger] nv[b]) by {
                    if b < j {
                        assert(nv[a] == ov[a] && nv[b] == ov[b]);
                    } else if a < j && b == j {
                        assert(nv[a] == ov[a]);
                    } else if a < j && b > j {
                        assert(nv[a] == ov[a] && nv[b] == ov[b - 1]);
                        lemma_cap_lt_transitive(ov[a], c@, ov[j as int]);
                        if b - 1 > j {
                            lemma_cap_lt_transitive(ov[a], ov[j as int], ov[b - 1]);
                        }
                    } else if a == j {
                        assert(nv[b] == ov[b - 1]);
                        if b - 1 > j {
                            lemma_cap_lt_transitive(c@, ov[j as int], ov[b - 1]);
                        }
                    } else {
                        assert(nv[a] == ov[a - 1] && nv[b] == ov[b - 1]);
                    }
                }
                assert forall|x: ListenerCapView| #[trigger] nv.contains(x) <==> (ov.contains(x) || x == c@) by {
                    if nv.contains(x) {
                        let q = choose|q: int| 0 <= q < nv.len() && nv[q] == x;
                        if q < j {
                            assert(ov[q] == x);
                        } else if q > j {
                            assert(ov[q - 1] == x);
                        }
                    }
                    if ov.contains(x) {
                        let q = choose|q: int| 0 <= q < ov.len() && ov[q] == x;
                        if q < j {
                            assert(nv[q] == x);
                        } else {
                            assert(nv[q + 1] == x);
                        }
                    }
                    if x == c@ {
                        assert(nv[j as int] == x);
                    }
                }
            }
        }
        i = i + 1;
    }
    proof {
        let target = |x: ListenerCapView| is_stale(vs, own@, pv, mv, x);
        assert forall|x: ListenerCapView| caps_view(out@).contains(x) <==> is_stale(vs, own@, pv, mv, x) by {
            if caps_view(out@).contains(x) {
                let k = choose|k: int| 0 <= k < refs.len() && rv[k] == x;
                assert(rv.contains(x));
            }
            if is_stale(vs, own@, pv, mv, x) {
                assert(rv.contains(x));
                let k = choose|k: int| 0 <= k < rv.len() && rv[k] == x;
            }
        }
        let s = stale_caps(vs, own@, pv, mv);
        assert(caps_sorted(s) && forall|x: ListenerCapView| s.contains(x) <==> is_stale(vs, own@, pv, mv, x));
        lemma_caps_sorted_unique(caps_view(out@), s);
    }
    out
}

// ---------------------------------------------------------------------------
// Ordering and the result.
// ---------------------------------------------------------------------------

proof fn lemma_add_stale_err_sticks(
    m: Seq<(ForwardingView, DepsView)>,
    st: Seq<ListenerCapView>,
    j: int,
    n: int,
    own: ServerStateView,
    c: StoredView,
)
    requires
        0 <= j <= n,
        add_stale(m, st, j, own, c) is Err,
    ensures
        add_stale(m, st, n, own, c) == add_stale(m, st, j, own, c),
    decreases n - j,
{
    if j < n {
        lemma_add_stale_err_sticks(m, st, j, n - 1, own, c);
    }
}

fn add_stale_exec(
    m: &mut Vec<(Forwarding, ForwardingDeps)>,
    st: &Vec<ListenerCap>,
    own: &ServerConfigViewEntity,
    c: &StoredConfigs,
) -> (r: Result<(), ConfigError>)
    ensures
        match add_stale(entries_view(old(m)@), caps_view(st@), st.len() as int, own@, c@) {
            Ok(m2) => r is Ok && entries_view(final(m)@) == m2,
            Err(e) => r matches Err(x) && x@ == e,
        },
{
    let ghost m0 = entries_view(m@);
    let ghost sv = caps_view(st@);
    let mut k: usize = 0;
    while k < st.len()
        invariant
            k <= st.len(),
            sv == caps_view(st@),
            sv.len() == st.len(),
            m0 == entries_view(old(m)@),
            add_stale(m0, sv, k as int, own@, c@) == Ok::<Seq<(ForwardingView, DepsView)>, ConfigErrorView>(
                entries_view(m@),
            ),
        decreases st.len() - k,
    {
        assert(sv[k as int] == st@[k as int]@);
        let ghost mv = entries_view(m@);
        match old_forwarding_exec(own, c, &st[k]) {
            Err(e) => {
                proof {
                    lemma_add_stale_err_sticks(m0, sv, k + 1, st.len() as int, own@, c@);
                }
                return Err(e);
            },
            Ok(Some(p)) => {
                let ghost pv = (p.0@, p.1@);
                m.push(p);
                assert(entries_view(m@) =~= mv.push(pv));
            },
            Ok(None) => {},
        }
        k = k + 1;
    }
    Ok(())
}

fn is_quic_exec(f: &Forwarding) -> (r: bool)
    ensures
        r == is_quic(f@),
{
    match f.transport() {
        Transport::Quic => true,
        Transport::Tcp => false,
    }
}

fn entry_le_exec(a: &(Forwarding, ForwardingDeps), b: &(Forwarding, ForwardingDeps)) -> (r: bool)
    ensures
        r == entry_le((a.0@, a.1@), (b.0@, b.1@)),
{
    if a.0.listen != b.0.listen {
        a.0.listen.sorts_before_or_eq(&b.0.listen)
    } else {
        !is_quic_exec(&a.0) || is_quic_exec(&b.0)
    }
}

proof fn lemma_insert_entry_at(s: Seq<(ForwardingView, DepsView)>, x: (ForwardingView, DepsView), k: int)
    requires
        0 <= k <= s.len(),
        forall|z: int| k <= z < s.len() ==> !entry_le(#[trigger] s[z], x),
        k > 0 ==> entry_le(s[k - 1], x),
    ensures
        insert_entry(s, x) == s.subrange(0, k).push(x) + s.subrange(k, s.len() as int),
    decreases s.len(),
{
    if s.len() == 0 {
        assert(seq![x] =~= Seq::<(ForwardingView, DepsView)>::empty().push(x) + Seq::<(ForwardingView, DepsView)>::empty());
    } else if k == s.len() {
        assert(s.subrange(0, k) =~= s);
        assert(s.push(x) =~= s.subrange(0, k).push(x) + s.subrange(k, s.len() as int));
    } else {
        let d = s.drop_last();
        assert(!entry_le(s[s.len() - 1], x));
        assert forall|z: int| k <= z < d.len() implies !entry_le(#[trigger] d[z], x) by {
            assert(d[z] == s[z]);
        }
        if k > 0 {
            assert(d[k - 1] == s[k - 1]);
        }
        lemma_insert_entry_at(d, x, k);
        assert(insert_entry(d, x).push(s.last()) =~= s.subrange(0, k).push(x) + s.subrange(k, s.len() as int));
    }
}

proof fn lemma_entries_remove_first(v: Seq<(Forwarding, ForwardingDeps)>)
    requires
        v.len() > 0,
    ensures
        entries_view(v.remove(0)) == entries_view(v).subrange(1, v.len() as int),
{
    assert forall|k: int| 0 <= k < v.len() - 1 implies #[trigger] entries_view(v.remove(0))[k] == entries_view(
        v,
    ).subrange(1, v.len() as int)[k] by {
        assert(v.remove(0)[k] == v[k + 1]);
    }
    assert(entries_view(v.remove(0)) =~= entries_view(v).subrange(1, v.len() as int));
}

/// Sorts the entries by listen socket, QUIC after TCP; equal ones keep their order.
fn sort_entries_exec(v: Vec<(Forwarding, ForwardingDeps)>) -> (r: Vec<(Forwarding, ForwardingDeps)>)
    ensures
        entries_view(r@) == sort_entries(entries_view(v@), v.len() as int),
{
    let ghost sv = entries_view(v@);
    let n = v.len();
    let mut rest = v;
    let mut out: Vec<(Forwarding, ForwardingDeps)> = Vec::new();
    let mut j: usize = 0;
    while rest.len() > 0
        invariant
            j + rest.len() == n,
            sv.len() == n,
            entries_view(rest@) == sv.subrange(j as int, n as int),
            entries_view(out@) == sort_entries(sv, j as int),
        decreases rest.len(),
    {
        let ghost br = entries_view(rest@);
        let ghost old_rest = rest@;
        let e = rest.remove(0);
        let ghost ev = (e.0@, e.1@);
        assert(br[0] == ev);
        assert(sv[j as int] == ev);
        proof {
            lemma_entries_remove_first(old_rest);
        }
        assert(entries_view(rest@) =~= sv.subrange(j + 1, n as int));
        let ghost ov = entries_view(out@);
        let mut k: usize = out.len();
        while k > 0 && !entry_le_exec(&out[k - 1], &e)
            invariant
                k <= out.len(),
                ov == entries_view(out@),
                ev == (e.0@, e.1@),
                forall|z: int| k <= z < out.len() ==> !entry_le(#[trigger] ov[z], ev),
            decreases k,
        {
            assert(ov[k - 1] == (out@[k - 1].0@, out@[k - 1].1@));
            k = k - 1;
        }
        if k > 0 {
            assert(ov[k - 1] == (out@[k - 1].0@, out@[k - 1].1@));
        }
        proof {
            lemma_insert_entry_at(ov, ev, k as int);
        }
        out.insert(k, e);
        assert(entries_view(out@) =~= ov.subrange(0, k as int).push(ev) + ov.subrange(k as int, ov.len() as int));
        j = j + 1;
    }
    out
}

/// Merges server `own`'s ideal config with what the fabric can support now, every
/// server's snapshots being `views`, `server_of_ip` mapping ip texts to servers and
/// `stored` holding `own`'s snapshots read as configs.
#[verifier::loop_isolation(false)]
pub fn converge(
    ideal: DerivedConfig,
    own: &ServerConfigViewEntity,
    views: &Vec<ServerConfigViewEntity>,
    server_of_ip: &Vec<(String, String)>,
    stored: &StoredConfigs,
) -> (r: Result<Converged, ConvergeError>)
    ensures
        match convergence(ideal@, own@, states_view(views@), pairs_view(server_of_ip@), stored@) {
            Ok(v) => r matches Ok(x) && x@ == v,
            Err(e) => r matches Err(x) && x@ == e,
        },
{
    let ghost vs = states_view(views@);
    let ghost pv = pairs_view(server_of_ip@);
    let ghost iv = ideal@;
    let served = served_caps(views);
    let refs = referenced_caps(views, &own.server);
    let (mut merged, waiting) = match merge_ideal_exec(&ideal, own, stored, &served, server_of_ip, Ghost(vs)) {
        Ok(x) => x,
        Err(e) => return Err(ConvergeError::Snapshot(e)),
    };
    let ghost m = entries_view(merged@);
    let stale = stale_exec(&refs, &own.server, server_of_ip, &merged, Ghost(vs));
    match add_stale_exec(&mut merged, &stale, own, stored) {
        Ok(()) => {},
        Err(e) => return Err(ConvergeError::Snapshot(e)),
    }
    let ghost m2 = entries_view(merged@);
    let sorted = sort_entries_exec(merged);
    let ghost sv = entries_view(sorted@);
    let mut i: usize = 0;
    while i < sorted.len() && sorted.len() - i > 1
        invariant
            sv == entries_view(sorted@),
            i <= sorted.len(),
            first_conflict(sv, 0) == first_conflict(sv, i as int),
        decreases sorted.len() - i,
    {
        let a = &sorted[i].0;
        let b = &sorted[i + 1].0;
        assert(sv[i as int].0 == a@ && sv[i + 1].0 == b@);
        let ka = a.listen_key();
        let kb = b.listen_key();
        if ka.0 == kb.0 && ka.1 == kb.1 {
            let d = &sorted[i].1;
            let d2 = &sorted[i + 1].1;
            assert(sv[i as int].1 == d@ && sv[i + 1].1 == d2@);
            assert(sv[i as int].0.listen_key() == sv[i + 1].0.listen_key());
            assert(first_conflict(sv, i as int) == Some(i as int));
            return Err(
                ConvergeError::ListenerConflict {
                    ip: d.serves.ip.clone(),
                    port: d.serves.port,
                    old: d.serves.protocol,
                    new: d2.serves.protocol,
                },
            );
        }
        i = i + 1;
    }
    let mut forwardings: Vec<Forwarding> = Vec::new();
    let mut deps: Vec<ForwardingDeps> = Vec::new();
    let mut rest = sorted;
    let total = rest.len();
    let mut j: usize = 0;
    while rest.len() > 0
        invariant
            j + rest.len() == total,
            total == sv.len(),
            entries_view(rest@) == sv.subrange(j as int, sv.len() as int),
            forwardings@.map_values(|f: Forwarding| f@) == sv.subrange(0, j as int).map_values(
                |e: (ForwardingView, DepsView)| e.0,
            ),
            deps_view(deps@) == sv.subrange(0, j as int).map_values(|e: (ForwardingView, DepsView)| e.1),
        decreases rest.len(),
    {
        let ghost br = entries_view(rest@);
        let ghost old_rest = rest@;
        let ghost bf = forwardings@.map_values(|f: Forwarding| f@);
        let ghost bd = deps_view(deps@);
        let e = rest.remove(0);
        let ghost ev = (e.0@, e.1@);
        assert(br[0] == ev);
        assert(sv[j as int] == ev);
        proof {
            lemma_entries_remove_first(old_rest);
        }
        assert(entries_view(rest@) =~= sv.subrange(j + 1, sv.len() as int));
        let (f, d) = e;
        forwardings.push(f);
        deps.push(d);
        assert(forwardings@.map_values(|f: Forwarding| f@) =~= bf.push(ev.0));
        assert(deps_view(deps@) =~= bd.push(ev.1));
        assert(sv.subrange(0, j + 1).map_values(|e: (ForwardingView, DepsView)| e.0) =~= sv.subrange(0, j as int).map_values(
            |e: (ForwardingView, DepsView)| e.0,
        ).push(ev.0));
        assert(sv.subrange(0, j + 1).map_values(|e: (ForwardingView, DepsView)| e.1) =~= sv.subrange(0, j as int).map_values(
            |e: (ForwardingView, DepsView)| e.1,
        ).push(ev.1));
        j = j + 1;
    }
    assert(sv.subrange(0, sv.len() as int) =~= sv);
    let waiting_sorted = sort_distinct(waiting);
    let DerivedConfig { config, forwardings: _, invalid } = ideal;
    let Config { ipv6_resolve, log, forwardings: _ } = config;
    Ok(
        Converged {
            config: Config { ipv6_resolve, log, forwardings },
            forwardings: deps,
            waiting_for: waiting_sorted,
            invalid,
        },
    )
}

// ---------------------------------------------------------------------------
// The two rules.
// ---------------------------------------------------------------------------

/// Every listener `d` points at is served by some server.
pub open spec fn all_served(views: Seq<ServerStateView>, d: DepsView) -> bool {
    forall|j: int| 0 <= j < d.points_at.len() ==> served_now(views, #[trigger] d.points_at[j])
}

/// An entry of a converged config is fine to run now: its targets are all served,
/// or it is this server's own previous shape of its listener.
pub open spec fn runs_safely(
    views: Seq<ServerStateView>,
    own: ServerStateView,
    c: StoredView,
    e: (ForwardingView, DepsView),
) -> bool {
    all_served(views, e.1) || old_forwarding(own, c, e.1.serves) == Ok::<
        Option<(ForwardingView, DepsView)>,
        ConfigErrorView,
    >(Some(e))
}

proof fn lemma_forwarding_in_serves(
    s: Option<SnapshotView>,
    c: Option<Result<ConfigView, ConfigErrorView>>,
    cap: ListenerCapView,
)
    ensures
        forwarding_in(s, c, cap) matches Ok(Some(p)) ==> p.1.serves == cap,
{
    if let Some(x) = s {
        crate::seqs::lemma_first_where_props(x.forwardings, |d: DepsView| d.serves == cap);
    }
}

/// Snapshot `s`, read as `c`, holds a forwarding for `cap` first at index `i`, and
/// its stored config reads with a forwarding at that index.
pub open spec fn shape_at(
    s: Option<SnapshotView>,
    c: Option<Result<ConfigView, ConfigErrorView>>,
    cap: ListenerCapView,
    i: int,
) -> bool {
    &&& s matches Some(x)
    &&& 0 <= i < x.forwardings.len()
    &&& x.forwardings[i].serves == cap
    &&& forall|k: int| 0 <= k < i ==> (#[trigger] x.forwardings[k]).serves != cap
    &&& c matches Some(Ok(cfg))
    &&& i < cfg.forwardings.len()
}

/// The shape stored at index `i`: the config's forwarding and what it serves and dials.
pub open spec fn shape(
    s: Option<SnapshotView>,
    c: Option<Result<ConfigView, ConfigErrorView>>,
    i: int,
) -> (ForwardingView, DepsView) {
    (c->Some_0->Ok_0.forwardings[i], s->Some_0.forwardings[i])
}

proof fn lemma_forwarding_in_at(
    s: Option<SnapshotView>,
    c: Option<Result<ConfigView, ConfigErrorView>>,
    cap: ListenerCapView,
    i: int,
)
    requires
        shape_at(s, c, cap, i),
    ensures
        forwarding_in(s, c, cap) == Ok::<Option<(ForwardingView, DepsView)>, ConfigErrorView>(
            Some(shape(s, c, i)),
        ),
{
    crate::seqs::lemma_first_where(s->Some_0.forwardings, |d: DepsView| d.serves == cap, i);
}

proof fn lemma_forwarding_in_absent(
    s: Option<SnapshotView>,
    c: Option<Result<ConfigView, ConfigErrorView>>,
    cap: ListenerCapView,
)
    requires
        !snap_serves(s, cap),
    ensures
        forwarding_in(s, c, cap) == Ok::<Option<(ForwardingView, DepsView)>, ConfigErrorView>(None),
{
    if let Some(x) = s {
        crate::seqs::lemma_first_where_props(x.forwardings, |d: DepsView| d.serves == cap);
        if let Some(i) = first_where(x.forwardings, |d: DepsView| d.serves == cap) {
            assert(x.forwardings[i].serves == cap);
        }
    }
}

/// The previous shape of a listener is what the server actually runs: the applied
/// snapshot's forwarding for the listener whenever the applied snapshot has one; the
/// offered (in-flight) one only when the applied snapshot has none; the desired one
/// only when neither has; and none when no snapshot of the server has one.
pub proof fn previous_shape_prefers_what_runs(own: ServerStateView, c: StoredView, cap: ListenerCapView, i: int)
    ensures
        shape_at(own.applied, c.applied, cap, i) ==> old_forwarding(own, c, cap) == Ok::<
            Option<(ForwardingView, DepsView)>,
            ConfigErrorView,
        >(Some(shape(own.applied, c.applied, i))),
        !snap_serves(own.applied, cap) && shape_at(own.in_flight, c.in_flight, cap, i) ==> old_forwarding(
            own,
            c,
            cap,
        ) == Ok::<Option<(ForwardingView, DepsView)>, ConfigErrorView>(
            Some(shape(own.in_flight, c.in_flight, i)),
        ),
        !snap_serves(own.applied, cap) && !snap_serves(own.in_flight, cap) && shape_at(
            own.desired,
            c.desired,
            cap,
            i,
        ) ==> old_forwarding(own, c, cap) == Ok::<Option<(ForwardingView, DepsView)>, ConfigErrorView>(
            Some(shape(own.desired, c.desired, i)),
        ),
        !snap_serves(own.applied, cap) && !snap_serves(own.in_flight, cap) && !snap_serves(own.desired, cap)
            ==> old_forwarding(own, c, cap) == Ok::<Option<(ForwardingView, DepsView)>, ConfigErrorView>(
            None,
        ),
{
    if shape_at(own.applied, c.applied, cap, i) {
        lemma_forwarding_in_at(own.applied, c.applied, cap, i);
    }
    if !snap_serves(own.applied, cap) {
        lemma_forwarding_in_absent(own.applied, c.applied, cap);
        if shape_at(own.in_flight, c.in_flight, cap, i) {
            lemma_forwarding_in_at(own.in_flight, c.in_flight, cap, i);
        }
        if !snap_serves(own.in_flight, cap) {
            lemma_forwarding_in_absent(own.in_flight, c.in_flight, cap);
            if shape_at(own.desired, c.desired, cap, i) {
                lemma_forwarding_in_at(own.desired, c.desired, cap, i);
            }
            if !snap_serves(own.desired, cap) {
                lemma_forwarding_in_absent(own.desired, c.desired, cap);
            }
        }
    }
}

proof fn lemma_old_forwarding_serves(own: ServerStateView, c: StoredView, cap: ListenerCapView)
    ensures
        old_forwarding(own, c, cap) matches Ok(Some(p)) ==> p.1.serves == cap,
{
    lemma_forwarding_in_serves(own.applied, c.applied, cap);
    lemma_forwarding_in_serves(own.in_flight, c.in_flight, cap);
    lemma_forwarding_in_serves(own.desired, c.desired, cap);
}

proof fn lemma_merge_ideal_safe(
    fs: Seq<ForwardingView>,
    ds: Seq<DepsView>,
    k: int,
    views: Seq<ServerStateView>,
    own: ServerStateView,
    c: StoredView,
    pairs: Seq<(Seq<char>, Seq<char>)>,
)
    ensures
        merge_ideal(fs, ds, k, views, own, c, pairs) matches Ok((m, w)) ==> forall|i: int|
            0 <= i < m.len() ==> runs_safely(views, own, c, #[trigger] m[i]),
    decreases k,
{
    if k > 0 {
        lemma_merge_ideal_safe(fs, ds, k - 1, views, own, c, pairs);
        if let Ok((m, w)) = merge_ideal(fs, ds, k - 1, views, own, c, pairs) {
            let d = ds[k - 1];
            let pr = |x: ListenerCapView| !served_now(views, x);
            let un = unready(views, d);
            if un.len() == 0 {
                assert forall|j: int| 0 <= j < d.points_at.len() implies served_now(views, #[trigger] d.points_at[j]) by {
                    if !served_now(views, d.points_at[j]) {
                        d.points_at.lemma_filter_contains(pr, j);
                        assert(un.contains(d.points_at[j]));
                    }
                }
            } else {
                lemma_old_forwarding_serves(own, c, d.serves);
            }
        }
    }
}

proof fn lemma_add_stale_parts(
    m: Seq<(ForwardingView, DepsView)>,
    st: Seq<ListenerCapView>,
    k: int,
    own: ServerStateView,
    c: StoredView,
)
    requires
        0 <= k <= st.len(),
    ensures
        add_stale(m, st, k, own, c) matches Ok(m2) ==> {
            &&& forall|i: int| 0 <= i < m.len() ==> m2.contains(#[trigger] m[i])
            &&& forall|q: int|
                0 <= q < k ==> (old_forwarding(own, c, #[trigger] st[q]) matches Ok(Some(p)) ==> m2.contains(p))
            &&& forall|i: int|
                0 <= i < m2.len() ==> m.contains(#[trigger] m2[i]) || exists|q: int|
                    0 <= q < k && old_forwarding(own, c, #[trigger] st[q]) == Ok::<
                        Option<(ForwardingView, DepsView)>,
                        ConfigErrorView,
                    >(Some(m2[i]))
        },
    decreases k,
{
    if k == 0 {
        assert forall|i: int| 0 <= i < m.len() implies m.contains(#[trigger] m[i]) by {
        }
    } else {
        lemma_add_stale_parts(m, st, k - 1, own, c);
        if let Ok(m1) = add_stale(m, st, k - 1, own, c) {
            match old_forwarding(own, c, st[k - 1]) {
                Ok(Some(p)) => {
                    let m2 = m1.push(p);
                    lemma_contains_push(m1, p);
                    assert forall|i: int| 0 <= i < m2.len() implies m.contains(#[trigger] m2[i]) || exists|q: int|
                        0 <= q < k && old_forwarding(own, c, #[trigger] st[q]) == Ok::<
                            Option<(ForwardingView, DepsView)>,
                            ConfigErrorView,
                        >(Some(m2[i])) by {
                        if i < m1.len() {
                            assert(m2[i] == m1[i]);
                        } else {
                            assert(m2[i] == p);
                            assert(old_forwarding(own, c, st[k - 1]) == Ok::<
                                Option<(ForwardingView, DepsView)>,
                                ConfigErrorView,
                            >(Some(m2[i])));
                        }
                    }
                    assert forall|q: int|
                        0 <= q < k implies (old_forwarding(own, c, #[trigger] st[q]) matches Ok(Some(pp)) ==> m2.contains(
                        pp,
                    )) by {
                    }
                },
                _ => {},
            }
        }
    }
}

proof fn lemma_insert_entry_contains(s: Seq<(ForwardingView, DepsView)>, x: (ForwardingView, DepsView))
    ensures
        forall|y: (ForwardingView, DepsView)| #[trigger] insert_entry(s, x).contains(y) <==> (s.contains(y) || y == x),
    decreases s.len(),
{
    if s.len() == 0 {
        assert forall|y: (ForwardingView, DepsView)| #[trigger] insert_entry(s, x).contains(y) <==> (s.contains(y) || y
            == x) by {
            if insert_entry(s, x).contains(y) {
                assert(insert_entry(s, x) == seq![x]);
            }
            if y == x {
                assert(insert_entry(s, x)[0] == x);
            }
        }
    } else if entry_le(s.last(), x) {
        lemma_contains_push(s, x);
    } else {
        let d = s.drop_last();
        lemma_insert_entry_contains(d, x);
        lemma_contains_push(insert_entry(d, x), s.last());
        lemma_contains_push(d, s.last());
        assert(d.push(s.last()) =~= s);
    }
}

proof fn lemma_sort_entries_contains(s: Seq<(ForwardingView, DepsView)>, j: int)
    requires
        0 <= j <= s.len(),
    ensures
        forall|y: (ForwardingView, DepsView)| #[trigger] sort_entries(s, j).contains(y) <==> s.subrange(0, j).contains(y),
    decreases j,
{
    if j == 0 {
        assert forall|y: (ForwardingView, DepsView)| #[trigger] sort_entries(s, j).contains(y) <==> s.subrange(
            0,
            j,
        ).contains(y) by {
            if s.subrange(0, j).contains(y) {
                let q = choose|q: int| 0 <= q < s.subrange(0, j).len() && s.subrange(0, j)[q] == y;
            }
        }
    } else {
        lemma_sort_entries_contains(s, j - 1);
        lemma_insert_entry_contains(sort_entries(s, j - 1), s[j - 1]);
        lemma_contains_push(s.subrange(0, j - 1), s[j - 1]);
        assert(s.subrange(0, j - 1).push(s[j - 1]) =~= s.subrange(0, j));
    }
}

/// `s` with `x` placed in order (once).
pub open spec fn insert_cap(s: Seq<ListenerCapView>, x: ListenerCapView) -> Seq<ListenerCapView>
    decreases s.len(),
{
    if s.len() == 0 {
        seq![x]
    } else if cap_lt(s.last(), x) {
        s.push(x)
    } else if s.last() == x {
        s
    } else {
        insert_cap(s.drop_last(), x).push(s.last())
    }
}

proof fn lemma_insert_cap(s: Seq<ListenerCapView>, x: ListenerCapView)
    requires
        caps_sorted(s),
    ensures
        caps_sorted(insert_cap(s, x)),
        forall|y: ListenerCapView| #[trigger] insert_cap(s, x).contains(y) <==> (s.contains(y) || y == x),
        insert_cap(s, x).len() > 0,
        s.len() > 0 ==> (insert_cap(s, x).last() == s.last() || insert_cap(s, x).last() == x),
    decreases s.len(),
{
    if s.len() == 0 {
        assert forall|y: ListenerCapView| #[trigger] insert_cap(s, x).contains(y) <==> (s.contains(y) || y == x) by {
            if y == x {
                assert(insert_cap(s, x)[0] == x);
            }
        }
    } else if cap_lt(s.last(), x) {
        lemma_contains_push(s, x);
        let r = s.push(x);
        assert forall|a: int, b: int| 0 <= a < b < r.len() implies cap_lt(#[trigger] r[a], #[trigger] r[b]) by {
            if b == s.len() {
                if a < s.len() - 1 {
                    lemma_cap_lt_transitive(s[a], s.last(), x);
                }
            }
        }
    } else if s.last() == x {
        assert forall|y: ListenerCapView| #[trigger] insert_cap(s, x).contains(y) <==> (s.contains(y) || y == x) by {
            if y == x {
                assert(s[s.len() - 1] == x);
            }
        }
    } else {
        let d = s.drop_last();
        assert(caps_sorted(d)) by {
            assert forall|a: int, b: int| 0 <= a < b < d.len() implies cap_lt(#[trigger] d[a], #[trigger] d[b]) by {
                assert(d[a] == s[a] && d[b] == s[b]);
            }
        }
        lemma_insert_cap(d, x);
        lemma_cap_lt_total(s.last(), x);
        let i = insert_cap(d, x);
        let r = i.push(s.last());
        lemma_contains_push(i, s.last());
        lemma_contains_push(d, s.last());
        assert(d.push(s.last()) =~= s);
        assert forall|a: int, b: int| 0 <= a < b < r.len() implies cap_lt(#[trigger] r[a], #[trigger] r[b]) by {
            if b == i.len() {
                let y = i[a];
                assert(i.contains(y));
                if y == x {
                } else {
                    let q = choose|q: int| 0 <= q < d.len() && d[q] == y;
                    assert(s[q] == y);
                }
            }
        }
    }
}

proof fn lemma_sorted_filter_exists(xs: Seq<ListenerCapView>, p: spec_fn(ListenerCapView) -> bool)
    ensures
        exists|s: Seq<ListenerCapView>|
            caps_sorted(s) && forall|x: ListenerCapView| s.contains(x) <==> (xs.contains(x) && p(x)),
    decreases xs.len(),
{
    if xs.len() == 0 {
        let s = Seq::<ListenerCapView>::empty();
        assert(caps_sorted(s) && forall|x: ListenerCapView| s.contains(x) <==> (xs.contains(x) && p(x)));
    } else {
        let d = xs.drop_last();
        lemma_sorted_filter_exists(d, p);
        let s0 = choose|s: Seq<ListenerCapView>|
            caps_sorted(s) && forall|x: ListenerCapView| s.contains(x) <==> (d.contains(x) && p(x));
        lemma_contains_push(d, xs.last());
        assert(d.push(xs.last()) =~= xs);
        if p(xs.last()) {
            lemma_insert_cap(s0, xs.last());
            let s1 = insert_cap(s0, xs.last());
            assert(caps_sorted(s1) && forall|x: ListenerCapView| s1.contains(x) <==> (xs.contains(x) && p(x)));
        } else {
            assert(caps_sorted(s0) && forall|x: ListenerCapView| s0.contains(x) <==> (xs.contains(x) && p(x)));
        }
    }
}

/// All the listeners the forwardings `fs[..k]` point at.
pub open spec fn points_of(fs: Seq<DepsView>, k: int) -> Seq<ListenerCapView>
    decreases k,
{
    if k <= 0 {
        Seq::empty()
    } else {
        points_of(fs, k - 1) + fs[k - 1].points_at
    }
}

pub open spec fn snap_list(s: Option<SnapshotView>) -> Seq<ListenerCapView> {
    match s {
        Some(x) => points_of(x.forwardings, x.forwardings.len() as int),
        None => Seq::empty(),
    }
}

pub open spec fn refs_upto(views: Seq<ServerStateView>, own: Seq<char>, k: int) -> Seq<ListenerCapView>
    decreases k,
{
    if k <= 0 {
        Seq::empty()
    } else {
        let s = views[k - 1];
        refs_upto(views, own, k - 1) + snap_list(s.in_flight) + snap_list(s.applied) + (if s.server != own {
            snap_list(s.desired)
        } else {
            Seq::empty()
        })
    }
}

proof fn lemma_concat_contains<A>(a: Seq<A>, b: Seq<A>, x: A)
    ensures
        (a + b).contains(x) <==> (a.contains(x) || b.contains(x)),
{
    if (a + b).contains(x) {
        let k = choose|k: int| 0 <= k < (a + b).len() && (a + b)[k] == x;
        if k < a.len() {
            assert(a[k] == x);
        } else {
            assert(b[k - a.len()] == x);
        }
    }
    if a.contains(x) {
        let k = choose|k: int| 0 <= k < a.len() && a[k] == x;
        assert((a + b)[k] == x);
    }
    if b.contains(x) {
        let k = choose|k: int| 0 <= k < b.len() && b[k] == x;
        assert((a + b)[a.len() + k] == x);
    }
}

proof fn lemma_points_of(fs: Seq<DepsView>, k: int, i: int, j: int)
    requires
        0 <= i < k <= fs.len(),
        0 <= j < fs[i].points_at.len(),
    ensures
        points_of(fs, k).contains(fs[i].points_at[j]),
    decreases k,
{
    let x = fs[i].points_at[j];
    lemma_concat_contains(points_of(fs, k - 1), fs[k - 1].points_at, x);
    if i < k - 1 {
        lemma_points_of(fs, k - 1, i, j);
    } else {
        assert(fs[k - 1].points_at[j] == x);
    }
}

proof fn lemma_snap_list(s: Option<SnapshotView>, x: ListenerCapView)
    requires
        snap_points(s, x),
    ensures
        snap_list(s).contains(x),
{
    let v = s->Some_0;
    let (i, j) = choose|i: int, j: int|
        0 <= i < v.forwardings.len() && 0 <= j < v.forwardings[i].points_at.len() && (#[trigger] v.forwardings[i].points_at[j])
            == x;
    lemma_points_of(v.forwardings, v.forwardings.len() as int, i, j);
}

proof fn lemma_refs_upto(views: Seq<ServerStateView>, own: Seq<char>, k: int, x: ListenerCapView)
    requires
        0 <= k <= views.len(),
        exists|v: int|
            0 <= v < k && {
                let s = #[trigger] views[v];
                ||| snap_points(s.in_flight, x)
                ||| snap_points(s.applied, x)
                ||| (s.server != own && snap_points(s.desired, x))
            },
    ensures
        refs_upto(views, own, k).contains(x),
    decreases k,
{
    let s = views[k - 1];
    let a = refs_upto(views, own, k - 1);
    let b = snap_list(s.in_flight);
    let c = snap_list(s.applied);
    let d = if s.server != own {
        snap_list(s.desired)
    } else {
        Seq::empty()
    };
    lemma_concat_contains(a + b + c, d, x);
    lemma_concat_contains(a + b, c, x);
    lemma_concat_contains(a, b, x);
    let v = choose|v: int|
        0 <= v < k && {
            let s = #[trigger] views[v];
            ||| snap_points(s.in_flight, x)
            ||| snap_points(s.applied, x)
            ||| (s.server != own && snap_points(s.desired, x))
        };
    if v < k - 1 {
        lemma_refs_upto(views, own, k - 1, x);
    } else {
        if snap_points(s.in_flight, x) {
            lemma_snap_list(s.in_flight, x);
        } else if snap_points(s.applied, x) {
            lemma_snap_list(s.applied, x);
        } else {
            lemma_snap_list(s.desired, x);
        }
    }
}

/// The stale listeners can always be listed in order.
proof fn lemma_stale_caps(
    views: Seq<ServerStateView>,
    own: Seq<char>,
    pairs: Seq<(Seq<char>, Seq<char>)>,
    m: Seq<(ForwardingView, DepsView)>,
)
    ensures
        caps_sorted(stale_caps(views, own, pairs, m)),
        forall|x: ListenerCapView| stale_caps(views, own, pairs, m).contains(x) <==> is_stale(views, own, pairs, m, x),
{
    let xs = refs_upto(views, own, views.len() as int);
    let p = |x: ListenerCapView| is_stale(views, own, pairs, m, x);
    lemma_sorted_filter_exists(xs, p);
    let s0 = choose|s: Seq<ListenerCapView>|
        caps_sorted(s) && forall|x: ListenerCapView| s.contains(x) <==> (xs.contains(x) && p(x));
    assert forall|x: ListenerCapView| s0.contains(x) <==> is_stale(views, own, pairs, m, x) by {
        if is_stale(views, own, pairs, m, x) {
            lemma_refs_upto(views, own, views.len() as int, x);
        }
    }
}

/// The first rule: everything a converged config runs either points only at
/// listeners that some server already serves, or is this server's own previous
/// shape of that listener.
pub proof fn converged_points_only_at_served_listeners(
    ideal: crate::derive::DerivedView,
    own: ServerStateView,
    views: Seq<ServerStateView>,
    pairs: Seq<(Seq<char>, Seq<char>)>,
    c: StoredView,
)
    ensures
        convergence(ideal, own, views, pairs, c) matches Ok(cv) ==> cv.config.forwardings.len()
            == cv.forwardings.len() && forall|i: int|
            0 <= i < cv.forwardings.len() ==> runs_safely(
                views,
                own,
                c,
                (cv.config.forwardings[i], #[trigger] cv.forwardings[i]),
            ),
{
    let fs = ideal.config.forwardings;
    let ds = ideal.forwardings;
    let n = if fs.len() < ds.len() {
        fs.len() as int
    } else {
        ds.len() as int
    };
    lemma_merge_ideal_safe(fs, ds, n, views, own, c, pairs);
    if let Ok((m, w)) = merge_ideal(fs, ds, n, views, own, c, pairs) {
        let st = stale_caps(views, own.server, pairs, m);
        if st.len() >= 0 {
            lemma_add_stale_parts(m, st, st.len() as int, own, c);
        }
        if let Ok(m2) = add_stale(m, st, st.len() as int, own, c) {
            let sorted = sort_entries(m2, m2.len() as int);
            lemma_sort_entries_contains(m2, m2.len() as int);
            assert(m2.subrange(0, m2.len() as int) =~= m2);
            if first_conflict(sorted, 0) is None {
                let cv = convergence(ideal, own, views, pairs, c)->Ok_0;
                assert forall|i: int| 0 <= i < cv.forwardings.len() implies runs_safely(
                    views,
                    own,
                    c,
                    (cv.config.forwardings[i], #[trigger] cv.forwardings[i]),
                ) by {
                    let e = sorted[i];
                    assert(e == (cv.config.forwardings[i], cv.forwardings[i]));
                    assert(sorted.contains(e));
                    assert(m2.contains(e));
                    let q = choose|q: int| 0 <= q < m2.len() && m2[q] == e;
                    if m.contains(e) {
                        let r = choose|r: int| 0 <= r < m.len() && m[r] == e;
                        assert(runs_safely(views, own, c, m[r]));
                    } else {
                        let s = choose|s: int|
                            0 <= s < st.len() && old_forwarding(own, c, #[trigger] st[s]) == Ok::<
                                Option<(ForwardingView, DepsView)>,
                                ConfigErrorView,
                            >(Some(m2[q]));
                        lemma_old_forwarding_serves(own, c, st[s]);
                    }
                }
            }
        }
    }
}

/// The second rule: a listener of this server that some snapshot still points at is
/// kept alive whenever this server has a stored shape of it.
pub proof fn converged_keeps_referenced_listeners(
    ideal: crate::derive::DerivedView,
    own: ServerStateView,
    views: Seq<ServerStateView>,
    pairs: Seq<(Seq<char>, Seq<char>)>,
    c: StoredView,
    cap: ListenerCapView,
)
    requires
        referenced(views, own.server, cap),
        server_of(pairs, cap.ip) == Some(own.server),
        old_forwarding(own, c, cap) is Ok,
        old_forwarding(own, c, cap)->Ok_0 is Some,
    ensures
        convergence(ideal, own, views, pairs, c) matches Ok(cv) ==> exists|i: int|
            0 <= i < cv.forwardings.len() && (#[trigger] cv.forwardings[i]).serves == cap,
{
    let fs = ideal.config.forwardings;
    let ds = ideal.forwardings;
    let n = if fs.len() < ds.len() {
        fs.len() as int
    } else {
        ds.len() as int
    };
    if let Ok((m, w)) = merge_ideal(fs, ds, n, views, own, c, pairs) {
        let st = stale_caps(views, own.server, pairs, m);
        lemma_add_stale_parts(m, st, st.len() as int, own, c);
        if let Ok(m2) = add_stale(m, st, st.len() as int, own, c) {
            let sorted = sort_entries(m2, m2.len() as int);
            lemma_sort_entries_contains(m2, m2.len() as int);
            assert(m2.subrange(0, m2.len() as int) =~= m2);
            if first_conflict(sorted, 0) is None {
                let cv = convergence(ideal, own, views, pairs, c)->Ok_0;
                // Some entry of the merge serves `cap`.
                let e: (ForwardingView, DepsView) = if exists|i: int| 0 <= i < m.len() && (#[trigger] m[i]).1.serves == cap {
                    let i = choose|i: int| 0 <= i < m.len() && (#[trigger] m[i]).1.serves == cap;
                    assert(m2.contains(m[i]));
                    m[i]
                } else {
                    assert(is_stale(views, own.server, pairs, m, cap));
                    lemma_stale_caps(views, own.server, pairs, m);
                    assert(st.contains(cap));
                    let q = choose|q: int| 0 <= q < st.len() && st[q] == cap;
                    let p = old_forwarding(own, c, st[q])->Ok_0->Some_0;
                    lemma_old_forwarding_serves(own, c, cap);
                    assert(m2.contains(p));
                    p
                };
                assert(e.1.serves == cap);
                assert(sorted.contains(e));
                let k = choose|k: int| 0 <= k < sorted.len() && sorted[k] == e;
                assert(cv.forwardings[k] == e.1);
            }
        }
    }
}

// ---------------------------------------------------------------------------
// Protocol switches.
// ---------------------------------------------------------------------------

/// How a listen protocol is named in messages.
pub open spec fn protocol_name(p: ListenProtocol) -> Seq<char> {
    match p {
        ListenProtocol::Raw => "Raw"@,
        ListenProtocol::RelayTcp => "RelayTcp"@,
        ListenProtocol::RelayTls => "RelayTls"@,
        ListenProtocol::RelayQuic => "RelayQuic"@,
    }
}

pub(crate) fn protocol_name_exec(p: ListenProtocol) -> (r: &'static str)
    ensures
        r@ == protocol_name(p),
{
    proof {
        reveal_strlit("Raw");
        reveal_strlit("RelayTcp");
        reveal_strlit("RelayTls");
        reveal_strlit("RelayQuic");
    }
    match p {
        ListenProtocol::Raw => "Raw",
        ListenProtocol::RelayTcp => "RelayTcp",
        ListenProtocol::RelayTls => "RelayTls",
        ListenProtocol::RelayQuic => "RelayQuic",
    }
}

/// Every listener any snapshot of any server points at, in order.
pub open spec fn all_refs(views: Seq<ServerStateView>, k: int) -> Seq<ListenerCapView>
    decreases k,
{
    if k <= 0 {
        Seq::empty()
    } else {
        let s = views[k - 1];
        all_refs(views, k - 1) + snap_list(s.desired) + snap_list(s.in_flight) + snap_list(s.applied)
    }
}

pub open spec fn switch_message(serves: ListenerCapView, old: ListenerCapView) -> Seq<char> {
    "listener "@ + serves.ip + ":"@ + crate::text::int_text(serves.port as int) + " is still in use as "@
        + protocol_name(old.protocol) + "; use a new port instead of changing its protocol"@
}

/// The first of the dependencies `ds[..k]` whose listener some reference would see
/// change protocol, worded.
pub open spec fn deps_conflict(ds: Seq<DepsView>, refs: Seq<ListenerCapView>, k: int) -> Option<Seq<char>>
    decreases k,
{
    if k <= 0 {
        None
    } else {
        match deps_conflict(ds, refs, k - 1) {
            Some(msg) => Some(msg),
            None => match first_where(refs, |c: ListenerCapView| c.spec_conflicts(ds[k - 1].serves)) {
                Some(i) => Some(switch_message(ds[k - 1].serves, refs[i])),
                None => None,
            },
        }
    }
}

/// The first of the servers `t.servers[..k]` whose derived config would switch a
/// referenced listener's protocol, worded. Servers that do not derive are left to
/// the derivation pass.
pub open spec fn switch_conflict(t: crate::model::TopologyView, refs: Seq<ListenerCapView>, k: int) -> Option<
    Seq<char>,
>
    decreases k,
{
    if k <= 0 {
        None
    } else {
        match switch_conflict(t, refs, k - 1) {
            Some(msg) => Some(msg),
            None => match crate::derive::derivation(t, t.servers[k - 1].id) {
                Ok(d) => deps_conflict(d.forwardings, refs, d.forwardings.len() as int),
                Err(_) => None,
            },
        }
    }
}

fn push_snap_refs(out: &mut Vec<ListenerCap>, s: &Option<ConfigSnapshot>)
    ensures
        caps_view(final(out)@) == caps_view(old(out)@) + snap_list(snap_view(*s)),
{
    if let Some(x) = s {
        let ghost fs = x@.forwardings;
        let ghost base = caps_view(out@);
        let mut i: usize = 0;
        while i < x.forwardings.len()
            invariant
                i <= x.forwardings.len(),
                fs == x@.forwardings,
                fs.len() == x.forwardings.len(),
                caps_view(out@) == base + points_of(fs, i as int),
            decreases x.forwardings.len() - i,
        {
            let d = &x.forwardings[i];
            assert(fs[i as int] == d@);
            let ghost mid = caps_view(out@);
            let mut j: usize = 0;
            while j < d.points_at.len()
                invariant
                    j <= d.points_at.len(),
                    i < x.forwardings.len(),
                    fs[i as int] == d@,
                    caps_view(out@) == mid + fs[i as int].points_at.subrange(0, j as int),
                decreases d.points_at.len() - j,
            {
                push_cap(out, &d.points_at[j]);
                assert(fs[i as int].points_at.subrange(0, j + 1) =~= fs[i as int].points_at.subrange(0, j as int).push(
                    d.points_at@[j as int]@,
                ));
                assert(caps_view(out@) =~= mid + fs[i as int].points_at.subrange(0, j + 1));
                j = j + 1;
            }
            assert(fs[i as int].points_at.subrange(0, d.points_at.len() as int) =~= fs[i as int].points_at);
            assert(caps_view(out@) =~= base + points_of(fs, i + 1));
            i = i + 1;
        }
    } else {
        assert(caps_view(out@) =~= caps_view(old(out)@) + Seq::<ListenerCapView>::empty());
    }
}

fn first_conflicting(refs: &Vec<ListenerCap>, serves: &ListenerCap) -> (r: Option<usize>)
    ensures
        crate::index::opt_idx(r) == first_where(caps_view(refs@), |c: ListenerCapView| c.spec_conflicts(serves@)),
        r matches Some(i) ==> i < refs.len(),
{
    let ghost rv = caps_view(refs@);
    let ghost p = |c: ListenerCapView| c.spec_conflicts(serves@);
    let mut i: usize = 0;
    while i < refs.len()
        invariant
            i <= refs.len(),
            rv == caps_view(refs@),
            p == (|c: ListenerCapView| c.spec_conflicts(serves@)),
            forall|k: int| 0 <= k < i ==> !p(#[trigger] rv[k]),
        decreases refs.len() - i,
    {
        if refs[i].conflicts(serves) {
            proof {
                lemma_first_where(rv, p, i as int);
            }
            return Some(i);
        }
        i = i + 1;
    }
    proof {
        lemma_first_where(rv, p, i as int);
    }
    None
}

/// Rejects an edit that would put a different protocol on a socket some server still
/// points at: such a switch has no seamless path, so the operator is told to use a
/// new port instead.
#[verifier::loop_isolation(false)]
pub fn ensure_switch_safe(projected: &CanvasTopology, views: &Vec<ServerConfigViewEntity>) -> (r: Result<(), String>)
    ensures
        match switch_conflict(projected@, all_refs(states_view(views@), views.len() as int), projected.servers.len() as int) {
            Some(msg) => r matches Err(m) && m@ == msg,
            None => r is Ok,
        },
{
    let ghost vs = states_view(views@);
    let mut refs: Vec<ListenerCap> = Vec::new();
    let mut v: usize = 0;
    while v < views.len()
        invariant
            v <= views.len(),
            vs == states_view(views@),
            caps_view(refs@) == all_refs(vs, v as int),
        decreases views.len() - v,
    {
        assert(vs[v as int] == views@[v as int]@);
        push_snap_refs(&mut refs, &views[v].desired);
        push_snap_refs(&mut refs, &views[v].in_flight);
        push_snap_refs(&mut refs, &views[v].applied);
        v = v + 1;
    }
    let ghost rv = caps_view(refs@);
    if refs.len() == 0 {
        proof {
            lemma_no_switch_conflict(projected@, rv, projected.servers.len() as int);
        }
        return Ok(());
    }
    let mut si: usize = 0;
    while si < projected.servers.len()
        invariant
            si <= projected.servers.len(),
            rv == caps_view(refs@),
            switch_conflict(projected@, rv, si as int) is None,
        decreases projected.servers.len() - si,
    {
        assert(projected@.servers[si as int] == projected.servers@[si as int]@);
        match crate::derive::derive_server_config(projected, &projected.servers[si].id) {
            Err(_) => {},
            Ok(d) => {
                let ghost dv = d@.forwardings;
                let mut j: usize = 0;
                while j < d.forwardings.len()
                    invariant
                        j <= d.forwardings.len(),
                        dv == d@.forwardings,
                        dv.len() == d.forwardings.len(),
                        rv == caps_view(refs@),
                        deps_conflict(dv, rv, j as int) is None,
                    decreases d.forwardings.len() - j,
                {
                    let serves = &d.forwardings[j].serves;
                    assert(dv[j as int].serves == serves@);
                    let found = first_conflicting(&refs, serves);
                    proof {
                        assert((|c: ListenerCapView| c.spec_conflicts(serves@)) =~= (|c: ListenerCapView| c.spec_conflicts(dv[j as int].serves)));
                    }
                    match found {
                        Some(i) => {
                            let mut msg = String::new();
                            crate::text::push_str(&mut msg, "listener ");
                            crate::text::push_str(&mut msg, serves.ip.as_str());
                            crate::text::push_str(&mut msg, ":");
                            crate::text::push_int(&mut msg, serves.port);
                            crate::text::push_str(&mut msg, " is still in use as ");
                            crate::text::push_str(&mut msg, protocol_name_exec(refs[i].protocol));
                            crate::text::push_str(&mut msg, "; use a new port instead of changing its protocol");
                            assert(msg@ =~= switch_message(serves@, rv[i as int]));
                            proof {
                                assert((|c: ListenerCapView| c.spec_conflicts(serves@)) =~= (|c: ListenerCapView| c.spec_conflicts(dv[j as int].serves)));
                                lemma_deps_conflict_sticks(dv, rv, j + 1, dv.len() as int);
                                lemma_switch_conflict_sticks(projected@, rv, si + 1, projected.servers.len() as int);
                            }
                            return Err(msg);
                        },
                        None => {},
                    }
                    j = j + 1;
                }
            },
        }
        si = si + 1;
    }
    Ok(())
}

proof fn lemma_deps_conflict_sticks(ds: Seq<DepsView>, refs: Seq<ListenerCapView>, j: int, n: int)
    requires
        0 <= j <= n,
        deps_conflict(ds, refs, j) is Some,
    ensures
        deps_conflict(ds, refs, n) == deps_conflict(ds, refs, j),
    decreases n - j,
{
    if j < n {
        lemma_deps_conflict_sticks(ds, refs, j, n - 1);
    }
}

proof fn lemma_switch_conflict_sticks(t: crate::model::TopologyView, refs: Seq<ListenerCapView>, j: int, n: int)
    requires
        0 <= j <= n,
        switch_conflict(t, refs, j) is Some,
    ensures
        switch_conflict(t, refs, n) == switch_conflict(t, refs, j),
    decreases n - j,
{
    if j < n {
        lemma_switch_conflict_sticks(t, refs, j, n - 1);
    }
}

proof fn lemma_no_deps_conflict(ds: Seq<DepsView>, k: int)
    ensures
        deps_conflict(ds, Seq::empty(), k) is None,
    decreases k,
{
    if k > 0 {
        lemma_no_deps_conflict(ds, k - 1);
    }
}

proof fn lemma_no_switch_conflict(t: crate::model::TopologyView, refs: Seq<ListenerCapView>, k: int)
    requires
        refs.len() == 0,
    ensures
        switch_conflict(t, refs, k) is None,
    decreases k,
{
    if k > 0 {
        lemma_no_switch_conflict(t, refs, k - 1);
        assert(refs =~= Seq::<ListenerCapView>::empty());
        if let Ok(d) = crate::derive::derivation(t, t.servers[k - 1].id) {
            lemma_no_deps_conflict(d.forwardings, d.forwardings.len() as int);
        }
    }
}

} // verus!
