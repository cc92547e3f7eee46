//! One server's slot in a derivation pass: derive, converge and validate its config,
//! then stamp a new desired revision only when the config text changed.

use crate::converge::{
    converge, convergence, pairs_view, protocol_name, protocol_name_exec, states_view, ConfigSnapshot,
    ConvergeError, ConvergeErrorView, Converged, ConvergedView, ServerConfigViewEntity, SnapshotView,
    StoredConfigs,
};
use crate::derive::{deps_view, derivation, derive_message, derive_server_config, invalid_view, InvalidPod};
use crate::model::CanvasTopology;
use crate::text::{int_text, push_int, push_str};
use crate::topology::strs;
use crate::worker_config::config_message;
use vstd::prelude::*;

verus! {

/// Why convergence failed, in words.
pub open spec fn converge_message(e: ConvergeErrorView) -> Seq<char> {
    match e {
        ConvergeErrorView::ListenerConflict { ip, port, old, new } => "listener "@ + ip + ":"@ + int_text(
            port as int,
        ) + " is still referenced as "@ + protocol_name(old) + " and cannot become "@ + protocol_name(new)
            + "; change the port"@,
        ConvergeErrorView::Snapshot(c) => "stored snapshot is not valid TOML: "@ + config_message(c),
    }
}

impl ConvergeError {
    /// What went wrong, in words.
    pub fn message(&self) -> (r: String)
        ensures
            r@ == converge_message(self@),
    {
        let mut m = String::new();
        match self {
            ConvergeError::ListenerConflict { ip, port, old, new } => {
                push_str(&mut m, "listener ");
                push_str(&mut m, ip.as_str());
                push_str(&mut m, ":");
                push_int(&mut m, *port);
                push_str(&mut m, " is still referenced as ");
                push_str(&mut m, protocol_name_exec(*old));
                push_str(&mut m, " and cannot become ");
                push_str(&mut m, protocol_name_exec(*new));
                push_str(&mut m, "; change the port");
            },
            ConvergeError::Snapshot(c) => {
                push_str(&mut m, "stored snapshot is not valid TOML: ");
                let t = c.message();
                push_str(&mut m, t.as_str());
            },
        }
        assert(m@ =~= converge_message(self@));
        m
    }
}

/// What a derivation pass offers server `server`: its ideal config converged with
/// what the fabric runs and validated, or why the server fails as a whole.
pub open spec fn offered(
    t: crate::model::TopologyView,
    server: Seq<char>,
    own: crate::converge::ServerStateView,
    views: Seq<crate::converge::ServerStateView>,
    pairs: Seq<(Seq<char>, Seq<char>)>,
    c: crate::converge::StoredView,
) -> Result<ConvergedView, Seq<char>> {
    match derivation(t, server) {
        Err(e) => Err(derive_message(e)),
        Ok(d) => match convergence(d, own, views, pairs, c) {
            Err(e) => Err(converge_message(e)),
            Ok(cv) => match cv.config.validation() {
                Some(e) => Err(config_message(e)),
                None => Ok(cv),
            },
        },
    }
}

/// Derives, converges and validates `server`'s config; `own` is its view row,
/// `views` every server's, `server_of_ip` maps ip texts to servers and `stored`
/// holds `own`'s snapshots read as configs.
pub fn offer(
    t: &CanvasTopology,
    server: &String,
    own: &ServerConfigViewEntity,
    views: &Vec<ServerConfigViewEntity>,
    server_of_ip: &Vec<(String, String)>,
    stored: &StoredConfigs,
) -> (r: Result<Converged, String>)
    ensures
        match offered(t@, server@, own@, states_view(views@), pairs_view(server_of_ip@), stored@) {
            Ok(v) => r matches Ok(x) && x@ == v,
            Err(m) => r matches Err(x) && x@ == m,
        },
{
    let ideal = match derive_server_config(t, server) {
        Ok(d) => d,
        Err(e) => return Err(e.message()),
    };
    let converged = match converge(ideal, own, views, server_of_ip, stored) {
        Ok(c) => c,
        Err(e) => return Err(e.message()),
    };
    match converged.config.validate() {
        Ok(()) => Ok(converged),
        Err(e) => Err(e.message()),
    }
}

/// What a derivation pass writes for one server.
#[derive(Debug)]
pub struct ViewUpdate {
    pub server: String,
    /// A new desired snapshot, when the config changed.
    pub desired: Option<ConfigSnapshot>,
    /// Why the whole server failed to derive.
    pub derive_error: Option<String>,
    pub invalid_pods: Vec<InvalidPod>,
    pub waiting_for: Vec<String>,
    /// Whether an earlier failure is cleared.
    pub clear_failure: bool,
}

/// The slot of a server that failed as a whole: nothing is stamped and the reason is
/// recorded.
pub fn failed_update(server: String, error: String) -> (r: ViewUpdate)
    ensures
        r.server@ == server@,
        r.desired is None,
        r.derive_error matches Some(m) && m@ == error@,
        r.invalid_pods@.len() == 0,
        r.waiting_for@.len() == 0,
        !r.clear_failure,
{
    ViewUpdate {
        server,
        desired: None,
        derive_error: Some(error),
        invalid_pods: Vec::new(),
        waiting_for: Vec::new(),
        clear_failure: false,
    }
}

/// The revision after `own`'s desired one (0 when it has none), saturating.
pub open spec fn next_revision(own: crate::converge::ServerStateView) -> i64 {
    let prev = match own.desired {
        Some(s) => s.revision,
        None => 0,
    };
    if prev == i64::MAX {
        prev
    } else {
        (prev + 1) as i64
    }
}

/// Whether `toml` is the text `own` is already being rolled out.
pub open spec fn same_text(own: crate::converge::ServerStateView, toml: Seq<char>) -> bool {
    own.desired matches Some(s) && s.toml == toml
}

/// The slot of a server whose converged config `converged` renders as `toml`, at
/// `now` (milliseconds since the Unix epoch). A text byte-identical to the one
/// already being rolled out gets no new revision, so the worker is never restarted
/// for an edit that does not concern it; the pod report lands either way.
pub fn stamped_update(server: String, own: &ServerConfigViewEntity, converged: Converged, toml: String, now: i64) -> (r:
    ViewUpdate)
    ensures
        r.server@ == server@,
        r.derive_error is None,
        invalid_view(r.invalid_pods@) == converged@.invalid,
        strs(r.waiting_for) == converged@.waiting_for,
        same_text(own@, toml@) ==> r.desired is None && !r.clear_failure,
        !same_text(own@, toml@) ==> r.clear_failure && (r.desired matches Some(d) && d@ == (SnapshotView {
            revision: next_revision(own@),
            toml: toml@,
            created_at: now,
            forwardings: converged@.forwardings,
        })),
{
    let same = match &own.desired {
        Some(s) => crate::text::string_eq(&s.toml, &toml),
        None => false,
    };
    if same {
        return ViewUpdate {
            server,
            desired: None,
            derive_error: None,
            invalid_pods: converged.invalid,
            waiting_for: converged.waiting_for,
            clear_failure: false,
        };
    }
    let prev: i64 = match &own.desired {
        Some(s) => s.revision,
        None => 0,
    };
    let revision: i64 = if prev == i64::MAX {
        prev
    } else {
        prev + 1
    };
    ViewUpdate {
        server,
        desired: Some(ConfigSnapshot { revision, toml, created_at: now, forwardings: converged.forwardings }),
        derive_error: None,
        invalid_pods: converged.invalid,
        waiting_for: converged.waiting_for,
        clear_failure: true,
    }
}

/// A new desired revision is never older than the one it replaces: it is the next
/// one, or the same at the very top of the range.
pub proof fn stamped_revisions_move_forward(own: crate::converge::ServerStateView)
    ensures
        match own.desired {
            Some(s) => next_revision(own) >= s.revision && (s.revision < i64::MAX ==> next_revision(own) > s.revision),
            None => next_revision(own) == 1,
        },
{
}

// ---------------------------------------------------------------------------
// Snapshot promotion.
// ---------------------------------------------------------------------------

fn duplicate_deps(v: &Vec<crate::derive::ForwardingDeps>) -> (r: Vec<crate::derive::ForwardingDeps>)
    ensures
        deps_view(r@) == deps_view(v@),
{
    let mut out: Vec<crate::derive::ForwardingDeps> = Vec::new();
    let mut i: usize = 0;
    while i < v.len()
        invariant
            i <= v.len(),
            deps_view(out@) == deps_view(v@).subrange(0, i as int),
        decreases v.len() - i,
    {
        let ghost prev = deps_view(out@);
        out.push(v[i].duplicate());
        assert(deps_view(out@) =~= prev.push(v@[i as int]@));
        i = i + 1;
    }
    assert(deps_view(v@).subrange(0, v.len() as int) =~= deps_view(v@));
    out
}

impl ConfigSnapshot {
    /// A copy of this snapshot.
    pub fn duplicate(&self) -> (r: ConfigSnapshot)
        ensures
            r@ == self@,
    {
        ConfigSnapshot {
            revision: self.revision,
            toml: self.toml.clone(),
            created_at: self.created_at,
            forwardings: duplicate_deps(&self.forwardings),
        }
    }
}

impl ServerConfigViewEntity {
    /// A worker stream hands the desired snapshot over: it is now in flight.
    pub fn promote_desired(&mut self)
        ensures
            final(self)@.in_flight == old(self)@.desired,
            final(self)@.desired == old(self)@.desired,
            final(self)@.applied == old(self)@.applied,
            final(self)@.server == old(self)@.server,
    {
        self.in_flight = match &self.desired {
            Some(s) => Some(s.duplicate()),
            None => None,
        };
    }

    /// The worker acknowledged applying revision `revision`: the in-flight snapshot of
    /// that revision is now applied. Whether it was promoted is returned; an
    /// acknowledgement of another revision changes nothing.
    pub fn promote_in_flight(&mut self, revision: i64) -> (promoted: bool)
        ensures
            promoted == (old(self)@.in_flight matches Some(s) && s.revision == revision),
            promoted ==> final(self)@.applied == old(self)@.in_flight,
            !promoted ==> final(self)@.applied == old(self)@.applied,
            final(self)@.desired == old(self)@.desired,
            final(self)@.in_flight == old(self)@.in_flight,
            final(self)@.server == old(self)@.server,
    {
        let copy = match &self.in_flight {
            Some(s) => if s.revision == revision {
                Some(s.duplicate())
            } else {
                None
            },
            None => None,
        };
        match copy {
            Some(c) => {
                self.applied = Some(c);
                true
            },
            None => false,
        }
    }
}

} // verus!
