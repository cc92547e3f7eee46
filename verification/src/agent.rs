//! The worker-facing side of the orchestrator: who is calling, the per-server watch
//! state that tells a worker's stream when to fetch a new revision or give way to a
//! newer registration, the steps a watch session takes from its claim to its end,
//! and the decisions of registering, authenticating and acknowledging.

use crate::node_edits::{OrchestrationError, RefusalView};
use vstd::prelude::*;

verus! {

/// Account roles.
#[derive(Debug, Clone, Copy, PartialEq, Eq, Structural)]
pub enum AccountRole {
    Admin,
    Maintainer,
    Observer,
}

/// An account row.
#[derive(Debug)]
pub struct AccountEntity {
    pub id: String,
    pub email: String,
    pub password_hash: String,
    pub role: AccountRole,
}

/// How an identity was established.
#[derive(Debug, Clone, Copy, PartialEq, Eq, Structural)]
pub enum IdentityKind {
    /// A human logged in with email and password, carrying a session.
    Session,
    /// A machine presenting an API key secret.
    ApiKey,
}

/// An authenticated caller: which account, its current role, and how it proved its
/// identity.
#[derive(Debug)]
pub struct Identity {
    pub account_id: String,
    pub role: AccountRole,
    pub kind: IdentityKind,
}

impl Identity {
    /// Requires a human session (for self-service operations such as changing one's
    /// own password or email).
    pub fn require_human(&self) -> (r: Result<(), OrchestrationError>)
        ensures
            r is Ok <==> self.kind == IdentityKind::Session,
            r matches Err(e) ==> e@ == RefusalView::PermissionDenied,
    {
        if self.kind == IdentityKind::Session {
            Ok(())
        } else {
            Err(OrchestrationError::PermissionDenied)
        }
    }

    /// Whether this caller may force operations that skip validation.
    pub fn is_admin(&self) -> (r: bool)
        ensures
            r == (self.role == AccountRole::Admin),
    {
        self.role == AccountRole::Admin
    }
}

/// Tunable authentication settings.
#[derive(Debug)]
pub struct AuthConfig {
    /// How long a session may sit idle before it is treated as expired, in seconds.
    pub session_idle_ttl_secs: i64,
}

impl Default for AuthConfig {
    fn default() -> (r: AuthConfig)
        ensures
            r.session_idle_ttl_secs == 7 * 24 * 3600,
    {
        AuthConfig { session_idle_ttl_secs: 7 * 24 * 3600 }
    }
}

/// A worker session, as its refresh key authenticated it.
#[derive(Debug)]
pub struct AgentIdentity {
    pub server: String,
    pub generation: i64,
}

/// A worker registering for a server, reporting the revision it runs (0 for none).
#[derive(Debug)]
pub struct RegisterWorker {
    pub actor: Identity,
    pub server_id: String,
    pub running_revision: i64,
}

/// A worker presenting its refresh key.
#[derive(Debug)]
pub struct AuthenticateRefreshKey {
    pub secret: String,
}

/// A worker reporting the outcome of applying a revision.
#[derive(Debug)]
pub struct AckConfig {
    pub agent: AgentIdentity,
    pub revision: i64,
    pub error: Option<String>,
}

/// The digest under which a refresh key is stored and looked up.
pub fn refresh_key_digest(input: &AuthenticateRefreshKey) -> (r: String)
    ensures
        r@ == crate::token::hex_bytes(crate::token::sha256_of(vstd::utf8::encode_utf8(input.secret@))),
{
    crate::token::sha256_hex(input.secret.as_str())
}

// ---------------------------------------------------------------------------
// Acknowledgements.
// ---------------------------------------------------------------------------

/// What registering a worker does about the revision it reports running.
#[derive(Debug)]
pub enum RunningRevision {
    /// It runs nothing yet.
    Nothing,
    /// A revision the store knows: mark it applied and prune older ones.
    Applied(i64),
    /// A revision the store does not know: record the error.
    Unknown(String),
}

pub open spec fn unknown_revision_message(rev: i64) -> Seq<char> {
    "running revision "@ + crate::text::int_text(rev as int) + " unknown"@
}

/// Decides what a registration reports about the running revision, `known` telling
/// whether the store has that revision.
pub fn running_revision_outcome(input: &RegisterWorker, known: bool) -> (r: RunningRevision)
    ensures
        input.running_revision <= 0 ==> r is Nothing,
        input.running_revision > 0 && known ==> r == RunningRevision::Applied(input.running_revision),
        input.running_revision > 0 && !known ==> (r matches RunningRevision::Unknown(m) && m@
            == unknown_revision_message(input.running_revision)),
{
    if input.running_revision <= 0 {
        return RunningRevision::Nothing;
    }
    if known {
        RunningRevision::Applied(input.running_revision)
    } else {
        let mut m = String::new();
        crate::text::push_str(&mut m, "running revision ");
        crate::text::push_int(&mut m, input.running_revision);
        crate::text::push_str(&mut m, " unknown");
        assert(m@ =~= unknown_revision_message(input.running_revision));
        RunningRevision::Unknown(m)
    }
}

/// What an acknowledgement leads to.
#[derive(Debug)]
pub enum AckAction {
    /// Record that applying failed.
    RecordError(String),
    /// Mark the revision applied (once the store confirms it knows it) and prune
    /// older ones.
    MarkApplied(i64),
}

/// Decides an acknowledgement from a worker whose server's current refresh-key
/// generation is `generation`: a stale session is refused.
pub fn ack_action(input: AckConfig, generation: i64) -> (r: Result<AckAction, OrchestrationError>)
    ensures
        generation != input.agent.generation ==> (r matches Err(e) && e@ == RefusalView::PermissionDenied),
        generation == input.agent.generation ==> match input.error {
            Some(m) => r matches Ok(AckAction::RecordError(x)) && x@ == m@,
            None => r matches Ok(AckAction::MarkApplied(v)) && v == input.revision,
        },
{
    if generation != input.agent.generation {
        return Err(OrchestrationError::PermissionDenied);
    }
    match input.error {
        Some(m) => Ok(AckAction::RecordError(m)),
        None => Ok(AckAction::MarkApplied(input.revision)),
    }
}

// ---------------------------------------------------------------------------
// Watching a server.
// ---------------------------------------------------------------------------

/// What a worker's stream is told.
#[derive(Debug, Clone, Copy, PartialEq, Eq, Structural)]
pub enum AgentSignal {
    /// A new desired revision.
    Revision(i64),
    /// Another registration superseded the refresh key this stream authenticated with.
    Superseded,
}

/// The watch state of a server as the store holds it.
#[derive(Debug)]
pub struct ServerWatchState {
    pub id: String,
    pub desired_revision: i64,
    pub refresh_key_generation: i64,
}

/// What the hub keeps per watched server: how many streams listen, the newest
/// revision announced, and the refresh-key generation the streams belong to.
#[derive(Debug, Clone, Copy, PartialEq, Eq, Structural)]
pub struct WatchEntry {
    pub subscribers: usize,
    pub last_revision: i64,
    pub generation: i64,
}

impl WatchEntry {
    /// The entry after one more stream subscribes with `generation`, having seen
    /// `last_revision`; a server nobody watched yet starts from these.
    pub fn subscribe(entry: Option<WatchEntry>, generation: i64, last_revision: i64) -> (r: WatchEntry)
        ensures
            r.generation == generation,
            match entry {
                Some(e) => r.subscribers == (if e.subscribers == usize::MAX {
                    usize::MAX as int
                } else {
                    e.subscribers + 1
                }) && r.last_revision == (if e.last_revision >= last_revision {
                    e.last_revision
                } else {
                    last_revision
                }),
                None => r.subscribers == 1 && r.last_revision == last_revision,
            },
    {
        let e = match entry {
            Some(e) => e,
            None => WatchEntry { subscribers: 0, last_revision, generation },
        };
        WatchEntry {
            subscribers: e.subscribers.saturating_add(1),
            generation,
            last_revision: if e.last_revision >= last_revision {
                e.last_revision
            } else {
                last_revision
            },
        }
    }

    /// One stream goes away; whether the entry is then unused and dropped.
    pub fn unsubscribe(&mut self) -> (gone: bool)
        ensures
            final(self).subscribers == (if old(self).subscribers == 0 {
                0
            } else {
                old(self).subscribers - 1
            }),
            final(self).last_revision == old(self).last_revision,
            final(self).generation == old(self).generation,
            gone == (final(self).subscribers == 0),
    {
        self.subscribers = self.subscribers.saturating_sub(1);
        self.subscribers == 0
    }

    /// A registration in this process with `generation`: streams of an older
    /// generation are told they are superseded.
    pub fn supersede(&mut self, generation: i64) -> (r: Option<AgentSignal>)
        ensures
            old(self).generation < generation ==> r == Some(AgentSignal::Superseded) && *final(self) == (
            WatchEntry { generation, ..*old(self) }),
            old(self).generation >= generation ==> r is None && *final(self) == *old(self),
    {
        if self.generation < generation {
            self.generation = generation;
            Some(AgentSignal::Superseded)
        } else {
            None
        }
    }

    /// What the store reports for the server: a new refresh-key generation
    /// supersedes the streams; otherwise a newer desired revision is announced.
    pub fn publish(&mut self, state: &ServerWatchState) -> (r: Option<AgentSignal>)
        ensures
            state.refresh_key_generation != old(self).generation ==> r == Some(AgentSignal::Superseded)
                && *final(self) == (WatchEntry { generation: state.refresh_key_generation, ..*old(self) }),
            state.refresh_key_generation == old(self).generation && state.desired_revision > old(
                self,
            ).last_revision ==> r == Some(AgentSignal::Revision(state.desired_revision)) && *final(self) == (
            WatchEntry { last_revision: state.desired_revision, ..*old(self) }),
            state.refresh_key_generation == old(self).generation && state.desired_revision <= old(
                self,
            ).last_revision ==> r is None && *final(self) == *old(self),
    {
        if state.refresh_key_generation != self.generation {
            self.generation = state.refresh_key_generation;
            return Some(AgentSignal::Superseded);
        }
        if state.desired_revision > self.last_revision {
            self.last_revision = state.desired_revision;
            return Some(AgentSignal::Revision(state.desired_revision));
        }
        None
    }
}

/// A stream never hears of an older revision: the last revision of a watch entry
/// never decreases, and a revision is announced only when it is newer than every one
/// announced before.
pub proof fn watch_revisions_only_move_forward(e: WatchEntry, state_rev: i64, state_gen: i64, sub_gen: i64, sub_rev: i64)
    ensures
        ({
            let after = if state_gen != e.generation {
                WatchEntry { generation: state_gen, ..e }
            } else if state_rev > e.last_revision {
                WatchEntry { last_revision: state_rev, ..e }
            } else {
                e
            };
            after.last_revision >= e.last_revision
        }),
        ({
            let s = if e.last_revision >= sub_rev {
                e.last_revision
            } else {
                sub_rev
            };
            s >= e.last_revision && s >= sub_rev
        }),
{
}

// ---------------------------------------------------------------------------
// A watch session.
// ---------------------------------------------------------------------------

/// Which claim of a server's watch session a stream holds: the refresh-key
/// generation it authenticated with and the epoch of its claim.
#[derive(Debug, Clone, Copy, PartialEq, Eq, Structural)]
pub struct WatchFence {
    pub generation: i64,
    pub epoch: i64,
}

/// Why a watch stream ends with an error.
#[derive(Debug, Clone, Copy, PartialEq, Eq, Structural)]
pub enum WatchEnd {
    /// A new registration rotated the refresh key (the worker restarted, or an
    /// impostor registered): unauthenticated.
    KeySuperseded,
    /// A newer stream of the same generation claimed the session: aborted.
    TakenOver,
    /// The session's lease could not be renewed: aborted.
    LeaseLost,
}

/// The text the stream ends with.
pub open spec fn watch_end_message(e: WatchEnd) -> Seq<char> {
    match e {
        WatchEnd::KeySuperseded => "refresh key superseded"@,
        WatchEnd::TakenOver => "a newer watch session took over"@,
        WatchEnd::LeaseLost => "watch session lease lost"@,
    }
}

impl WatchEnd {
    /// Whether the end is reported as unauthenticated (otherwise it is aborted).
    pub fn is_unauthenticated(&self) -> (r: bool)
        ensures
            r == (*self == WatchEnd::KeySuperseded),
    {
        match self {
            WatchEnd::KeySuperseded => true,
            _ => false,
        }
    }

    /// The message of the status the stream ends with.
    pub fn message(&self) -> (r: String)
        ensures
            r@ == watch_end_message(*self),
    {
        match self {
            WatchEnd::KeySuperseded => String::from_str("refresh key superseded"),
            WatchEnd::TakenOver => String::from_str("a newer watch session took over"),
            WatchEnd::LeaseLost => String::from_str("watch session lease lost"),
        }
    }
}

/// The status a session ends with when it finds `current` in place of its own fence.
pub open spec fn fenced_status_spec(mine: WatchFence, current: WatchFence) -> WatchEnd {
    if current.generation != mine.generation {
        WatchEnd::KeySuperseded
    } else {
        WatchEnd::TakenOver
    }
}

/// Why a stream lost its fence: a new registration when the generation moved,
/// otherwise a newer stream of the same generation.
pub fn fenced_status(mine: WatchFence, current: WatchFence) -> (r: WatchEnd)
    ensures
        r == fenced_status_spec(mine, current),
{
    if current.generation != mine.generation {
        WatchEnd::KeySuperseded
    } else {
        WatchEnd::TakenOver
    }
}

/// Where a watch session stands.
#[derive(Debug, Clone, Copy, PartialEq, Eq, Structural)]
pub enum WatchStep {
    /// The session is claimed and subscribed; nothing was sent yet.
    Starting,
    /// Waiting for the next signal, heartbeat or hang-up.
    Streaming,
    /// The signals lagged; waiting for the server's row to be read again.
    Rereading,
    /// The stream is over.
    Ended,
}

/// What happened to a watch session.
#[derive(Debug, Clone, Copy, PartialEq, Eq, Structural)]
pub enum WatchEvent {
    /// The session opened: the desired revision of the claimed row, and the newest
    /// revision the hub has announced.
    Opened { row_desired: i64, hub_last: i64 },
    /// The hub announced a revision.
    Revision(i64),
    /// The hub reports the fence the server's session now has.
    Fenced(WatchFence),
    /// Signals were dropped because the stream fell behind.
    Lagged,
    /// The server's row, read again: its fence and its desired revision.
    RowRead { fence: WatchFence, desired_revision: i64 },
    /// A heartbeat: whether the lease was renewed.
    Heartbeat { renewed: bool },
    /// The worker hung up, a send failed, or the hub closed the signals.
    Closed,
}

/// What the session does next.
#[derive(Debug, Clone, Copy, PartialEq, Eq, Structural)]
pub enum WatchAction {
    /// Send the config of this revision, if there is one to send.
    Send(i64),
    /// Read the server's row again.
    ReadRow,
    /// Wait for the next event.
    Wait,
    /// Release the lease and end the stream, with this error if there is one.
    End(Option<WatchEnd>),
}

/// The next state and action of a session holding `fence`. Events that cannot
/// arrive in a state leave it as it is.
pub open spec fn watch_next(fence: WatchFence, state: WatchStep, event: WatchEvent) -> (
    WatchStep,
    WatchAction,
) {
    match state {
        WatchStep::Ended => (WatchStep::Ended, WatchAction::Wait),
        _ => match event {
            WatchEvent::Closed => (WatchStep::Ended, WatchAction::End(None)),
            WatchEvent::Opened { row_desired, hub_last } => if state == WatchStep::Starting {
                (
                    WatchStep::Streaming,
                    WatchAction::Send(if row_desired >= hub_last { row_desired } else { hub_last }),
                )
            } else {
                (state, WatchAction::Wait)
            },
            WatchEvent::Revision(rev) => if state == WatchStep::Streaming {
                (WatchStep::Streaming, WatchAction::Send(rev))
            } else {
                (state, WatchAction::Wait)
            },
            WatchEvent::Fenced(current) => if state == WatchStep::Streaming && current != fence {
                (
                    WatchStep::Ended,
                    WatchAction::End(Some(fenced_status_spec(fence, current))),
                )
            } else {
                (state, WatchAction::Wait)
            },
            WatchEvent::Lagged => if state == WatchStep::Streaming {
                (WatchStep::Rereading, WatchAction::ReadRow)
            } else {
                (state, WatchAction::Wait)
            },
            WatchEvent::RowRead { fence: current, desired_revision } => if state
                == WatchStep::Rereading {
                if current != fence {
                    (
                        WatchStep::Ended,
                        WatchAction::End(Some(fenced_status_spec(fence, current))),
                    )
                } else {
                    (WatchStep::Streaming, WatchAction::Send(desired_revision))
                }
            } else {
                (state, WatchAction::Wait)
            },
            WatchEvent::Heartbeat { renewed } => if state == WatchStep::Streaming && !renewed {
                (WatchStep::Ended, WatchAction::End(Some(WatchEnd::LeaseLost)))
            } else {
                (state, WatchAction::Wait)
            },
        },
    }
}

/// One step of a watch session holding `fence`: the first revision sent is the
/// newer of the claimed row's and the hub's; announced revisions are sent on; a
/// fence other than the session's own ends the stream with the fenced status; after
/// a lag the row is read again, and a moved fence ends the stream while otherwise
/// the row's desired revision is sent; a lease that could not be renewed ends the
/// stream; a hang-up ends it without an error.
pub fn watch_step(fence: WatchFence, state: WatchStep, event: WatchEvent) -> (r: (
    WatchStep,
    WatchAction,
))
    ensures
        r == watch_next(fence, state, event),
        state == WatchStep::Starting ==> (event matches WatchEvent::Opened { row_desired, hub_last }
            ==> r == (WatchStep::Streaming, WatchAction::Send(
            if row_desired >= hub_last {
                row_desired
            } else {
                hub_last
            },
        ))),
        state == WatchStep::Streaming ==> (event matches WatchEvent::Fenced(current) ==> (current
            != fence ==> r == (WatchStep::Ended, WatchAction::End(Some(fenced_status_spec(fence, current)))))
            && (current == fence ==> r == (WatchStep::Streaming, WatchAction::Wait))),
        state == WatchStep::Streaming && event == WatchEvent::Lagged ==> r == (
            WatchStep::Rereading,
            WatchAction::ReadRow,
        ),
        state == WatchStep::Rereading ==> (event matches WatchEvent::RowRead {
            fence: current,
            desired_revision,
        } ==> (current != fence ==> r == (WatchStep::Ended, WatchAction::End(Some(fenced_status_spec(fence, current)))))
            && (current == fence ==> r == (WatchStep::Streaming, WatchAction::Send(desired_revision)))),
{
    match state {
        WatchStep::Ended => (WatchStep::Ended, WatchAction::Wait),
        _ => match event {
            WatchEvent::Closed => (WatchStep::Ended, WatchAction::End(None)),
            WatchEvent::Opened { row_desired, hub_last } => {
                if state == WatchStep::Starting {
                    let first = if row_desired >= hub_last {
                        row_desired
                    } else {
                        hub_last
                    };
                    (WatchStep::Streaming, WatchAction::Send(first))
                } else {
                    (state, WatchAction::Wait)
                }
            },
            WatchEvent::Revision(rev) => {
                if state == WatchStep::Streaming {
                    (WatchStep::Streaming, WatchAction::Send(rev))
                } else {
                    (state, WatchAction::Wait)
                }
            },
            WatchEvent::Fenced(current) => {
                if state == WatchStep::Streaming && current != fence {
                    (WatchStep::Ended, WatchAction::End(Some(fenced_status(fence, current))))
                } else {
                    (state, WatchAction::Wait)
                }
            },
            WatchEvent::Lagged => {
                if state == WatchStep::Streaming {
                    (WatchStep::Rereading, WatchAction::ReadRow)
                } else {
                    (state, WatchAction::Wait)
                }
            },
            WatchEvent::RowRead { fence: current, desired_revision } => {
                if state == WatchStep::Rereading {
                    if current != fence {
                        (WatchStep::Ended, WatchAction::End(Some(fenced_status(fence, current))))
                    } else {
                        (WatchStep::Streaming, WatchAction::Send(desired_revision))
                    }
                } else {
                    (state, WatchAction::Wait)
                }
            },
            WatchEvent::Heartbeat { renewed } => {
                if state == WatchStep::Streaming && !renewed {
                    (WatchStep::Ended, WatchAction::End(Some(WatchEnd::LeaseLost)))
                } else {
                    (state, WatchAction::Wait)
                }
            },
        },
    }
}

/// Which revision to fall back on when the config of `revision` is not stored (or
/// `revision` is not positive), given the desired revision of the server's row:
/// none when the row wants nothing yet or wants that very revision.
pub fn resolve_fallback(revision: i64, row_desired: i64) -> (r: Option<i64>)
    ensures
        r == (if row_desired == 0 || row_desired == revision {
            None
        } else {
            Some(row_desired)
        }),
{
    if row_desired == 0 || row_desired == revision {
        None
    } else {
        Some(row_desired)
    }
}

/// A session that ended stays ended and does nothing more, and a session is never
/// ended by a signal that carries its own fence.
pub proof fn watch_sessions_end_for_good(fence: WatchFence, state: WatchStep, event: WatchEvent)
    ensures
        watch_next(fence, WatchStep::Ended, event) == (WatchStep::Ended, WatchAction::Wait),
        watch_next(fence, state, WatchEvent::Fenced(fence)).0 == state,
        watch_next(fence, state, WatchEvent::Fenced(fence)).1 == WatchAction::Wait,
        watch_next(fence, state, event).1 is End ==> watch_next(fence, state, event).0
            == WatchStep::Ended,
{
}

// ---------------------------------------------------------------------------
// Other records.
// ---------------------------------------------------------------------------

/// How a server's worker is doing.
#[derive(Debug, Clone, Copy, PartialEq, Eq, Structural)]
pub enum ServerHealthStatus {
    /// Online and healthy.
    Online,
    /// It failed to apply the latest configuration.
    Degraded,
    /// Offline, or unable to reach the master.
    Offline,
}

/// How a node is doing on its server.
#[derive(Debug, Clone, Copy, PartialEq, Eq, Structural)]
pub enum NodeHealthStatus {
    /// Applied and healthy.
    Ready,
    /// Waiting for the server to take the new config.
    Deploying,
    /// The server failed to apply it.
    Failed,
}

/// A DNS provider that proves domains for certificates.
#[derive(Debug, Clone, Copy, PartialEq, Eq, Structural)]
pub enum DnsProvider {
    Cloudflare,
    Vercel,
}

#[derive(Debug)]
pub struct DnsProviderEntity {
    pub id: String,
    pub provider: DnsProvider,
    pub account_id: String,
    pub api_secret: String,
}

} // verus!
