//! The worker's decisions: which resolved address to dial, which load-balance member
//! to pick, and how a new config changes the set of running listeners.

use crate::net::SocketAddr;
use crate::worker_config::{Config, ForwardingView, Ipv6Resolve, LoadBalanceStrategy, Transport};
use vstd::prelude::*;

verus! {

pub open spec fn is_v4(a: SocketAddr) -> bool {
    a is V4
}

/// The first address of `addrs` of the wanted family.
pub open spec fn first_of(addrs: Seq<SocketAddr>, v4: bool) -> Option<SocketAddr> {
    match crate::seqs::first_where(addrs, |a: SocketAddr| is_v4(a) == v4) {
        Some(i) => Some(addrs[i]),
        None => None,
    }
}

/// The address a resolution gives under the IPv6 policy `mode`: the first IPv6 or
/// IPv4 address, as the policy orders the families, or none when the policy cannot be
/// met.
pub open spec fn spec_select_addr(addrs: Seq<SocketAddr>, mode: Ipv6Resolve) -> Option<SocketAddr> {
    let v4 = first_of(addrs, true);
    let v6 = first_of(addrs, false);
    match mode {
        Ipv6Resolve::Required => v6,
        Ipv6Resolve::Preferred => if v6 is Some {
            v6
        } else {
            v4
        },
        Ipv6Resolve::Tolerated => if v4 is Some {
            v4
        } else {
            v6
        },
        Ipv6Resolve::Forbidden => v4,
    }
}

/// Picks one address of a resolver's answer according to `mode`; `None` when the
/// policy cannot be satisfied, which the caller reports as a resolution failure.
pub fn select_addr(addrs: &Vec<SocketAddr>, mode: Ipv6Resolve) -> (r: Option<SocketAddr>)
    ensures
        r == spec_select_addr(addrs@, mode),
{
    let ghost p4 = |a: SocketAddr| is_v4(a) == true;
    let ghost p6 = |a: SocketAddr| is_v4(a) == false;
    let mut first_v4: Option<usize> = None;
    let mut first_v6: Option<usize> = None;
    let mut i: usize = 0;
    while i < addrs.len()
        invariant
            i <= addrs.len(),
            p4 == (|a: SocketAddr| is_v4(a) == true),
            p6 == (|a: SocketAddr| is_v4(a) == false),
            match first_v4 {
                Some(k) => k < i && crate::seqs::first_where(addrs@, p4) == Some(k as int),
                None => forall|z: int| 0 <= z < i ==> !p4(#[trigger] addrs@[z]),
            },
            match first_v6 {
                Some(k) => k < i && crate::seqs::first_where(addrs@, p6) == Some(k as int),
                None => forall|z: int| 0 <= z < i ==> !p6(#[trigger] addrs@[z]),
            },
        ensures
            i <= addrs.len(),
            match first_v4 {
                Some(k) => k < i && crate::seqs::first_where(addrs@, p4) == Some(k as int),
                None => forall|z: int| 0 <= z < i ==> !p4(#[trigger] addrs@[z]),
            },
            match first_v6 {
                Some(k) => k < i && crate::seqs::first_where(addrs@, p6) == Some(k as int),
                None => forall|z: int| 0 <= z < i ==> !p6(#[trigger] addrs@[z]),
            },
            (first_v4 is None || first_v6 is None) ==> i == addrs.len(),
        decreases addrs.len() - i,
    {
        if first_v4.is_some() && first_v6.is_some() {
            break;
        }
        match addrs[i] {
            SocketAddr::V4 { .. } => {
                if first_v4.is_none() {
                    proof {
                        crate::seqs::lemma_first_where(addrs@, p4, i as int);
                    }
                    first_v4 = Some(i);
                }
            },
            SocketAddr::V6 { .. } => {
                if first_v6.is_none() {
                    proof {
                        crate::seqs::lemma_first_where(addrs@, p6, i as int);
                    }
                    first_v6 = Some(i);
                }
            },
        }
        i = i + 1;
    }
    proof {
        if first_v4.is_none() {
            crate::seqs::lemma_first_where(addrs@, p4, addrs.len() as int);
        }
        if first_v6.is_none() {
            crate::seqs::lemma_first_where(addrs@, p6, addrs.len() as int);
        }
    }
    let a4 = match first_v4 {
        Some(k) => Some(addrs[k]),
        None => None,
    };
    let a6 = match first_v6 {
        Some(k) => Some(addrs[k]),
        None => None,
    };
    match mode {
        Ipv6Resolve::Required => a6,
        Ipv6Resolve::Preferred => if a6.is_some() {
            a6
        } else {
            a4
        },
        Ipv6Resolve::Tolerated => if a4.is_some() {
            a4
        } else {
            a6
        },
        Ipv6Resolve::Forbidden => a4,
    }
}

/// The message of a resolution that the policy could not satisfy.
pub open spec fn no_records_message(host: Seq<char>, port: u16, mode: Ipv6Resolve) -> Seq<char> {
    "no "@ + (match mode {
        Ipv6Resolve::Required => "IPv6 "@,
        Ipv6Resolve::Forbidden => "IPv4 "@,
        _ => Seq::empty(),
    }) + "DNS records for "@ + host + ":"@ + crate::text::decimal(port as nat)
}

pub fn no_records(host: &String, port: u16, mode: Ipv6Resolve) -> (r: String)
    ensures
        r@ == no_records_message(host@, port, mode),
{
    let mut s = String::new();
    crate::text::push_str(&mut s, "no ");
    match mode {
        Ipv6Resolve::Required => crate::text::push_str(&mut s, "IPv6 "),
        Ipv6Resolve::Forbidden => crate::text::push_str(&mut s, "IPv4 "),
        _ => {},
    }
    crate::text::push_str(&mut s, "DNS records for ");
    crate::text::push_str(&mut s, host.as_str());
    crate::text::push_str(&mut s, ":");
    crate::text::push_decimal(&mut s, port as u128);
    assert(s@ =~= no_records_message(host@, port, mode));
    s
}

// ---------------------------------------------------------------------------
// Load balancing.
// ---------------------------------------------------------------------------

/// One step of the xorshift64 generator.
pub open spec fn xorshift_step(x: u64) -> u64 {
    let a = x ^ (x << 13u64);
    let b = a ^ (a >> 7u64);
    b ^ (b << 17u64)
}

/// Advances the generator state and returns the new value.
pub fn xorshift(state: &mut u64) -> (r: u64)
    ensures
        r == xorshift_step(*old(state)),
        *final(state) == r,
{
    let mut x = *state;
    x = x ^ (x << 13u64);
    x = x ^ (x >> 7u64);
    x = x ^ (x << 17u64);
    *state = x;
    x
}

/// The member a strategy picks among `len` members: by a counter that goes round, by
/// a random number, or by the hash of the client's address. Fallback picks none: it
/// tries every member in order.
pub open spec fn spec_member_index(
    strategy: LoadBalanceStrategy,
    len: usize,
    counter: usize,
    random: u64,
    hash: u64,
) -> Option<usize> {
    if len == 0 {
        None
    } else {
        match strategy {
            LoadBalanceStrategy::RoundRobin => Some((counter % len) as usize),
            LoadBalanceStrategy::Random => Some(((random as usize) % len) as usize),
            LoadBalanceStrategy::IpHash => Some(((hash as usize) % len) as usize),
            LoadBalanceStrategy::Fallback => None,
        }
    }
}

pub fn member_index(strategy: LoadBalanceStrategy, len: usize, counter: usize, random: u64, hash: u64) -> (r: Option<
    usize,
>)
    ensures
        r == spec_member_index(strategy, len, counter, random, hash),
        r matches Some(i) ==> i < len,
{
    if len == 0 {
        return None;
    }
    match strategy {
        LoadBalanceStrategy::RoundRobin => Some(counter % len),
        LoadBalanceStrategy::Random => Some((random as usize) % len),
        LoadBalanceStrategy::IpHash => Some((hash as usize) % len),
        LoadBalanceStrategy::Fallback => None,
    }
}

// ---------------------------------------------------------------------------
// Applying a config.
// ---------------------------------------------------------------------------

/// A forwarding that failed to prepare, named by its tag.
#[derive(Debug)]
pub struct ApplyError {
    pub tag: String,
    pub error: String,
}

/// What applying a config does to the running listeners.
#[derive(Debug)]
pub struct ApplyPlan {
    /// Running listeners the config no longer has: they stop accepting.
    pub remove: Vec<(SocketAddr, Transport)>,
    /// Forwardings (by index) whose listener runs already: it takes the new config.
    pub retain: Vec<usize>,
    /// Forwardings (by index) whose listener is new: it is bound and started.
    pub start: Vec<usize>,
}

/// Forwarding `i` is the last one of `fs` with its listen key, so it is the one
/// the listener takes.
pub open spec fn wins(fs: Seq<ForwardingView>, i: int) -> bool {
    forall|j: int| i < j < fs.len() ==> (#[trigger] fs[j]).listen_key() != fs[i].listen_key()
}

pub open spec fn has_key(fs: Seq<ForwardingView>, k: (SocketAddr, Transport)) -> bool {
    exists|i: int| 0 <= i < fs.len() && (#[trigger] fs[i]).listen_key() == k
}

pub open spec fn idx_seq(v: Seq<usize>) -> Seq<int> {
    v.map_values(|i: usize| i as int)
}

/// The forwardings among the first `n` that win their listener, in order, split by
/// whether their listener runs already.
pub open spec fn winners(fs: Seq<ForwardingView>, running: Seq<(SocketAddr, Transport)>, n: int, runs: bool) -> Seq<
    int,
>
    decreases n,
{
    if n <= 0 {
        Seq::empty()
    } else {
        let prev = winners(fs, running, n - 1, runs);
        if wins(fs, n - 1) && running.contains(fs[n - 1].listen_key()) == runs {
            prev.push(n - 1)
        } else {
            prev
        }
    }
}

proof fn lemma_winners_contains(
    fs: Seq<ForwardingView>,
    running: Seq<(SocketAddr, Transport)>,
    n: int,
    runs: bool,
    i: int,
)
    ensures
        winners(fs, running, n, runs).contains(i) <==> (0 <= i < n && wins(fs, i) && running.contains(
            fs[i].listen_key(),
        ) == runs),
    decreases n,
{
    if n > 0 {
        lemma_winners_contains(fs, running, n - 1, runs, i);
        let prev = winners(fs, running, n - 1, runs);
        if wins(fs, n - 1) && running.contains(fs[n - 1].listen_key()) == runs {
            assert(prev.push(n - 1).contains(i) <==> (prev.contains(i) || i == n - 1)) by {
                if i == n - 1 {
                    assert(prev.push(n - 1)[prev.len() as int] == i);
                }
                if prev.push(n - 1).contains(i) && i != n - 1 {
                    let k = choose|k: int| 0 <= k < prev.push(n - 1).len() && #[trigger] prev.push(n - 1)[k] == i;
                    assert(prev[k] == i);
                }
                if prev.contains(i) {
                    let k = choose|k: int| 0 <= k < prev.len() && #[trigger] prev[k] == i;
                    assert(prev.push(n - 1)[k] == i);
                }
            }
        }
    }
}

/// Applying a config gives every listener exactly one fate: each forwarding that
/// wins its listener is either kept (its listener runs already) or started (it does
/// not), never both; a forwarding that loses its listener to a later one is neither.
pub proof fn apply_plan_gives_each_listener_one_fate(
    fs: Seq<ForwardingView>,
    running: Seq<(SocketAddr, Transport)>,
    i: int,
)
    requires
        0 <= i < fs.len(),
    ensures
        winners(fs, running, fs.len() as int, true).contains(i) <==> (wins(fs, i) && running.contains(
            fs[i].listen_key(),
        )),
        winners(fs, running, fs.len() as int, false).contains(i) <==> (wins(fs, i) && !running.contains(
            fs[i].listen_key(),
        )),
{
    lemma_winners_contains(fs, running, fs.len() as int, true, i);
    lemma_winners_contains(fs, running, fs.len() as int, false, i);
}

/// Applying again what already runs starts nothing: when every listener the config
/// asks for is running, no forwarding is started.
pub proof fn reapplying_starts_nothing(fs: Seq<ForwardingView>, running: Seq<(SocketAddr, Transport)>)
    requires
        forall|i: int| 0 <= i < fs.len() ==> running.contains(#[trigger] fs[i].listen_key()),
    ensures
        winners(fs, running, fs.len() as int, false).len() == 0,
{
    let w = winners(fs, running, fs.len() as int, false);
    if w.len() > 0 {
        lemma_winners_contains(fs, running, fs.len() as int, false, w[0]);
        assert(w.contains(w[0]));
        assert(running.contains(fs[w[0]].listen_key()));
    }
}

/// The listeners that run once a plan for `fs` over `running` is carried out: the
/// running ones it does not stop, then the ones it starts.
pub open spec fn served_after(fs: Seq<ForwardingView>, running: Seq<(SocketAddr, Transport)>) -> Seq<
    (SocketAddr, Transport),
> {
    running.filter(|k: (SocketAddr, Transport)| has_key(fs, k)) + winners(
        fs,
        running,
        fs.len() as int,
        false,
    ).map_values(|i: int| fs[i].listen_key())
}

/// Carrying out the plan leaves exactly the config's listeners running: a running
/// listener the config still asks for is kept, one it no longer asks for stops, and
/// every listener it asks for that did not run is started.
pub proof fn applied_plan_serves_exactly_the_config(
    fs: Seq<ForwardingView>,
    running: Seq<(SocketAddr, Transport)>,
    k: (SocketAddr, Transport),
)
    ensures
        served_after(fs, running).contains(k) <==> has_key(fs, k),
{
    let p = |x: (SocketAddr, Transport)| has_key(fs, x);
    let kept = running.filter(p);
    let w = winners(fs, running, fs.len() as int, false);
    let started = w.map_values(|i: int| fs[i].listen_key());
    let all = served_after(fs, running);
    assert(all == kept + started);
    broadcast use vstd::seq_lib::group_filter_ensures;

    if all.contains(k) {
        let z = choose|z: int| 0 <= z < all.len() && all[z] == k;
        if z < kept.len() {
            assert(kept[z] == k);
            assert(p(kept[z]));
        } else {
            let y = z - kept.len();
            assert(started[y] == k);
            lemma_winners_contains(fs, running, fs.len() as int, false, w[y]);
            assert(w.contains(w[y]));
            assert(fs[w[y]].listen_key() == k);
        }
    }
    if has_key(fs, k) {
        let q = |f: ForwardingView| f.listen_key() == k;
        crate::seqs::lemma_last_where_props(fs, q);
        let i0 = choose|i: int| 0 <= i < fs.len() && (#[trigger] fs[i]).listen_key() == k;
        assert(q(fs[i0]));
        let j = crate::seqs::last_where(fs, q)->0;
        assert(wins(fs, j)) by {
            assert forall|m: int| j < m < fs.len() implies (#[trigger] fs[m]).listen_key() != fs[j].listen_key() by {
                assert(!q(fs[m]));
            }
        }
        if running.contains(k) {
            let z = choose|z: int| 0 <= z < running.len() && running[z] == k;
            assert(kept.contains(k));
            let y = choose|y: int| 0 <= y < kept.len() && kept[y] == k;
            assert(all[y] == k);
        } else {
            lemma_winners_contains(fs, running, fs.len() as int, false, j);
            let y = choose|y: int| 0 <= y < w.len() && w[y] == j;
            assert(started[y] == k);
            assert(all[kept.len() + y] == k);
        }
    }
}

fn key_eq(a: &(SocketAddr, Transport), b: &(SocketAddr, Transport)) -> (r: bool)
    ensures
        r == (*a == *b),
{
    a.0 == b.0 && a.1 == b.1
}

fn running_has(running: &Vec<(SocketAddr, Transport)>, k: &(SocketAddr, Transport)) -> (r: bool)
    ensures
        r == running@.contains(*k),
{
    let mut i: usize = 0;
    while i < running.len()
        invariant
            i <= running.len(),
            forall|z: int| 0 <= z < i ==> running@[z] != *k,
        decreases running.len() - i,
    {
        if key_eq(&running[i], k) {
            return true;
        }
        i = i + 1;
    }
    false
}

/// Plans applying `cfg` while `running` listeners are up: the listeners to stop (in
/// running order), and the forwardings whose listener is kept or started (in config
/// order). Where two forwardings claim one listener, the later one wins.
pub fn plan_apply(running: &Vec<(SocketAddr, Transport)>, cfg: &Config) -> (r: ApplyPlan)
    ensures
        r.remove@ == running@.filter(|k: (SocketAddr, Transport)| !has_key(cfg@.forwardings, k)),
        idx_seq(r.retain@) == winners(cfg@.forwardings, running@, cfg.forwardings.len() as int, true),
        idx_seq(r.start@) == winners(cfg@.forwardings, running@, cfg.forwardings.len() as int, false),
{
    let ghost fs = cfg@.forwardings;
    let mut keys: Vec<(SocketAddr, Transport)> = Vec::new();
    let mut i: usize = 0;
    while i < cfg.forwardings.len()
        invariant
            i <= cfg.forwardings.len(),
            fs == cfg@.forwardings,
            fs.len() == cfg.forwardings.len(),
            keys@.len() == i,
            forall|z: int| 0 <= z < i ==> #[trigger] keys@[z] == fs[z].listen_key(),
        decreases cfg.forwardings.len() - i,
    {
        assert(fs[i as int] == cfg.forwardings@[i as int]@);
        keys.push(cfg.forwardings[i].listen_key());
        i = i + 1;
    }
    let mut retain: Vec<usize> = Vec::new();
    let mut start: Vec<usize> = Vec::new();
    let mut i: usize = 0;
    while i < keys.len()
        invariant
            i <= keys.len(),
            fs == cfg@.forwardings,
            keys@.len() == fs.len(),
            forall|z: int| 0 <= z < keys.len() ==> #[trigger] keys@[z] == fs[z].listen_key(),
            idx_seq(retain@) == winners(fs, running@, i as int, true),
            idx_seq(start@) == winners(fs, running@, i as int, false),
        decreases keys.len() - i,
    {
        let mut later = false;
        let mut j: usize = i + 1;
        while j < keys.len()
            invariant
                i < j <= keys.len(),
                keys@.len() == fs.len(),
                forall|z: int| 0 <= z < keys.len() ==> #[trigger] keys@[z] == fs[z].listen_key(),
                later == exists|z: int| i < z < j && (#[trigger] fs[z]).listen_key() == fs[i as int].listen_key(),
            decreases keys.len() - j,
        {
            if key_eq(&keys[j], &keys[i]) {
                assert(fs[j as int].listen_key() == fs[i as int].listen_key());
                later = true;
            }
            j = j + 1;
        }
        if !later {
            let ghost rv = idx_seq(retain@);
            let ghost sv = idx_seq(start@);
            if running_has(running, &keys[i]) {
                retain.push(i);
                assert(idx_seq(retain@) =~= rv.push(i as int));
            } else {
                start.push(i);
                assert(idx_seq(start@) =~= sv.push(i as int));
            }
        }
        i = i + 1;
    }
    let ghost pr = |k: (SocketAddr, Transport)| !has_key(fs, k);
    let mut remove: Vec<(SocketAddr, Transport)> = Vec::new();
    let mut r: usize = 0;
    while r < running.len()
        invariant
            r <= running.len(),
            fs == cfg@.forwardings,
            keys@.len() == fs.len(),
            forall|z: int| 0 <= z < keys.len() ==> #[trigger] keys@[z] == fs[z].listen_key(),
            pr == (|k: (SocketAddr, Transport)| !has_key(fs, k)),
            remove@ == running@.subrange(0, r as int).filter(pr),
        decreases running.len() - r,
    {
        proof {
            crate::seqs::lemma_filter_step(running@, pr, r as int);
        }
        let k = running[r];
        let mut found = false;
        let mut q: usize = 0;
        while q < keys.len()
            invariant
                q <= keys.len(),
                keys@.len() == fs.len(),
                forall|z: int| 0 <= z < keys.len() ==> #[trigger] keys@[z] == fs[z].listen_key(),
                found == exists|z: int| 0 <= z < q && (#[trigger] fs[z]).listen_key() == k,
            decreases keys.len() - q,
        {
            if key_eq(&keys[q], &k) {
                assert(fs[q as int].listen_key() == k);
                found = true;
            }
            q = q + 1;
        }
        if !found {
            remove.push(k);
        }
        r = r + 1;
    }
    assert(running@.subrange(0, running.len() as int) =~= running@);
    ApplyPlan { remove, retain, start }
}


// ---------------------------------------------------------------------------
// The agent session.
// ---------------------------------------------------------------------------

/// How a worker in agent mode reaches its master.
#[derive(Debug)]
pub struct AgentOptions {
    pub master: String,
    pub api_key: String,
    pub server_id: String,
    pub state_dir: String,
}

/// The first reconnection delay, in milliseconds; a successful registration resets
/// the delay to it.
pub const BACKOFF_START_MS: u64 = 1000;

/// The longest reconnection delay, in milliseconds.
pub const BACKOFF_CAP_MS: u64 = 30000;

/// The delay after `backoff_ms` when the session ended again: doubled, at most the
/// cap.
pub fn next_backoff(backoff_ms: u64) -> (r: u64)
    ensures
        r == (if 2 * backoff_ms < BACKOFF_CAP_MS {
            2 * backoff_ms
        } else {
            BACKOFF_CAP_MS as int
        }),
{
    if backoff_ms < BACKOFF_CAP_MS / 2 {
        backoff_ms * 2
    } else {
        BACKOFF_CAP_MS
    }
}

/// The reconnection delay never leaves the range from the first delay to the cap.
pub proof fn backoff_stays_capped(backoff_ms: u64)
    requires
        BACKOFF_START_MS <= backoff_ms <= BACKOFF_CAP_MS,
    ensures
        ({
            let n = if 2 * backoff_ms < BACKOFF_CAP_MS {
                2 * backoff_ms
            } else {
                BACKOFF_CAP_MS as int
            };
            BACKOFF_START_MS <= n <= BACKOFF_CAP_MS && n >= backoff_ms
        }),
{
}

} // verus!
