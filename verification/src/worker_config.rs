//! The data-plane worker's configuration model.
//!
//! The worker reads it (from a file or from the master), the master derives it from
//! a canvas. This module holds the model, its validation and its lints; reading and
//! writing the TOML text is done by the program around the library.

use crate::net::{parse_socket_addr, parse_socket_addr_exec, read_number, SocketAddr};
use vstd::prelude::*;

verus! {

/// What can go wrong while reading, validating or writing a config.
#[derive(Debug)]
pub enum ConfigError {
    /// `host:port` expected.
    RemoteFormat(String),
    /// The text after the last `:` is not a port.
    RemotePort(String),
    /// Two forwardings listen on the same socket and transport.
    DuplicateListener { addr: SocketAddr, tag: String },
    /// A relay to TLS or QUIC has no server name.
    MissingSni(String),
    /// A load-balance group, possibly nested, has no members.
    EmptyLoadBalance(String),
    /// The config file could not be read.
    Io { path: String, message: String },
    /// The TOML text does not describe a config.
    Parse(String),
    /// The config could not be written as TOML.
    Serialize(String),
}

pub enum ConfigErrorView {
    RemoteFormat(Seq<char>),
    RemotePort(Seq<char>),
    DuplicateListener { addr: SocketAddr, tag: Seq<char> },
    MissingSni(Seq<char>),
    EmptyLoadBalance(Seq<char>),
    Io { path: Seq<char>, message: Seq<char> },
    Parse(Seq<char>),
    Serialize(Seq<char>),
}

impl View for ConfigError {
    type V = ConfigErrorView;

    open spec fn view(&self) -> ConfigErrorView {
        match self {
            ConfigError::RemoteFormat(s) => ConfigErrorView::RemoteFormat(s@),
            ConfigError::RemotePort(s) => ConfigErrorView::RemotePort(s@),
            ConfigError::DuplicateListener { addr, tag } => ConfigErrorView::DuplicateListener {
                addr: *addr,
                tag: tag@,
            },
            ConfigError::MissingSni(s) => ConfigErrorView::MissingSni(s@),
            ConfigError::EmptyLoadBalance(s) => ConfigErrorView::EmptyLoadBalance(s@),
            ConfigError::Io { path, message } => ConfigErrorView::Io {
                path: path@,
                message: message@,
            },
            ConfigError::Parse(s) => ConfigErrorView::Parse(s@),
            ConfigError::Serialize(s) => ConfigErrorView::Serialize(s@),
        }
    }
}

/// Where a forwarding sends traffic: a domain name and port, or a socket address.
#[derive(Debug)]
pub enum Remote {
    Domain(String, u16),
    Address(SocketAddr),
}

pub enum RemoteView {
    Domain(Seq<char>, u16),
    Address(SocketAddr),
}

impl View for Remote {
    type V = RemoteView;

    open spec fn view(&self) -> RemoteView {
        match self {
            Remote::Domain(h, p) => RemoteView::Domain(h@, *p),
            Remote::Address(a) => RemoteView::Address(*a),
        }
    }
}

/// The index of the last occurrence of `c` in `s`.
pub open spec fn last_index_of(s: Seq<char>, c: char) -> Option<int>
    decreases s.len(),
{
    if s.len() == 0 {
        None
    } else if s.last() == c {
        Some(s.len() - 1)
    } else {
        last_index_of(s.drop_last(), c)
    }
}

/// A `u16` written in decimal: an optional `+`, then one or more digits.
pub open spec fn parse_u16_text(t: Seq<char>) -> Option<nat> {
    let body = if t.len() > 0 && t[0] == '+' {
        t.drop_first()
    } else {
        t
    };
    match read_number(body, 0, 10, 0, true, 65535) {
        Some((v, p)) => if p == body.len() {
            Some(v)
        } else {
            None
        },
        None => None,
    }
}

/// What parsing `s` as a remote gives: a socket address when the whole text is one,
/// otherwise the text after the last `:` is the port and the rest a domain.
pub open spec fn spec_parse_remote(s: Seq<char>) -> Result<RemoteView, ConfigErrorView> {
    match parse_socket_addr(s) {
        Some(a) => Ok(RemoteView::Address(a)),
        None => match last_index_of(s, ':') {
            None => Err(ConfigErrorView::RemoteFormat(s)),
            Some(k) => if k == 0 {
                Err(ConfigErrorView::RemoteFormat(s))
            } else {
                match parse_u16_text(s.subrange(k + 1, s.len() as int)) {
                    None => Err(ConfigErrorView::RemotePort(s)),
                    Some(p) => Ok(RemoteView::Domain(s.subrange(0, k), p as u16)),
                }
            },
        },
    }
}

pub open spec fn result_view<T: View, E: View>(r: Result<T, E>) -> Result<T::V, E::V> {
    match r {
        Ok(t) => Ok(t@),
        Err(e) => Err(e@),
    }
}

fn last_colon(cs: &Vec<char>) -> (r: Option<usize>)
    ensures
        r matches Some(k) ==> k < cs.len(),
        match r {
            Some(k) => last_index_of(cs@, ':') == Some(k as int),
            None => last_index_of(cs@, ':') is None,
        },
{
    let mut i = cs.len();
    assert(cs@.subrange(0, i as int) =~= cs@);
    while i > 0
        invariant
            i <= cs.len(),
            last_index_of(cs@, ':') == last_index_of(cs@.subrange(0, i as int), ':'),
        decreases i,
    {
        let ghost pre = cs@.subrange(0, i as int);
        if cs[i - 1] == ':' {
            return Some(i - 1);
        }
        assert(pre.drop_last() =~= cs@.subrange(0, i - 1));
        i = i - 1;
    }
    None
}

fn parse_u16_exec(cs: &Vec<char>, from: usize) -> (r: Option<u16>)
    requires
        from <= cs.len(),
    ensures
        match r {
            Some(v) => parse_u16_text(cs@.subrange(from as int, cs.len() as int)) == Some(v as nat),
            None => parse_u16_text(cs@.subrange(from as int, cs.len() as int)) is None,
        },
{
    let ghost t = cs@.subrange(from as int, cs.len() as int);
    let start = if from < cs.len() && cs[from] == '+' {
        from + 1
    } else {
        from
    };
    let mut body: Vec<char> = Vec::new();
    let mut i = start;
    while i < cs.len()
        invariant
            start <= i <= cs.len(),
            body@ == cs@.subrange(start as int, i as int),
        decreases cs.len() - i,
    {
        body.push(cs[i]);
        i = i + 1;
    }
    assert(body@ =~= (if t.len() > 0 && t[0] == '+' { t.drop_first() } else { t }));
    match crate::net::read_number_exec(&body, 0, 10, 0, true, 65535) {
        Some((v, p)) => if p == body.len() {
            Some(v as u16)
        } else {
            None
        },
        None => None,
    }
}

impl Remote {
    /// Parses a `host:port` string. If the whole string parses as a socket address
    /// (IPv4, or bracketed IPv6 like `[::1]:443`) it becomes `Address`; otherwise the
    /// text after the final `:` is the port and the rest is a domain name.
    pub fn parse(s: &str) -> (r: Result<Remote, ConfigError>)
        ensures
            result_view(r) == spec_parse_remote(s@),
    {
        if let Some(a) = parse_socket_addr_exec(s) {
            return Ok(Remote::Address(a));
        }
        let cs = crate::text::chars_of(s);
        let k = match last_colon(&cs) {
            None => return Err(ConfigError::RemoteFormat(s.to_owned())),
            Some(k) => k,
        };
        if k == 0 {
            return Err(ConfigError::RemoteFormat(s.to_owned()));
        }
        let port = match parse_u16_exec(&cs, k + 1) {
            None => return Err(ConfigError::RemotePort(s.to_owned())),
            Some(p) => p,
        };
        let mut host: Vec<char> = Vec::new();
        let mut i: usize = 0;
        while i < k
            invariant
                i <= k < cs.len(),
                host@ == cs@.subrange(0, i as int),
            decreases k - i,
        {
            host.push(cs[i]);
            i = i + 1;
        }
        Ok(Remote::Domain(crate::text::string_of(&host), port))
    }

    /// A copy of this remote.
    pub fn duplicate(&self) -> (r: Remote)
        ensures
            r@ == self@,
    {
        match self {
            Remote::Domain(h, p) => Remote::Domain(h.clone(), *p),
            Remote::Address(a) => Remote::Address(*a),
        }
    }
}

#[derive(Debug, Clone, Copy, PartialEq, Eq, Structural)]
pub enum TcpProxyProtocol {
    V1,
    V2,
}

#[derive(Debug)]
pub struct TlsHostConfig {
    pub key: String,
    pub full_chain: String,
}

pub struct TlsHostConfigView {
    pub key: Seq<char>,
    pub full_chain: Seq<char>,
}

impl View for TlsHostConfig {
    type V = TlsHostConfigView;

    open spec fn view(&self) -> TlsHostConfigView {
        TlsHostConfigView { key: self.key@, full_chain: self.full_chain@ }
    }
}

impl TlsHostConfig {
    pub fn duplicate(&self) -> (r: TlsHostConfig)
        ensures
            r@ == self@,
    {
        TlsHostConfig { key: self.key.clone(), full_chain: self.full_chain.clone() }
    }
}

#[derive(Debug)]
pub enum ListenAs {
    Raw,
    Tls(TlsHostConfig),
    Relay(RelayHost),
}

#[derive(Debug)]
pub enum RelayHost {
    Tcp,
    TlsOverTcp(TlsHostConfig),
    Quic(TlsHostConfig),
}

pub enum ListenAsView {
    Raw,
    Tls(TlsHostConfigView),
    Relay(RelayHostView),
}

pub enum RelayHostView {
    Tcp,
    TlsOverTcp(TlsHostConfigView),
    Quic(TlsHostConfigView),
}

impl View for RelayHost {
    type V = RelayHostView;

    open spec fn view(&self) -> RelayHostView {
        match self {
            RelayHost::Tcp => RelayHostView::Tcp,
            RelayHost::TlsOverTcp(c) => RelayHostView::TlsOverTcp(c@),
            RelayHost::Quic(c) => RelayHostView::Quic(c@),
        }
    }
}

impl View for ListenAs {
    type V = ListenAsView;

    open spec fn view(&self) -> ListenAsView {
        match self {
            ListenAs::Raw => ListenAsView::Raw,
            ListenAs::Tls(c) => ListenAsView::Tls(c@),
            ListenAs::Relay(h) => ListenAsView::Relay(h@),
        }
    }
}

impl ListenAs {
    pub fn duplicate(&self) -> (r: ListenAs)
        ensures
            r@ == self@,
    {
        match self {
            ListenAs::Raw => ListenAs::Raw,
            ListenAs::Tls(c) => ListenAs::Tls(c.duplicate()),
            ListenAs::Relay(RelayHost::Tcp) => ListenAs::Relay(RelayHost::Tcp),
            ListenAs::Relay(RelayHost::TlsOverTcp(c)) => ListenAs::Relay(
                RelayHost::TlsOverTcp(c.duplicate()),
            ),
            ListenAs::Relay(RelayHost::Quic(c)) => ListenAs::Relay(RelayHost::Quic(c.duplicate())),
        }
    }
}

#[derive(Debug, Clone, Copy, PartialEq, Eq, Structural)]
pub enum RelayProtocol {
    Tcp,
    TlsOverTcp,
    Quic,
}

#[derive(Debug, Clone, Copy, PartialEq, Eq, Structural)]
pub enum LoadBalanceStrategy {
    RoundRobin,
    Random,
    IpHash,
    /// Try the first member; when it fails, the next ones in order until one succeeds.
    Fallback,
}

/// Where a forwarding's traffic goes.
#[derive(Debug)]
pub enum ForwardingTo {
    Exit { destination: Remote, send_proxy_protocol: Option<TcpProxyProtocol> },
    Relay { protocol: RelayProtocol, destination: Remote, sni: Option<String> },
    LoadBalance(Box<LoadBalanceGroup>),
}

#[derive(Debug)]
pub struct LoadBalanceGroup {
    pub strategy: LoadBalanceStrategy,
    pub members: Vec<ForwardingTo>,
}

pub enum ForwardingToView {
    Exit { destination: RemoteView, send_proxy_protocol: Option<TcpProxyProtocol> },
    Relay { protocol: RelayProtocol, destination: RemoteView, sni: Option<Seq<char>> },
    LoadBalance { strategy: LoadBalanceStrategy, members: Seq<ForwardingToView> },
}

pub open spec fn opt_string_view(o: Option<String>) -> Option<Seq<char>> {
    match o {
        Some(s) => Some(s@),
        None => None,
    }
}

/// The view of a destination tree.
pub open spec fn to_view(t: ForwardingTo) -> ForwardingToView
    decreases t, 0nat,
{
    match t {
        ForwardingTo::Exit { destination, send_proxy_protocol } => ForwardingToView::Exit {
            destination: destination@,
            send_proxy_protocol,
        },
        ForwardingTo::Relay { protocol, destination, sni } => ForwardingToView::Relay {
            protocol,
            destination: destination@,
            sni: opt_string_view(sni),
        },
        ForwardingTo::LoadBalance(g) => ForwardingToView::LoadBalance {
            strategy: g.strategy,
            members: members_view(g.members@),
        },
    }
}

/// The views of a sequence of destination trees.
pub open spec fn members_view(ms: Seq<ForwardingTo>) -> Seq<ForwardingToView>
    decreases ms, 1nat,
{
    if ms.len() == 0 {
        Seq::empty()
    } else {
        seq![to_view(ms[0])] + members_view(ms.subrange(1, ms.len() as int))
    }
}

impl View for ForwardingTo {
    type V = ForwardingToView;

    open spec fn view(&self) -> ForwardingToView {
        to_view(*self)
    }
}

/// Whether the group behind `t`, or a group nested in it, hashes on the client address.
pub open spec fn ip_hash_in(t: ForwardingToView) -> bool
    decreases t, 0nat,
{
    match t {
        ForwardingToView::LoadBalance { strategy, members } => strategy
            == LoadBalanceStrategy::IpHash || ip_hash_in_members(members),
        _ => false,
    }
}

pub open spec fn ip_hash_in_members(ms: Seq<ForwardingToView>) -> bool
    decreases ms, 1nat,
{
    if ms.len() == 0 {
        false
    } else {
        ip_hash_in(ms[0]) || ip_hash_in_members(ms.subrange(1, ms.len() as int))
    }
}

/// Whether `t` is, or holds, a load-balance group without members.
pub open spec fn has_empty_group(t: ForwardingToView) -> bool
    decreases t, 0nat,
{
    match t {
        ForwardingToView::LoadBalance { members, .. } => members.len() == 0
            || has_empty_in_members(members),
        _ => false,
    }
}

pub open spec fn has_empty_in_members(ms: Seq<ForwardingToView>) -> bool
    decreases ms, 1nat,
{
    if ms.len() == 0 {
        false
    } else {
        has_empty_group(ms[0]) || has_empty_in_members(ms.subrange(1, ms.len() as int))
    }
}

pub proof fn lemma_members_view_len(ms: Seq<ForwardingTo>)
    ensures
        members_view(ms).len() == ms.len(),
        forall|i: int| 0 <= i < ms.len() ==> #[trigger] members_view(ms)[i] == to_view(ms[i]),
    decreases ms.len(),
{
    if ms.len() > 0 {
        let rest = ms.subrange(1, ms.len() as int);
        lemma_members_view_len(rest);
        assert forall|i: int| 0 <= i < ms.len() implies #[trigger] members_view(ms)[i] == to_view(
            ms[i],
        ) by {
            if i > 0 {
                assert(rest[i - 1] == ms[i]);
            }
        }
    }
}

pub proof fn lemma_members_view_push(ms: Seq<ForwardingTo>, t: ForwardingTo)
    ensures
        members_view(ms.push(t)) == members_view(ms).push(to_view(t)),
{
    lemma_members_view_len(ms);
    lemma_members_view_len(ms.push(t));
    assert(members_view(ms.push(t)) =~= members_view(ms).push(to_view(t)));
}

proof fn lemma_ip_hash_in_members_prefix(ms: Seq<ForwardingToView>, i: int)
    requires
        0 <= i < ms.len(),
    ensures
        ip_hash_in_members(ms.subrange(0, i + 1)) == (ip_hash_in_members(ms.subrange(0, i))
            || ip_hash_in(ms[i])),
        has_empty_in_members(ms.subrange(0, i + 1)) == (has_empty_in_members(ms.subrange(0, i))
            || has_empty_group(ms[i])),
    decreases i,
{
    let a = ms.subrange(0, i + 1);
    let b = ms.subrange(0, i);
    if i > 0 {
        let ms2 = ms.subrange(1, ms.len() as int);
        lemma_ip_hash_in_members_prefix(ms2, i - 1);
        assert(a.subrange(1, a.len() as int) =~= ms2.subrange(0, i));
        assert(b.subrange(1, b.len() as int) =~= ms2.subrange(0, i - 1));
        assert(a[0] == b[0]);
    } else {
        assert(a.subrange(1, a.len() as int) =~= Seq::<ForwardingToView>::empty());
        assert(b =~= Seq::<ForwardingToView>::empty());
    }
}

impl ForwardingTo {
    /// A copy of this destination tree.
    #[verifier::loop_isolation(false)]
    pub fn duplicate(&self) -> (r: ForwardingTo)
        ensures
            r@ == self@,
        decreases self,
    {
        match self {
            ForwardingTo::Exit { destination, send_proxy_protocol } => ForwardingTo::Exit {
                destination: destination.duplicate(),
                send_proxy_protocol: *send_proxy_protocol,
            },
            ForwardingTo::Relay { protocol, destination, sni } => ForwardingTo::Relay {
                protocol: *protocol,
                destination: destination.duplicate(),
                sni: match sni {
                    Some(s) => Some(s.clone()),
                    None => None,
                },
            },
            ForwardingTo::LoadBalance(g) => {
                let mut members: Vec<ForwardingTo> = Vec::new();
                let mut i: usize = 0;
                while i < g.members.len()
                    invariant
                        i <= g.members.len(),
                        members_view(members@) == members_view(g.members@.subrange(0, i as int)),
                    decreases g.members.len() - i,
                {
                    proof {
                        assert(decreases_to!(g.members => g.members@));
                        assert(decreases_to!(g.members@ => g.members@[i as int]));
                    }
                    let m = g.members[i].duplicate();
                    proof {
                        lemma_members_view_push(members@, m);
                        lemma_members_view_push(g.members@.subrange(0, i as int), g.members@[i as int]);
                        assert(g.members@.subrange(0, i + 1) =~= g.members@.subrange(0, i as int).push(g.members@[i as int]));
                    }
                    members.push(m);
                    i = i + 1;
                }
                assert(g.members@.subrange(0, g.members.len() as int) =~= g.members@);
                ForwardingTo::LoadBalance(Box::new(LoadBalanceGroup { strategy: g.strategy, members }))
            },
        }
    }

    /// Whether this tree holds a load-balance group without members.
    #[verifier::loop_isolation(false)]
    pub fn has_empty_group(&self) -> (r: bool)
        ensures
            r == has_empty_group(self@),
        decreases self,
    {
        match self {
            ForwardingTo::LoadBalance(g) => {
                if g.members.len() == 0 {
                    return true;
                }
                let mut i: usize = 0;
                proof {
                    lemma_members_view_len(g.members@);
                }
                while i < g.members.len()
                    invariant
                        i <= g.members.len(),
                        members_view(g.members@).len() == g.members.len(),
                        forall|k: int| 0 <= k < g.members.len() ==> #[trigger] members_view(g.members@)[k] == to_view(g.members@[k]),
                        !has_empty_in_members(members_view(g.members@).subrange(0, i as int)),
                    decreases g.members.len() - i,
                {
                    proof {
                        lemma_ip_hash_in_members_prefix(members_view(g.members@), i as int);
                    }
                    proof {
                        assert(decreases_to!(g.members => g.members@));
                        assert(decreases_to!(g.members@ => g.members@[i as int]));
                    }
                    if g.members[i].has_empty_group() {
                        proof {
                            lemma_members_prefix_true(members_view(g.members@), i as int);
                        }
                        return true;
                    }
                    i = i + 1;
                }
                assert(members_view(g.members@).subrange(0, g.members.len() as int) =~= members_view(g.members@));
                false
            },
            _ => false,
        }
    }
}

proof fn lemma_members_prefix_true(ms: Seq<ForwardingToView>, i: int)
    requires
        0 <= i < ms.len(),
    ensures
        has_empty_group(ms[i]) ==> has_empty_in_members(ms),
        ip_hash_in(ms[i]) ==> ip_hash_in_members(ms),
    decreases i,
{
    if i > 0 {
        lemma_members_prefix_true(ms.subrange(1, ms.len() as int), i - 1);
    }
}

impl LoadBalanceGroup {
    /// Whether this group, or a group nested in it, hashes on the client address.
    pub fn ip_hash_somewhere(&self) -> (r: bool)
        ensures
            r == (self.strategy == LoadBalanceStrategy::IpHash || ip_hash_in_members(
                members_view(self.members@),
            )),
        decreases self,
    {
        if self.strategy == LoadBalanceStrategy::IpHash {
            return true;
        }
        let mut i: usize = 0;
        proof {
            lemma_members_view_len(self.members@);
        }
        while i < self.members.len()
            invariant
                i <= self.members.len(),
                members_view(self.members@).len() == self.members.len(),
                forall|k: int| 0 <= k < self.members.len() ==> #[trigger] members_view(self.members@)[k] == to_view(self.members@[k]),
                !ip_hash_in_members(members_view(self.members@).subrange(0, i as int)),
            decreases self.members.len() - i,
        {
            proof {
                lemma_ip_hash_in_members_prefix(members_view(self.members@), i as int);
            }
            let hit = match &self.members[i] {
                ForwardingTo::LoadBalance(c) => c.ip_hash_somewhere(),
                _ => false,
            };
            if hit {
                proof {
                    lemma_members_prefix_true(members_view(self.members@), i as int);
                }
                return true;
            }
            i = i + 1;
        }
        assert(members_view(self.members@).subrange(0, self.members.len() as int) =~= members_view(self.members@));
        false
    }

    /// A group of one member balances nothing.
    pub fn unnecessary_load_balance(&self) -> (r: bool)
        ensures
            r == (self.members.len() == 1),
    {
        self.members.len() == 1
    }

    pub fn empty_members(&self) -> (r: bool)
        ensures
            r == (self.members.len() == 0),
    {
        self.members.len() == 0
    }
}

/// Which transport a listener accepts.
#[derive(Debug, Clone, Copy, PartialEq, Eq, Structural)]
pub enum Transport {
    Tcp,
    Quic,
}

/// One forwarding role: a listener and where its traffic goes.
#[derive(Debug)]
pub struct Forwarding {
    pub tag: String,
    pub listen: SocketAddr,
    pub receive_proxy_protocol: Option<TcpProxyProtocol>,
    pub listen_as: ListenAs,
    pub to: ForwardingTo,
}

pub struct ForwardingView {
    pub tag: Seq<char>,
    pub listen: SocketAddr,
    pub receive_proxy_protocol: Option<TcpProxyProtocol>,
    pub listen_as: ListenAsView,
    pub to: ForwardingToView,
}

impl View for Forwarding {
    type V = ForwardingView;

    open spec fn view(&self) -> ForwardingView {
        ForwardingView {
            tag: self.tag@,
            listen: self.listen,
            receive_proxy_protocol: self.receive_proxy_protocol,
            listen_as: self.listen_as@,
            to: self.to@,
        }
    }
}

/// A finding of the lint pass over one forwarding.
#[derive(Debug, Clone, Copy, PartialEq, Eq, Structural)]
pub enum Lint {
    /// Error: the forwarding's load-balance group has no member.
    EmptyLoadBalance,
    /// Warning: an `ip_hash` group is used without PROXY protocol on the listener.
    SuspiciousIpHash,
    /// Warning: the load-balance group has a single member.
    UnnecessaryLoadBalance,
}

impl ForwardingView {
    pub open spec fn transport(self) -> Transport {
        match self.listen_as {
            ListenAsView::Relay(RelayHostView::Quic(_)) => Transport::Quic,
            _ => Transport::Tcp,
        }
    }

    pub open spec fn listen_key(self) -> (SocketAddr, Transport) {
        (self.listen, self.transport())
    }

    /// The lint findings of this forwarding, in the order they are reported.
    pub open spec fn lints(self) -> Seq<Lint> {
        match self.to {
            ForwardingToView::LoadBalance { strategy, members } => if members.len() == 0 {
                seq![Lint::EmptyLoadBalance]
            } else {
                let sus = self.receive_proxy_protocol is None && (strategy
                    == LoadBalanceStrategy::IpHash || ip_hash_in_members(members));
                (if sus {
                    seq![Lint::SuspiciousIpHash]
                } else {
                    Seq::empty()
                }) + (if members.len() == 1 {
                    seq![Lint::UnnecessaryLoadBalance]
                } else {
                    Seq::empty()
                })
            },
            _ => Seq::empty(),
        }
    }

    /// The relay protocols that need a server name.
    pub open spec fn missing_sni(self) -> bool {
        match self.to {
            ForwardingToView::Relay { protocol, sni, .. } => (protocol == RelayProtocol::TlsOverTcp
                || protocol == RelayProtocol::Quic) && sni is None,
            _ => false,
        }
    }
}

impl Forwarding {
    /// QUIC for a QUIC relay ingest, TCP otherwise.
    pub fn transport(&self) -> (r: Transport)
        ensures
            r == self@.transport(),
    {
        match &self.listen_as {
            ListenAs::Relay(RelayHost::Quic(_)) => Transport::Quic,
            _ => Transport::Tcp,
        }
    }

    /// What identifies the listener: its socket and transport.
    pub fn listen_key(&self) -> (r: (SocketAddr, Transport))
        ensures
            r == self@.listen_key(),
    {
        (self.listen, self.transport())
    }

    /// Checks the forwarding for suspicious shapes. An empty load-balance group is
    /// an error and stops the lint; otherwise `ip_hash` without PROXY protocol and a
    /// single-member group are warnings.
    pub fn lint(&self) -> (r: Vec<Lint>)
        ensures
            r@ == self@.lints(),
    {
        let mut out: Vec<Lint> = Vec::new();
        match &self.to {
            ForwardingTo::LoadBalance(c) => {
                if c.empty_members() {
                    out.push(Lint::EmptyLoadBalance);
                    return out;
                }
                if self.receive_proxy_protocol.is_none() && c.ip_hash_somewhere() {
                    out.push(Lint::SuspiciousIpHash);
                }
                if c.unnecessary_load_balance() {
                    out.push(Lint::UnnecessaryLoadBalance);
                }
                proof {
                    lemma_members_view_len(c.members@);
                }
                assert(out@ =~= self@.lints());
                out
            },
            _ => {
                assert(out@ =~= self@.lints());
                out
            },
        }
    }

    pub fn duplicate(&self) -> (r: Forwarding)
        ensures
            r@ == self@,
    {
        Forwarding {
            tag: self.tag.clone(),
            listen: self.listen,
            receive_proxy_protocol: self.receive_proxy_protocol,
            listen_as: self.listen_as.duplicate(),
            to: self.to.duplicate(),
        }
    }
}

/// Global policy for choosing between IPv6 and IPv4 results when a domain resolves.
#[derive(Debug, Clone, Copy, PartialEq, Eq, Structural)]
pub enum Ipv6Resolve {
    /// Only IPv6 results; none is a resolution failure.
    Required,
    /// IPv6 when both families resolve, IPv4 otherwise.
    Preferred,
    /// IPv4 when both families resolve, IPv6 otherwise. The default.
    Tolerated,
    /// Only IPv4 results; none is a resolution failure.
    Forbidden,
}

impl Default for Ipv6Resolve {
    fn default() -> (r: Ipv6Resolve)
        ensures
            r == Ipv6Resolve::Tolerated,
    {
        Ipv6Resolve::Tolerated
    }
}

#[derive(Debug)]
pub struct LogConfig {
    pub level: String,
}

impl Default for LogConfig {
    fn default() -> (r: LogConfig)
        ensures
            r.level@ == "info"@,
    {
        LogConfig { level: String::from_str("info") }
    }
}

/// A worker's whole configuration.
#[derive(Debug)]
pub struct Config {
    pub ipv6_resolve: Ipv6Resolve,
    pub log: LogConfig,
    pub forwardings: Vec<Forwarding>,
}

pub struct ConfigView {
    pub ipv6_resolve: Ipv6Resolve,
    pub log_level: Seq<char>,
    pub forwardings: Seq<ForwardingView>,
}

impl View for Config {
    type V = ConfigView;

    open spec fn view(&self) -> ConfigView {
        ConfigView {
            ipv6_resolve: self.ipv6_resolve,
            log_level: self.log.level@,
            forwardings: self.forwardings@.map_values(|f: Forwarding| f@),
        }
    }
}

/// The error, if any, that forwarding `i` of `fs` raises in validation: a listen key
/// already used by an earlier forwarding, a missing server name, an empty group.
pub open spec fn forwarding_error(fs: Seq<ForwardingView>, i: int) -> Option<ConfigErrorView> {
    let f = fs[i];
    if exists|j: int| 0 <= j < i && #[trigger] fs[j].listen_key() == f.listen_key() {
        Some(ConfigErrorView::DuplicateListener { addr: f.listen, tag: f.tag })
    } else if f.missing_sni() {
        Some(ConfigErrorView::MissingSni(f.tag))
    } else if has_empty_group(f.to) {
        Some(ConfigErrorView::EmptyLoadBalance(f.tag))
    } else {
        None
    }
}

/// Validation from forwarding `i` on: the first error, if any.
pub open spec fn first_config_error(fs: Seq<ForwardingView>, i: int) -> Option<ConfigErrorView>
    decreases fs.len() - i,
{
    if i < 0 || i >= fs.len() {
        None
    } else if forwarding_error(fs, i) is Some {
        forwarding_error(fs, i)
    } else {
        first_config_error(fs, i + 1)
    }
}

impl ConfigView {
    /// Whether the config validates, or the first error it raises.
    pub open spec fn validation(self) -> Option<ConfigErrorView> {
        first_config_error(self.forwardings, 0)
    }
}

proof fn lemma_first_error_skip(fs: Seq<ForwardingView>, i: int)
    requires
        0 <= i < fs.len(),
        forwarding_error(fs, i) is None,
    ensures
        first_config_error(fs, i) == first_config_error(fs, i + 1),
{
}

proof fn lemma_first_error_reaches(fs: Seq<ForwardingView>, k: int, i: int)
    requires
        0 <= k <= i < fs.len(),
        forwarding_error(fs, i) is Some,
    ensures
        first_config_error(fs, k) is Some,
        (forall|j: int| k <= j < i ==> forwarding_error(fs, j) is None) ==> first_config_error(fs, k)
            == forwarding_error(fs, i),
    decreases i - k,
{
    if k < i {
        lemma_first_error_reaches(fs, k + 1, i);
    }
}

/// A relay over TLS or QUIC must name a server. A config holding such a relay without
/// a server name never validates, and when no earlier forwarding raises an error and
/// the relay's listener is not a repeat, validation reports that relay's missing
/// server name.
pub proof fn relays_over_tls_or_quic_need_a_server_name(c: ConfigView, i: int)
    requires
        0 <= i < c.forwardings.len(),
        c.forwardings[i].to matches ForwardingToView::Relay { protocol, sni, .. } && (protocol
            == RelayProtocol::TlsOverTcp || protocol == RelayProtocol::Quic) && sni is None,
    ensures
        c.validation() is Some,
        (forall|j: int| 0 <= j < i ==> forwarding_error(c.forwardings, j) is None) && (forall|j: int|
            0 <= j < i ==> (#[trigger] c.forwardings[j]).listen_key() != c.forwardings[i].listen_key())
            ==> c.validation() == Some(ConfigErrorView::MissingSni(c.forwardings[i].tag)),
{
    let fs = c.forwardings;
    assert(fs[i].missing_sni());
    lemma_first_error_reaches(fs, 0, i);
}

impl Config {
    /// Checks that no two forwardings share a listener, that relays to TLS or QUIC
    /// name a server, and that no load-balance group (nested ones included) is empty.
    pub fn validate(&self) -> (r: Result<(), ConfigError>)
        ensures
            match r {
                Ok(()) => self@.validation() is None,
                Err(e) => self@.validation() == Some(e@),
            },
    {
        let ghost fs = self@.forwardings;
        let mut seen: Vec<(SocketAddr, Transport)> = Vec::new();
        let mut i: usize = 0;
        while i < self.forwardings.len()
            invariant
                i <= self.forwardings.len(),
                fs == self@.forwardings,
                fs.len() == self.forwardings.len(),
                seen@.len() == i,
                forall|j: int| 0 <= j < i ==> #[trigger] seen@[j] == fs[j].listen_key(),
                first_config_error(fs, 0) == first_config_error(fs, i as int),
            decreases self.forwardings.len() - i,
        {
            let f = &self.forwardings[i];
            assert(fs[i as int] == f@);
            let key = f.listen_key();
            let mut j: usize = 0;
            let mut dup = false;
            while j < seen.len()
                invariant
                    j <= seen.len(),
                    seen@.len() == i,
                    dup == exists|k: int| 0 <= k < j && #[trigger] seen@[k] == key,
                decreases seen.len() - j,
            {
                if seen[j].0 == key.0 && seen[j].1 == key.1 {
                    dup = true;
                }
                j = j + 1;
            }
            if dup {
                return Err(ConfigError::DuplicateListener { addr: f.listen, tag: f.tag.clone() });
            }
            assert(!(exists|j: int| 0 <= j < i && #[trigger] fs[j].listen_key() == fs[i as int].listen_key())) by {
                if exists|j: int| 0 <= j < i && #[trigger] fs[j].listen_key() == fs[i as int].listen_key() {
                    let j = choose|j: int| 0 <= j < i && #[trigger] fs[j].listen_key() == fs[i as int].listen_key();
                    assert(seen@[j] == key);
                }
            }
            if let ForwardingTo::Relay { protocol, sni, .. } = &f.to {
                let needs = match protocol {
                    RelayProtocol::TlsOverTcp | RelayProtocol::Quic => true,
                    RelayProtocol::Tcp => false,
                };
                if needs && sni.is_none() {
                    return Err(ConfigError::MissingSni(f.tag.clone()));
                }
            }
            if f.to.has_empty_group() {
                return Err(ConfigError::EmptyLoadBalance(f.tag.clone()));
            }
            proof {
                lemma_first_error_skip(fs, i as int);
            }
            seen.push(key);
            i = i + 1;
        }
        Ok(())
    }

    /// The lint findings of every forwarding, with its index.
    pub fn lint(&self) -> (r: Vec<(usize, Lint)>)
        ensures
            forall|k: int| 0 <= k < r.len() ==> (#[trigger] r@[k]).0 < self.forwardings.len(),
            lint_report(self@.forwardings, 0) == r@.map_values(|x: (usize, Lint)| (x.0 as int, x.1)),
    {
        let mut out: Vec<(usize, Lint)> = Vec::new();
        let mut i: usize = 0;
        while i < self.forwardings.len()
            invariant
                i <= self.forwardings.len(),
                forall|k: int| 0 <= k < out.len() ==> (#[trigger] out@[k]).0 < self.forwardings.len(),
                lint_report(self@.forwardings, 0) == out@.map_values(|x: (usize, Lint)| (x.0 as int, x.1)) + lint_report(self@.forwardings, i as int),
            decreases self.forwardings.len() - i,
        {
            let found = self.forwardings[i].lint();
            let ghost before = out@;
            let mut k: usize = 0;
            while k < found.len()
                invariant
                    k <= found.len(),
                    i < self.forwardings.len(),
                    forall|m: int| 0 <= m < out.len() ==> (#[trigger] out@[m]).0 < self.forwardings.len(),
                    out@.map_values(|x: (usize, Lint)| (x.0 as int, x.1)) == before.map_values(|x: (usize, Lint)| (x.0 as int, x.1)) + found@.subrange(0, k as int).map_values(|l: Lint| (i as int, l)),
                decreases found.len() - k,
            {
                let ghost o = out@;
                out.push((i, found[k]));
                assert(out@ == o.push((i, found@[k as int])));
                assert(out@.map_values(|x: (usize, Lint)| (x.0 as int, x.1)) =~= o.map_values(|x: (usize, Lint)| (x.0 as int, x.1)).push((i as int, found@[k as int])));
                assert(found@.subrange(0, k + 1).map_values(|l: Lint| (i as int, l)) =~= found@.subrange(0, k as int).map_values(|l: Lint| (i as int, l)).push((i as int, found@[k as int])));
                k = k + 1;
                assert(out@.map_values(|x: (usize, Lint)| (x.0 as int, x.1)) =~= before.map_values(|x: (usize, Lint)| (x.0 as int, x.1)) + found@.subrange(0, k as int).map_values(|l: Lint| (i as int, l)));
            }
            assert(found@.subrange(0, found.len() as int) =~= found@);
            assert(self@.forwardings[i as int] == self.forwardings@[i as int]@);
            i = i + 1;
            assert(lint_report(self@.forwardings, (i - 1) as int) == self@.forwardings[(i - 1) as int].lints().map_values(|l: Lint| ((i - 1) as int, l)) + lint_report(self@.forwardings, i as int));
        }
        assert(lint_report(self@.forwardings, i as int) =~= Seq::<(int, Lint)>::empty());
        assert(out@.map_values(|x: (usize, Lint)| (x.0 as int, x.1)) + Seq::<(int, Lint)>::empty() =~= out@.map_values(|x: (usize, Lint)| (x.0 as int, x.1)));
        out
    }
}

/// The findings of forwardings `i..`, each with its index.
pub open spec fn lint_report(fs: Seq<ForwardingView>, i: int) -> Seq<(int, Lint)>
    decreases fs.len() - i,
{
    if i < 0 || i >= fs.len() {
        Seq::empty()
    } else {
        fs[i].lints().map_values(|l: Lint| (i, l)) + lint_report(fs, i + 1)
    }
}

/// The message of a config error, as the worker reports it.
pub open spec fn config_message(e: ConfigErrorView) -> Seq<char> {
    match e {
        ConfigErrorView::RemoteFormat(s) => "invalid remote '"@ + s + "': expected host:port"@,
        ConfigErrorView::RemotePort(s) => "invalid port in remote '"@ + s + "'"@,
        ConfigErrorView::DuplicateListener { addr, tag } => "duplicate listener "@
            + crate::display::socket_text(addr) + " ("@ + tag + ")"@,
        ConfigErrorView::MissingSni(s) => "forwarding "@ + s + " relay to tls/quic requires `sni`"@,
        ConfigErrorView::EmptyLoadBalance(s) => "forwarding "@ + s + " has an empty load-balance group"@,
        ConfigErrorView::Io { path, message } => "read "@ + path + ": "@ + message,
        ConfigErrorView::Parse(s) => "parse toml: "@ + s,
        ConfigErrorView::Serialize(s) => "serialize toml: "@ + s,
    }
}

impl ConfigError {
    pub fn duplicate(&self) -> (r: ConfigError)
        ensures
            r@ == self@,
    {
        match self {
            ConfigError::RemoteFormat(s) => ConfigError::RemoteFormat(s.clone()),
            ConfigError::RemotePort(s) => ConfigError::RemotePort(s.clone()),
            ConfigError::DuplicateListener { addr, tag } => ConfigError::DuplicateListener {
                addr: *addr,
                tag: tag.clone(),
            },
            ConfigError::MissingSni(s) => ConfigError::MissingSni(s.clone()),
            ConfigError::EmptyLoadBalance(s) => ConfigError::EmptyLoadBalance(s.clone()),
            ConfigError::Io { path, message } => ConfigError::Io { path: path.clone(), message: message.clone() },
            ConfigError::Parse(s) => ConfigError::Parse(s.clone()),
            ConfigError::Serialize(s) => ConfigError::Serialize(s.clone()),
        }
    }

    /// What went wrong, in words.
    pub fn message(&self) -> (r: String)
        ensures
            r@ == config_message(self@),
    {
        let mut m = String::new();
        match self {
            ConfigError::RemoteFormat(s) => {
                crate::text::push_str(&mut m, "invalid remote '");
                crate::text::push_str(&mut m, s.as_str());
                crate::text::push_str(&mut m, "': expected host:port");
            },
            ConfigError::RemotePort(s) => {
                crate::text::push_str(&mut m, "invalid port in remote '");
                crate::text::push_str(&mut m, s.as_str());
                crate::text::push_str(&mut m, "'");
            },
            ConfigError::DuplicateListener { addr, tag } => {
                crate::text::push_str(&mut m, "duplicate listener ");
                let a = crate::display::socket_text_exec(addr);
                crate::text::push_str(&mut m, a.as_str());
                crate::text::push_str(&mut m, " (");
                crate::text::push_str(&mut m, tag.as_str());
                crate::text::push_str(&mut m, ")");
            },
            ConfigError::MissingSni(s) => {
                crate::text::push_str(&mut m, "forwarding ");
                crate::text::push_str(&mut m, s.as_str());
                crate::text::push_str(&mut m, " relay to tls/quic requires `sni`");
            },
            ConfigError::EmptyLoadBalance(s) => {
                crate::text::push_str(&mut m, "forwarding ");
                crate::text::push_str(&mut m, s.as_str());
                crate::text::push_str(&mut m, " has an empty load-balance group");
            },
            ConfigError::Io { path, message } => {
                crate::text::push_str(&mut m, "read ");
                crate::text::push_str(&mut m, path.as_str());
                crate::text::push_str(&mut m, ": ");
                crate::text::push_str(&mut m, message.as_str());
            },
            ConfigError::Parse(s) => {
                crate::text::push_str(&mut m, "parse toml: ");
                crate::text::push_str(&mut m, s.as_str());
            },
            ConfigError::Serialize(s) => {
                crate::text::push_str(&mut m, "serialize toml: ");
                crate::text::push_str(&mut m, s.as_str());
            },
        }
        assert(m@ =~= config_message(self@));
        m
    }
}

} // verus!
