//! Internet addresses and their textual forms.
//!
//! The accepted text is that of the standard library's address parsers: IPv4 in
//! dotted-decimal (no leading zeros, at most three digits per octet), IPv6 as up to
//! eight hexadecimal groups with at most one `::` and an optional trailing embedded
//! IPv4, and socket addresses `a.b.c.d:port` or `[v6%scope]:port`. The specification
//! follows the same greedy reading: a number is the whole run of digits at a
//! position, and a parse succeeds only when the whole text is consumed.

use vstd::prelude::*;

verus! {

#[derive(Clone, Copy, PartialEq, Eq, Structural, Debug)]
pub struct Ipv4Addr {
    /// The address as a big-endian number: `a.b.c.d` is `a*2^24 + b*2^16 + c*2^8 + d`.
    pub bits: u32,
}

#[derive(Clone, Copy, PartialEq, Eq, Structural, Debug)]
pub struct Ipv6Addr {
    /// The eight groups as one big-endian number.
    pub bits: u128,
}

#[derive(Clone, Copy, PartialEq, Eq, Structural, Debug)]
pub enum IpAddr {
    V4(Ipv4Addr),
    V6(Ipv6Addr),
}

#[derive(Clone, Copy, PartialEq, Eq, Structural, Debug)]
#[allow(inconsistent_fields)]
pub enum SocketAddr {
    V4 { ip: Ipv4Addr, port: u16 },
    V6 { ip: Ipv6Addr, port: u16, flowinfo: u32, scope_id: u32 },
}

impl SocketAddr {
    pub open spec fn spec_new(ip: IpAddr, port: u16) -> SocketAddr {
        match ip {
            IpAddr::V4(a) => SocketAddr::V4 { ip: a, port },
            IpAddr::V6(a) => SocketAddr::V6 { ip: a, port, flowinfo: 0, scope_id: 0 },
        }
    }

    /// A socket address on `ip` and `port` (no flow label, no scope).
    #[verifier::when_used_as_spec(spec_new)]
    pub fn new(ip: IpAddr, port: u16) -> (r: SocketAddr)
        ensures
            r == SocketAddr::spec_new(ip, port),
    {
        match ip {
            IpAddr::V4(a) => SocketAddr::V4 { ip: a, port },
            IpAddr::V6(a) => SocketAddr::V6 { ip: a, port, flowinfo: 0, scope_id: 0 },
        }
    }

    /// The order of socket addresses: every IPv4 address before every IPv6 one, then
    /// address, port, flow label and scope.
    pub open spec fn order_key(self) -> (int, int, int, int, int) {
        match self {
            SocketAddr::V4 { ip, port } => (0, ip.bits as int, port as int, 0, 0),
            SocketAddr::V6 { ip, port, flowinfo, scope_id } => (
                1,
                ip.bits as int,
                port as int,
                flowinfo as int,
                scope_id as int,
            ),
        }
    }

    pub open spec fn le(self, other: SocketAddr) -> bool {
        key_le(self.order_key(), other.order_key())
    }

    /// Whether `self` sorts at or before `other`.
    pub fn sorts_before_or_eq(&self, other: &SocketAddr) -> (r: bool)
        ensures
            r == self.le(*other),
    {
        let (a0, a1, a2, a3, a4) = self.key_parts();
        let (b0, b1, b2, b3, b4) = other.key_parts();
        if a0 != b0 {
            a0 < b0
        } else if a1 != b1 {
            a1 < b1
        } else if a2 != b2 {
            a2 < b2
        } else if a3 != b3 {
            a3 < b3
        } else {
            a4 <= b4
        }
    }

    fn key_parts(&self) -> (r: (u8, u128, u16, u32, u32))
        ensures
            (r.0 as int, r.1 as int, r.2 as int, r.3 as int, r.4 as int) == self.order_key(),
    {
        match self {
            SocketAddr::V4 { ip, port } => (0, ip.bits as u128, *port, 0, 0),
            SocketAddr::V6 { ip, port, flowinfo, scope_id } => (
                1,
                ip.bits,
                *port,
                *flowinfo,
                *scope_id,
            ),
        }
    }
}

/// Lexicographic order on five-part keys.
pub open spec fn key_le(a: (int, int, int, int, int), b: (int, int, int, int, int)) -> bool {
    if a.0 != b.0 {
        a.0 < b.0
    } else if a.1 != b.1 {
        a.1 < b.1
    } else if a.2 != b.2 {
        a.2 < b.2
    } else if a.3 != b.3 {
        a.3 < b.3
    } else {
        a.4 <= b.4
    }
}

// ---------------------------------------------------------------------------
// Specification of the textual forms.
// ---------------------------------------------------------------------------

/// The value of `c` as a digit in `radix` (10 or 16; hexadecimal letters in either case).
pub open spec fn digit_value(c: char, radix: nat) -> Option<nat> {
    let x = c as int;
    if '0' as int <= x <= '9' as int {
        Some((x - '0' as int) as nat)
    } else if radix == 16 && 'a' as int <= x <= 'f' as int {
        Some((x - 'a' as int + 10) as nat)
    } else if radix == 16 && 'A' as int <= x <= 'F' as int {
        Some((x - 'A' as int + 10) as nat)
    } else {
        None
    }
}

/// Length of the run of `radix` digits starting at `pos`.
pub open spec fn digit_run(s: Seq<char>, pos: int, radix: nat) -> nat
    decreases s.len() - pos,
{
    if pos < 0 || pos >= s.len() {
        0
    } else if digit_value(s[pos], radix) is Some {
        1 + digit_run(s, pos + 1, radix)
    } else {
        0
    }
}

/// The number written by the `len` digits starting at `pos`.
pub open spec fn digits_value(s: Seq<char>, pos: int, len: nat, radix: nat) -> nat
    decreases len,
{
    if len == 0 {
        0
    } else {
        digits_value(s, pos, (len - 1) as nat, radix) * radix + digit_value(
            s[pos + len - 1],
            radix,
        ).unwrap()
    }
}

/// Reads a number at `pos`: the whole digit run, which must be non-empty, at most
/// `max_digits` long when that is non-zero, without a leading zero unless
/// `zero_prefix` allows one, and no greater than `bound`. Gives the value and the
/// position after it.
pub open spec fn read_number(
    s: Seq<char>,
    pos: int,
    radix: nat,
    max_digits: nat,
    zero_prefix: bool,
    bound: nat,
) -> Option<(nat, int)> {
    let k = digit_run(s, pos, radix);
    if k == 0 {
        None
    } else if max_digits > 0 && k > max_digits {
        None
    } else if !zero_prefix && s[pos] == '0' && k > 1 {
        None
    } else if digits_value(s, pos, k, radix) > bound {
        None
    } else {
        Some((digits_value(s, pos, k, radix), pos + k))
    }
}

pub open spec fn char_at(s: Seq<char>, pos: int, c: char) -> bool {
    0 <= pos < s.len() && s[pos] == c
}

pub open spec fn read_octet(s: Seq<char>, pos: int) -> Option<(nat, int)> {
    read_number(s, pos, 10, 3, false, 255)
}

pub open spec fn read_dot_octet(s: Seq<char>, pos: int) -> Option<(nat, int)> {
    if char_at(s, pos, '.') {
        read_octet(s, pos + 1)
    } else {
        None
    }
}

/// Reads a dotted-decimal IPv4 address at `pos`; gives its 32-bit value.
pub open spec fn read_ipv4(s: Seq<char>, pos: int) -> Option<(nat, int)> {
    match read_octet(s, pos) {
        None => None,
        Some((a, p1)) => match read_dot_octet(s, p1) {
            None => None,
            Some((b, p2)) => match read_dot_octet(s, p2) {
                None => None,
                Some((c, p3)) => match read_dot_octet(s, p3) {
                    None => None,
                    Some((d, p4)) => Some((a * 16777216 + b * 65536 + c * 256 + d, p4)),
                },
            },
        },
    }
}

pub open spec fn read_group(s: Seq<char>, pos: int) -> Option<(nat, int)> {
    read_number(s, pos, 16, 4, true, 65535)
}

/// Group `i` of an IPv6 address: groups after the first are preceded by `:`.
pub open spec fn read_sep_group(s: Seq<char>, pos: int, i: nat) -> Option<(nat, int)> {
    if i == 0 {
        read_group(s, pos)
    } else if char_at(s, pos, ':') {
        read_group(s, pos + 1)
    } else {
        None
    }
}

pub open spec fn read_sep_ipv4(s: Seq<char>, pos: int, i: nat) -> Option<(nat, int)> {
    if i == 0 {
        read_ipv4(s, pos)
    } else if char_at(s, pos, ':') {
        read_ipv4(s, pos + 1)
    } else {
        None
    }
}

/// Reads groups `i..limit` of an IPv6 address: each slot first tries a trailing
/// embedded IPv4 (when two slots are left), then a hexadecimal group. Gives the
/// groups read, the position after them and whether an embedded IPv4 ended them.
pub open spec fn read_groups(s: Seq<char>, pos: int, i: nat, limit: nat) -> (Seq<nat>, int, bool)
    decreases limit - i,
{
    if i >= limit {
        (Seq::empty(), pos, false)
    } else if i + 1 < limit && read_sep_ipv4(s, pos, i) is Some {
        let (v, p) = read_sep_ipv4(s, pos, i).unwrap();
        (seq![v / 65536, v % 65536], p, true)
    } else {
        match read_sep_group(s, pos, i) {
            None => (Seq::empty(), pos, false),
            Some((g, p)) => {
                let (rest, p2, v4) = read_groups(s, p, i + 1, limit);
                (seq![g].add(rest), p2, v4)
            },
        }
    }
}

/// Reads an IPv6 address at `pos`; gives its eight groups.
pub open spec fn read_ipv6(s: Seq<char>, pos: int) -> Option<(Seq<nat>, int)> {
    let (head, p1, head_v4) = read_groups(s, pos, 0, 8);
    if head.len() == 8 {
        Some((head, p1))
    } else if head_v4 {
        None
    } else if char_at(s, p1, ':') && char_at(s, p1 + 1, ':') {
        let limit = (8 - (head.len() + 1)) as nat;
        let (tail, p2, _v4) = read_groups(s, p1 + 2, 0, limit);
        Some(
            (
                head + Seq::new((8 - head.len() - tail.len()) as nat, |_i: int| 0nat) + tail,
                p2,
            ),
        )
    } else {
        None
    }
}

/// The 128-bit value of a sequence of 16-bit groups, first group most significant.
pub open spec fn groups_value(g: Seq<nat>) -> nat
    decreases g.len(),
{
    if g.len() == 0 {
        0
    } else {
        groups_value(g.drop_last()) * 65536 + g.last()
    }
}

/// The address written by all of `s`, if it is an IPv4 or IPv6 address.
pub open spec fn parse_ip(s: Seq<char>) -> Option<IpAddr> {
    match read_ipv4(s, 0) {
        Some((v, p)) => if p == s.len() {
            Some(IpAddr::V4(Ipv4Addr { bits: v as u32 }))
        } else {
            None
        },
        None => match read_ipv6(s, 0) {
            Some((g, p)) => if p == s.len() {
                Some(IpAddr::V6(Ipv6Addr { bits: groups_value(g) as u128 }))
            } else {
                None
            },
            None => None,
        },
    }
}

pub open spec fn read_port(s: Seq<char>, pos: int) -> Option<(nat, int)> {
    if char_at(s, pos, ':') {
        read_number(s, pos + 1, 10, 0, true, 65535)
    } else {
        None
    }
}

/// An optional `%scope` after an IPv6 address; scope 0 when absent.
pub open spec fn read_scope(s: Seq<char>, pos: int) -> (nat, int) {
    if char_at(s, pos, '%') && read_number(s, pos + 1, 10, 0, true, 4294967295) is Some {
        read_number(s, pos + 1, 10, 0, true, 4294967295).unwrap()
    } else {
        (0, pos)
    }
}

pub open spec fn read_socket_v4(s: Seq<char>) -> Option<(SocketAddr, int)> {
    match read_ipv4(s, 0) {
        None => None,
        Some((v, p1)) => match read_port(s, p1) {
            None => None,
            Some((port, p2)) => Some(
                (SocketAddr::V4 { ip: Ipv4Addr { bits: v as u32 }, port: port as u16 }, p2),
            ),
        },
    }
}

pub open spec fn read_socket_v6(s: Seq<char>) -> Option<(SocketAddr, int)> {
    if !char_at(s, 0, '[') {
        None
    } else {
        match read_ipv6(s, 1) {
            None => None,
            Some((g, p1)) => {
                let (scope, p2) = read_scope(s, p1);
                if !char_at(s, p2, ']') {
                    None
                } else {
                    match read_port(s, p2 + 1) {
                        None => None,
                        Some((port, p3)) => Some(
                            (
                                SocketAddr::V6 {
                                    ip: Ipv6Addr { bits: groups_value(g) as u128 },
                                    port: port as u16,
                                    flowinfo: 0,
                                    scope_id: scope as u32,
                                },
                                p3,
                            ),
                        ),
                    }
                }
            },
        }
    }
}

/// The socket address written by all of `s`, if any.
pub open spec fn parse_socket_addr(s: Seq<char>) -> Option<SocketAddr> {
    match read_socket_v4(s) {
        Some((a, p)) => if p == s.len() {
            Some(a)
        } else {
            None
        },
        None => match read_socket_v6(s) {
            Some((a, p)) => if p == s.len() {
                Some(a)
            } else {
                None
            },
            None => None,
        },
    }
}

// ---------------------------------------------------------------------------
// Executable parsers.
// ---------------------------------------------------------------------------

pub open spec fn same_read(r: Option<(u64, usize)>, s: Option<(nat, int)>) -> bool {
    match r {
        Some((v, p)) => s == Some((v as nat, p as int)),
        None => s is None,
    }
}

fn digit_of(c: char, radix: u64) -> (r: Option<u64>)
    requires
        radix == 10 || radix == 16,
    ensures
        match r {
            Some(d) => digit_value(c, radix as nat) == Some(d as nat) && d < radix,
            None => digit_value(c, radix as nat) is None,
        },
{
    let x = c as u32;
    assert(x as int == c as int);
    if '0' as u32 <= x && x <= '9' as u32 {
        Some((x - '0' as u32) as u64)
    } else if radix == 16 && 'a' as u32 <= x && x <= 'f' as u32 {
        Some((x - 'a' as u32 + 10) as u64)
    } else if radix == 16 && 'A' as u32 <= x && x <= 'F' as u32 {
        Some((x - 'A' as u32 + 10) as u64)
    } else {
        None
    }
}

proof fn lemma_digit_run_step(s: Seq<char>, pos: int, j: int, radix: nat)
    requires
        0 <= pos <= j,
        forall|k: int| pos <= k < j ==> k < s.len() && (#[trigger] digit_value(s[k], radix)) is Some,
    ensures
        digit_run(s, pos, radix) == (j - pos) + digit_run(s, j, radix),
    decreases j - pos,
{
    if pos < j {
        lemma_digit_run_step(s, pos + 1, j, radix);
    }
}

proof fn lemma_digits_value_mono(s: Seq<char>, pos: int, len: nat, radix: nat)
    requires
        radix >= 1,
        forall|k: int| pos <= k < pos + len + 1 ==> (#[trigger] digit_value(s[k], radix)) is Some,
    ensures
        digits_value(s, pos, len + 1, radix) >= digits_value(s, pos, len, radix),
{
    let v = digits_value(s, pos, len, radix);
    assert(v * radix >= v) by (nonlinear_arith)
        requires
            radix >= 1,
    ;
}

/// Reads a number at `pos`, as [`read_number`] describes.
pub fn read_number_exec(
    s: &Vec<char>,
    pos: usize,
    radix: u64,
    max_digits: usize,
    zero_prefix: bool,
    bound: u64,
) -> (r: Option<(u64, usize)>)
    requires
        radix == 10 || radix == 16,
        bound <= 4294967295,
    ensures
        same_read(r, read_number(s@, pos as int, radix as nat, max_digits as nat, zero_prefix, bound as nat)),
        r matches Some((v, p)) ==> v <= bound && pos < p <= s.len(),
{
    let n = s.len();
    let mut j: usize = pos;
    // The exact value while it stays within `bound`, `bound + 1` once it exceeds it.
    let mut val: u64 = 0;
    let ghost exact: nat = 0;
    while j < n
        invariant
            n == s@.len(),
            pos <= j <= n || (pos > n && j == pos),
            radix == 10 || radix == 16,
            bound <= 4294967295,
            forall|k: int| pos <= k < j ==> (#[trigger] digit_value(s@[k], radix as nat)) is Some,
            j >= pos ==> exact == digits_value(s@, pos as int, (j - pos) as nat, radix as nat),
            val == if exact <= bound { exact } else { bound as nat + 1 },
        ensures
            j >= n || digit_value(s@[j as int], radix as nat) is None,
        decreases n - j,
    {
        let d = digit_of(s[j], radix);
        match d {
            None => {
                break;
            },
            Some(dv) => {
                proof {
                    lemma_digits_value_mono(s@, pos as int, (j - pos) as nat, radix as nat);
                    exact = digits_value(s@, pos as int, (j + 1 - pos) as nat, radix as nat);
                }
                if val > bound {
                    val = bound + 1;
                } else {
                    assert(val * radix <= 4294967295 * 16) by (nonlinear_arith)
                        requires
                            val <= 4294967295,
                            radix <= 16,
                    ;
                    let nv = val * radix + dv;
                    if nv > bound {
                        val = bound + 1;
                    } else {
                        val = nv;
                    }
                }
                j = j + 1;
            },
        }
    }
    proof {
        if pos <= n {
            lemma_digit_run_step(s@, pos as int, j as int, radix as nat);
            if j < n {
                assert(digit_value(s@[j as int], radix as nat) is None);
            }
            assert(digit_run(s@, j as int, radix as nat) == 0);
        } else {
            assert(digit_run(s@, pos as int, radix as nat) == 0);
        }
    }
    if j == pos {
        return None;
    }
    let k = j - pos;
    if max_digits > 0 && k > max_digits {
        return None;
    }
    if !zero_prefix && s[pos] == '0' && k > 1 {
        return None;
    }
    if val > bound {
        return None;
    }
    Some((val, j))
}

fn char_at_exec(s: &Vec<char>, pos: usize, c: char) -> (r: bool)
    ensures
        r == char_at(s@, pos as int, c),
        r ==> pos < s.len(),
{
    pos < s.len() && s[pos] == c
}

fn read_octet_exec(s: &Vec<char>, pos: usize) -> (r: Option<(u64, usize)>)
    ensures
        same_read(r, read_octet(s@, pos as int)),
        r matches Some((v, p)) ==> v <= 255 && p <= s.len(),
{
    read_number_exec(s, pos, 10, 3, false, 255)
}

fn read_dot_octet_exec(s: &Vec<char>, pos: usize) -> (r: Option<(u64, usize)>)
    ensures
        same_read(r, read_dot_octet(s@, pos as int)),
        r matches Some((v, p)) ==> v <= 255 && p <= s.len(),
{
    if char_at_exec(s, pos, '.') {
        read_octet_exec(s, pos + 1)
    } else {
        None
    }
}

fn read_ipv4_exec(s: &Vec<char>, pos: usize) -> (r: Option<(u64, usize)>)
    ensures
        same_read(r, read_ipv4(s@, pos as int)),
        r matches Some((v, p)) ==> v <= 4294967295 && p <= s.len(),
{
    let (a, p1) = match read_octet_exec(s, pos) {
        None => return None,
        Some(x) => x,
    };
    let (b, p2) = match read_dot_octet_exec(s, p1) {
        None => return None,
        Some(x) => x,
    };
    let (c, p3) = match read_dot_octet_exec(s, p2) {
        None => return None,
        Some(x) => x,
    };
    let (d, p4) = match read_dot_octet_exec(s, p3) {
        None => return None,
        Some(x) => x,
    };
    Some((a * 16777216 + b * 65536 + c * 256 + d, p4))
}

fn read_sep_group_exec(s: &Vec<char>, pos: usize, i: usize) -> (r: Option<(u64, usize)>)
    ensures
        same_read(r, read_sep_group(s@, pos as int, i as nat)),
        r matches Some((v, p)) ==> v <= 65535 && p <= s.len(),
{
    if i == 0 {
        read_number_exec(s, pos, 16, 4, true, 65535)
    } else if char_at_exec(s, pos, ':') {
        read_number_exec(s, pos + 1, 16, 4, true, 65535)
    } else {
        None
    }
}

fn read_sep_ipv4_exec(s: &Vec<char>, pos: usize, i: usize) -> (r: Option<(u64, usize)>)
    ensures
        same_read(r, read_sep_ipv4(s@, pos as int, i as nat)),
        r matches Some((v, p)) ==> v <= 4294967295 && p <= s.len(),
{
    if i == 0 {
        read_ipv4_exec(s, pos)
    } else if char_at_exec(s, pos, ':') {
        read_ipv4_exec(s, pos + 1)
    } else {
        None
    }
}

pub open spec fn groups_nat(g: Seq<u16>) -> Seq<nat> {
    g.map_values(|x: u16| x as nat)
}

/// Reads groups `i..limit`, as [`read_groups`] describes, appending them to `out`.
fn read_groups_exec(s: &Vec<char>, pos: usize, i: usize, limit: usize, out: &mut Vec<u16>) -> (r: (
    usize,
    bool,
))
    requires
        i <= limit <= 8,
        pos <= s.len(),
    ensures
        ({
            let (g, p, v4) = read_groups(s@, pos as int, i as nat, limit as nat);
            &&& groups_nat(final(out)@) == groups_nat(old(out)@) + g
            &&& r.0 as int == p
            &&& r.1 == v4
            &&& p <= s.len()
            &&& g.len() <= limit - i
        }),
    decreases limit - i,
{
    if i >= limit {
        assert(groups_nat(out@) =~= groups_nat(out@) + Seq::<nat>::empty());
        return (pos, false);
    }
    if i + 1 < limit {
        match read_sep_ipv4_exec(s, pos, i) {
            Some((v, p)) => {
                let hi = (v / 65536) as u16;
                let lo = (v % 65536) as u16;
                out.push(hi);
                out.push(lo);
                assert(groups_nat(final(out)@) =~= groups_nat(old(out)@) + seq![
                    (v / 65536) as nat,
                    (v % 65536) as nat,
                ]);
                return (p, true);
            },
            None => {},
        }
    }
    match read_sep_group_exec(s, pos, i) {
        None => {
            assert(groups_nat(out@) =~= groups_nat(out@) + Seq::<nat>::empty());
            (pos, false)
        },
        Some((g, p)) => {
            let ghost before = out@;
            out.push(g as u16);
            let r = read_groups_exec(s, p, i + 1, limit, out);
            proof {
                let (rest, _p2, _v4) = read_groups(s@, p as int, (i + 1) as nat, limit as nat);
                assert(groups_nat(before.push(g as u16)) =~= groups_nat(before) + seq![g as nat]);
                assert(groups_nat(before) + seq![g as nat] + rest =~= groups_nat(before) + (seq![
                    g as nat,
                ].add(rest)));
            }
            r
        },
    }
}

pub open spec fn pow16(n: nat) -> nat
    decreases n,
{
    if n == 0 {
        1
    } else {
        pow16((n - 1) as nat) * 65536
    }
}

proof fn lemma_pow16_mono(a: nat, b: nat)
    requires
        a <= b,
    ensures
        pow16(a) <= pow16(b),
    decreases b - a,
{
    if a < b {
        lemma_pow16_mono(a, (b - 1) as nat);
        assert(pow16((b - 1) as nat) * 65536 >= pow16((b - 1) as nat)) by (nonlinear_arith);
    }
}

proof fn lemma_groups_value_bound(g: Seq<nat>)
    requires
        forall|k: int| 0 <= k < g.len() ==> g[k] <= 65535,
    ensures
        groups_value(g) < pow16(g.len()),
    decreases g.len(),
{
    if g.len() > 0 {
        lemma_groups_value_bound(g.drop_last());
        let p = pow16((g.len() - 1) as nat);
        let v = groups_value(g.drop_last());
        assert(v * 65536 + g.last() < p * 65536) by (nonlinear_arith)
            requires
                v < p,
                g.last() <= 65535,
        ;
    }
}

/// The 128-bit value of eight groups.
fn groups_to_bits(g: &Vec<u16>) -> (r: u128)
    requires
        g.len() <= 8,
    ensures
        r as nat == groups_value(groups_nat(g@)),
{
    let mut acc: u128 = 0;
    let mut i: usize = 0;
    assert(pow16(7) == 0x10000000000000000000000000000) by {
        reveal_with_fuel(pow16, 8);
    }
    while i < g.len()
        invariant
            i <= g.len() <= 8,
            pow16(7) == 0x10000000000000000000000000000,
            acc as nat == groups_value(groups_nat(g@.subrange(0, i as int))),
        decreases g.len() - i,
    {
        proof {
            let gi = groups_nat(g@.subrange(0, i as int));
            assert forall|k: int| 0 <= k < gi.len() implies gi[k] <= 65535 by {}
            lemma_groups_value_bound(gi);
            lemma_pow16_mono(i as nat, 7);
            assert(groups_nat(g@.subrange(0, i + 1)).drop_last() =~= gi);
        }
        assert(acc * 65536 + 65535 <= u128::MAX) by (nonlinear_arith)
            requires
                acc < 0x10000000000000000000000000000,
        ;
        acc = acc * 65536 + g[i] as u128;
        i = i + 1;
    }
    assert(g@.subrange(0, g.len() as int) =~= g@);
    acc
}

/// Reads an IPv6 address at `pos`; gives its value and the position after it.
fn read_ipv6_exec(s: &Vec<char>, pos: usize) -> (r: Option<(u128, usize)>)
    requires
        pos <= s.len(),
    ensures
        match r {
            Some((v, p)) => read_ipv6(s@, pos as int) matches Some((g, q)) && v as nat
                == groups_value(g) && p as int == q && p <= s.len(),
            None => read_ipv6(s@, pos as int) is None,
        },
{
    let mut head: Vec<u16> = Vec::new();
    let (p1, head_v4) = read_groups_exec(s, pos, 0, 8, &mut head);
    assert(groups_nat(head@) =~= read_groups(s@, pos as int, 0, 8).0);
    if head.len() == 8 {
        let v = groups_to_bits(&head);
        return Some((v, p1));
    }
    if head_v4 {
        return None;
    }
    if !(char_at_exec(s, p1, ':') && char_at_exec(s, p1 + 1, ':')) {
        return None;
    }
    let limit = 8 - (head.len() + 1);
    let mut tail: Vec<u16> = Vec::new();
    let (p2, _) = read_groups_exec(s, p1 + 2, 0, limit, &mut tail);
    assert(groups_nat(tail@) =~= read_groups(s@, (p1 + 2) as int, 0, limit as nat).0);
    let zeros = 8 - head.len() - tail.len();
    let mut all = head;
    let ghost hv = all@;
    let mut z: usize = 0;
    while z < zeros
        invariant
            z <= zeros,
            all@ == hv + Seq::new(z as nat, |_i: int| 0u16),
        decreases zeros - z,
    {
        all.push(0);
        z = z + 1;
        assert(all@ =~= hv + Seq::new(z as nat, |_i: int| 0u16));
    }
    let mut t: usize = 0;
    let ghost hz = all@;
    while t < tail.len()
        invariant
            t <= tail.len(),
            all@ == hz + tail@.subrange(0, t as int),
        decreases tail.len() - t,
    {
        all.push(tail[t]);
        t = t + 1;
        assert(all@ =~= hz + tail@.subrange(0, t as int));
    }
    assert(tail@.subrange(0, tail.len() as int) =~= tail@);
    assert(groups_nat(all@) =~= groups_nat(hv) + Seq::new(zeros as nat, |_i: int| 0nat)
        + groups_nat(tail@));
    let v = groups_to_bits(&all);
    Some((v, p2))
}

/// The address written by all of `s`, as [`parse_ip`] describes.
pub fn parse_ip_exec(s: &str) -> (r: Option<IpAddr>)
    ensures
        r == parse_ip(s@),
{
    let cs = crate::text::chars_of(s);
    match read_ipv4_exec(&cs, 0) {
        Some((v, p)) => {
            if p == cs.len() {
                Some(IpAddr::V4(Ipv4Addr { bits: v as u32 }))
            } else {
                None
            }
        },
        None => match read_ipv6_exec(&cs, 0) {
            Some((v, p)) => {
                if p == cs.len() {
                    Some(IpAddr::V6(Ipv6Addr { bits: v }))
                } else {
                    None
                }
            },
            None => None,
        },
    }
}

fn read_port_exec(s: &Vec<char>, pos: usize) -> (r: Option<(u64, usize)>)
    ensures
        same_read(r, read_port(s@, pos as int)),
        r matches Some((v, p)) ==> v <= 65535 && p <= s.len(),
{
    if char_at_exec(s, pos, ':') {
        read_number_exec(s, pos + 1, 10, 0, true, 65535)
    } else {
        None
    }
}

/// The socket address written by all of `s`, as [`parse_socket_addr`] describes.
pub fn parse_socket_addr_exec(s: &str) -> (r: Option<SocketAddr>)
    ensures
        r == parse_socket_addr(s@),
{
    let cs = crate::text::chars_of(s);
    // IPv4 first.
    let v4 = match read_ipv4_exec(&cs, 0) {
        None => None,
        Some((v, p1)) => match read_port_exec(&cs, p1) {
            None => None,
            Some((port, p2)) => Some((SocketAddr::V4 { ip: Ipv4Addr { bits: v as u32 }, port: port as u16 }, p2)),
        },
    };
    assert(match v4 {
        Some((a, p)) => read_socket_v4(cs@) == Some((a, p as int)),
        None => read_socket_v4(cs@) is None,
    });
    if let Some((a, p)) = v4 {
        if p == cs.len() {
            return Some(a);
        } else {
            return None;
        }
    }
    if !char_at_exec(&cs, 0, '[') {
        return None;
    }
    let (bits, p1) = match read_ipv6_exec(&cs, 1) {
        None => return None,
        Some(x) => x,
    };
    let (scope, p2) = if char_at_exec(&cs, p1, '%') {
        match read_number_exec(&cs, p1 + 1, 10, 0, true, 4294967295) {
            Some((sc, q)) => (sc, q),
            None => (0, p1),
        }
    } else {
        (0, p1)
    };
    if !char_at_exec(&cs, p2, ']') {
        return None;
    }
    let (port, p3) = match read_port_exec(&cs, p2 + 1) {
        None => return None,
        Some(x) => x,
    };
    if p3 == cs.len() {
        Some(
            SocketAddr::V6 {
                ip: Ipv6Addr { bits },
                port: port as u16,
                flowinfo: 0,
                scope_id: scope as u32,
            },
        )
    } else {
        None
    }
}

} // verus!
