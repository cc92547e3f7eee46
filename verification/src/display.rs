//! How addresses are written out: dotted quads, IPv6 groups in lower-case hex with
//! the first longest run of two or more zero groups shortened to `::`, IPv4-mapped
//! addresses as `::ffff:a.b.c.d`, and socket addresses with their port.

use crate::net::SocketAddr;
use crate::text::{decimal, digit_char, push_decimal, push_str};
use vstd::prelude::*;

verus! {

pub open spec fn hex_char(d: nat) -> char {
    if d < 10 {
        digit_char(d)
    } else if d == 10 {
        'a'
    } else if d == 11 {
        'b'
    } else if d == 12 {
        'c'
    } else if d == 13 {
        'd'
    } else if d == 14 {
        'e'
    } else {
        'f'
    }
}

/// Lower-case hex digits of `n`, without leading zeros.
pub open spec fn hex(n: nat) -> Seq<char>
    decreases n,
{
    if n < 16 {
        seq![hex_char(n)]
    } else {
        hex(n / 16).push(hex_char(n % 16))
    }
}

fn hex_char_exec(d: u16) -> (c: char)
    requires
        d < 16,
    ensures
        c == hex_char(d as nat),
{
    if d < 10 {
        crate::text::digit_char_exec(d as u128)
    } else if d == 10 {
        'a'
    } else if d == 11 {
        'b'
    } else if d == 12 {
        'c'
    } else if d == 13 {
        'd'
    } else if d == 14 {
        'e'
    } else {
        'f'
    }
}

fn push_hex(s: &mut String, n: u16)
    ensures
        final(s)@ == old(s)@ + hex(n as nat),
    decreases n,
{
    if n < 16 {
        let c = hex_char_exec(n);
        s.push(c);
        assert(hex(n as nat) =~= seq![hex_char(n as nat)]);
    } else {
        push_hex(s, n / 16);
        let c = hex_char_exec(n % 16);
        s.push(c);
        assert(old(s)@ + hex(n as nat) =~= (old(s)@ + hex((n / 16) as nat)).push(c));
    }
}

/// `a.b.c.d` for the address whose big-endian number is `bits`.
pub open spec fn ipv4_text(bits: u32) -> Seq<char> {
    decimal(((bits >> 24u32) & 0xffu32) as nat) + "."@ + decimal(((bits >> 16u32) & 0xffu32) as nat) + "."@
        + decimal(((bits >> 8u32) & 0xffu32) as nat) + "."@ + decimal((bits & 0xffu32) as nat)
}

fn push_ipv4(s: &mut String, bits: u32)
    ensures
        final(s)@ == old(s)@ + ipv4_text(bits),
{
    push_decimal(s, ((bits >> 24u32) & 0xffu32) as u128);
    push_str(s, ".");
    push_decimal(s, ((bits >> 16u32) & 0xffu32) as u128);
    push_str(s, ".");
    push_decimal(s, ((bits >> 8u32) & 0xffu32) as u128);
    push_str(s, ".");
    push_decimal(s, (bits & 0xffu32) as u128);
    assert(final(s)@ =~= old(s)@ + ipv4_text(bits));
}

/// The `i`-th of the eight 16-bit groups of an IPv6 address, most significant first.
pub open spec fn group(bits: u128, i: int) -> nat {
    ((bits >> ((7 - i) * 16) as u32) & 0xffffu128) as nat
}

pub open spec fn groups(bits: u128) -> Seq<nat> {
    Seq::new(8, |i: int| group(bits, i))
}

/// After the first `i` groups: where the longest run of zero groups so far starts and
/// how long it is (the first one wins a tie), and the same for the current run.
pub open spec fn zero_scan(g: Seq<nat>, i: int) -> (int, int, int, int)
    decreases i,
{
    if i <= 0 {
        (0, 0, 0, 0)
    } else {
        let (ls, ll, cs, cl) = zero_scan(g, i - 1);
        if g[i - 1] == 0 {
            let cs2 = if cl == 0 {
                i - 1
            } else {
                cs
            };
            if cl + 1 > ll {
                (cs2, cl + 1, cs2, cl + 1)
            } else {
                (ls, ll, cs2, cl + 1)
            }
        } else {
            (ls, ll, 0, 0)
        }
    }
}

/// Groups in hex, separated by colons.
pub open spec fn join_hex(g: Seq<nat>) -> Seq<char>
    decreases g.len(),
{
    if g.len() == 0 {
        Seq::empty()
    } else if g.len() == 1 {
        hex(g[0])
    } else {
        join_hex(g.drop_last()) + ":"@ + hex(g.last())
    }
}

pub open spec fn is_ipv4_mapped(g: Seq<nat>) -> bool {
    g[0] == 0 && g[1] == 0 && g[2] == 0 && g[3] == 0 && g[4] == 0 && g[5] == 0xffff
}

/// The text of an IPv6 address.
pub open spec fn ipv6_text(bits: u128) -> Seq<char> {
    let g = groups(bits);
    if is_ipv4_mapped(g) {
        "::ffff:"@ + ipv4_text((bits & 0xffff_ffffu128) as u32)
    } else {
        let (s, l, _, _) = zero_scan(g, 8);
        if l > 1 {
            join_hex(g.subrange(0, s)) + "::"@ + join_hex(g.subrange(s + l, 8))
        } else {
            join_hex(g)
        }
    }
}

/// The text of a socket address: `a.b.c.d:port`, or `[v6]:port` with `%scope`
/// inside the brackets when the scope is not zero.
pub open spec fn socket_text(a: SocketAddr) -> Seq<char> {
    match a {
        SocketAddr::V4 { ip, port } => ipv4_text(ip.bits) + ":"@ + decimal(port as nat),
        SocketAddr::V6 { ip, port, scope_id, .. } => "["@ + ipv6_text(ip.bits) + (if scope_id != 0 {
            "%"@ + decimal(scope_id as nat)
        } else {
            Seq::empty()
        }) + "]:"@ + decimal(port as nat),
    }
}

fn group_exec(bits: u128, i: usize) -> (r: u16)
    requires
        i < 8,
    ensures
        r as nat == group(bits, i as int),
{
    let sh: u32 = ((7 - i) * 16) as u32;
    let v = (bits >> sh) & 0xffffu128;
    assert(v <= 0xffff) by (bit_vector)
        requires
            v == (bits >> sh) & 0xffffu128,
    ;
    v as u16
}

/// Appends groups `a..b` in hex, separated by colons.
fn push_groups(s: &mut String, g: &Vec<u16>, a: usize, b: usize)
    requires
        a <= b <= g.len(),
    ensures
        final(s)@ == old(s)@ + join_hex(g@.subrange(a as int, b as int).map_values(|x: u16| x as nat)),
{
    let ghost gv = g@.map_values(|x: u16| x as nat);
    let mut i = a;
    while i < b
        invariant
            a <= i <= b <= g.len(),
            gv == g@.map_values(|x: u16| x as nat),
            s@ == old(s)@ + join_hex(gv.subrange(a as int, i as int)),
        decreases b - i,
    {
        let ghost before = s@;
        if i > a {
            push_str(s, ":");
        }
        push_hex(s, g[i]);
        proof {
            let p = gv.subrange(a as int, i + 1);
            assert(p.drop_last() =~= gv.subrange(a as int, i as int));
            assert(p.last() == g@[i as int] as nat);
            if i == a {
                assert(gv.subrange(a as int, i as int) =~= Seq::<nat>::empty());
                assert(s@ =~= old(s)@ + join_hex(p));
            } else {
                assert(s@ =~= old(s)@ + join_hex(p));
            }
        }
        i = i + 1;
    }
    assert(gv.subrange(a as int, b as int) =~= g@.subrange(a as int, b as int).map_values(|x: u16| x as nat));
}

fn push_ipv6(s: &mut String, bits: u128)
    ensures
        final(s)@ == old(s)@ + ipv6_text(bits),
{
    let ghost gs = groups(bits);
    let mut g: Vec<u16> = Vec::new();
    let mut i: usize = 0;
    while i < 8
        invariant
            i <= 8,
            g.len() == i,
            gs == groups(bits),
            forall|k: int| 0 <= k < i ==> (#[trigger] g@[k]) as nat == gs[k],
        decreases 8 - i,
    {
        g.push(group_exec(bits, i));
        i = i + 1;
    }
    assert(g@.map_values(|x: u16| x as nat) =~= gs);
    if g[0] == 0 && g[1] == 0 && g[2] == 0 && g[3] == 0 && g[4] == 0 && g[5] == 0xffff {
        push_str(s, "::ffff:");
        let low: u32 = (bits & 0xffff_ffffu128) as u32;
        push_ipv4(s, low);
        assert(final(s)@ =~= old(s)@ + ipv6_text(bits));
    } else {
        let mut ls: usize = 0;
        let mut ll: usize = 0;
        let mut cs: usize = 0;
        let mut cl: usize = 0;
        let mut k: usize = 0;
        while k < 8
            invariant
                k <= 8,
                g.len() == 8,
                gs == groups(bits),
                forall|z: int| 0 <= z < 8 ==> (#[trigger] g@[z]) as nat == gs[z],
                (ls as int, ll as int, cs as int, cl as int) == zero_scan(gs, k as int),
                ls + ll <= k,
                cs + cl == k || cl == 0,
                ll <= k,
                cl <= k,
            decreases 8 - k,
        {
            if g[k] == 0 {
                if cl == 0 {
                    cs = k;
                }
                cl = cl + 1;
                if cl > ll {
                    ls = cs;
                    ll = cl;
                }
            } else {
                cs = 0;
                cl = 0;
            }
            k = k + 1;
        }
        assert(g@.subrange(0, 8) =~= g@);
        if ll > 1 {
            push_groups(s, &g, 0, ls);
            push_str(s, "::");
            push_groups(s, &g, ls + ll, 8);
            assert(g@.subrange(0, ls as int).map_values(|x: u16| x as nat) =~= gs.subrange(0, ls as int));
            assert(g@.subrange((ls + ll) as int, 8).map_values(|x: u16| x as nat) =~= gs.subrange(
                (ls + ll) as int,
                8,
            ));
            assert(final(s)@ =~= old(s)@ + ipv6_text(bits));
        } else {
            push_groups(s, &g, 0, 8);
            assert(final(s)@ =~= old(s)@ + ipv6_text(bits));
        }
    }
}

/// The text of a socket address, as the worker prints it.
pub fn socket_text_exec(a: &SocketAddr) -> (r: String)
    ensures
        r@ == socket_text(*a),
{
    let mut s = String::new();
    match a {
        SocketAddr::V4 { ip, port } => {
            push_ipv4(&mut s, ip.bits);
            push_str(&mut s, ":");
            push_decimal(&mut s, *port as u128);
        },
        SocketAddr::V6 { ip, port, scope_id, .. } => {
            push_str(&mut s, "[");
            push_ipv6(&mut s, ip.bits);
            if *scope_id != 0 {
                push_str(&mut s, "%");
                push_decimal(&mut s, *scope_id as u128);
            }
            push_str(&mut s, "]:");
            push_decimal(&mut s, *port as u128);
        },
    }
    assert(s@ =~= socket_text(*a));
    s
}

} // verus!
