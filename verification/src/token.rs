//! Opaque credential generation and digesting.
//!
//! Session tokens and API-key secrets are high-entropy random strings of ASCII
//! letters and digits; only their SHA-256 digest is persisted for API keys, while a
//! session token is itself the session's record key.

use vstd::prelude::*;
use vstd::string::StringSliceAdditionalSpecFns;

verus! {

/// Number of random alphanumeric characters in an opaque credential: 43 base-62
/// characters carry about 256 bits of entropy.
pub const TOKEN_LEN: usize = 43;

/// An ASCII letter or digit.
pub open spec fn is_alnum(c: char) -> bool {
    ('0' <= c && c <= '9') || ('A' <= c && c <= 'Z') || ('a' <= c && c <= 'z')
}

/// `len` ASCII letters and digits after `prefix`.
pub open spec fn is_credential(s: Seq<char>, prefix: Seq<char>, len: nat) -> bool {
    &&& s.len() == prefix.len() + len
    &&& s.subrange(0, prefix.len() as int) == prefix
    &&& forall|i: int| prefix.len() <= i < s.len() ==> is_alnum(#[trigger] s[i])
}

/// One character drawn from `rand`'s `Alphanumeric` distribution with the thread's
/// generator: an ASCII letter or digit, each of the 62 equally likely. Which one comes
/// out is chance. (The thread's generator panics if the operating system cannot
/// seed it.)
#[verifier::external_body]
fn random_alphanumeric_char() -> (c: char)
    ensures
        is_alnum(c),
{
    let b: u8 = <rand::rngs::ThreadRng as rand::Rng>::sample(&mut rand::rng(), rand::distr::Alphanumeric);
    b as char
}

/// Appends `len` random ASCII letters and digits.
fn push_random_alphanumeric(s: &mut String, len: usize)
    ensures
        final(s)@.len() == old(s)@.len() + len,
        final(s)@.subrange(0, old(s)@.len() as int) == old(s)@,
        forall|i: int| old(s)@.len() <= i < final(s)@.len() ==> is_alnum(#[trigger] final(s)@[i]),
{
    let ghost s0 = s@;
    let mut k: usize = 0;
    while k < len
        invariant
            k <= len,
            s@.len() == s0.len() + k,
            s@.subrange(0, s0.len() as int) == s0,
            forall|i: int| s0.len() <= i < s@.len() ==> is_alnum(#[trigger] s@[i]),
        decreases len - k,
    {
        let c = random_alphanumeric_char();
        let ghost before = s@;
        s.push(c);
        assert(s@ == before.push(c));
        assert(s@.subrange(0, s0.len() as int) =~= s0) by {
            assert(before.subrange(0, s0.len() as int) == s0);
        }
        k = k + 1;
    }
}

/// A fresh credential: `prefix` and `TOKEN_LEN` random letters and digits.
fn credential(prefix: &str) -> (r: String)
    ensures
        is_credential(r@, prefix@, TOKEN_LEN as nat),
{
    let mut s = String::new();
    crate::text::push_str(&mut s, prefix);
    assert(s@ =~= prefix@);
    push_random_alphanumeric(&mut s, TOKEN_LEN);
    s
}

/// A fresh opaque session token (about 256 bits of entropy).
pub fn generate_session_token() -> (r: String)
    ensures
        is_credential(r@, Seq::empty(), TOKEN_LEN as nat),
{
    let r = credential("");
    proof {
        reveal_strlit("");
        assert(""@ =~= Seq::<char>::empty());
        assert(r@.subrange(0, 0) =~= Seq::<char>::empty());
    }
    r
}

/// A fresh API-key secret: `gk_` and about 256 bits of entropy.
pub fn generate_api_key_secret() -> (r: String)
    ensures
        is_credential(r@, "gk_"@, TOKEN_LEN as nat),
{
    credential("gk_")
}

/// A fresh dynamic refresh key for a worker session: `gr_` and about 256 bits of
/// entropy. Only its digest is persisted.
pub fn generate_refresh_key() -> (r: String)
    ensures
        is_credential(r@, "gr_"@, TOKEN_LEN as nat),
{
    credential("gr_")
}

/// The SHA-256 digest of some bytes.
pub uninterp spec fn sha256_of(bytes: Seq<u8>) -> Seq<u8>;

/// `sha2`'s `Sha256::digest`: the 32-byte SHA-256 digest of `bytes`.
#[verifier::external_body]
fn sha256(bytes: &[u8]) -> (r: Vec<u8>)
    ensures
        r@ == sha256_of(bytes@),
        r.len() == 32,
{
    <sha2::Sha256 as sha2::Digest>::digest(bytes).to_vec()
}

pub open spec fn hex_digit(d: nat) -> char {
    crate::display::hex_char(d)
}

/// Two lower-case hex digits per byte.
pub open spec fn hex_bytes(b: Seq<u8>) -> Seq<char>
    decreases b.len(),
{
    if b.len() == 0 {
        Seq::empty()
    } else {
        hex_bytes(b.drop_last()) + seq![hex_digit((b.last() / 16) as nat), hex_digit((b.last() % 16) as nat)]
    }
}

fn hex_digit_exec(d: u8) -> (c: char)
    requires
        d < 16,
    ensures
        c == hex_digit(d as nat),
{
    if d < 10 {
        crate::text::digit_char_exec(d as u128)
    } else if d == 10 {
        'a'
    } else if d == 11 {
        'b'
    } else if d == 12 {
        'c'
    } else if d == 13 {
        'd'
    } else if d == 14 {
        'e'
    } else {
        'f'
    }
}

/// The lower-case hexadecimal SHA-256 digest of `input`'s UTF-8 bytes.
pub fn sha256_hex(input: &str) -> (r: String)
    ensures
        r@ == hex_bytes(sha256_of(input.spec_bytes())),
{
    let d = sha256(input.as_bytes());
    let mut s = String::new();
    let mut i: usize = 0;
    while i < d.len()
        invariant
            i <= d.len(),
            s@ == hex_bytes(d@.subrange(0, i as int)),
        decreases d.len() - i,
    {
        let b = d[i];
        let ghost before = s@;
        s.push(hex_digit_exec(b / 16));
        s.push(hex_digit_exec(b % 16));
        assert(d@.subrange(0, i + 1).drop_last() =~= d@.subrange(0, i as int));
        assert(s@ =~= hex_bytes(d@.subrange(0, i + 1)));
        i = i + 1;
    }
    assert(d@.subrange(0, d.len() as int) =~= d@);
    s
}

} // verus!
