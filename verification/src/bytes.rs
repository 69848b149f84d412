//! Big-endian numbers and strings in byte streams.

use vstd::prelude::*;
use vstd::utf8::{decode_utf8, encode_utf8, encode_utf8_decode_utf8, encode_utf8_valid_utf8, valid_utf8};

verus! {

/// The four bytes of `n`, most significant first.
pub open spec fn be4(n: u32) -> Seq<u8> {
    seq![
        (n / 0x100_0000) as u8,
        ((n / 0x1_0000) % 0x100) as u8,
        ((n / 0x100) % 0x100) as u8,
        (n % 0x100) as u8,
    ]
}

/// The eight bytes of `n`, most significant first.
pub open spec fn be8(n: u64) -> Seq<u8> {
    be4((n / 0x1_0000_0000) as u32) + be4((n % 0x1_0000_0000) as u32)
}

/// The number that the four bytes at `ip` spell.
pub open spec fn val4(bytes: Seq<u8>, ip: int) -> u32 {
    (bytes[ip] * 0x100_0000 + bytes[ip + 1] * 0x1_0000 + bytes[ip + 2] * 0x100 + bytes[ip + 3]) as u32
}

/// The number that the eight bytes at `ip` spell.
pub open spec fn val8(bytes: Seq<u8>, ip: int) -> u64 {
    (val4(bytes, ip) * 0x1_0000_0000 + val4(bytes, ip + 4)) as u64
}

/// `s` stands in `bytes` at `ip`.
#[verifier::opaque]
pub open spec fn occurs(bytes: Seq<u8>, ip: int, s: Seq<u8>) -> bool {
    0 <= ip && ip + s.len() <= bytes.len() && forall|i: int|
        0 <= i < s.len() ==> #[trigger] s[i] == bytes[ip + i]
}

pub proof fn lemma_occurs_split(bytes: Seq<u8>, ip: int, a: Seq<u8>, b: Seq<u8>)
    ensures
        occurs(bytes, ip, a + b) == (occurs(bytes, ip, a) && occurs(bytes, ip + a.len(), b)),
{
    reveal(occurs);
    let s = a + b;
    if occurs(bytes, ip, s) {
        assert forall|i: int| 0 <= i < a.len() implies #[trigger] a[i] == bytes[ip + i] by {
            assert(s[i] == a[i]);
        }
        assert forall|i: int| 0 <= i < b.len() implies #[trigger] b[i] == bytes[ip + a.len() + i] by {
            assert(s[a.len() + i] == b[i]);
        }
    }
    if occurs(bytes, ip, a) && occurs(bytes, ip + a.len(), b) {
        assert forall|i: int| 0 <= i < s.len() implies #[trigger] s[i] == bytes[ip + i] by {
            if i < a.len() {
                assert(s[i] == a[i]);
            } else {
                assert(s[i] == b[i - a.len()]);
            }
        }
    }
}

/// The first byte of what stands at `ip`, and the rest of it.
pub proof fn lemma_occurs_first(bytes: Seq<u8>, ip: int, b: u8, rest: Seq<u8>)
    requires
        occurs(bytes, ip, seq![b] + rest),
    ensures
        0 <= ip < bytes.len(),
        bytes[ip] == b,
        occurs(bytes, ip + 1, rest),
{
    lemma_occurs_split(bytes, ip, seq![b], rest);
    reveal(occurs);
    assert(seq![b][0] == bytes[ip + 0]);
}

/// A single byte that stands at `ip`.
pub proof fn lemma_occurs_byte(bytes: Seq<u8>, ip: int, b: u8)
    requires
        occurs(bytes, ip, seq![b]),
    ensures
        0 <= ip < bytes.len(),
        bytes[ip] == b,
{
    reveal(occurs);
    assert(seq![b][0] == bytes[ip + 0]);
}

/// What stands at `ip` lies inside the stream.
pub proof fn lemma_occurs_bounds(bytes: Seq<u8>, ip: int, s: Seq<u8>)
    requires
        occurs(bytes, ip, s),
    ensures
        0 <= ip,
        ip + s.len() <= bytes.len(),
{
    reveal(occurs);
}

pub proof fn lemma_val4(bytes: Seq<u8>, ip: int, n: u32)
    requires
        occurs(bytes, ip, be4(n)),
    ensures
        val4(bytes, ip) == n,
        0 <= ip,
        ip + 4 <= bytes.len(),
{
    reveal(occurs);
    let s = be4(n);
    assert(s[0] == bytes[ip + 0] && s[1] == bytes[ip + 1] && s[2] == bytes[ip + 2] && s[3] == bytes[ip
        + 3]);
}

pub proof fn lemma_val8(bytes: Seq<u8>, ip: int, n: u64)
    requires
        occurs(bytes, ip, be8(n)),
    ensures
        val8(bytes, ip) == n,
        0 <= ip,
        ip + 8 <= bytes.len(),
{
    lemma_occurs_split(
        bytes,
        ip,
        be4((n / 0x1_0000_0000) as u32),
        be4((n % 0x1_0000_0000) as u32),
    );
    lemma_val4(bytes, ip, (n / 0x1_0000_0000) as u32);
    lemma_val4(bytes, ip + 4, (n % 0x1_0000_0000) as u32);
}

/// A string as its byte length and its UTF-8 bytes.
pub open spec fn enc_str(s: Seq<char>) -> Seq<u8> {
    be4(encode_utf8(s).len() as u32) + encode_utf8(s)
}

/// The string at `ip`, with where it ends, if one stands there.
pub open spec fn parse_str(bytes: Seq<u8>, ip: int) -> Option<(Seq<char>, int)> {
    if ip + 4 > bytes.len() {
        None
    } else {
        let end = ip + 4 + val4(bytes, ip);
        if end > bytes.len() || !valid_utf8(bytes.subrange(ip + 4, end)) {
            None
        } else {
            Some((decode_utf8(bytes.subrange(ip + 4, end)), end))
        }
    }
}

pub proof fn lemma_str_round_trip(bytes: Seq<u8>, ip: int, s: Seq<char>)
    requires
        occurs(bytes, ip, enc_str(s)),
        encode_utf8(s).len() <= u32::MAX,
    ensures
        parse_str(bytes, ip) == Some((s, ip + enc_str(s).len())),
{
    let body = encode_utf8(s);
    lemma_occurs_split(bytes, ip, be4(body.len() as u32), body);
    lemma_val4(bytes, ip, body.len() as u32);
    assert(bytes.subrange(ip + 4, ip + 4 + body.len()) =~= body) by {
        reveal(occurs);
        assert forall|i: int| 0 <= i < body.len() implies bytes.subrange(
            ip + 4,
            ip + 4 + body.len(),
        )[i] == body[i] by {
            assert(body[i] == bytes[ip + 4 + i]);
        }
    }
    lemma_occurs_bounds(bytes, ip + 4, body);
    encode_utf8_valid_utf8(s);
    encode_utf8_decode_utf8(s);
}

/// Append all of `s`.
pub fn push_all(out: &mut Vec<u8>, s: &[u8])
    ensures
        final(out)@ == old(out)@ + s@,
{
    let ghost before = out@;
    let mut i: usize = 0;
    while i < s.len()
        invariant
            i <= s@.len(),
            out@ == before + s@.take(i as int),
        decreases s.len() - i,
    {
        out.push(s[i]);
        i = i + 1;
        assert(out@ =~= before + s@.take(i as int));
    }
    assert(s@.take(i as int) =~= s@);
}

/// Append the four bytes of `n`.
pub fn push_be4(out: &mut Vec<u8>, n: u32)
    ensures
        final(out)@ == old(out)@ + be4(n),
{
    let ghost before = out@;
    out.push((n / 0x100_0000) as u8);
    out.push(((n / 0x1_0000) % 0x100) as u8);
    out.push(((n / 0x100) % 0x100) as u8);
    out.push((n % 0x100) as u8);
    assert(out@ =~= before + be4(n));
}

/// Append the eight bytes of `n`.
pub fn push_be8(out: &mut Vec<u8>, n: u64)
    ensures
        final(out)@ == old(out)@ + be8(n),
{
    let ghost before = out@;
    push_be4(out, (n / 0x1_0000_0000) as u32);
    push_be4(out, (n % 0x1_0000_0000) as u32);
    assert(out@ =~= before + be8(n));
}

/// Append a string with its length.
pub fn push_str(out: &mut Vec<u8>, s: &String)
    ensures
        final(out)@ == old(out)@ + enc_str(s@),
{
    let ghost before = out@;
    let body = s.as_str().as_bytes();
    push_be4(out, body.len() as u32);
    push_all(out, body);
    assert(out@ =~= before + enc_str(s@));
}

/// Read four bytes at `ip` and step past them.
pub fn take4(bytes: &[u8], ip: &mut usize) -> (r: u32)
    requires
        *old(ip) + 4 <= bytes@.len(),
    ensures
        r == val4(bytes@, *old(ip) as int),
        *final(ip) == *old(ip) + 4,
{
    let a: u32 = bytes[*ip] as u32;
    let b: u32 = bytes[*ip + 1] as u32;
    let c: u32 = bytes[*ip + 2] as u32;
    let d: u32 = bytes[*ip + 3] as u32;
    *ip = *ip + 4;
    a * 0x100_0000 + b * 0x1_0000 + c * 0x100 + d
}

/// Read eight bytes at `ip` and step past them.
pub fn take8(bytes: &[u8], ip: &mut usize) -> (r: u64)
    requires
        *old(ip) + 8 <= bytes@.len(),
    ensures
        r == val8(bytes@, *old(ip) as int),
        *final(ip) == *old(ip) + 8,
{
    let hi: u64 = take4(bytes, ip) as u64;
    let lo: u64 = take4(bytes, ip) as u64;
    hi * 0x1_0000_0000 + lo
}

/// `std::str::from_utf8`: the text that the bytes encode, or nothing where they
/// are not valid UTF-8.
#[verifier::external_body]
fn text_of(bytes: &[u8]) -> (r: Option<String>)
    ensures
        r is Some == valid_utf8(bytes@),
        r is Some ==> r->0@ == decode_utf8(bytes@),
{
    match std::str::from_utf8(bytes) {
        Ok(s) => Some(s.to_string()),
        Err(_) => None,
    }
}

/// Read a string at `ip` and step past it.
pub fn take_str(bytes: &[u8], ip: &mut usize) -> (r: String)
    requires
        parse_str(bytes@, *old(ip) as int) is Some,
    ensures
        Some((r@, *final(ip) as int)) == parse_str(bytes@, *old(ip) as int),
{
    let len: usize = take4(bytes, ip) as usize;
    let start: usize = *ip;
    let total: usize = bytes.len();
    assert(start + len <= total);
    let body = vstd::slice::slice_subrange(bytes, start, start + len);
    *ip = start + len;
    match text_of(body) {
        Some(s) => s,
        None => String::new(),
    }
}

} // verus!
