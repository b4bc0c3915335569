//! The consensus payload a block carries: its nonce, its difficulty and the
//! time it was made, each as eight big-endian bytes.
use vstd::prelude::*;
use crate::pow::{nonce_bytes, nonce_seq};

verus! {

#[derive(Clone, Copy, Debug, PartialEq, Eq, Structural)]
pub struct Payload {
    pub nonce: u64,
    pub difficulty: u64,
    pub timestamp: u64,
}

/// The bytes of `p`.
pub open spec fn payload_seq(p: Payload) -> Seq<u8> {
    nonce_seq(p.nonce) + nonce_seq(p.difficulty) + nonce_seq(p.timestamp)
}

/// The number whose big-endian bytes are `b0` to `b7`.
pub open spec fn u64_of(b0: u8, b1: u8, b2: u8, b3: u8, b4: u8, b5: u8, b6: u8, b7: u8) -> u64 {
    ((b0 as u64) << 56u64) | ((b1 as u64) << 48u64) | ((b2 as u64) << 40u64) | ((b3 as u64) << 32u64)
        | ((b4 as u64) << 24u64) | ((b5 as u64) << 16u64) | ((b6 as u64) << 8u64) | (b7 as u64)
}

proof fn lemma_u64_of_bytes(b0: u8, b1: u8, b2: u8, b3: u8, b4: u8, b5: u8, b6: u8, b7: u8)
    ensures
        nonce_seq(u64_of(b0, b1, b2, b3, b4, b5, b6, b7)) == seq![b0, b1, b2, b3, b4, b5, b6, b7],
{
    let x = u64_of(b0, b1, b2, b3, b4, b5, b6, b7);
    assert(
        (x >> 56u64) as u8 == b0 && (x >> 48u64) as u8 == b1 && (x >> 40u64) as u8 == b2
            && (x >> 32u64) as u8 == b3 && (x >> 24u64) as u8 == b4 && (x >> 16u64) as u8 == b5
            && (x >> 8u64) as u8 == b6 && x as u8 == b7
    ) by (bit_vector)
        requires
            x == ((b0 as u64) << 56u64) | ((b1 as u64) << 48u64) | ((b2 as u64) << 40u64)
                | ((b3 as u64) << 32u64) | ((b4 as u64) << 24u64) | ((b5 as u64) << 16u64)
                | ((b6 as u64) << 8u64) | (b7 as u64),
    ;
    assert(nonce_seq(x) =~= seq![b0, b1, b2, b3, b4, b5, b6, b7]);
}

/// Two numbers with the same bytes are equal.
proof fn lemma_nonce_seq_injective(x: u64, y: u64)
    requires
        nonce_seq(x) == nonce_seq(y),
    ensures
        x == y,
{
    assert(nonce_seq(x)[0] == nonce_seq(y)[0]);
    assert(nonce_seq(x)[1] == nonce_seq(y)[1]);
    assert(nonce_seq(x)[2] == nonce_seq(y)[2]);
    assert(nonce_seq(x)[3] == nonce_seq(y)[3]);
    assert(nonce_seq(x)[4] == nonce_seq(y)[4]);
    assert(nonce_seq(x)[5] == nonce_seq(y)[5]);
    assert(nonce_seq(x)[6] == nonce_seq(y)[6]);
    assert(nonce_seq(x)[7] == nonce_seq(y)[7]);
    assert(x == y) by (bit_vector)
        requires
            (x >> 56u64) as u8 == (y >> 56u64) as u8, (x >> 48u64) as u8 == (y >> 48u64) as u8,
            (x >> 40u64) as u8 == (y >> 40u64) as u8, (x >> 32u64) as u8 == (y >> 32u64) as u8,
            (x >> 24u64) as u8 == (y >> 24u64) as u8, (x >> 16u64) as u8 == (y >> 16u64) as u8,
            (x >> 8u64) as u8 == (y >> 8u64) as u8, x as u8 == y as u8,
    ;
}

/// Decoding undoes encoding: two payloads with the same bytes are the same
/// payload, so the payload that `decode_payload` reads from the bytes of
/// `p` is `p`.
pub proof fn lemma_payload_round_trip(p: Payload, q: Payload)
    requires
        payload_seq(p) == payload_seq(q),
    ensures
        p == q,
{
    let s = payload_seq(p);
    assert(s.subrange(0, 8) =~= nonce_seq(p.nonce));
    assert(s.subrange(0, 8) =~= nonce_seq(q.nonce));
    assert(s.subrange(8, 16) =~= nonce_seq(p.difficulty));
    assert(s.subrange(8, 16) =~= nonce_seq(q.difficulty));
    assert(s.subrange(16, 24) =~= nonce_seq(p.timestamp));
    assert(s.subrange(16, 24) =~= nonce_seq(q.timestamp));
    lemma_nonce_seq_injective(p.nonce, q.nonce);
    lemma_nonce_seq_injective(p.difficulty, q.difficulty);
    lemma_nonce_seq_injective(p.timestamp, q.timestamp);
}

/// The twenty-four bytes of `p`.
pub fn encode_payload(p: &Payload) -> (r: Vec<u8>)
    ensures
        r@ == payload_seq(*p),
{
    let mut r = nonce_bytes(p.nonce);
    let mut d = nonce_bytes(p.difficulty);
    let mut t = nonce_bytes(p.timestamp);
    r.append(&mut d);
    r.append(&mut t);
    r
}

/// The number in the eight bytes of `b` from `at` on.
fn read_u64(b: &Vec<u8>, at: usize) -> (r: u64)
    requires
        at <= 16,
        at + 8 <= b@.len(),
    ensures
        nonce_seq(r) == b@.subrange(at as int, at + 8),
{
    let r = ((b[at] as u64) << 56u64) | ((b[at + 1] as u64) << 48u64) | ((b[at + 2] as u64) << 40u64)
        | ((b[at + 3] as u64) << 32u64) | ((b[at + 4] as u64) << 24u64) | ((b[at + 5] as u64) << 16u64)
        | ((b[at + 6] as u64) << 8u64) | (b[at + 7] as u64);
    proof {
        lemma_u64_of_bytes(b[at as int], b[at + 1], b[at + 2], b[at + 3], b[at + 4], b[at + 5], b[at + 6], b[at + 7]);
        assert(b@.subrange(at as int, at + 8) =~= seq![
            b[at as int], b[at + 1], b[at + 2], b[at + 3], b[at + 4], b[at + 5], b[at + 6], b[at + 7],
        ]);
    }
    r
}

/// Reads a payload: exactly twenty-four bytes give the payload whose bytes
/// they are; any other length gives `None`.
pub fn decode_payload(b: &Vec<u8>) -> (r: Option<Payload>)
    ensures
        r is Some <==> b@.len() == 24,
        r matches Some(p) ==> payload_seq(p) == b@,
{
    if b.len() != 24 {
        return None;
    }
    let p = Payload { nonce: read_u64(b, 0), difficulty: read_u64(b, 8), timestamp: read_u64(b, 16) };
    proof {
        assert(payload_seq(p) =~= b@);
    }
    Some(p)
}

} // verus!
