//! The proof-of-work puzzle: a nonce solves a header for a target when the
//! SHA-256 digest of the header followed by the nonce, read as a big-endian
//! number, does not exceed the target.
use vstd::prelude::*;
use sha2::Digest;

verus! {

/// `256` to the power `n`: the weight of a byte `n` places from the end.
pub open spec fn place(n: nat) -> int
    decreases n,
{
    if n == 0 { 1 } else { 256 * place((n - 1) as nat) }
}

/// The bytes of `s` read as a big-endian unsigned number.
pub open spec fn be_value(s: Seq<u8>) -> int
    decreases s.len(),
{
    if s.len() == 0 {
        0
    } else {
        s[0] * place((s.len() - 1) as nat) + be_value(s.drop_first())
    }
}

/// The eight bytes of `n`, most significant first.
pub open spec fn nonce_seq(n: u64) -> Seq<u8> {
    seq![
        (n >> 56u64) as u8, (n >> 48u64) as u8, (n >> 40u64) as u8, (n >> 32u64) as u8,
        (n >> 24u64) as u8, (n >> 16u64) as u8, (n >> 8u64) as u8, n as u8,
    ]
}

/// The SHA-256 digest of `data`.
pub uninterp spec fn sha256_of(data: Seq<u8>) -> Seq<u8>;

/// `nonce` solves `header` for `target`.
pub open spec fn solves(header: Seq<u8>, nonce: u64, target: Seq<u8>) -> bool {
    be_value(sha256_of(header + nonce_seq(nonce))) <= be_value(target)
}

/// The 256-bit target of a difficulty: the top eight bytes hold
/// `u64::MAX / d`, the other twenty-four are all ones.
pub open spec fn target_seq(d: u64) -> Seq<u8> {
    nonce_seq((u64::MAX / d) as u64) + Seq::new(24, |i: int| 0xffu8)
}

/// Relies on sha2::Sha256::digest (through digest::Digest): the SHA-256
/// digest of `data`, which is 32 bytes long.
#[verifier::external_body]
fn sha256(data: &Vec<u8>) -> (r: Vec<u8>)
    ensures
        r@ == sha256_of(data@),
        r@.len() == 32,
{
    sha2::Sha256::digest(data.as_slice()).to_vec()
}

proof fn lemma_place_positive(n: nat)
    ensures
        place(n) >= 1,
    decreases n,
{
    if n > 0 {
        lemma_place_positive((n - 1) as nat);
    }
}

proof fn lemma_be_value_below(s: Seq<u8>)
    ensures
        0 <= be_value(s) < place(s.len()),
    decreases s.len(),
{
    if s.len() > 0 {
        let p = place((s.len() - 1) as nat);
        lemma_be_value_below(s.drop_first());
        lemma_place_positive((s.len() - 1) as nat);
        let r = be_value(s.drop_first());
        assert(0 <= s[0] * p + r < 256 * p) by (nonlinear_arith)
            requires 0 <= s[0] <= 255, 0 <= r < p, p >= 1;
    }
}

/// Two numbers of the same width that differ first in their leading byte
/// are ordered by that byte.
proof fn lemma_leading_byte_decides(s: Seq<u8>, t: Seq<u8>)
    requires
        s.len() == t.len(),
        s.len() > 0,
        s[0] < t[0],
    ensures
        be_value(s) < be_value(t),
{
    let p = place((s.len() - 1) as nat);
    lemma_be_value_below(s.drop_first());
    lemma_be_value_below(t.drop_first());
    let rs = be_value(s.drop_first());
    let rt = be_value(t.drop_first());
    assert(s[0] * p + rs < t[0] * p + rt) by (nonlinear_arith)
        requires s[0] < t[0], 0 <= rs < p, 0 <= rt, p >= 1;
}

/// The eight big-endian bytes of `n`.
pub fn nonce_bytes(n: u64) -> (r: Vec<u8>)
    ensures
        r@ == nonce_seq(n),
{
    let r: Vec<u8> = vec![
        (n >> 56u64) as u8, (n >> 48u64) as u8, (n >> 40u64) as u8, (n >> 32u64) as u8,
        (n >> 24u64) as u8, (n >> 16u64) as u8, (n >> 8u64) as u8, n as u8,
    ];
    proof {
        assert(r@ =~= nonce_seq(n));
    }
    r
}

/// The 256-bit target that a block of difficulty `d` must meet.
pub fn target_for(d: u64) -> (r: Vec<u8>)
    requires
        d >= 1,
    ensures
        r@ == target_seq(d),
        r@.len() == 32,
{
    let mut r = nonce_bytes(u64::MAX / d);
    let mut i: usize = 0;
    while i < 24
        invariant
            i <= 24,
            r@ == nonce_seq((u64::MAX / d) as u64) + Seq::new(i as nat, |j: int| 0xffu8),
        decreases 24 - i,
    {
        r.push(0xffu8);
        i = i + 1;
        proof {
            assert(r@ =~= nonce_seq((u64::MAX / d) as u64) + Seq::new(i as nat, |j: int| 0xffu8));
        }
    }
    r
}

/// Whether `hash`, read as a big-endian number, is at most `target`, read
/// the same way; both have the same width.
pub fn at_most(hash: &Vec<u8>, target: &Vec<u8>) -> (r: bool)
    requires
        hash@.len() == target@.len(),
    ensures
        r == (be_value(hash@) <= be_value(target@)),
{
    let n = hash.len();
    let mut i: usize = 0;
    proof {
        assert(hash@.subrange(0, n as int) =~= hash@);
        assert(target@.subrange(0, n as int) =~= target@);
    }
    while i < n
        invariant
            n == hash@.len(),
            n == target@.len(),
            i <= n,
            (be_value(hash@) <= be_value(target@))
                == (be_value(hash@.subrange(i as int, n as int)) <= be_value(target@.subrange(i as int, n as int))),
        decreases n - i,
    {
        let hs = Ghost(hash@.subrange(i as int, n as int));
        let ts = Ghost(target@.subrange(i as int, n as int));
        proof {
            assert(hs@.drop_first() =~= hash@.subrange(i + 1, n as int));
            assert(ts@.drop_first() =~= target@.subrange(i + 1, n as int));
        }
        if hash[i] < target[i] {
            proof {
                lemma_leading_byte_decides(hs@, ts@);
            }
            return true;
        }
        if hash[i] > target[i] {
            proof {
                lemma_leading_byte_decides(ts@, hs@);
            }
            return false;
        }
        i = i + 1;
    }
    proof {
        assert(hash@.subrange(n as int, n as int).len() == 0);
        assert(target@.subrange(n as int, n as int).len() == 0);
    }
    true
}

/// Whether `nonce` solves `header` for the 256-bit `target`.
pub fn check_nonce(header: &Vec<u8>, nonce: u64, target: &Vec<u8>) -> (r: bool)
    requires
        target@.len() == 32,
    ensures
        r == solves(header@, nonce, target@),
{
    let mut data = header.clone();
    let mut tail = nonce_bytes(nonce);
    data.append(&mut tail);
    let digest = sha256(&data);
    at_most(&digest, target)
}

/// The `k`-th nonce of a worker that starts at `start` and steps by `stride`.
pub open spec fn nonce_at(start: int, stride: int, k: int) -> int {
    start + k * stride
}

/// One worker's search: tries the nonces `start`, `start + stride`, ...,
/// `tries` of them at most, stopping before a nonce would pass `u64::MAX`.
/// Returns the first that solves `header` for `target`, or `None` when
/// none of the nonces tried does.
pub fn search(header: &Vec<u8>, target: &Vec<u8>, start: u64, stride: u64, tries: u64) -> (r: Option<u64>)
    requires
        target@.len() == 32,
    ensures
        r matches Some(n) ==> solves(header@, n, target@)
            && exists|k: int| 0 <= k < tries && n == #[trigger] nonce_at(start as int, stride as int, k),
        r is None ==> forall|k: int| 0 <= k < tries && #[trigger] nonce_at(start as int, stride as int, k) <= u64::MAX
            ==> !solves(header@, nonce_at(start as int, stride as int, k) as u64, target@),
{
    let mut k: u64 = 0;
    let mut nonce: u64 = start;
    while k < tries
        invariant
            target@.len() == 32,
            k <= tries,
            nonce == nonce_at(start as int, stride as int, k as int),
            forall|j: int| 0 <= j < k && #[trigger] nonce_at(start as int, stride as int, j) <= u64::MAX
                ==> !solves(header@, nonce_at(start as int, stride as int, j) as u64, target@),
        decreases tries - k,
    {
        if check_nonce(header, nonce, target) {
            assert(nonce == nonce_at(start as int, stride as int, k as int));
            return Some(nonce);
        }
        if nonce > u64::MAX - stride {
            proof {
                assert forall|j: int| 0 <= j < tries && #[trigger] nonce_at(start as int, stride as int, j) <= u64::MAX
                    implies !solves(header@, nonce_at(start as int, stride as int, j) as u64, target@) by {
                    if j > k {
                        assert(j * stride >= (k + 1) * stride) by (nonlinear_arith)
                            requires j >= k + 1, stride >= 0;
                        assert((k + 1) * stride == k * stride + stride) by (nonlinear_arith);
                    }
                }
            }
            return None;
        }
        proof {
            assert((k + 1) * stride == k * stride + stride) by (nonlinear_arith);
        }
        nonce = nonce + stride;
        k = k + 1;
    }
    None
}

} // verus!
