//! Deterministic hashing into the second group and into byte strings.
use crate::curve::{fr, g1_compress, g1_encoding, g1_log, g2_log};
use pairing::bls12_381::{G1, G2};
use rand::{ChaChaRng, Rng, SeedableRng};
use vstd::prelude::*;

verus! {

/// What SHA3-256 gives for `data`.
pub uninterp spec fn sha3_256_of(data: Seq<u8>) -> Seq<u8>;

/// The logarithm of the element of the second group that a ChaCha generator
/// seeded with `seed` draws first.
pub uninterp spec fn chacha_g2_log(seed: Seq<u32>) -> int;

/// The byte at position `i` of the stream of bytes that a ChaCha generator
/// seeded with `seed` draws.
pub uninterp spec fn chacha_byte(seed: Seq<u32>, i: int) -> u8;

/// The first `len` bytes that a ChaCha generator seeded with `seed` draws.
pub open spec fn chacha_bytes(seed: Seq<u32>, len: nat) -> Seq<u8> {
    Seq::new(len, |i: int| chacha_byte(seed, i))
}

/// Relies on `tiny_keccak::sha3_256`: the 32-byte digest of `data`.
#[verifier::external_body]
fn sha3_256(data: &[u8]) -> (r: Vec<u8>)
    ensures
        r@ == sha3_256_of(data@),
        r@.len() == 32,
{
    tiny_keccak::sha3_256(data).to_vec()
}

/// Relies on `ChaChaRng::from_seed` and `Rng::gen` of `G2`: a point drawn
/// from the stream of the seeded generator.
#[verifier::external_body]
fn g2_from_seed(seed: &Vec<u32>) -> (r: G2)
    ensures
        g2_log(r) == chacha_g2_log(seed@),
{
    ChaChaRng::from_seed(&seed[..]).gen()
}

/// Relies on `ChaChaRng::from_seed` and `Rng::gen_iter` of `u8`: the first
/// `len` bytes of the stream of the seeded generator.
#[verifier::external_body]
fn bytes_from_seed(seed: &Vec<u32>, len: usize) -> (r: Vec<u8>)
    ensures
        r@ == Seq::new(len as nat, |i: int| chacha_byte(seed@, i)),
{
    ChaChaRng::from_seed(&seed[..]).gen_iter().take(len).collect()
}

/// The big-endian 32-bit word at position `i` of `d`.
pub open spec fn be_word(d: Seq<u8>, i: int) -> int {
    d[4 * i] * 0x100_0000 + d[4 * i + 1] * 0x1_0000 + d[4 * i + 2] * 0x100 + d[4 * i + 3]
}

/// The eight big-endian words of a 32-byte digest.
pub open spec fn seed_of(d: Seq<u8>) -> Seq<u32> {
    Seq::new(8, |i: int| be_word(d, i) as u32)
}

/// The logarithm of the hash of `m` into the second group.
pub open spec fn hash_g2_log(m: Seq<u8>) -> int {
    chacha_g2_log(seed_of(sha3_256_of(m)))
}

/// A message as it enters the hash of a point and a message: longer than 64
/// bytes, it is replaced by its digest.
pub open spec fn shortened(m: Seq<u8>) -> Seq<u8> {
    if m.len() > 64 {
        sha3_256_of(m)
    } else {
        m
    }
}

/// The logarithm of the hash into the second group of the point of the first
/// group with logarithm `k` and the message `m`.
pub open spec fn hash_g1_g2_log(k: int, m: Seq<u8>) -> int {
    hash_g2_log(shortened(m) + g1_encoding(fr(k)))
}

/// The `len` bytes that the point of the first group with logarithm `k` hashes to.
pub open spec fn hash_bytes_of(k: int, len: nat) -> Seq<u8> {
    chacha_bytes(seed_of(sha3_256_of(g1_encoding(fr(k)))), len)
}

/// The byte-wise exclusive or of `x` and `y`, as long as the shorter of them.
pub open spec fn xor_seq(x: Seq<u8>, y: Seq<u8>) -> Seq<u8> {
    Seq::new(
        if x.len() <= y.len() {
            x.len()
        } else {
            y.len()
        },
        |i: int| x[i] ^ y[i],
    )
}

/// Reads the eight big-endian words of a 32-byte digest.
fn seed_from_digest(d: &Vec<u8>) -> (r: Vec<u32>)
    requires
        d@.len() == 32,
    ensures
        r@ == seed_of(d@),
{
    let mut r: Vec<u32> = Vec::new();
    let mut i: usize = 0;
    while i < 8
        invariant
            d@.len() == 32,
            i <= 8,
            r@.len() == i,
            forall|j: int| 0 <= j < i ==> r@[j] == be_word(d@, j) as u32,
        decreases 8 - i,
    {
        let w: u32 = (d[4 * i] as u32) * 0x100_0000 + (d[4 * i + 1] as u32) * 0x1_0000 + (d[4 * i
            + 2] as u32) * 0x100 + (d[4 * i + 3] as u32);
        r.push(w);
        i = i + 1;
    }
    assert(r@ =~= seed_of(d@));
    r
}

/// Appends the bytes of `s` to `v`.
pub(crate) fn extend_bytes(v: &mut Vec<u8>, s: &[u8])
    ensures
        final(v)@ == old(v)@ + s@,
{
    let mut i: usize = 0;
    while i < s.len()
        invariant
            i <= s@.len(),
            v@ == old(v)@ + s@.subrange(0, i as int),
        decreases s@.len() - i,
    {
        v.push(s[i]);
        i = i + 1;
        assert(v@ =~= old(v)@ + s@.subrange(0, i as int));
    }
    assert(s@.subrange(0, s@.len() as int) =~= s@);
}

/// Returns a hash of the given message in the second group.
pub fn hash_g2(msg: &[u8]) -> (r: G2)
    ensures
        g2_log(r) == hash_g2_log(msg@),
{
    let digest = sha3_256(msg);
    let seed = seed_from_digest(&digest);
    g2_from_seed(&seed)
}

/// Returns a hash of the point of the first group and the message, in the second group.
pub fn hash_g1_g2(g1: &G1, msg: &[u8]) -> (r: G2)
    ensures
        g2_log(r) == hash_g1_g2_log(g1_log(*g1), msg@),
{
    let mut m: Vec<u8> = if msg.len() > 64 {
        sha3_256(msg)
    } else {
        let mut c: Vec<u8> = Vec::new();
        extend_bytes(&mut c, msg);
        c
    };
    let enc = g1_compress(g1);
    extend_bytes(&mut m, &enc);
    hash_g2(&m)
}

/// Returns a hash of the point of the first group, `len` bytes long.
pub fn hash_bytes(g1: &G1, len: usize) -> (r: Vec<u8>)
    ensures
        r@ == hash_bytes_of(g1_log(*g1), len as nat),
        r@.len() == len,
{
    let enc = g1_compress(g1);
    let digest = sha3_256(&enc);
    let seed = seed_from_digest(&digest);
    bytes_from_seed(&seed, len)
}

/// Returns the byte-wise exclusive or of `x` and `y`, as long as the shorter of them.
pub fn xor_vec(x: &[u8], y: &[u8]) -> (r: Vec<u8>)
    ensures
        r@ == xor_seq(x@, y@),
{
    let n: usize = if x.len() <= y.len() {
        x.len()
    } else {
        y.len()
    };
    let mut r: Vec<u8> = Vec::new();
    let mut i: usize = 0;
    while i < n
        invariant
            n <= x@.len(),
            n <= y@.len(),
            n == xor_seq(x@, y@).len(),
            i <= n,
            r@.len() == i,
            forall|j: int| 0 <= j < i ==> r@[j] == x@[j] ^ y@[j],
        decreases n - i,
    {
        r.push(x[i] ^ y[i]);
        i = i + 1;
    }
    assert(r@ =~= xor_seq(x@, y@));
    r
}

} // verus!
