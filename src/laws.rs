//! Properties that relate several operations of the library.
use crate::curve::{fr, fr_modulus, g1_log, lemma_fr_idem, lemma_fr_mul};
use crate::hash::{hash_bytes_of, hash_g1_g2_log, hash_g2_log, xor_seq};
use crate::keys::{encryption_of, pairing_accepts, Ciphertext, PublicKey, SecretKey, SecretKeySet, Signature};
use crate::interp::index_scalar;
use crate::poly::{lemma_value_of_residues, poly_value, residues};
use vstd::arithmetic::div_mod::lemma_mod_bound;
use vstd::prelude::*;

verus! {

/// A signature made with a secret key verifies, for the same message,
/// against the public key of that secret key.
pub proof fn sign_then_verify(sk: SecretKey, msg: Seq<u8>)
    ensures
        pairing_accepts(fr(sk.val()), hash_g2_log(msg), fr(hash_g2_log(msg) * sk.val())),
{
    let h = hash_g2_log(msg);
    lemma_fr_mul(sk.val(), h);
    lemma_fr_mul(h, sk.val());
    lemma_fr_idem(h * sk.val());
}

/// A ciphertext made with the public key of a secret key is valid, and the
/// secret key decrypts it to the message.
pub proof fn decrypt_of_encryption(sk: SecretKey, msg: Seq<u8>, k: int, ct: Ciphertext)
    requires
        ct.triple() == encryption_of(fr(sk.val()), msg, k),
    ensures
        ct.valid(),
        xor_seq(hash_bytes_of(g1_log(ct.0) * sk.val(), ct.1@.len()), ct.1@) == msg,
{
    let s = sk.val();
    let u = g1_log(ct.0);
    let v = ct.1@;
    // The hash of (U, V) sees U through its residue.
    lemma_fr_idem(k);
    assert(hash_g1_g2_log(u, v) == hash_g1_g2_log(fr(k), v));
    let h = hash_g1_g2_log(u, v);
    lemma_fr_mul(u, h);
    lemma_fr_mul(k, h);
    lemma_fr_mul(h, k);
    lemma_fr_idem(h * k);
    lemma_fr_idem(crate::curve::g2_log(ct.2));
    // The key stream of decryption is the key stream of encryption.
    lemma_fr_mul(u, s);
    lemma_fr_mul(k, s);
    lemma_fr_mul(s, k);
    lemma_fr_mul(fr(s), k);
    lemma_fr_idem(s * k);
    lemma_fr_idem(u * s);
    let ks = hash_bytes_of(fr(fr(s) * k), msg.len());
    assert(hash_bytes_of(u * s, v.len()) == ks);
    assert forall|i: int| 0 <= i < msg.len() implies #[trigger] xor_seq(ks, v)[i] == msg[i] by {
        let a = ks[i];
        let m = msg[i];
        assert(a ^ (a ^ m) == m) by (bit_vector);
    }
    assert(xor_seq(ks, v) =~= msg);
}

/// Hashing into the second group is a function of the message.
pub proof fn hash_g2_deterministic(m1: Seq<u8>, m2: Seq<u8>)
    requires
        m1 == m2,
    ensures
        hash_g2_log(m1) == hash_g2_log(m2),
{
}

/// The hash of a point and a message depends on the point, not on how it
/// is represented: two equal points give the same hash.
pub proof fn hash_g1_g2_deterministic(a: int, b: int, msg: Seq<u8>)
    requires
        fr(a) == fr(b),
    ensures
        hash_g1_g2_log(a, msg) == hash_g1_g2_log(b, msg),
{
}

/// Hashing a point to bytes gives as many bytes as asked for, and equal
/// points give equal bytes.
pub proof fn hash_bytes_deterministic(a: int, b: int, len: nat)
    requires
        fr(a) == fr(b),
    ensures
        hash_bytes_of(a, len) == hash_bytes_of(b, len),
        hash_bytes_of(a, len).len() == len,
{
}

/// Decoding the encoding of a public key gives that key back.
pub proof fn public_key_round_trip(pk: PublicKey, r: Option<PublicKey>)
    requires
        pk.encoded().len() == 48,
        PublicKey::decoded(pk.encoded(), r),
    ensures
        r.is_some(),
        fr(r.unwrap().log()) == fr(pk.log()),
{
    lemma_mod_bound(pk.log(), fr_modulus());
    assert(0 <= fr(pk.log()) < fr_modulus());
}

/// Decoding the encoding of a signature gives that signature back.
pub proof fn signature_round_trip(sig: Signature, r: Option<Signature>)
    requires
        sig.encoded().len() == 96,
        Signature::decoded(sig.encoded(), r),
    ensures
        r.is_some(),
        fr(r.unwrap().log()) == fr(sig.log()),
{
    lemma_mod_bound(sig.log(), fr_modulus());
    assert(0 <= fr(sig.log()) < fr_modulus());
}

/// A secret key set and its public key set agree on every share: the public
/// key share `i` is the public key of the secret key share `i`.
pub proof fn shares_agree(sks: SecretKeySet, i: u64)
    ensures
        fr(fr(poly_value(sks.vals(), index_scalar(i)))) == fr(
            poly_value(residues(sks.vals()), index_scalar(i)),
        ),
{
    lemma_value_of_residues(sks.vals(), index_scalar(i));
    lemma_fr_idem(poly_value(sks.vals(), index_scalar(i)));
}

} // verus!
