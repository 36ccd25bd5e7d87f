//! Keys, signatures, ciphertexts and the threshold key sets.
use crate::curve::{
    fr, fr_modulus, fr_val, fr_zero, g1_compress, g1_decompress, g1_encoding, g1_log, g1_mul,
    g1_one, g1_uncompress_bytes, g1_uncompressed, g2_compress, g2_decompress, g2_encoding, g2_log,
    g2_mul, g2_uncompress_bytes, g2_uncompressed, gt_eq, lemma_fr_idem, lemma_fr_mul, pair,
    random_fr,
};
use crate::error::Error;
use crate::hex::{short_hex, HexBytes};
use crate::hash::{
    hash_bytes, hash_bytes_of, hash_g1_g2, hash_g1_g2_log, hash_g2, hash_g2_log, xor_seq, xor_vec,
};
use crate::interp::{
    has_duplicate, index_scalar, interpolate, interpolation_sum, into_fr_plus_1, sample_logs,
    sample_xs,
};
use crate::poly::{poly_value, residues, Commitment, Poly};
use pairing::bls12_381::{Fr, G1, G2};
use vstd::prelude::*;
use vstd::string::StringExecFns;

verus! {

/// A public key: a point of the first group.
#[derive(Clone, Copy, Debug, PartialEq, Eq)]
pub struct PublicKey(pub G1);

/// A public key share.
#[derive(Clone, Copy, Debug, PartialEq, Eq)]
pub struct PublicKeyShare(pub PublicKey);

/// A signature: a point of the second group.
#[derive(Clone, Copy, Debug, PartialEq, Eq)]
pub struct Signature(pub G2);

/// A signature share.
#[derive(Clone, Copy, Debug, PartialEq, Eq)]
pub struct SignatureShare(pub Signature);

/// A secret key: a scalar.
#[derive(PartialEq, Eq)]
pub struct SecretKey(Fr);

/// A secret key share.
#[derive(PartialEq, Eq)]
pub struct SecretKeyShare(pub SecretKey);

/// An encrypted message `(U, V, W)`.
#[derive(Debug, PartialEq, Eq)]
pub struct Ciphertext(pub G1, pub Vec<u8>, pub G2);

/// A decryption share: a point of the first group.
#[derive(Clone, Copy, Debug, PartialEq, Eq)]
pub struct DecryptionShare(pub G1);

impl Default for SecretKey {
    /// The zero key.
    fn default() -> (r: SecretKey)
        ensures
            r.val() == 0,
    {
        SecretKey(fr_zero())
    }
}

impl Default for SecretKeyShare {
    /// The zero key share.
    fn default() -> (r: SecretKeyShare)
        ensures
            r.val() == 0,
    {
        SecretKeyShare(SecretKey::default())
    }
}

impl Clone for SecretKey {
    /// A new key with the same value.
    fn clone(&self) -> (r: SecretKey)
        ensures
            r.val() == self.val(),
    {
        SecretKey(self.0)
    }
}

impl Clone for SecretKeyShare {
    /// A new key share with the same value.
    fn clone(&self) -> (r: SecretKeyShare)
        ensures
            r.val() == self.val(),
    {
        SecretKeyShare(self.0.clone())
    }
}

impl Clone for Ciphertext {
    /// A ciphertext with the same three parts.
    fn clone(&self) -> (r: Ciphertext)
        ensures
            r.triple() == self.triple(),
    {
        Ciphertext(self.0, self.1.clone(), self.2)
    }
}

/// A public key and the public key shares that go with it.
#[derive(Debug, PartialEq, Eq)]
pub struct PublicKeySet {
    /// The commitment to a polynomial whose value at `0` is the master key
    /// and whose value at `i + 1` is key share number `i`.
    pub commit: Commitment,
}

/// A secret key and the secret key shares that go with it.
pub struct SecretKeySet {
    poly: Poly,
}

impl Clone for PublicKeySet {
    /// A key set with the same commitment.
    fn clone(&self) -> (r: PublicKeySet)
        ensures
            r.commit.coeff@ == self.commit.coeff@,
    {
        PublicKeySet { commit: self.commit.clone() }
    }
}

/// Whether a public key of logarithm `pk` accepts, for a hash of logarithm
/// `h`, the signature of logarithm `sig`: `e(pk, h) == e(g1, sig)`.
pub open spec fn pairing_accepts(pk: int, h: int, sig: int) -> bool {
    fr(pk * h) == fr(sig)
}

/// The number of bits set in a byte.
pub open spec fn byte_ones(b: u8, n: nat) -> int
    decreases n,
{
    if n == 0 {
        0
    } else {
        byte_ones(b, (n - 1) as nat) + ((b >> ((n - 1) as u8)) & 1) as int
    }
}

/// The number of bits set in the first `n` bytes of `s`.
pub open spec fn bits_set(s: Seq<u8>, n: int) -> int
    decreases n,
{
    if n <= 0 {
        0
    } else {
        bits_set(s, n - 1) + byte_ones(s[n - 1], 8)
    }
}

/// The ciphertext of `msg` under the public key of logarithm `pk`, with the
/// random scalar `k`.
pub open spec fn encryption_of(pk: int, msg: Seq<u8>, k: int) -> (int, Seq<u8>, int) {
    let u = fr(k);
    let v = xor_seq(hash_bytes_of(fr(pk * k), msg.len()), msg);
    (u, v, fr(hash_g1_g2_log(u, v) * k))
}

/// Checks a pairing equation `e(p, q) == e(g1, s)`.
fn pairing_check(p: &G1, q: &G2, s: &G2) -> (r: bool)
    ensures
        r == pairing_accepts(g1_log(*p), g2_log(*q), g2_log(*s)),
{
    let one = g1_one();
    let a = pair(p, q);
    let b = pair(&one, s);
    proof {
        lemma_fr_idem(g1_log(*p) * g2_log(*q));
        lemma_fr_idem(g2_log(*s));
    }
    gt_eq(&a, &b)
}

impl PublicKey {
    /// The logarithm of the key.
    pub open spec fn log(&self) -> int {
        g1_log(self.0)
    }

    /// Returns `true` if the signature matches the element of the second group.
    pub fn verify_g2(&self, sig: &Signature, hash: &G2) -> (r: bool)
        ensures
            r == pairing_accepts(self.log(), g2_log(*hash), sig.log()),
    {
        pairing_check(&self.0, hash, &sig.0)
    }

    /// Returns `true` if the signature matches the message.
    pub fn verify(&self, sig: &Signature, msg: &[u8]) -> (r: bool)
        ensures
            r == pairing_accepts(self.log(), hash_g2_log(msg@), sig.log()),
    {
        let h = hash_g2(msg);
        self.verify_g2(sig, &h)
    }

    /// Encrypts the message with the given random scalar.
    pub fn encrypt_with(&self, msg: &[u8], r: &Fr) -> (ct: Ciphertext)
        ensures
            ct.triple() == encryption_of(self.log(), msg@, fr_val(*r)),
    {
        let one = g1_one();
        let u = g1_mul(&one, r);
        let g = g1_mul(&self.0, r);
        let hb = hash_bytes(&g, msg.len());
        let v = xor_vec(&hb, msg);
        let h = hash_g1_g2(&u, &v);
        let w = g2_mul(&h, r);
        proof {
            let k = fr_val(*r);
            assert(g1_log(u) == fr(k));
            lemma_fr_idem(k);
            lemma_fr_idem(fr(k));
            assert(g2_log(h) == hash_g1_g2_log(fr(k), v@));
            lemma_fr_idem(g2_log(h) * k);
        }
        Ciphertext(u, v, w)
    }

    /// Encrypts the message with a scalar drawn from the operating system's
    /// random source; `None` if that source cannot be opened.
    pub fn encrypt(&self, msg: &[u8]) -> (ct: Option<Ciphertext>)
        ensures
            ct.is_some() ==> exists|k: int| ct.unwrap().triple() == encryption_of(self.log(), msg@, k),
    {
        match random_fr() {
            Some(r) => Some(self.encrypt_with(msg, &r)),
            None => None,
        }
    }

    /// The compressed encoding of the key.
    pub open spec fn encoded(&self) -> Seq<u8> {
        g1_encoding(fr(self.log()))
    }

    /// Whether `r` is what decoding `bytes` gives: the one key with that
    /// encoding, or `None` where no key has it.
    pub open spec fn decoded(bytes: Seq<u8>, r: Option<PublicKey>) -> bool {
        &&& r.is_some() ==> r.unwrap().encoded() == bytes
        &&& bytes.len() == 48 && (exists|k: int| 0 <= k < fr_modulus() && g1_encoding(k) == bytes)
            ==> r.is_some()
        &&& r.is_some() ==> forall|k: int|
            0 <= k < fr_modulus() && g1_encoding(k) == bytes ==> k == fr(r.unwrap().log())
    }

    /// Returns the 48-byte compressed encoding of the key.
    pub fn to_bytes(&self) -> (r: Vec<u8>)
        ensures
            r@ == self.encoded(),
            r@.len() == 48,
    {
        g1_compress(&self.0)
    }

    /// Reads a key from its compressed encoding; `None` if the bytes encode no
    /// point of the group.
    pub fn from_bytes(bytes: &[u8]) -> (r: Option<PublicKey>)
        ensures
            PublicKey::decoded(bytes@, r),
    {
        if bytes.len() != 48 {
            return None;
        }
        match g1_decompress(bytes) {
            Some(p) => Some(PublicKey(p)),
            None => None,
        }
    }
}

impl PublicKeyShare {
    /// The logarithm of the key share.
    pub open spec fn log(&self) -> int {
        self.0.log()
    }

    /// Returns `true` if the signature share matches the element of the second group.
    pub fn verify_g2(&self, sig: &SignatureShare, hash: &G2) -> (r: bool)
        ensures
            r == pairing_accepts(self.log(), g2_log(*hash), sig.log()),
    {
        self.0.verify_g2(&sig.0, hash)
    }

    /// Returns `true` if the signature share matches the message.
    pub fn verify(&self, sig: &SignatureShare, msg: &[u8]) -> (r: bool)
        ensures
            r == pairing_accepts(self.log(), hash_g2_log(msg@), sig.log()),
    {
        self.0.verify(&sig.0, msg)
    }

    /// Returns `true` if the decryption share matches the ciphertext:
    /// `e(share, H(U, V)) == e(pk, W)`.
    pub fn verify_decryption_share(&self, share: &DecryptionShare, ct: &Ciphertext) -> (r: bool)
        ensures
            r == (fr(share.log() * hash_g1_g2_log(g1_log(ct.0), ct.1@)) == fr(self.log()
                * g2_log(ct.2))),
    {
        let h = hash_g1_g2(&ct.0, &ct.1);
        let a = pair(&share.0, &h);
        let b = pair(&(self.0).0, &ct.2);
        proof {
            lemma_fr_idem(share.log() * g2_log(h));
            lemma_fr_idem(self.log() * g2_log(ct.2));
        }
        gt_eq(&a, &b)
    }

    /// Returns the 48-byte compressed encoding of the key share.
    pub fn to_bytes(&self) -> (r: Vec<u8>)
        ensures
            r@ == g1_encoding(fr(self.log())),
            r@.len() == 48,
    {
        self.0.to_bytes()
    }
}

impl Signature {
    /// The logarithm of the signature.
    pub open spec fn log(&self) -> int {
        g2_log(self.0)
    }

    /// Whether the uncompressed encoding of the signature has an odd number
    /// of bits set.
    pub fn parity(&self) -> (r: bool)
        ensures
            r == (bits_set(g2_uncompressed(fr(self.log())), 192) % 2 == 1),
    {
        let bytes = g2_uncompress_bytes(&self.0);
        let mut odd = false;
        let mut i: usize = 0;
        while i < bytes.len()
            invariant
                bytes@.len() == 192,
                i <= 192,
                odd == (bits_set(bytes@, i as int) % 2 == 1),
            decreases 192 - i,
        {
            let b = bytes[i];
            let mut j: u8 = 0;
            let ghost before = bits_set(bytes@, i as int);
            while j < 8
                invariant
                    j <= 8,
                    b == bytes@[i as int],
                    odd == ((before + byte_ones(b, j as nat)) % 2 == 1),
                decreases 8 - j,
            {
                if (b >> j) & 1 == 1 {
                    odd = !odd;
                }
                proof {
                    assert((b >> j) & 1 == 0 || (b >> j) & 1 == 1) by (bit_vector);
                }
                j = j + 1;
            }
            i = i + 1;
        }
        odd
    }

    /// The compressed encoding of the signature.
    pub open spec fn encoded(&self) -> Seq<u8> {
        g2_encoding(fr(self.log()))
    }

    /// Whether `r` is what decoding `bytes` gives: the one signature with that
    /// encoding, or `None` where no signature has it.
    pub open spec fn decoded(bytes: Seq<u8>, r: Option<Signature>) -> bool {
        &&& r.is_some() ==> r.unwrap().encoded() == bytes
        &&& bytes.len() == 96 && (exists|k: int| 0 <= k < fr_modulus() && g2_encoding(k) == bytes)
            ==> r.is_some()
        &&& r.is_some() ==> forall|k: int|
            0 <= k < fr_modulus() && g2_encoding(k) == bytes ==> k == fr(r.unwrap().log())
    }

    /// Returns the 96-byte compressed encoding of the signature.
    pub fn to_bytes(&self) -> (r: Vec<u8>)
        ensures
            r@ == self.encoded(),
            r@.len() == 96,
    {
        g2_compress(&self.0)
    }

    /// Reads a signature from its compressed encoding; `None` if the bytes
    /// encode no point of the group.
    pub fn from_bytes(bytes: &[u8]) -> (r: Option<Signature>)
        ensures
            Signature::decoded(bytes@, r),
    {
        if bytes.len() != 96 {
            return None;
        }
        match g2_decompress(bytes) {
            Some(q) => Some(Signature(q)),
            None => None,
        }
    }
}

impl SignatureShare {
    /// The logarithm of the signature share.
    pub open spec fn log(&self) -> int {
        self.0.log()
    }

    /// Returns the 96-byte compressed encoding of the signature share.
    pub fn to_bytes(&self) -> (r: Vec<u8>)
        ensures
            r@ == self.0.encoded(),
            r@.len() == 96,
    {
        self.0.to_bytes()
    }

    /// Reads a signature share from its compressed encoding; `None` if the
    /// bytes encode no point of the group.
    pub fn from_bytes(bytes: &[u8]) -> (r: Option<SignatureShare>)
        ensures
            Signature::decoded(
                bytes@,
                match r {
                    Some(s) => Some(s.0),
                    None => None,
                },
            ),
    {
        match Signature::from_bytes(bytes) {
            Some(sig) => Some(SignatureShare(sig)),
            None => None,
        }
    }
}

impl DecryptionShare {
    /// The logarithm of the decryption share.
    pub open spec fn log(&self) -> int {
        g1_log(self.0)
    }

    /// Returns the 48-byte compressed encoding of the decryption share.
    pub fn to_bytes(&self) -> (r: Vec<u8>)
        ensures
            r@ == PublicKey(self.0).encoded(),
            r@.len() == 48,
    {
        g1_compress(&self.0)
    }

    /// Reads a decryption share from its compressed encoding; `None` if the
    /// bytes encode no point of the group.
    pub fn from_bytes(bytes: &[u8]) -> (r: Option<DecryptionShare>)
        ensures
            PublicKey::decoded(
                bytes@,
                match r {
                    Some(d) => Some(PublicKey(d.0)),
                    None => None,
                },
            ),
    {
        match PublicKey::from_bytes(bytes) {
            Some(pk) => Some(DecryptionShare(pk.0)),
            None => None,
        }
    }
}

impl Ciphertext {
    /// The logarithms of `U` and `W`, and the bytes of `V`.
    pub open spec fn triple(&self) -> (int, Seq<u8>, int) {
        (fr(g1_log(self.0)), self.1@, fr(g2_log(self.2)))
    }

    /// Whether `e(g1, W) == e(U, H(U, V))`.
    pub open spec fn valid(&self) -> bool {
        pairing_accepts(g1_log(self.0), hash_g1_g2_log(g1_log(self.0), self.1@), g2_log(self.2))
    }

    /// Returns `true` if this is a valid ciphertext. This check is necessary
    /// to prevent chosen-ciphertext attacks.
    pub fn verify(&self) -> (r: bool)
        ensures
            r == self.valid(),
    {
        let h = hash_g1_g2(&self.0, &self.1);
        pairing_check(&self.0, &h, &self.2)
    }
}

impl SecretKey {
    /// The value of the key.
    pub closed spec fn val(&self) -> int {
        fr_val(self.0)
    }

    /// Creates a key from the scalar behind `fr`, which is overwritten with
    /// zero once it has been copied.
    pub fn from_mut_ptr(fr: &mut Fr) -> (r: Result<SecretKey, Error>)
        ensures
            r.is_ok(),
            r.unwrap().val() == fr_val(*old(fr)),
            fr_val(*final(fr)) == 0,
    {
        let sk = SecretKey(*fr);
        *fr = fr_zero();
        Ok(sk)
    }

    /// A key drawn from the operating system's random source; `None` if that
    /// source cannot be opened.
    pub fn random() -> (r: Option<SecretKey>)
        ensures
            r.is_some() ==> 0 <= r.unwrap().val() < fr_modulus(),
    {
        match random_fr() {
            Some(s) => Some(SecretKey(s)),
            None => None,
        }
    }

    /// Returns the matching public key.
    pub fn public_key(&self) -> (r: PublicKey)
        ensures
            r.log() == fr(self.val()),
    {
        let one = g1_one();
        proof {
            lemma_fr_mul(1, self.val());
        }
        PublicKey(g1_mul(&one, &self.0))
    }

    /// Signs the given element of the second group.
    pub fn sign_g2(&self, hash: &G2) -> (r: Signature)
        ensures
            r.log() == fr(g2_log(*hash) * self.val()),
    {
        Signature(g2_mul(hash, &self.0))
    }

    /// Signs the given message.
    pub fn sign(&self, msg: &[u8]) -> (r: Signature)
        ensures
            r.log() == fr(hash_g2_log(msg@) * self.val()),
    {
        let h = hash_g2(msg);
        self.sign_g2(&h)
    }

    /// Returns the decrypted text, or `None` if the ciphertext is not valid.
    pub fn decrypt(&self, ct: &Ciphertext) -> (r: Option<Vec<u8>>)
        ensures
            r.is_none() <==> !ct.valid(),
            r.is_some() ==> r.unwrap()@ == xor_seq(
                hash_bytes_of(g1_log(ct.0) * self.val(), ct.1@.len()),
                ct.1@,
            ),
    {
        if !ct.verify() {
            return None;
        }
        let g = g1_mul(&ct.0, &self.0);
        let hb = hash_bytes(&g, ct.1.len());
        proof {
            lemma_fr_idem(g1_log(ct.0) * self.val());
        }
        Some(xor_vec(&hb, &ct.1))
    }

    /// A debug string that, unlike a redacted one, tells keys apart: the
    /// shortened hex form of the uncompressed encoding of the public key.
    pub fn reveal_debug(&self) -> (r: String)
        ensures
            r@ == revealed("SecretKey"@, fr(self.val())),
    {
        let pk = self.public_key();
        reveal_point("SecretKey", &pk.0)
    }
}

/// `label`, then `(`, the shortened hex form of the uncompressed encoding of
/// the public key of logarithm `pk`, and `)`.
pub open spec fn revealed(label: Seq<char>, pk: int) -> Seq<char> {
    label + seq!['('] + short_hex(g1_uncompressed(fr(pk))) + seq![')']
}

/// The debug string of a public key of the first group, under `label`.
fn reveal_point(label: &str, p: &G1) -> (r: String)
    ensures
        r@ == revealed(label@, g1_log(*p)),
{
    let bytes = g1_uncompress_bytes(p);
    let hex = HexBytes(bytes.as_slice()).to_short_hex();
    let mut s = String::from_str(label);
    proof {
        reveal_strlit("(");
        reveal_strlit(")");
    }
    s.append("(");
    s.append(hex.as_str());
    s.append(")");
    assert(s@ =~= revealed(label@, g1_log(*p)));
    s
}

impl SecretKeyShare {
    /// The value of the key share.
    pub open spec fn val(&self) -> int {
        self.0.val()
    }

    /// Creates a key share from the scalar behind `fr`, which is overwritten
    /// with zero once it has been copied.
    pub fn from_mut_ptr(fr: &mut Fr) -> (r: Result<SecretKeyShare, Error>)
        ensures
            r.is_ok(),
            r.unwrap().val() == fr_val(*old(fr)),
            fr_val(*final(fr)) == 0,
    {
        match SecretKey::from_mut_ptr(fr) {
            Ok(sk) => Ok(SecretKeyShare(sk)),
            Err(e) => Err(e),
        }
    }

    /// Returns the matching public key share.
    pub fn public_key_share(&self) -> (r: PublicKeyShare)
        ensures
            r.log() == fr(self.val()),
    {
        PublicKeyShare(self.0.public_key())
    }

    /// Signs the given element of the second group.
    pub fn sign_g2(&self, hash: &G2) -> (r: SignatureShare)
        ensures
            r.log() == fr(g2_log(*hash) * self.val()),
    {
        SignatureShare(self.0.sign_g2(hash))
    }

    /// Signs the given message.
    pub fn sign(&self, msg: &[u8]) -> (r: SignatureShare)
        ensures
            r.log() == fr(hash_g2_log(msg@) * self.val()),
    {
        SignatureShare(self.0.sign(msg))
    }

    /// Returns a decryption share, or `None` if the ciphertext is not valid.
    pub fn decrypt_share(&self, ct: &Ciphertext) -> (r: Option<DecryptionShare>)
        ensures
            r.is_none() <==> !ct.valid(),
            r.is_some() ==> r.unwrap().log() == fr(g1_log(ct.0) * self.val()),
    {
        if !ct.verify() {
            return None;
        }
        Some(self.decrypt_share_no_verify(ct))
    }

    /// Returns a decryption share, without checking the ciphertext.
    pub fn decrypt_share_no_verify(&self, ct: &Ciphertext) -> (r: DecryptionShare)
        ensures
            r.log() == fr(g1_log(ct.0) * self.val()),
    {
        DecryptionShare(g1_mul(&ct.0, &(self.0).0))
    }

    /// A debug string that, unlike a redacted one, tells key shares apart:
    /// the shortened hex form of the uncompressed encoding of the public key share.
    pub fn reveal_debug(&self) -> (r: String)
        ensures
            r@ == revealed("SecretKeyShare"@, fr(self.val())),
    {
        let pk = self.0.public_key();
        reveal_point("SecretKeyShare", &pk.0)
    }
}

/// The samples of signature shares, as points of the second group.
pub open spec fn signature_samples(shares: Seq<(u64, SignatureShare)>) -> Seq<(u64, G2)> {
    shares.map_values(|s: (u64, SignatureShare)| (s.0, (s.1.0).0))
}

/// The samples of decryption shares, as points of the first group.
pub open spec fn decryption_samples(shares: Seq<(u64, DecryptionShare)>) -> Seq<(u64, G1)> {
    shares.map_values(|s: (u64, DecryptionShare)| (s.0, s.1.0))
}

/// The logarithm that `t` samples interpolate to.
pub open spec fn interpolated<C: crate::interp::GroupElement>(samples: Seq<(u64, C)>, t: int) -> int {
    interpolation_sum(sample_xs(samples, t), sample_logs(samples, t), t)
}

impl PublicKeySet {
    /// Whether the commitment has at least one coefficient.
    pub open spec fn wf(&self) -> bool {
        self.commit.wf()
    }

    /// Returns the threshold `t`: any `t + 1` signature shares can be
    /// combined into a full signature.
    pub fn threshold(&self) -> (r: usize)
        requires
            self.wf(),
        ensures
            r == self.commit.coeff@.len() - 1,
    {
        self.commit.degree()
    }

    /// Returns the master public key.
    pub fn public_key(&self) -> (r: PublicKey)
        requires
            self.wf(),
        ensures
            r.log() == self.commit.logs()[0],
    {
        PublicKey(self.commit.coeff[0])
    }

    /// Returns the `i`-th public key share.
    pub fn public_key_share(&self, i: u64) -> (r: PublicKeyShare)
        ensures
            r.log() == fr(poly_value(self.commit.logs(), index_scalar(i))),
    {
        let x = into_fr_plus_1(i);
        PublicKeyShare(PublicKey(self.commit.evaluate(&x)))
    }

    /// Combines the shares into a signature that can be verified with the
    /// master public key.
    pub fn combine_signatures(&self, shares: &Vec<(u64, SignatureShare)>) -> (r: Result<
        Signature,
        Error,
    >)
        requires
            self.wf(),
        ensures
            shares@.len() < self.commit.coeff@.len() <==> r == Err::<Signature, Error>(
                Error::NotEnoughShares,
            ),
            shares@.len() >= self.commit.coeff@.len() && has_duplicate(
                signature_samples(shares@),
                self.commit.coeff@.len() as int,
            ) <==> r == Err::<Signature, Error>(Error::DuplicateEntry),
            r.is_ok() <==> shares@.len() >= self.commit.coeff@.len() && !has_duplicate(
                signature_samples(shares@),
                self.commit.coeff@.len() as int,
            ),
            r.is_ok() ==> r.unwrap().log() == interpolated(
                signature_samples(shares@),
                self.commit.coeff@.len() as int,
            ),
    {
        let mut samples: Vec<(u64, G2)> = Vec::new();
        let mut k: usize = 0;
        while k < shares.len()
            invariant
                k <= shares@.len(),
                samples@ == signature_samples(shares@).subrange(0, k as int),
            decreases shares@.len() - k,
        {
            samples.push((shares[k].0, (shares[k].1).0.0));
            k = k + 1;
            assert(samples@ =~= signature_samples(shares@).subrange(0, k as int));
        }
        assert(samples@ =~= signature_samples(shares@));
        match interpolate(self.commit.coeff.len(), &samples) {
            Ok(g) => Ok(Signature(g)),
            Err(e) => Err(e),
        }
    }

    /// Combines the decryption shares to decrypt the ciphertext.
    pub fn decrypt(&self, shares: &Vec<(u64, DecryptionShare)>, ct: &Ciphertext) -> (r: Result<
        Vec<u8>,
        Error,
    >)
        requires
            self.wf(),
        ensures
            shares@.len() < self.commit.coeff@.len() <==> r == Err::<Vec<u8>, Error>(
                Error::NotEnoughShares,
            ),
            shares@.len() >= self.commit.coeff@.len() && has_duplicate(
                decryption_samples(shares@),
                self.commit.coeff@.len() as int,
            ) <==> r == Err::<Vec<u8>, Error>(Error::DuplicateEntry),
            r.is_ok() <==> shares@.len() >= self.commit.coeff@.len() && !has_duplicate(
                decryption_samples(shares@),
                self.commit.coeff@.len() as int,
            ),
            r.is_ok() ==> r.unwrap()@ == xor_seq(
                hash_bytes_of(
                    interpolated(decryption_samples(shares@), self.commit.coeff@.len() as int),
                    ct.1@.len(),
                ),
                ct.1@,
            ),
    {
        let mut samples: Vec<(u64, G1)> = Vec::new();
        let mut k: usize = 0;
        while k < shares.len()
            invariant
                k <= shares@.len(),
                samples@ == decryption_samples(shares@).subrange(0, k as int),
            decreases shares@.len() - k,
        {
            samples.push((shares[k].0, shares[k].1.0));
            k = k + 1;
            assert(samples@ =~= decryption_samples(shares@).subrange(0, k as int));
        }
        assert(samples@ =~= decryption_samples(shares@));
        match interpolate(self.commit.coeff.len(), &samples) {
            Ok(g) => {
                let hb = hash_bytes(&g, ct.1.len());
                Ok(xor_vec(&hb, &ct.1))
            },
            Err(e) => Err(e),
        }
    }
}

impl SecretKeySet {
    /// The values of the coefficients of the secret polynomial.
    pub closed spec fn vals(&self) -> Seq<int> {
        self.poly.vals()
    }

    /// The key set whose secret polynomial is `poly`.
    pub fn from_poly(poly: Poly) -> (r: SecretKeySet)
        requires
            poly.wf(),
        ensures
            r.wf(),
            r.vals() == poly.vals(),
    {
        SecretKeySet { poly }
    }

    /// Whether the secret polynomial has at least one coefficient.
    pub closed spec fn wf(&self) -> bool {
        self.poly.wf()
    }

    /// Creates a key set whose secret polynomial has the given degree: any
    /// `threshold + 1` shares can sign and decrypt together.
    pub fn random(threshold: usize) -> (r: Result<SecretKeySet, Error>)
        ensures
            threshold == usize::MAX <==> r == Err::<SecretKeySet, Error>(Error::DegreeTooHigh),
            r.is_ok() ==> r.unwrap().wf() && r.unwrap().vals().len() == threshold + 1,
            r.is_ok() ==> fr(r.unwrap().vals()[threshold as int]) != 0,
            r.is_err() ==> r == Err::<SecretKeySet, Error>(Error::DegreeTooHigh) || r == Err::<
                SecretKeySet,
                Error,
            >(Error::Sampling),
    {
        match Poly::random(threshold) {
            Ok(poly) => Ok(SecretKeySet::from_poly(poly)),
            Err(e) => Err(e),
        }
    }

    /// Returns the threshold `t`: any `t + 1` signature shares can be
    /// combined into a full signature.
    pub fn threshold(&self) -> (r: usize)
        requires
            self.wf(),
        ensures
            r == self.vals().len() - 1,
    {
        self.poly.degree()
    }

    /// Returns the `i`-th secret key share: the secret polynomial at `i + 1`.
    pub fn secret_key_share(&self, i: u64) -> (r: Result<SecretKeyShare, Error>)
        ensures
            r.is_ok(),
            r.unwrap().val() == fr(poly_value(self.vals(), index_scalar(i))),
    {
        let x = into_fr_plus_1(i);
        let mut s = self.poly.evaluate(&x);
        SecretKeyShare::from_mut_ptr(&mut s)
    }

    /// Returns the matching public key set, which can be shared publicly.
    pub fn public_keys(&self) -> (r: PublicKeySet)
        requires
            self.wf(),
        ensures
            r.wf(),
            r.commit.logs() == residues(self.vals()),
    {
        PublicKeySet { commit: self.poly.commitment() }
    }

    /// Returns the master secret key, the secret polynomial at zero. It is
    /// the secret that the shares stand for: no participant should hold it.
    pub fn secret_key(&self) -> (r: Result<SecretKey, Error>)
        ensures
            r.is_ok(),
            r.unwrap().val() == fr(poly_value(self.vals(), 0)),
    {
        let zero = fr_zero();
        let mut s = self.poly.evaluate(&zero);
        SecretKey::from_mut_ptr(&mut s)
    }
}

} // verus!
