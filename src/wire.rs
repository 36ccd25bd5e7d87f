//! The byte form of a ciphertext: compressed `U`, the length of `V` as eight
//! little-endian bytes, `V`, and compressed `W`.
use crate::curve::{fr, fr_modulus, g1_compress, g1_decompress, g1_encoding, g1_log, g2_compress,
    g2_decompress, g2_encoding, g2_log};
use crate::hash::extend_bytes;
use crate::keys::{Ciphertext, PublicKeySet};
use crate::poly::{g1_logs, Commitment};
use vstd::arithmetic::div_mod::lemma_mod_bound;
use pairing::bls12_381::G1;
use vstd::prelude::*;

verus! {

/// The eight little-endian bytes of `n`.
pub open spec fn le_bytes(n: u64) -> Seq<u8> {
    seq![
        (n & 0xff) as u8,
        ((n >> 8u64) & 0xff) as u8,
        ((n >> 16u64) & 0xff) as u8,
        ((n >> 24u64) & 0xff) as u8,
        ((n >> 32u64) & 0xff) as u8,
        ((n >> 40u64) & 0xff) as u8,
        ((n >> 48u64) & 0xff) as u8,
        ((n >> 56u64) & 0xff) as u8,
    ]
}

/// The number whose eight little-endian bytes are `b[0..8]`.
pub open spec fn le_value(b: Seq<u8>) -> u64 {
    (b[0] as u64) | ((b[1] as u64) << 8u64) | ((b[2] as u64) << 16u64) | ((b[3] as u64) << 24u64)
        | ((b[4] as u64) << 32u64) | ((b[5] as u64) << 40u64) | ((b[6] as u64) << 48u64) | ((
    b[7] as u64) << 56u64)
}

/// The byte form of the ciphertext with `U` of logarithm `u`, bytes `v` and
/// `W` of logarithm `w`.
pub open spec fn ciphertext_bytes(u: int, v: Seq<u8>, w: int) -> Seq<u8> {
    g1_encoding(fr(u)) + le_bytes(v.len() as u64) + v + g2_encoding(fr(w))
}

impl Ciphertext {
    /// The byte form of the ciphertext.
    pub open spec fn encoded(&self) -> Seq<u8> {
        ciphertext_bytes(g1_log(self.0), self.1@, g2_log(self.2))
    }
}

proof fn lemma_le_round_trip(n: u64)
    ensures
        le_value(le_bytes(n)) == n,
{
    let b = le_bytes(n);
    let (b0, b1, b2, b3, b4, b5, b6, b7) = (b[0], b[1], b[2], b[3], b[4], b[5], b[6], b[7]);
    assert(((b0 as u64) | ((b1 as u64) << 8u64) | ((b2 as u64) << 16u64) | ((b3 as u64) << 24u64)
        | ((b4 as u64) << 32u64) | ((b5 as u64) << 40u64) | ((b6 as u64) << 48u64) | ((b7 as u64)
        << 56u64)) == n) by (bit_vector)
        requires
            b0 == (n & 0xff) as u8,
            b1 == ((n >> 8u64) & 0xff) as u8,
            b2 == ((n >> 16u64) & 0xff) as u8,
            b3 == ((n >> 24u64) & 0xff) as u8,
            b4 == ((n >> 32u64) & 0xff) as u8,
            b5 == ((n >> 40u64) & 0xff) as u8,
            b6 == ((n >> 48u64) & 0xff) as u8,
            b7 == ((n >> 56u64) & 0xff) as u8,
    ;
}

/// The bytes `b[lo..hi]`.
fn copy_range(b: &[u8], lo: usize, hi: usize) -> (r: Vec<u8>)
    requires
        lo <= hi <= b@.len(),
    ensures
        r@ == b@.subrange(lo as int, hi as int),
{
    let mut r: Vec<u8> = Vec::new();
    let mut i: usize = lo;
    while i < hi
        invariant
            lo <= i <= hi <= b@.len(),
            r@ == b@.subrange(lo as int, i as int),
        decreases hi - i,
    {
        r.push(b[i]);
        i = i + 1;
        assert(r@ =~= b@.subrange(lo as int, i as int));
    }
    r
}

impl Ciphertext {
    /// Returns the byte form of the ciphertext.
    pub fn to_bytes(&self) -> (r: Vec<u8>)
        requires
            self.1@.len() <= u64::MAX,
        ensures
            r@ == self.encoded(),
            g1_encoding(fr(g1_log(self.0))).len() == 48,
            g2_encoding(fr(g2_log(self.2))).len() == 96,
    {
        let mut r = g1_compress(&self.0);
        let n = self.1.len() as u64;
        let len_bytes: Vec<u8> = vec![
            (n & 0xff) as u8,
            ((n >> 8) & 0xff) as u8,
            ((n >> 16) & 0xff) as u8,
            ((n >> 24) & 0xff) as u8,
            ((n >> 32) & 0xff) as u8,
            ((n >> 40) & 0xff) as u8,
            ((n >> 48) & 0xff) as u8,
            ((n >> 56) & 0xff) as u8,
        ];
        assert(len_bytes@ =~= le_bytes(n));
        extend_bytes(&mut r, &len_bytes);
        extend_bytes(&mut r, &self.1);
        let w = g2_compress(&self.2);
        extend_bytes(&mut r, &w);
        r
    }

    /// Reads a ciphertext from its byte form; `None` if the bytes are not the
    /// byte form of any ciphertext.
    pub fn from_bytes(bytes: &[u8]) -> (r: Option<Ciphertext>)
        ensures
            r.is_some() ==> r.unwrap().encoded() == bytes@,
            forall|ct: Ciphertext|
                #![trigger ct.encoded()]
                ct.encoded() == bytes@ && g1_encoding(fr(g1_log(ct.0))).len() == 48
                    && g2_encoding(fr(g2_log(ct.2))).len() == 96 && ct.1@.len() <= u64::MAX
                    ==> r.is_some() && r.unwrap().triple() == ct.triple(),
    {
        if bytes.len() < 152 {
            return None;
        }
        let ub = copy_range(bytes, 0, 48);
        let lb = copy_range(bytes, 48, 56);
        let n: u64 = (lb[0] as u64) | ((lb[1] as u64) << 8) | ((lb[2] as u64) << 16) | ((
        lb[3] as u64) << 24) | ((lb[4] as u64) << 32) | ((lb[5] as u64) << 40) | ((lb[6] as u64)
            << 48) | ((lb[7] as u64) << 56);
        assert(n == le_value(lb@));
        if n > (bytes.len() - 152) as u64 || n as usize != bytes.len() - 152 {
            proof {
                assert forall|ct: Ciphertext|
                    #![trigger ct.encoded()]
                    ct.encoded() == bytes@ && g1_encoding(fr(g1_log(ct.0))).len() == 48
                        && g2_encoding(fr(g2_log(ct.2))).len() == 96 && ct.1@.len() <= u64::MAX
                        implies false by {
                    Self::lemma_parts(ct, bytes@);
                }
            }
            return None;
        }
        let nu = n as usize;
        let vb = copy_range(bytes, 56, 56 + nu);
        let wb = copy_range(bytes, 56 + nu, bytes.len());
        let u = g1_decompress(&ub);
        let w = g2_decompress(&wb);
        proof {
            assert forall|ct: Ciphertext|
                #![trigger ct.encoded()]
                ct.encoded() == bytes@ && g1_encoding(fr(g1_log(ct.0))).len() == 48
                    && g2_encoding(fr(g2_log(ct.2))).len() == 96 && ct.1@.len() <= u64::MAX
                    implies u.is_some() && w.is_some() && fr(g1_log(u.unwrap())) == fr(
                    g1_log(ct.0),
                ) && fr(g2_log(w.unwrap())) == fr(g2_log(ct.2)) && vb@ == ct.1@ by {
                Self::lemma_parts(ct, bytes@);
                lemma_mod_bound(g1_log(ct.0), fr_modulus());
                lemma_mod_bound(g2_log(ct.2), fr_modulus());
            }
        }
        match (u, w) {
            (Some(u), Some(w)) => {
                let ct = Ciphertext(u, vb, w);
                proof {
                    assert(bytes@ =~= ub@ + lb@ + vb@ + wb@);
                    lemma_le_round_trip(n);
                    assert(lb@ =~= le_bytes(n)) by {
                        lemma_le_bytes_unique(lb@, n);
                    }
                }
                Some(ct)
            },
            _ => None,
        }
    }

    /// The parts of the byte form of a ciphertext sit at fixed places.
    proof fn lemma_parts(ct: Ciphertext, bytes: Seq<u8>)
        requires
            ct.encoded() == bytes,
            g1_encoding(fr(g1_log(ct.0))).len() == 48,
            g2_encoding(fr(g2_log(ct.2))).len() == 96,
            ct.1@.len() <= u64::MAX,
        ensures
            bytes.len() == 152 + ct.1@.len(),
            bytes.subrange(0, 48) == g1_encoding(fr(g1_log(ct.0))),
            le_value(bytes.subrange(48, 56)) == ct.1@.len(),
            bytes.subrange(56, 56 + ct.1@.len() as int) == ct.1@,
            bytes.subrange(56 + ct.1@.len() as int, bytes.len() as int) == g2_encoding(fr(g2_log(ct.2))),
    {
        let n = ct.1@.len() as u64;
        let e = g1_encoding(fr(g1_log(ct.0)));
        let f = g2_encoding(fr(g2_log(ct.2)));
        assert(bytes =~= e + le_bytes(n) + ct.1@ + f);
        assert(bytes.subrange(0, 48) =~= e);
        assert(bytes.subrange(48, 56) =~= le_bytes(n));
        lemma_le_round_trip(n);
        assert(bytes.subrange(56, 56 + ct.1@.len() as int) =~= ct.1@);
        assert(bytes.subrange(56 + ct.1@.len() as int, bytes.len() as int) =~= f);
    }
}

/// Eight bytes that read as `n` are the eight bytes of `n`.
proof fn lemma_le_bytes_unique(b: Seq<u8>, n: u64)
    requires
        b.len() == 8,
        le_value(b) == n,
    ensures
        b == le_bytes(n),
{
    let (b0, b1, b2, b3, b4, b5, b6, b7) = (b[0], b[1], b[2], b[3], b[4], b[5], b[6], b[7]);
    assert(b0 == (n & 0xff) as u8 && b1 == ((n >> 8u64) & 0xff) as u8 && b2 == ((n >> 16u64)
        & 0xff) as u8 && b3 == ((n >> 24u64) & 0xff) as u8 && b4 == ((n >> 32u64) & 0xff) as u8
        && b5 == ((n >> 40u64) & 0xff) as u8 && b6 == ((n >> 48u64) & 0xff) as u8 && b7 == ((n
        >> 56u64) & 0xff) as u8) by (bit_vector)
        requires
            n == (b0 as u64) | ((b1 as u64) << 8u64) | ((b2 as u64) << 16u64) | ((b3 as u64)
                << 24u64) | ((b4 as u64) << 32u64) | ((b5 as u64) << 40u64) | ((b6 as u64)
                << 48u64) | ((b7 as u64) << 56u64),
    ;
    assert(b =~= le_bytes(n));
}

/// The compressed encodings of the points of logarithms `ls`, one after another.
pub open spec fn g1_encodings(ls: Seq<int>) -> Seq<u8>
    decreases ls.len(),
{
    if ls.len() == 0 {
        Seq::empty()
    } else {
        g1_encodings(ls.drop_last()) + g1_encoding(fr(ls.last()))
    }
}

/// Whether every point of logarithm in `ls` has a 48-byte encoding.
pub open spec fn all_48(ls: Seq<int>) -> bool {
    forall|k: int| 0 <= k < ls.len() ==> #[trigger] g1_encoding(fr(ls[k])).len() == 48
}

/// The encodings of fixed length sit at fixed places.
proof fn lemma_encodings_parts(ls: Seq<int>)
    requires
        all_48(ls),
    ensures
        g1_encodings(ls).len() == 48 * ls.len(),
        forall|k: int|
            0 <= k < ls.len() ==> #[trigger] g1_encodings(ls).subrange(48 * k, 48 * k + 48)
                == g1_encoding(fr(ls[k])),
    decreases ls.len(),
{
    if ls.len() > 0 {
        let init = ls.drop_last();
        assert(all_48(init)) by {
            assert forall|k: int| 0 <= k < init.len() implies #[trigger] g1_encoding(fr(init[k])).len()
                == 48 by {
                assert(init[k] == ls[k]);
            }
        }
        lemma_encodings_parts(init);
        let e = g1_encodings(ls);
        assert(g1_encoding(fr(ls[ls.len() - 1])).len() == 48);
        assert forall|k: int| 0 <= k < ls.len() implies #[trigger] e.subrange(48 * k, 48 * k + 48)
            == g1_encoding(fr(ls[k])) by {
            if k < ls.len() - 1 {
                assert(init[k] == ls[k]);
                assert(e.subrange(48 * k, 48 * k + 48) =~= g1_encodings(init).subrange(
                    48 * k,
                    48 * k + 48,
                ));
            } else {
                assert(e.subrange(48 * k, 48 * k + 48) =~= g1_encoding(fr(ls.last())));
            }
        }
    }
}

impl PublicKeySet {
    /// The byte form: the compressed coefficients of the commitment, lowest
    /// degree first.
    pub open spec fn encoded(&self) -> Seq<u8> {
        g1_encodings(self.commit.logs())
    }

    /// Returns the byte form of the key set.
    pub fn to_bytes(&self) -> (r: Vec<u8>)
        ensures
            r@ == self.encoded(),
            all_48(self.commit.logs()),
    {
        let ghost ls = self.commit.logs();
        let mut r: Vec<u8> = Vec::new();
        let mut i: usize = 0;
        while i < self.commit.coeff.len()
            invariant
                i <= self.commit.coeff@.len(),
                ls == self.commit.logs(),
                r@ == g1_encodings(ls.subrange(0, i as int)),
                all_48(ls.subrange(0, i as int)),
            decreases self.commit.coeff@.len() - i,
        {
            let e = g1_compress(&self.commit.coeff[i]);
            extend_bytes(&mut r, &e);
            proof {
                let next = ls.subrange(0, i + 1);
                assert(next.drop_last() =~= ls.subrange(0, i as int));
                assert(all_48(next)) by {
                    assert forall|k: int| 0 <= k < next.len() implies #[trigger] g1_encoding(
                        fr(next[k]),
                    ).len() == 48 by {
                        if k < i {
                            assert(next[k] == ls.subrange(0, i as int)[k]);
                        }
                    }
                }
            }
            i = i + 1;
        }
        assert(ls.subrange(0, ls.len() as int) =~= ls);
        r
    }

    /// Reads a key set from its byte form; `None` if the bytes are not the
    /// byte form of any key set.
    pub fn from_bytes(bytes: &[u8]) -> (r: Option<PublicKeySet>)
        ensures
            r.is_some() ==> r.unwrap().wf() && r.unwrap().encoded() == bytes@,
            forall|pks: PublicKeySet|
                #![trigger pks.encoded()]
                pks.wf() && pks.encoded() == bytes@ && all_48(pks.commit.logs()) ==> r.is_some()
                    && r.unwrap().commit.coeff@.len() == pks.commit.coeff@.len() && forall|k: int|
                    0 <= k < pks.commit.coeff@.len() ==> fr(
                        #[trigger] r.unwrap().commit.logs()[k],
                    ) == fr(pks.commit.logs()[k]),
    {
        if bytes.len() == 0 || bytes.len() % 48 != 0 {
            proof {
                assert forall|pks: PublicKeySet|
                    #![trigger pks.encoded()]
                    pks.wf() && pks.encoded() == bytes@ && all_48(pks.commit.logs()) implies false by {
                    lemma_encodings_parts(pks.commit.logs());
                }
            }
            return None;
        }
        let len = bytes.len();
        let n = len / 48;
        assert(bytes@.len() == 48 * n) by {
            vstd::arithmetic::div_mod::lemma_fundamental_div_mod(bytes@.len() as int, 48);
        }
        let mut coeff: Vec<G1> = Vec::new();
        let mut i: usize = 0;
        while i < n
            invariant
                n == bytes@.len() / 48,
                bytes@.len() == 48 * n,
                len == bytes@.len(),
                i <= n,
                coeff@.len() == i,
                g1_encodings(g1_logs(coeff@)) == bytes@.subrange(0, 48 * i),
                forall|k: int|
                    0 <= k < i ==> #[trigger] g1_encoding(fr(g1_log(coeff@[k]))) == bytes@.subrange(
                        48 * k,
                        48 * k + 48,
                    ),
                forall|pks: PublicKeySet|
                    #![trigger pks.encoded()]
                    pks.wf() && pks.encoded() == bytes@ && all_48(pks.commit.logs()) ==> forall|
                        k: int,
                    |
                        0 <= k < i ==> fr(#[trigger] g1_log(coeff@[k])) == fr(pks.commit.logs()[k]),
            decreases n - i,
        {
            assert(48 * i + 48 <= 48 * n) by (nonlinear_arith)
                requires
                    i < n,
            ;
            let chunk = copy_range(bytes, 48 * i, 48 * i + 48);
            match g1_decompress(&chunk) {
                Some(p) => {
                    let ghost before = coeff@;
                    coeff.push(p);
                    proof {
                        assert(g1_logs(coeff@).drop_last() =~= g1_logs(before));
                        assert(bytes@.subrange(0, 48 * (i + 1)) =~= bytes@.subrange(0, 48 * i)
                            + chunk@);
                        assert forall|pks: PublicKeySet|
                            #![trigger pks.encoded()]
                            pks.wf() && pks.encoded() == bytes@ && all_48(
                                pks.commit.logs(),
                            ) implies forall|k: int|
                            0 <= k < i + 1 ==> fr(#[trigger] g1_log(coeff@[k])) == fr(
                                pks.commit.logs()[k],
                            ) by {
                            lemma_encodings_parts(pks.commit.logs());
                            let ls = pks.commit.logs();
                            assert(ls.len() == n);
                            assert(g1_encodings(ls).subrange(48 * i, 48 * i + 48) == g1_encoding(
                                fr(ls[i as int]),
                            ));
                            lemma_mod_bound(ls[i as int], fr_modulus());
                            assert(coeff@[i as int] == p);
                        }
                    }
                },
                None => {
                    proof {
                        assert forall|pks: PublicKeySet|
                            #![trigger pks.encoded()]
                            pks.wf() && pks.encoded() == bytes@ && all_48(
                                pks.commit.logs(),
                            ) implies false by {
                            lemma_encodings_parts(pks.commit.logs());
                            let ls = pks.commit.logs();
                            assert(g1_encodings(ls).subrange(48 * i, 48 * i + 48) == g1_encoding(
                                fr(ls[i as int]),
                            ));
                            lemma_mod_bound(ls[i as int], fr_modulus());
                        }
                    }
                    return None;
                },
            }
            i = i + 1;
        }
        assert(bytes@.subrange(0, 48 * n) =~= bytes@);
        let r = PublicKeySet { commit: Commitment { coeff } };
        proof {
            assert forall|pks: PublicKeySet|
                #![trigger pks.encoded()]
                pks.wf() && pks.encoded() == bytes@ && all_48(pks.commit.logs()) implies r.commit.coeff@.len()
                    == pks.commit.coeff@.len() && forall|k: int|
                    0 <= k < pks.commit.coeff@.len() ==> fr(
                        #[trigger] r.commit.logs()[k],
                    ) == fr(pks.commit.logs()[k]) by {
                lemma_encodings_parts(pks.commit.logs());
                assert forall|k: int| 0 <= k < pks.commit.coeff@.len() implies fr(
                    #[trigger] r.commit.logs()[k],
                ) == fr(pks.commit.logs()[k]) by {
                    assert(r.commit.logs()[k] == g1_log(coeff@[k]));
                }
            }
        }
        Some(r)
    }
}

} // verus!
