use pairing::bls12_381::{Fr, G1, G2};
use pairing::{CurveAffine, CurveProjective, Field, PrimeField};
use rand::Rng;
use threshold_crypto::error::Error;
use threshold_crypto::hash::{hash_bytes, hash_g1_g2, hash_g2, xor_vec};
use threshold_crypto::hex::HexBytes;
use threshold_crypto::interp::{interpolate, into_fr_plus_1};
use threshold_crypto::keys::{
    DecryptionShare, PublicKey, SecretKey, SecretKeySet, SecretKeyShare, Signature,
    SignatureShare,
};
use threshold_crypto::poly::Poly;

fn fr_of(x: u64) -> Fr {
    Fr::from_repr(x.into()).unwrap()
}

#[test]
fn xor_vec_exact_values() {
    assert_eq!(xor_vec(&[0x0f, 0xff, 0x00], &[0xf0, 0x0f, 0xaa]), vec![0xff, 0xf0, 0xaa]);
    assert_eq!(xor_vec(&[1, 2, 3], &[1]), vec![0]);
    assert_eq!(xor_vec(&[], &[1, 2]), Vec::<u8>::new());
}

#[test]
fn index_zero_maps_to_one() {
    assert_eq!(into_fr_plus_1(0), Fr::one());
    assert_eq!(into_fr_plus_1(41), fr_of(42));
    let mut max_plus_one = fr_of(u64::MAX);
    max_plus_one.add_assign(&Fr::one());
    assert_eq!(into_fr_plus_1(u64::MAX), max_plus_one);
}

#[test]
fn interpolation_recovers_constant_term() {
    // f(x) = 3 + 2x, sampled at x = 1 and x = 2 (indices 0 and 1).
    let g = G1::one();
    let at = |x: u64| {
        let mut p = g;
        p.mul_assign(fr_of(3 + 2 * x));
        p
    };
    let samples = vec![(0u64, at(1)), (1u64, at(2))];
    let mut expected = g;
    expected.mul_assign(fr_of(3));
    assert_eq!(interpolate(2, &samples), Ok(expected));
    // Only the first `t` samples count.
    let more = vec![(1u64, at(2)), (0u64, at(1)), (7u64, G1::zero())];
    assert_eq!(interpolate(2, &more), Ok(expected));
}

#[test]
fn interpolation_errors() {
    let g = G2::one();
    let samples = vec![(0u64, g), (1u64, g), (2u64, g)];
    assert_eq!(interpolate(4, &samples), Err(Error::NotEnoughShares));
    let dup = vec![(1u64, g), (2u64, g), (1u64, g), (3u64, g)];
    assert_eq!(interpolate(4, &dup), Err(Error::DuplicateEntry));
    // A duplicate beyond the first `t` samples is ignored.
    let late = vec![(1u64, g), (2u64, g), (1u64, g)];
    assert!(interpolate(2, &late).is_ok());
    assert_eq!(interpolate(0, &Vec::<(u64, G2)>::new()), Ok(G2::zero()));
}

#[test]
fn poly_degree_and_evaluation() {
    assert_eq!(Poly::random(usize::MAX).err(), Some(Error::DegreeTooHigh));
    let p = Poly::random(4).expect("random polynomial");
    assert_eq!(p.degree(), 4);
    let c = Poly::constant(fr_of(9));
    assert_eq!(c.degree(), 0);
    assert_eq!(c.evaluate(&fr_of(123)), fr_of(9));
    // 1 + 2x + 3x^2 at x = 5 is 86.
    let q = Poly { coeff: vec![fr_of(1), fr_of(2), fr_of(3)] };
    assert_eq!(q.evaluate(&fr_of(5)), fr_of(86));
    let mut expected = G1::one();
    expected.mul_assign(fr_of(86));
    let commit = q.commitment();
    assert_eq!(commit.degree(), 2);
    assert_eq!(commit.evaluate(&fr_of(5)), expected);
}

#[test]
fn shares_match_public_key_shares() {
    let sk_set = SecretKeySet::random(2).expect("key set");
    assert_eq!(sk_set.threshold(), 2);
    let pk_set = sk_set.public_keys();
    assert_eq!(pk_set.threshold(), 2);
    for i in [0u64, 1, 17] {
        let share = sk_set.secret_key_share(i).expect("share");
        assert_eq!(share.public_key_share(), pk_set.public_key_share(i));
    }
    let master = sk_set.secret_key().expect("master key");
    assert_eq!(master.public_key(), pk_set.public_key());
}

#[test]
fn combine_with_too_few_or_repeated_shares() {
    let sk_set = SecretKeySet::random(2).expect("key set");
    let pk_set = sk_set.public_keys();
    let msg = b"too few";
    let sign = |i: u64| (i, sk_set.secret_key_share(i).unwrap().sign(msg));
    let few = vec![sign(1), sign(2)];
    assert_eq!(pk_set.combine_signatures(&few), Err(Error::NotEnoughShares));
    let repeated = vec![sign(1), sign(2), sign(1)];
    assert_eq!(pk_set.combine_signatures(&repeated), Err(Error::DuplicateEntry));
    let ct = pk_set.public_key().encrypt(msg).expect("random source");
    let dec = |i: u64| (i, sk_set.secret_key_share(i).unwrap().decrypt_share_no_verify(&ct));
    assert_eq!(pk_set.decrypt(&[dec(3), dec(4)].to_vec(), &ct), Err(Error::NotEnoughShares));
    assert_eq!(pk_set.decrypt(&[dec(3), dec(3), dec(4)].to_vec(), &ct), Err(Error::DuplicateEntry));
    assert_eq!(pk_set.decrypt(&[dec(3), dec(5), dec(4)].to_vec(), &ct), Ok(msg.to_vec()));
}

#[test]
fn sign_and_verify_roundtrip() {
    let sk = SecretKey::random().expect("random key");
    let pk = sk.public_key();
    let msg = b"a message";
    let sig = sk.sign(msg);
    assert!(pk.verify(&sig, msg));
    assert!(pk.verify_g2(&sig, &hash_g2(msg)));
    assert_eq!(sk.sign_g2(&hash_g2(msg)), sig);
}

#[test]
fn encrypt_with_fixed_randomness_is_deterministic() {
    let sk = SecretKey::random().expect("random key");
    let pk = sk.public_key();
    let r = fr_of(7);
    let msg = b"fixed";
    let a = pk.encrypt_with(msg, &r);
    let b = pk.encrypt_with(msg, &r);
    assert_eq!(a, b);
    assert_eq!(a.1.len(), msg.len());
    assert_ne!(a.1, msg.to_vec());
    assert!(a.verify());
    assert_eq!(sk.decrypt(&a), Some(msg.to_vec()));
    let empty = pk.encrypt(b"").expect("random source");
    assert_eq!(sk.decrypt(&empty), Some(Vec::new()));
}

#[test]
fn tampered_ciphertext_is_refused() {
    let sk = SecretKeySet::random(1).expect("key set");
    let share = sk.secret_key_share(0).expect("share");
    let pk = sk.public_keys().public_key();
    let mut ct = pk.encrypt(b"attack at dawn").expect("random source");
    assert!(share.decrypt_share(&ct).is_some());
    ct.1[0] ^= 1;
    assert!(!ct.verify());
    assert_eq!(share.decrypt_share(&ct), None);
}

#[test]
fn secret_from_buffer_scrubs_the_source() {
    let mut fr = fr_of(1234);
    let sk = SecretKey::from_mut_ptr(&mut fr).expect("secret key");
    assert_eq!(fr, Fr::zero());
    let mut expected = G1::one();
    expected.mul_assign(fr_of(1234));
    assert_eq!(sk.public_key(), PublicKey(expected));
    let mut fr2 = fr_of(5);
    let share = SecretKeyShare::from_mut_ptr(&mut fr2).expect("share");
    assert_eq!(fr2, Fr::zero());
    assert!(share.clone() == share);
}

#[test]
fn parity_is_parity_of_all_bits() {
    let mut rng = rand::thread_rng();
    for _ in 0..4 {
        let g: G2 = rng.gen();
        let sig = Signature(g);
        let uncomp = g.into_affine().into_uncompressed();
        let ones: u32 = uncomp.as_ref().iter().map(|b| b.count_ones()).sum();
        assert_eq!(sig.parity(), ones % 2 == 1);
    }
}

#[test]
fn decoding_refuses_bad_bytes() {
    assert_eq!(PublicKey::from_bytes(&[0u8; 47]), None);
    assert_eq!(PublicKey::from_bytes(&[0u8; 48]), None);
    assert_eq!(Signature::from_bytes(&[1u8; 96]), None);
    let share = SecretKey::random().expect("random key").public_key();
    assert_eq!(share.to_bytes().len(), 48);
    let sig = SecretKey::random().expect("random key").sign(b"x");
    assert_eq!(sig.to_bytes().len(), 96);
    assert_eq!(SignatureShare(sig).0, sig);
}

#[test]
fn hash_bytes_is_not_the_encoding() {
    let g = G1::one();
    let enc = PublicKey(g).to_bytes();
    assert_ne!(hash_bytes(&g, 48), enc);
    assert_eq!(hash_bytes(&g, 0), Vec::<u8>::new());
    let short: Vec<u8> = hash_bytes(&g, 20);
    assert_eq!(short[..5], hash_bytes(&g, 5)[..]);
    assert_ne!(hash_g1_g2(&g, b"m"), hash_g2(b"m"));
}

#[test]
fn poly_arithmetic_exact_values() {
    let p = Poly { coeff: vec![fr_of(1), fr_of(2)] };
    let q = Poly { coeff: vec![fr_of(3), fr_of(1)] };
    let c = Poly::constant(fr_of(3));
    assert_eq!(p.add(&c).coeff, vec![fr_of(4), fr_of(2)]);
    assert_eq!(c.add(&p).coeff, vec![fr_of(4), fr_of(2)]);
    assert_eq!(p.mul_scalar(&fr_of(5)).coeff, vec![fr_of(5), fr_of(10)]);
    assert_eq!(p.mul(&q).coeff, vec![fr_of(3), fr_of(7), fr_of(2)]);
    let n = p.neg();
    let sum = n.add(&p);
    assert_eq!(sum.coeff, vec![Fr::zero(), Fr::zero()]);
    let mut minus_one = Fr::zero();
    minus_one.sub_assign(&Fr::one());
    assert_eq!(n.coeff[0], minus_one);
}

#[test]
fn short_hex_forms() {
    assert_eq!(HexBytes(&[]).to_short_hex(), "");
    assert_eq!(HexBytes(&[0xde, 0xad, 0x0b]).to_short_hex(), "dead0b");
    assert_eq!(HexBytes(&[1, 2, 3, 4, 5, 6]).to_short_hex(), "010203040506");
    assert_eq!(HexBytes(&[1, 2, 3, 4, 5, 6, 0xff]).to_short_hex(), "010203..0506ff");
}

#[test]
fn revealed_debug_strings() {
    let mut fr = fr_of(3);
    let sk = SecretKey::from_mut_ptr(&mut fr).expect("secret key");
    let uncomp = sk.public_key().0.into_affine().into_uncompressed();
    let b = uncomp.as_ref();
    let expected = format!(
        "SecretKey({:02x}{:02x}{:02x}..{:02x}{:02x}{:02x})",
        b[0], b[1], b[2], b[93], b[94], b[95]
    );
    assert_eq!(sk.reveal_debug(), expected);
    let share = SecretKeyShare(sk);
    assert!(share.reveal_debug().starts_with("SecretKeyShare("));
    assert_eq!(&share.reveal_debug()["SecretKeyShare".len()..], &expected["SecretKey".len()..]);
}

#[test]
fn ciphertext_bytes_round_trip() {
    let sk = SecretKey::random().expect("random key");
    let ct = sk.public_key().encrypt(b"seventeen bytes!!").expect("random source");
    let bytes = ct.to_bytes();
    assert_eq!(bytes.len(), 48 + 8 + 17 + 96);
    assert_eq!(bytes[48..56], [17u8, 0, 0, 0, 0, 0, 0, 0]);
    let back = threshold_crypto::keys::Ciphertext::from_bytes(&bytes).expect("decodes");
    assert_eq!(back, ct);
    assert_eq!(sk.decrypt(&back), Some(b"seventeen bytes!!".to_vec()));
    assert_eq!(threshold_crypto::keys::Ciphertext::from_bytes(&bytes[..bytes.len() - 1]), None);
    let mut longer = bytes.clone();
    longer[48] = 18;
    assert_eq!(threshold_crypto::keys::Ciphertext::from_bytes(&longer), None);
}

#[test]
fn public_key_set_bytes_round_trip() {
    let sk_set = SecretKeySet::random(3).expect("key set");
    let pk_set = sk_set.public_keys();
    let bytes = pk_set.to_bytes();
    assert_eq!(bytes.len(), 4 * 48);
    assert_eq!(bytes[..48].to_vec(), pk_set.public_key().to_bytes());
    let back = threshold_crypto::keys::PublicKeySet::from_bytes(&bytes).expect("decodes");
    assert_eq!(back.threshold(), 3);
    assert_eq!(back.public_key(), pk_set.public_key());
    assert_eq!(back.public_key_share(9), pk_set.public_key_share(9));
    assert!(threshold_crypto::keys::PublicKeySet::from_bytes(&bytes[..47]).is_none());
    assert!(threshold_crypto::keys::PublicKeySet::from_bytes(&[]).is_none());
}

#[test]
fn default_keys_are_zero() {
    let sk = SecretKey::default();
    assert_eq!(sk.public_key(), PublicKey(G1::zero()));
    let share = SecretKeyShare::default();
    assert!(share.0 == sk);
    let mut fr = fr_of(8);
    let other = SecretKey::from_mut_ptr(&mut fr).unwrap();
    assert!(other.clone() == other);
    assert!(other != sk);
}

#[test]
fn from_sampled_refuses_a_zero_leading_coefficient() {
    assert_eq!(Poly::from_sampled(vec![fr_of(1), Fr::zero()]).err(), Some(Error::Sampling));
    let p = Poly::from_sampled(vec![Fr::zero(), fr_of(2)]).expect("degree one");
    assert_eq!(p.degree(), 1);
    assert_eq!(p.coeff, vec![Fr::zero(), fr_of(2)]);
    let set = SecretKeySet::from_poly(p);
    assert_eq!(set.threshold(), 1);
}

#[test]
fn share_byte_forms_round_trip() {
    let sk_set = SecretKeySet::random(1).expect("key set");
    let share = sk_set.secret_key_share(4).expect("share");
    let sig = share.sign(b"share");
    let bytes = sig.to_bytes();
    assert_eq!(bytes.len(), 96);
    assert_eq!(SignatureShare::from_bytes(&bytes), Some(sig));
    let ct = sk_set.public_keys().public_key().encrypt(b"m").expect("random source");
    let dec = share.decrypt_share(&ct).expect("valid");
    let dbytes = dec.to_bytes();
    assert_eq!(dbytes.len(), 48);
    assert_eq!(DecryptionShare::from_bytes(&dbytes), Some(dec));
    assert_eq!(DecryptionShare::from_bytes(&dbytes[..40]), None);
    assert_eq!(share.public_key_share().to_bytes().len(), 48);
    let pks = sk_set.public_keys();
    assert_eq!(pks.clone(), pks);
}
