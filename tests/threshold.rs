use pairing::bls12_381::{Fr, G1, G2};
use pairing::{CurveAffine, CurveProjective, Field};
use rand::Rng;
use threshold_crypto::error::Error;
use threshold_crypto::hash::{hash_bytes, hash_g1_g2, hash_g2, xor_vec};
use threshold_crypto::interp::{interpolate, into_fr_plus_1};
use threshold_crypto::keys::{
    Ciphertext, DecryptionShare, PublicKey, SecretKey, SecretKeySet, SecretKeyShare, Signature,
    SignatureShare,
};
use threshold_crypto::poly::Poly;

fn signature_shares(sk_set: &SecretKeySet, ids: &[u64], msg: &[u8]) -> Vec<(u64, SignatureShare)> {
    ids.iter()
        .map(|&i| {
            let sig = sk_set
                .secret_key_share(i)
                .unwrap_or_else(|_| panic!("Failed to create `SecretKeyShare` #{}", i))
                .sign(msg);
            (i, sig)
        })
        .collect()
}

#[test]
fn test_simple_sig() {
    let sk0 = SecretKey::random().expect("random key");
    let sk1 = SecretKey::random().expect("random key");
    let pk0 = sk0.public_key();
    let msg0 = b"Real news";
    let msg1 = b"Fake news";
    assert!(pk0.verify(&sk0.sign(msg0), msg0));
    assert!(!pk0.verify(&sk1.sign(msg0), msg0)); // Wrong key.
    assert!(!pk0.verify(&sk0.sign(msg1), msg0)); // Wrong message.
}

#[test]
fn test_threshold_sig() {
    let sk_set = SecretKeySet::random(3).expect("Failed to create `SecretKeySet`");
    let pk_set = sk_set.public_keys();
    let pk_master = pk_set.public_key();

    // The keys are different, and the first coefficient is the main key.
    assert_ne!(pk_master, pk_set.public_key_share(0).0);
    assert_ne!(pk_master, pk_set.public_key_share(1).0);
    assert_ne!(pk_master, pk_set.public_key_share(2).0);

    // The main secret key is handed out to no one.
    let sk_master = sk_set
        .secret_key()
        .expect("Failed to create master `SecretKey`");
    let sk_share_0 = sk_set
        .secret_key_share(0)
        .expect("Failed to create first `SecretKeyShare`")
        .0;
    let sk_share_1 = sk_set
        .secret_key_share(1)
        .expect("Failed to create second `SecretKeyShare`")
        .0;
    let sk_share_2 = sk_set
        .secret_key_share(2)
        .expect("Failed to create third `SecretKeyShare`")
        .0;
    assert!(sk_master != sk_share_0);
    assert!(sk_master != sk_share_1);
    assert!(sk_master != sk_share_2);

    let msg = b"Totally real news";

    // The threshold is 3, so 4 signature shares will suffice to recreate the share.
    let sigs = signature_shares(&sk_set, &[5, 8, 7, 10], msg);

    // Each of the shares is a valid signature matching its public key share.
    for (i, sig) in &sigs {
        assert!(pk_set.public_key_share(*i).verify(sig, msg));
    }

    // Combined, they produce a signature matching the main public key.
    let sig = pk_set.combine_signatures(&sigs).expect("signatures match");
    assert!(pk_set.public_key().verify(&sig, msg));

    // A different set of signatories produces the same signature.
    let sigs2 = signature_shares(&sk_set, &[42, 43, 44, 45], msg);
    let sig2 = pk_set.combine_signatures(&sigs2).expect("signatures match");
    assert_eq!(sig, sig2);
}

#[test]
fn test_simple_enc() {
    let sk_bob = SecretKey::random().expect("random key");
    let sk_eve = SecretKey::random().expect("random key");
    let pk_bob = sk_bob.public_key();
    let msg = b"Muffins in the canteen today! Don't tell Eve!";
    let ciphertext = pk_bob.encrypt(&msg[..]).expect("random source");
    assert!(ciphertext.verify());

    // Bob can decrypt the message.
    let decrypted = sk_bob.decrypt(&ciphertext).expect("valid ciphertext");
    assert_eq!(msg[..], decrypted[..]);

    // Eve can't.
    let decrypted_eve = sk_eve.decrypt(&ciphertext).expect("valid ciphertext");
    assert_ne!(msg[..], decrypted_eve[..]);

    // Eve tries to trick Bob into decrypting `msg` xor `v`, but it doesn't validate.
    let Ciphertext(u, v, w) = ciphertext;
    let fake_ciphertext = Ciphertext(u, vec![0; v.len()], w);
    assert!(!fake_ciphertext.verify());
    assert_eq!(None, sk_bob.decrypt(&fake_ciphertext));
}

#[test]
fn test_threshold_enc() {
    let sk_set = SecretKeySet::random(3).expect("Failed to create to `SecretKeySet`");
    let pk_set = sk_set.public_keys();
    let msg = b"Totally real news";
    let ciphertext = pk_set.public_key().encrypt(&msg[..]).expect("random source");

    // The threshold is 3, so 4 signature shares will suffice to decrypt.
    let shares: Vec<(u64, DecryptionShare)> = [5u64, 8, 7, 10]
        .iter()
        .map(|&i| {
            let dec_share = sk_set
                .secret_key_share(i)
                .unwrap_or_else(|_| panic!("Failed to create `SecretKeyShare` #{}", i))
                .decrypt_share(&ciphertext)
                .expect("ciphertext is valid");
            (i, dec_share)
        })
        .collect();

    // Each of the shares is valid matching its public key share.
    for (i, share) in &shares {
        pk_set
            .public_key_share(*i)
            .verify_decryption_share(share, &ciphertext);
    }

    // Combined, they can decrypt the message.
    let decrypted = pk_set
        .decrypt(&shares, &ciphertext)
        .expect("decryption shares match");
    assert_eq!(msg[..], decrypted[..]);
}

#[test]
fn test_hash_g2() {
    let mut rng = rand::thread_rng();
    let msg: Vec<u8> = (0..1000).map(|_| rng.gen()).collect();
    let msg_end0: Vec<u8> = msg.iter().chain(b"end0").cloned().collect();
    let msg_end1: Vec<u8> = msg.iter().chain(b"end1").cloned().collect();

    assert_eq!(hash_g2(&msg), hash_g2(&msg));
    assert_ne!(hash_g2(&msg), hash_g2(&msg_end0));
    assert_ne!(hash_g2(&msg_end0), hash_g2(&msg_end1));
}

#[test]
fn test_hash_g1_g2() {
    let mut rng = rand::thread_rng();
    let msg: Vec<u8> = (0..1000).map(|_| rng.gen()).collect();
    let msg_end0: Vec<u8> = msg.iter().chain(b"end0").cloned().collect();
    let msg_end1: Vec<u8> = msg.iter().chain(b"end1").cloned().collect();
    let g0: G1 = rng.gen();
    let g1: G1 = rng.gen();

    assert_eq!(hash_g1_g2(&g0, &msg), hash_g1_g2(&g0, &msg));
    assert_ne!(hash_g1_g2(&g0, &msg), hash_g1_g2(&g0, &msg_end0));
    assert_ne!(hash_g1_g2(&g0, &msg_end0), hash_g1_g2(&g0, &msg_end1));
    assert_ne!(hash_g1_g2(&g0, &msg), hash_g1_g2(&g1, &msg));
}

#[test]
fn test_hash_bytes() {
    let mut rng = rand::thread_rng();
    let g0: G1 = rng.gen();
    let g1: G1 = rng.gen();
    let hash = hash_bytes;
    assert_eq!(hash(&g0, 5), hash(&g0, 5));
    assert_ne!(hash(&g0, 5), hash(&g1, 5));
    assert_eq!(5, hash(&g0, 5).len());
    assert_eq!(6, hash(&g0, 6).len());
    assert_eq!(20, hash(&g0, 20).len());
}

#[test]
fn test_serde() {
    let sk = SecretKey::random().expect("random key");
    let sig = sk.sign(b"Please sign here: ______");
    let pk = sk.public_key();
    let ser_pk = pk.to_bytes();
    let deser_pk = PublicKey::from_bytes(&ser_pk).expect("deserialize public key");
    assert_eq!(pk, deser_pk);
    let ser_sig = sig.to_bytes();
    let deser_sig = Signature::from_bytes(&ser_sig).expect("deserialize signature");
    assert_eq!(sig, deser_sig);
}
