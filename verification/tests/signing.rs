//! Threshold signing.

use craftsec::error::CraftSecError;
use craftsec::feldman::run_dkg;
use craftsec::frost::{
    aggregate, generate_nonces, sign_partial, verify, verify_partial, PartialSignature,
    SigningCommitment, SigningNonce, ThresholdSignature,
};
use craftsec::model::{KeyShare, ThresholdConfig};
use craftsec::pdk::derive_key;
use craftsec::point::EdwardsPoint;
use craftsec::scalar::Scalar;
use rand::rngs::OsRng;
use rand::RngCore;

fn block() -> [u8; 64] {
    let mut b = [0u8; 64];
    OsRng.fill_bytes(&mut b);
    b
}

fn dkg(t: u32, n: u32) -> Vec<KeyShare> {
    let config = ThresholdConfig::new(t, n).unwrap();
    let blocks: Vec<[u8; 64]> = (0..t * n).map(|_| block()).collect();
    run_dkg(&config, &blocks).unwrap()
}

fn draw(shares: &[KeyShare], signers: &[usize]) -> (Vec<SigningNonce>, Vec<SigningCommitment>) {
    signers
        .iter()
        .map(|&i| generate_nonces(shares[i].index, &block(), &block()))
        .unzip()
}

fn sign_all(
    shares: &[KeyShare],
    signers: &[usize],
    nonces: &[SigningNonce],
    message: &[u8],
    commitments: &[SigningCommitment],
) -> Vec<PartialSignature> {
    signers
        .iter()
        .zip(nonces)
        .map(|(&i, nonce)| sign_partial(&shares[i], nonce, message, commitments).unwrap())
        .collect()
}

fn own_key(share: &KeyShare) -> EdwardsPoint {
    share
        .verification_shares
        .iter()
        .find(|(idx, _)| *idx == share.index)
        .unwrap()
        .1
}

fn sign_and_verify(t: u32, n: u32, signers: &[usize]) {
    let key_shares = dkg(t, n);
    let message = b"test transaction data";
    let (nonces, commitments) = draw(&key_shares, signers);
    let partials = sign_all(&key_shares, signers, &nonces, message, &commitments);
    let sig = aggregate(message, &commitments, &partials);
    verify(&sig, &key_shares[0].group_public_key, message).unwrap();
}

#[test]
fn frost_2_of_3() {
    sign_and_verify(2, 3, &[0, 1]);
    sign_and_verify(2, 3, &[0, 2]);
    sign_and_verify(2, 3, &[1, 2]);
}

#[test]
fn frost_3_of_5() {
    sign_and_verify(3, 5, &[0, 1, 2]);
    sign_and_verify(3, 5, &[0, 2, 4]);
    sign_and_verify(3, 5, &[1, 3, 4]);
}

#[test]
fn more_signers_than_needed() {
    sign_and_verify(2, 4, &[3, 0, 2]);
    sign_and_verify(1, 1, &[0]);
}

#[test]
fn partials_are_aggregated_in_any_order() {
    let key_shares = dkg(3, 5);
    let message = b"any order";
    let (nonces, commitments) = draw(&key_shares, &[4, 1, 2]);
    let mut partials = sign_all(&key_shares, &[4, 1, 2], &nonces, message, &commitments);
    partials.rotate_left(1);
    let rotated = aggregate(message, &commitments, &partials);
    verify(&rotated, &key_shares[0].group_public_key, message).unwrap();
    partials.reverse();
    let reversed = aggregate(message, &commitments, &partials);
    verify(&reversed, &key_shares[0].group_public_key, message).unwrap();
}

#[test]
fn too_few_signers_fail() {
    let key_shares = dkg(3, 5);
    let message = b"too few";
    let (nonces, commitments) = draw(&key_shares, &[0, 1]);
    let partials = sign_all(&key_shares, &[0, 1], &nonces, message, &commitments);
    let sig = aggregate(message, &commitments, &partials);
    assert!(verify(&sig, &key_shares[0].group_public_key, message).is_err());
}

#[test]
fn frost_wrong_message_fails() {
    let key_shares = dkg(2, 3);
    let message = b"correct message";
    let (nonces, commitments) = draw(&key_shares, &[0, 1]);
    let partials = sign_all(&key_shares, &[0, 1], &nonces, message, &commitments);
    let sig = aggregate(message, &commitments, &partials);

    let e = verify(&sig, &key_shares[0].group_public_key, b"wrong message").unwrap_err();
    assert!(matches!(
        e,
        CraftSecError::InvalidSignature(ref m) if m == "threshold signature verification failed"
    ));
}

#[test]
fn partial_signature_verification() {
    let key_shares = dkg(2, 3);
    let message = b"verify partials";
    let (nonces, commitments) = draw(&key_shares, &[0, 1]);

    for i in 0..2 {
        let partial = sign_partial(&key_shares[i], &nonces[i], message, &commitments).unwrap();
        let vk = own_key(&key_shares[i]);
        verify_partial(
            &partial,
            &commitments[i],
            &vk,
            message,
            &commitments,
            &key_shares[0].group_public_key,
        )
        .unwrap();
    }
}

#[test]
fn invalid_partial_detected() {
    let key_shares = dkg(2, 3);
    let message = b"detect invalid";
    let (nonces, commitments) = draw(&key_shares, &[0, 1]);

    let mut partial = sign_partial(&key_shares[0], &nonces[0], message, &commitments).unwrap();
    partial.z = partial.z + Scalar::one();

    let vk = own_key(&key_shares[0]);
    let e = verify_partial(
        &partial,
        &commitments[0],
        &vk,
        message,
        &commitments,
        &key_shares[0].group_public_key,
    )
    .unwrap_err();
    assert!(matches!(
        e,
        CraftSecError::InvalidSignature(ref m)
            if m == "partial signature verification failed for participant 1"
    ));
}

#[test]
fn signature_with_known_nonces() {
    let config = ThresholdConfig::new(2, 3).unwrap();
    let (key, shares) = derive_key("Qm_transfer", "main", &config).unwrap();
    let message = b"fixed message";
    let (n0, c0) = generate_nonces(1, &[1; 64], &[2; 64]);
    let (n1, c1) = generate_nonces(3, &[3; 64], &[4; 64]);
    let commitments = [c0, c1];
    let p0 = sign_partial(&shares[0], &n0, message, &commitments).unwrap();
    let p1 = sign_partial(&shares[2], &n1, message, &commitments).unwrap();
    assert_eq!((p0.index, p1.index), (1, 3));
    assert_eq!(
        hex::encode(p0.z.to_bytes()),
        "47195158f4427fdde3e4259dd5786df26a5a42fdd9919766aa1e02b090ce9605"
    );
    assert_eq!(
        hex::encode(p1.z.to_bytes()),
        "e77f4e7385518914df96084da2696bec23a652b246a0b8a22cb4efa551d8e006"
    );
    let sig = aggregate(message, &commitments, &[p0, p1]);
    assert_eq!(
        hex::encode(sig.r.to_bytes()),
        "5a55cb3ef4d06beadcb6eca3a3b27402502d06e0ae12225aeb12dbf3afb0ad80"
    );
    assert_eq!(
        hex::encode(sig.s.to_bytes()),
        "2e999fcb799408f2c27b2eea77e2d8de8e0095af20325009d7d2f155e2a6770c"
    );
    verify(&sig, &key, message).unwrap();
    let other = ThresholdSignature { r: sig.r, s: sig.s + Scalar::one() };
    assert!(verify(&other, &key, message).is_err());
}

#[test]
fn no_signers_give_the_neutral_commitment() {
    let sig = aggregate(b"nobody", &[], &[]);
    assert_eq!(sig.r, EdwardsPoint::identity());
    assert_eq!(sig.s, Scalar::zero());
}
