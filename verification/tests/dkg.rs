//! Scalars, points, polynomials, key generation, derivation and rotation.

use craftsec::deployment::point_hex;
use craftsec::error::CraftSecError;
use craftsec::feldman::{run_dkg, verify_share};
use craftsec::frost::{aggregate, generate_nonces, sign_partial, verify, SigningCommitment, SigningNonce};
use craftsec::lagrange::lagrange_coefficient;
use craftsec::model::{KeyShare, ThresholdConfig};
use craftsec::pdk::derive_key;
use craftsec::point::EdwardsPoint;
use craftsec::polynomial::Polynomial;
use craftsec::rotation::rotate_shares;
use craftsec::scalar::Scalar;
use craftsec::scalar_ext::{hash_to_scalar, random_scalar};
use rand::rngs::OsRng;
use rand::RngCore;

fn block() -> [u8; 64] {
    let mut b = [0u8; 64];
    OsRng.fill_bytes(&mut b);
    b
}

fn blocks(n: usize) -> Vec<[u8; 64]> {
    (0..n).map(|_| block()).collect()
}

fn dkg(config: &ThresholdConfig) -> Vec<KeyShare> {
    let n = (config.threshold * config.total) as usize;
    run_dkg(config, &blocks(n)).unwrap()
}

fn rotate(shares: &[KeyShare], config: &ThresholdConfig) -> Vec<KeyShare> {
    let n = (config.threshold - 1) as usize * shares.len();
    rotate_shares(shares, config, &blocks(n)).unwrap()
}

fn nonces(index: u32) -> (SigningNonce, SigningCommitment) {
    generate_nonces(index, &block(), &block())
}

fn g(n: u64) -> EdwardsPoint {
    EdwardsPoint::basepoint() * Scalar::from(n)
}

#[test]
fn evaluate_constant() {
    let p = Polynomial { coefficients: vec![Scalar::from(42u64)] };
    assert_eq!(p.evaluate(&Scalar::from(100u64)), Scalar::from(42u64));
}

#[test]
fn evaluate_linear() {
    let p = Polynomial { coefficients: vec![Scalar::from(3u64), Scalar::from(5u64)] };
    assert_eq!(p.evaluate(&Scalar::from(2u64)), Scalar::from(13u64));
}

#[test]
fn evaluate_quadratic() {
    let p = Polynomial {
        coefficients: vec![Scalar::from(1u64), Scalar::from(2u64), Scalar::from(3u64)],
    };
    assert_eq!(p.evaluate(&Scalar::from(3u64)), Scalar::from(34u64));
}

#[test]
fn evaluate_at_zero_is_the_secret() {
    let p = Polynomial::random_full(3, &blocks(4));
    assert_eq!(p.evaluate(&Scalar::zero()), *p.secret());
    let empty = Polynomial { coefficients: vec![] };
    assert_eq!(empty.evaluate(&Scalar::from(5u64)), Scalar::zero());
}

#[test]
fn random_polynomials_take_the_blocks_in_order() {
    let b = blocks(3);
    let p = Polynomial::random(2, Scalar::from(9u64), &b);
    assert_eq!(
        p.coefficients,
        vec![Scalar::from(9u64), random_scalar(&b[0]), random_scalar(&b[1])]
    );
    let q = Polynomial::random_full(2, &b);
    assert_eq!(
        q.coefficients,
        vec![random_scalar(&b[0]), random_scalar(&b[1]), random_scalar(&b[2])]
    );
}

#[test]
fn scalar_arithmetic() {
    let two = Scalar::from(2u64);
    let three = Scalar::from(3u64);
    assert_eq!(two + three, Scalar::from(5u64));
    assert_eq!(three - two, Scalar::one());
    assert_eq!(two - three + three, two);
    assert_eq!(two * three, Scalar::from(6u64));
    assert_eq!(two.invert() * two, Scalar::one());
    assert_eq!(Scalar::zero().invert(), Scalar::zero());
    assert_eq!(
        hex::encode(two.invert().to_bytes()),
        "f7e97a2e8d31092c6bce7b51ef7c6f0a00000000000000000000000000000008"
    );
    assert_ne!(two, three);
}

#[test]
fn scalars_of_bytes() {
    assert_eq!(
        hex::encode(random_scalar(&[1u8; 64]).to_bytes()),
        "4fe2a684e0e6c5e370ca0d89f5e2cb0da1e2ecd4028fa2d395fbca4e33f25805"
    );
    assert_eq!(
        hex::encode(hash_to_scalar(b"abc").to_bytes()),
        "d15dbef29abf1ff29f9cf91c4b75ee0bb1012cb031d9605d684e841df034de0b"
    );
    let bytes = Scalar::from(77u64).to_bytes();
    assert_eq!(Scalar::from_canonical_bytes(&bytes), Some(Scalar::from(77u64)));
    assert_eq!(Scalar::from_canonical_bytes(&[0xff; 32]), None);
}

#[test]
fn point_arithmetic() {
    assert_eq!(hex::encode(EdwardsPoint::basepoint().to_bytes()), "58".to_string() + &"66".repeat(31));
    assert_eq!(
        hex::encode(g(2).to_bytes()),
        "c9a3f86aae465f0e56513864510f3997561fa2c9e85ea21dc2292309f3cd6022"
    );
    assert_eq!(g(1) + g(1), g(2));
    assert_eq!(g(0), EdwardsPoint::identity());
    assert_eq!(g(5) + EdwardsPoint::identity(), g(5));
    assert_eq!(EdwardsPoint::base_multiple(&Scalar::from(7u64)), g(7));
    assert_ne!(g(1), g(2));
    assert_eq!(g(3) * Scalar::from(4u64), g(12));
}

#[test]
fn points_of_bytes() {
    assert_eq!(EdwardsPoint::from_bytes(&g(9).to_bytes()), Some(g(9)));
    let mut not_a_point = [0u8; 32];
    not_a_point[0] = 2;
    assert_eq!(EdwardsPoint::from_bytes(&not_a_point), None);
    let mut order_two = [0xffu8; 32];
    order_two[0] = 0xec;
    order_two[31] = 0x7f;
    let p = EdwardsPoint::from_bytes(&order_two).unwrap();
    assert_eq!(p + p, EdwardsPoint::identity());
    assert_ne!(p, EdwardsPoint::identity());
    assert_eq!(p * Scalar::from(3u64), p);
}

#[test]
fn lagrange_reconstruction() {
    let s1 = Scalar::from(8u64);
    let s2 = Scalar::from(11u64);

    let indices = &[1u32, 2u32];
    let l1 = lagrange_coefficient(1, indices);
    let l2 = lagrange_coefficient(2, indices);

    let secret = s1 * l1 + s2 * l2;
    assert_eq!(secret, Scalar::from(5u64));
}

#[test]
fn lagrange_coefficients_of_two() {
    assert_eq!(lagrange_coefficient(1, &[1, 2]), Scalar::from(2u64));
    assert_eq!(lagrange_coefficient(2, &[1, 2]), Scalar::zero() - Scalar::one());
    assert_eq!(lagrange_coefficient(7, &[7]), Scalar::one());
    assert_eq!(lagrange_coefficient(7, &[]), Scalar::one());
}

#[test]
fn dkg_2_of_3() {
    let config = ThresholdConfig::new(2, 3).unwrap();
    let shares = dkg(&config);
    assert_eq!(shares.len(), 3);
    assert_eq!(shares[0].group_public_key, shares[1].group_public_key);
    assert_eq!(shares[1].group_public_key, shares[2].group_public_key);
    for share in &shares {
        let computed = EdwardsPoint::basepoint() * share.secret;
        let expected = share
            .verification_shares
            .iter()
            .find(|(idx, _)| *idx == share.index)
            .unwrap()
            .1;
        assert_eq!(computed, expected);
    }
}

#[test]
fn dkg_3_of_5() {
    let config = ThresholdConfig::new(3, 5).unwrap();
    let shares = dkg(&config);
    assert_eq!(shares.len(), 5);
    for s in &shares {
        assert_eq!(s.group_public_key, shares[0].group_public_key);
    }
}

#[test]
fn dkg_with_chosen_coefficients() {
    let mut b = vec![[0u8; 64]; 4];
    b[0][0] = 5;
    b[1][0] = 7;
    b[2][0] = 11;
    b[3][0] = 13;
    let config = ThresholdConfig::new(2, 2).unwrap();
    let shares = run_dkg(&config, &b).unwrap();
    assert_eq!(shares[0].index, 1);
    assert_eq!(shares[0].secret, Scalar::from(36u64));
    assert_eq!(shares[1].secret, Scalar::from(56u64));
    assert_eq!(shares[0].group_public_key, g(16));
    assert_eq!(shares[0].verification_shares, vec![(1, g(36)), (2, g(56))]);
    assert_eq!(shares[1].verification_shares, vec![(1, g(36)), (2, g(56))]);
}

#[test]
fn dkg_without_participants() {
    let config = ThresholdConfig { threshold: 0, total: 0 };
    assert!(run_dkg(&config, &[]).unwrap().is_empty());
}

#[test]
fn invalid_share_detected() {
    let commitments = vec![g(10), g(20)];
    let bad_share = Scalar::from(999u64);
    assert!(verify_share(1, &bad_share, &commitments).is_err());
    let e = verify_share(17, &bad_share, &commitments).unwrap_err();
    assert!(matches!(
        e,
        CraftSecError::InvalidShare(ref m) if m == "share verification failed for participant 17"
    ));
}

#[test]
fn valid_share_passes() {
    let commitments = vec![g(10), g(20)];
    assert!(verify_share(1, &Scalar::from(30u64), &commitments).is_ok());
    assert!(verify_share(2, &Scalar::from(50u64), &commitments).is_ok());
}

#[test]
fn shares_reconstruct_secret() {
    let config = ThresholdConfig::new(2, 3).unwrap();
    let shares = dkg(&config);

    let s1 = &shares[0];
    let s2 = &shares[1];
    let x1 = Scalar::from(s1.index as u64);
    let x2 = Scalar::from(s2.index as u64);

    let l1 = x2 * (x2 - x1).invert();
    let l2 = x1 * (x1 - x2).invert();
    let reconstructed = s1.secret * l1 + s2.secret * l2;

    assert_eq!(EdwardsPoint::basepoint() * reconstructed, shares[0].group_public_key);
}

#[test]
fn fewer_shares_do_not_reconstruct() {
    let config = ThresholdConfig::new(3, 5).unwrap();
    let shares = dkg(&config);
    let l1 = lagrange_coefficient(1, &[1, 2]);
    let l2 = lagrange_coefficient(2, &[1, 2]);
    let guess = shares[0].secret * l1 + shares[1].secret * l2;
    assert_ne!(EdwardsPoint::base_multiple(&guess), shares[0].group_public_key);
}

#[test]
fn derive_key_deterministic() {
    let config = ThresholdConfig::new(2, 3).unwrap();
    let (pk1, shares1) = derive_key("Qm_transfer", "main", &config).unwrap();
    let (pk2, shares2) = derive_key("Qm_transfer", "main", &config).unwrap();
    assert_eq!(pk1, pk2);
    assert_eq!(shares1[0].secret, shares2[0].secret);
}

#[test]
fn derive_key_known_values() {
    let config = ThresholdConfig::new(2, 3).unwrap();
    let (key, shares) = derive_key("Qm_transfer", "main", &config).unwrap();
    assert_eq!(
        point_hex(&key),
        "7087956e2488d4ac822092f01993864094a04e1777731f8702f6a381400be1cc"
    );
    let secrets: Vec<String> = shares.iter().map(|s| hex::encode(s.secret.to_bytes())).collect();
    assert_eq!(
        secrets,
        vec![
            "6b00985fec12cf07444dbb958aa62393770de1e669688ad98c673a7ff43f700a",
            "4e90d0151c1f98da24d66a11bc5bd6350618c4fee9b6295a3366060bdabc7b03",
            "1ef4fe28668e7305dcfb1130cc0a68ed9422a7166a05c9dad964d296bf39870c",
        ]
    );
}

#[test]
fn different_seeds_different_keys() {
    let config = ThresholdConfig::new(2, 3).unwrap();
    let (pk1, _) = derive_key("Qm_transfer", "main", &config).unwrap();
    let (pk2, _) = derive_key("Qm_transfer", "escrow:alice:bob", &config).unwrap();
    let (pk3, _) = derive_key("Qm_transfer", "treasury", &config).unwrap();
    assert_ne!(pk1, pk2);
    assert_ne!(pk2, pk3);
    assert_ne!(pk1, pk3);
}

#[test]
fn different_programs_different_keys() {
    let config = ThresholdConfig::new(2, 3).unwrap();
    let (pk1, _) = derive_key("Qm_transfer", "main", &config).unwrap();
    let (pk2, _) = derive_key("Qm_swap", "main", &config).unwrap();
    assert_ne!(pk1, pk2);
}

#[test]
fn the_split_between_program_and_seed_matters() {
    let config = ThresholdConfig::new(2, 3).unwrap();
    let (pk1, _) = derive_key("Qm_a", "b", &config).unwrap();
    let (pk2, _) = derive_key("Qm_", "ab", &config).unwrap();
    assert_ne!(pk1, pk2);
}

#[test]
fn shares_reconstruct_to_group_key() {
    let config = ThresholdConfig::new(2, 3).unwrap();
    let (gpk, shares) = derive_key("Qm_test", "main", &config).unwrap();

    let indices = &[1u32, 2u32];
    let l1 = lagrange_coefficient(1, indices);
    let l2 = lagrange_coefficient(2, indices);
    let secret = shares[0].secret * l1 + shares[1].secret * l2;

    assert_eq!(EdwardsPoint::basepoint() * secret, gpk);
}

fn sign_with(shares: &[KeyShare], signers: &[usize], message: &[u8], key: &EdwardsPoint) {
    let mut drawn = Vec::new();
    let mut commitments = Vec::new();
    for &i in signers {
        let (n, c) = nonces(shares[i].index);
        drawn.push(n);
        commitments.push(c);
    }
    let mut partials = Vec::new();
    for (idx, &i) in signers.iter().enumerate() {
        partials.push(sign_partial(&shares[i], &drawn[idx], message, &commitments).unwrap());
    }
    let sig = aggregate(message, &commitments, &partials);
    verify(&sig, key, message).unwrap();
}

#[test]
fn sign_with_derived_key() {
    let config = ThresholdConfig::new(2, 3).unwrap();
    let (gpk, shares) = derive_key("Qm_transfer", "main", &config).unwrap();
    sign_with(&shares, &[0, 2], b"test transaction", &gpk);
}

#[test]
fn multiple_keys_per_program() {
    let config = ThresholdConfig::new(2, 3).unwrap();

    let seeds = ["main", "escrow:alice:bob", "treasury"];
    let mut keys = Vec::new();

    for seed in &seeds {
        let (gpk, shares) = derive_key("Qm_swap", seed, &config).unwrap();
        keys.push((gpk, shares));
    }

    assert_ne!(keys[0].0, keys[1].0);
    assert_ne!(keys[1].0, keys[2].0);

    for (gpk, shares) in &keys {
        sign_with(shares, &[0, 1], b"test", gpk);
    }
}

#[test]
fn rotate_2_of_3_preserves_public_key() {
    let config = ThresholdConfig::new(2, 3).unwrap();
    let old_shares = dkg(&config);
    let old_gpk = old_shares[0].group_public_key;

    let new_shares = rotate(&old_shares, &config);

    assert_eq!(new_shares[0].group_public_key, old_gpk);
    for s in &new_shares {
        assert_eq!(s.group_public_key, old_gpk);
    }
}

#[test]
fn new_shares_can_sign() {
    let config = ThresholdConfig::new(2, 3).unwrap();
    let old_shares = dkg(&config);
    let new_shares = rotate(&old_shares, &config);
    let key = new_shares[0].group_public_key;
    sign_with(&new_shares, &[0, 2], b"post-rotation message", &key);
}

#[test]
fn rotated_verification_shares_match() {
    let config = ThresholdConfig::new(2, 3).unwrap();
    let new_shares = rotate(&dkg(&config), &config);
    for s in &new_shares {
        for (j, (index, y)) in s.verification_shares.iter().enumerate() {
            assert_eq!(*index, j as u32 + 1);
            assert_eq!(*y, EdwardsPoint::base_multiple(&new_shares[j].secret));
        }
    }
}

#[test]
fn rotation_with_chosen_coefficients() {
    let config = ThresholdConfig::new(2, 2).unwrap();
    let mut b = vec![[0u8; 64]; 4];
    b[0][0] = 5;
    b[1][0] = 7;
    b[2][0] = 11;
    b[3][0] = 13;
    let old_shares = run_dkg(&config, &b).unwrap();
    let mut z = vec![[0u8; 64]; 2];
    z[0][0] = 3;
    z[1][0] = 4;
    let new_shares = rotate_shares(&old_shares, &config, &z).unwrap();
    assert_eq!(new_shares[0].secret, Scalar::from(36u64 + 7));
    assert_eq!(new_shares[1].secret, Scalar::from(56u64 + 14));
    assert_eq!(new_shares[1].verification_shares, vec![(1, g(43)), (2, g(70))]);
    assert_eq!(new_shares[1].group_public_key, g(16));
}

#[test]
fn rotation_to_a_higher_threshold() {
    let old_config = ThresholdConfig::new(2, 4).unwrap();
    let new_config = ThresholdConfig::new(3, 4).unwrap();
    let old_shares = dkg(&old_config);
    let key = old_shares[0].group_public_key;
    let new_shares = rotate(&old_shares, &new_config);
    sign_with(&new_shares, &[0, 1, 3], b"raised", &key);
}

#[test]
fn old_shares_cannot_sign_valid_after_rotation() {
    let config = ThresholdConfig::new(2, 3).unwrap();
    let old_shares = dkg(&config);
    let new_shares = rotate(&old_shares, &config);

    assert_ne!(old_shares[0].secret, new_shares[0].secret);
    assert_ne!(old_shares[1].secret, new_shares[1].secret);
    assert_ne!(old_shares[2].secret, new_shares[2].secret);

    let message = b"mixed shares test";
    let (n0, c0) = nonces(old_shares[0].index);
    let (n1, c1) = nonces(new_shares[1].index);
    let commitments = vec![c0, c1];

    let p0 = sign_partial(&old_shares[0], &n0, message, &commitments).unwrap();
    let p1 = sign_partial(&new_shares[1], &n1, message, &commitments).unwrap();

    let sig = aggregate(message, &commitments, &[p0, p1]);
    assert!(verify(&sig, &new_shares[0].group_public_key, message).is_err());
}

#[test]
fn double_rotation() {
    let config = ThresholdConfig::new(2, 3).unwrap();
    let shares0 = dkg(&config);
    let gpk = shares0[0].group_public_key;

    let shares1 = rotate(&shares0, &config);
    let shares2 = rotate(&shares1, &config);

    assert_eq!(shares2[0].group_public_key, gpk);
    sign_with(&shares2, &[0, 1], b"double rotated", &gpk);
}
