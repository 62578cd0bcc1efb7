//! FROST threshold signing over Ed25519.
//!
//! In the first round every signer draws two nonces and publishes commitments to them. In the
//! second round every signer computes a partial signature on the message. The sum of the partial
//! signatures is an Ed25519 signature under the group's public key.

use crate::error::{CraftSecError, Result};
use crate::feldman;
use crate::hashing;
use crate::interpolation;
use crate::lagrange;
use crate::lagrange::lagrange_coefficient;
use crate::model::{KeyShare, ParticipantIndex};
use crate::modular;
use crate::order;
use crate::point;
use crate::point::EdwardsPoint;
use crate::scalar;
use crate::scalar::Scalar;
use crate::scalar_ext;
use crate::scalar_ext::{hash_to_scalar, random_scalar};
use crate::text;
use crate::text::{append_bytes, joined_decimal};
use vstd::arithmetic::div_mod::*;
use vstd::arithmetic::mul::*;
use vstd::bytes::*;
use vstd::prelude::*;

verus! {

/// A signer's nonces.
#[derive(Clone, Copy, Debug)]
pub struct SigningNonce {
    /// The signer's index.
    pub index: ParticipantIndex,
    /// The hiding nonce, a secret.
    pub d: Scalar,
    /// The binding nonce, a secret.
    pub e: Scalar,
}

/// A signer's commitments to its nonces.
#[derive(Clone, Copy, Debug)]
pub struct SigningCommitment {
    /// The signer's index.
    pub index: ParticipantIndex,
    /// The base point times the hiding nonce.
    pub hiding: EdwardsPoint,
    /// The base point times the binding nonce.
    pub binding: EdwardsPoint,
}

/// A signer's part of a signature.
#[derive(Clone, Copy, Debug)]
pub struct PartialSignature {
    /// The signer's index.
    pub index: ParticipantIndex,
    /// The signer's summand of the signature's scalar.
    pub z: Scalar,
}

/// A signature by the group.
#[derive(Clone, Copy, Debug)]
pub struct ThresholdSignature {
    /// The group's commitment.
    pub r: EdwardsPoint,
    /// The response to the challenge.
    pub s: Scalar,
}

/// The encoding of commitments: for each, the index and the two points.
pub open spec fn commitments_encoding(cs: Seq<SigningCommitment>) -> Seq<u8>
    decreases cs.len(),
{
    if cs.len() == 0 {
        Seq::empty()
    } else {
        commitments_encoding(cs.drop_last()) + spec_u32_to_le_bytes(cs.last().index)
            + cs.last().hiding@.encoding() + cs.last().binding@.encoding()
    }
}

/// What is hashed to the binding factor of a signer.
pub open spec fn binding_input(
    index: ParticipantIndex,
    message: Seq<u8>,
    cs: Seq<SigningCommitment>,
) -> Seq<u8> {
    spec_u32_to_le_bytes(index) + message + commitments_encoding(cs)
}

/// The binding factor of a signer.
pub open spec fn rho(
    index: ParticipantIndex,
    message: Seq<u8>,
    cs: Seq<SigningCommitment>,
) -> nat {
    scalar_ext::hash_value(binding_input(index, message, cs)) as nat
}

/// A signer's summand of the group's commitment.
pub open spec fn bound_commitment(
    c: SigningCommitment,
    message: Seq<u8>,
    cs: Seq<SigningCommitment>,
) -> point::Element {
    c.hiding@.plus(c.binding@.times(rho(c.index, message, cs)))
}

/// The group's commitment.
pub open spec fn group_element(message: Seq<u8>, cs: Seq<SigningCommitment>) -> point::Element {
    point::element_sum(Seq::new(cs.len(), |k: int| bound_commitment(cs[k], message, cs)))
}

/// The Ed25519 challenge: the hash of the commitment, the public key and the message.
pub open spec fn challenge(r: point::Element, key: point::Element, message: Seq<u8>) -> nat {
    scalar_ext::hash_value(r.encoding() + key.encoding() + message) as nat
}

/// The indices of the signers that the commitments come from.
pub open spec fn signers(cs: Seq<SigningCommitment>) -> Seq<ParticipantIndex> {
    Seq::new(cs.len(), |k: int| cs[k].index)
}

/// A signer's partial signature: `d + e * rho + lambda * secret * challenge`.
pub open spec fn partial_value(
    share: KeyShare,
    nonce: SigningNonce,
    message: Seq<u8>,
    cs: Seq<SigningCommitment>,
) -> int {
    nonce.d.value() + nonce.e.value() * rho(share.index, message, cs) + lagrange::coefficient(
        share.index,
        signers(cs),
    ) * share.secret.value() * challenge(
        group_element(message, cs),
        share.group_public_key@,
        message,
    )
}

/// The base point times the partial signature that is expected of a signer.
pub open spec fn expected_partial(
    index: ParticipantIndex,
    commitment: SigningCommitment,
    verification_share: point::Element,
    message: Seq<u8>,
    cs: Seq<SigningCommitment>,
    key: point::Element,
) -> point::Element {
    commitment.hiding@.plus(commitment.binding@.times(rho(index, message, cs))).plus(
        verification_share.times(
            ((lagrange::coefficient(index, signers(cs)) * challenge(
                group_element(message, cs),
                key,
                message,
            )) % order::group_order()) as nat,
        ),
    )
}

/// The signature is valid: the base point times its scalar is the commitment plus the public
/// key times the challenge.
pub open spec fn accepts(
    signature: ThresholdSignature,
    key: point::Element,
    message: Seq<u8>,
) -> bool {
    point::base_times(signature.s.value() as int) == signature.r@.plus(
        key.times(challenge(signature.r@, key, message)),
    )
}

/// The bytes encode a signature: a point and a scalar below the group order.
pub open spec fn encodes_signature(bytes: Seq<u8>) -> bool {
    &&& bytes.len() == 64
    &&& point::decoded(bytes.take(32)) is Some
    &&& scalar::little_endian(bytes.skip(32)) < order::group_order()
}

/// The bytes encode a signature that is valid for the message under the key.
pub open spec fn accepts_bytes(bytes: Seq<u8>, key: point::Element, message: Seq<u8>) -> bool {
    encodes_signature(bytes) && {
        let r = point::element(point::decoded(bytes.take(32))->0);
        point::base_times(scalar::little_endian(bytes.skip(32)) as int) == r.plus(
            key.times(challenge(r, key, message)),
        )
    }
}

/// The first 32 bytes from a position on.
fn bytes_from(bytes: &[u8], start: usize) -> (r: [u8; 32])
    requires
        start + 32 <= bytes@.len(),
    ensures
        r@ == bytes@.subrange(start as int, start + 32),
{
    let available: usize = bytes.len();
    let mut r = [0u8; 32];
    let mut k: usize = 0;
    while k < 32
        invariant
            k <= 32,
            start + 32 <= available == bytes@.len(),
            forall|i: int| 0 <= i < k ==> #[trigger] r@[i] == bytes@[start + i],
        decreases 32 - k,
    {
        r[k] = bytes[start + k];
        k = k + 1;
    }
    assert(r@ =~= bytes@.subrange(start as int, start + 32));
    r
}

/// The point that bytes encode, if they are as many as an encoding has and encode one.
pub fn point_from_slice(bytes: &[u8]) -> (r: Option<EdwardsPoint>)
    ensures
        r is Some <==> bytes@.len() == 32 && point::decoded(bytes@) is Some,
        r matches Some(p) ==> p@ == point::element(point::decoded(bytes@)->0),
{
    if bytes.len() != 32 {
        return None;
    }
    let encoding = bytes_from(bytes, 0);
    assert(encoding@ =~= bytes@);
    EdwardsPoint::from_bytes(&encoding)
}

impl ThresholdSignature {
    /// The signature that bytes encode, if they encode one.
    pub fn from_slice(bytes: &[u8]) -> (r: Option<ThresholdSignature>)
        ensures
            r is Some <==> encodes_signature(bytes@),
            r matches Some(signature) ==> signature.r@ == point::element(
                point::decoded(bytes@.take(32))->0,
            ) && signature.s.value() == scalar::little_endian(bytes@.skip(32)),
    {
        if bytes.len() != 64 {
            return None;
        }
        let first = bytes_from(bytes, 0);
        let second = bytes_from(bytes, 32);
        assert(first@ =~= bytes@.take(32));
        assert(second@ =~= bytes@.skip(32));
        match (EdwardsPoint::from_bytes(&first), Scalar::from_canonical_bytes(&second)) {
            (Some(r), Some(s)) => Some(ThresholdSignature { r, s }),
            _ => None,
        }
    }
}

/// Verifies the signature that bytes encode.
pub fn verify_bytes(bytes: &[u8], public_key: &EdwardsPoint, message: &[u8]) -> (r: bool)
    ensures
        r == accepts_bytes(bytes@, public_key@, message@),
{
    match ThresholdSignature::from_slice(bytes) {
        Some(signature) => verify(&signature, public_key, message).is_ok(),
        None => false,
    }
}

/// Round 1: draws nonces from two random blocks and commits to them.
pub fn generate_nonces(
    index: ParticipantIndex,
    hiding_block: &[u8; 64],
    binding_block: &[u8; 64],
) -> (r: (SigningNonce, SigningCommitment))
    ensures
        r.0.index == index,
        r.0.d.value() == scalar_ext::block_value(hiding_block@),
        r.0.e.value() == scalar_ext::block_value(binding_block@),
        commits(r.1, r.0),
{
    let d = random_scalar(hiding_block);
    let e = random_scalar(binding_block);
    let nonce = SigningNonce { index, d, e };
    let commitment = SigningCommitment {
        index,
        hiding: EdwardsPoint::base_multiple(&d),
        binding: EdwardsPoint::base_multiple(&e),
    };
    (nonce, commitment)
}

/// The commitment is the one to the nonces.
pub open spec fn commits(commitment: SigningCommitment, nonce: SigningNonce) -> bool {
    &&& commitment.index == nonce.index
    &&& commitment.hiding@ == point::base_times(nonce.d.value() as int)
    &&& commitment.binding@ == point::base_times(nonce.e.value() as int)
}

/// The binding factor of a signer.
pub fn binding_factor(
    index: ParticipantIndex,
    message: &[u8],
    commitments: &[SigningCommitment],
) -> (r: Scalar)
    ensures
        r.value() == rho(index, message@, commitments@),
        r.value() == scalar_ext::hash_value(
            spec_u32_to_le_bytes(index) + message@ + commitments_encoding(commitments@),
        ),
{
    let mut data: Vec<u8> = Vec::new();
    let index_bytes = u32_to_le_bytes(index);
    append_bytes(&mut data, index_bytes.as_slice());
    append_bytes(&mut data, message);
    let ghost head = data@;
    let mut k: usize = 0;
    assert(commitments@.take(0) =~= Seq::<SigningCommitment>::empty());
    assert(data@ =~= head + commitments_encoding(commitments@.take(0)));
    while k < commitments.len()
        invariant
            k <= commitments@.len(),
            data@ == head + commitments_encoding(commitments@.take(k as int)),
        decreases commitments@.len() - k,
    {
        let c = commitments[k];
        let c_bytes = u32_to_le_bytes(c.index);
        append_bytes(&mut data, c_bytes.as_slice());
        append_bytes(&mut data, &c.hiding.to_bytes());
        append_bytes(&mut data, &c.binding.to_bytes());
        proof {
            let t = commitments@.take(k + 1);
            assert(t.drop_last() =~= commitments@.take(k as int));
            assert(t.last() == c);
            assert(data@ =~= head + commitments_encoding(t));
        }
        k = k + 1;
    }
    assert(commitments@.take(k as int) =~= commitments@);
    assert(data@ =~= binding_input(index, message@, commitments@));
    proof {
        order::lemma_group_order_large();
        lemma_mod_bound(
            scalar::little_endian(hashing::sha512(data@)) as int,
            order::group_order(),
        );
    }
    hash_to_scalar(data.as_slice())
}

/// The group's commitment.
pub fn group_commitment(message: &[u8], commitments: &[SigningCommitment]) -> (r: EdwardsPoint)
    ensures
        r@ == group_element(message@, commitments@),
{
    let ghost all = Seq::new(
        commitments@.len(),
        |k: int| bound_commitment(commitments@[k], message@, commitments@),
    );
    let mut sum = EdwardsPoint::identity();
    let mut k: usize = 0;
    while k < commitments.len()
        invariant
            k <= commitments@.len(),
            all == Seq::new(
                commitments@.len(),
                |k: int| bound_commitment(commitments@[k], message@, commitments@),
            ),
            sum@ == point::element_sum(all.take(k as int)),
        decreases commitments@.len() - k,
    {
        let c = commitments[k];
        let factor = binding_factor(c.index, message, commitments);
        sum = sum + (c.hiding + c.binding * factor);
        proof {
            let t = all.take(k + 1);
            assert(t.drop_last() =~= all.take(k as int));
            assert(t.last() == all[k as int]);
        }
        k = k + 1;
    }
    assert(all.take(k as int) =~= all);
    sum
}

/// The Ed25519 challenge.
pub fn compute_challenge(r: &EdwardsPoint, public_key: &EdwardsPoint, message: &[u8]) -> (c: Scalar)
    ensures
        c.value() == challenge(r@, public_key@, message@),
        c.value() == scalar_ext::hash_value(r@.encoding() + public_key@.encoding() + message@),
{
    let mut data: Vec<u8> = Vec::new();
    append_bytes(&mut data, &r.to_bytes());
    append_bytes(&mut data, &public_key.to_bytes());
    append_bytes(&mut data, message);
    assert(data@ =~= r@.encoding() + public_key@.encoding() + message@);
    proof {
        order::lemma_group_order_large();
        lemma_mod_bound(
            scalar::little_endian(hashing::sha512(data@)) as int,
            order::group_order(),
        );
    }
    hash_to_scalar(data.as_slice())
}

/// The indices of the signers.
fn signer_indices(commitments: &[SigningCommitment]) -> (r: Vec<ParticipantIndex>)
    ensures
        r@ == signers(commitments@),
{
    let mut indices: Vec<ParticipantIndex> = Vec::new();
    let mut k: usize = 0;
    while k < commitments.len()
        invariant
            k <= commitments@.len(),
            indices@ == signers(commitments@).take(k as int),
        decreases commitments@.len() - k,
    {
        indices.push(commitments[k].index);
        k = k + 1;
        assert(indices@ =~= signers(commitments@).take(k as int));
    }
    assert(signers(commitments@).take(k as int) =~= signers(commitments@));
    indices
}

/// Round 2: computes a signer's partial signature.
pub fn sign_partial(
    key_share: &KeyShare,
    nonce: &SigningNonce,
    message: &[u8],
    commitments: &[SigningCommitment],
) -> (r: Result<PartialSignature>)
    ensures
        r matches Ok(p) && p.index == key_share.index && p.z.value() == partial_value(
            *key_share,
            *nonce,
            message@,
            commitments@,
        ) % order::group_order(),
{
    let indices = signer_indices(commitments);
    let r = group_commitment(message, commitments);
    let c = compute_challenge(&r, &key_share.group_public_key, message);
    let factor = binding_factor(key_share.index, message, commitments);
    let lambda = lagrange_coefficient(key_share.index, indices.as_slice());
    let z = nonce.d + nonce.e * factor + lambda * key_share.secret * c;
    proof {
        let q = order::group_order();
        let d = nonce.d.value() as int;
        let b = nonce.e.value() * factor.value();
        let l = lambda.value() * key_share.secret.value();
        let cv = c.value() as int;
        order::lemma_group_order_large();
        lemma_add_mod_noop_right(d, b as int, q);
        lemma_mul_mod_noop_left(l as int, cv, q);
        lemma_add_mod_noop(d + b, l * cv, q);
    }
    Ok(PartialSignature { index: key_share.index, z })
}

/// Verifies a partial signature against the signer's verification share.
pub fn verify_partial(
    partial: &PartialSignature,
    commitment: &SigningCommitment,
    verification_share: &EdwardsPoint,
    message: &[u8],
    commitments: &[SigningCommitment],
    group_public_key: &EdwardsPoint,
) -> (r: Result<()>)
    ensures
        r is Ok <==> point::base_times(partial.z.value() as int) == expected_partial(
            partial.index,
            *commitment,
            verification_share@,
            message@,
            commitments@,
            group_public_key@,
        ),
        r matches Err(e) ==> e matches CraftSecError::InvalidSignature(m) && m@
            == "partial signature verification failed for participant "@ + text::decimal(
            partial.index as nat,
        ),
{
    let indices = signer_indices(commitments);
    let r = group_commitment(message, commitments);
    let c = compute_challenge(&r, group_public_key, message);
    let factor = binding_factor(partial.index, message, commitments);
    let lambda = lagrange_coefficient(partial.index, indices.as_slice());
    let lhs = EdwardsPoint::base_multiple(&partial.z);
    let rhs = commitment.hiding + commitment.binding * factor + *verification_share * (lambda * c);
    if lhs == rhs {
        Ok(())
    } else {
        Err(
            CraftSecError::InvalidSignature(
                joined_decimal(
                    "partial signature verification failed for participant ",
                    partial.index as u64,
                ),
            ),
        )
    }
}

/// The scalars of partial signatures.
pub open spec fn partial_scalars(ps: Seq<PartialSignature>) -> Seq<int> {
    Seq::new(ps.len(), |k: int| ps[k].z.value() as int)
}

/// Aggregates partial signatures into the group's signature.
pub fn aggregate(
    message: &[u8],
    commitments: &[SigningCommitment],
    partials: &[PartialSignature],
) -> (r: ThresholdSignature)
    ensures
        r.r@ == group_element(message@, commitments@),
        r.s.value() == interpolation::sum(partial_scalars(partials@)) % order::group_order(),
{
    let r = group_commitment(message, commitments);
    let mut s = Scalar::zero();
    let mut k: usize = 0;
    let ghost q = order::group_order();
    let ghost zs = partial_scalars(partials@);
    proof {
        order::lemma_group_order_large();
        lemma_small_mod(0, q as nat);
    }
    while k < partials.len()
        invariant
            k <= partials@.len(),
            q == order::group_order(),
            q > 1,
            zs == partial_scalars(partials@),
            s.value() == interpolation::sum(zs.take(k as int)) % q,
        decreases partials@.len() - k,
    {
        s = s + partials[k].z;
        proof {
            let t = zs.take(k + 1);
            assert(t.drop_last() =~= zs.take(k as int));
            assert(t.last() == zs[k as int]);
            lemma_add_mod_noop_right(
                zs[k as int],
                interpolation::sum(zs.take(k as int)),
                q,
            );
        }
        k = k + 1;
    }
    assert(zs.take(k as int) =~= zs);
    ThresholdSignature { r, s }
}

/// Verifies a signature against the group's public key.
pub fn verify(signature: &ThresholdSignature, public_key: &EdwardsPoint, message: &[u8]) -> (r:
    Result<()>)
    ensures
        r is Ok <==> accepts(*signature, public_key@, message@),
        r is Ok <==> point::base_times(signature.s.value() as int) == signature.r@.plus(
            public_key@.times(
                scalar_ext::hash_value(
                    signature.r@.encoding() + public_key@.encoding() + message@,
                ) as nat,
            ),
        ),
        r matches Err(e) ==> e matches CraftSecError::InvalidSignature(m) && m@
            == "threshold signature verification failed"@,
{
    let c = compute_challenge(&signature.r, public_key, message);
    let lhs = EdwardsPoint::base_multiple(&signature.s);
    let rhs = signature.r + *public_key * c;
    if lhs == rhs {
        Ok(())
    } else {
        Err(
            CraftSecError::InvalidSignature("threshold signature verification failed".to_owned()),
        )
    }
}

/// The base point times what an honest signer is expected to compute.
proof fn lemma_expected_partial(
    share: KeyShare,
    nonce: SigningNonce,
    commitment: SigningCommitment,
    message: Seq<u8>,
    cs: Seq<SigningCommitment>,
)
    requires
        commits(commitment, nonce),
    ensures
        expected_partial(
            share.index,
            commitment,
            point::base_times(share.secret.value() as int),
            message,
            cs,
            share.group_public_key@,
        ) == point::base_times(partial_value(share, nonce, message, cs)),
{
    let q = order::group_order();
    let d = nonce.d.value() as int;
    let e = nonce.e.value() as int;
    let s = share.secret.value() as int;
    let b = rho(share.index, message, cs);
    let l = lagrange::coefficient(share.index, signers(cs));
    let c = challenge(group_element(message, cs), share.group_public_key@, message);
    order::lemma_group_order_large();
    point::lemma_base_product(e, b);
    point::lemma_base_sum(d, e * b);
    lemma_mod_bound(l * c, q);
    let w = (l * c) % q;
    point::lemma_base_product(s, w as nat);
    lemma_mul_mod_noop_right(s, l * c, q);
    point::lemma_base_equal(s * w, s * (l * c));
    point::lemma_base_sum(d + e * b, s * (l * c));
    assert(s * (l * c) == l * s * c) by (nonlinear_arith);
}

/// A signer whose commitment and verification share are those of its nonces and secret passes
/// the verification with its partial signature, and with no other.
pub proof fn law_partial_verifies(
    share: KeyShare,
    nonce: SigningNonce,
    commitment: SigningCommitment,
    message: Seq<u8>,
    cs: Seq<SigningCommitment>,
    z: Scalar,
)
    requires
        commits(commitment, nonce),
    ensures
        point::base_times(z.value() as int) == expected_partial(
            share.index,
            commitment,
            point::base_times(share.secret.value() as int),
            message,
            cs,
            share.group_public_key@,
        ) <==> z.value() == partial_value(share, nonce, message, cs) % order::group_order(),
{
    lemma_expected_partial(share, nonce, commitment, message, cs);
    scalar::lemma_value_bound(z);
    point::lemma_base_equal(z.value() as int, partial_value(share, nonce, message, cs));
}

/// What the signers at the given positions do: each commits to its nonces and computes its
/// partial signature.
pub open spec fn signing(
    shares: Seq<KeyShare>,
    positions: Seq<int>,
    nonces: Seq<SigningNonce>,
    message: Seq<u8>,
    cs: Seq<SigningCommitment>,
    partials: Seq<PartialSignature>,
) -> bool {
    &&& nonces.len() == positions.len()
    &&& cs.len() == positions.len()
    &&& partials.len() == positions.len()
    &&& forall|k: int|
        0 <= k < positions.len() ==> commits(#[trigger] cs[k], nonces[k]) && cs[k].index
            == shares[positions[k]].index
    &&& forall|k: int|
        0 <= k < positions.len() ==> (#[trigger] partials[k]).z.value() == partial_value(
            shares[positions[k]],
            nonces[k],
            message,
            cs,
        ) % order::group_order()
}

/// The partial signatures of as many participants as the shared polynomial has coefficients add up
/// to what the verification expects.
pub proof fn lemma_honest_sum(
    shares: Seq<KeyShare>,
    f: Seq<int>,
    positions: Seq<int>,
    nonces: Seq<SigningNonce>,
    message: Seq<u8>,
    cs: Seq<SigningCommitment>,
    partials: Seq<PartialSignature>,
)
    requires
        feldman::shares_of(shares, f),
        feldman::are_positions(positions, shares.len()),
        f.len() <= positions.len(),
        signing(shares, positions, nonces, message, cs, partials),
    ensures
        ({
            let key = point::base_times(interpolation::poly_value(f, 0));
            let r = group_element(message, cs);
            point::base_times(interpolation::sum(partial_scalars(partials))) == r.plus(
                key.times(challenge(r, key, message)),
            )
        }),
{
    let q = order::group_order();
    let n = positions.len();
    let key = point::base_times(interpolation::poly_value(f, 0));
    let c = challenge(group_element(message, cs), key, message);
    order::lemma_group_order_large();
    feldman::law_secret_reconstructed(shares, f, positions);
    let secrets = feldman::weighted_secrets(shares, positions);
    let f0 = interpolation::poly_value(f, 0);
    assert(signers(cs) =~= feldman::indices_at(shares, positions)) by {
        assert forall|k: int| 0 <= k < n implies signers(cs)[k] == feldman::indices_at(
            shares,
            positions,
        )[k] by {
            assert(commits(cs[k], nonces[k]));
        }
    }
    let hidden = Seq::new(
        n,
        |k: int|
            (nonces[k].d.value() + nonces[k].e.value() * rho(
                cs[k].index,
                message,
                cs,
            )) as int,
    );
    let bound = Seq::new(n, |k: int| bound_commitment(cs[k], message, cs));
    assert forall|k: int| 0 <= k < n implies #[trigger] bound[k] == point::base_times(
        hidden[k],
    ) by {
        assert(commits(cs[k], nonces[k]));
        let d = nonces[k].d.value() as int;
        let e = nonces[k].e.value() as int;
        let b = rho(cs[k].index, message, cs);
        point::lemma_base_product(e, b);
        point::lemma_base_sum(d, e * b);
    }
    point::lemma_base_element_sum(bound, hidden);
    let combined = Seq::new(n, |k: int| hidden[k] + c * secrets[k]);
    let zs = partial_scalars(partials);
    assert forall|k: int| 0 <= k < n implies modular::congruent(#[trigger] zs[k], combined[k], q) by {
        let share = shares[positions[k]];
        assert(commits(cs[k], nonces[k]));
        assert(feldman::share_of(share, positions[k], shares.len(), f));
        assert(partials[k].z.value() == partial_value(share, nonces[k], message, cs) % q);
        lemma_mul_is_commutative(c as int, secrets[k]);
        lemma_mod_twice(partial_value(share, nonces[k], message, cs), q);
    }
    interpolation::lemma_sum_congruent(zs, combined, q);
    interpolation::lemma_sum_linear(hidden, secrets, c as int);
    let total = interpolation::sum(secrets);
    let h = interpolation::sum(hidden);
    modular::lemma_mul_congruent(c as int, c as int, total, f0, q);
    modular::lemma_add_congruent(h, h, c * total, c * f0, q);
    lemma_mul_is_commutative(c as int, f0);
    point::lemma_base_product(f0, c);
    point::lemma_base_sum(h, f0 * c);
    point::lemma_base_equal(interpolation::sum(zs), h + f0 * c);
}

/// The sum of scalars without one of them.
proof fn lemma_scalars_removed(partials: Seq<PartialSignature>, i: int)
    requires
        0 <= i < partials.len(),
    ensures
        interpolation::sum(partial_scalars(partials)) == interpolation::sum(
            partial_scalars(partials.remove(i)),
        ) + partials[i].z.value(),
    decreases partials.len(),
{
    let last = partials.len() - 1;
    let first = partials.drop_last();
    assert(partial_scalars(partials).drop_last() =~= partial_scalars(first));
    if i == last {
        assert(partials.remove(i) =~= first);
    } else {
        lemma_scalars_removed(first, i);
        let removed = partials.remove(i);
        assert(removed.drop_last() =~= first.remove(i));
        assert(partial_scalars(removed).drop_last() =~= partial_scalars(first.remove(i)));
        assert(removed.last() == partials.last());
    }
}

/// The sum of the scalars does not depend on the order of the partial signatures.
proof fn lemma_scalars_reordered(a: Seq<PartialSignature>, b: Seq<PartialSignature>)
    requires
        a.to_multiset() == b.to_multiset(),
    ensures
        interpolation::sum(partial_scalars(a)) == interpolation::sum(partial_scalars(b)),
    decreases a.len(),
{
    a.to_multiset_ensures();
    b.to_multiset_ensures();
    if a.len() > 0 {
        let last = a.len() - 1;
        assert(a.contains(a[last]));
        assert(b.to_multiset().count(a[last]) > 0);
        assert(b.contains(a[last]));
        let i = choose|i: int| 0 <= i < b.len() && b[i] == a[last];
        assert(a.remove(last).to_multiset() == b.remove(i).to_multiset());
        lemma_scalars_reordered(a.remove(last), b.remove(i));
        lemma_scalars_removed(a, last);
        lemma_scalars_removed(b, i);
    }
}

/// As many participants as the shared polynomial has coefficients, whoever they are, produce a
/// signature that verifies under the group's public key. The partial signatures that they owe,
/// given here in the order of the commitments, may be aggregated in any order.
pub proof fn law_threshold_signature_accepted(
    shares: Seq<KeyShare>,
    f: Seq<int>,
    positions: Seq<int>,
    nonces: Seq<SigningNonce>,
    message: Seq<u8>,
    cs: Seq<SigningCommitment>,
    owed: Seq<PartialSignature>,
    partials: Seq<PartialSignature>,
    signature: ThresholdSignature,
)
    requires
        feldman::shares_of(shares, f),
        feldman::are_positions(positions, shares.len()),
        f.len() <= positions.len(),
        signing(shares, positions, nonces, message, cs, owed),
        partials.to_multiset() == owed.to_multiset(),
        signature.r@ == group_element(message, cs),
        signature.s.value() == interpolation::sum(partial_scalars(partials))
            % order::group_order(),
    ensures
        accepts(signature, point::base_times(interpolation::poly_value(f, 0)), message),
{
    let total = interpolation::sum(partial_scalars(partials));
    lemma_scalars_reordered(partials, owed);
    lemma_honest_sum(shares, f, positions, nonces, message, cs, owed);
    order::lemma_group_order_large();
    lemma_mod_twice(total, order::group_order());
    point::lemma_base_equal(signature.s.value() as int, total);
}

/// For a commitment, a public key and a message there is at most one scalar that makes a valid
/// signature.
pub proof fn law_signature_scalar_unique(
    a: ThresholdSignature,
    b: ThresholdSignature,
    key: point::Element,
    message: Seq<u8>,
)
    requires
        a.r@ == b.r@,
        accepts(a, key, message),
        accepts(b, key, message),
    ensures
        a.s.value() == b.s.value(),
{
    scalar::lemma_value_bound(a.s);
    scalar::lemma_value_bound(b.s);
    point::lemma_base_equal(a.s.value() as int, b.s.value() as int);
}

/// The verification equation of Ed25519: the challenge is the SHA-512 digest of the encodings of
/// the commitment and the public key and of the whole message, reduced modulo the group order.
pub proof fn law_verification_equation(
    signature: ThresholdSignature,
    key: point::Element,
    message: Seq<u8>,
)
    ensures
        accepts(signature, key, message) <==> point::base_times(signature.s.value() as int)
            == signature.r@.plus(
            key.times(
                (scalar::little_endian(
                    hashing::sha512(signature.r@.encoding() + key.encoding() + message),
                ) as int % order::group_order()) as nat,
            ),
        ),
{
}

/// A signature is bound to its message: where one is accepted for two messages under the same key,
/// the digests of what is hashed for them, each message in full, are congruent. So to move a
/// signature to another message is to find a collision of the hash.
pub proof fn law_signature_binds_message(
    signature: ThresholdSignature,
    nonce: int,
    secret: int,
    message: Seq<u8>,
    other: Seq<u8>,
)
    requires
        signature.r@ == point::base_times(nonce),
        modular::invertible(secret, order::group_order()),
        accepts(signature, point::base_times(secret), message),
        accepts(signature, point::base_times(secret), other),
    ensures
        ({
            let head = point::base_times(nonce).encoding() + point::base_times(secret).encoding();
            modular::congruent(
                scalar::little_endian(hashing::sha512(head + message)) as int,
                scalar::little_endian(hashing::sha512(head + other)) as int,
                order::group_order(),
            )
        }),
{
    let q = order::group_order();
    let key = point::base_times(secret);
    let r = point::base_times(nonce);
    let c = challenge(r, key, message);
    let d = challenge(r, key, other);
    order::lemma_group_order_large();
    scalar_ext::lemma_block_value_bound(
        hashing::sha512(r.encoding() + key.encoding() + message),
    );
    scalar_ext::lemma_block_value_bound(
        hashing::sha512(r.encoding() + key.encoding() + other),
    );
    point::lemma_base_product(secret, c);
    point::lemma_base_product(secret, d);
    point::lemma_base_sum(nonce, secret * c);
    point::lemma_base_sum(nonce, secret * d);
    point::lemma_base_equal(nonce + secret * c, nonce + secret * d);
    modular::lemma_sub_congruent(nonce + secret * c, nonce + secret * d, nonce, nonce, q);
    lemma_mul_is_commutative(secret, c as int);
    lemma_mul_is_commutative(secret, d as int);
    modular::lemma_cancel(c as int, d as int, secret, q);
    lemma_small_mod(c, q as nat);
    lemma_small_mod(d, q as nat);
}

/// The commitments are encoded one after the other, each as its index and its two points.
pub proof fn law_commitments_encoding(
    c: SigningCommitment,
    a: Seq<SigningCommitment>,
    b: Seq<SigningCommitment>,
)
    ensures
        commitments_encoding(seq![c]) == spec_u32_to_le_bytes(c.index) + c.hiding@.encoding()
            + c.binding@.encoding(),
        commitments_encoding(a + b) == commitments_encoding(a) + commitments_encoding(b),
    decreases b.len(),
{
    assert(seq![c].drop_last() =~= Seq::<SigningCommitment>::empty());
    assert(commitments_encoding(Seq::<SigningCommitment>::empty()) =~= Seq::<u8>::empty());
    assert(commitments_encoding(seq![c]) =~= spec_u32_to_le_bytes(c.index) + c.hiding@.encoding()
        + c.binding@.encoding());
    if b.len() > 0 {
        law_commitments_encoding(c, a, b.drop_last());
        assert((a + b).drop_last() =~= a + b.drop_last());
        assert((a + b).last() == b.last());
        assert(commitments_encoding(a + b) =~= commitments_encoding(a) + commitments_encoding(b));
    } else {
        assert(a + b =~= a);
        assert(commitments_encoding(b) =~= Seq::<u8>::empty());
        assert(commitments_encoding(a + b) =~= commitments_encoding(a) + commitments_encoding(b));
    }
}

/// The points of a commitment have encodings of 32 bytes.
pub open spec fn has_encodings(c: SigningCommitment) -> bool {
    c.hiding@.encoding().len() == 32 && c.binding@.encoding().len() == 32
}

/// What is hashed to a binding factor determines the signer, the whole message and the commitments
/// of all the signers, in order.
pub proof fn law_binding_factor_binds(
    index: ParticipantIndex,
    message: Seq<u8>,
    cs: Seq<SigningCommitment>,
    other_index: ParticipantIndex,
    other_message: Seq<u8>,
    others: Seq<SigningCommitment>,
    data: Seq<u8>,
)
    requires
        cs.len() == others.len(),
        forall|k: int| 0 <= k < cs.len() ==> has_encodings(#[trigger] cs[k]),
        forall|k: int| 0 <= k < others.len() ==> has_encodings(#[trigger] others[k]),
        data == binding_input(index, message, cs),
        data == binding_input(other_index, other_message, others),
    ensures
        rho(index, message, cs) == scalar::little_endian(hashing::sha512(data)) as int
            % order::group_order(),
        index == other_index,
        message == other_message,
        forall|k: int|
            0 <= k < cs.len() ==> (#[trigger] cs[k]).index == others[k].index
                && cs[k].hiding@.encoding() == others[k].hiding@.encoding()
                && cs[k].binding@.encoding() == others[k].binding@.encoding(),
{
    lemma_auto_spec_u32_to_from_le_bytes();
    scalar_ext::lemma_block_value_bound(hashing::sha512(data));
    let x = spec_u32_to_le_bytes(index);
    let y = spec_u32_to_le_bytes(other_index);
    let u = commitments_encoding(cs);
    let w = commitments_encoding(others);
    lemma_encoding_len(cs);
    lemma_encoding_len(others);
    assert(x =~= data.take(4));
    assert(y =~= data.take(4));
    assert(message =~= data.subrange(4, data.len() - u.len()));
    assert(other_message =~= data.subrange(4, data.len() - w.len()));
    assert(u =~= data.skip(data.len() - u.len()));
    assert(w =~= data.skip(data.len() - w.len()));
    lemma_encoding_injective(cs, others);
}

proof fn lemma_encoding_len(cs: Seq<SigningCommitment>)
    requires
        forall|k: int| 0 <= k < cs.len() ==> has_encodings(#[trigger] cs[k]),
    ensures
        commitments_encoding(cs).len() == 68 * cs.len(),
    decreases cs.len(),
{
    lemma_auto_spec_u32_to_from_le_bytes();
    if cs.len() > 0 {
        assert(has_encodings(cs[cs.len() - 1]));
        assert forall|k: int| 0 <= k < cs.drop_last().len() implies has_encodings(
            #[trigger] cs.drop_last()[k],
        ) by {
            assert(has_encodings(cs[k]));
        }
        lemma_encoding_len(cs.drop_last());
    }
}

proof fn lemma_encoding_injective(a: Seq<SigningCommitment>, b: Seq<SigningCommitment>)
    requires
        a.len() == b.len(),
        forall|k: int| 0 <= k < a.len() ==> has_encodings(#[trigger] a[k]),
        forall|k: int| 0 <= k < b.len() ==> has_encodings(#[trigger] b[k]),
        commitments_encoding(a) == commitments_encoding(b),
    ensures
        forall|k: int|
            0 <= k < a.len() ==> (#[trigger] a[k]).index == b[k].index && a[k].hiding@.encoding()
                == b[k].hiding@.encoding() && a[k].binding@.encoding() == b[k].binding@.encoding(),
    decreases a.len(),
{
    if a.len() > 0 {
        lemma_auto_spec_u32_to_from_le_bytes();
        let r = a.drop_last();
        let s = b.drop_last();
        let c = a.last();
        let d = b.last();
        assert(has_encodings(a[a.len() - 1]) && has_encodings(b[b.len() - 1]));
        assert forall|k: int| 0 <= k < r.len() implies has_encodings(#[trigger] r[k]) by {
            assert(has_encodings(a[k]));
        }
        assert forall|k: int| 0 <= k < s.len() implies has_encodings(#[trigger] s[k]) by {
            assert(has_encodings(b[k]));
        }
        lemma_encoding_len(r);
        lemma_encoding_len(s);
        let e = commitments_encoding(a);
        let n = commitments_encoding(r).len() as int;
        let f = commitments_encoding(b);
        assert(commitments_encoding(r) =~= e.take(n));
        assert(commitments_encoding(s) =~= f.take(n));
        assert(spec_u32_to_le_bytes(c.index) =~= e.subrange(n, n + 4));
        assert(spec_u32_to_le_bytes(d.index) =~= f.subrange(n, n + 4));
        assert(c.hiding@.encoding() =~= e.subrange(n + 4, n + 36));
        assert(d.hiding@.encoding() =~= f.subrange(n + 4, n + 36));
        assert(c.binding@.encoding() =~= e.subrange(n + 36, n + 68));
        assert(d.binding@.encoding() =~= f.subrange(n + 36, n + 68));
        lemma_encoding_injective(r, s);
        assert forall|k: int| 0 <= k < a.len() implies (#[trigger] a[k]).index == b[k].index
            && a[k].hiding@.encoding() == b[k].hiding@.encoding() && a[k].binding@.encoding()
            == b[k].binding@.encoding() by {
            if k < r.len() {
                assert(r[k].index == s[k].index);
            }
        }
    }
}

/// The group's commitment is the base point times the sum of what the signers hide: of each its
/// hiding nonce and its binding nonce times its binding factor.
pub proof fn law_group_commitment(
    nonces: Seq<SigningNonce>,
    message: Seq<u8>,
    cs: Seq<SigningCommitment>,
)
    requires
        nonces.len() == cs.len(),
        forall|k: int| 0 <= k < cs.len() ==> commits(#[trigger] cs[k], nonces[k]),
    ensures
        group_element(message, cs) == point::base_times(
            interpolation::sum(
                Seq::new(
                    cs.len(),
                    |k: int|
                        nonces[k].d.value() + nonces[k].e.value() * rho(
                            nonces[k].index,
                            message,
                            cs,
                        ) as int,
                ),
            ),
        ),
{
    let hidden = Seq::new(
        cs.len(),
        |k: int|
            nonces[k].d.value() + nonces[k].e.value() * rho(nonces[k].index, message, cs) as int,
    );
    let bound = Seq::new(cs.len(), |k: int| bound_commitment(cs[k], message, cs));
    assert forall|k: int| 0 <= k < cs.len() implies #[trigger] bound[k] == point::base_times(
        hidden[k],
    ) by {
        assert(commits(cs[k], nonces[k]));
        let e = nonces[k].e.value() as int;
        let b = rho(cs[k].index, message, cs);
        point::lemma_base_product(e, b);
        point::lemma_base_sum(nonces[k].d.value() as int, e * b);
    }
    point::lemma_base_element_sum(bound, hidden);
}

/// A commitment commits to both nonces: it is the one to other nonces only if they are the same.
pub proof fn law_commitment_binds_nonces(
    commitment: SigningCommitment,
    a: SigningNonce,
    b: SigningNonce,
)
    requires
        commits(commitment, a),
        commits(commitment, b),
    ensures
        a.index == b.index,
        a.d.value() == b.d.value(),
        a.e.value() == b.e.value(),
{
    scalar::lemma_value_bound(a.d);
    scalar::lemma_value_bound(b.d);
    scalar::lemma_value_bound(a.e);
    scalar::lemma_value_bound(b.e);
    point::lemma_base_equal(a.d.value() as int, b.d.value() as int);
    point::lemma_base_equal(a.e.value() as int, b.e.value() as int);
}

/// How a partial signature depends on the signer's nonces and secret: it moves by the difference
/// of the hiding nonces, by that of the binding nonces times the binding factor, and by that of the
/// secrets times the Lagrange coefficient and the challenge.
pub proof fn law_partial_follows_inputs(
    share: KeyShare,
    other_share: KeyShare,
    nonce: SigningNonce,
    other_nonce: SigningNonce,
    message: Seq<u8>,
    cs: Seq<SigningCommitment>,
)
    requires
        other_share.index == share.index,
        other_share.group_public_key@ == share.group_public_key@,
    ensures
        partial_value(other_share, other_nonce, message, cs) - partial_value(
            share,
            nonce,
            message,
            cs,
        ) == (other_nonce.d.value() - nonce.d.value()) + (other_nonce.e.value() - nonce.e.value())
            * rho(share.index, message, cs) + lagrange::coefficient(share.index, signers(cs)) * (
        other_share.secret.value() - share.secret.value()) * challenge(
            group_element(message, cs),
            share.group_public_key@,
            message,
        ),
{
    let a = nonce.e.value() as int;
    let b = other_nonce.e.value() as int;
    let w = rho(share.index, message, cs) as int;
    let l = lagrange::coefficient(share.index, signers(cs));
    let x = share.secret.value() as int;
    let y = other_share.secret.value() as int;
    let c = challenge(group_element(message, cs), share.group_public_key@, message) as int;
    assert((b - a) * w == b * w - a * w) by (nonlinear_arith);
    assert(l * (y - x) * c == l * y * c - l * x * c) by (nonlinear_arith);
}

/// The bytes of a signature are verified as the signature is: those are accepted whose first half
/// decodes to its commitment and whose second half is its scalar, and no others stand for one.
pub proof fn law_signature_bytes(
    bytes: Seq<u8>,
    signature: ThresholdSignature,
    key: point::Element,
    message: Seq<u8>,
)
    requires
        bytes.len() == 64,
        point::decoded(bytes.subrange(0, 32)) == Some(signature.r@.encoding()),
        point::element(signature.r@.encoding()) == signature.r@,
        scalar::little_endian(bytes.subrange(32, 64)) == signature.s.value(),
    ensures
        accepts_bytes(bytes, key, message) <==> accepts(signature, key, message),
{
    assert(bytes.take(32) =~= bytes.subrange(0, 32));
    assert(bytes.skip(32) =~= bytes.subrange(32, 64));
    scalar::lemma_value_bound(signature.s);
}

/// The group's commitment and what is expected of a signer, whatever points the commitments are:
/// each signer's hiding commitment and its binding commitment times its binding factor are added
/// up, and what is expected of a signer is its part of that plus its verification share times the
/// Lagrange coefficient and the challenge.
pub proof fn law_commitments_of_any_points(
    index: ParticipantIndex,
    commitment: SigningCommitment,
    verification_share: point::Element,
    message: Seq<u8>,
    cs: Seq<SigningCommitment>,
    key: point::Element,
)
    ensures
        group_element(message, cs) == point::element_sum(
            Seq::new(
                cs.len(),
                |k: int| cs[k].hiding@.plus(cs[k].binding@.times(rho(cs[k].index, message, cs))),
            ),
        ),
        expected_partial(index, commitment, verification_share, message, cs, key)
            == commitment.hiding@.plus(commitment.binding@.times(rho(index, message, cs))).plus(
            verification_share.times(
                (lagrange::coefficient(index, signers(cs)) * challenge(
                    group_element(message, cs),
                    key,
                    message,
                ) % order::group_order()) as nat,
            ),
        ),
        signers(cs).len() == cs.len(),
        forall|k: int| 0 <= k < cs.len() ==> #[trigger] signers(cs)[k] == cs[k].index,
{
    let each = Seq::new(
        cs.len(),
        |k: int| cs[k].hiding@.plus(cs[k].binding@.times(rho(cs[k].index, message, cs))),
    );
    assert(each =~= Seq::new(cs.len(), |k: int| bound_commitment(cs[k], message, cs)));
}

} // verus!
