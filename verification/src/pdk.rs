//! Program derived keys: key shares derived from a program's content id and a seed.
//!
//! The coefficients of the shared polynomial are hashes of the content id and the seed, so that
//! the same inputs always give the same key shares.

use crate::error::Result;
use crate::feldman;
use crate::feldman::commit;
use crate::hashing;
use crate::interpolation;
use crate::model::{KeyShare, ParticipantIndex, ThresholdConfig};
use crate::modular;
use crate::order;
use crate::point;
use crate::point::EdwardsPoint;
use crate::polynomial;
use crate::polynomial::Polynomial;
use crate::scalar;
use crate::scalar::Scalar;
use crate::scalar_ext;
use crate::scalar_ext::hash_to_scalar;
use crate::text;
use crate::text::append_bytes;
use vstd::arithmetic::div_mod::*;
use vstd::bytes::*;
use vstd::prelude::*;
use vstd::utf8::*;

verus! {

/// The input key material: the content id and the seed with a byte between them that no text
/// contains.
pub open spec fn key_material(program_cid: Seq<char>, seed: Seq<char>) -> Seq<u8> {
    encode_utf8(program_cid) + seq![0xffu8] + encode_utf8(seed)
}

/// What is hashed to a derived scalar.
pub open spec fn derivation_input(ikm: Seq<u8>, info: Seq<u8>, index: u32) -> Seq<u8> {
    encode_utf8("CraftSEC-PDK-v1"@) + ikm + info + spec_u32_to_le_bytes(index)
}

/// The coefficients of the polynomial that a program's key shares are taken from.
pub open spec fn derived_polynomial(
    program_cid: Seq<char>,
    seed: Seq<char>,
    t: nat,
) -> Seq<int> {
    Seq::new(
        t,
        |i: int|
            scalar_ext::hash_value(
                derivation_input(
                    key_material(program_cid, seed),
                    encode_utf8("coefficient"@),
                    i as u32,
                ),
            ),
    )
}

/// A scalar derived from key material.
pub fn derive_scalar(ikm: &[u8], info: &[u8], index: u32) -> (r: Scalar)
    ensures
        r.value() == scalar_ext::hash_value(derivation_input(ikm@, info@, index)),
{
    let mut data: Vec<u8> = Vec::new();
    append_bytes(&mut data, "CraftSEC-PDK-v1".as_bytes());
    append_bytes(&mut data, ikm);
    append_bytes(&mut data, info);
    let index_bytes = u32_to_le_bytes(index);
    append_bytes(&mut data, index_bytes.as_slice());
    assert(data@ =~= derivation_input(ikm@, info@, index));
    hash_to_scalar(data.as_slice())
}

/// Derives the group key and the key shares of a program from its content id and a seed.
pub fn derive_key(program_cid: &str, seed: &str, config: &ThresholdConfig) -> (r: Result<
    (EdwardsPoint, Vec<KeyShare>),
>)
    requires
        config.threshold >= 1,
    ensures
        r matches Ok((key, shares)) && key@ == point::base_times(
            derived_polynomial(program_cid@, seed@, config.threshold as nat)[0],
        ) && shares@.len() == config.total && feldman::shares_of(
            shares@,
            derived_polynomial(program_cid@, seed@, config.threshold as nat),
        ),
{
    let t = config.threshold;
    let n = config.total;
    let ghost f = derived_polynomial(program_cid@, seed@, t as nat);

    let mut ikm: Vec<u8> = Vec::new();
    append_bytes(&mut ikm, program_cid.as_bytes());
    ikm.push(0xff);
    append_bytes(&mut ikm, seed.as_bytes());
    assert(ikm@ =~= key_material(program_cid@, seed@));

    let mut coefficients: Vec<Scalar> = Vec::new();
    let mut i: u32 = 0;
    while i < t
        invariant
            i <= t,
            ikm@ == key_material(program_cid@, seed@),
            f == derived_polynomial(program_cid@, seed@, t as nat),
            coefficients@.len() == i,
            forall|k: int| 0 <= k < i ==> (#[trigger] coefficients@[k]).value() == f[k],
        decreases t - i,
    {
        coefficients.push(derive_scalar(ikm.as_slice(), "coefficient".as_bytes(), i));
        i = i + 1;
    }
    let poly = Polynomial { coefficients };
    assert(poly.values() =~= f);

    let commitments = commit(&poly);
    let group_public_key = commitments[0];
    proof {
        interpolation::lemma_value_at_zero(f);
    }

    let mut key_shares: Vec<KeyShare> = Vec::new();
    let mut i: u32 = 0;
    while i < n
        invariant
            i <= n,
            poly.values() == f,
            group_public_key@ == point::base_times(interpolation::poly_value(f, 0)),
            key_shares@.len() == i,
            forall|k: int|
                0 <= k < i ==> feldman::share_of(#[trigger] key_shares@[k], k, n as nat, f),
        decreases n - i,
    {
        let x = Scalar::from((i + 1) as u64);
        let secret = poly.evaluate(&x);
        let mut verification_shares: Vec<(ParticipantIndex, EdwardsPoint)> = Vec::new();
        let mut j: u32 = 0;
        while j < n
            invariant
                j <= n,
                poly.values() == f,
                verification_shares@.len() == j,
                forall|k: int|
                    0 <= k < j ==> (#[trigger] verification_shares@[k]).0 == k + 1
                        && verification_shares@[k].1@ == point::base_times(
                        interpolation::poly_value(f, k + 1),
                    ),
            decreases n - j,
        {
            j = j + 1;
            let x_j = Scalar::from(j as u64);
            let secret_j = poly.evaluate(&x_j);
            verification_shares.push((j, EdwardsPoint::base_multiple(&secret_j)));
            proof {
                order::lemma_group_order_large();
                lemma_mod_twice(
                    interpolation::poly_value(f, j as int),
                    order::group_order(),
                );
            }
        }
        i = i + 1;
        key_shares.push(KeyShare { index: i, secret, group_public_key, verification_shares });
    }
    Ok((group_public_key, key_shares))
}

/// Different content ids or seeds give different key material.
pub proof fn law_key_material_injective(
    program_cid: Seq<char>,
    seed: Seq<char>,
    other_cid: Seq<char>,
    other_seed: Seq<char>,
)
    requires
        key_material(program_cid, seed) == key_material(other_cid, other_seed),
    ensures
        program_cid == other_cid,
        seed == other_seed,
{
    let a = encode_utf8(program_cid);
    let b = encode_utf8(other_cid);
    let s = encode_utf8(seed);
    let u = encode_utf8(other_seed);
    let m = key_material(program_cid, seed);
    let w = key_material(other_cid, other_seed);
    text::lemma_utf8_below(program_cid);
    text::lemma_utf8_below(other_cid);
    if a.len() < b.len() {
        assert(m[a.len() as int] == 0xff);
        assert(w[a.len() as int] == b[a.len() as int]);
    }
    if b.len() < a.len() {
        assert(w[b.len() as int] == 0xff);
        assert(m[b.len() as int] == a[b.len() as int]);
    }
    assert(a =~= m.take(a.len() as int));
    assert(b =~= w.take(a.len() as int));
    assert(s =~= m.skip((a.len() + 1) as int));
    assert(u =~= w.skip((a.len() + 1) as int));
    text::lemma_utf8_injective(program_cid, other_cid);
    text::lemma_utf8_injective(seed, other_seed);
}

/// What is hashed for different coefficients, content ids or seeds differs.
pub proof fn law_derivation_inputs_differ(
    program_cid: Seq<char>,
    seed: Seq<char>,
    index: u32,
    other_cid: Seq<char>,
    other_seed: Seq<char>,
    other_index: u32,
)
    requires
        derivation_input(
            key_material(program_cid, seed),
            encode_utf8("coefficient"@),
            index,
        ) == derivation_input(
            key_material(other_cid, other_seed),
            encode_utf8("coefficient"@),
            other_index,
        ),
    ensures
        program_cid == other_cid,
        seed == other_seed,
        index == other_index,
{
    lemma_auto_spec_u32_to_from_le_bytes();
    let p = encode_utf8("CraftSEC-PDK-v1"@);
    let c = encode_utf8("coefficient"@);
    let a = key_material(program_cid, seed);
    let b = key_material(other_cid, other_seed);
    let m = derivation_input(a, c, index);
    let w = derivation_input(b, c, other_index);
    let x = spec_u32_to_le_bytes(index);
    let y = spec_u32_to_le_bytes(other_index);
    assert(x =~= m.skip(m.len() - 4));
    assert(y =~= w.skip(w.len() - 4));
    assert(a =~= m.subrange(p.len() as int, (p.len() + a.len()) as int));
    assert(b =~= w.subrange(p.len() as int, (p.len() + a.len()) as int));
    law_key_material_injective(program_cid, seed, other_cid, other_seed);
}

/// Every coefficient of a derived polynomial is the hash of its own input: the digest of the
/// domain, the content id, a byte that no text contains, the seed, the label and the coefficient's
/// number, reduced modulo the group order.
pub proof fn law_derived_coefficients(
    program_cid: Seq<char>,
    seed: Seq<char>,
    t: nat,
    i: int,
    data: Seq<u8>,
)
    requires
        0 <= i < t <= u32::MAX,
        data == encode_utf8("CraftSEC-PDK-v1"@) + encode_utf8(program_cid) + seq![0xffu8]
            + encode_utf8(seed) + encode_utf8("coefficient"@) + spec_u32_to_le_bytes(i as u32),
    ensures
        derived_polynomial(program_cid, seed, t).len() == t,
        derived_polynomial(program_cid, seed, t)[i] == scalar::little_endian(
            hashing::sha512(data),
        ) as int % order::group_order(),
{
    assert(data =~= derivation_input(
        key_material(program_cid, seed),
        encode_utf8("coefficient"@),
        i as u32,
    ));
}

/// The coefficients do not depend on how many there are: with a greater threshold the same ones
/// come first.
pub proof fn law_derived_coefficients_extend(
    program_cid: Seq<char>,
    seed: Seq<char>,
    t: nat,
    u: nat,
)
    requires
        t <= u,
    ensures
        derived_polynomial(program_cid, seed, u).take(t as int) == derived_polynomial(
            program_cid,
            seed,
            t,
        ),
{
    assert(derived_polynomial(program_cid, seed, u).take(t as int) =~= derived_polynomial(
        program_cid,
        seed,
        t,
    ));
}

/// A derived key takes as many shares as the threshold says: the secrets of that many participants,
/// each times its Lagrange coefficient among them, add up to a secret whose public key is the
/// group's, and the secrets of fewer fit any group secret.
pub proof fn law_derived_key_threshold(
    shares: Seq<KeyShare>,
    program_cid: Seq<char>,
    seed: Seq<char>,
    t: nat,
    positions: Seq<int>,
    secret: int,
)
    requires
        feldman::shares_of(shares, derived_polynomial(program_cid, seed, t)),
        feldman::are_positions(positions, shares.len()),
    ensures
        positions.len() >= t ==> forall|i: int|
            0 <= i < shares.len() ==> (#[trigger] shares[i]).group_public_key@
                == point::base_times(
                interpolation::sum(feldman::weighted_secrets(shares, positions)),
            ),
        positions.len() < t ==> exists|g: Seq<int>|
            g.len() == t && #[trigger] modular::congruent(
                interpolation::poly_value(g, 0),
                secret,
                order::group_order(),
            ) && forall|k: int|
                0 <= k < positions.len() ==> (#[trigger] shares[positions[k]]).secret.value()
                    == interpolation::poly_value(g, positions[k] + 1) % order::group_order(),
{
    let f = derived_polynomial(program_cid, seed, t);
    if positions.len() >= t {
        feldman::law_secret_reconstructed(shares, f, positions);
    } else {
        feldman::law_fewer_secrets_leave_key_open(shares, f, positions, secret);
    }
}

} // verus!
