//! Proactive secret sharing: new key shares for the same group key.
//!
//! Each participant draws a polynomial whose constant term is zero and sends every participant
//! its value at their index. Everyone adds what they receive to their share. The group key
//! stays, since the constant terms add up to zero.

use crate::error::Result;
use crate::feldman;
use crate::feldman::{commit, deal, sum_shares, verify_contributions, DkgContribution};
use crate::interpolation;
use crate::lagrange;
use crate::model::{KeyShare, ParticipantIndex, ThresholdConfig};
use crate::modular;
use crate::order;
use crate::point;
use crate::point::EdwardsPoint;
use crate::polynomial;
use crate::polynomial::Polynomial;
use crate::scalar;
use crate::scalar::Scalar;
use crate::scalar_ext;
use vstd::arithmetic::div_mod::*;
use vstd::arithmetic::mul::*;
use vstd::arithmetic::power::*;
use vstd::prelude::*;
use vstd::slice::slice_subrange;

verus! {

/// A participant's contribution to a rotation: commitments of which the first is the neutral
/// element, and a share of zero for each participant.
pub type RotationContribution = DkgContribution;

/// The polynomials that the participants draw: the constant term zero and `t - 1` coefficients
/// each, one from each block, in turn.
pub open spec fn zero_polynomials(blocks: Seq<[u8; 64]>, t: nat, n: nat) -> Seq<Seq<int>> {
    Seq::new(
        n,
        |i: int|
            seq![0int] + polynomial::block_values(
                blocks.subrange(i * (t - 1), i * (t - 1) + (t - 1)),
            ),
    )
}

/// The polynomial that a rotation adds to the one that the group shares.
pub open spec fn rotation_polynomial(blocks: Seq<[u8; 64]>, t: nat, n: nat) -> Seq<int> {
    interpolation::poly_total(zero_polynomials(blocks, t, n))
}

/// The first public key listed for an index.
pub open spec fn listed(
    vs: Seq<(ParticipantIndex, EdwardsPoint)>,
    index: ParticipantIndex,
) -> Option<EdwardsPoint>
    decreases vs.len(),
{
    if vs.len() == 0 {
        None
    } else if vs[0].0 == index {
        Some(vs[0].1)
    } else {
        listed(vs.drop_first(), index)
    }
}

/// The first public key listed for an index.
pub fn find_verification_share(
    vs: &[(ParticipantIndex, EdwardsPoint)],
    index: ParticipantIndex,
) -> (r: Option<EdwardsPoint>)
    ensures
        r == listed(vs@, index),
{
    let mut k: usize = 0;
    assert(vs@.skip(0) =~= vs@);
    while k < vs.len()
        invariant
            k <= vs@.len(),
            listed(vs@, index) == listed(vs@.skip(k as int), index),
        decreases vs@.len() - k,
    {
        let (i, y) = vs[k];
        assert(vs@.skip(k as int)[0] == vs@[k as int]);
        if i == index {
            return Some(y);
        }
        assert(vs@.skip(k as int).drop_first() =~= vs@.skip(k + 1));
        k = k + 1;
    }
    None
}

/// The key share of the participant at position `i` after a rotation that adds `delta`.
pub open spec fn rotated(share: KeyShare, old_shares: Seq<KeyShare>, i: int, delta: Seq<int>) -> bool {
    &&& share.index == i + 1
    &&& share.secret.value() == (old_shares[i].secret.value() + interpolation::poly_value(
        delta,
        i + 1,
    )) % order::group_order()
    &&& share.group_public_key == old_shares[0].group_public_key
    &&& share.verification_shares@.len() == old_shares.len()
    &&& forall|j: int|
        0 <= j < old_shares.len() ==> (#[trigger] share.verification_shares@[j]).0 == j + 1
            && share.verification_shares@[j].1@ == rotated_key(old_shares, j, delta)
}

/// The public key of the share of the participant at position `j` after a rotation.
pub open spec fn rotated_key(old_shares: Seq<KeyShare>, j: int, delta: Seq<int>) -> point::Element {
    listed(
        old_shares[j].verification_shares@,
        (j + 1) as ParticipantIndex,
    )->0@.plus(point::base_times(interpolation::poly_value(delta, j + 1)))
}

/// Rotates the key shares of a group: each participant draws a polynomial with the constant term
/// zero from one random block less than the threshold says, and the sum of these polynomials is
/// added to the one that the group shares. That cannot lower the degree of the shared polynomial:
/// afterwards the group's threshold is the greater of the old one and the new one.
pub fn rotate_shares(
    old_shares: &[KeyShare],
    new_config: &ThresholdConfig,
    blocks: &[[u8; 64]],
) -> (r: Result<Vec<KeyShare>>)
    requires
        0 < old_shares@.len() <= u32::MAX,
        new_config.threshold >= 1,
        (new_config.threshold - 1) * old_shares@.len() <= blocks@.len(),
        forall|j: int|
            0 <= j < old_shares@.len() ==> listed(
                (#[trigger] old_shares@[j]).verification_shares@,
                (j + 1) as ParticipantIndex,
            ) is Some,
    ensures
        r matches Ok(shares) && shares@.len() == old_shares@.len() && forall|i: int|
            0 <= i < shares@.len() ==> rotated(
                #[trigger] shares@[i],
                old_shares@,
                i,
                rotation_polynomial(
                    blocks@,
                    new_config.threshold as nat,
                    old_shares@.len(),
                ),
            ),
{
    let n: u32 = old_shares.len() as u32;
    let t = new_config.threshold as usize;
    let group_public_key = old_shares[0].group_public_key;
    let available: usize = blocks.len();
    let drawn_each: usize = t - 1;
    let ghost ps = zero_polynomials(blocks@, t as nat, n as nat);
    let mut contributions: Vec<RotationContribution> = Vec::new();
    let mut i: u32 = 0;
    let mut start: usize = 0;
    while i < n
        invariant
            i <= n,
            t >= 1,
            drawn_each == t - 1,
            start == i * drawn_each,
            drawn_each * n <= blocks@.len() == available,
            ps == zero_polynomials(blocks@, t as nat, n as nat),
            feldman::contribute(contributions@, ps.take(i as int), n as nat),
        decreases n - i,
    {
        proof {
            assert((i + 1) * drawn_each <= drawn_each * n) by (nonlinear_arith)
                requires
                    i + 1 <= n,
                    drawn_each >= 0,
            ;
            lemma_mul_is_distributive_add_other_way(drawn_each as int, i as int, 1);
        }
        let drawn = slice_subrange(blocks, start, start + drawn_each);
        let poly = Polynomial::random(drawn_each, Scalar::zero(), drawn);
        assert(drawn@.take(drawn_each as int) =~= drawn@);
        assert(poly.values() == ps[i as int]);
        let commitments = commit(&poly);
        let shares = deal(&poly, n);
        let ghost before = contributions@;
        contributions.push(RotationContribution { index: i + 1, commitments, shares });
        start = start + drawn_each;
        i = i + 1;
        proof {
            assert forall|k: int| 0 <= k < i implies feldman::contributes(
                #[trigger] contributions@[k],
                k,
                ps.take(i as int)[k],
                n as nat,
            ) by {
                if k < i - 1 {
                    assert(feldman::contributes(before[k], k, ps.take(i - 1)[k], n as nat));
                }
            }
        }
    }
    assert(ps.take(n as int) =~= ps);
    proof {
        assert forall|k: int| 0 <= k < contributions@.len() implies (
        #[trigger] contributions@[k]).shares@.len() >= n by {
            assert(feldman::contributes(contributions@[k], k, ps[k], n as nat));
        }
        assert forall|j: int| 0 <= j < n implies #[trigger] feldman::received_verify(
            contributions@,
            j,
        ) by {
            feldman::lemma_contributions_verify(contributions@, ps, n as nat, j);
        }
    }
    verify_contributions(&contributions, n)?;
    let mut new_shares: Vec<KeyShare> = Vec::new();
    let ghost delta = interpolation::poly_total(ps);
    let mut i: u32 = 0;
    while i < n
        invariant
            i <= n,
            n == old_shares@.len(),
            n > 0,
            feldman::contribute(contributions@, ps, n as nat),
            delta == interpolation::poly_total(ps),
            group_public_key == old_shares@[0].group_public_key,
            forall|j: int|
                0 <= j < old_shares@.len() ==> listed(
                    (#[trigger] old_shares@[j]).verification_shares@,
                    (j + 1) as ParticipantIndex,
                ) is Some,
            new_shares@.len() == i,
            forall|k: int|
                0 <= k < i ==> rotated(#[trigger] new_shares@[k], old_shares@, k, delta),
        decreases n - i,
    {
        let old_secret = old_shares[i as usize].secret;
        let shift = sum_shares(&contributions, i as usize, Ghost(ps), Ghost(n as nat));
        let secret = old_secret + shift;
        proof {
            order::lemma_group_order_large();
            lemma_add_mod_noop_right(
                old_secret.value() as int,
                interpolation::poly_value(delta, i + 1),
                order::group_order(),
            );
        }
        let mut verification_shares: Vec<(ParticipantIndex, EdwardsPoint)> = Vec::new();
        let mut j: u32 = 0;
        while j < n
            invariant
                j <= n,
                n == old_shares@.len(),
                feldman::contribute(contributions@, ps, n as nat),
                delta == interpolation::poly_total(ps),
                forall|j: int|
                    0 <= j < old_shares@.len() ==> listed(
                        (#[trigger] old_shares@[j]).verification_shares@,
                        (j + 1) as ParticipantIndex,
                    ) is Some,
                verification_shares@.len() == j,
                forall|k: int|
                    0 <= k < j ==> (#[trigger] verification_shares@[k]).0 == k + 1
                        && verification_shares@[k].1@ == rotated_key(old_shares@, k, delta),
            decreases n - j,
        {
            let ghost position = j as int;
            assert(listed(
                old_shares@[position].verification_shares@,
                (position + 1) as ParticipantIndex,
            ) is Some);
            let found = find_verification_share(
                &old_shares[j as usize].verification_shares,
                j + 1,
            );
            let old_key = found.unwrap();
            let shift_j = sum_shares(&contributions, j as usize, Ghost(ps), Ghost(n as nat));
            let key = old_key + EdwardsPoint::base_multiple(&shift_j);
            proof {
                order::lemma_group_order_large();
                lemma_mod_twice(
                    interpolation::poly_value(delta, position + 1),
                    order::group_order(),
                );
            }
            j = j + 1;
            verification_shares.push((j, key));
        }
        i = i + 1;
        new_shares.push(KeyShare { index: i, secret, group_public_key, verification_shares });
    }
    Ok(new_shares)
}

/// The polynomial that a rotation adds vanishes at zero and has at most as many coefficients as
/// the threshold says.
pub proof fn lemma_rotation_polynomial(blocks: Seq<[u8; 64]>, t: nat, n: nat)
    requires
        t >= 1,
        n > 0,
        (t - 1) * n <= blocks.len(),
    ensures
        interpolation::poly_value(rotation_polynomial(blocks, t, n), 0) == 0,
        rotation_polynomial(blocks, t, n).len() == t,
{
    let ps = zero_polynomials(blocks, t, n);
    assert forall|i: int| 0 <= i < n implies (#[trigger] ps[i]).len() == t && ps[i][0] == 0 by {
        let d = t - 1;
        assert(0 <= i * d && i * d + d <= d * n) by (nonlinear_arith)
            requires
                0 <= i,
                i + 1 <= n,
                d >= 0,
        ;
    }
    interpolation::lemma_poly_total_len(ps, t);
    lemma_zero_total(ps);
}

proof fn lemma_zero_total(ps: Seq<Seq<int>>)
    requires
        forall|i: int| 0 <= i < ps.len() ==> (#[trigger] ps[i]).len() > 0 && ps[i][0] == 0,
    ensures
        interpolation::poly_value(interpolation::poly_total(ps), 0) == 0,
    decreases ps.len(),
{
    if ps.len() > 0 {
        assert forall|i: int| 0 <= i < ps.drop_last().len() implies (
        #[trigger] ps.drop_last()[i]).len() > 0 && ps.drop_last()[i][0] == 0 by {
            assert(ps[i].len() > 0);
        }
        lemma_zero_total(ps.drop_last());
        assert(ps[ps.len() - 1].len() > 0);
        interpolation::lemma_value_at_zero(ps.last());
        interpolation::lemma_poly_sum_value(
            interpolation::poly_total(ps.drop_last()),
            ps.last(),
            0,
        );
    }
}

/// Where everyone knows the public key of each participant's share, the one listed for a
/// participant is theirs.
pub proof fn lemma_listed(vs: Seq<(ParticipantIndex, EdwardsPoint)>, start: int, j: int)
    requires
        0 <= start <= j < vs.len() <= u32::MAX,
        forall|k: int| 0 <= k < vs.len() ==> (#[trigger] vs[k]).0 == k + 1,
    ensures
        listed(vs.skip(start), (j + 1) as ParticipantIndex) == Some(vs[j].1),
    decreases j - start,
{
    let rest = vs.skip(start);
    assert(rest[0] == vs[start]);
    if start < j {
        assert(rest.drop_first() =~= vs.skip(start + 1));
        lemma_listed(vs, start + 1, j);
    }
}

/// The key shares of a group can be rotated: each participant's public key is listed.
pub proof fn law_group_shares_rotatable(shares: Seq<KeyShare>, f: Seq<int>)
    requires
        feldman::shares_of(shares, f),
        shares.len() <= u32::MAX,
    ensures
        forall|j: int|
            0 <= j < shares.len() ==> listed(
                (#[trigger] shares[j]).verification_shares@,
                (j + 1) as ParticipantIndex,
            ) is Some,
{
    assert forall|j: int| 0 <= j < shares.len() implies listed(
        (#[trigger] shares[j]).verification_shares@,
        (j + 1) as ParticipantIndex,
    ) is Some by {
        assert(feldman::share_of(shares[j], j, shares.len(), f));
        let vs = shares[j].verification_shares@;
        lemma_listed(vs, 0, j);
        assert(vs.skip(0) =~= vs);
    }
}

/// Rotation preserves the group: the rotated shares are those of a polynomial with the same
/// constant term, so that the group key stays, and with no more coefficients than the old
/// polynomial or the new threshold has.
pub proof fn law_rotation_preserves_group(
    old_shares: Seq<KeyShare>,
    f: Seq<int>,
    new_shares: Seq<KeyShare>,
    blocks: Seq<[u8; 64]>,
    t: nat,
)
    requires
        feldman::shares_of(old_shares, f),
        0 < old_shares.len() <= u32::MAX,
        t >= 1,
        (t - 1) * old_shares.len() <= blocks.len(),
        new_shares.len() == old_shares.len(),
        forall|i: int|
            0 <= i < new_shares.len() ==> rotated(
                #[trigger] new_shares[i],
                old_shares,
                i,
                rotation_polynomial(blocks, t, old_shares.len()),
            ),
    ensures
        ({
            let g = interpolation::poly_sum(
                f,
                rotation_polynomial(blocks, t, old_shares.len()),
            );
            &&& feldman::shares_of(new_shares, g)
            &&& interpolation::poly_value(g, 0) == interpolation::poly_value(f, 0)
            &&& g.len() <= f.len() || g.len() <= t
        }),
        forall|i: int|
            0 <= i < new_shares.len() ==> (#[trigger] new_shares[i]).group_public_key
                == old_shares[0].group_public_key,
{
    let n = old_shares.len();
    let delta = rotation_polynomial(blocks, t, n);
    let g = interpolation::poly_sum(f, delta);
    let q = order::group_order();
    order::lemma_group_order_large();
    lemma_rotation_polynomial(blocks, t, n);
    interpolation::lemma_poly_sum_value(f, delta, 0);
    assert forall|i: int| 0 <= i < n implies feldman::share_of(
        #[trigger] new_shares[i],
        i,
        n,
        g,
    ) by {
        assert(rotated(new_shares[i], old_shares, i, delta));
        assert(feldman::share_of(old_shares[i], i, n, f));
        assert(feldman::share_of(old_shares[0], 0, n, f));
        interpolation::lemma_poly_sum_value(f, delta, i + 1);
        lemma_add_mod_noop_right(
            interpolation::poly_value(delta, i + 1),
            interpolation::poly_value(f, i + 1),
            q,
        );
        let vs = new_shares[i].verification_shares@;
        assert forall|j: int| 0 <= j < n implies (#[trigger] vs[j]).0 == j + 1 && vs[j].1@
            == point::base_times(interpolation::poly_value(g, j + 1)) by {
            let old = old_shares[j].verification_shares@;
            assert(feldman::share_of(old_shares[j], j, n, f));
            lemma_listed(old, 0, j);
            assert(old.skip(0) =~= old);
            assert(old[j].0 == j + 1);
            interpolation::lemma_poly_sum_value(f, delta, j + 1);
            point::lemma_base_sum(
                interpolation::poly_value(f, j + 1),
                interpolation::poly_value(delta, j + 1),
            );
        }
    }
}

/// The secrets of the participants at the given positions, each times its Lagrange coefficient among
/// them, some from before a rotation and some, the fresh ones, from after it.
pub open spec fn mixed_secrets(
    old_shares: Seq<KeyShare>,
    new_shares: Seq<KeyShare>,
    positions: Seq<int>,
    fresh: Seq<bool>,
) -> Seq<int> {
    Seq::new(
        positions.len(),
        |k: int|
            lagrange::coefficient(
                old_shares[positions[k]].index,
                feldman::indices_at(old_shares, positions),
            ) * (if fresh[k] {
                new_shares[positions[k]].secret.value()
            } else {
                old_shares[positions[k]].secret.value()
            }),
    )
}

/// The values of the polynomial that a rotation adds at the positions of the fresh shares, each
/// times its Lagrange coefficient, and zero at the others.
pub open spec fn fresh_shifts(
    old_shares: Seq<KeyShare>,
    positions: Seq<int>,
    fresh: Seq<bool>,
    delta: Seq<int>,
) -> Seq<int> {
    Seq::new(
        positions.len(),
        |k: int|
            if fresh[k] {
                lagrange::coefficient(
                    old_shares[positions[k]].index,
                    feldman::indices_at(old_shares, positions),
                ) * interpolation::poly_value(delta, positions[k] + 1)
            } else {
                0
            },
    )
}

/// Old shares do not fit the new ones: shares from before and after a rotation together reconstruct
/// the group's secret just if the weighted values that the rotation has added at the positions of
/// the fresh ones add up to zero.
pub proof fn law_mixed_shares(
    old_shares: Seq<KeyShare>,
    f: Seq<int>,
    new_shares: Seq<KeyShare>,
    delta: Seq<int>,
    positions: Seq<int>,
    fresh: Seq<bool>,
)
    requires
        feldman::shares_of(old_shares, f),
        feldman::are_positions(positions, old_shares.len()),
        f.len() <= positions.len(),
        new_shares.len() == old_shares.len(),
        fresh.len() == positions.len(),
        forall|i: int|
            0 <= i < new_shares.len() ==> rotated(#[trigger] new_shares[i], old_shares, i, delta),
    ensures
        modular::congruent(
            interpolation::sum(mixed_secrets(old_shares, new_shares, positions, fresh)),
            interpolation::poly_value(f, 0),
            order::group_order(),
        ) <==> modular::congruent(
            interpolation::sum(fresh_shifts(old_shares, positions, fresh, delta)),
            0,
            order::group_order(),
        ),
{
    let q = order::group_order();
    order::lemma_group_order_large();
    feldman::law_secret_reconstructed(old_shares, f, positions);
    let signers = feldman::indices_at(old_shares, positions);
    let weighted = feldman::weighted_secrets(old_shares, positions);
    let shifts = fresh_shifts(old_shares, positions, fresh, delta);
    let mixed = mixed_secrets(old_shares, new_shares, positions, fresh);
    let moved = Seq::new(weighted.len(), |k: int| weighted[k] + 1 * shifts[k]);
    interpolation::lemma_sum_linear(weighted, shifts, 1);
    assert forall|k: int| 0 <= k < mixed.len() implies modular::congruent(
        #[trigger] mixed[k],
        moved[k],
        q,
    ) by {
        let p = positions[k];
        assert(0 <= p < old_shares.len());
        let c = lagrange::coefficient(old_shares[p].index, signers);
        let x = old_shares[p].secret.value() as int;
        let d = interpolation::poly_value(delta, p + 1);
        if fresh[k] {
            assert(rotated(new_shares[p], old_shares, p, delta));
            lemma_mul_mod_noop_right(c, x + d, q);
            lemma_mul_is_distributive_add(c, x, d);
        }
    }
    interpolation::lemma_sum_congruent(mixed, moved, q);
    let s = interpolation::sum(shifts);
    let w = interpolation::sum(weighted);
    let f0 = interpolation::poly_value(f, 0);
    assert(interpolation::sum(moved) == w + s);
    if modular::congruent(s, 0, q) {
        modular::lemma_add_congruent(w, f0, s, 0, q);
    }
    if modular::congruent(interpolation::sum(mixed), f0, q) {
        modular::lemma_sub_congruent(w + s, f0, w, f0, q);
    }
}

/// The coefficients that the participants draw are the values of the blocks in turn, after the
/// constant term zero.
pub proof fn lemma_zero_drawn(blocks: Seq<[u8; 64]>, t: nat, n: nat, i: int, k: int)
    requires
        t >= 1,
        (t - 1) * n <= blocks.len(),
        0 <= i < n,
        0 <= k < t,
    ensures
        zero_polynomials(blocks, t, n)[i].len() == t,
        k == 0 ==> zero_polynomials(blocks, t, n)[i][k] == 0,
        k > 0 ==> 0 <= i * (t - 1) + k - 1 < blocks.len() && zero_polynomials(blocks, t, n)[i][k]
            == scalar_ext::block_value(blocks[i * (t - 1) + k - 1]@),
{
    let d = t - 1;
    assert(0 <= i * d && i * d + d <= d * n) by (nonlinear_arith)
        requires
            0 <= i,
            i + 1 <= n,
            d >= 0,
    ;
    if k > 0 {
        assert(blocks.subrange(i * d, i * d + d)[k - 1] == blocks[i * d + k - 1]);
    }
}

/// A rotation adds what the participants draw: each coefficient of the polynomial that it adds, but
/// for the constant term, is the sum of the values of one block from every participant.
pub proof fn law_rotation_adds_draws(blocks: Seq<[u8; 64]>, t: nat, n: nat, k: int)
    requires
        n > 0,
        t >= 1,
        (t - 1) * n <= blocks.len(),
        0 <= k < t,
    ensures
        rotation_polynomial(blocks, t, n).len() == t,
        k == 0 ==> rotation_polynomial(blocks, t, n)[k] == 0,
        k > 0 ==> rotation_polynomial(blocks, t, n)[k] == interpolation::sum(
            Seq::new(n, |i: int| scalar_ext::block_value(blocks[i * (t - 1) + k - 1]@)),
        ),
{
    let ps = zero_polynomials(blocks, t, n);
    assert forall|i: int| 0 <= i < n implies (#[trigger] ps[i]).len() == t by {
        lemma_zero_drawn(blocks, t, n, i, k);
    }
    interpolation::lemma_total_coefficient(ps, t, k);
    let column = Seq::new(ps.len(), |i: int| ps[i][k]);
    if k == 0 {
        lemma_rotation_polynomial(blocks, t, n);
        interpolation::lemma_value_at_zero(rotation_polynomial(blocks, t, n));
    } else {
        let drawn = Seq::new(n, |i: int| scalar_ext::block_value(blocks[i * (t - 1) + k - 1]@));
        assert forall|i: int| 0 <= i < n implies column[i] == drawn[i] by {
            lemma_zero_drawn(blocks, t, n, i, k);
        }
        assert(column =~= drawn);
    }
}

/// Every draw counts: if of two rotations of the same shares one participant draws one coefficient
/// differently, each secret differs by the difference times the power of the index that the
/// coefficient belongs to. In particular a difference other than zero changes every secret.
pub proof fn law_every_rotation_draw_counts(
    old_shares: Seq<KeyShare>,
    shares: Seq<KeyShare>,
    blocks: Seq<[u8; 64]>,
    other_shares: Seq<KeyShare>,
    other_blocks: Seq<[u8; 64]>,
    t: nat,
    i: int,
    k: int,
)
    requires
        0 <= i < old_shares.len() <= u32::MAX,
        0 < k < t,
        (t - 1) * old_shares.len() <= blocks.len(),
        shares.len() == old_shares.len(),
        other_shares.len() == old_shares.len(),
        other_blocks.len() == blocks.len(),
        forall|p: int|
            0 <= p < blocks.len() && p != i * (t - 1) + k - 1 ==> #[trigger] other_blocks[p]
                == blocks[p],
        forall|j: int|
            0 <= j < shares.len() ==> rotated(
                #[trigger] shares[j],
                old_shares,
                j,
                rotation_polynomial(blocks, t, old_shares.len()),
            ),
        forall|j: int|
            0 <= j < other_shares.len() ==> rotated(
                #[trigger] other_shares[j],
                old_shares,
                j,
                rotation_polynomial(other_blocks, t, old_shares.len()),
            ),
    ensures
        ({
            let d = scalar_ext::block_value(other_blocks[i * (t - 1) + k - 1]@)
                - scalar_ext::block_value(blocks[i * (t - 1) + k - 1]@);
            forall|j: int|
                0 <= j < shares.len() ==> modular::congruent(
                    (#[trigger] other_shares[j]).secret.value() as int,
                    shares[j].secret.value() + d * pow(j + 1, k as nat),
                    order::group_order(),
                ) && (d != 0 ==> other_shares[j].secret.value() != shares[j].secret.value())
        }),
{
    let n = old_shares.len();
    let q = order::group_order();
    let ps = zero_polynomials(blocks, t, n);
    let qs = zero_polynomials(other_blocks, t, n);
    let f = rotation_polynomial(blocks, t, n);
    let g = rotation_polynomial(other_blocks, t, n);
    assert forall|j: int| 0 <= j < n implies (#[trigger] ps[j]).len() == t by {
        lemma_zero_drawn(blocks, t, n, j, k);
    }
    assert forall|j: int| 0 <= j < n implies (#[trigger] qs[j]).len() == t by {
        lemma_zero_drawn(other_blocks, t, n, j, k);
    }
    assert forall|j: int, m: int|
        0 <= j < n && 0 <= m < t && !(j == i && m == k) implies (#[trigger] qs[j][m])
        == ps[j][m] by {
        lemma_zero_drawn(blocks, t, n, j, m);
        lemma_zero_drawn(other_blocks, t, n, j, m);
        if m > 0 {
            let s = t - 1;
            assert(j * s + m != i * s + k) by (nonlinear_arith)
                requires
                    0 < m <= s,
                    0 < k <= s,
                    !(j == i && m == k),
            ;
            assert(other_blocks[j * s + m - 1] == blocks[j * s + m - 1]);
        }
    }
    interpolation::lemma_total_updated(ps, qs, t, i, k);
    lemma_zero_drawn(blocks, t, n, i, k);
    lemma_zero_drawn(other_blocks, t, n, i, k);
    let d = qs[i][k] - ps[i][k];
    interpolation::lemma_total_coefficient(ps, t, k);
    order::lemma_group_order_large();
    order::lemma_group_order_has_no_small_divisor();
    assert forall|j: int| 0 <= j < n implies modular::congruent(
        (#[trigger] other_shares[j]).secret.value() as int,
        shares[j].secret.value() + d * pow(j + 1, k as nat),
        q,
    ) && (d != 0 ==> other_shares[j].secret.value() != shares[j].secret.value()) by {
        assert(rotated(shares[j], old_shares, j, f));
        assert(rotated(other_shares[j], old_shares, j, g));
        interpolation::lemma_value_updated(f, k, f[k] + d, j + 1);
        let w = d * pow(j + 1, k as nat);
        let v = old_shares[j].secret.value() + interpolation::poly_value(f, j + 1);
        lemma_mod_twice(v + w, q);
        lemma_add_mod_noop_right(w, v, q);
        if other_shares[j].secret.value() == shares[j].secret.value() {
            let x = shares[j].secret.value() as int;
            modular::lemma_sub_congruent(x, x + w, x, x, q);
            modular::lemma_small_invertible(j + 1, 4294967296, q);
            lemma_power_invertible(j + 1, k as nat, q);
            assert(0 * pow(j + 1, k as nat) == 0);
            modular::lemma_cancel(0, d, pow(j + 1, k as nat), q);
            scalar_ext::lemma_block_value_bound(blocks[i * (t - 1) + k - 1]@);
            scalar_ext::lemma_block_value_bound(other_blocks[i * (t - 1) + k - 1]@);
            modular::lemma_congruent_iff_divides(qs[i][k], ps[i][k], q);
            modular::lemma_congruent_iff_divides(0, d, q);
            modular::lemma_congruent_iff_divides(d, 0, q);
            lemma_small_mod(qs[i][k] as nat, q as nat);
            lemma_small_mod(ps[i][k] as nat, q as nat);
        }
    }
}

/// Powers of an invertible integer are invertible.
proof fn lemma_power_invertible(a: int, k: nat, q: int)
    requires
        q > 1,
        modular::invertible(a, q),
    ensures
        modular::invertible(pow(a, k), q),
    decreases k,
{
    if k == 0 {
        lemma_pow0(a);
        lemma_small_mod(1, q as nat);
        assert(modular::is_inverse(1, 1, q));
    } else {
        lemma_power_invertible(a, (k - 1) as nat, q);
        lemma_pow1(a);
        lemma_pow_adds(a, 1, (k - 1) as nat);
        modular::lemma_invertible_product(a, pow(a, (k - 1) as nat), q);
    }
}

/// A rotation moves every secret by the value of the drawn polynomial, and without anything drawn
/// (blocks of the value zero) nothing changes.
pub proof fn law_nothing_drawn_changes_nothing(
    old_shares: Seq<KeyShare>,
    shares: Seq<KeyShare>,
    blocks: Seq<[u8; 64]>,
    t: nat,
)
    requires
        0 < old_shares.len() <= u32::MAX,
        t >= 1,
        (t - 1) * old_shares.len() <= blocks.len(),
        shares.len() == old_shares.len(),
        forall|p: int|
            0 <= p < blocks.len() ==> scalar_ext::block_value((#[trigger] blocks[p])@) == 0,
        forall|j: int|
            0 <= j < shares.len() ==> rotated(
                #[trigger] shares[j],
                old_shares,
                j,
                rotation_polynomial(blocks, t, old_shares.len()),
            ),
    ensures
        forall|j: int|
            0 <= j < shares.len() ==> (#[trigger] shares[j]).secret.value()
                == old_shares[j].secret.value(),
{
    let n = old_shares.len();
    let f = rotation_polynomial(blocks, t, n);
    lemma_rotation_polynomial(blocks, t, n);
    assert forall|k: int| 0 <= k < t implies #[trigger] f[k] == 0 by {
        law_rotation_adds_draws(blocks, t, n, k);
        if k > 0 {
            let drawn = Seq::new(n, |i: int| scalar_ext::block_value(blocks[i * (t - 1) + k - 1]@));
            assert forall|i: int| 0 <= i < drawn.len() implies #[trigger] drawn[i] == 0 by {
                lemma_zero_drawn(blocks, t, n, i, k);
            }
            interpolation::lemma_zeros_sum(drawn);
        }
    }
    assert forall|j: int| 0 <= j < shares.len() implies (#[trigger] shares[j]).secret.value()
        == old_shares[j].secret.value() by {
        assert(rotated(shares[j], old_shares, j, f));
        interpolation::lemma_zeros_value(f, j + 1);
        scalar::lemma_value_bound(old_shares[j].secret);
        lemma_small_mod(old_shares[j].secret.value(), order::group_order() as nat);
    }
}

/// The public key listed for an index is the one in the first entry with that index, and there is
/// none if no entry has it.
pub proof fn law_listed_key(
    vs: Seq<(ParticipantIndex, EdwardsPoint)>,
    index: ParticipantIndex,
    i: int,
)
    ensures
        0 <= i < vs.len() && vs[i].0 == index && (forall|j: int|
            0 <= j < i ==> (#[trigger] vs[j]).0 != index) ==> listed(vs, index) == Some(vs[i].1),
        (forall|j: int| 0 <= j < vs.len() ==> (#[trigger] vs[j]).0 != index) ==> listed(vs, index)
            is None,
    decreases vs.len(),
{
    if vs.len() > 0 {
        let rest = vs.drop_first();
        law_listed_key(rest, index, i - 1);
        if 0 < i < vs.len() && (forall|j: int| 0 <= j < i ==> (#[trigger] vs[j]).0 != index) {
            assert(vs[0].0 != index);
            assert(rest[i - 1] == vs[i]);
            assert forall|j: int| 0 <= j < i - 1 implies (#[trigger] rest[j]).0 != index by {
                assert(vs[j + 1].0 != index);
            }
        }
        if forall|j: int| 0 <= j < vs.len() ==> (#[trigger] vs[j]).0 != index {
            assert(vs[0].0 != index);
            assert forall|j: int| 0 <= j < rest.len() implies (#[trigger] rest[j]).0 != index by {
                assert(vs[j + 1].0 != index);
            }
        }
    }
}

} // verus!
