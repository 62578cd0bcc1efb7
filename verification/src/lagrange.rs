//! Lagrange interpolation coefficients.

use crate::interpolation;
use crate::model::ParticipantIndex;
use crate::modular;
use crate::order;
use crate::scalar::Scalar;
use vstd::arithmetic::div_mod::*;
use vstd::prelude::*;

verus! {

/// Participant indices as integers.
pub open spec fn index_values(s: Seq<ParticipantIndex>) -> Seq<int> {
    Seq::new(s.len(), |k: int| s[k] as int)
}

/// The Lagrange coefficient of participant `i` among the signers.
pub open spec fn coefficient(i: ParticipantIndex, signers: Seq<ParticipantIndex>) -> int {
    interpolation::lagrange(i as int, index_values(signers), order::group_order())
}

/// The Lagrange coefficient for participant `i` given the indices of the signers: the product
/// of `j / (j - i)` over the signers `j` other than `i`.
pub fn lagrange_coefficient(i: ParticipantIndex, signer_indices: &[ParticipantIndex]) -> (r: Scalar)
    ensures
        r.value() == coefficient(i, signer_indices@),
{
    let x_i = Scalar::from(i as u64);
    let mut numerator = Scalar::one();
    let mut denominator = Scalar::one();
    let mut k: usize = 0;
    let ghost n = order::group_order();
    let ghost xs = index_values(signer_indices@);
    proof {
        order::lemma_group_order_large();
        lemma_small_mod(1, n as nat);
    }
    while k < signer_indices.len()
        invariant
            k <= signer_indices@.len(),
            n == order::group_order(),
            n > 1,
            xs == index_values(signer_indices@),
            x_i.value() == i,
            numerator.value() == interpolation::others_product(i as int, xs.take(k as int)) % n,
            denominator.value() == interpolation::gaps_product(i as int, xs.take(k as int)) % n,
        decreases signer_indices@.len() - k,
    {
        let j = signer_indices[k];
        proof {
            let t = xs.take(k + 1);
            assert(t.drop_last() =~= xs.take(k as int));
            assert(t.last() == j);
        }
        if j != i {
            let x_j = Scalar::from(j as u64);
            proof {
                let p = interpolation::others_product(i as int, xs.take(k as int));
                let d = interpolation::gaps_product(i as int, xs.take(k as int));
                lemma_mul_mod_noop_left(p, j as int, n);
                lemma_mul_mod_noop(d, j - i, n);
            }
            numerator = numerator * x_j;
            denominator = denominator * (x_j - x_i);
        }
        k = k + 1;
    }
    let r = numerator * denominator.invert();
    proof {
        assert(xs.take(k as int) =~= xs);
        let p = interpolation::others_product(i as int, xs);
        let d = interpolation::gaps_product(i as int, xs);
        modular::lemma_inverse_of_remainder(d, n);
        lemma_mul_mod_noop_left(p, modular::inverse(d, n), n);
    }
    r
}

/// Indices are distinct.
pub open spec fn distinct(signers: Seq<ParticipantIndex>) -> bool {
    forall|j: int, k: int|
        0 <= j < k < signers.len() ==> #[trigger] signers[j] != #[trigger] signers[k]
}

/// The differences of distinct indices are invertible modulo the group order.
pub proof fn lemma_indices_spread(signers: Seq<ParticipantIndex>)
    requires
        distinct(signers),
    ensures
        interpolation::spread(index_values(signers), order::group_order()),
{
    let n = order::group_order();
    let xs = index_values(signers);
    order::lemma_group_order_large();
    order::lemma_group_order_has_no_small_divisor();
    assert forall|j: int, k: int| 0 <= j < k < xs.len() implies #[trigger] xs[j]
        != #[trigger] xs[k] by {
        assert(signers[j] != signers[k]);
    }
    assert forall|k: int| 0 <= k < xs.len() implies interpolation::gaps_invertible(
        #[trigger] xs[k],
        xs,
        n,
    ) by {
        assert forall|j: int| 0 <= j < xs.len() && #[trigger] xs[j] != xs[k] implies
            modular::invertible(xs[j] - xs[k], n) by {
            let a = xs[j] - xs[k];
            if a > 0 {
                modular::lemma_small_invertible(a, 4294967296, n);
            } else {
                modular::lemma_small_invertible(-a, 4294967296, n);
                modular::lemma_invertible_negated(-a, n);
            }
        }
    }
}

/// Interpolation: the values at distinct indices of a polynomial with at most as many
/// coefficients, each times the Lagrange coefficient of its index, add up to the polynomial's
/// constant term modulo the group order.
pub proof fn law_interpolation(signers: Seq<ParticipantIndex>, c: Seq<int>)
    requires
        distinct(signers),
        c.len() <= signers.len(),
    ensures
        modular::congruent(
            interpolation::sum(
                Seq::new(
                    signers.len(),
                    |k: int|
                        coefficient(signers[k], signers) * interpolation::poly_value(
                            c,
                            signers[k] as int,
                        ),
                ),
            ),
            interpolation::poly_value(c, 0),
            order::group_order(),
        ),
{
    let n = order::group_order();
    let xs = index_values(signers);
    order::lemma_group_order_large();
    lemma_indices_spread(signers);
    interpolation::lemma_interpolation(xs, c, n);
    let terms = Seq::new(
        signers.len(),
        |k: int|
            coefficient(signers[k], signers) * interpolation::poly_value(c, signers[k] as int),
    );
    interpolation::lemma_weighted_sum(
        xs,
        interpolation::values_at(c, xs),
        terms,
        signers.len(),
        n,
    );
    assert(terms.take(signers.len() as int) =~= terms);
}

} // verus!
