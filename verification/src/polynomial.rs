//! Polynomials over the scalars.

use crate::interpolation;
use crate::order;
use crate::scalar::Scalar;
use crate::scalar_ext;
use crate::scalar_ext::random_scalar;
use vstd::arithmetic::div_mod::*;
use vstd::arithmetic::power::*;
use vstd::prelude::*;
use vstd::slice::slice_subrange;

verus! {

/// A polynomial over the scalars.
#[derive(Clone, Debug)]
pub struct Polynomial {
    /// The coefficients, from the constant term on.
    pub coefficients: Vec<Scalar>,
}

/// The values of scalars.
pub open spec fn scalar_values(s: Seq<Scalar>) -> Seq<int> {
    Seq::new(s.len(), |k: int| s[k].value() as int)
}

/// The values of the scalars that blocks of random bytes give.
pub open spec fn block_values(blocks: Seq<[u8; 64]>) -> Seq<int> {
    Seq::new(blocks.len(), |k: int| scalar_ext::block_value(blocks[k]@))
}

impl Polynomial {
    /// The coefficients as integers.
    pub open spec fn values(self) -> Seq<int> {
        scalar_values(self.coefficients@)
    }

    /// A polynomial of the given degree with the given constant term and otherwise random
    /// coefficients, one from each block.
    pub fn random(degree: usize, constant: Scalar, blocks: &[[u8; 64]]) -> (r: Polynomial)
        requires
            degree <= blocks@.len(),
        ensures
            r.values() == seq![constant.value() as int] + block_values(
                blocks@.take(degree as int),
            ),
            r.coefficients@[0] == constant,
    {
        let mut coefficients: Vec<Scalar> = Vec::new();
        coefficients.push(constant);
        let mut k: usize = 0;
        while k < degree
            invariant
                k <= degree <= blocks@.len(),
                coefficients@.len() == k + 1,
                coefficients@[0] == constant,
                forall|i: int|
                    0 <= i < k ==> (#[trigger] coefficients@[i + 1]).value()
                        == scalar_ext::block_value(blocks@[i]@),
            decreases degree - k,
        {
            coefficients.push(random_scalar(&blocks[k]));
            k = k + 1;
        }
        let r = Polynomial { coefficients };
        proof {
            let expected = seq![constant.value() as int] + block_values(
                blocks@.take(degree as int),
            );
            assert forall|i: int| 0 <= i < expected.len() implies r.values()[i]
                == expected[i] by {
                if i > 0 {
                    assert(coefficients@[(i - 1) + 1].value() == scalar_ext::block_value(
                        blocks@[i - 1]@,
                    ));
                }
            }
            assert(r.values() =~= expected);
        }
        r
    }

    /// A polynomial of the given degree with random coefficients, one from each block.
    pub fn random_full(degree: usize, blocks: &[[u8; 64]]) -> (r: Polynomial)
        requires
            degree < blocks@.len(),
        ensures
            r.values() == block_values(blocks@.take(degree + 1)),
    {
        let constant = random_scalar(&blocks[0]);
        let rest = slice_subrange(blocks, 1, blocks.len());
        let r = Polynomial::random(degree, constant, rest);
        assert(r.values() =~= block_values(blocks@.take(degree + 1)));
        r
    }

    /// The value at a point.
    pub fn evaluate(&self, x: &Scalar) -> (r: Scalar)
        ensures
            r.value() == interpolation::poly_value(self.values(), x.value() as int)
                % order::group_order(),
    {
        let mut result = Scalar::zero();
        let mut x_power = Scalar::one();
        let mut k: usize = 0;
        let ghost n = order::group_order();
        let ghost xv = x.value() as int;
        proof {
            order::lemma_group_order_large();
            lemma_pow0(xv);
            lemma_small_mod(0, n as nat);
            lemma_small_mod(1, n as nat);
        }
        while k < self.coefficients.len()
            invariant
                k <= self.coefficients@.len(),
                n == order::group_order(),
                n > 1,
                xv == x.value(),
                result.value() == interpolation::poly_value(self.values().take(k as int), xv) % n,
                x_power.value() == pow(xv, k as nat) % n,
            decreases self.coefficients@.len() - k,
        {
            let coeff = self.coefficients[k];
            let term = coeff * x_power;
            let ghost before = result.value() as int;
            result = result + term;
            proof {
                let c = coeff.value() as int;
                let w = pow(xv, k as nat);
                let p = interpolation::poly_value(self.values().take(k as int), xv);
                let t = self.values().take(k + 1);
                assert(t.drop_last() =~= self.values().take(k as int));
                assert(t.last() == c);
                lemma_mul_mod_noop_right(c, w, n);
                lemma_add_mod_noop(p, c * w, n);
                lemma_pow1(xv);
                lemma_pow_adds(xv, k as nat, 1);
                lemma_mul_mod_noop_left(w, xv, n);
            }
            x_power = x_power * *x;
            k = k + 1;
        }
        assert(self.values().take(k as int) =~= self.values());
        result
    }

    /// The constant term, which is the secret.
    pub fn secret(&self) -> (r: &Scalar)
        requires
            self.coefficients@.len() > 0,
        ensures
            *r == self.coefficients@[0],
    {
        &self.coefficients[0]
    }
}

/// The value at zero is the secret.
pub proof fn law_secret_is_value_at_zero(p: Polynomial)
    requires
        p.coefficients@.len() > 0,
    ensures
        interpolation::poly_value(p.values(), 0) == p.coefficients@[0].value(),
{
    interpolation::lemma_value_at_zero(p.values());
}

/// The coefficients as integers are the values of the scalars, each in its place, and those drawn
/// from blocks are the values of the blocks.
pub proof fn law_coefficients(p: Polynomial, blocks: Seq<[u8; 64]>, k: int)
    ensures
        p.values().len() == p.coefficients@.len(),
        0 <= k < p.coefficients@.len() ==> p.values()[k] == p.coefficients@[k].value(),
        block_values(blocks).len() == blocks.len(),
        0 <= k < blocks.len() ==> block_values(blocks)[k] == scalar_ext::block_value(blocks[k]@),
{
}

} // verus!
