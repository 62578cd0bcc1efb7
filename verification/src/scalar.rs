//! Scalars: the integers modulo the order of the Ed25519 base point.
//!
//! A [`Scalar`] holds its canonical little-endian encoding. The arithmetic is that of
//! `curve25519_dalek::Scalar`, reached through one function for each operation.

use crate::modular;
use crate::order;
use vstd::arithmetic::div_mod::*;
use vstd::prelude::*;
use vstd::std_specs::cmp::PartialEqSpecImpl;
use vstd::std_specs::convert::FromSpecImpl;
use vstd::std_specs::ops::{AddSpecImpl, MulSpecImpl, SubSpecImpl};

verus! {

/// The integer whose little-endian digits in base 256 are `bytes`.
pub open spec fn little_endian(bytes: Seq<u8>) -> nat
    decreases bytes.len(),
{
    if bytes.len() == 0 {
        0
    } else {
        bytes[0] as nat + 256 * little_endian(bytes.drop_first())
    }
}

/// Encodings of one length that stand for the same integer are equal.
pub proof fn lemma_little_endian_injective(a: Seq<u8>, b: Seq<u8>)
    requires
        a.len() == b.len(),
        little_endian(a) == little_endian(b),
    ensures
        a == b,
    decreases a.len(),
{
    if a.len() > 0 {
        lemma_little_endian_injective(a.drop_first(), b.drop_first());
        assert(a =~= seq![a[0]] + a.drop_first());
        assert(b =~= seq![b[0]] + b.drop_first());
    } else {
        assert(a =~= b);
    }
}

/// A scalar modulo the group order.
#[derive(Clone, Copy, Debug)]
pub struct Scalar {
    bytes: [u8; 32],
}

impl Scalar {
    /// The integer below the group order that the scalar stands for.
    pub closed spec fn value(self) -> nat {
        (little_endian(self.bytes@) as int % order::group_order()) as nat
    }

    /// The encoding is the one of an integer below the group order.
    #[verifier::type_invariant]
    pub closed spec fn canonical(self) -> bool {
        little_endian(self.bytes@) < order::group_order()
    }

    /// The little-endian encoding.
    pub closed spec fn encoding(self) -> Seq<u8> {
        self.bytes@
    }
}

/// The scalar that stands for an integer.
pub open spec fn scalar_of(n: int) -> Scalar {
    choose|s: Scalar| #[trigger] s.canonical() && s.value() == n % order::group_order()
}

/// Scalars are below the group order.
pub proof fn lemma_value_bound(s: Scalar)
    ensures
        s.value() < order::group_order(),
        s.value() as int % order::group_order() == s.value(),
{
    order::lemma_group_order_large();
    lemma_mod_bound(little_endian(s.bytes@) as int, order::group_order());
    lemma_small_mod(s.value(), order::group_order() as nat);
}

/// A scalar is determined by its value.
pub proof fn lemma_value_determines(a: Scalar, b: Scalar)
    requires
        a.canonical(),
        b.canonical(),
        a.value() == b.value(),
    ensures
        a == b,
{
    order::lemma_group_order_large();
    lemma_small_mod(little_endian(a.bytes@), order::group_order() as nat);
    lemma_small_mod(little_endian(b.bytes@), order::group_order() as nat);
    lemma_little_endian_injective(a.bytes@, b.bytes@);
    assert(a.bytes =~= b.bytes);
}

/// The scalar of an integer is the one with its value.
pub proof fn lemma_scalar_of(s: Scalar, n: int)
    requires
        s.canonical(),
        s.value() == n % order::group_order(),
    ensures
        s == scalar_of(n),
{
    lemma_value_determines(s, scalar_of(n));
}

/// What the arithmetic below yields: a reduced encoding of `n` modulo the group order.
pub open spec fn encodes(bytes: Seq<u8>, n: int) -> bool {
    little_endian(bytes) == n % order::group_order()
}

/// Addition of `curve25519_dalek::Scalar`, on encodings: the sum modulo the group order.
#[verifier::external_body]
fn dalek_add(a: &[u8; 32], b: &[u8; 32]) -> (r: [u8; 32])
    ensures
        encodes(r@, (little_endian(a@) + little_endian(b@)) as int),
{
    let a = curve25519_dalek::Scalar::from_bytes_mod_order(*a);
    let b = curve25519_dalek::Scalar::from_bytes_mod_order(*b);
    (a + b).to_bytes()
}

/// Subtraction of `curve25519_dalek::Scalar`, on encodings: the difference modulo the group
/// order.
#[verifier::external_body]
fn dalek_sub(a: &[u8; 32], b: &[u8; 32]) -> (r: [u8; 32])
    ensures
        encodes(r@, little_endian(a@) - little_endian(b@)),
{
    let a = curve25519_dalek::Scalar::from_bytes_mod_order(*a);
    let b = curve25519_dalek::Scalar::from_bytes_mod_order(*b);
    (a - b).to_bytes()
}

/// Multiplication of `curve25519_dalek::Scalar`, on encodings: the product modulo the group
/// order.
#[verifier::external_body]
fn dalek_mul(a: &[u8; 32], b: &[u8; 32]) -> (r: [u8; 32])
    ensures
        encodes(r@, (little_endian(a@) * little_endian(b@)) as int),
{
    let a = curve25519_dalek::Scalar::from_bytes_mod_order(*a);
    let b = curve25519_dalek::Scalar::from_bytes_mod_order(*b);
    (a * b).to_bytes()
}

/// `curve25519_dalek::Scalar::invert`, on encodings: the inverse modulo the group order of a
/// scalar other than zero. Zero, which has none, yields zero: the inverse is computed as a
/// power, by multiplications alone.
#[verifier::external_body]
fn dalek_invert(a: &[u8; 32]) -> (r: [u8; 32])
    requires
        little_endian(a@) < order::group_order(),
    ensures
        little_endian(r@) < order::group_order(),
        little_endian(a@) != 0 ==> modular::is_inverse(
            little_endian(r@) as int,
            little_endian(a@) as int,
            order::group_order(),
        ),
        little_endian(a@) == 0 ==> little_endian(r@) == 0,
{
    curve25519_dalek::Scalar::from_bytes_mod_order(*a).invert().to_bytes()
}

/// `curve25519_dalek::Scalar::from::<u64>`: the scalar with the integer's value.
#[verifier::external_body]
fn dalek_from_u64(n: u64) -> (r: [u8; 32])
    ensures
        little_endian(r@) == n,
{
    curve25519_dalek::Scalar::from(n).to_bytes()
}

/// `curve25519_dalek::Scalar::from_bytes_mod_order_wide`: the 512-bit little-endian integer
/// modulo the group order.
#[verifier::external_body]
fn dalek_from_bytes_mod_order_wide(block: &[u8; 64]) -> (r: [u8; 32])
    ensures
        encodes(r@, little_endian(block@) as int),
{
    curve25519_dalek::Scalar::from_bytes_mod_order_wide(block).to_bytes()
}

/// `curve25519_dalek::Scalar::from_canonical_bytes`: the encoding itself where it is the one of
/// an integer below the group order, nothing where it is not.
#[verifier::external_body]
fn dalek_from_canonical_bytes(bytes: &[u8; 32]) -> (r: Option<[u8; 32]>)
    ensures
        r is Some <==> little_endian(bytes@) < order::group_order(),
        r is Some ==> r->0@ == bytes@,
{
    let scalar: Option<curve25519_dalek::Scalar> =
        curve25519_dalek::Scalar::from_canonical_bytes(*bytes).into();
    scalar.map(|s| s.to_bytes())
}

/// Equality of `curve25519_dalek::Scalar`: of the encodings.
#[verifier::external_body]
fn dalek_eq(a: &[u8; 32], b: &[u8; 32]) -> (r: bool)
    requires
        little_endian(a@) < order::group_order(),
        little_endian(b@) < order::group_order(),
    ensures
        r == (a@ == b@),
{
    let a = curve25519_dalek::Scalar::from_bytes_mod_order(*a);
    let b = curve25519_dalek::Scalar::from_bytes_mod_order(*b);
    a == b
}

impl Scalar {
    /// The scalar with a given reduced encoding.
    fn from_encoding(bytes: [u8; 32]) -> (r: Scalar)
        requires
            little_endian(bytes@) < order::group_order(),
        ensures
            r.value() == little_endian(bytes@),
            r.encoding() == bytes@,
            r.canonical(),
    {
        proof {
            lemma_small_mod(little_endian(bytes@), order::group_order() as nat);
        }
        Scalar { bytes }
    }

    /// Zero.
    pub fn zero() -> (r: Scalar)
        ensures
            r.value() == 0,
            r.canonical(),
    {
        Scalar::from(0u64)
    }

    /// One.
    pub fn one() -> (r: Scalar)
        ensures
            r.value() == 1,
            r.canonical(),
    {
        Scalar::from(1u64)
    }

    /// The inverse modulo the group order; zero for zero.
    pub fn invert(&self) -> (r: Scalar)
        ensures
            r.value() == modular::inverse(self.value() as int, order::group_order()),
            r.canonical(),
    {
        proof {
            use_type_invariant(self);
            order::lemma_group_order_large();
            lemma_small_mod(little_endian(self.bytes@), order::group_order() as nat);
        }
        let bytes = dalek_invert(&self.bytes);
        proof {
            if self.value() != 0 {
                modular::lemma_inverse_unique(
                    little_endian(bytes@) as int,
                    self.value() as int,
                    order::group_order(),
                );
            }
        }
        Scalar::from_encoding(bytes)
    }

    /// The scalar of a 512-bit little-endian integer.
    pub fn from_bytes_mod_order_wide(block: &[u8; 64]) -> (r: Scalar)
        ensures
            r.value() == little_endian(block@) as int % order::group_order(),
            r.canonical(),
    {
        let bytes = dalek_from_bytes_mod_order_wide(block);
        proof {
            order::lemma_group_order_large();
            lemma_mod_bound(little_endian(block@) as int, order::group_order());
        }
        Scalar::from_encoding(bytes)
    }

    /// The scalar with the given little-endian encoding, if the encoding is reduced.
    pub fn from_canonical_bytes(bytes: &[u8; 32]) -> (r: Option<Scalar>)
        ensures
            r is Some <==> little_endian(bytes@) < order::group_order(),
            r is Some ==> r->0.value() == little_endian(bytes@) && r->0.encoding() == bytes@
                && r->0.canonical(),
    {
        match dalek_from_canonical_bytes(bytes) {
            Some(b) => Some(Scalar::from_encoding(b)),
            None => None,
        }
    }

    /// The little-endian encoding.
    pub fn to_bytes(&self) -> (r: [u8; 32])
        ensures
            r@ == self.encoding(),
            little_endian(r@) == self.value(),
    {
        proof {
            use_type_invariant(self);
            lemma_small_mod(little_endian(self.bytes@), order::group_order() as nat);
        }
        self.bytes
    }
}

impl FromSpecImpl<u64> for Scalar {
    open spec fn obeys_from_spec() -> bool {
        true
    }

    open spec fn from_spec(v: u64) -> Scalar {
        scalar_of(v as int)
    }
}

impl From<u64> for Scalar {
    fn from(v: u64) -> (r: Scalar)
        ensures
            r.value() == v,
            r.canonical(),
    {
        proof {
            order::lemma_group_order_large();
            lemma_small_mod(v as nat, order::group_order() as nat);
        }
        let r = Scalar::from_encoding(dalek_from_u64(v));
        proof {
            lemma_scalar_of(r, v as int);
        }
        r
    }
}

impl AddSpecImpl for Scalar {
    open spec fn obeys_add_spec() -> bool {
        true
    }

    open spec fn add_req(self, rhs: Scalar) -> bool {
        true
    }

    open spec fn add_spec(self, rhs: Scalar) -> Scalar {
        scalar_of((self.value() + rhs.value()) as int)
    }
}

impl core::ops::Add for Scalar {
    type Output = Scalar;

    fn add(self, rhs: Scalar) -> (r: Scalar)
        ensures
            r.value() == (self.value() + rhs.value()) as int % order::group_order(),
            r.canonical(),
    {
        let ghost n = (self.value() + rhs.value()) as int;
        proof {
            use_type_invariant(&self);
            use_type_invariant(&rhs);
            order::lemma_group_order_large();
            lemma_small_mod(little_endian(self.bytes@), order::group_order() as nat);
            lemma_small_mod(little_endian(rhs.bytes@), order::group_order() as nat);
            lemma_mod_bound(n, order::group_order());
        }
        let r = Scalar::from_encoding(dalek_add(&self.bytes, &rhs.bytes));
        proof {
            lemma_scalar_of(r, n);
        }
        r
    }
}

impl SubSpecImpl for Scalar {
    open spec fn obeys_sub_spec() -> bool {
        true
    }

    open spec fn sub_req(self, rhs: Scalar) -> bool {
        true
    }

    open spec fn sub_spec(self, rhs: Scalar) -> Scalar {
        scalar_of(self.value() - rhs.value())
    }
}

impl core::ops::Sub for Scalar {
    type Output = Scalar;

    fn sub(self, rhs: Scalar) -> (r: Scalar)
        ensures
            r.value() == (self.value() - rhs.value()) % order::group_order(),
            r.canonical(),
    {
        let ghost n = self.value() - rhs.value();
        proof {
            use_type_invariant(&self);
            use_type_invariant(&rhs);
            order::lemma_group_order_large();
            lemma_small_mod(little_endian(self.bytes@), order::group_order() as nat);
            lemma_small_mod(little_endian(rhs.bytes@), order::group_order() as nat);
            lemma_mod_bound(n, order::group_order());
        }
        let r = Scalar::from_encoding(dalek_sub(&self.bytes, &rhs.bytes));
        proof {
            lemma_scalar_of(r, n);
        }
        r
    }
}

impl MulSpecImpl for Scalar {
    open spec fn obeys_mul_spec() -> bool {
        true
    }

    open spec fn mul_req(self, rhs: Scalar) -> bool {
        true
    }

    open spec fn mul_spec(self, rhs: Scalar) -> Scalar {
        scalar_of((self.value() * rhs.value()) as int)
    }
}

impl core::ops::Mul for Scalar {
    type Output = Scalar;

    fn mul(self, rhs: Scalar) -> (r: Scalar)
        ensures
            r.value() == (self.value() * rhs.value()) as int % order::group_order(),
            r.canonical(),
    {
        let ghost n = (self.value() * rhs.value()) as int;
        proof {
            use_type_invariant(&self);
            use_type_invariant(&rhs);
            order::lemma_group_order_large();
            lemma_small_mod(little_endian(self.bytes@), order::group_order() as nat);
            lemma_small_mod(little_endian(rhs.bytes@), order::group_order() as nat);
            lemma_mod_bound(n, order::group_order());
        }
        let r = Scalar::from_encoding(dalek_mul(&self.bytes, &rhs.bytes));
        proof {
            lemma_scalar_of(r, n);
        }
        r
    }
}

impl PartialEqSpecImpl for Scalar {
    open spec fn obeys_eq_spec() -> bool {
        true
    }

    open spec fn eq_spec(&self, other: &Scalar) -> bool {
        self.value() == other.value()
    }
}

impl PartialEq for Scalar {
    fn eq(&self, other: &Scalar) -> (r: bool) {
        proof {
            use_type_invariant(self);
            use_type_invariant(other);
            if self.value() == other.value() {
                lemma_value_determines(*self, *other);
            }
        }
        dalek_eq(&self.bytes, &other.bytes)
    }
}

impl Eq for Scalar {

}

} // verus!
