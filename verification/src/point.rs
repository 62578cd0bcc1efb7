//! Points of the Ed25519 curve.
//!
//! An [`EdwardsPoint`] holds the compressed encoding of a curve point. The group operations
//! are those of `curve25519_dalek::EdwardsPoint`, reached through one function for each
//! operation. Contracts speak of a point as an [`Element`]: the multiples of the base point by
//! their factor, any other point by its encoding.

use crate::interpolation;
use crate::order;
use crate::scalar;
use crate::scalar::Scalar;
use vstd::arithmetic::div_mod::*;
use vstd::prelude::*;
use vstd::std_specs::cmp::PartialEqSpecImpl;
use vstd::std_specs::ops::{AddSpecImpl, MulSpecImpl};

verus! {

/// The canonical encoding of the point that an encoding stands for, if it stands for one: what
/// `CompressedEdwardsY::decompress` followed by `EdwardsPoint::compress` returns.
pub uninterp spec fn decoded(bytes: Seq<u8>) -> Option<Seq<u8>>;

/// The encoding of the sum of two points: what the addition of `curve25519_dalek::EdwardsPoint`
/// returns.
pub uninterp spec fn point_sum(p: Seq<u8>, q: Seq<u8>) -> Seq<u8>;

/// The encoding of a multiple of a point: what the multiplication of
/// `curve25519_dalek::EdwardsPoint` by a scalar returns.
pub uninterp spec fn point_multiple(p: Seq<u8>, k: nat) -> Seq<u8>;

/// The bytes are the canonical encoding of a point.
pub open spec fn encodes_point(bytes: Seq<u8>) -> bool {
    decoded(bytes) == Some(bytes)
}

/// The encoding of the base point, whose y-coordinate is 4/5.
pub open spec fn base_encoding() -> Seq<u8> {
    Seq::new(
        32,
        |i: int|
            if i == 0 {
                0x58u8
            } else {
                0x66u8
            },
    )
}

/// An element of the curve's group.
pub ghost enum Element {
    /// The base point times an integer below the group order.
    Multiple(nat),
    /// A point outside the group that the base point generates, by its encoding.
    Other(Seq<u8>),
}

/// The bytes encode the base point times `k`.
pub open spec fn is_base_multiple(bytes: Seq<u8>, k: nat) -> bool {
    k < order::group_order() && point_multiple(base_encoding(), k) == bytes
}

/// The element with a given encoding.
pub open spec fn element(bytes: Seq<u8>) -> Element {
    if exists|k: nat| is_base_multiple(bytes, k) {
        Element::Multiple(choose|k: nat| is_base_multiple(bytes, k))
    } else {
        Element::Other(bytes)
    }
}

impl Element {
    /// The encoding of the element.
    pub open spec fn encoding(self) -> Seq<u8> {
        match self {
            Element::Multiple(k) => point_multiple(base_encoding(), k),
            Element::Other(bytes) => bytes,
        }
    }

    /// The sum of two elements.
    pub open spec fn plus(self, other: Element) -> Element {
        match (self, other) {
            (Element::Multiple(a), Element::Multiple(b)) => base_times((a + b) as int),
            _ => element(point_sum(self.encoding(), other.encoding())),
        }
    }

    /// The element times a scalar.
    pub open spec fn times(self, k: nat) -> Element {
        match self {
            Element::Multiple(a) => base_times((a * k) as int),
            Element::Other(bytes) => element(point_multiple(bytes, k)),
        }
    }
}

/// The base point times an integer.
pub open spec fn base_times(k: int) -> Element {
    Element::Multiple((k % order::group_order()) as nat)
}

/// The sum of elements, from the first to the last.
pub open spec fn element_sum(s: Seq<Element>) -> Element
    decreases s.len(),
{
    if s.len() == 0 {
        base_times(0)
    } else {
        element_sum(s.drop_last()).plus(s.last())
    }
}

/// An encoding is the one of its element.
pub proof fn lemma_encoding(bytes: Seq<u8>)
    ensures
        element(bytes).encoding() == bytes,
{
}

/// The sum of multiples of the base point is the multiple by the sum.
pub proof fn lemma_base_sum(a: int, b: int)
    ensures
        base_times(a).plus(base_times(b)) == base_times(a + b),
{
    let n = order::group_order();
    order::lemma_group_order_large();
    lemma_mod_bound(a, n);
    lemma_mod_bound(b, n);
    lemma_add_mod_noop(a, b, n);
}

/// A multiple of a multiple of the base point is the multiple by the product.
pub proof fn lemma_base_product(a: int, k: nat)
    ensures
        base_times(a).times(k) == base_times(a * k),
{
    let n = order::group_order();
    order::lemma_group_order_large();
    lemma_mod_bound(a, n);
    lemma_mul_mod_noop_left(a, k as int, n);
}

/// Multiples of the base point add up to the multiple by the sum of the factors.
pub proof fn lemma_base_element_sum(es: Seq<Element>, ks: Seq<int>)
    requires
        es.len() == ks.len(),
        forall|i: int| 0 <= i < es.len() ==> #[trigger] es[i] == base_times(ks[i]),
    ensures
        element_sum(es) == base_times(interpolation::sum(ks)),
    decreases es.len(),
{
    if es.len() > 0 {
        assert forall|i: int| 0 <= i < es.drop_last().len() implies #[trigger] es.drop_last()[i]
            == base_times(ks.drop_last()[i]) by {
            assert(es[i] == base_times(ks[i]));
        }
        lemma_base_element_sum(es.drop_last(), ks.drop_last());
        assert(es[es.len() - 1] == base_times(ks[es.len() - 1]));
        lemma_base_sum(interpolation::sum(ks.drop_last()), ks.last());
    }
}

/// Multiples of the base point are equal just if their factors are congruent.
pub proof fn lemma_base_equal(a: int, b: int)
    ensures
        base_times(a) == base_times(b) <==> a % order::group_order() == b % order::group_order(),
{
    order::lemma_group_order_large();
    lemma_mod_bound(a, order::group_order());
    lemma_mod_bound(b, order::group_order());
}

/// `CompressedEdwardsY::decompress`, followed by `EdwardsPoint::compress`: the canonical
/// encoding of the point, which decodes to itself, or nothing where the bytes are the encoding
/// of no point.
#[verifier::external_body]
fn dalek_decompress(bytes: &[u8; 32]) -> (r: Option<[u8; 32]>)
    ensures
        r is Some <==> decoded(bytes@) is Some,
        r is Some ==> Some(r->0@) == decoded(bytes@),
        r is Some ==> encodes_point(r->0@),
{
    let point = curve25519_dalek::edwards::CompressedEdwardsY(*bytes).decompress();
    point.map(|p| p.compress().to_bytes())
}

/// `curve25519_dalek::constants::ED25519_BASEPOINT_POINT`: the base point, which is itself
/// times one and no other of its multiples below the group order.
#[verifier::external_body]
fn dalek_basepoint() -> (r: [u8; 32])
    ensures
        r@ == base_encoding(),
        element(r@) == Element::Multiple(1),
        encodes_point(r@),
{
    curve25519_dalek::constants::ED25519_BASEPOINT_POINT.compress().to_bytes()
}

/// `EdwardsPoint::default` of `curve25519_dalek`: the neutral element, the base point times
/// zero.
#[verifier::external_body]
fn dalek_identity() -> (r: [u8; 32])
    ensures
        element(r@) == Element::Multiple(0),
        encodes_point(r@),
{
    curve25519_dalek::EdwardsPoint::default().compress().to_bytes()
}

/// Addition of `curve25519_dalek::EdwardsPoint`, on encodings: multiples of the base point add
/// up to the multiple by the sum of their factors modulo the group order. Of other points, no
/// more is said than that the sum is a function of the two.
#[verifier::external_body]
fn dalek_add(p: &[u8; 32], q: &[u8; 32]) -> (r: [u8; 32])
    requires
        encodes_point(p@),
        encodes_point(q@),
    ensures
        r@ == point_sum(p@, q@),
        element(r@) == element(p@).plus(element(q@)),
        encodes_point(r@),
{
    let p = curve25519_dalek::edwards::CompressedEdwardsY(*p).decompress().unwrap();
    let q = curve25519_dalek::edwards::CompressedEdwardsY(*q).decompress().unwrap();
    (p + q).compress().to_bytes()
}

/// Multiplication of `curve25519_dalek::EdwardsPoint` by a scalar, on encodings: of a multiple
/// of the base point, the multiple by the product modulo the group order. Of another point, no
/// more is said than that the product is a function of the point and the scalar.
#[verifier::external_body]
fn dalek_mul(p: &[u8; 32], k: &[u8; 32]) -> (r: [u8; 32])
    requires
        encodes_point(p@),
        scalar::little_endian(k@) < order::group_order(),
    ensures
        r@ == point_multiple(p@, scalar::little_endian(k@)),
        element(r@) == element(p@).times(scalar::little_endian(k@)),
        encodes_point(r@),
{
    let p = curve25519_dalek::edwards::CompressedEdwardsY(*p).decompress().unwrap();
    let k = curve25519_dalek::Scalar::from_bytes_mod_order(*k);
    (p * k).compress().to_bytes()
}

/// Equality of `curve25519_dalek::EdwardsPoint`: of points, which is equality of canonical
/// encodings.
#[verifier::external_body]
fn dalek_eq(p: &[u8; 32], q: &[u8; 32]) -> (r: bool)
    requires
        encodes_point(p@),
        encodes_point(q@),
    ensures
        r == (p@ == q@),
{
    let p = curve25519_dalek::edwards::CompressedEdwardsY(*p).decompress().unwrap();
    let q = curve25519_dalek::edwards::CompressedEdwardsY(*q).decompress().unwrap();
    p == q
}

/// A point of the curve.
#[derive(Clone, Copy, Debug)]
pub struct EdwardsPoint {
    bytes: [u8; 32],
}

impl View for EdwardsPoint {
    type V = Element;

    closed spec fn view(&self) -> Element {
        element(self.bytes@)
    }
}

/// The point that stands for an element.
pub open spec fn point_of(e: Element) -> EdwardsPoint {
    choose|p: EdwardsPoint| #[trigger] p@ == e
}

/// A point is the one that stands for its element.
pub proof fn lemma_point_of(p: EdwardsPoint)
    ensures
        p == point_of(p@),
{
    let q = point_of(p@);
    lemma_encoding(p.bytes@);
    lemma_encoding(q.bytes@);
    assert(p.bytes =~= q.bytes);
}

impl EdwardsPoint {
    /// The bytes encode a point.
    #[verifier::type_invariant]
    pub closed spec fn canonical(self) -> bool {
        encodes_point(self.bytes@)
    }

    /// The base point.
    pub fn basepoint() -> (r: EdwardsPoint)
        ensures
            r@ == base_times(1),
            r@.encoding() == base_encoding(),
    {
        proof {
            order::lemma_group_order_large();
            lemma_small_mod(1, order::group_order() as nat);
        }
        let bytes = dalek_basepoint();
        EdwardsPoint { bytes }
    }

    /// The neutral element.
    pub fn identity() -> (r: EdwardsPoint)
        ensures
            r@ == base_times(0),
    {
        proof {
            order::lemma_group_order_large();
            lemma_small_mod(0, order::group_order() as nat);
        }
        let bytes = dalek_identity();
        EdwardsPoint { bytes }
    }

    /// The base point times a scalar.
    pub fn base_multiple(k: &Scalar) -> (r: EdwardsPoint)
        ensures
            r@ == base_times(k.value() as int),
    {
        let r = EdwardsPoint::basepoint() * *k;
        proof {
            lemma_base_product(1, k.value());
        }
        r
    }

    /// The point that an encoding stands for, if it stands for one.
    pub fn from_bytes(bytes: &[u8; 32]) -> (r: Option<EdwardsPoint>)
        ensures
            r is Some <==> decoded(bytes@) is Some,
            r is Some ==> r->0@ == element(decoded(bytes@)->0),
            r is Some ==> r->0@.encoding() == decoded(bytes@)->0,
    {
        match dalek_decompress(bytes) {
            Some(b) => Some(EdwardsPoint { bytes: b }),
            None => None,
        }
    }

    /// The canonical encoding.
    pub fn to_bytes(&self) -> (r: [u8; 32])
        ensures
            r@ == self@.encoding(),
            encodes_point(r@),
    {
        proof {
            use_type_invariant(self);
        }
        self.bytes
    }
}

impl AddSpecImpl for EdwardsPoint {
    open spec fn obeys_add_spec() -> bool {
        true
    }

    open spec fn add_req(self, rhs: EdwardsPoint) -> bool {
        true
    }

    open spec fn add_spec(self, rhs: EdwardsPoint) -> EdwardsPoint {
        point_of(self@.plus(rhs@))
    }
}

impl core::ops::Add for EdwardsPoint {
    type Output = EdwardsPoint;

    fn add(self, rhs: EdwardsPoint) -> (r: EdwardsPoint)
        ensures
            r@ == self@.plus(rhs@),
    {
        proof {
            use_type_invariant(&self);
            use_type_invariant(&rhs);
        }
        let r = EdwardsPoint { bytes: dalek_add(&self.bytes, &rhs.bytes) };
        proof {
            lemma_point_of(r);
        }
        r
    }
}

impl MulSpecImpl<Scalar> for EdwardsPoint {
    open spec fn obeys_mul_spec() -> bool {
        true
    }

    open spec fn mul_req(self, rhs: Scalar) -> bool {
        true
    }

    open spec fn mul_spec(self, rhs: Scalar) -> EdwardsPoint {
        point_of(self@.times(rhs.value()))
    }
}

impl core::ops::Mul<Scalar> for EdwardsPoint {
    type Output = EdwardsPoint;

    fn mul(self, rhs: Scalar) -> (r: EdwardsPoint)
        ensures
            r@ == self@.times(rhs.value()),
    {
        proof {
            use_type_invariant(&self);
            scalar::lemma_value_bound(rhs);
        }
        let r = EdwardsPoint { bytes: dalek_mul(&self.bytes, &rhs.to_bytes()) };
        proof {
            lemma_point_of(r);
        }
        r
    }
}

impl PartialEqSpecImpl for EdwardsPoint {
    open spec fn obeys_eq_spec() -> bool {
        true
    }

    open spec fn eq_spec(&self, other: &EdwardsPoint) -> bool {
        self@ == other@
    }
}

impl PartialEq for EdwardsPoint {
    fn eq(&self, other: &EdwardsPoint) -> (r: bool) {
        proof {
            use_type_invariant(self);
            use_type_invariant(other);
            lemma_encoding(self.bytes@);
            lemma_encoding(other.bytes@);
        }
        dalek_eq(&self.bytes, &other.bytes)
    }
}

impl Eq for EdwardsPoint {

}

/// The sum of elements: none add up to the neutral element, one to itself added to that, and each
/// further one is added to the sum of those before it.
pub proof fn law_element_sum(es: Seq<Element>, e: Element)
    ensures
        element_sum(Seq::<Element>::empty()) == base_times(0),
        element_sum(es.push(e)) == element_sum(es).plus(e),
{
    assert(es.push(e).drop_last() =~= es);
}

/// Multiples of the base point behave as integers modulo the group order do: they add up, multiply,
/// and are equal just if the factors are congruent.
pub proof fn law_base_multiples(a: int, b: int, k: nat)
    ensures
        base_times(a).plus(base_times(b)) == base_times(a + b),
        base_times(a).times(k) == base_times(a * k),
        base_times(a) == base_times(b) <==> (a - b) % order::group_order() == 0,
{
    lemma_base_sum(a, b);
    lemma_base_product(a, k);
    lemma_base_equal(a, b);
    order::lemma_group_order_large();
    lemma_mod_equivalence(a, b, order::group_order());
}

} // verus!
