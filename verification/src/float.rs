//! Finite floating-point numbers, held by their bits.
//!
//! A [`Float`] stands for a finite double-precision number of IEEE 754. It is held as an integer:
//! the sign, eleven bits of exponent and 52 bits of fraction. Contracts speak of its value in
//! units of 2^-1075, of which every finite number is a multiple.

use vstd::arithmetic::mul::*;
use vstd::arithmetic::power2::*;
use vstd::prelude::*;

verus! {

/// The bits are those of a finite number: the exponent is not the greatest one.
pub open spec fn is_finite(bits: u64) -> bool {
    (bits as int / 0x10_0000_0000_0000) % 0x800 != 0x7ff
}

/// The value, in units of 2^-1075, of a number without its sign.
pub open spec fn magnitude_value(magnitude: int) -> int {
    let exponent = magnitude / 0x10_0000_0000_0000;
    let fraction = magnitude % 0x10_0000_0000_0000;
    if exponent == 0 {
        2 * fraction
    } else {
        (0x10_0000_0000_0000 + fraction) * pow2(exponent as nat)
    }
}

/// The value, in units of 2^-1075, of the number with the given bits.
pub open spec fn bits_value(bits: u64) -> int {
    if bits >= 0x8000_0000_0000_0000 {
        -magnitude_value(bits - 0x8000_0000_0000_0000)
    } else {
        magnitude_value(bits as int)
    }
}

/// A finite floating-point number.
#[derive(Clone, Copy, Debug)]
pub struct Float {
    bits: u64,
}

impl Float {
    /// The number is finite.
    #[verifier::type_invariant]
    pub closed spec fn finite(self) -> bool {
        is_finite(self.bits)
    }

    /// The bits.
    pub closed spec fn bits(self) -> u64 {
        self.bits
    }

    /// The number with the given bits.
    pub closed spec fn with_bits(bits: u64) -> Float {
        Float { bits }
    }

    /// The value in units of 2^-1075.
    pub open spec fn value(self) -> int {
        bits_value(self.bits())
    }

    /// The number with the given bits, if it is finite.
    pub fn from_bits(bits: u64) -> (r: Option<Float>)
        ensures
            r is Some <==> is_finite(bits),
            r matches Some(f) ==> f == Float::with_bits(bits) && f.bits() == bits,
    {
        if (bits / 0x10_0000_0000_0000) % 0x800 == 0x7ff {
            None
        } else {
            Some(Float { bits })
        }
    }

    /// The bits.
    pub fn to_bits(&self) -> (r: u64)
        ensures
            r == self.bits(),
            is_finite(r),
    {
        proof {
            use_type_invariant(self);
        }
        self.bits
    }

    /// The number is at most another.
    pub fn at_most(&self, other: &Float) -> (r: bool)
        ensures
            r == (self.value() <= other.value()),
    {
        proof {
            lemma_order(self.bits, other.bits);
        }
        order_key(self.bits) <= order_key(other.bits)
    }

    /// The number is zero or negative.
    pub fn not_positive(&self) -> (r: bool)
        ensures
            r == (self.value() <= 0),
    {
        proof {
            lemma_order(self.bits, 0);
            lemma_zero();
        }
        order_key(self.bits) <= 0
    }
}

/// A number is determined by its bits.
pub proof fn lemma_same_bits(a: Float, b: Float)
    requires
        a.bits() == b.bits(),
    ensures
        a == b,
{
}

/// An integer that orders numbers as their values do.
pub open spec fn key(bits: u64) -> int {
    if bits >= 0x8000_0000_0000_0000 {
        -(bits - 0x8000_0000_0000_0000)
    } else {
        bits as int
    }
}

fn order_key(bits: u64) -> (r: i64)
    ensures
        r == key(bits),
{
    if bits >= 0x8000_0000_0000_0000 {
        -((bits - 0x8000_0000_0000_0000) as i64)
    } else {
        bits as i64
    }
}

proof fn lemma_zero()
    ensures
        bits_value(0) == 0,
{
}

/// A greater magnitude has a greater value.
proof fn lemma_magnitude_order(a: int, b: int)
    requires
        0 <= a < b,
    ensures
        0 <= magnitude_value(a) < magnitude_value(b),
{
    let m: int = 0x10_0000_0000_0000;
    let x = a / m;
    let y = b / m;
    let f = a % m;
    let g = b % m;
    assert(x <= y);
    lemma_pow2_pos(x as nat);
    lemma_pow2_pos(y as nat);
    let p = pow2(x as nat) as int;
    let q = pow2(y as nat) as int;
    if x == y {
        if x > 0 {
            assert((m + f) * p < (m + g) * p) by (nonlinear_arith)
                requires
                    f < g,
                    p > 0,
            ;
            assert(0 <= (m + f) * p) by (nonlinear_arith)
                requires
                    m + f >= 0,
                    p > 0,
            ;
        }
    } else {
        lemma_pow2_strictly_increases(x as nat, y as nat);
        lemma_pow2_unfold(y as nat);
        let h = pow2((y - 1) as nat) as int;
        assert(q == 2 * h);
        if x == 0 {
            lemma_pow2_pos((y - 1) as nat);
            assert((m + g) * q >= m * 2) by (nonlinear_arith)
                requires
                    m > 0,
                    g >= 0,
                    q >= 2,
            ;
        } else {
            if x < y - 1 {
                lemma_pow2_strictly_increases(x as nat, (y - 1) as nat);
            }
            assert(p <= h);
            assert((m + f) * p < (m + g) * q) by (nonlinear_arith)
                requires
                    0 <= f < m,
                    g >= 0,
                    0 < p <= h,
                    q == 2 * h,
            ;
            assert(0 <= (m + f) * p) by (nonlinear_arith)
                requires
                    m + f >= 0,
                    p > 0,
            ;
        }
    }
}

/// The keys order numbers as their values do.
pub proof fn lemma_order(a: u64, b: u64)
    ensures
        key(a) <= key(b) <==> bits_value(a) <= bits_value(b),
        key(a) == key(b) <==> bits_value(a) == bits_value(b),
{
    let x = if key(a) < 0 {
        -key(a)
    } else {
        key(a)
    };
    let y = if key(b) < 0 {
        -key(b)
    } else {
        key(b)
    };
    if x < y {
        lemma_magnitude_order(x, y);
    } else if y < x {
        lemma_magnitude_order(y, x);
    }
    if x > 0 {
        lemma_magnitude_order(0, x);
    }
    if y > 0 {
        lemma_magnitude_order(0, y);
    }
}

/// The bits of the floating-point number nearest to the integer `n`: no finite number is nearer,
/// and of two equally near ones it is the one with the even fraction.
pub open spec fn is_nearest(bits: u64, n: int) -> bool {
    &&& is_finite(bits)
    &&& bits >= 0x8000_0000_0000_0000 <==> n < 0
    &&& forall|other: u64| #[trigger]
        is_finite(other) ==> distance(bits, n) < distance(other, n) || bits_value(other)
            == bits_value(bits) || (distance(bits, n) == distance(other, n) && bits % 2 == 0)
}

/// The distance, in units of 2^-1075, between a floating-point number and an integer.
pub open spec fn distance(bits: u64, n: int) -> int {
    let d = bits_value(bits) - n * pow2(1075);
    if d < 0 {
        -d
    } else {
        d
    }
}

/// The bits of the floating-point number nearest to an integer.
pub open spec fn nearest(n: int) -> u64 {
    choose|bits: u64| is_nearest(bits, n)
}

/// There is at most one floating-point number nearest to an integer: of two, the number after the
/// smaller one would be nearer.
proof fn lemma_nearest_ordered(a: u64, b: u64, n: int)
    requires
        is_nearest(a, n),
        is_nearest(b, n),
    ensures
        a >= b,
{
    if a < b {
        lemma_order(a, b);
        assert(is_finite(a) && is_finite(b));
        assert(bits_value(a) != bits_value(b));
        assert(distance(a, n) == distance(b, n));
        assert(a % 2 == 0 && b % 2 == 0);
        let c = (a + 1) as u64;
        lemma_order(a, c);
        lemma_order(c, b);
        assert(is_finite(c));
        assert(distance(c, n) < distance(a, n));
    }
}

/// There is only one floating-point number nearest to an integer.
pub proof fn lemma_nearest_unique(bits: u64, n: int)
    requires
        is_nearest(bits, n),
    ensures
        nearest(n) == bits,
{
    let other = nearest(n);
    assert(is_nearest(other, n));
    lemma_nearest_ordered(other, bits, n);
    lemma_nearest_ordered(bits, other, n);
}

/// The values of floating-point numbers: numbers that differ in their sign only are opposite, the
/// smallest ones are spaced evenly from zero on, within one exponent the spacing is a power of two,
/// and one exponent more doubles the value. The number one has the value one.
pub proof fn law_float_values(bits: u64)
    ensures
        bits < 0x8000_0000_0000_0000 ==> bits_value((bits + 0x8000_0000_0000_0000) as u64)
            == -bits_value(bits),
        bits <= 0x10_0000_0000_0000 ==> bits_value(bits) == 2 * bits,
        bits < 0x7fff_ffff_ffff_ffff && bits >= 0x10_0000_0000_0000 && (bits + 1)
            % 0x10_0000_0000_0000 != 0 ==> bits_value((bits + 1) as u64) - bits_value(bits) == pow2(
            (bits as nat / 0x10_0000_0000_0000),
        ),
        0x10_0000_0000_0000 <= bits < 0x7ff0_0000_0000_0000 ==> bits_value(
            (bits + 0x10_0000_0000_0000) as u64,
        ) == 2 * bits_value(bits),
        bits_value(0x3ff0_0000_0000_0000) == pow2(1075),
{
    if bits < 0x8000_0000_0000_0000 {
        assert(bits_value((bits + 0x8000_0000_0000_0000) as u64) == -bits_value(bits));
    }
    if bits == 0x10_0000_0000_0000 {
        lemma2_to64();
        assert(bits_value(bits) == 0x10_0000_0000_0000 * pow2(1));
    }
    if 0x10_0000_0000_0000 <= bits < 0x7fff_ffff_ffff_ffff && (bits + 1) % 0x10_0000_0000_0000 != 0 {
        let e = bits as int / 0x10_0000_0000_0000;
        let f = bits as int % 0x10_0000_0000_0000;
        assert((bits + 1) as int / 0x10_0000_0000_0000 == e && (bits + 1) as int
            % 0x10_0000_0000_0000 == f + 1);
        let p = pow2(e as nat) as int;
        assert((0x10_0000_0000_0000 + (f + 1)) * p - (0x10_0000_0000_0000 + f) * p == p)
            by (nonlinear_arith);
    }
    if 0x10_0000_0000_0000 <= bits < 0x7ff0_0000_0000_0000 {
        let e = bits as int / 0x10_0000_0000_0000;
        let f = bits as int % 0x10_0000_0000_0000;
        let more = bits + 0x10_0000_0000_0000;
        assert(more / 0x10_0000_0000_0000 == e + 1 && more % 0x10_0000_0000_0000 == f);
        lemma_pow2_unfold((e + 1) as nat);
        let p = pow2(e as nat) as int;
        assert((0x10_0000_0000_0000 + f) * (2 * p) == 2 * ((0x10_0000_0000_0000 + f) * p))
            by (nonlinear_arith);
    }
    lemma_pow2_adds(52, 1023);
    lemma2_to64_rest();
    assert(bits_value(0x3ff0_0000_0000_0000) == 0x10_0000_0000_0000 * pow2(1023));
}

/// Finite numbers are those below infinity, whatever their sign.
pub proof fn law_finite_numbers(bits: u64)
    ensures
        is_finite(bits) <==> (bits < 0x7ff0_0000_0000_0000 || 0x8000_0000_0000_0000 <= bits
            < 0xfff0_0000_0000_0000),
{
}

/// An integer that is a floating-point number is nearest to itself.
pub proof fn law_exact_integers_kept(bits: u64, n: int)
    requires
        is_finite(bits),
        bits >= 0x8000_0000_0000_0000 <==> n < 0,
        bits_value(bits) == n * pow2(1075),
    ensures
        nearest(n) == bits,
{
    assert forall|other: u64| #[trigger] is_finite(other) implies distance(bits, n) < distance(
        other,
        n,
    ) || bits_value(other) == bits_value(bits) || (distance(bits, n) == distance(other, n) && bits
        % 2 == 0) by {}
    lemma_nearest_unique(bits, n);
}

} // verus!
