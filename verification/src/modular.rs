//! Arithmetic modulo a positive integer: congruence, inverses, and the integers
//! that have no small divisor.

use vstd::arithmetic::div_mod::*;
use vstd::arithmetic::mul::*;
use vstd::prelude::*;

verus! {

/// `a` and `b` leave the same remainder modulo `n`.
pub open spec fn congruent(a: int, b: int, n: int) -> bool {
    a % n == b % n
}

/// Sums of congruent integers are congruent.
pub proof fn lemma_add_congruent(a: int, b: int, c: int, d: int, n: int)
    requires
        n > 0,
        congruent(a, b, n),
        congruent(c, d, n),
    ensures
        congruent(a + c, b + d, n),
{
    lemma_add_mod_noop(a, c, n);
    lemma_add_mod_noop(b, d, n);
}

/// Differences of congruent integers are congruent.
pub proof fn lemma_sub_congruent(a: int, b: int, c: int, d: int, n: int)
    requires
        n > 0,
        congruent(a, b, n),
        congruent(c, d, n),
    ensures
        congruent(a - c, b - d, n),
{
    lemma_sub_mod_noop(a, c, n);
    lemma_sub_mod_noop(b, d, n);
}

/// Products of congruent integers are congruent.
pub proof fn lemma_mul_congruent(a: int, b: int, c: int, d: int, n: int)
    requires
        n > 0,
        congruent(a, b, n),
        congruent(c, d, n),
    ensures
        congruent(a * c, b * d, n),
{
    lemma_mul_mod_noop(a, c, n);
    lemma_mul_mod_noop(b, d, n);
}

/// An integer is congruent to its remainder.
pub proof fn lemma_remainder_congruent(a: int, n: int)
    requires
        n > 0,
    ensures
        congruent(a % n, a, n),
{
    lemma_mod_twice(a, n);
}

/// Adding a multiple of the modulus changes no remainder.
pub proof fn lemma_multiple_congruent(a: int, k: int, n: int)
    requires
        n > 0,
    ensures
        congruent(a + k * n, a, n),
        congruent(a + n * k, a, n),
{
    lemma_mod_multiples_vanish(k, a, n);
    lemma_mul_is_commutative(k, n);
}

/// Two integers are congruent exactly when the modulus divides their difference.
pub proof fn lemma_congruent_iff_divides(a: int, b: int, n: int)
    requires
        n > 0,
    ensures
        congruent(a, b, n) <==> (a - b) % n == 0,
{
    lemma_mod_equivalence(a, b, n);
}

/// What divides the modulus keeps a congruence.
pub proof fn lemma_congruent_divisor(a: int, b: int, n: int, p: int)
    requires
        n > 0,
        p > 0,
        n % p == 0,
        congruent(a, b, n),
    ensures
        congruent(a, b, p),
{
    lemma_congruent_iff_divides(a, b, n);
    lemma_divides_trans(p, n, a - b);
    lemma_congruent_iff_divides(a, b, p);
}

/// Divisibility is transitive.
pub proof fn lemma_divides_trans(p: int, n: int, a: int)
    requires
        p > 0,
        n > 0,
        n % p == 0,
        a % n == 0,
    ensures
        a % p == 0,
{
    lemma_fundamental_div_mod(n, p);
    lemma_fundamental_div_mod(a, n);
    let k = (n / p) * (a / n);
    assert(a == k * p) by (nonlinear_arith)
        requires
            a == n * (a / n),
            n == p * (n / p),
            k == (n / p) * (a / n),
    ;
    lemma_mod_multiples_basic(k, p);
}

/// A divisor of two integers divides every combination of them.
pub proof fn lemma_divides_combination(g: int, a: int, b: int, x: int, y: int)
    requires
        g > 0,
        a % g == 0,
        b % g == 0,
    ensures
        (a * x + b * y) % g == 0,
{
    lemma_fundamental_div_mod(a, g);
    lemma_fundamental_div_mod(b, g);
    let k = (a / g) * x + (b / g) * y;
    assert(a * x + b * y == k * g) by (nonlinear_arith)
        requires
            a == g * (a / g),
            b == g * (b / g),
            k == (a / g) * x + (b / g) * y,
    ;
    lemma_mod_multiples_basic(k, g);
}

/// The greatest common divisor of `a` and `b` is a combination of them.
pub proof fn lemma_bezout(a: int, b: int) -> (c: (int, int))
    requires
        a >= 0,
        b >= 0,
        a > 0 || b > 0,
    ensures
        a * c.0 + b * c.1 > 0,
        a % (a * c.0 + b * c.1) == 0,
        b % (a * c.0 + b * c.1) == 0,
    decreases b,
{
    if b == 0 {
        lemma_mod_self_0(a);
        assert(a * 1 + b * 0 == a);
        (1, 0)
    } else {
        let r = a % b;
        let q = a / b;
        lemma_fundamental_div_mod(a, b);
        let (x, y) = lemma_bezout(b, r);
        let g = b * x + r * y;
        assert(a * y + b * (x - q * y) == g) by (nonlinear_arith)
            requires
                a == b * q + r,
                g == b * x + r * y,
        ;
        lemma_divides_combination(g, b, r, q, 1);
        assert(b * q + r * 1 == a);
        (y, x - q * y)
    }
}

/// `n` has no divisor above one and up to `bound`.
pub open spec fn no_divisor_up_to(n: int, bound: int) -> bool {
    forall|d: int| 1 < d <= bound ==> #[trigger] (n % d) != 0
}

/// `v` is an inverse of `a` modulo `n`.
pub open spec fn is_inverse(v: int, a: int, n: int) -> bool {
    (v * a) % n == 1
}

/// `a` has an inverse modulo `n`.
pub open spec fn invertible(a: int, n: int) -> bool {
    exists|v: int| is_inverse(v, a, n)
}

/// An integer below every divisor of `n` has an inverse modulo `n`.
pub proof fn lemma_small_invertible(a: int, bound: int, n: int)
    requires
        n > 1,
        0 < a <= bound,
        no_divisor_up_to(n, bound),
    ensures
        invertible(a, n),
{
    let (x, y) = lemma_bezout(a, n);
    let g = a * x + n * y;
    if g > a {
        lemma_small_mod(a as nat, g as nat);
        assert(false);
    }
    if g > 1 {
        assert(n % g != 0);
    }
    assert(g == 1);
    assert(x * a == 1 + (-y) * n) by (nonlinear_arith)
        requires
            a * x + n * y == 1,
    ;
    lemma_multiple_congruent(1, -y, n);
    lemma_small_mod(1, n as nat);
    assert(is_inverse(x, a, n));
}

/// What is congruent to an invertible integer is invertible.
pub proof fn lemma_invertible_congruent(a: int, b: int, n: int)
    requires
        n > 1,
        congruent(a, b, n),
        invertible(a, n),
    ensures
        invertible(b, n),
{
    let v = choose|v: int| is_inverse(v, a, n);
    lemma_mul_congruent(v, v, a, b, n);
    assert(is_inverse(v, b, n));
}

/// The opposite of an invertible integer is invertible.
pub proof fn lemma_invertible_negated(a: int, n: int)
    requires
        n > 1,
        invertible(a, n),
    ensures
        invertible(-a, n),
{
    let v = choose|v: int| is_inverse(v, a, n);
    assert((-v) * (-a) == v * a) by (nonlinear_arith);
    assert(is_inverse(-v, -a, n));
}

/// The product of invertible integers is invertible.
pub proof fn lemma_invertible_product(a: int, b: int, n: int)
    requires
        n > 1,
        invertible(a, n),
        invertible(b, n),
    ensures
        invertible(a * b, n),
{
    let v = choose|v: int| is_inverse(v, a, n);
    let w = choose|w: int| is_inverse(w, b, n);
    lemma_small_mod(1, n as nat);
    lemma_mul_congruent(v * a, 1, w * b, 1, n);
    assert((v * w) * (a * b) == (v * a) * (w * b)) by (nonlinear_arith);
    assert(is_inverse(v * w, a * b, n));
}

/// An invertible factor can be taken off both sides of a congruence.
pub proof fn lemma_cancel(a: int, b: int, c: int, n: int)
    requires
        n > 1,
        invertible(c, n),
        congruent(a * c, b * c, n),
    ensures
        congruent(a, b, n),
{
    let v = choose|v: int| is_inverse(v, c, n);
    lemma_small_mod(1, n as nat);
    lemma_mul_congruent(a * c, b * c, v, v, n);
    lemma_mul_congruent(a, a, v * c, 1, n);
    lemma_mul_congruent(b, b, v * c, 1, n);
    assert((a * c) * v == a * (v * c)) by (nonlinear_arith);
    assert((b * c) * v == b * (v * c)) by (nonlinear_arith);
}

/// A multiple of the modulus has no inverse.
pub proof fn lemma_zero_not_invertible(a: int, n: int)
    requires
        n > 1,
        a % n == 0,
    ensures
        !invertible(a, n),
{
    assert forall|v: int| !is_inverse(v, a, n) by {
        lemma_small_mod(0, n as nat);
        lemma_mul_congruent(v, v, a, 0, n);
        assert(v * 0 == 0);
    }
}

/// An inverse below `n` of the remainder `r`.
pub open spec fn inverse_of_remainder(r: int, n: int) -> int {
    choose|v: int| 0 <= v < n && #[trigger] is_inverse(v, r, n)
}

/// The inverse of `a` modulo `n`; zero where `n` divides `a`.
pub open spec fn inverse(a: int, n: int) -> int {
    if a % n == 0 {
        0
    } else {
        inverse_of_remainder(a % n, n)
    }
}

/// The inverse of an invertible integer is its only inverse below the modulus.
pub proof fn lemma_inverse_unique(v: int, a: int, n: int)
    requires
        n > 1,
        0 <= v < n,
        is_inverse(v, a, n),
    ensures
        inverse(a, n) == v,
{
    assert(invertible(a, n));
    if a % n == 0 {
        lemma_zero_not_invertible(a, n);
    }
    lemma_mul_mod_noop_right(v, a, n);
    assert(is_inverse(v, a % n, n));
    let w = inverse(a, n);
    assert(is_inverse(w, a % n, n));
    lemma_mul_mod_noop_right(w, a, n);
    lemma_cancel(v, w, a, n);
    lemma_small_mod(v as nat, n as nat);
    lemma_small_mod(w as nat, n as nat);
}

/// The inverse of an invertible integer inverts it.
pub proof fn lemma_inverse(a: int, n: int)
    requires
        n > 1,
        invertible(a, n),
    ensures
        0 <= inverse(a, n) < n,
        is_inverse(inverse(a, n), a, n),
{
    let v = choose|v: int| is_inverse(v, a, n);
    lemma_remainder_congruent(v, n);
    lemma_mul_congruent(v % n, v, a, a, n);
    lemma_inverse_unique(v % n, a, n);
}

/// The inverse depends on the remainder alone.
pub proof fn lemma_inverse_of_remainder(a: int, n: int)
    requires
        n > 1,
    ensures
        inverse(a % n, n) == inverse(a, n),
{
    lemma_mod_twice(a, n);
}

} // verus!
