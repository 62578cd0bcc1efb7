//! The order of the Ed25519 base point has no divisor below 2^32, so that every
//! difference of two participant indices has an inverse modulo it.
//!
//! The proof follows a chain of integers. If a power of `b` modulo `n` first comes
//! back to one after many steps, and if the same holds modulo every divisor of `n`,
//! then each divisor exceeds that number of steps: the powers before it are distinct
//! remainders. How many steps it takes is known from a divisor of `n - 1`, whose own
//! divisors the previous link of the chain bounds.

use crate::modular;
use vstd::arithmetic::div_mod::*;
use vstd::arithmetic::mul::*;
use vstd::arithmetic::power::*;
use vstd::prelude::*;
use vstd::set_lib::*;

verus! {

/// The order of the Ed25519 base point: 2^252 + 27742317777372353535851937790883648493.
#[verifier::opaque]
pub open spec fn group_order() -> int {
    7237005577332262213973186563042994240857116359379907606001950938285454250989int
}

/// Every 64-bit integer is below the group order.
pub proof fn lemma_group_order_large()
    ensures
        group_order() > 0xffff_ffff_ffff_ffff,
{
    reveal(group_order);
}

/// Distinct remainders modulo `d` are at most `d` many.
proof fn lemma_distinct_remainders(f: spec_fn(int) -> int, m: nat, d: int)
    requires
        d > 0,
        forall|i: int| 0 <= i < m ==> 0 <= #[trigger] f(i) < d,
        forall|i: int, j: int| 0 <= i < j < m ==> #[trigger] f(i) != #[trigger] f(j),
    ensures
        m <= d,
{
    let s = Seq::new(m, f);
    assert(s.no_duplicates()) by {
        assert forall|i: int, j: int| 0 <= i < s.len() && 0 <= j < s.len() && i != j implies s[i]
            != s[j] by {
            if i < j {
                assert(f(i) != f(j));
            } else {
                assert(f(j) != f(i));
            }
        }
    }
    s.unique_seq_to_set();
    lemma_int_range(0, d);
    assert forall|v: int| s.to_set().contains(v) implies set_int_range(0, d).contains(v) by {
        let i = choose|i: int| 0 <= i < s.len() && s[i] == v;
        assert(f(i) == v);
    }
    lemma_len_subset(s.to_set(), set_int_range(0, d));
}

/// Where the `q`-th power is one modulo `d` and no power before the `m`-th is, `d` is at
/// least `m`.
proof fn lemma_powers_bound(b: int, q: nat, d: int, m: nat)
    requires
        d > 1,
        q > 0,
        modular::congruent(pow(b, q), 1, d),
        forall|k: nat| 0 < k < m ==> !modular::congruent(#[trigger] pow(b, k), 1, d),
    ensures
        m <= d,
{
    lemma_small_mod(1, d as nat);
    reveal(pow);
    lemma_mul_is_commutative(b, pow(b, (q - 1) as nat));
    assert(modular::is_inverse(pow(b, (q - 1) as nat), b, d));
    let f = |i: int| pow(b, i as nat) % d;
    assert forall|i: int, j: int| 0 <= i < j < m implies #[trigger] f(i) != #[trigger] f(j) by {
        lemma_power_invertible(b, i as nat, d);
        lemma_pow_adds(b, (j - i) as nat, i as nat);
        if f(i) == f(j) {
            assert(1 * pow(b, i as nat) == pow(b, i as nat));
            modular::lemma_cancel(pow(b, (j - i) as nat), 1, pow(b, i as nat), d);
            assert(modular::congruent(pow(b, (j - i) as nat), 1, d));
        }
    }
    lemma_distinct_remainders(f, m, d);
}

/// Powers of an invertible integer are invertible.
proof fn lemma_power_invertible(b: int, e: nat, n: int)
    requires
        n > 1,
        modular::invertible(b, n),
    ensures
        modular::invertible(pow(b, e), n),
    decreases e,
{
    reveal(pow);
    if e == 0 {
        lemma_small_mod(1, n as nat);
        assert(modular::is_inverse(1, 1, n));
    } else {
        lemma_power_invertible(b, (e - 1) as nat, n);
        modular::lemma_invertible_product(b, pow(b, (e - 1) as nat), n);
    }
}

/// Powers of what is congruent to one are congruent to one.
proof fn lemma_power_of_one(a: int, e: nat, n: int)
    requires
        n > 1,
        modular::congruent(a, 1, n),
    ensures
        modular::congruent(pow(a, e), 1, n),
    decreases e,
{
    reveal(pow);
    if e > 0 {
        lemma_power_of_one(a, (e - 1) as nat, n);
        modular::lemma_mul_congruent(a, 1, pow(a, (e - 1) as nat), 1, n);
    }
}

/// From `b^q = 1`, `b^(c * k) = 1` and `k` invertible modulo `a`, where `q = a * c`, it
/// follows that `b^c = 1`.
proof fn lemma_power_descends(b: int, a: int, c: int, k: int, d: int)
    requires
        d > 1,
        a > 1,
        c > 0,
        k > 0,
        modular::congruent(pow(b, (a * c) as nat), 1, d),
        modular::congruent(pow(b, k as nat), 1, d),
        modular::invertible(k, a),
    ensures
        modular::congruent(pow(b, c as nat), 1, d),
{
    let v0 = choose|v: int| modular::is_inverse(v, k, a);
    let v = v0 % a;
    modular::lemma_remainder_congruent(v0, a);
    modular::lemma_mul_congruent(v, v0, k, k, a);
    let w = (v * k) / a;
    lemma_fundamental_div_mod(v * k, a);
    lemma_mul_nonnegative(v, k);
    lemma_div_pos_is_pos(v * k, a);
    assert(a * c > 0) by (nonlinear_arith)
        requires
            a > 1,
            c > 0,
    ;
    assert(k * (v * c) == c + (a * c) * w) by (nonlinear_arith)
        requires
            v * k == a * w + 1,
    ;
    lemma_mul_nonnegative(v, c);
    lemma_mul_nonnegative(a * c, w);
    lemma_pow_multiplies(b, k as nat, (v * c) as nat);
    lemma_power_of_one(pow(b, k as nat), (v * c) as nat, d);
    lemma_pow_multiplies(b, (a * c) as nat, w as nat);
    lemma_power_of_one(pow(b, (a * c) as nat), w as nat, d);
    lemma_pow_adds(b, c as nat, ((a * c) * w) as nat);
    modular::lemma_mul_congruent(
        pow(b, c as nat),
        pow(b, c as nat),
        pow(b, ((a * c) * w) as nat),
        1,
        d,
    );
    assert(pow(b, c as nat) * 1 == pow(b, c as nat));
}

/// What an inverse of `x - 1` modulo `n` shows: `x` is not one modulo any divisor of `n`.
proof fn lemma_not_one(x: int, u: int, n: int, d: int)
    requires
        n > 1,
        d > 1,
        n % d == 0,
        (u * (x - 1)) % n == 1,
    ensures
        !modular::congruent(x, 1, d),
{
    lemma_small_mod(1, n as nat);
    modular::lemma_congruent_divisor(u * (x - 1), 1, n, d);
    lemma_small_mod(1, d as nat);
    if modular::congruent(x, 1, d) {
        modular::lemma_sub_congruent(x, 1, 1, 1, d);
        modular::lemma_mul_congruent(u, u, x - 1, 0, d);
        assert(u * 0 == 0);
        lemma_small_mod(0, d as nat);
    }
}

/// Where `b^q` is one modulo `n`, `b - 1` is invertible and `q` has no divisor up to
/// `bound`, `n` has none either.
proof fn lemma_divisors_exceed(n: int, b: int, u: int, q: int, bound: int)
    requires
        n > 1,
        q > 1,
        bound >= 1,
        pow(b, q as nat) % n == 1,
        (u * (b - 1)) % n == 1,
        modular::no_divisor_up_to(q, bound),
    ensures
        modular::no_divisor_up_to(n, bound),
{
    assert forall|d: int| 1 < d <= bound implies #[trigger] (n % d) != 0 by {
        if n % d == 0 {
            lemma_small_mod(1, n as nat);
            modular::lemma_congruent_divisor(pow(b, q as nat), 1, n, d);
            assert forall|k: nat| 0 < k < bound + 1 implies !modular::congruent(
                #[trigger] pow(b, k),
                1,
                d,
            ) by {
                if modular::congruent(pow(b, k), 1, d) {
                    modular::lemma_small_invertible(k as int, bound, q);
                    assert(q * 1 == q);
                    lemma_power_descends(b, q, 1, k as int, d);
                    lemma_pow1(b);
                    lemma_not_one(b, u, n, d);
                }
            }
            lemma_powers_bound(b, q as nat, d, (bound + 1) as nat);
        }
    }
}

/// Where `b^(a * c)` is one modulo `n` for two primes, and neither `b^a` nor `b^c` is one
/// modulo any divisor of `n`, every divisor of `n` is at least `a * c`.
proof fn lemma_divisors_exceed_product(
    n: int,
    b: int,
    u: int,
    v: int,
    a: int,
    c: int,
    x: int,
    y: int,
)
    requires
        n > 1,
        a > 1,
        c > 1,
        a != c,
        modular::no_divisor_up_to(a, a - 1),
        modular::no_divisor_up_to(c, c - 1),
        pow(b, (a * c) as nat) % n == 1,
        pow(b, a as nat) % n == x,
        pow(b, c as nat) % n == y,
        (u * (x - 1)) % n == 1,
        (v * (y - 1)) % n == 1,
    ensures
        modular::no_divisor_up_to(n, a * c - 1),
{
    assert(a * c > 1) by (nonlinear_arith)
        requires
            a > 1,
            c > 1,
    ;
    assert forall|d: int| 1 < d <= a * c - 1 implies #[trigger] (n % d) != 0 by {
        if n % d == 0 {
            lemma_small_mod(1, n as nat);
            modular::lemma_congruent_divisor(pow(b, (a * c) as nat), 1, n, d);
            modular::lemma_remainder_congruent(pow(b, a as nat), n);
            modular::lemma_remainder_congruent(pow(b, c as nat), n);
            modular::lemma_congruent_divisor(x, pow(b, a as nat), n, d);
            modular::lemma_congruent_divisor(y, pow(b, c as nat), n, d);
            lemma_not_one(x, u, n, d);
            lemma_not_one(y, v, n, d);
            assert forall|k: nat| 0 < k < a * c implies !modular::congruent(#[trigger] pow(b, k), 1, d) by {
                if modular::congruent(pow(b, k), 1, d) {
                    lemma_mul_is_commutative(a, c);
                    if k as int % a != 0 {
                        lemma_prime_invertible(k as int, a);
                        lemma_power_descends(b, a, c, k as int, d);
                    } else if k as int % c != 0 {
                        lemma_prime_invertible(k as int, c);
                        lemma_power_descends(b, c, a, k as int, d);
                    } else {
                        lemma_product_divides(k as int, a, c);
                    }
                }
            }
            lemma_powers_bound(b, (a * c) as nat, d, (a * c) as nat);
        }
    }
}

/// Modulo a prime every integer is invertible that the prime does not divide.
proof fn lemma_prime_invertible(k: int, p: int)
    requires
        p > 1,
        modular::no_divisor_up_to(p, p - 1),
        k % p != 0,
    ensures
        modular::invertible(k, p),
{
    modular::lemma_small_invertible(k % p, p - 1, p);
    modular::lemma_remainder_congruent(k, p);
    modular::lemma_invertible_congruent(k % p, k, p);
}

/// A positive multiple of two distinct primes is at least their product.
proof fn lemma_product_divides(k: int, a: int, c: int)
    requires
        k > 0,
        a > 1,
        c > 1,
        a != c,
        modular::no_divisor_up_to(a, a - 1),
        modular::no_divisor_up_to(c, c - 1),
        k % a == 0,
        k % c == 0,
    ensures
        k >= a * c,
{
    let m = k / a;
    lemma_fundamental_div_mod(k, a);
    assert(a % c != 0) by {
        if a % c == 0 {
            if c < a {
                assert(false);
            } else {
                lemma_small_mod(a as nat, c as nat);
            }
        }
    }
    lemma_prime_invertible(a, c);
    lemma_small_mod(0, c as nat);
    assert(0 * a == 0);
    lemma_mul_is_commutative(a, m);
    modular::lemma_cancel(m, 0, a, c);
    lemma_fundamental_div_mod(m, c);
    assert(m > 0) by (nonlinear_arith)
        requires
            k > 0,
            a > 1,
            k == a * m,
    ;
    let t = m / c;
    assert(t > 0) by (nonlinear_arith)
        requires
            m > 0,
            c > 1,
            m == c * t,
    ;
    assert(k >= a * c) by (nonlinear_arith)
        requires
            k == a * m,
            m == c * t,
            t > 0,
            a > 1,
            c > 1,
    ;
}

/// An integer without a divisor up to its square root has none below itself.
proof fn lemma_no_divisor_up_to_root(n: int, bound: int)
    requires
        n > 1,
        bound >= 1,
        modular::no_divisor_up_to(n, bound),
        n < (bound + 1) * (bound + 1),
    ensures
        modular::no_divisor_up_to(n, n - 1),
{
    assert forall|d: int| 1 < d <= n - 1 implies #[trigger] (n % d) != 0 by {
        if n % d == 0 {
            let e = n / d;
            lemma_fundamental_div_mod(n, d);
            assert(e > 1) by (nonlinear_arith)
                requires
                    n == d * e,
                    1 < d < n,
            ;
            assert(e <= bound || d <= bound) by (nonlinear_arith)
                requires
                    n == d * e,
                    n < (bound + 1) * (bound + 1),
                    bound >= 1,
            ;
            lemma_mod_multiples_basic(d, e);
            assert(n % e == 0);
        }
    }
}

/// Multiplying the power of `b` by `b` adds one to the exponent.
proof fn lemma_append(n: int, b: int, e: nat, x: int, y: int)
    requires
        n > 1,
        pow(b, e) % n == x,
        (x * b) % n == y,
    ensures
        pow(b, e + 1) % n == y,
{
    lemma_pow1(b);
    lemma_pow_adds(b, e, 1);
    modular::lemma_remainder_congruent(pow(b, e), n);
    modular::lemma_mul_congruent(pow(b, e), x, b, b, n);
}

/// Squaring the power of `b` doubles the exponent.
proof fn lemma_square(n: int, b: int, e: nat, x: int, y: int)
    requires
        n > 1,
        pow(b, e) % n == x,
        (x * x) % n == y,
    ensures
        pow(b, 2 * e) % n == y,
{
    lemma_pow_adds(b, e, e);
    modular::lemma_remainder_congruent(pow(b, e), n);
    modular::lemma_mul_congruent(pow(b, e), x, pow(b, e), x, n);
}

/// Appends the hexadecimal digit `d` to the exponent `e`. The powers of `b` with the
/// exponents `e`, `2e`, `4e`, `8e`, `16e`, `d` and `16e + d` have the remainders `x`, `x2`,
/// `x4`, `x8`, `x16`, `z` and `y`.
proof fn lemma_next_digit(
    n: int,
    b: int,
    e: nat,
    d: nat,
    x: int,
    x2: int,
    x4: int,
    x8: int,
    x16: int,
    z: int,
    y: int,
)
    requires
        n > 1,
        pow(b, e) % n == x,
        pow(b, d) % n == z,
        (x * x) % n == x2,
        (x2 * x2) % n == x4,
        (x4 * x4) % n == x8,
        (x8 * x8) % n == x16,
        (x16 * z) % n == y,
    ensures
        pow(b, 16 * e + d) % n == y,
{
    lemma_square(n, b, e, x, x2);
    lemma_square(n, b, 2 * e, x2, x4);
    lemma_square(n, b, 4 * e, x4, x8);
    lemma_square(n, b, 8 * e, x8, x16);
    lemma_pow_adds(b, 16 * e, d);
    modular::lemma_remainder_congruent(pow(b, 16 * e), n);
    modular::lemma_remainder_congruent(pow(b, d), n);
    modular::lemma_mul_congruent(pow(b, 16 * e), x16, pow(b, d), z, n);
}

/// 11 is prime.
proof fn lemma_prime_11()
    ensures
        modular::no_divisor_up_to(11, 10),
{
    assert forall|d: int| 1 < d <= 3 implies #[trigger] (11int % d) != 0 by {
        assert(d == 2 || d == 3);
    }
    lemma_no_divisor_up_to_root(11, 3);
}

/// 41 is prime.
proof fn lemma_prime_41()
    ensures
        modular::no_divisor_up_to(41, 40),
{
    assert forall|d: int| 1 < d <= 6 implies #[trigger] (41int % d) != 0 by {
        assert(d == 2 || d == 3 || d == 4 || d == 5 || d == 6);
    }
    lemma_no_divisor_up_to_root(41, 6);
}

/// 67 is prime.
proof fn lemma_prime_67()
    ensures
        modular::no_divisor_up_to(67, 66),
{
    assert forall|d: int| 1 < d <= 8 implies #[trigger] (67int % d) != 0 by {
        assert(d == 2 || d == 3 || d == 4 || d == 5 || d == 6 || d == 7 || d == 8);
    }
    lemma_no_divisor_up_to_root(67, 8);
}

/// 1723 is prime.
proof fn lemma_prime_1723()
    ensures
        modular::no_divisor_up_to(1723, 1722),
{
    lemma_prime_41();
    lemma_pow0(924);
    lemma_append(1723, 924, 0, 1, 924);
    lemma_append(1723, 924, 1, 924, 891);
    lemma_append(1723, 924, 2, 891, 1413);
    lemma_append(1723, 924, 3, 1413, 1301);
    lemma_append(1723, 924, 4, 1301, 1193);
    lemma_append(1723, 924, 5, 1193, 1335);
    lemma_append(1723, 924, 6, 1335, 1595);
    lemma_append(1723, 924, 7, 1595, 615);
    lemma_append(1723, 924, 8, 615, 1393);
    lemma_next_digit(1723, 924, 2, 9, 891, 1301, 615, 888, 1133, 1393, 1);
    lemma_divisors_exceed(1723, 924, 1695, 41, 40);
    assert(1723int % 41 != 0);
    assert(modular::no_divisor_up_to(1723, 41));
    lemma_no_divisor_up_to_root(1723, 41);
}

/// 17231 is prime.
proof fn lemma_prime_17231()
    ensures
        modular::no_divisor_up_to(17231, 17230),
{
    lemma_prime_1723();
    lemma_pow0(1024);
    lemma_append(17231, 1024, 0, 1, 1024);
    lemma_append(17231, 1024, 1, 1024, 14716);
    lemma_append(17231, 1024, 2, 14716, 9290);
    lemma_append(17231, 1024, 3, 9290, 1448);
    lemma_append(17231, 1024, 4, 1448, 886);
    lemma_append(17231, 1024, 5, 886, 11252);
    lemma_append(17231, 1024, 6, 11252, 11740);
    lemma_append(17231, 1024, 7, 11740, 11753);
    lemma_append(17231, 1024, 8, 11753, 7834);
    lemma_append(17231, 1024, 9, 7834, 9601);
    lemma_append(17231, 1024, 10, 9601, 9754);
    lemma_next_digit(17231, 1024, 6, 11, 11252, 11347, 4377, 14488, 11333, 9754, 5217);
    lemma_next_digit(17231, 1024, 107, 11, 5217, 9340, 12278, 12496, 2694, 9754, 1);
    lemma_divisors_exceed(17231, 1024, 3554, 1723, 1722);
    lemma_no_divisor_up_to_root(17231, 1722);
}

/// 137849 is prime.
proof fn lemma_prime_137849()
    ensures
        modular::no_divisor_up_to(137849, 137848),
{
    lemma_prime_17231();
    lemma_pow0(256);
    lemma_append(137849, 256, 0, 1, 256);
    lemma_append(137849, 256, 1, 256, 65536);
    lemma_append(137849, 256, 2, 65536, 97487);
    lemma_append(137849, 256, 3, 97487, 6003);
    lemma_append(137849, 256, 4, 6003, 20429);
    lemma_append(137849, 256, 5, 20429, 129411);
    lemma_append(137849, 256, 6, 129411, 45456);
    lemma_append(137849, 256, 7, 45456, 57420);
    lemma_append(137849, 256, 8, 57420, 87526);
    lemma_append(137849, 256, 9, 87526, 75118);
    lemma_append(137849, 256, 10, 75118, 69197);
    lemma_append(137849, 256, 11, 69197, 69760);
    lemma_append(137849, 256, 12, 69760, 76039);
    lemma_append(137849, 256, 13, 76039, 29275);
    lemma_append(137849, 256, 14, 29275, 50554);
    lemma_next_digit(137849, 256, 4, 3, 6003, 57420, 121867, 127976, 16886, 97487, 110573);
    lemma_next_digit(137849, 256, 67, 4, 110573, 9123, 106182, 85263, 36456, 6003, 79005);
    lemma_next_digit(137849, 256, 1076, 15, 79005, 125154, 17544, 112968, 122151, 50554, 1);
    lemma_divisors_exceed(137849, 256, 89737, 17231, 17230);
    lemma_no_divisor_up_to_root(137849, 17230);
}

/// 22111 is prime.
proof fn lemma_prime_22111()
    ensures
        modular::no_divisor_up_to(22111, 22110),
{
    lemma_prime_67();
    lemma_prime_11();
    lemma_pow0(21097);
    lemma_append(22111, 21097, 0, 1, 21097);
    lemma_append(22111, 21097, 1, 21097, 11090);
    lemma_append(22111, 21097, 2, 11090, 9239);
    lemma_append(22111, 21097, 3, 9239, 6718);
    lemma_append(22111, 21097, 4, 6718, 20247);
    lemma_append(22111, 21097, 5, 20247, 10661);
    lemma_append(22111, 21097, 6, 10661, 2025);
    lemma_append(22111, 21097, 7, 2025, 2973);
    lemma_append(22111, 21097, 8, 2973, 14585);
    lemma_append(22111, 21097, 9, 14585, 3069);
    lemma_append(22111, 21097, 10, 3069, 5685);
    lemma_append(22111, 21097, 11, 5685, 6381);
    lemma_append(22111, 21097, 12, 6381, 8189);
    lemma_append(22111, 21097, 13, 8189, 10090);
    lemma_next_digit(22111, 21097, 2, 14, 11090, 6718, 2973, 16440, 10847, 10090, 18891);
    lemma_next_digit(22111, 21097, 46, 1, 18891, 20452, 10517, 8067, 3816, 21097, 1);
    lemma_next_digit(22111, 21097, 4, 3, 6718, 2973, 16440, 10847, 4778, 9239, 10386);
    lemma_divisors_exceed_product(22111, 21097, 11410, 10118, 67, 11, 10386, 5685);
    lemma_no_divisor_up_to_root(22111, 736);
}

/// 132667 is prime.
proof fn lemma_prime_132667()
    ensures
        modular::no_divisor_up_to(132667, 132666),
{
    lemma_prime_22111();
    lemma_pow0(64);
    lemma_append(132667, 64, 0, 1, 64);
    lemma_append(132667, 64, 1, 64, 4096);
    lemma_append(132667, 64, 2, 4096, 129477);
    lemma_append(132667, 64, 3, 129477, 61174);
    lemma_append(132667, 64, 4, 61174, 67793);
    lemma_append(132667, 64, 5, 67793, 93408);
    lemma_append(132667, 64, 6, 93408, 8097);
    lemma_append(132667, 64, 7, 8097, 120207);
    lemma_append(132667, 64, 8, 120207, 131229);
    lemma_append(132667, 64, 9, 131229, 40635);
    lemma_append(132667, 64, 10, 40635, 79967);
    lemma_append(132667, 64, 11, 79967, 76542);
    lemma_append(132667, 64, 12, 76542, 122676);
    lemma_append(132667, 64, 13, 122676, 23911);
    lemma_append(132667, 64, 14, 23911, 70967);
    lemma_next_digit(132667, 64, 5, 6, 67793, 40635, 29743, 22493, 75778, 93408, 88973);
    lemma_next_digit(132667, 64, 86, 5, 88973, 87506, 26130, 72518, 73111, 67793, 107570);
    lemma_next_digit(132667, 64, 1381, 15, 107570, 89160, 98960, 1661, 105581, 70967, 1);
    lemma_divisors_exceed(132667, 64, 48434, 22111, 22110);
    lemma_no_divisor_up_to_root(132667, 22110);
}

/// The first link of the chain above the bound.
proof fn lemma_first_link()
    ensures
        modular::no_divisor_up_to(3044861653679985063343int, 4294967296),
{
    lemma_prime_137849();
    lemma_prime_132667();
    lemma_pow0(1226574202589878081217int);
    lemma_append(3044861653679985063343int, 1226574202589878081217int, 0, 1, 1226574202589878081217int);
    lemma_append(3044861653679985063343int, 1226574202589878081217int, 1, 1226574202589878081217int, 2996774486346271727255int);
    lemma_append(3044861653679985063343int, 1226574202589878081217int, 2, 2996774486346271727255int, 1445975879063982043840int);
    lemma_append(3044861653679985063343int, 1226574202589878081217int, 3, 1445975879063982043840int, 341198723890840334616int);
    lemma_append(3044861653679985063343int, 1226574202589878081217int, 4, 341198723890840334616int, 1291069012561180176800int);
    lemma_append(3044861653679985063343int, 1226574202589878081217int, 5, 1291069012561180176800int, 61224812296387409404int);
    lemma_append(3044861653679985063343int, 1226574202589878081217int, 6, 61224812296387409404int, 2918319921199058781434int);
    lemma_append(3044861653679985063343int, 1226574202589878081217int, 7, 2918319921199058781434int, 2398515362709247697548int);
    lemma_append(3044861653679985063343int, 1226574202589878081217int, 8, 2398515362709247697548int, 2677264029804251664740int);
    lemma_append(3044861653679985063343int, 1226574202589878081217int, 9, 2677264029804251664740int, 2693191061155306764191int);
    lemma_append(3044861653679985063343int, 1226574202589878081217int, 10, 2693191061155306764191int, 1882702072614910021380int);
    lemma_append(3044861653679985063343int, 1226574202589878081217int, 11, 1882702072614910021380int, 645229760600316655100int);
    lemma_append(3044861653679985063343int, 1226574202589878081217int, 12, 645229760600316655100int, 2153339527083372848360int);
    lemma_append(3044861653679985063343int, 1226574202589878081217int, 13, 2153339527083372848360int, 1539340971921964311497int);
    lemma_append(3044861653679985063343int, 1226574202589878081217int, 14, 1539340971921964311497int, 2688168618705657691817int);
    lemma_next_digit(3044861653679985063343int, 1226574202589878081217int, 4, 4, 341198723890840334616int, 2398515362709247697548int, 3035950799060962291337int, 2744820170323032994961int, 792509286126825840349int, 341198723890840334616int, 1951459131188638076062int);
    lemma_next_digit(3044861653679985063343int, 1226574202589878081217int, 68, 2, 1951459131188638076062int, 2981628263203664401888int, 5768446770395157919, 1974932947079960829012int, 1850871887978848016261int, 2996774486346271727255int, 2650395318556576908230int);
    lemma_next_digit(3044861653679985063343int, 1226574202589878081217int, 1090, 0, 2650395318556576908230int, 285755973339510901430int, 2649259237035743629426int, 2730644084643925382509int, 1908759634253199715033int, 1, 1908759634253199715033int);
    lemma_next_digit(3044861653679985063343int, 1226574202589878081217int, 17440, 12, 1908759634253199715033int, 1053391770648972631224int, 441137806512323788448int, 2902060502539577258172int, 1881906148443509523793int, 645229760600316655100int, 2447850955711860289960int);
    lemma_next_digit(3044861653679985063343int, 1226574202589878081217int, 279052, 14, 2447850955711860289960int, 2230706927316410622496int, 1172714229928344915351int, 286990280676534931539int, 2077474468024623583040int, 1539340971921964311497int, 2605094949693473753340int);
    lemma_next_digit(3044861653679985063343int, 1226574202589878081217int, 4464846, 15, 2605094949693473753340int, 691291663271718943472int, 2719198355024936634943int, 1107238410561355300611int, 1424772740317399346406int, 2688168618705657691817int, 2050054383229738235880int);
    lemma_next_digit(3044861653679985063343int, 1226574202589878081217int, 71437551, 14, 2050054383229738235880int, 2624018352998613565825int, 328805305998174225720int, 1727777965873151229508int, 2085128999055780613161int, 1539340971921964311497int, 1545538482443310609157int);
    lemma_next_digit(3044861653679985063343int, 1226574202589878081217int, 1143000830, 3, 1545538482443310609157int, 42399755858240618935int, 989931425420001567647int, 1988000694503611678, 2120003493829724073585int, 1445975879063982043840int, 1);
    lemma_next_digit(3044861653679985063343int, 1226574202589878081217int, 2, 1, 2996774486346271727255int, 341198723890840334616int, 2398515362709247697548int, 3035950799060962291337int, 2744820170323032994961int, 1226574202589878081217int, 1171200936511157249414int);
    lemma_next_digit(3044861653679985063343int, 1226574202589878081217int, 33, 10, 1171200936511157249414int, 1453168969700873899109int, 1995464775753073229258int, 1094994749450712661585int, 697184201254905154592int, 2693191061155306764191int, 770837681858407184857int);
    lemma_next_digit(3044861653679985063343int, 1226574202589878081217int, 538, 7, 770837681858407184857int, 2743934207504569651940int, 460065384626511603570int, 1715425195976566805281int, 196732858767133990539int, 2918319921199058781434int, 513374470070241389874int);
    lemma_next_digit(3044861653679985063343int, 1226574202589878081217int, 8615, 9, 513374470070241389874int, 15448777562921851565int, 1199136548565651486873int, 317508425303782413872int, 1844615271477935001396int, 2677264029804251664740int, 1024945230919412454123int);
    lemma_next_digit(3044861653679985063343int, 1226574202589878081217int, 2, 0, 2996774486346271727255int, 341198723890840334616int, 2398515362709247697548int, 3035950799060962291337int, 2744820170323032994961int, 1, 2744820170323032994961int);
    lemma_next_digit(3044861653679985063343int, 1226574202589878081217int, 32, 6, 2744820170323032994961int, 792509286126825840349int, 1996707897114122555674int, 2957437992117677620038int, 1876522444819388832290int, 61224812296387409404int, 2525779800681460338510int);
    lemma_next_digit(3044861653679985063343int, 1226574202589878081217int, 518, 3, 2525779800681460338510int, 78205595775678151920int, 539506609674440975959int, 3021471348495363104317int, 1622642738942888487487int, 1445975879063982043840int, 269341262051105525648int);
    lemma_next_digit(3044861653679985063343int, 1226574202589878081217int, 8291, 11, 269341262051105525648int, 1341193836798534950690int, 161257937445934601645int, 1987303717649386392633int, 2337705438374346816734int, 1882702072614910021380int, 2698095051855333426111int);
    lemma_divisors_exceed_product(3044861653679985063343int, 1226574202589878081217int, 2641809638318597396287int, 1377102493580837955588int, 137849, 132667, 1024945230919412454123int, 2698095051855333426111int);
}

/// The second link.
proof fn lemma_second_link()
    ensures
        modular::no_divisor_up_to(198211423230930754013084525763697int, 4294967296),
{
    lemma_first_link();
    lemma_pow0(75003846807402791567026918316104int);
    lemma_append(198211423230930754013084525763697int, 75003846807402791567026918316104int, 0, 1, 75003846807402791567026918316104int);
    lemma_append(198211423230930754013084525763697int, 75003846807402791567026918316104int, 1, 75003846807402791567026918316104int, 138006541601974402329941156162090int);
    lemma_append(198211423230930754013084525763697int, 75003846807402791567026918316104int, 2, 138006541601974402329941156162090int, 128319190898631382874117906291086int);
    lemma_append(198211423230930754013084525763697int, 75003846807402791567026918316104int, 3, 128319190898631382874117906291086int, 42010300743474315070982571549692int);
    lemma_append(198211423230930754013084525763697int, 75003846807402791567026918316104int, 4, 42010300743474315070982571549692int, 59856671939410864652014267667497int);
    lemma_append(198211423230930754013084525763697int, 75003846807402791567026918316104int, 5, 59856671939410864652014267667497int, 53440170872773412139553816899102int);
    lemma_append(198211423230930754013084525763697int, 75003846807402791567026918316104int, 6, 53440170872773412139553816899102int, 44343931216350689882916996458916int);
    lemma_append(198211423230930754013084525763697int, 75003846807402791567026918316104int, 7, 44343931216350689882916996458916int, 108317042845064588945876085884895int);
    lemma_append(198211423230930754013084525763697int, 75003846807402791567026918316104int, 8, 108317042845064588945876085884895int, 38211084889116114749660543583953int);
    lemma_append(198211423230930754013084525763697int, 75003846807402791567026918316104int, 9, 38211084889116114749660543583953int, 17564332786387597181235764217875int);
    lemma_append(198211423230930754013084525763697int, 75003846807402791567026918316104int, 10, 17564332786387597181235764217875int, 167043981844084012363416918730598int);
    lemma_append(198211423230930754013084525763697int, 75003846807402791567026918316104int, 11, 167043981844084012363416918730598int, 173315729407669611162885938563921int);
    lemma_append(198211423230930754013084525763697int, 75003846807402791567026918316104int, 12, 173315729407669611162885938563921int, 188762519194751888786654662424458int);
    lemma_append(198211423230930754013084525763697int, 75003846807402791567026918316104int, 13, 188762519194751888786654662424458int, 154609782782020252795122629811643int);
    lemma_append(198211423230930754013084525763697int, 75003846807402791567026918316104int, 14, 154609782782020252795122629811643int, 137038557103425958219441438586213int);
    lemma_next_digit(198211423230930754013084525763697int, 75003846807402791567026918316104int, 10, 5, 17564332786387597181235764217875int, 153163065425509456480333785786144int, 126587588096539545011958354737549int, 97960738435602844423834689208384int, 37727842958466177877017943275538int, 59856671939410864652014267667497int, 25714966454991613476841064758200int);
    lemma_next_digit(198211423230930754013084525763697int, 75003846807402791567026918316104int, 165, 0, 25714966454991613476841064758200int, 169010027532841543848797699773244int, 70117203766393941516321290685333int, 95911751009572669646252584235037int, 108201587049663939466172774002112int, 1, 108201587049663939466172774002112int);
    lemma_next_digit(198211423230930754013084525763697int, 75003846807402791567026918316104int, 2640, 15, 108201587049663939466172774002112int, 17671629236701310967181575875392int, 35888585350260401032763682832047int, 162580783028794557638704519882409int, 106163818781450713937859182803511int, 137038557103425958219441438586213int, 68439315126994640476076479284043int);
    lemma_next_digit(198211423230930754013084525763697int, 75003846807402791567026918316104int, 42255, 15, 68439315126994640476076479284043int, 118654747904795503874004092133290int, 163390891114112469534833139204255int, 72926768411120515773299048907730int, 186361517258942637600293805425055int, 137038557103425958219441438586213int, 1799653879885504737797776125679int);
    lemma_next_digit(198211423230930754013084525763697int, 75003846807402791567026918316104int, 676095, 1, 1799653879885504737797776125679int, 124710517209589665787250628215705int, 196615296753554505394763524336078int, 137565069762578101024281378875629int, 158888163793628384970633406002564int, 75003846807402791567026918316104int, 138866940310385988359692318559381int);
    lemma_next_digit(198211423230930754013084525763697int, 75003846807402791567026918316104int, 10817521, 10, 138866940310385988359692318559381int, 26866085003576742138119643187900int, 5587579537411433441993362922780int, 144819769696304428005476973331766int, 17652652917819028616057104569575int, 17564332786387597181235764217875int, 15504326109869902608954939315168int);
    lemma_next_digit(198211423230930754013084525763697int, 75003846807402791567026918316104int, 173080346, 5, 15504326109869902608954939315168int, 17532453414939003148435101503580int, 176352807917288162296560798599211int, 18874839370300460773069095554470int, 113520746623148334507005053087192int, 59856671939410864652014267667497int, 117264198839134100258594907620027int);
    lemma_next_digit(198211423230930754013084525763697int, 75003846807402791567026918316104int, 2769285541, 10, 117264198839134100258594907620027int, 75227214273911673020147049853315int, 177880485334180849967798760906042int, 114035274202090494475115178657056int, 143393952994411723043663424300536int, 17564332786387597181235764217875int, 106064030178330387777467767934264int);
    lemma_next_digit(198211423230930754013084525763697int, 75003846807402791567026918316104int, 44308568666, 7, 106064030178330387777467767934264int, 172998920548143347414931247920736int, 155002636755009579774078097159291int, 162405375305438318921270851277137int, 155389106663769916370386786502174int, 44343931216350689882916996458916int, 58115213607695974529374316855847int);
    lemma_next_digit(198211423230930754013084525763697int, 75003846807402791567026918316104int, 708937098663, 4, 58115213607695974529374316855847int, 87848269930138225786520649296887int, 190206744155128875574295291841665int, 22462271420878367476171486819541int, 24280202391150634789977597494275int, 42010300743474315070982571549692int, 97564224262219944889717193174419int);
    lemma_next_digit(198211423230930754013084525763697int, 75003846807402791567026918316104int, 11342993578612, 11, 97564224262219944889717193174419int, 53198080582075226443855416871973int, 53604319462628673609910747723086int, 22810635807253018131384086648960int, 157938260507824092149778330324233int, 167043981844084012363416918730598int, 178896098423157281861420383382101int);
    lemma_next_digit(198211423230930754013084525763697int, 75003846807402791567026918316104int, 181487897257803, 15, 178896098423157281861420383382101int, 76149399117612072501435546587950int, 129398463711012196307257605374092int, 86068479383051406825605487758360int, 89954946245268135387579694370655int, 137038557103425958219441438586213int, 79769723295390299666806663483116int);
    lemma_next_digit(198211423230930754013084525763697int, 75003846807402791567026918316104int, 2903806356124863, 10, 79769723295390299666806663483116int, 23831098248752612828631586939310int, 161465024561371471953181286723777int, 149971270798713642953519735465824int, 182628196548172315472624616570418int, 17564332786387597181235764217875int, 15997055683431946247383504892983int);
    lemma_next_digit(198211423230930754013084525763697int, 75003846807402791567026918316104int, 46460901697997818, 15, 15997055683431946247383504892983int, 133813979112585623029502102134489int, 72211058739431037734188344891395int, 12302994034399697626722077310804int, 137210421968365474269750145374679int, 137038557103425958219441438586213int, 91575798278133702296168025166532int);
    lemma_next_digit(198211423230930754013084525763697int, 75003846807402791567026918316104int, 743374427167965103, 5, 91575798278133702296168025166532int, 32971454002124057285286580624230int, 159513114046201549135560003460661int, 179074258246138782490767060396383int, 155253742339877283037908198454831int, 59856671939410864652014267667497int, 106703938388114209495469454349039int);
    lemma_next_digit(198211423230930754013084525763697int, 75003846807402791567026918316104int, 11893990834687441653nat, 10, 106703938388114209495469454349039int, 83819266074878530109888815084880int, 176757691820927454860621114701164int, 69225972510083146982821678879805int, 158708621197353150427709220563787int, 17564332786387597181235764217875int, 76244225774889929978086944766267int);
    lemma_next_digit(198211423230930754013084525763697int, 75003846807402791567026918316104int, 190303853354999066458nat, 15, 76244225774889929978086944766267int, 74793190022937428192304178400595int, 63533786714360953409688022271821int, 152221533428825961262208411854989int, 55744320131571487464150772230964int, 137038557103425958219441438586213int, 1);
    lemma_divisors_exceed(198211423230930754013084525763697int, 75003846807402791567026918316104int, 169495726156219349589498880139957int, 3044861653679985063343int, 4294967296);
}

/// The group order has no divisor up to 2^32.
pub proof fn lemma_group_order_has_no_small_divisor()
    ensures
        modular::no_divisor_up_to(group_order(), 4294967296),
{
    reveal(group_order);
    lemma_second_link();
    lemma_pow0(7119675135705137915307919240607293966034195415655343409829245710729128040338int);
    lemma_append(7237005577332262213973186563042994240857116359379907606001950938285454250989int, 7119675135705137915307919240607293966034195415655343409829245710729128040338int, 0, 1, 7119675135705137915307919240607293966034195415655343409829245710729128040338int);
    lemma_append(7237005577332262213973186563042994240857116359379907606001950938285454250989int, 7119675135705137915307919240607293966034195415655343409829245710729128040338int, 1, 7119675135705137915307919240607293966034195415655343409829245710729128040338int, 4769384033213460952977478479086888567786442542720064329334593931134043936929int);
    lemma_append(7237005577332262213973186563042994240857116359379907606001950938285454250989int, 7119675135705137915307919240607293966034195415655343409829245710729128040338int, 2, 4769384033213460952977478479086888567786442542720064329334593931134043936929int, 6739738359732941885870228190834991664041679450774867521280679713053393958431int);
    lemma_append(7237005577332262213973186563042994240857116359379907606001950938285454250989int, 7119675135705137915307919240607293966034195415655343409829245710729128040338int, 3, 6739738359732941885870228190834991664041679450774867521280679713053393958431int, 3347425792340793335885656731670775528251373827691484805656768860974431180203int);
    lemma_append(7237005577332262213973186563042994240857116359379907606001950938285454250989int, 7119675135705137915307919240607293966034195415655343409829245710729128040338int, 4, 3347425792340793335885656731670775528251373827691484805656768860974431180203int, 4167718814566105965534991764356001408716617084741503029832996783249351032531int);
    lemma_append(7237005577332262213973186563042994240857116359379907606001950938285454250989int, 7119675135705137915307919240607293966034195415655343409829245710729128040338int, 5, 4167718814566105965534991764356001408716617084741503029832996783249351032531int, 1159038520257650430381256442031990062755719184265485400884751010793055923014int);
    lemma_append(7237005577332262213973186563042994240857116359379907606001950938285454250989int, 7119675135705137915307919240607293966034195415655343409829245710729128040338int, 6, 1159038520257650430381256442031990062755719184265485400884751010793055923014int, 2926397151107088050746248380688794577979822238405171885107672989374586968238int);
    lemma_append(7237005577332262213973186563042994240857116359379907606001950938285454250989int, 7119675135705137915307919240607293966034195415655343409829245710729128040338int, 7, 2926397151107088050746248380688794577979822238405171885107672989374586968238int, 6674078676236838489759186688718950433586934304184054454819174340886061430038int);
    lemma_append(7237005577332262213973186563042994240857116359379907606001950938285454250989int, 7119675135705137915307919240607293966034195415655343409829245710729128040338int, 8, 6674078676236838489759186688718950433586934304184054454819174340886061430038int, 5438132401395228006433835586058152734249891425258954583853284297741042819110int);
    lemma_append(7237005577332262213973186563042994240857116359379907606001950938285454250989int, 7119675135705137915307919240607293966034195415655343409829245710729128040338int, 9, 5438132401395228006433835586058152734249891425258954583853284297741042819110int, 1501979380547033616034196643689332130993158656507334162412195223167655182945int);
    lemma_append(7237005577332262213973186563042994240857116359379907606001950938285454250989int, 7119675135705137915307919240607293966034195415655343409829245710729128040338int, 10, 1501979380547033616034196643689332130993158656507334162412195223167655182945int, 5774776217055475080263854629104268888327980121947660754609286504942293277582int);
    lemma_append(7237005577332262213973186563042994240857116359379907606001950938285454250989int, 7119675135705137915307919240607293966034195415655343409829245710729128040338int, 11, 5774776217055475080263854629104268888327980121947660754609286504942293277582int, 3372858482831934605497706538021875715592423835655295235399277987464903864071int);
    lemma_append(7237005577332262213973186563042994240857116359379907606001950938285454250989int, 7119675135705137915307919240607293966034195415655343409829245710729128040338int, 12, 3372858482831934605497706538021875715592423835655295235399277987464903864071int, 3497504266288033938386004393015543713858222636896253683127422194774697947332int);
    lemma_append(7237005577332262213973186563042994240857116359379907606001950938285454250989int, 7119675135705137915307919240607293966034195415655343409829245710729128040338int, 13, 3497504266288033938386004393015543713858222636896253683127422194774697947332int, 6514284236062027972703847789069625649350362660509997741204154244771305918365int);
    lemma_append(7237005577332262213973186563042994240857116359379907606001950938285454250989int, 7119675135705137915307919240607293966034195415655343409829245710729128040338int, 14, 6514284236062027972703847789069625649350362660509997741204154244771305918365int, 608833469075538240460935514036308985146852723348982832359607529988335224168int);
    lemma_next_digit(7237005577332262213973186563042994240857116359379907606001950938285454250989int, 7119675135705137915307919240607293966034195415655343409829245710729128040338int, 9, 12, 5438132401395228006433835586058152734249891425258954583853284297741042819110int, 866786281244929351357894399722094508418283350483682010958884929088744564999int, 4022164871354296341738782188656296462591897957569196659857142797210619978927int, 5518681917217869465846826385358269632800588641220269056191180606142246471504int, 6325056084054059552684934359175575901244261329959615773697870846244811584071int, 3372858482831934605497706538021875715592423835655295235399277987464903864071int, 3456387295777909250813691443315231667027254813012423573216446198163101583882int);
    lemma_next_digit(7237005577332262213973186563042994240857116359379907606001950938285454250989int, 7119675135705137915307919240607293966034195415655343409829245710729128040338int, 156, 5, 3456387295777909250813691443315231667027254813012423573216446198163101583882int, 5951270471063971613872730364137363380159598488654605936508896774117035197008int, 4159250217805583584832742967106405956965324198330336065136094614442313420663int, 7219961685506102085305975299000945677379919826122716957414229572678439316562int, 4141435101384886616908179167830977888182299625027492599083241036002507791467int, 4167718814566105965534991764356001408716617084741503029832996783249351032531int, 526579082026110095191952289780196535973561001034977353765759061708519307349int);
    lemma_next_digit(7237005577332262213973186563042994240857116359379907606001950938285454250989int, 7119675135705137915307919240607293966034195415655343409829245710729128040338int, 2501, 12, 526579082026110095191952289780196535973561001034977353765759061708519307349int, 3415890057913396252249605641346428944404688635133898475873398258106847667655int, 7220993679340373065379909691824030459741816017839225470045481377683370418069int, 4027265603865178102956934601630020386402163920337442613482002926131227483788int, 2112886097567549308424354364886018113224748587449703868501451957850576314746int, 3372858482831934605497706538021875715592423835655295235399277987464903864071int, 219811776776983531944762714193498907347153371408342442560241145182555828329int);
    lemma_next_digit(7237005577332262213973186563042994240857116359379907606001950938285454250989int, 7119675135705137915307919240607293966034195415655343409829245710729128040338int, 40028, 7, 219811776776983531944762714193498907347153371408342442560241145182555828329int, 2177950371196894379188624397332988987934399241953429762354415491263794126733int, 1490285209056716798079510398353032497020051425734326577265560126437533101229int, 664352462664433092815439329249184559311255662181188799361716744513777185731int, 1590372615623791132640693797260673109519927365151730409569486155982335698389int, 2926397151107088050746248380688794577979822238405171885107672989374586968238int, 3905074259594383636150707771896810588117846252928154846196167596941794084717int);
    lemma_next_digit(7237005577332262213973186563042994240857116359379907606001950938285454250989int, 7119675135705137915307919240607293966034195415655343409829245710729128040338int, 640455, 10, 3905074259594383636150707771896810588117846252928154846196167596941794084717int, 5257450335266529033135252012611365597127946562071925148685849467261958942357int, 5060037382655952800515673853276247355621001751406876567109867014640261634424int, 6615325372259380956300635258001073747252344674709538988907957060505041057069int, 501170540519423783767116690364144249193076570228244055872781162786818298916int, 1501979380547033616034196643689332130993158656507334162412195223167655182945int, 5601340252155044114015397765232861566396804040237781751962671353471422279519int);
    lemma_next_digit(7237005577332262213973186563042994240857116359379907606001950938285454250989int, 7119675135705137915307919240607293966034195415655343409829245710729128040338int, 10247290, 6, 5601340252155044114015397765232861566396804040237781751962671353471422279519int, 6127710369440353994632179262689948086422775149244827465695632959777049574790int, 4132558706964648548858935869740756892562431998344167662453394206125842630385int, 3805745502136362838793591072741678130947159079060009050165383956693244958600int, 3265770016990252119978435591135019574862966106502552930383181293899053625020int, 1159038520257650430381256442031990062755719184265485400884751010793055923014int, 5443794370428987588430297881811258367916061520053459806240161333582295153200int);
    lemma_next_digit(7237005577332262213973186563042994240857116359379907606001950938285454250989int, 7119675135705137915307919240607293966034195415655343409829245710729128040338int, 163956646, 7, 5443794370428987588430297881811258367916061520053459806240161333582295153200int, 1468661498901347693323840761118391081809537104940560244103066480510290412210int, 5815041555232332197198987853461623224002569649059811522911246010296300099345int, 3533769043703695630210376572618532759571457911557120943328762783248210081079int, 4297651428937545093767719792942949856338881174821352484378955436246754447904int, 2926397151107088050746248380688794577979822238405171885107672989374586968238int, 3278081932724172274870144130950535748626422688397972695559757184587070866938int);
    lemma_next_digit(7237005577332262213973186563042994240857116359379907606001950938285454250989int, 7119675135705137915307919240607293966034195415655343409829245710729128040338int, 2623306343, 11, 3278081932724172274870144130950535748626422688397972695559757184587070866938int, 4541636199983640283371477884353473681898800157918021242490041329118639753945int, 521729590473075176286412790346894520146495235395242215916429443172037019102int, 2714962597562913401707547509977701453999648282096337047771766954937529412426int, 1238970666024282755408113235853058723906959657658468830130655681673930387612int, 5774776217055475080263854629104268888327980121947660754609286504942293277582int, 119000870281150885430384265901811994189874608003359814646365531497485934594int);
    lemma_next_digit(7237005577332262213973186563042994240857116359379907606001950938285454250989int, 7119675135705137915307919240607293966034195415655343409829245710729128040338int, 41972901499, 11, 119000870281150885430384265901811994189874608003359814646365531497485934594int, 1319351204468747027218923909959935522441929443245385186038130022069748581618int, 3701773224645117298871349274854282567347019610766454133107313513684215325325int, 5602456241934600519785647737466192189346263823821694985739405471311788438916int, 3861481265185521109103376648920726197403340892864971501990677928354086286491int, 5774776217055475080263854629104268888327980121947660754609286504942293277582int, 3815768338107401628898491233999919901824615884848324839396108977295659516384int);
    lemma_next_digit(7237005577332262213973186563042994240857116359379907606001950938285454250989int, 7119675135705137915307919240607293966034195415655343409829245710729128040338int, 671566423995, 0, 3815768338107401628898491233999919901824615884848324839396108977295659516384int, 758751532946749075831216850804615226443998448572519187924522311495935069257int, 6683368050113259232484719465970168692755156479948984151364340614009925972059int, 284100072013741432621522504536784254996799756491929648881896296621481694264int, 3478625624687004862069436201862692801945600838809015147953504566458024101471int, 1, 3478625624687004862069436201862692801945600838809015147953504566458024101471int);
    lemma_next_digit(7237005577332262213973186563042994240857116359379907606001950938285454250989int, 7119675135705137915307919240607293966034195415655343409829245710729128040338int, 10745062783920, 15, 3478625624687004862069436201862692801945600838809015147953504566458024101471int, 676304274222752419974043277513733748873905121246693078511264131909809648357int, 2202639633053049931624086885419408788696554887237283328672617844772087233376int, 407181405534715289562205117006076775047269967348768250314371243948915795137int, 6486251526070296315223437365569073568165803174087688157887120361736520468755int, 608833469075538240460935514036308985146852723348982832359607529988335224168int, 4992861845800525011948262299437774285513031883486709188036435205070501810895int);
    lemma_next_digit(7237005577332262213973186563042994240857116359379907606001950938285454250989int, 7119675135705137915307919240607293966034195415655343409829245710729128040338int, 171921004542735, 1, 4992861845800525011948262299437774285513031883486709188036435205070501810895int, 1523982688176910757010304822927111562051942511957643611118139097765160283408int, 3752601848571102702400304240617561107407378504874693691098508226398790833804int, 243829140858152707915880209423265631450131269614433783044543407040745804998int, 5845649150711387294951361396833115369955449819561133630254469209829484859int, 7119675135705137915307919240607293966034195415655343409829245710729128040338int, 2965569161716082633863870639693610678772668585838159387846066696476622513860int);
    lemma_next_digit(7237005577332262213973186563042994240857116359379907606001950938285454250989int, 7119675135705137915307919240607293966034195415655343409829245710729128040338int, 2750736072683761, 15, 2965569161716082633863870639693610678772668585838159387846066696476622513860int, 2171251015942358011014695078132366221989852112918245086893272421285031034251int, 7202184106773045360805174609594048426570546264086381414533845443543114019181int, 4727476513720157235900458650316724544178419150717110876020597276990220473217int, 4806962682800368556784755603967605882577992248809044729138944029503896069769int, 608833469075538240460935514036308985146852723348982832359607529988335224168int, 5339376496742162136969494930502190124950036049423002617116958890844463293111int);
    lemma_next_digit(7237005577332262213973186563042994240857116359379907606001950938285454250989int, 7119675135705137915307919240607293966034195415655343409829245710729128040338int, 44011777162940191, 14, 5339376496742162136969494930502190124950036049423002617116958890844463293111int, 4612178698425378214462347582484716003590659750004571355835541759343745595341int, 1312602712884752749359355552709119204764973753387145707385465768527913067049int, 5447525966612853782641405449044062856500129836027613936517152576042514846141int, 6611074300456217100134985276742126679015321056302223191540907264154368826654int, 6514284236062027972703847789069625649350362660509997741204154244771305918365int, 6616475249650634395850912656412430454901075464880675564992296092370844104125int);
    lemma_next_digit(7237005577332262213973186563042994240857116359379907606001950938285454250989int, 7119675135705137915307919240607293966034195415655343409829245710729128040338int, 704188434607043070, 15, 6616475249650634395850912656412430454901075464880675564992296092370844104125int, 311799410832990173685867574428596892583979718516122445952124682393486982269int, 4225619827754623250404606672756476409698706536485678371897713106519166439434int, 3794305126281666261673075392379840949732758292547930953059316436558633510707int, 3940864574887125465456236254778029097671274060881429055692710265114873312806int, 608833469075538240460935514036308985146852723348982832359607529988335224168int, 1797251007088597189201143840898302272192635554145066491608327863360854254084int);
    lemma_next_digit(7237005577332262213973186563042994240857116359379907606001950938285454250989int, 7119675135705137915307919240607293966034195415655343409829245710729128040338int, 11267014953712689135nat, 5, 1797251007088597189201143840898302272192635554145066491608327863360854254084int, 5099929121803717477982481013271350481345698896785198971822152830083845163959int, 2085257965209898823619672412193255749238156595731587345564699992008001367884int, 2674223875534331779098309326346730195987433522767738904260394699983256765750int, 5610395597387405934553241075313100040662280085736026284258295950608222690234int, 4167718814566105965534991764356001408716617084741503029832996783249351032531int, 6415648491782802568369568355351654139053967206852087910534988232647292785233int);
    lemma_next_digit(7237005577332262213973186563042994240857116359379907606001950938285454250989int, 7119675135705137915307919240607293966034195415655343409829245710729128040338int, 180272239259403026165nat, 5, 6415648491782802568369568355351654139053967206852087910534988232647292785233int, 3321468156065706412477916978102747643360506984579815832358045619203807195036int, 6000087846037210861492972711950691020495167311926004192516428215394555795445int, 2916495881786343135581174223618538710426037313492979552135289633832993456026int, 4888596420181288640056393398308845354756214418314159068330085557082853288753int, 4167718814566105965534991764356001408716617084741503029832996783249351032531int, 4338847937610518979198869471832255709665347990331241666715930624985595298283int);
    lemma_next_digit(7237005577332262213973186563042994240857116359379907606001950938285454250989int, 7119675135705137915307919240607293966034195415655343409829245710729128040338int, 2884355828150448418645nat, 9, 4338847937610518979198869471832255709665347990331241666715930624985595298283int, 5603126076250867017790329073318510449982720701813196053935226029923545550524int, 4275508790559250606863196546095676481090643423715424498375554829107948822899int, 2795840955871862733864972863705985710061858576461403093358175450035003728548int, 4341770313316083361888393182632258821063661803085767023324463786016149971353int, 5438132401395228006433835586058152734249891425258954583853284297741042819110int, 1645195015264634947581520576340215988842232776284566127418703329304311802372int);
    lemma_next_digit(7237005577332262213973186563042994240857116359379907606001950938285454250989int, 7119675135705137915307919240607293966034195415655343409829245710729128040338int, 46149693250407174698329nat, 10, 1645195015264634947581520576340215988842232776284566127418703329304311802372int, 1870166661264789032491927707506650046506382326745847869759527321744249222865int, 50008365095679965653219633411631810437005038876100210984698430583177414438int, 3737686481529960497742438194278762572123409195493781078233106845313497447173int, 1547351694338476460949887482337764945095029669639392547063246347704323001632int, 1501979380547033616034196643689332130993158656507334162412195223167655182945int, 2036467589244319528026545690246188596616771574227474372523072071183822337908int);
    lemma_next_digit(7237005577332262213973186563042994240857116359379907606001950938285454250989int, 7119675135705137915307919240607293966034195415655343409829245710729128040338int, 738395092006514795173274nat, 7, 2036467589244319528026545690246188596616771574227474372523072071183822337908int, 4233887227930010505371130389778687363998167956171955449913452265273017004157int, 3818988246861464654747501678320397811986591357135214472617899566226076222724int, 2552734457623285667896309921707829462091642467267696563777515002596654814089int, 6737923013114959998415069603378875310127431995097126077561145652643361975092int, 2926397151107088050746248380688794577979822238405171885107672989374586968238int, 539866923918092133668805885364598100951571915053249644313890170117653638144int);
    lemma_next_digit(7237005577332262213973186563042994240857116359379907606001950938285454250989int, 7119675135705137915307919240607293966034195415655343409829245710729128040338int, 11814321472104236722772391nat, 2, 539866923918092133668805885364598100951571915053249644313890170117653638144int, 6375667665286811081172182029429449418071548831081100052040416134915608531114int, 4168014055387239714490607642883281214573336326648131570407686509591774284664int, 4712679622157687948138753889961587946202433030153427600851316542061989846051int, 6225964890736871181212274703645668914794508204184829056806770975168030015626int, 4769384033213460952977478479086888567786442542720064329334593931134043936929int, 4964534036655816574962730185231502559180871238387756630313243588834123532069int);
    lemma_next_digit(7237005577332262213973186563042994240857116359379907606001950938285454250989int, 7119675135705137915307919240607293966034195415655343409829245710729128040338int, 189029143553667787564358258nat, 15, 4964534036655816574962730185231502559180871238387756630313243588834123532069int, 3849540350903567466872504076254706623264998984126594468160893811900255363920int, 5049132751861254057743226976918253585805162545559281257787577280033360000889int, 1840635679401359203630859673238991189871474644553320695692641279484182700372int, 4717446921327093201312664446829875093706353918759458684565334098502077222832int, 608833469075538240460935514036308985146852723348982832359607529988335224168int, 5350818026773674286123586492796006679481098228396652948351829615269836967554int);
    lemma_next_digit(7237005577332262213973186563042994240857116359379907606001950938285454250989int, 7119675135705137915307919240607293966034195415655343409829245710729128040338int, 3024466296858684601029732143nat, 9, 5350818026773674286123586492796006679481098228396652948351829615269836967554int, 4824084798499652565624236223131701006314999543654690893580876050291185325382int, 5105685024078947571910485778950754704272790689114511480334944042804869827262int, 1306360073577726971971769072013741407745469127014178405101820217591082839631int, 5492707756303905630837494810841856849363130800952911293842205936595682519060int, 5438132401395228006433835586058152734249891425258954583853284297741042819110int, 5980703075147176986026096117355967067471039694319076231994118468549124140410int);
    lemma_next_digit(7237005577332262213973186563042994240857116359379907606001950938285454250989int, 7119675135705137915307919240607293966034195415655343409829245710729128040338int, 48391460749738953616475714297nat, 12, 5980703075147176986026096117355967067471039694319076231994118468549124140410int, 588329452544503866612781422094429696186929041816169716945814719936474610214int, 6668912741786129288359729404713685922538695822165278904240796271892254290628int, 618557522528079012151229325054002326547637762763304737449488107849266854860int, 1252502993316566307934750576124928631510731587271398111265464764947200832838int, 3372858482831934605497706538021875715592423835655295235399277987464903864071int, 6577081439050700942378018103268495249822871519098092806582967923836428184439int);
    lemma_next_digit(7237005577332262213973186563042994240857116359379907606001950938285454250989int, 7119675135705137915307919240607293966034195415655343409829245710729128040338int, 774263371995823257863611428764nat, 7, 6577081439050700942378018103268495249822871519098092806582967923836428184439int, 1870569503346589054880038962585658955391342235455027878532121140303255842965int, 6175726926772374502397592532620318186062419162842441531589790046819478934339int, 1461895456464577004872907410489841901729406153005189018408467354458333537142int, 1263699263918063935159752174763764881891005582840624647509502427122114706997int, 2926397151107088050746248380688794577979822238405171885107672989374586968238int, 4029353683292375211828611985551793157483872441484394912003470811257035189762int);
    lemma_next_digit(7237005577332262213973186563042994240857116359379907606001950938285454250989int, 7119675135705137915307919240607293966034195415655343409829245710729128040338int, 12388213951933172125817782860231nat, 1, 4029353683292375211828611985551793157483872441484394912003470811257035189762int, 7173124474520152181251053313381459207621062525384685239136340941796217808608int, 5407801830463911514757486516785193835785069601331172658422248227523758890559int, 6668312358101261652981519175825462109429109718494766689797824463599805291877int, 1713319669185080212618649685083472119390956828566390291642368029004481886498int, 7119675135705137915307919240607293966034195415655343409829245710729128040338int, 1);
    lemma_divisors_exceed(7237005577332262213973186563042994240857116359379907606001950938285454250989int, 7119675135705137915307919240607293966034195415655343409829245710729128040338int, 3663666293333349802734767330125554452563267030289603873756643401999244928315int, 198211423230930754013084525763697int, 4294967296);
}

} // verus!
