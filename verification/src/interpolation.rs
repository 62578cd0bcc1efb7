//! Polynomials with integer coefficients and Lagrange interpolation at zero, modulo an
//! integer for which the differences of the interpolation points are invertible.

use crate::modular;
use vstd::arithmetic::div_mod::*;
use vstd::arithmetic::mul::*;
use vstd::arithmetic::power::*;
use vstd::prelude::*;

verus! {

/// The sum of a sequence of integers.
pub open spec fn sum(s: Seq<int>) -> int
    decreases s.len(),
{
    if s.len() == 0 {
        0
    } else {
        sum(s.drop_last()) + s.last()
    }
}

/// Sums of congruent integers, one by one, are congruent.
pub proof fn lemma_sum_congruent(a: Seq<int>, b: Seq<int>, n: int)
    requires
        n > 0,
        a.len() == b.len(),
        forall|k: int| 0 <= k < a.len() ==> modular::congruent(#[trigger] a[k], b[k], n),
    ensures
        modular::congruent(sum(a), sum(b), n),
    decreases a.len(),
{
    if a.len() > 0 {
        assert forall|k: int| 0 <= k < a.drop_last().len() implies modular::congruent(
            #[trigger] a.drop_last()[k],
            b.drop_last()[k],
            n,
        ) by {
            assert(modular::congruent(a[k], b[k], n));
        }
        lemma_sum_congruent(a.drop_last(), b.drop_last(), n);
        assert(modular::congruent(a[a.len() - 1], b[a.len() - 1], n));
        modular::lemma_add_congruent(
            sum(a.drop_last()),
            sum(b.drop_last()),
            a.last(),
            b.last(),
            n,
        );
    }
}

/// The sum of `a[k] + f * b[k]`.
pub proof fn lemma_sum_linear(a: Seq<int>, b: Seq<int>, f: int)
    requires
        a.len() == b.len(),
    ensures
        sum(Seq::new(a.len(), |k: int| a[k] + f * b[k])) == sum(a) + f * sum(b),
    decreases a.len(),
{
    let s = Seq::new(a.len(), |k: int| a[k] + f * b[k]);
    if a.len() > 0 {
        let x = a.drop_last();
        let y = b.drop_last();
        lemma_sum_linear(x, y, f);
        assert(s.drop_last() =~= Seq::new(x.len(), |k: int| x[k] + f * y[k]));
        lemma_mul_is_distributive_add(f, sum(y), b.last());
    } else {
        assert(f * 0 == 0);
    }
}

/// The value at `x` of the polynomial with the coefficients `c`: the sum of `c[k] * x^k`.
pub open spec fn poly_value(c: Seq<int>, x: int) -> int
    decreases c.len(),
{
    if c.len() == 0 {
        0
    } else {
        poly_value(c.drop_last(), x) + c.last() * pow(x, (c.len() - 1) as nat)
    }
}

/// The coefficients of the sum of two polynomials.
pub open spec fn poly_sum(c: Seq<int>, d: Seq<int>) -> Seq<int> {
    Seq::new(
        if c.len() >= d.len() {
            c.len()
        } else {
            d.len()
        },
        |k: int|
            (if k < c.len() {
                c[k]
            } else {
                0
            }) + (if k < d.len() {
                d[k]
            } else {
                0
            }),
    )
}

/// The first coefficient is the value at zero.
pub proof fn lemma_value_at_zero(c: Seq<int>)
    ensures
        poly_value(c, 0) == (if c.len() == 0 {
            0
        } else {
            c[0]
        }),
    decreases c.len(),
{
    if c.len() > 0 {
        lemma_value_at_zero(c.drop_last());
        if c.len() == 1 {
            lemma_pow0(0);
        } else {
            lemma0_pow((c.len() - 1) as nat);
        }
    }
}

/// Splits off the first coefficient.
pub proof fn lemma_value_from_first(c: Seq<int>, x: int)
    requires
        c.len() > 0,
    ensures
        poly_value(c, x) == c[0] + x * poly_value(c.drop_first(), x),
    decreases c.len(),
{
    let h = c.drop_first();
    if c.len() == 1 {
        lemma_pow0(x);
        assert(poly_value(c.drop_last(), x) == 0);
        assert(poly_value(h, x) == 0);
    } else {
        lemma_value_from_first(c.drop_last(), x);
        assert(c.drop_last().drop_first() =~= h.drop_last());
        let e = (c.len() - 2) as nat;
        lemma_pow1(x);
        lemma_pow_adds(x, 1, e);
        let p = poly_value(h.drop_last(), x);
        let w = pow(x, e);
        let l = c.last();
        assert(x * (p + l * w) == x * p + l * (x * w)) by (nonlinear_arith);
    }
}

/// The value of a sum is the sum of the values.
pub proof fn lemma_poly_sum_value(c: Seq<int>, d: Seq<int>, x: int)
    ensures
        poly_value(poly_sum(c, d), x) == poly_value(c, x) + poly_value(d, x),
    decreases c.len() + d.len(),
{
    let s = poly_sum(c, d);
    if s.len() == 0 {
    } else if c.len() == 0 {
        assert(s =~= d);
    } else if d.len() == 0 {
        assert(s =~= c);
    } else {
        lemma_value_from_first(s, x);
        lemma_value_from_first(c, x);
        lemma_value_from_first(d, x);
        assert(s.drop_first() =~= poly_sum(c.drop_first(), d.drop_first()));
        lemma_poly_sum_value(c.drop_first(), d.drop_first(), x);
        lemma_mul_is_distributive_add(
            x,
            poly_value(c.drop_first(), x),
            poly_value(d.drop_first(), x),
        );
    }
}

/// The coefficients of the sum of polynomials.
pub open spec fn poly_total(ps: Seq<Seq<int>>) -> Seq<int>
    decreases ps.len(),
{
    if ps.len() == 0 {
        Seq::empty()
    } else {
        poly_sum(poly_total(ps.drop_last()), ps.last())
    }
}

/// The sum of polynomials has as many coefficients as its longest summand.
pub proof fn lemma_poly_total_len(ps: Seq<Seq<int>>, t: nat)
    requires
        ps.len() > 0,
        forall|k: int| 0 <= k < ps.len() ==> (#[trigger] ps[k]).len() == t,
    ensures
        poly_total(ps).len() == t,
    decreases ps.len(),
{
    assert(ps[ps.len() - 1].len() == t);
    if ps.len() > 1 {
        assert forall|k: int| 0 <= k < ps.drop_last().len() implies (
        #[trigger] ps.drop_last()[k]).len() == t by {
            assert(ps[k].len() == t);
        }
        lemma_poly_total_len(ps.drop_last(), t);
    } else {
        assert(poly_total(ps.drop_last()).len() == 0);
    }
}

/// The coefficients of a polynomial times a factor.
spec fn scaled(c: Seq<int>, f: int) -> Seq<int> {
    Seq::new(c.len(), |k: int| f * c[k])
}

proof fn lemma_scaled_value(c: Seq<int>, f: int, x: int)
    ensures
        poly_value(scaled(c, f), x) == f * poly_value(c, x),
    decreases c.len(),
{
    if c.len() > 0 {
        lemma_scaled_value(c.drop_last(), f, x);
        assert(scaled(c, f).drop_last() =~= scaled(c.drop_last(), f));
        let p = poly_value(c.drop_last(), x);
        let l = c.last();
        let w = pow(x, (c.len() - 1) as nat);
        assert(f * (p + l * w) == f * p + (f * l) * w) by (nonlinear_arith);
    }
}

/// The polynomial `q` with `f(X) - f(a) = (X - a) * q(X)`.
spec fn quotient(c: Seq<int>, a: int) -> Seq<int>
    decreases c.len(),
{
    if c.len() <= 1 {
        Seq::empty()
    } else {
        poly_sum(c.drop_first(), scaled(quotient(c.drop_first(), a), a))
    }
}

proof fn lemma_quotient(c: Seq<int>, a: int, x: int)
    ensures
        quotient(c, a).len() == (if c.len() == 0 {
            0int
        } else {
            c.len() - 1
        }),
        poly_value(c, x) - poly_value(c, a) == (x - a) * poly_value(quotient(c, a), x),
    decreases c.len(),
{
    if c.len() == 0 {
    } else if c.len() == 1 {
        lemma_value_from_first(c, x);
        lemma_value_from_first(c, a);
    } else {
        let h = c.drop_first();
        let q = quotient(h, a);
        lemma_quotient(h, a, x);
        lemma_value_from_first(c, x);
        lemma_value_from_first(c, a);
        lemma_scaled_value(q, a, x);
        lemma_poly_sum_value(h, scaled(q, a), x);
        let hx = poly_value(h, x);
        let ha = poly_value(h, a);
        let qx = poly_value(q, x);
        assert(x * hx - a * ha == (x - a) * (hx + a * qx)) by (nonlinear_arith)
            requires
                hx - ha == (x - a) * qx,
        ;
    }
}

/// The polynomial `(s - X) * f(X)`.
spec fn times_gap(c: Seq<int>, s: int) -> Seq<int> {
    poly_sum(scaled(c, s), seq![0int] + scaled(c, -1))
}

proof fn lemma_times_gap(c: Seq<int>, s: int, x: int)
    ensures
        times_gap(c, s).len() == c.len() + 1,
        poly_value(times_gap(c, s), x) == (s - x) * poly_value(c, x),
{
    let shifted = seq![0int] + scaled(c, -1);
    lemma_scaled_value(c, s, x);
    lemma_scaled_value(c, -1, x);
    lemma_value_from_first(shifted, x);
    assert(shifted.drop_first() =~= scaled(c, -1));
    lemma_poly_sum_value(scaled(c, s), shifted, x);
    let p = poly_value(c, x);
    assert(s * p + (0 + x * (-1 * p)) == (s - x) * p) by (nonlinear_arith);
}

/// The product of the points of `xs` other than `i`.
pub open spec fn others_product(i: int, xs: Seq<int>) -> int
    decreases xs.len(),
{
    if xs.len() == 0 {
        1
    } else if xs.last() == i {
        others_product(i, xs.drop_last())
    } else {
        others_product(i, xs.drop_last()) * xs.last()
    }
}

/// The product of the gaps from `i` to the other points of `xs`.
pub open spec fn gaps_product(i: int, xs: Seq<int>) -> int
    decreases xs.len(),
{
    if xs.len() == 0 {
        1
    } else if xs.last() == i {
        gaps_product(i, xs.drop_last())
    } else {
        gaps_product(i, xs.drop_last()) * (xs.last() - i)
    }
}

/// The Lagrange coefficient at zero of the point `i` among the points `xs`, modulo `n`: the
/// product of `j / (j - i)` over the points `j` other than `i`.
pub open spec fn lagrange(i: int, xs: Seq<int>, n: int) -> int {
    (others_product(i, xs) * modular::inverse(gaps_product(i, xs), n)) % n
}

/// The differences between `i` and the other points of `xs` are invertible.
pub open spec fn gaps_invertible(i: int, xs: Seq<int>, n: int) -> bool {
    forall|k: int|
        0 <= k < xs.len() && #[trigger] xs[k] != i ==> modular::invertible(xs[k] - i, n)
}

/// The product of invertible gaps is invertible.
pub proof fn lemma_gaps_product_invertible(i: int, xs: Seq<int>, n: int)
    requires
        n > 1,
        gaps_invertible(i, xs, n),
    ensures
        modular::invertible(gaps_product(i, xs), n),
    decreases xs.len(),
{
    if xs.len() == 0 {
        lemma_small_mod(1, n as nat);
        assert(modular::is_inverse(1, 1, n));
    } else {
        let r = xs.drop_last();
        assert(gaps_invertible(i, r, n)) by {
            assert forall|k: int| 0 <= k < r.len() && #[trigger] r[k] != i implies
                modular::invertible(r[k] - i, n) by {
                assert(r[k] == xs[k]);
            }
        }
        lemma_gaps_product_invertible(i, r, n);
        if xs.last() != i {
            assert(xs[xs.len() - 1] != i);
            modular::lemma_invertible_product(gaps_product(i, r), xs.last() - i, n);
        }
    }
}

/// What the Lagrange coefficient is: the quotient of the two products.
pub proof fn lemma_lagrange(i: int, xs: Seq<int>, n: int)
    requires
        n > 1,
        gaps_invertible(i, xs, n),
    ensures
        modular::congruent(
            lagrange(i, xs, n) * gaps_product(i, xs),
            others_product(i, xs),
            n,
        ),
{
    let p = others_product(i, xs);
    let d = gaps_product(i, xs);
    let v = modular::inverse(d, n);
    lemma_gaps_product_invertible(i, xs, n);
    modular::lemma_inverse(d, n);
    modular::lemma_remainder_congruent(p * v, n);
    modular::lemma_mul_congruent(lagrange(i, xs, n), p * v, d, d, n);
    lemma_small_mod(1, n as nat);
    modular::lemma_mul_congruent(p, p, v * d, 1, n);
    assert((p * v) * d == p * (v * d)) by (nonlinear_arith);
    assert(p * 1 == p);
}

/// The points are distinct and their differences invertible.
pub open spec fn spread(xs: Seq<int>, n: int) -> bool {
    &&& forall|j: int, k: int| 0 <= j < k < xs.len() ==> #[trigger] xs[j] != #[trigger] xs[k]
    &&& forall|k: int| 0 <= k < xs.len() ==> gaps_invertible(#[trigger] xs[k], xs, n)
}

/// The sum of the first `m` values, each times the Lagrange coefficient of its point.
pub open spec fn weighted_sum(xs: Seq<int>, values: Seq<int>, m: nat, n: int) -> int
    decreases m,
{
    if m == 0 {
        0
    } else {
        weighted_sum(xs, values, (m - 1) as nat, n) + lagrange(xs[m - 1], xs, n) * values[m - 1]
    }
}

/// The weighted sum is the sum of the weighted values.
pub proof fn lemma_weighted_sum(
    xs: Seq<int>,
    values: Seq<int>,
    terms: Seq<int>,
    m: nat,
    n: int,
)
    requires
        m <= terms.len(),
        forall|k: int|
            0 <= k < m ==> #[trigger] terms[k] == lagrange(xs[k], xs, n) * values[k],
    ensures
        weighted_sum(xs, values, m, n) == sum(terms.take(m as int)),
    decreases m,
{
    if m > 0 {
        lemma_weighted_sum(xs, values, terms, (m - 1) as nat, n);
        assert(terms.take(m as int).drop_last() =~= terms.take(m - 1));
        assert(terms[m - 1] == lagrange(xs[m - 1], xs, n) * values[m - 1]);
    }
}

/// The values of a polynomial at the points `xs`.
pub open spec fn values_at(c: Seq<int>, xs: Seq<int>) -> Seq<int> {
    Seq::new(xs.len(), |k: int| poly_value(c, xs[k]))
}

proof fn lemma_spread_prefix(xs: Seq<int>, n: int)
    requires
        xs.len() > 0,
        spread(xs, n),
    ensures
        spread(xs.drop_last(), n),
{
    let r = xs.drop_last();
    assert forall|j: int, k: int| 0 <= j < k < r.len() implies #[trigger] r[j] != #[trigger] r[k] by {
        assert(xs[j] != xs[k]);
    }
    assert forall|k: int| 0 <= k < r.len() implies gaps_invertible(#[trigger] r[k], r, n) by {
        assert(gaps_invertible(xs[k], xs, n));
        assert forall|j: int| 0 <= j < r.len() && #[trigger] r[j] != r[k] implies
            modular::invertible(r[j] - r[k], n) by {
            assert(xs[j] != xs[k]);
        }
    }
}

/// Adding the point `a` multiplies the coefficient of the point `i` by `a / (a - i)`.
proof fn lemma_lagrange_extends(i: int, xs: Seq<int>, n: int)
    requires
        n > 1,
        xs.len() > 0,
        xs.last() != i,
        gaps_invertible(i, xs, n),
        gaps_invertible(i, xs.drop_last(), n),
    ensures
        modular::congruent(
            lagrange(i, xs, n) * (xs.last() - i),
            lagrange(i, xs.drop_last(), n) * xs.last(),
            n,
        ),
{
    let r = xs.drop_last();
    let a = xs.last();
    let lam = lagrange(i, xs, n);
    let mu = lagrange(i, r, n);
    let d = gaps_product(i, r);
    lemma_lagrange(i, xs, n);
    lemma_lagrange(i, r, n);
    lemma_gaps_product_invertible(i, r, n);
    modular::lemma_mul_congruent(mu * d, others_product(i, r), a, a, n);
    assert((lam * (a - i)) * d == lam * (d * (a - i))) by (nonlinear_arith);
    assert((mu * a) * d == (mu * d) * a) by (nonlinear_arith);
    modular::lemma_cancel(lam * (a - i), mu * a, d, n);
}

/// The sum of the first `m` Lagrange coefficients.
spec fn coefficient_sum(xs: Seq<int>, m: nat, n: int) -> int
    decreases m,
{
    if m == 0 {
        0
    } else {
        coefficient_sum(xs, (m - 1) as nat, n) + lagrange(xs[m - 1], xs, n)
    }
}

/// One step of the comparison between `xs` and its points without the last: the weighted
/// differences `f(x) - f(a)` against the weighted quotients.
proof fn lemma_weighted_differences(xs: Seq<int>, c: Seq<int>, m: nat, n: int)
    requires
        n > 1,
        xs.len() > 0,
        spread(xs, n),
        m < xs.len(),
    ensures
        modular::congruent(
            weighted_sum(xs, values_at(c, xs), m, n) - poly_value(c, xs.last()) * coefficient_sum(
                xs,
                m,
                n,
            ),
            -xs.last() * weighted_sum(
                xs.drop_last(),
                values_at(quotient(c, xs.last()), xs.drop_last()),
                m,
                n,
            ),
            n,
        ),
    decreases m,
{
    let r = xs.drop_last();
    let a = xs.last();
    let fa = poly_value(c, a);
    let q = quotient(c, a);
    let vs = values_at(c, xs);
    let ws = values_at(q, r);
    if m == 0 {
        assert(fa * 0 == 0);
        assert(-a * 0 == 0);
    } else {
        let k = (m - 1) as nat;
        lemma_weighted_differences(xs, c, k, n);
        let x = xs[k as int];
        assert(r[k as int] == x);
        lemma_spread_prefix(xs, n);
        assert(xs[k as int] != xs[xs.len() - 1]);
        assert(gaps_invertible(xs[k as int], xs, n));
        assert(gaps_invertible(r[k as int], r, n));
        lemma_lagrange_extends(x, xs, n);
        lemma_quotient(c, a, x);
        let lam = lagrange(x, xs, n);
        let mu = lagrange(x, r, n);
        let fx = poly_value(c, x);
        let qx = poly_value(q, x);
        modular::lemma_mul_congruent(lam * (a - x), mu * a, -qx, -qx, n);
        assert((lam * (a - x)) * (-qx) == lam * fx - fa * lam) by (nonlinear_arith)
            requires
                fx - fa == (x - a) * qx,
        ;
        assert((mu * a) * (-qx) == -a * (mu * qx)) by (nonlinear_arith);
        let s = weighted_sum(xs, vs, k, n);
        let t = coefficient_sum(xs, k, n);
        let w = weighted_sum(r, ws, k, n);
        modular::lemma_add_congruent(
            s - fa * t,
            -a * w,
            lam * fx - fa * lam,
            -a * (mu * qx),
            n,
        );
        assert((s - fa * t) + (lam * fx - fa * lam) == (s + lam * fx) - fa * (t + lam))
            by (nonlinear_arith);
        assert(-a * w + -a * (mu * qx) == -a * (w + mu * qx)) by (nonlinear_arith);
    }
}

/// All points but the last, and the rest of the weight on the last one, give the value at
/// zero.
proof fn lemma_interpolation_step(xs: Seq<int>, c: Seq<int>, n: int)
    requires
        n > 1,
        xs.len() > 0,
        spread(xs, n),
        c.len() <= xs.len(),
    ensures
        modular::congruent(
            weighted_sum(xs, values_at(c, xs), (xs.len() - 1) as nat, n) + poly_value(c, xs.last())
                * (1 - coefficient_sum(xs, (xs.len() - 1) as nat, n)),
            poly_value(c, 0),
            n,
        ),
    decreases xs.len(), 0nat,
{
    let r = xs.drop_last();
    let a = xs.last();
    let m = r.len();
    let q = quotient(c, a);
    lemma_quotient(c, a, 0);
    lemma_spread_prefix(xs, n);
    lemma_interpolation(r, q, n);
    lemma_weighted_differences(xs, c, m, n);
    let s = weighted_sum(xs, values_at(c, xs), m, n);
    let t = coefficient_sum(xs, m, n);
    let w = weighted_sum(r, values_at(q, r), m, n);
    let fa = poly_value(c, a);
    let f0 = poly_value(c, 0);
    let q0 = poly_value(q, 0);
    modular::lemma_mul_congruent(-a, -a, w, q0, n);
    assert(f0 - fa == -a * q0);
    modular::lemma_add_congruent(s - fa * t, f0 - fa, fa, fa, n);
    assert((s - fa * t) + fa == s + fa * (1 - t)) by (nonlinear_arith);
}

/// The polynomial that vanishes at the first `m` points: the product of `x_j - X`.
spec fn vanishing(xs: Seq<int>, m: nat) -> Seq<int>
    decreases m,
{
    if m == 0 {
        seq![1int]
    } else {
        times_gap(vanishing(xs, (m - 1) as nat), xs[m - 1])
    }
}

proof fn lemma_vanishing(xs: Seq<int>, m: nat, x: int)
    requires
        m <= xs.len(),
    ensures
        vanishing(xs, m).len() == m + 1,
        forall|k: int| 0 <= k < m && #[trigger] xs[k] == x ==> poly_value(vanishing(xs, m), x) == 0,
    decreases m,
{
    if m > 0 {
        let p = vanishing(xs, (m - 1) as nat);
        lemma_vanishing(xs, (m - 1) as nat, x);
        lemma_times_gap(p, xs[m - 1], x);
        let v = poly_value(p, x);
        assert(v == 0 ==> (xs[m - 1] - x) * v == 0) by (nonlinear_arith);
        assert(xs[m - 1] == x ==> (xs[m - 1] - x) * v == 0) by (nonlinear_arith);
    }
}

/// Away from its zeros, the vanishing polynomial is the product of the gaps; at zero, the
/// product of the points.
proof fn lemma_vanishing_products(xs: Seq<int>, m: nat, a: int)
    requires
        m <= xs.len(),
        forall|k: int| 0 <= k < m ==> #[trigger] xs[k] != a,
    ensures
        poly_value(vanishing(xs, m), a) == gaps_product(a, xs.take(m as int)),
        poly_value(vanishing(xs, m), 0) == others_product(a, xs.take(m as int)),
    decreases m,
{
    if m == 0 {
        lemma_value_from_first(seq![1int], a);
        lemma_value_from_first(seq![1int], 0);
        assert(seq![1int].drop_first() =~= Seq::<int>::empty());
        assert(poly_value(Seq::<int>::empty(), a) == 0);
        assert(poly_value(Seq::<int>::empty(), 0) == 0);
    } else {
        let k = (m - 1) as nat;
        let p = vanishing(xs, k);
        lemma_vanishing_products(xs, k, a);
        lemma_times_gap(p, xs[k as int], a);
        lemma_times_gap(p, xs[k as int], 0);
        let t = xs.take(m as int);
        assert(t.drop_last() =~= xs.take(k as int));
        assert(t.last() == xs[k as int]);
        lemma_mul_is_commutative(xs[k as int] - a, poly_value(p, a));
        lemma_mul_is_commutative(xs[k as int], poly_value(p, 0));
    }
}

proof fn lemma_weighted_zeros(xs: Seq<int>, values: Seq<int>, m: nat, n: int)
    requires
        forall|k: int| 0 <= k < m ==> #[trigger] values[k] == 0,
    ensures
        weighted_sum(xs, values, m, n) == 0,
    decreases m,
{
    if m > 0 {
        lemma_weighted_zeros(xs, values, (m - 1) as nat, n);
        assert(values[m - 1] == 0);
        assert(lagrange(xs[m - 1], xs, n) * 0 == 0);
    }
}

/// Lagrange interpolation at zero: the values of a polynomial at as many points as it has
/// coefficients, each times the Lagrange coefficient of its point, add up to its value at
/// zero.
pub proof fn lemma_interpolation(xs: Seq<int>, c: Seq<int>, n: int)
    requires
        n > 1,
        spread(xs, n),
        c.len() <= xs.len(),
    ensures
        modular::congruent(
            weighted_sum(xs, values_at(c, xs), xs.len(), n),
            poly_value(c, 0),
            n,
        ),
    decreases xs.len(), 1nat,
{
    if xs.len() > 0 {
        let r = xs.drop_last();
        let a = xs.last();
        let m = r.len();
        let rest = 1 - coefficient_sum(xs, m, n);
        let lam = lagrange(a, xs, n);
        lemma_interpolation_step(xs, c, n);
        let z = vanishing(xs, m);
        lemma_vanishing(xs, m, a);
        lemma_interpolation_step(xs, z, n);
        assert forall|k: int| 0 <= k < m implies #[trigger] values_at(z, xs)[k] == 0 by {
            lemma_vanishing(xs, m, xs[k]);
        }
        lemma_weighted_zeros(xs, values_at(z, xs), m, n);
        assert forall|k: int| 0 <= k < m implies #[trigger] xs[k] != a by {
            assert(xs[k] != xs[xs.len() - 1]);
        }
        lemma_vanishing_products(xs, m, a);
        assert(xs.take(m as int) =~= r);
        assert(gaps_invertible(xs[xs.len() - 1], xs, n));
        lemma_lagrange(a, xs, n);
        lemma_gaps_product_invertible(a, xs, n);
        let d = gaps_product(a, xs);
        lemma_mul_is_commutative(d, rest);
        modular::lemma_cancel(rest, lam, d, n);
        let fa = poly_value(c, a);
        modular::lemma_mul_congruent(fa, fa, rest, lam, n);
        lemma_mul_is_commutative(fa, lam);
        let s = weighted_sum(xs, values_at(c, xs), m, n);
        modular::lemma_add_congruent(s, s, fa * rest, fa * lam, n);
    }
}

/// The product of points.
pub open spec fn points_product(xs: Seq<int>, m: nat) -> int
    decreases m,
{
    if m == 0 {
        1
    } else {
        points_product(xs, (m - 1) as nat) * xs[m - 1]
    }
}

proof fn lemma_vanishing_at_zero(xs: Seq<int>, m: nat)
    requires
        m <= xs.len(),
    ensures
        poly_value(vanishing(xs, m), 0) == points_product(xs, m),
    decreases m,
{
    if m == 0 {
        lemma_value_at_zero(seq![1int]);
    } else {
        let k = (m - 1) as nat;
        lemma_vanishing_at_zero(xs, k);
        lemma_times_gap(vanishing(xs, k), xs[k as int], 0);
        lemma_mul_is_commutative(xs[k as int], points_product(xs, k));
    }
}

proof fn lemma_points_product_invertible(xs: Seq<int>, m: nat, n: int)
    requires
        n > 1,
        m <= xs.len(),
        forall|k: int| 0 <= k < m ==> modular::invertible(#[trigger] xs[k], n),
    ensures
        modular::invertible(points_product(xs, m), n),
    decreases m,
{
    if m == 0 {
        lemma_small_mod(1, n as nat);
        assert(modular::is_inverse(1, 1, n));
    } else {
        lemma_points_product_invertible(xs, (m - 1) as nat, n);
        assert(modular::invertible(xs[m - 1], n));
        modular::lemma_invertible_product(points_product(xs, (m - 1) as nat), xs[m - 1], n);
    }
}

/// Fewer values than coefficients leave the constant term open: for any integer there is a
/// polynomial with as many coefficients, the same values at the given points and that integer as
/// its value at zero, modulo `n`.
pub proof fn lemma_values_leave_constant_open(
    c: Seq<int>,
    xs: Seq<int>,
    secret: int,
    n: int,
) -> (g: Seq<int>)
    requires
        n > 1,
        xs.len() < c.len(),
        forall|k: int| 0 <= k < xs.len() ==> modular::invertible(#[trigger] xs[k], n),
    ensures
        g.len() == c.len(),
        modular::congruent(poly_value(g, 0), secret, n),
        forall|k: int|
            0 <= k < xs.len() ==> poly_value(g, #[trigger] xs[k]) == poly_value(c, xs[k]),
{
    let m = xs.len();
    let z = vanishing(xs, m);
    let p = points_product(xs, m);
    let v = modular::inverse(p, n);
    let c0 = poly_value(c, 0);
    let factor = (secret - c0) * v;
    let g = poly_sum(c, scaled(z, factor));
    lemma_vanishing(xs, m, 0);
    lemma_vanishing_at_zero(xs, m);
    lemma_points_product_invertible(xs, m, n);
    modular::lemma_inverse(p, n);
    lemma_poly_sum_value(c, scaled(z, factor), 0);
    lemma_scaled_value(z, factor, 0);
    lemma_small_mod(1, n as nat);
    modular::lemma_mul_congruent(secret - c0, secret - c0, v * p, 1, n);
    assert(factor * p == (secret - c0) * (v * p)) by (nonlinear_arith)
        requires
            factor == (secret - c0) * v,
    ;
    modular::lemma_add_congruent(c0, c0, factor * p, (secret - c0) * 1, n);
    assert forall|k: int| 0 <= k < xs.len() implies poly_value(g, #[trigger] xs[k]) == poly_value(
        c,
        xs[k],
    ) by {
        lemma_vanishing(xs, m, xs[k]);
        lemma_scaled_value(z, factor, xs[k]);
        lemma_poly_sum_value(c, scaled(z, factor), xs[k]);
        assert(factor * 0 == 0);
    }
    g
}

/// Sums add up: the sum of one integer is that integer, and the sum of two sequences in a row is
/// that of their sums.
pub proof fn law_sums_add_up(x: int, a: Seq<int>, b: Seq<int>)
    ensures
        sum(seq![x]) == x,
        sum(a + b) == sum(a) + sum(b),
    decreases b.len(),
{
    assert(seq![x].drop_last() =~= Seq::<int>::empty());
    assert(sum(Seq::<int>::empty()) == 0);
    if b.len() > 0 {
        law_sums_add_up(x, a, b.drop_last());
        assert((a + b).drop_last() =~= a + b.drop_last());
    } else {
        assert(a + b =~= a);
    }
}

/// The value of a constant is the constant, and the value of a polynomial whose coefficients are
/// split in two is that of the lower part plus that of the upper part times the power in between.
pub proof fn law_polynomial_value(c: int, a: Seq<int>, b: Seq<int>, x: int)
    ensures
        poly_value(seq![c], x) == c,
        poly_value(a + b, x) == poly_value(a, x) + pow(x, a.len()) * poly_value(b, x),
    decreases b.len(),
{
    assert(seq![c].drop_last() =~= Seq::<int>::empty());
    assert(poly_value(Seq::<int>::empty(), x) == 0);
    lemma_pow0(x);
    if b.len() > 0 {
        let r = b.drop_last();
        law_polynomial_value(c, a, r, x);
        assert((a + b).drop_last() =~= a + r);
        lemma_pow_adds(x, a.len(), r.len());
        let u = pow(x, a.len());
        let w = pow(x, r.len());
        let p = poly_value(r, x);
        let l = b.last();
        assert(u * (p + l * w) == u * p + l * (u * w)) by (nonlinear_arith);
    } else {
        assert(a + b =~= a);
        assert(pow(x, a.len()) * 0 == 0);
    }
}

/// The sum after one of the integers has changed.
pub proof fn lemma_sum_updated(s: Seq<int>, i: int, v: int)
    requires
        0 <= i < s.len(),
    ensures
        sum(s.update(i, v)) == sum(s) + v - s[i],
    decreases s.len(),
{
    let u = s.update(i, v);
    if i == s.len() - 1 {
        assert(u.drop_last() =~= s.drop_last());
    } else {
        lemma_sum_updated(s.drop_last(), i, v);
        assert(u.drop_last() =~= s.drop_last().update(i, v));
    }
}

/// The value after one of the coefficients has changed.
pub proof fn lemma_value_updated(c: Seq<int>, k: int, v: int, x: int)
    requires
        0 <= k < c.len(),
    ensures
        poly_value(c.update(k, v), x) == poly_value(c, x) + (v - c[k]) * pow(x, k as nat),
    decreases c.len(),
{
    let u = c.update(k, v);
    let w = pow(x, k as nat);
    if k == c.len() - 1 {
        assert(u.drop_last() =~= c.drop_last());
        assert(v * w == c[k] * w + (v - c[k]) * w) by (nonlinear_arith);
    } else {
        lemma_value_updated(c.drop_last(), k, v, x);
        assert(u.drop_last() =~= c.drop_last().update(k, v));
    }
}

/// Each coefficient of a sum of polynomials is the sum of theirs.
pub proof fn lemma_total_coefficient(ps: Seq<Seq<int>>, t: nat, k: int)
    requires
        ps.len() > 0,
        0 <= k < t,
        forall|i: int| 0 <= i < ps.len() ==> (#[trigger] ps[i]).len() == t,
    ensures
        poly_total(ps).len() == t,
        poly_total(ps)[k] == sum(Seq::new(ps.len(), |i: int| ps[i][k])),
    decreases ps.len(),
{
    let column = Seq::new(ps.len(), |i: int| ps[i][k]);
    let r = ps.drop_last();
    lemma_poly_total_len(ps, t);
    assert(ps[ps.len() - 1].len() == t);
    assert(column.last() == ps.last()[k]);
    if r.len() > 0 {
        assert forall|i: int| 0 <= i < r.len() implies (#[trigger] r[i]).len() == t by {
            assert(ps[i].len() == t);
        }
        lemma_total_coefficient(r, t, k);
        assert(column.drop_last() =~= Seq::new(r.len(), |i: int| r[i][k]));
        assert(poly_total(r)[k] == sum(column.drop_last()));
    } else {
        assert(poly_total(r) =~= Seq::<int>::empty());
        assert(column.drop_last() =~= Seq::<int>::empty());
        assert(sum(column.drop_last()) == 0);
    }
    assert(poly_total(ps) == poly_sum(poly_total(r), ps.last()));
    assert(poly_total(ps)[k] == sum(column));
}

/// The sum of polynomials after one coefficient of one of them has changed.
pub proof fn lemma_total_updated(ps: Seq<Seq<int>>, qs: Seq<Seq<int>>, t: nat, i: int, k: int)
    requires
        ps.len() == qs.len(),
        0 <= i < ps.len(),
        0 <= k < t,
        forall|j: int| 0 <= j < ps.len() ==> (#[trigger] ps[j]).len() == t,
        forall|j: int| 0 <= j < qs.len() ==> (#[trigger] qs[j]).len() == t,
        forall|j: int, m: int|
            0 <= j < ps.len() && 0 <= m < t && !(j == i && m == k) ==> (#[trigger] qs[j][m])
                == ps[j][m],
    ensures
        poly_total(qs) == poly_total(ps).update(k, poly_total(ps)[k] + qs[i][k] - ps[i][k]),
{
    let a = poly_total(ps);
    let b = poly_total(qs);
    assert forall|m: int| 0 <= m < t implies b[m] == a.update(k, a[k] + qs[i][k] - ps[i][k])[m] by {
        lemma_total_coefficient(ps, t, m);
        lemma_total_coefficient(qs, t, m);
        let x = Seq::new(ps.len(), |j: int| ps[j][m]);
        let y = Seq::new(qs.len(), |j: int| qs[j][m]);
        if m == k {
            assert forall|j: int| 0 <= j < ps.len() implies y[j] == x.update(i, qs[i][k])[j] by {
                if j != i {
                    assert(qs[j][m] == ps[j][m]);
                }
            }
            assert(y =~= x.update(i, qs[i][k]));
            lemma_sum_updated(x, i, qs[i][k]);
        } else {
            assert forall|j: int| 0 <= j < ps.len() implies y[j] == x[j] by {
                assert(qs[j][m] == ps[j][m]);
            }
            assert(y =~= x);
        }
    }
    lemma_total_coefficient(ps, t, k);
    lemma_total_coefficient(qs, t, k);
    assert(b =~= a.update(k, a[k] + qs[i][k] - ps[i][k]));
}

/// The sum of zeros is zero.
pub proof fn lemma_zeros_sum(s: Seq<int>)
    requires
        forall|i: int| 0 <= i < s.len() ==> #[trigger] s[i] == 0,
    ensures
        sum(s) == 0,
    decreases s.len(),
{
    if s.len() > 0 {
        assert(s[s.len() - 1] == 0);
        assert forall|i: int| 0 <= i < s.drop_last().len() implies #[trigger] s.drop_last()[i]
            == 0 by {
            assert(s[i] == 0);
        }
        lemma_zeros_sum(s.drop_last());
    }
}

/// The value of a polynomial without any coefficient other than zero is zero.
pub proof fn lemma_zeros_value(c: Seq<int>, x: int)
    requires
        forall|k: int| 0 <= k < c.len() ==> #[trigger] c[k] == 0,
    ensures
        poly_value(c, x) == 0,
    decreases c.len(),
{
    if c.len() > 0 {
        assert(c[c.len() - 1] == 0);
        assert forall|k: int| 0 <= k < c.drop_last().len() implies #[trigger] c.drop_last()[k]
            == 0 by {
            assert(c[k] == 0);
        }
        lemma_zeros_value(c.drop_last(), x);
        assert(0 * pow(x, (c.len() - 1) as nat) == 0);
    }
}

} // verus!
