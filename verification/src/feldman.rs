//! Feldman verifiable secret sharing for distributed key generation.
//!
//! Each participant draws a polynomial, sends every participant its value at their index, and
//! publishes the base point times each coefficient. Everyone checks the shares received against
//! these commitments and adds them up to their key share. The group's public key is the sum of
//! the commitments to the constant terms.

use crate::error::{CraftSecError, Result};
use crate::interpolation;
use crate::lagrange;
use crate::model::{KeyShare, ParticipantIndex, ThresholdConfig};
use crate::modular;
use crate::order;
use crate::point;
use crate::point::EdwardsPoint;
use crate::polynomial;
use crate::polynomial::Polynomial;
use crate::scalar;
use crate::scalar::Scalar;
use crate::scalar_ext;
use crate::text;
use crate::text::joined_decimal;
use vstd::arithmetic::div_mod::*;
use vstd::arithmetic::mul::*;
use vstd::arithmetic::power::*;
use vstd::prelude::*;
use vstd::slice::slice_subrange;

verus! {

/// The elements that points stand for.
pub open spec fn elements(s: Seq<EdwardsPoint>) -> Seq<point::Element> {
    Seq::new(s.len(), |k: int| s[k]@)
}

/// The value at `x` of the polynomial with committed coefficients: the sum of `cs[k] * x^k`.
pub open spec fn commitment_value(cs: Seq<point::Element>, x: int) -> point::Element
    decreases cs.len(),
{
    if cs.len() == 0 {
        point::base_times(0)
    } else {
        commitment_value(cs.drop_last(), x).plus(
            cs.last().times((pow(x, (cs.len() - 1) as nat) % order::group_order()) as nat),
        )
    }
}

/// The points commit to the coefficients `c`: each is the base point times a coefficient.
pub open spec fn commits_to(points: Seq<EdwardsPoint>, c: Seq<int>) -> bool {
    &&& points.len() == c.len()
    &&& forall|k: int| 0 <= k < c.len() ==> (#[trigger] points[k])@ == point::base_times(c[k])
}

/// The shares are the values at the indices from one to `n` of the polynomial with the
/// coefficients `c`.
pub open spec fn deals(shares: Seq<(ParticipantIndex, Scalar)>, c: Seq<int>, n: nat) -> bool {
    &&& shares.len() == n
    &&& forall|j: int|
        0 <= j < n ==> (#[trigger] shares[j]).0 == j + 1 && shares[j].1.value()
            == interpolation::poly_value(c, j + 1) % order::group_order()
}

/// The key shares of a group that shares the polynomial with the coefficients `f`: each
/// participant has the polynomial's value at their index, the group key is the base point times
/// the value at zero, and everyone knows the base point times each participant's value.
pub open spec fn shares_of(shares: Seq<KeyShare>, f: Seq<int>) -> bool {
    forall|i: int| 0 <= i < shares.len() ==> share_of(#[trigger] shares[i], i, shares.len(), f)
}

/// The key share of the participant at position `i` among `n` who share `f`.
pub open spec fn share_of(share: KeyShare, i: int, n: nat, f: Seq<int>) -> bool {
    &&& share.index == i + 1
    &&& share.secret.value() == interpolation::poly_value(f, i + 1) % order::group_order()
    &&& share.group_public_key@ == point::base_times(interpolation::poly_value(f, 0))
    &&& knows_shares(share.verification_shares@, n, f)
}

/// The public keys of the shares of `n` participants who share `f`.
pub open spec fn knows_shares(
    vs: Seq<(ParticipantIndex, EdwardsPoint)>,
    n: nat,
    f: Seq<int>,
) -> bool {
    &&& vs.len() == n
    &&& forall|j: int|
        0 <= j < n ==> (#[trigger] vs[j]).0 == j + 1 && vs[j].1@ == point::base_times(
            interpolation::poly_value(f, j + 1),
        )
}

/// A participant's contribution to a key generation or a rotation.
#[derive(Clone, Debug)]
pub struct DkgContribution {
    /// The participant's index.
    pub index: ParticipantIndex,
    /// The base point times each coefficient.
    pub commitments: Vec<EdwardsPoint>,
    /// The share for each participant.
    pub shares: Vec<(ParticipantIndex, Scalar)>,
}

/// The commitments to coefficients evaluate to the base point times the polynomial's value.
pub proof fn lemma_commitment_value(points: Seq<EdwardsPoint>, c: Seq<int>, x: int)
    requires
        commits_to(points, c),
    ensures
        commitment_value(elements(points), x) == point::base_times(
            interpolation::poly_value(c, x),
        ),
    decreases c.len(),
{
    if c.len() > 0 {
        let n = order::group_order();
        let m = (c.len() - 1) as nat;
        assert(commits_to(points.drop_last(), c.drop_last())) by {
            assert forall|k: int| 0 <= k < c.drop_last().len() implies (
            #[trigger] points.drop_last()[k])@ == point::base_times(c.drop_last()[k]) by {
                assert(points[k]@ == point::base_times(c[k]));
            }
        }
        lemma_commitment_value(points.drop_last(), c.drop_last(), x);
        assert(elements(points).drop_last() =~= elements(points.drop_last()));
        assert(points[m as int]@ == point::base_times(c[m as int]));
        let w = pow(x, m);
        order::lemma_group_order_large();
        lemma_mod_bound(w, n);
        point::lemma_base_product(c.last(), (w % n) as nat);
        lemma_mul_mod_noop_right(c.last(), w, n);
        point::lemma_base_equal(c.last() * (w % n), c.last() * w);
        point::lemma_base_sum(interpolation::poly_value(c.drop_last(), x), c.last() * w);
    }
}

/// The value at `x` of the polynomial with committed coefficients.
pub fn evaluate_commitments(commitments: &[EdwardsPoint], x: &Scalar) -> (r: EdwardsPoint)
    ensures
        r@ == commitment_value(elements(commitments@), x.value() as int),
{
    let mut result = EdwardsPoint::identity();
    let mut x_power = Scalar::one();
    let mut k: usize = 0;
    let ghost n = order::group_order();
    let ghost xv = x.value() as int;
    let ghost cs = elements(commitments@);
    proof {
        order::lemma_group_order_large();
        lemma_pow0(xv);
        lemma_small_mod(1, n as nat);
    }
    while k < commitments.len()
        invariant
            k <= commitments@.len(),
            n == order::group_order(),
            n > 1,
            xv == x.value(),
            cs == elements(commitments@),
            result@ == commitment_value(cs.take(k as int), xv),
            x_power.value() == pow(xv, k as nat) % n,
        decreases commitments@.len() - k,
    {
        proof {
            let t = cs.take(k + 1);
            assert(t.drop_last() =~= cs.take(k as int));
            assert(t.last() == commitments@[k as int]@);
            let w = pow(xv, k as nat);
            lemma_pow1(xv);
            lemma_pow_adds(xv, k as nat, 1);
            lemma_mul_mod_noop_left(w, xv, n);
        }
        result = result + commitments[k] * x_power;
        x_power = x_power * *x;
        k = k + 1;
    }
    assert(cs.take(k as int) =~= cs);
    result
}

/// Verifies a share against commitments: the base point times the share must be the committed
/// polynomial's value at the index.
pub fn verify_share(index: ParticipantIndex, share: &Scalar, commitments: &[EdwardsPoint]) -> (r:
    Result<()>)
    ensures
        r is Ok <==> point::base_times(share.value() as int) == commitment_value(
            elements(commitments@),
            index as int,
        ),
        r matches Err(e) ==> e matches CraftSecError::InvalidShare(m) && m@
            == "share verification failed for participant "@ + text::decimal(index as nat),
{
    let x = Scalar::from(index as u64);
    let lhs = EdwardsPoint::base_multiple(share);
    let rhs = evaluate_commitments(commitments, &x);
    if lhs == rhs {
        Ok(())
    } else {
        Err(
            CraftSecError::InvalidShare(
                joined_decimal("share verification failed for participant ", index as u64),
            ),
        )
    }
}

/// A share verifies against commitments to a polynomial's coefficients just if it is the
/// polynomial's value at the index.
pub proof fn law_share_verifies(
    index: ParticipantIndex,
    share: Scalar,
    commitments: Seq<EdwardsPoint>,
    c: Seq<int>,
)
    requires
        commits_to(commitments, c),
    ensures
        point::base_times(share.value() as int) == commitment_value(
            elements(commitments),
            index as int,
        ) <==> share.value() == interpolation::poly_value(c, index as int)
            % order::group_order(),
{
    lemma_commitment_value(commitments, c, index as int);
    scalar::lemma_value_bound(share);
    point::lemma_base_equal(
        share.value() as int,
        interpolation::poly_value(c, index as int),
    );
}

/// The commitments to a polynomial's coefficients.
pub fn commit(poly: &Polynomial) -> (r: Vec<EdwardsPoint>)
    ensures
        commits_to(r@, poly.values()),
{
    let mut commitments: Vec<EdwardsPoint> = Vec::new();
    let mut k: usize = 0;
    while k < poly.coefficients.len()
        invariant
            k <= poly.coefficients@.len(),
            commitments@.len() == k,
            forall|i: int|
                0 <= i < k ==> (#[trigger] commitments@[i])@ == point::base_times(
                    poly.values()[i],
                ),
        decreases poly.coefficients@.len() - k,
    {
        commitments.push(EdwardsPoint::base_multiple(&poly.coefficients[k]));
        k = k + 1;
    }
    commitments
}

/// The shares of a polynomial for the participants from one to `n`.
pub fn deal(poly: &Polynomial, n: u32) -> (r: Vec<(ParticipantIndex, Scalar)>)
    ensures
        deals(r@, poly.values(), n as nat),
{
    let mut shares: Vec<(ParticipantIndex, Scalar)> = Vec::new();
    let mut j: u32 = 0;
    while j < n
        invariant
            j <= n,
            shares@.len() == j,
            forall|i: int|
                0 <= i < j ==> (#[trigger] shares@[i]).0 == i + 1 && shares@[i].1.value()
                    == interpolation::poly_value(poly.values(), i + 1) % order::group_order(),
        decreases n - j,
    {
        j = j + 1;
        let x = Scalar::from(j as u64);
        shares.push((j, poly.evaluate(&x)));
    }
    shares
}

/// The polynomials that the participants draw: `t` coefficients each, one from each block, in
/// turn.
pub open spec fn drawn_polynomials(blocks: Seq<[u8; 64]>, t: nat, n: nat) -> Seq<Seq<int>> {
    Seq::new(
        n,
        |i: int| polynomial::block_values(blocks.subrange(i * t, i * t + t)),
    )
}

/// Each participant draws as many coefficients as the threshold says.
pub proof fn lemma_drawn_len(blocks: Seq<[u8; 64]>, t: nat, n: nat)
    requires
        t * n <= blocks.len(),
    ensures
        forall|i: int|
            0 <= i < n ==> (#[trigger] drawn_polynomials(blocks, t, n)[i]).len() == t,
{
    assert forall|i: int| 0 <= i < n implies (#[trigger] drawn_polynomials(
        blocks,
        t,
        n,
    )[i]).len() == t by {
        assert(0 <= i * t && i * t + t <= t * n) by (nonlinear_arith)
            requires
                0 <= i,
                i + 1 <= n,
                t >= 0,
        ;
    }
}

/// The polynomial that the group shares: the sum of those that the participants draw.
pub open spec fn group_polynomial(blocks: Seq<[u8; 64]>, t: nat, n: nat) -> Seq<int> {
    interpolation::poly_total(drawn_polynomials(blocks, t, n))
}

/// What the participant at position `i` contributes from the polynomial with the coefficients
/// `c`.
pub open spec fn contributes(contribution: DkgContribution, i: int, c: Seq<int>, n: nat) -> bool {
    &&& contribution.index == i + 1
    &&& commits_to(contribution.commitments@, c)
    &&& deals(contribution.shares@, c, n)
}

/// The contributions from the polynomials `ps`.
pub open spec fn contribute(
    contributions: Seq<DkgContribution>,
    ps: Seq<Seq<int>>,
    n: nat,
) -> bool {
    &&& contributions.len() == ps.len()
    &&& forall|i: int|
        0 <= i < ps.len() ==> contributes(#[trigger] contributions[i], i, ps[i], n)
}

/// The sum of the shares for the participant at position `j`.
pub(crate) fn sum_shares(
    contributions: &Vec<DkgContribution>,
    j: usize,
    Ghost(ps): Ghost<Seq<Seq<int>>>,
    Ghost(n): Ghost<nat>,
) -> (r: Scalar)
    requires
        contribute(contributions@, ps, n),
        j < n,
    ensures
        r.value() == interpolation::poly_value(interpolation::poly_total(ps), j + 1)
            % order::group_order(),
{
    let mut sum = Scalar::zero();
    let mut k: usize = 0;
    let ghost q = order::group_order();
    proof {
        order::lemma_group_order_large();
        lemma_small_mod(0, q as nat);
    }
    while k < contributions.len()
        invariant
            k <= contributions@.len(),
            contribute(contributions@, ps, n),
            j < n,
            q == order::group_order(),
            q > 1,
            sum.value() == interpolation::poly_value(
                interpolation::poly_total(ps.take(k as int)),
                j + 1,
            ) % q,
        decreases contributions@.len() - k,
    {
        assert(contributes(contributions@[k as int], k as int, ps[k as int], n));
        assert(contributions@[k as int].shares@[j as int].0 == j + 1);
        sum = sum + contributions[k].shares[j].1;
        proof {
            let a = interpolation::poly_total(ps.take(k as int));
            let b = ps[k as int];
            assert(ps.take(k + 1).drop_last() =~= ps.take(k as int));
            interpolation::lemma_poly_sum_value(a, b, j + 1);
            lemma_add_mod_noop(
                interpolation::poly_value(a, j + 1),
                interpolation::poly_value(b, j + 1),
                q,
            );
        }
        k = k + 1;
    }
    assert(ps.take(k as int) =~= ps);
    sum
}

/// The sum of the commitments to the constant terms.
fn sum_constants(
    contributions: &Vec<DkgContribution>,
    Ghost(ps): Ghost<Seq<Seq<int>>>,
    Ghost(n): Ghost<nat>,
) -> (r: EdwardsPoint)
    requires
        contribute(contributions@, ps, n),
        forall|i: int| 0 <= i < ps.len() ==> (#[trigger] ps[i]).len() > 0,
    ensures
        r@ == point::base_times(interpolation::poly_value(interpolation::poly_total(ps), 0)),
{
    let mut sum = EdwardsPoint::identity();
    let mut k: usize = 0;
    while k < contributions.len()
        invariant
            k <= contributions@.len(),
            contribute(contributions@, ps, n),
            forall|i: int| 0 <= i < ps.len() ==> (#[trigger] ps[i]).len() > 0,
            sum@ == point::base_times(
                interpolation::poly_value(interpolation::poly_total(ps.take(k as int)), 0),
            ),
        decreases contributions@.len() - k,
    {
        assert(contributes(contributions@[k as int], k as int, ps[k as int], n));
        assert(ps[k as int].len() > 0);
        sum = sum + contributions[k].commitments[0];
        proof {
            let a = interpolation::poly_total(ps.take(k as int));
            let b = ps[k as int];
            assert(ps.take(k + 1).drop_last() =~= ps.take(k as int));
            interpolation::lemma_poly_sum_value(a, b, 0);
            interpolation::lemma_value_at_zero(b);
            point::lemma_base_sum(interpolation::poly_value(a, 0), b[0]);
        }
        k = k + 1;
    }
    assert(ps.take(k as int) =~= ps);
    sum
}

/// The public key of the share of the participant with index `j`: the sum of the committed
/// polynomials' values.
fn verification_share(
    contributions: &Vec<DkgContribution>,
    j: u32,
    Ghost(ps): Ghost<Seq<Seq<int>>>,
    Ghost(n): Ghost<nat>,
) -> (r: EdwardsPoint)
    requires
        contribute(contributions@, ps, n),
    ensures
        r@ == point::base_times(
            interpolation::poly_value(interpolation::poly_total(ps), j as int),
        ),
{
    let mut sum = EdwardsPoint::identity();
    let x = Scalar::from(j as u64);
    let mut k: usize = 0;
    while k < contributions.len()
        invariant
            k <= contributions@.len(),
            contribute(contributions@, ps, n),
            x.value() == j,
            sum@ == point::base_times(
                interpolation::poly_value(interpolation::poly_total(ps.take(k as int)), j as int),
            ),
        decreases contributions@.len() - k,
    {
        let ghost b = ps[k as int];
        assert(contributes(contributions@[k as int], k as int, b, n));
        sum = sum + evaluate_commitments(&contributions[k].commitments, &x);
        proof {
            let a = interpolation::poly_total(ps.take(k as int));
            lemma_commitment_value(contributions@[k as int].commitments@, b, j as int);
            assert(ps.take(k + 1).drop_last() =~= ps.take(k as int));
            interpolation::lemma_poly_sum_value(a, b, j as int);
            point::lemma_base_sum(
                interpolation::poly_value(a, j as int),
                interpolation::poly_value(b, j as int),
            );
        }
        k = k + 1;
    }
    assert(ps.take(k as int) =~= ps);
    sum
}

/// The share is the value that the commitments promise for an index.
pub open spec fn share_verifies(
    index: int,
    share: Scalar,
    commitments: Seq<EdwardsPoint>,
) -> bool {
    point::base_times(share.value() as int) == commitment_value(elements(commitments), index)
}

/// The shares that the participant at position `j` has received all verify.
pub open spec fn received_verify(contributions: Seq<DkgContribution>, j: int) -> bool {
    forall|k: int|
        0 <= k < contributions.len() ==> share_verifies(
            j + 1,
            (#[trigger] contributions[k]).shares@[j].1,
            contributions[k].commitments@,
        )
}

/// The refusal of a share that the participant at position `j` has received.
pub open spec fn refuses_share(j: int, e: CraftSecError) -> bool {
    e matches CraftSecError::InvalidShare(m) && m@ == "share verification failed for participant "@
        + text::decimal((j + 1) as nat)
}

/// The shares of polynomials verify against the commitments to the coefficients.
pub proof fn lemma_contributions_verify(
    contributions: Seq<DkgContribution>,
    ps: Seq<Seq<int>>,
    n: nat,
    j: int,
)
    requires
        contribute(contributions, ps, n),
        0 <= j < n <= u32::MAX,
    ensures
        received_verify(contributions, j),
{
    assert forall|k: int| 0 <= k < contributions.len() implies share_verifies(
        j + 1,
        (#[trigger] contributions[k]).shares@[j].1,
        contributions[k].commitments@,
    ) by {
        assert(contributes(contributions[k], k, ps[k], n));
        assert(contributions[k].shares@[j].0 == j + 1);
        law_share_verifies(
            (j + 1) as u32,
            contributions[k].shares@[j].1,
            contributions[k].commitments@,
            ps[k],
        );
    }
}

/// Every participant's verification of the shares received: it succeeds just if all of them
/// verify, and otherwise names the first participant who has received one that does not.
pub(crate) fn verify_contributions(contributions: &Vec<DkgContribution>, n: u32) -> (r: Result<()>)
    requires
        forall|k: int|
            0 <= k < contributions@.len() ==> (#[trigger] contributions@[k]).shares@.len() >= n,
    ensures
        match r {
            Ok(_) => forall|j: int| 0 <= j < n ==> #[trigger] received_verify(contributions@, j),
            Err(e) => exists|j: int|
                0 <= j < n && !(#[trigger] received_verify(contributions@, j)) && (forall|i: int|
                    0 <= i < j ==> #[trigger] received_verify(contributions@, i)) && refuses_share(
                    j,
                    e,
                ),
        },
{
    let mut receiver: u32 = 0;
    while receiver < n
        invariant
            receiver <= n,
            forall|k: int|
                0 <= k < contributions@.len() ==> (#[trigger] contributions@[k]).shares@.len()
                    >= n,
            forall|j: int| 0 <= j < receiver ==> #[trigger] received_verify(contributions@, j),
        decreases n - receiver,
    {
        let mut k: usize = 0;
        while k < contributions.len()
            invariant
                receiver < n,
                k <= contributions@.len(),
                forall|k: int|
                    0 <= k < contributions@.len() ==> (#[trigger] contributions@[k]).shares@.len()
                        >= n,
                forall|j: int|
                    0 <= j < receiver ==> #[trigger] received_verify(contributions@, j),
                forall|i: int|
                    0 <= i < k ==> share_verifies(
                        receiver + 1,
                        (#[trigger] contributions@[i]).shares@[receiver as int].1,
                        contributions@[i].commitments@,
                    ),
            decreases contributions@.len() - k,
        {
            let ghost contribution = contributions@[k as int];
            assert(contribution.shares@.len() >= n);
            let share_value = contributions[k].shares[receiver as usize].1;
            match verify_share(receiver + 1, &share_value, &contributions[k].commitments) {
                Ok(_) => {},
                Err(e) => {
                    assert(!share_verifies(
                        receiver + 1,
                        contributions@[k as int].shares@[receiver as int].1,
                        contributions@[k as int].commitments@,
                    ));
                    assert(!received_verify(contributions@, receiver as int));
                    assert(refuses_share(receiver as int, e));
                    return Err(e);
                },
            }
            k = k + 1;
        }
        assert(received_verify(contributions@, receiver as int));
        receiver = receiver + 1;
    }
    Ok(())
}

/// Runs a complete key generation among the participants of a configuration, each of whom draws
/// its polynomial from as many of the random blocks as the threshold says, and returns the key
/// shares.
pub fn run_dkg(config: &ThresholdConfig, blocks: &[[u8; 64]]) -> (r: Result<Vec<KeyShare>>)
    requires
        config.threshold >= 1 || config.total == 0,
        config.threshold * config.total <= blocks@.len(),
    ensures
        r matches Ok(shares) && shares@.len() == config.total && shares_of(
            shares@,
            group_polynomial(blocks@, config.threshold as nat, config.total as nat),
        ),
{
    let t = config.threshold as usize;
    let n = config.total;
    let available: usize = blocks.len();
    let ghost ps = drawn_polynomials(blocks@, t as nat, n as nat);
    let mut contributions: Vec<DkgContribution> = Vec::new();
    let mut i: u32 = 0;
    let mut start: usize = 0;
    while i < n
        invariant
            i <= n,
            t >= 1 || n == 0,
            start == i * t,
            t * n <= blocks@.len() == available,
            ps == drawn_polynomials(blocks@, t as nat, n as nat),
            contribute(contributions@, ps.take(i as int), n as nat),
        decreases n - i,
    {
        proof {
            assert((i + 1) * t <= t * n) by (nonlinear_arith)
                requires
                    i + 1 <= n,
                    t >= 0,
            ;
            lemma_mul_is_distributive_add_other_way(t as int, i as int, 1);
        }
        let drawn = slice_subrange(blocks, start, start + t);
        let poly = Polynomial::random_full(t - 1, drawn);
        assert(drawn@.take(t as int) =~= drawn@);
        assert(poly.values() == ps[i as int]);
        let commitments = commit(&poly);
        let shares = deal(&poly, n);
        let ghost before = contributions@;
        contributions.push(DkgContribution { index: i + 1, commitments, shares });
        start = start + t;
        i = i + 1;
        proof {
            assert forall|k: int| 0 <= k < i implies contributes(
                #[trigger] contributions@[k],
                k,
                ps.take(i as int)[k],
                n as nat,
            ) by {
                if k < i - 1 {
                    assert(contributes(before[k], k, ps.take(i - 1)[k], n as nat));
                }
            }
        }
    }
    proof {
        assert(ps.take(n as int) =~= ps);
        lemma_drawn_len(blocks@, t as nat, n as nat);
    }
    proof {
        assert forall|k: int| 0 <= k < contributions@.len() implies (
        #[trigger] contributions@[k]).shares@.len() >= n by {
            assert(contributes(contributions@[k], k, ps[k], n as nat));
        }
        assert forall|j: int| 0 <= j < n implies #[trigger] received_verify(contributions@, j) by {
            lemma_contributions_verify(contributions@, ps, n as nat, j);
        }
    }
    verify_contributions(&contributions, n)?;
    let group_public_key = sum_constants(&contributions, Ghost(ps), Ghost(n as nat));
    let mut key_shares: Vec<KeyShare> = Vec::new();
    let ghost f = interpolation::poly_total(ps);
    let mut i: u32 = 0;
    while i < n
        invariant
            i <= n,
            contribute(contributions@, ps, n as nat),
            f == interpolation::poly_total(ps),
            group_public_key@ == point::base_times(interpolation::poly_value(f, 0)),
            key_shares@.len() == i,
            forall|k: int| 0 <= k < i ==> share_of(#[trigger] key_shares@[k], k, n as nat, f),
        decreases n - i,
    {
        let secret = sum_shares(&contributions, i as usize, Ghost(ps), Ghost(n as nat));
        let mut verification_shares: Vec<(ParticipantIndex, EdwardsPoint)> = Vec::new();
        let mut j: u32 = 0;
        while j < n
            invariant
                j <= n,
                contribute(contributions@, ps, n as nat),
                f == interpolation::poly_total(ps),
                verification_shares@.len() == j,
                forall|k: int|
                    0 <= k < j ==> (#[trigger] verification_shares@[k]).0 == k + 1
                        && verification_shares@[k].1@ == point::base_times(
                        interpolation::poly_value(f, k + 1),
                    ),
            decreases n - j,
        {
            j = j + 1;
            verification_shares.push(
                (j, verification_share(&contributions, j, Ghost(ps), Ghost(n as nat))),
            );
        }
        i = i + 1;
        key_shares.push(KeyShare { index: i, secret, group_public_key, verification_shares });
    }
    Ok(key_shares)
}

/// The polynomial that the group shares has as many coefficients as the threshold says.
pub proof fn lemma_group_polynomial_len(blocks: Seq<[u8; 64]>, t: nat, n: nat)
    requires
        n > 0,
        t * n <= blocks.len(),
    ensures
        group_polynomial(blocks, t, n).len() == t,
{
    lemma_drawn_len(blocks, t, n);
    interpolation::lemma_poly_total_len(drawn_polynomials(blocks, t, n), t);
}

/// The indices of the participants at the given positions.
pub open spec fn indices_at(shares: Seq<KeyShare>, positions: Seq<int>) -> Seq<ParticipantIndex> {
    Seq::new(positions.len(), |k: int| shares[positions[k]].index)
}

/// The secrets of the participants at the given positions, each times its Lagrange coefficient
/// among them.
pub open spec fn weighted_secrets(shares: Seq<KeyShare>, positions: Seq<int>) -> Seq<int> {
    Seq::new(
        positions.len(),
        |k: int|
            lagrange::coefficient(
                shares[positions[k]].index,
                indices_at(shares, positions),
            ) * shares[positions[k]].secret.value(),
    )
}

/// The positions are distinct positions of participants.
pub open spec fn are_positions(positions: Seq<int>, n: nat) -> bool {
    &&& forall|k: int| 0 <= k < positions.len() ==> 0 <= #[trigger] positions[k] < n
    &&& forall|j: int, k: int|
        0 <= j < k < positions.len() ==> #[trigger] positions[j] != #[trigger] positions[k]
}

/// The participants at distinct positions have distinct indices.
pub proof fn lemma_indices_distinct(shares: Seq<KeyShare>, f: Seq<int>, positions: Seq<int>)
    requires
        shares_of(shares, f),
        are_positions(positions, shares.len()),
    ensures
        lagrange::distinct(indices_at(shares, positions)),
{
    let signers = indices_at(shares, positions);
    assert forall|j: int, k: int| 0 <= j < k < signers.len() implies #[trigger] signers[j]
        != #[trigger] signers[k] by {
        assert(share_of(shares[positions[j]], positions[j], shares.len(), f));
        assert(share_of(shares[positions[k]], positions[k], shares.len(), f));
        assert(positions[j] != positions[k]);
    }
}

/// As many participants as the shared polynomial has coefficients, whoever they are, reconstruct
/// the group's secret: their secrets, each times its Lagrange coefficient among them, add up to
/// the polynomial's constant term.
pub proof fn law_secret_reconstructed(shares: Seq<KeyShare>, f: Seq<int>, positions: Seq<int>)
    requires
        shares_of(shares, f),
        are_positions(positions, shares.len()),
        f.len() <= positions.len(),
    ensures
        modular::congruent(
            interpolation::sum(weighted_secrets(shares, positions)),
            interpolation::poly_value(f, 0),
            order::group_order(),
        ),
        forall|i: int|
            0 <= i < shares.len() ==> (#[trigger] shares[i]).group_public_key@
                == point::base_times(interpolation::sum(weighted_secrets(shares, positions))),
{
    let q = order::group_order();
    let signers = indices_at(shares, positions);
    order::lemma_group_order_large();
    lemma_indices_distinct(shares, f, positions);
    lagrange::law_interpolation(signers, f);
    let exact = Seq::new(
        signers.len(),
        |k: int|
            lagrange::coefficient(signers[k], signers) * interpolation::poly_value(
                f,
                signers[k] as int,
            ),
    );
    let weighted = weighted_secrets(shares, positions);
    assert forall|k: int| 0 <= k < weighted.len() implies modular::congruent(
        #[trigger] weighted[k],
        exact[k],
        q,
    ) by {
        let i = positions[k];
        assert(share_of(shares[i], i, shares.len(), f));
        lemma_mul_mod_noop_right(
            lagrange::coefficient(signers[k], signers),
            interpolation::poly_value(f, i + 1),
            q,
        );
    }
    interpolation::lemma_sum_congruent(weighted, exact, q);
    assert forall|i: int| 0 <= i < shares.len() implies (#[trigger] shares[i]).group_public_key@
        == point::base_times(interpolation::sum(weighted)) by {
        assert(share_of(shares[i], i, shares.len(), f));
        point::lemma_base_equal(
            interpolation::sum(weighted),
            interpolation::poly_value(f, 0),
        );
    }
}

/// Fewer participants than the shared polynomial has coefficients learn nothing of the group's
/// secret from their own: whatever the secret is, there is a polynomial with as many coefficients
/// that gives these participants the secrets they hold.
pub proof fn law_fewer_secrets_leave_key_open(
    shares: Seq<KeyShare>,
    f: Seq<int>,
    positions: Seq<int>,
    secret: int,
)
    requires
        shares_of(shares, f),
        are_positions(positions, shares.len()),
        positions.len() < f.len(),
    ensures
        exists|g: Seq<int>|
            g.len() == f.len() && #[trigger] modular::congruent(
                interpolation::poly_value(g, 0),
                secret,
                order::group_order(),
            ) && forall|k: int|
                0 <= k < positions.len() ==> (#[trigger] shares[positions[k]]).secret.value()
                    == interpolation::poly_value(g, positions[k] + 1) % order::group_order(),
{
    let q = order::group_order();
    order::lemma_group_order_large();
    order::lemma_group_order_has_no_small_divisor();
    let xs = Seq::new(positions.len(), |k: int| positions[k] + 1);
    assert forall|k: int| 0 <= k < xs.len() implies modular::invertible(#[trigger] xs[k], q) by {
        let i = positions[k];
        assert(share_of(shares[i], i, shares.len(), f));
        modular::lemma_small_invertible(xs[k], 4294967296, q);
    }
    let g = interpolation::lemma_values_leave_constant_open(f, xs, secret, q);
    assert forall|k: int| 0 <= k < positions.len() implies (
    #[trigger] shares[positions[k]]).secret.value() == interpolation::poly_value(
        g,
        positions[k] + 1,
    ) % q by {
        let i = positions[k];
        assert(share_of(shares[i], i, shares.len(), f));
        assert(xs[k] == i + 1);
    }
    assert(modular::congruent(interpolation::poly_value(g, 0), secret, q));
}

/// Key shares are determined by the polynomial that they are taken from: two dealings of the same
/// polynomial to equally many participants give the same shares.
pub proof fn law_shares_determined(a: Seq<KeyShare>, b: Seq<KeyShare>, f: Seq<int>)
    requires
        shares_of(a, f),
        shares_of(b, f),
        a.len() == b.len(),
    ensures
        forall|i: int|
            0 <= i < a.len() ==> (#[trigger] a[i]).index == b[i].index && a[i].secret.value()
                == b[i].secret.value() && a[i].group_public_key@ == b[i].group_public_key@,
{
    assert forall|i: int| 0 <= i < a.len() implies (#[trigger] a[i]).index == b[i].index
        && a[i].secret.value() == b[i].secret.value() && a[i].group_public_key@
        == b[i].group_public_key@ by {
        assert(share_of(a[i], i, a.len(), f));
        assert(share_of(b[i], i, b.len(), f));
    }
}

/// The shares that a key generation deals are reconstructed by as many participants as the
/// threshold says, whoever they are: their secrets, each times its Lagrange coefficient among them,
/// add up to a secret whose public key is the group's.
pub proof fn law_generated_key_reconstructed(
    shares: Seq<KeyShare>,
    blocks: Seq<[u8; 64]>,
    t: nat,
    positions: Seq<int>,
)
    requires
        shares.len() > 0,
        t * shares.len() <= blocks.len(),
        shares_of(shares, group_polynomial(blocks, t, shares.len())),
        are_positions(positions, shares.len()),
        positions.len() >= t,
    ensures
        forall|i: int|
            0 <= i < shares.len() ==> (#[trigger] shares[i]).group_public_key@
                == point::base_times(interpolation::sum(weighted_secrets(shares, positions))),
{
    lemma_group_polynomial_len(blocks, t, shares.len());
    law_secret_reconstructed(shares, group_polynomial(blocks, t, shares.len()), positions);
}

/// The coefficients that the participants draw are the values of the blocks in turn.
pub proof fn lemma_drawn(blocks: Seq<[u8; 64]>, t: nat, n: nat, i: int, k: int)
    requires
        t * n <= blocks.len(),
        0 <= i < n,
        0 <= k < t,
    ensures
        0 <= i * t + k < blocks.len(),
        drawn_polynomials(blocks, t, n)[i].len() == t,
        drawn_polynomials(blocks, t, n)[i][k] == scalar_ext::block_value(blocks[i * t + k]@),
{
    lemma_drawn_len(blocks, t, n);
    assert(0 <= i * t && i * t + t <= t * n) by (nonlinear_arith)
        requires
            0 <= i,
            i + 1 <= n,
            t >= 0,
    ;
    assert(drawn_polynomials(blocks, t, n)[i].len() == t);
    assert(blocks.subrange(i * t, i * t + t)[k] == blocks[i * t + k]);
}

/// The participants draw on their own and the group shares the sum of what they draw: each of the
/// `t` coefficients is the sum of the values of one block from every participant.
pub proof fn law_group_polynomial_adds_draws(blocks: Seq<[u8; 64]>, t: nat, n: nat, k: int)
    requires
        n > 0,
        t * n <= blocks.len(),
        0 <= k < t,
    ensures
        group_polynomial(blocks, t, n).len() == t,
        group_polynomial(blocks, t, n)[k] == interpolation::sum(
            Seq::new(n, |i: int| scalar_ext::block_value(blocks[i * t + k]@)),
        ),
{
    let ps = drawn_polynomials(blocks, t, n);
    lemma_drawn_len(blocks, t, n);
    interpolation::lemma_total_coefficient(ps, t, k);
    let drawn = Seq::new(n, |i: int| scalar_ext::block_value(blocks[i * t + k]@));
    let column = Seq::new(ps.len(), |i: int| ps[i][k]);
    assert forall|i: int| 0 <= i < n implies column[i] == drawn[i] by {
        lemma_drawn(blocks, t, n, i, k);
    }
    assert(column =~= drawn);
}

/// Every draw counts: if of two key generations one participant draws one coefficient differently,
/// each secret differs by the difference times the power of the index that the coefficient belongs
/// to, and the group's key by the difference if it is the constant term.
pub proof fn law_every_draw_counts(
    shares: Seq<KeyShare>,
    blocks: Seq<[u8; 64]>,
    other_shares: Seq<KeyShare>,
    other_blocks: Seq<[u8; 64]>,
    t: nat,
    i: int,
    k: int,
)
    requires
        0 <= i < shares.len(),
        0 <= k < t,
        t * shares.len() <= blocks.len(),
        other_shares.len() == shares.len(),
        other_blocks.len() == blocks.len(),
        forall|p: int|
            0 <= p < blocks.len() && p != i * t + k ==> #[trigger] other_blocks[p] == blocks[p],
        shares_of(shares, group_polynomial(blocks, t, shares.len())),
        shares_of(other_shares, group_polynomial(other_blocks, t, shares.len())),
    ensures
        ({
            let d = scalar_ext::block_value(other_blocks[i * t + k]@) - scalar_ext::block_value(
                blocks[i * t + k]@,
            );
            forall|j: int|
                0 <= j < shares.len() ==> modular::congruent(
                    (#[trigger] other_shares[j]).secret.value() as int,
                    shares[j].secret.value() + d * pow(j + 1, k as nat),
                    order::group_order(),
                ) && other_shares[j].group_public_key@ == (if k == 0 {
                    shares[j].group_public_key@.plus(point::base_times(d))
                } else {
                    shares[j].group_public_key@
                })
        }),
{
    let n = shares.len();
    let q = order::group_order();
    let ps = drawn_polynomials(blocks, t, n);
    let qs = drawn_polynomials(other_blocks, t, n);
    let f = group_polynomial(blocks, t, n);
    let g = group_polynomial(other_blocks, t, n);
    lemma_drawn_len(blocks, t, n);
    lemma_drawn_len(other_blocks, t, n);
    assert forall|j: int, m: int|
        0 <= j < n && 0 <= m < t && !(j == i && m == k) implies (#[trigger] qs[j][m])
        == ps[j][m] by {
        lemma_drawn(blocks, t, n, j, m);
        lemma_drawn(other_blocks, t, n, j, m);
        assert(j * t + m != i * t + k) by (nonlinear_arith)
            requires
                0 <= m < t,
                0 <= k < t,
                !(j == i && m == k),
        ;
        assert(other_blocks[j * t + m] == blocks[j * t + m]);
    }
    interpolation::lemma_total_updated(ps, qs, t, i, k);
    lemma_drawn(blocks, t, n, i, k);
    lemma_drawn(other_blocks, t, n, i, k);
    let d = qs[i][k] - ps[i][k];
    interpolation::lemma_total_coefficient(ps, t, k);
    order::lemma_group_order_large();
    assert forall|j: int| 0 <= j < n implies modular::congruent(
        (#[trigger] other_shares[j]).secret.value() as int,
        shares[j].secret.value() + d * pow(j + 1, k as nat),
        q,
    ) && other_shares[j].group_public_key@ == (if k == 0 {
        shares[j].group_public_key@.plus(point::base_times(d))
    } else {
        shares[j].group_public_key@
    }) by {
        assert(share_of(shares[j], j, n, f));
        assert(share_of(other_shares[j], j, n, g));
        interpolation::lemma_value_updated(f, k, f[k] + d, j + 1);
        let w = d * pow(j + 1, k as nat);
        let v = interpolation::poly_value(f, j + 1);
        lemma_mod_twice(v + w, q);
        lemma_add_mod_noop_right(w, v, q);
        interpolation::lemma_value_updated(f, k, f[k] + d, 0);
        if k == 0 {
            lemma_pow0(0);
            point::lemma_base_sum(interpolation::poly_value(f, 0), d);
        } else {
            lemma0_pow(k as nat);
            assert(d * 0 == 0);
        }
    }
}

/// Everyone knows the public key of everyone's secret: it is the base point times the secret.
pub proof fn law_public_keys_of_secrets(shares: Seq<KeyShare>, f: Seq<int>, i: int, j: int)
    requires
        shares_of(shares, f),
        0 <= i < shares.len(),
        0 <= j < shares.len(),
    ensures
        shares[i].verification_shares@.len() == shares.len(),
        shares[i].verification_shares@[j].0 == shares[j].index,
        shares[i].verification_shares@[j].1@ == point::base_times(
            shares[j].secret.value() as int,
        ),
{
    let q = order::group_order();
    order::lemma_group_order_large();
    assert(share_of(shares[i], i, shares.len(), f));
    assert(share_of(shares[j], j, shares.len(), f));
    assert(shares[i].verification_shares@[j].0 == j + 1);
    let v = interpolation::poly_value(f, j + 1);
    lemma_mod_twice(v, q);
    point::lemma_base_equal(v % q, v);
}

/// Which positions a law speaks of: any that are distinct and within the group.
pub proof fn law_any_positions(positions: Seq<int>, n: nat)
    ensures
        are_positions(positions, n) <==> positions.no_duplicates() && forall|k: int|
            0 <= k < positions.len() ==> 0 <= #[trigger] positions[k] < n,
{
    if are_positions(positions, n) {
        assert forall|i: int, j: int|
            0 <= i < positions.len() && 0 <= j < positions.len() && i != j implies positions[i]
            != positions[j] by {
            if i < j {
                assert(positions[i] != positions[j]);
            } else {
                assert(positions[j] != positions[i]);
            }
        }
    }
}

/// A share that a participant receives is checked against what the sender has committed to: whoever
/// sends another value than that of the committed polynomial at the receiver's index is found out.
pub proof fn law_wrong_shares_found_out(
    contributions: Seq<DkgContribution>,
    sender: int,
    receiver: int,
    c: Seq<int>,
)
    requires
        0 <= sender < contributions.len(),
        0 <= receiver < u32::MAX,
        commits_to(contributions[sender].commitments@, c),
        contributions[sender].shares@[receiver].1.value() != interpolation::poly_value(
            c,
            receiver + 1,
        ) % order::group_order(),
    ensures
        !received_verify(contributions, receiver),
{
    law_share_verifies(
        (receiver + 1) as u32,
        contributions[sender].shares@[receiver].1,
        contributions[sender].commitments@,
        c,
    );
    if received_verify(contributions, receiver) {
        assert(share_verifies(
            receiver + 1,
            contributions[sender].shares@[receiver].1,
            contributions[sender].commitments@,
        ));
    }
}

/// The value of a polynomial with committed coefficients, whatever points the commitments are: that
/// without coefficients is the neutral element, and a further coefficient adds its commitment times
/// the power of the point that it belongs to.
pub proof fn law_committed_value(cs: Seq<point::Element>, c: point::Element, x: int)
    ensures
        commitment_value(Seq::<point::Element>::empty(), x) == point::base_times(0),
        commitment_value(cs.push(c), x) == commitment_value(cs, x).plus(
            c.times((pow(x, cs.len()) % order::group_order()) as nat),
        ),
{
    assert(cs.push(c).drop_last() =~= cs);
}

} // verus!
