//! Scalars from random and from hashed bytes.

use crate::hashing;
use crate::hashing::sha512_digest;
use crate::modular;
use crate::order;
use crate::scalar;
use crate::scalar::Scalar;
use vstd::arithmetic::div_mod::*;
use vstd::arithmetic::power::*;
use vstd::prelude::*;

verus! {

/// The value of the scalar that a block of 64 random bytes gives.
pub open spec fn block_value(block: Seq<u8>) -> int {
    scalar::little_endian(block) as int % order::group_order()
}

/// The value of the scalar that a message hashes to.
pub open spec fn hash_value(data: Seq<u8>) -> int {
    block_value(hashing::sha512(data))
}

/// The scalar of a block of random bytes.
pub fn random_scalar(block: &[u8; 64]) -> (r: Scalar)
    ensures
        r.value() == block_value(block@),
{
    Scalar::from_bytes_mod_order_wide(block)
}

/// Hashes a message to a scalar.
pub fn hash_to_scalar(data: &[u8]) -> (r: Scalar)
    ensures
        r.value() == hash_value(data@),
{
    let wide = sha512_digest(data);
    Scalar::from_bytes_mod_order_wide(&wide)
}

/// The value of a block is below the group order.
pub proof fn lemma_block_value_bound(block: Seq<u8>)
    ensures
        0 <= block_value(block) < order::group_order(),
{
    order::lemma_group_order_large();
    lemma_mod_bound(scalar::little_endian(block) as int, order::group_order());
}

/// Every byte counts: if one byte of a block differs, the value differs by the difference times
/// the power of 256 that the byte stands for, modulo the group order, and a block of zeros has the
/// value zero.
pub proof fn law_every_byte_counts(block: Seq<u8>, other: Seq<u8>, k: int)
    requires
        0 <= k < block.len(),
        other.len() == block.len(),
        forall|i: int| 0 <= i < block.len() && i != k ==> #[trigger] other[i] == block[i],
    ensures
        modular::congruent(
            block_value(other),
            block_value(block) + (other[k] - block[k]) * pow(256, k as nat),
            order::group_order(),
        ),
        (forall|i: int| 0 <= i < block.len() ==> #[trigger] block[i] == 0) ==> block_value(block)
            == 0,
{
    let q = order::group_order();
    order::lemma_group_order_large();
    lemma_byte_changed(block, other, k);
    let a = scalar::little_endian(block) as int;
    let w = (other[k] - block[k]) * pow(256, k as nat);
    lemma_mod_twice(a + w, q);
    lemma_add_mod_noop_right(w, a, q);
    if forall|i: int| 0 <= i < block.len() ==> #[trigger] block[i] == 0 {
        lemma_zero_bytes(block);
        lemma_small_mod(0, q as nat);
    }
}

proof fn lemma_zero_bytes(block: Seq<u8>)
    requires
        forall|i: int| 0 <= i < block.len() ==> #[trigger] block[i] == 0,
    ensures
        scalar::little_endian(block) == 0,
    decreases block.len(),
{
    if block.len() > 0 {
        assert(block[0] == 0);
        assert forall|i: int| 0 <= i < block.drop_first().len() implies #[trigger] block.drop_first()[i]
            == 0 by {
            assert(block[i + 1] == 0);
        }
        lemma_zero_bytes(block.drop_first());
    }
}

proof fn lemma_byte_changed(block: Seq<u8>, other: Seq<u8>, k: int)
    requires
        0 <= k < block.len(),
        other.len() == block.len(),
        forall|i: int| 0 <= i < block.len() && i != k ==> #[trigger] other[i] == block[i],
    ensures
        scalar::little_endian(other) == scalar::little_endian(block) + (other[k] - block[k]) * pow(
            256,
            k as nat,
        ),
    decreases k,
{
    let a = block.drop_first();
    let b = other.drop_first();
    if k == 0 {
        lemma_pow0(256);
        assert(a =~= b) by {
            assert forall|i: int| 0 <= i < a.len() implies a[i] == b[i] by {
                assert(other[i + 1] == block[i + 1]);
            }
        }
    } else {
        assert(other[0] == block[0]);
        assert forall|i: int| 0 <= i < a.len() && i != k - 1 implies #[trigger] b[i] == a[i] by {
            assert(other[i + 1] == block[i + 1]);
        }
        lemma_byte_changed(a, b, k - 1);
        lemma_pow1(256);
        lemma_pow_adds(256, 1, (k - 1) as nat);
        let d = other[k] - block[k];
        let w = pow(256, (k - 1) as nat);
        assert(256 * (d * w) == d * (256 * w)) by (nonlinear_arith);
    }
}

/// A message hashes to the value of its SHA-512 digest, all 64 bytes of it.
pub proof fn law_hash_is_digest(data: Seq<u8>)
    ensures
        modular::congruent(
            hash_value(data),
            scalar::little_endian(hashing::sha512(data)) as int,
            order::group_order(),
        ),
        0 <= hash_value(data) < order::group_order(),
{
    order::lemma_group_order_large();
    lemma_block_value_bound(hashing::sha512(data));
    lemma_mod_twice(scalar::little_endian(hashing::sha512(data)) as int, order::group_order());
}

} // verus!
