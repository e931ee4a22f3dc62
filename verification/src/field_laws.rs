//! The laws of the field, proved of the arithmetic on binary expressions.

use vstd::prelude::*;
use crate::fe::carryless_product;
use crate::fe::gf32_add;
use crate::fe::gf32_mul;
use crate::fe::is_element;
use crate::fe::reduce;

verus! {

/// The sum of two field elements is a field element.
pub proof fn lemma_add_closed(a: u8, b: u8)
    by (bit_vector)
    requires
        is_element(a),
        is_element(b),
    ensures
        is_element(gf32_add(a, b)),
{
}

/// Addition is commutative.
pub proof fn lemma_add_commutative(a: u8, b: u8)
    by (bit_vector)
    ensures
        gf32_add(a, b) == gf32_add(b, a),
{
}

/// Addition is associative.
pub proof fn lemma_add_associative(a: u8, b: u8, c: u8)
    by (bit_vector)
    ensures
        gf32_add(gf32_add(a, b), c) == gf32_add(a, gf32_add(b, c)),
{
}

/// Zero is the identity of addition, and every element is its own negative.
pub proof fn lemma_add_zero(a: u8)
    by (bit_vector)
    ensures
        gf32_add(a, 0) == a,
        gf32_add(0, a) == a,
        gf32_add(a, a) == 0,
{
}

/// Adding an element twice gives back what it was added to.
pub proof fn lemma_add_self_inverse(a: u8, b: u8)
    by (bit_vector)
    ensures
        gf32_add(gf32_add(a, b), b) == a,
{
}

/// Two elements differ exactly when their sum is not zero.
pub proof fn lemma_add_zero_iff_equal(a: u8, b: u8)
    by (bit_vector)
    ensures
        gf32_add(a, b) == 0 <==> a == b,
{
}

/// The product of any two bytes is a field element.
pub proof fn lemma_mul_closed(a: u8, b: u8)
    by (bit_vector)
    ensures
        is_element(gf32_mul(a, b)),
{
}

/// Multiplication is commutative.
pub proof fn lemma_mul_commutative(a: u8, b: u8)
    by (bit_vector)
    requires
        is_element(a),
        is_element(b),
    ensures
        gf32_mul(a, b) == gf32_mul(b, a),
{
}

/// Multiplication is associative.
pub proof fn lemma_mul_associative(a: u8, b: u8, c: u8)
    by (bit_vector)
    requires
        is_element(a),
        is_element(b),
        is_element(c),
    ensures
        gf32_mul(gf32_mul(a, b), c) == gf32_mul(a, gf32_mul(b, c)),
{
}

/// The product before reduction is additive in its second factor.
proof fn lemma_carryless_product_additive(a: u8, b: u8, c: u8)
    by (bit_vector)
    ensures
        carryless_product(a, b ^ c) == carryless_product(a, b) ^ carryless_product(a, c),
{
}

/// Reduction is additive.
proof fn lemma_reduce_additive(p: u16, q: u16)
    by (bit_vector)
    ensures
        reduce(p ^ q) == reduce(p) ^ reduce(q),
{
}

/// The product before reduction is additive in its first factor.
proof fn lemma_carryless_product_additive_left(a: u8, b: u8, c: u8)
    by (bit_vector)
    ensures
        carryless_product(a ^ b, c) == carryless_product(a, c) ^ carryless_product(b, c),
{
}

/// Multiplication distributes over addition.
pub proof fn lemma_mul_distributes(a: u8, b: u8, c: u8)
    ensures
        gf32_mul(a, gf32_add(b, c)) == gf32_add(gf32_mul(a, b), gf32_mul(a, c)),
{
    lemma_carryless_product_additive(a, b, c);
    lemma_reduce_additive(carryless_product(a, b), carryless_product(a, c));
}

/// Multiplication distributes over addition in its first factor too.
pub proof fn lemma_mul_distributes_left(a: u8, b: u8, c: u8)
    ensures
        gf32_mul(gf32_add(a, b), c) == gf32_add(gf32_mul(a, c), gf32_mul(b, c)),
{
    lemma_carryless_product_additive_left(a, b, c);
    lemma_reduce_additive(carryless_product(a, c), carryless_product(b, c));
}

/// One is the identity of multiplication.
pub proof fn lemma_mul_one(a: u8)
    by (bit_vector)
    requires
        is_element(a),
    ensures
        gf32_mul(a, 1) == a,
        gf32_mul(1, a) == a,
{
}

/// Zero times anything is zero.
pub proof fn lemma_mul_zero(a: u8)
    by (bit_vector)
    ensures
        gf32_mul(a, 0) == 0,
        gf32_mul(0, a) == 0,
{
}

/// A product is zero only if one of its factors is.
pub proof fn lemma_no_zero_divisors(a: u8, b: u8)
    by (bit_vector)
    requires
        is_element(a),
        is_element(b),
        gf32_mul(a, b) == 0,
    ensures
        a == 0 || b == 0,
{
}

} // verus!
