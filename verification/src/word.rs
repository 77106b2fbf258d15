//! Integers of 256 bits as 32 bytes.

use crate::value::word_base;
use vstd::arithmetic::div_mod::{lemma_fundamental_div_mod, lemma_fundamental_div_mod_converse};
use vstd::prelude::*;

verus! {

/// 256 to the power of `exponent`.
pub open spec fn byte_weight(exponent: nat) -> int
    decreases exponent,
{
    if exponent == 0 {
        1
    } else {
        256 * byte_weight((exponent - 1) as nat)
    }
}

/// The 32 bytes of a number in two's complement, the most significant first.
pub open spec fn word(number: int) -> Seq<u8> {
    Seq::new(32, |i: int| ((number / byte_weight((31 - i) as nat)) % 256) as u8)
}

/// Whether a number is a signed integer of 256 bits.
pub open spec fn is_signed_word(number: int) -> bool {
    -byte_weight(32) <= 2 * number < byte_weight(32)
}

/// Whether a number is an unsigned integer of 256 bits.
pub open spec fn is_unsigned_word(number: int) -> bool {
    0 <= number < byte_weight(32)
}

/// The 32 bytes of the signed integer with the upper half `high` and the
/// lower half `low`, the most significant byte first.
///
/// Trusted: the body makes the integer with `I256::from_words` and asks
/// `I256::to_be_bytes` for its bytes, both of the crate ethnum, which solabi
/// hands on as `solabi::ethprim::I256`. The contract claims that the bytes
/// are the big-endian two's complement of `high` times 2 to the 128th plus
/// `low`.
#[verifier::external_body]
pub(crate) fn signed_word(high: i128, low: u128) -> (bytes: Vec<u8>)
    ensures
        bytes@ == word(high * byte_weight(16) + low),
{
    solabi::ethprim::I256::from_words(high, low as i128).to_be_bytes().to_vec()
}

/// The 32 bytes of the unsigned integer with the upper half `high` and the
/// lower half `low`, the most significant byte first.
///
/// Trusted: the body makes the integer with `U256::from_words` and asks
/// `U256::to_be_bytes` for its bytes, both of the crate ethnum, which solabi
/// hands on as `solabi::ethprim::U256`. The contract claims that the bytes
/// are those of `high` times 2 to the 128th plus `low`, big-endian.
#[verifier::external_body]
pub(crate) fn unsigned_word(high: u128, low: u128) -> (bytes: Vec<u8>)
    ensures
        bytes@ == word(high * byte_weight(16) + low),
{
    solabi::ethprim::U256::from_words(high, low).to_be_bytes().to_vec()
}

/// 256 to the power of 16 is 2 to the power of 128, and 256 to the power of
/// 32 is its square.
pub proof fn lemma_word_base()
    ensures
        byte_weight(16) == word_base(),
        byte_weight(32) == word_base() * word_base(),
{
    reveal_with_fuel(byte_weight, 17);
    lemma_byte_weight_add(16, 16);
}

/// A power of 256 is positive.
pub proof fn lemma_byte_weight_positive(exponent: nat)
    ensures
        byte_weight(exponent) > 0,
    decreases exponent,
{
    if exponent > 0 {
        lemma_byte_weight_positive((exponent - 1) as nat);
    }
}

/// Powers of 256 multiply as their exponents add.
pub proof fn lemma_byte_weight_add(left: nat, right: nat)
    ensures
        byte_weight(left + right) == byte_weight(left) * byte_weight(right),
    decreases right,
{
    if right == 0 {
        assert(byte_weight(left) * 1 == byte_weight(left));
    } else {
        let before = (right - 1) as nat;
        lemma_byte_weight_add(left, before);
        assert(left + right == (left + before) + 1);
        assert(256 * (byte_weight(left) * byte_weight(before)) == byte_weight(left) * (256
            * byte_weight(before))) by (nonlinear_arith);
    }
}

/// The number that the lowest `count` bytes of the two's complement of
/// `number` make.
pub open spec fn low_bytes(number: int, count: nat) -> int
    decreases count,
{
    if count == 0 {
        0
    } else {
        let last = (count - 1) as nat;
        low_bytes(number, last) + ((number / byte_weight(last)) % 256) * byte_weight(last)
    }
}

/// The lowest bytes of a number make its remainder by the power of 256.
pub proof fn lemma_low_bytes(number: int, count: nat)
    ensures
        low_bytes(number, count) == number % byte_weight(count),
    decreases count,
{
    if count == 0 {
        assert(number % 1 == 0);
    } else {
        let last = (count - 1) as nat;
        let weight = byte_weight(last);
        lemma_low_bytes(number, last);
        lemma_byte_weight_positive(last);
        let quotient = number / weight;
        let rest = number % weight;
        lemma_fundamental_div_mod(number, weight);
        lemma_fundamental_div_mod(quotient, 256);
        let digit = quotient % 256;
        let upper = quotient / 256;
        assert(0 <= digit < 256);
        assert(0 <= rest < weight);
        assert(0 <= digit * weight + rest < 256 * weight) by (nonlinear_arith)
            requires
                0 <= digit < 256,
                0 <= rest < weight,
        ;
        assert(number == upper * (256 * weight) + (digit * weight + rest)) by (nonlinear_arith)
            requires
                number == weight * quotient + rest,
                quotient == 256 * upper + digit,
        ;
        lemma_fundamental_div_mod_converse(number, 256 * weight, upper, digit * weight + rest);
    }
}

/// Numbers with the same bytes have the same lowest bytes.
proof fn lemma_same_low_bytes(left: int, right: int, count: nat)
    requires
        count <= 32,
        word(left) == word(right),
    ensures
        low_bytes(left, count) == low_bytes(right, count),
    decreases count,
{
    if count > 0 {
        let last = (count - 1) as nat;
        lemma_same_low_bytes(left, right, last);
        let at = 31 - last;
        assert(word(left)[at] == word(right)[at]);
        assert(word(left)[at] == ((left / byte_weight(last)) % 256) as u8);
        assert(word(right)[at] == ((right / byte_weight(last)) % 256) as u8);
    }
}

/// Numbers with the same 32 bytes differ by a multiple of 256 to the power
/// of 32.
pub proof fn lemma_word_remainder(left: int, right: int)
    requires
        word(left) == word(right),
    ensures
        left % byte_weight(32) == right % byte_weight(32),
{
    lemma_same_low_bytes(left, right, 32);
    lemma_low_bytes(left, 32);
    lemma_low_bytes(right, 32);
}

/// The bytes of an unsigned integer of 256 bits tell which one it is.
pub proof fn lemma_unsigned_word_is_lossless(left: int, right: int)
    requires
        is_unsigned_word(left),
        is_unsigned_word(right),
        word(left) == word(right),
    ensures
        left == right,
{
    lemma_word_remainder(left, right);
    let weight = byte_weight(32);
    lemma_fundamental_div_mod_converse(left, weight, 0, left);
    lemma_fundamental_div_mod_converse(right, weight, 0, right);
}

/// The bytes of a signed integer of 256 bits tell which one it is.
pub proof fn lemma_signed_word_is_lossless(left: int, right: int)
    requires
        is_signed_word(left),
        is_signed_word(right),
        word(left) == word(right),
    ensures
        left == right,
{
    lemma_word_remainder(left, right);
    let weight = byte_weight(32);
    if left >= 0 {
        lemma_fundamental_div_mod_converse(left, weight, 0, left);
    } else {
        lemma_fundamental_div_mod_converse(left, weight, -1, left + weight);
    }
    if right >= 0 {
        lemma_fundamental_div_mod_converse(right, weight, 0, right);
    } else {
        lemma_fundamental_div_mod_converse(right, weight, -1, right + weight);
    }
}

} // verus!
