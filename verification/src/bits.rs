//! The mathematics of bit strings: how numbers and bytes are laid out as
//! bits on the wire.
//!
//! A number is written least significant bit first, and a byte is a number
//! of eight bits, so a number written at a byte boundary appears in the
//! byte stream in little-endian order.

use vstd::arithmetic::div_mod::*;
use vstd::arithmetic::mul::*;
use vstd::arithmetic::power2::*;
use vstd::prelude::*;

verus! {

/// Bit `index` of a number, counted from the least significant bit.
pub open spec fn bit_of(value: nat, index: nat) -> bool {
    (value / pow2(index)) % 2 == 1
}

/// The `width` lowest bits of a number, least significant first.
pub open spec fn uint_bits(value: nat, width: nat) -> Seq<bool> {
    Seq::new(width, |i: int| bit_of(value, i as nat))
}

/// The number that a bit string denotes, least significant bit first.
pub open spec fn bits_value(bits: Seq<bool>) -> nat
    decreases bits.len(),
{
    if bits.len() == 0 {
        0
    } else {
        bits_value(bits.drop_last()) + if bits.last() {
            pow2((bits.len() - 1) as nat)
        } else {
            0
        }
    }
}

/// The bits of a byte string: eight bits for each byte, in order.
pub open spec fn bytes_bits(bytes: Seq<u8>) -> Seq<bool> {
    Seq::new(8 * bytes.len(), |i: int| bit_of(bytes[i / 8] as nat, (i % 8) as nat))
}

/// The `count` bytes of a number in little-endian order.
pub open spec fn le_bytes(value: nat, count: nat) -> Seq<u8> {
    Seq::new(count, |i: int| ((value / pow2((8 * i) as nat)) % 256) as u8)
}

/// `count` bits that are all zero.
pub open spec fn zero_bits(count: nat) -> Seq<bool> {
    Seq::new(count, |i: int| false)
}

/// A bit string denotes a number below two to the power of its length.
pub proof fn lemma_bits_value_bound(bits: Seq<bool>)
    ensures
        bits_value(bits) < pow2(bits.len()),
    decreases bits.len(),
{
    if bits.len() == 0 {
        lemma2_to64();
    } else {
        lemma_bits_value_bound(bits.drop_last());
        lemma_pow2_unfold(bits.len());
    }
}

/// Dividing a sum by a divisor of one of its terms.
pub proof fn lemma_div_add_multiple(x: nat, m: nat, d: nat)
    requires
        d > 0,
    ensures
        (x + m * d) / d == x / d + m,
{
    lemma_fundamental_div_mod(x as int, d as int);
    let q = x as int / d as int;
    let r = x as int % d as int;
    lemma_mod_bound(x as int, d as int);
    assert(x + m * d == (q + m) * d + r) by (nonlinear_arith)
        requires
            x == d * q + r,
    ;
    lemma_fundamental_div_mod_converse((x + m * d) as int, d as int, q + m, r);
}

/// Adding a multiple of a higher power of two leaves the lower bits as
/// they are.
pub proof fn lemma_bit_of_low(x: nat, m: nat, k: nat, i: nat)
    requires
        i < k,
    ensures
        bit_of(x + m * pow2(k), i) == bit_of(x, i),
{
    let d = pow2(i);
    let e = pow2((k - i - 1) as nat);
    lemma_pow2_pos(i);
    lemma_pow2_adds(i, (k - i) as nat);
    lemma_pow2_unfold((k - i) as nat);
    assert(pow2(k) == d * (2 * e));
    assert(m * pow2(k) == (m * e * 2) * d) by (nonlinear_arith)
        requires
            pow2(k) == d * (2 * e),
    ;
    lemma_div_add_multiple(x, m * e * 2, d);
    let y = (x / d) as int;
    let t = (m * e) as int;
    lemma_mod_multiples_vanish(t, y, 2);
    assert(x / d + m * e * 2 == 2 * t + y);
}

/// A number below a power of two has no bit at or above that power.
pub proof fn lemma_bit_of_high(x: nat, k: nat, j: nat)
    requires
        x < pow2(k),
        k <= j,
    ensures
        !bit_of(x, j),
{
    if k < j {
        lemma_pow2_strictly_increases(k, j);
    }
    lemma_basic_div(x as int, pow2(j) as int);
}

/// Adding a power of two to a number below it sets exactly that bit.
pub proof fn lemma_bit_of_top(x: nat, k: nat)
    requires
        x < pow2(k),
    ensures
        bit_of(x + pow2(k), k),
{
    lemma_pow2_pos(k);
    lemma_fundamental_div_mod_converse((x + pow2(k)) as int, pow2(k) as int, 1, x as int);
}

/// Writing a bit string's number out again gives the bit string.
pub proof fn lemma_bits_of_value(bits: Seq<bool>)
    ensures
        uint_bits(bits_value(bits), bits.len()) == bits,
    decreases bits.len(),
{
    if bits.len() > 0 {
        let front = bits.drop_last();
        let k = front.len();
        let low = bits_value(front);
        lemma_bits_of_value(front);
        lemma_bits_value_bound(front);
        assert forall|i: int| 0 <= i < bits.len() implies bit_of(bits_value(bits), i as nat)
            == bits[i] by {
            if i < k {
                assert(uint_bits(low, k)[i] == front[i]);
                if bits.last() {
                    assert(low + pow2(k) == low + 1 * pow2(k)) by (nonlinear_arith);
                    lemma_bit_of_low(low, 1, k, i as nat);
                }
            } else {
                if bits.last() {
                    lemma_bit_of_top(low, k);
                } else {
                    lemma_bit_of_high(low, k, k);
                }
            }
        }
    }
    assert(uint_bits(bits_value(bits), bits.len()) =~= bits);
}

/// The number denoted by the lowest bits of a number is its remainder.
pub proof fn lemma_value_of_bits(value: nat, width: nat)
    ensures
        bits_value(uint_bits(value, width)) == value % pow2(width),
    decreases width,
{
    if width == 0 {
        lemma2_to64();
    } else {
        let k = (width - 1) as nat;
        assert(uint_bits(value, width).drop_last() =~= uint_bits(value, k));
        lemma_value_of_bits(value, k);
        lemma_pow2_pos(k);
        lemma_pow2_unfold(width);
        lemma_breakdown(value as int, pow2(k) as int, 2);
        assert(pow2(width) == pow2(k) * 2) by (nonlinear_arith)
            requires
                pow2(width) == 2 * pow2(k),
        ;
        let top = (value / pow2(k)) % 2;
        assert(pow2(k) * top == if top == 1 { pow2(k) } else { 0 }) by (nonlinear_arith)
            requires
                top == 0 || top == 1,
        ;
    }
}

/// A number that fits in `width` bits is what its bits denote.
pub proof fn lemma_uint_round_trip(value: nat, width: nat)
    requires
        value < pow2(width),
    ensures
        bits_value(uint_bits(value, width)) == value,
{
    lemma_value_of_bits(value, width);
    lemma_small_mod(value, pow2(width));
}

/// The bits of a quotient by a power of two are the higher bits.
pub proof fn lemma_bit_of_quotient(value: nat, a: nat, i: nat)
    ensures
        bit_of(value / pow2(a), i) == bit_of(value, a + i),
{
    lemma_pow2_pos(a);
    lemma_pow2_pos(i);
    lemma_pow2_adds(a, i);
    lemma_div_denominator(value as int, pow2(a) as int, pow2(i) as int);
}

/// The bits of a remainder by a power of two are the lower bits.
pub proof fn lemma_bit_of_remainder(value: nat, a: nat, i: nat)
    requires
        i < a,
    ensures
        bit_of(value % pow2(a), i) == bit_of(value, i),
{
    lemma_pow2_pos(a);
    lemma_fundamental_div_mod(value as int, pow2(a) as int);
    let q = value / pow2(a);
    let r = value % pow2(a);
    assert(value == r + q * pow2(a)) by (nonlinear_arith)
        requires
            value == pow2(a) * q + r,
    ;
    lemma_bit_of_low(r, q, a, i);
}

/// The bits of a byte string with one more byte.
pub proof fn lemma_bytes_bits_push(bytes: Seq<u8>, byte: u8)
    ensures
        bytes_bits(bytes.push(byte)) == bytes_bits(bytes) + uint_bits(byte as nat, 8),
{
    assert(bytes_bits(bytes.push(byte)) =~= bytes_bits(bytes) + uint_bits(byte as nat, 8));
}

/// A number written at a byte boundary appears as its little-endian bytes.
pub proof fn lemma_uint_bits_little_endian(value: nat, count: nat)
    ensures
        bytes_bits(le_bytes(value, count)) == uint_bits(value, 8 * count),
{
    let bytes = le_bytes(value, count);
    assert forall|i: int| 0 <= i < 8 * count implies bytes_bits(bytes)[i] == bit_of(
        value,
        i as nat,
    ) by {
        let k = (i / 8) as nat;
        let j = (i % 8) as nat;
        lemma2_to64();
        let shifted = value / pow2(8 * k);
        assert(bytes[k as int] == (shifted % 256) as u8);
        lemma_bit_of_remainder(shifted, 8, j);
        lemma_bit_of_quotient(value, 8 * k, j);
    }
    assert(bytes_bits(bytes) =~= uint_bits(value, 8 * count));
}

/// A bit string with one more bit on top denotes the number with that
/// power of two added.
pub proof fn lemma_uint_bits_push(x: nat, k: nat, bit: bool)
    requires
        x < pow2(k),
    ensures
        uint_bits(
            if bit {
                x + pow2(k)
            } else {
                x
            },
            k + 1,
        ) == uint_bits(x, k).push(bit),
        (if bit {
            x + pow2(k)
        } else {
            x
        }) < pow2(k + 1),
{
    let y = if bit {
        x + pow2(k)
    } else {
        x
    };
    lemma_pow2_unfold(k + 1);
    assert forall|i: int| 0 <= i < k + 1 implies bit_of(y, i as nat) == uint_bits(x, k).push(
        bit,
    )[i] by {
        if i < k {
            if bit {
                assert(x + pow2(k) == x + 1 * pow2(k)) by (nonlinear_arith);
                lemma_bit_of_low(x, 1, k, i as nat);
            }
        } else {
            if bit {
                lemma_bit_of_top(x, k);
            } else {
                lemma_bit_of_high(x, k, k);
            }
        }
    }
    assert(uint_bits(y, k + 1) =~= uint_bits(x, k).push(bit));
}

/// The bits of a number that fits in `k` bits, written with more bits, are
/// its `k` bits followed by zeros.
pub proof fn lemma_uint_bits_widen(x: nat, k: nat, width: nat)
    requires
        x < pow2(k),
        k <= width,
    ensures
        uint_bits(x, width) == uint_bits(x, k) + zero_bits((width - k) as nat),
{
    assert forall|i: nat| k <= i < width implies !#[trigger] bit_of(x, i) by {
        lemma_bit_of_high(x, k, i);
    }
    assert(uint_bits(x, width) =~= uint_bits(x, k) + zero_bits((width - k) as nat));
}

/// Bit `index` of a byte.
pub fn byte_bit(byte: u8, index: u8) -> (bit: bool)
    requires
        index < 8,
    ensures
        bit == bit_of(byte as nat, index as nat),
{
    let shifted: u8 = byte >> index;
    proof {
        vstd::bits::lemma_u8_shr_is_div(byte, index);
        assert(shifted & 1 == shifted % 2) by (bit_vector);
    }
    shifted & 1 == 1
}

/// Bit `index` of a 64-bit number.
pub fn word_bit(word: u64, index: u64) -> (bit: bool)
    requires
        index < 64,
    ensures
        bit == bit_of(word as nat, index as nat),
{
    let shifted: u64 = word >> index;
    proof {
        vstd::bits::lemma_u64_shr_is_div(word, index);
        assert(shifted & 1 == shifted % 2) by (bit_vector);
    }
    shifted & 1 == 1
}

/// Two to the power of `exponent`, below 64.
pub fn power_of_two(exponent: u64) -> (power: u64)
    requires
        exponent < 64,
    ensures
        power == pow2(exponent as nat),
{
    proof {
        vstd::bits::lemma_u64_pow2_no_overflow(exponent as nat);
        vstd::bits::lemma_u64_shl_is_mul(1, exponent);
    }
    1u64 << exponent
}

} // verus!
