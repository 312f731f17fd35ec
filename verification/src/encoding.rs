//! How each kind of value is laid out as bits, and what a bit string
//! decodes to.
//!
//! Every encoding is a spec function from a value to its bits. Decoding is
//! a spec function from the bits that are left in the input to the value
//! and the number of bits it took, or to the reason why there is no value.
//! The laws at the end state that decoding gives back what was encoded,
//! whatever follows it in the input.

use crate::bit_reader::DecodeError;
use crate::bits::{
    bits_value, bytes_bits, lemma_bit_of_remainder, lemma_uint_round_trip, uint_bits,
};
use vstd::arithmetic::div_mod::{
    lemma_fundamental_div_mod, lemma_mod_multiples_vanish, lemma_small_mod,
};
use vstd::arithmetic::power2::{lemma2_to64, lemma_pow2_adds, lemma_pow2_pos, lemma_pow2_unfold, pow2};
use vstd::prelude::*;

verus! {

/// What decoding gives: the value and the number of bits it took, or the
/// reason why the input holds no value.
pub type Decoded<T> = Result<(T, nat), DecodeError>;

/// The bits of a signed number in two's complement of `width` bits.
pub open spec fn int_bits(value: int, width: nat) -> Seq<bool> {
    uint_bits((value % (pow2(width) as int)) as nat, width)
}

/// The signed number that an unsigned number of `width` bits stands for in
/// two's complement.
pub open spec fn signed_value(raw: nat, width: nat) -> int {
    if width > 0 && raw >= pow2((width - 1) as nat) {
        raw - pow2(width)
    } else {
        raw as int
    }
}

/// The bits of a number of variable length: groups of seven bits, the
/// lowest group first, each followed by a bit that says whether another
/// group follows.
pub open spec fn varint_bits(value: nat) -> Seq<bool>
    decreases value,
{
    if value < 128 {
        uint_bits(value, 7).push(false)
    } else {
        uint_bits(value % 128, 7).push(true) + varint_bits(value / 128)
    }
}

/// Decodes a number of variable length of at most `groups` groups.
pub open spec fn varint_groups(bits: Seq<bool>, groups: nat) -> Decoded<nat>
    decreases groups,
{
    if groups == 0 {
        Err(DecodeError::Malformed)
    } else if bits.len() < 8 {
        Err(DecodeError::Truncated)
    } else {
        let low = bits_value(bits.take(7));
        if !bits[7] {
            Ok((low, 8))
        } else {
            match varint_groups(bits.skip(8), (groups - 1) as nat) {
                Ok((high, used)) => Ok((low + 128 * high, used + 8)),
                Err(error) => Err(error),
            }
        }
    }
}

/// Decodes a number of variable length: at most ten groups, and a value
/// that fits in 64 bits.
pub open spec fn parse_varint(bits: Seq<bool>) -> Decoded<u64> {
    match varint_groups(bits, 10) {
        Ok((value, used)) => if value <= u64::MAX {
            Ok((value as u64, used))
        } else {
            Err(DecodeError::Malformed)
        },
        Err(error) => Err(error),
    }
}

/// The bytes that a bit string holds, eight bits each.
pub open spec fn bits_bytes(bits: Seq<bool>) -> Seq<u8> {
    Seq::new(bits.len() / 8, |i: int| bits_value(bits.subrange(8 * i, 8 * i + 8)) as u8)
}

/// The bits of a byte string with its length in front.
pub open spec fn byte_string_bits(bytes: Seq<u8>) -> Seq<bool> {
    varint_bits(bytes.len()) + bytes_bits(bytes)
}

/// Decodes a byte string with its length in front.
pub open spec fn parse_byte_string(bits: Seq<bool>) -> Decoded<Seq<u8>> {
    match parse_varint(bits) {
        Ok((length, used)) => if bits.len() - used < 8 * length {
            Err(DecodeError::Truncated)
        } else {
            Ok(
                (
                    bits_bytes(bits.subrange(used as int, used + 8 * length)),
                    (used + 8 * length) as nat,
                ),
            )
        },
        Err(error) => Err(error),
    }
}

/// Decoding a number of variable length gives back the number, whatever
/// follows it, where the groups allowed are enough to hold it.
pub proof fn lemma_varint_groups_round_trip(value: nat, rest: Seq<bool>, groups: nat)
    requires
        value < pow2(7 * groups),
        groups > 0,
    ensures
        varint_groups(varint_bits(value) + rest, groups) == Ok::<(nat, nat), DecodeError>(
            (value, varint_bits(value).len()),
        ),
    decreases value,
{
    let bits = varint_bits(value) + rest;
    lemma2_to64();
    if value < 128 {
        assert(bits.take(7) =~= uint_bits(value, 7));
        lemma_uint_round_trip(value, 7);
        assert(bits[7] == uint_bits(value, 7).push(false)[7]);
    } else {
        let low = value % 128;
        let high = value / 128;
        assert(bits.take(7) =~= uint_bits(low, 7));
        lemma_uint_round_trip(low, 7);
        assert(bits[7] == uint_bits(low, 7).push(true)[7]);
        assert(bits.skip(8) =~= varint_bits(high) + rest);
        lemma_pow2_adds(7, (7 * (groups - 1)) as nat);
        assert(7 + 7 * (groups - 1) == 7 * groups);
        if groups == 1 {
            assert(false);
        }
        assert(high < pow2((7 * (groups - 1)) as nat)) by (nonlinear_arith)
            requires
                value < 128 * pow2((7 * (groups - 1)) as nat),
                high == value / 128,
        ;
        lemma_varint_groups_round_trip(high, rest, (groups - 1) as nat);
        lemma_fundamental_div_mod(value as int, 128);
    }
}

/// Decoding a 64-bit number of variable length gives back the number,
/// whatever follows it.
pub proof fn lemma_varint_round_trip(value: u64, rest: Seq<bool>)
    ensures
        parse_varint(varint_bits(value as nat) + rest) == Ok::<(u64, nat), DecodeError>(
            (value, varint_bits(value as nat).len()),
        ),
{
    lemma2_to64();
    lemma_pow2_adds(64, 6);
    lemma_varint_groups_round_trip(value as nat, rest, 10);
}

/// The bytes held by the bits of a byte string are the byte string.
pub proof fn lemma_bits_bytes_round_trip(bytes: Seq<u8>)
    ensures
        bits_bytes(bytes_bits(bytes)) == bytes,
{
    let bits = bytes_bits(bytes);
    assert forall|i: int| 0 <= i < bytes.len() implies bits_bytes(bits)[i] == bytes[i] by {
        assert(bits.subrange(8 * i, 8 * i + 8) =~= uint_bits(bytes[i] as nat, 8));
        lemma2_to64();
        lemma_uint_round_trip(bytes[i] as nat, 8);
    }
    assert(bits_bytes(bits) =~= bytes);
}

/// Decoding a byte string gives back the byte string, whatever follows it.
pub proof fn lemma_byte_string_round_trip(bytes: Seq<u8>, rest: Seq<bool>)
    requires
        bytes.len() <= u64::MAX,
    ensures
        parse_byte_string(byte_string_bits(bytes) + rest) == Ok::<(Seq<u8>, nat), DecodeError>(
            (bytes, byte_string_bits(bytes).len()),
        ),
{
    let bits = byte_string_bits(bytes) + rest;
    let head = varint_bits(bytes.len());
    assert(bits =~= head + (bytes_bits(bytes) + rest));
    lemma_varint_round_trip(bytes.len() as u64, bytes_bits(bytes) + rest);
    assert(bits.subrange(head.len() as int, (head.len() + 8 * bytes.len()) as int) =~= bytes_bits(
        bytes,
    ));
    lemma_bits_bytes_round_trip(bytes);
}

/// A signed number that fits in `width` bits is what its two's complement
/// stands for.
pub proof fn lemma_int_round_trip(value: int, width: nat)
    requires
        width > 0,
        -(pow2((width - 1) as nat) as int) <= value < pow2((width - 1) as nat),
    ensures
        signed_value(bits_value(int_bits(value, width)), width) == value,
{
    let modulus = pow2(width) as int;
    lemma_pow2_unfold(width);
    lemma_pow2_pos((width - 1) as nat);
    let raw = (value % modulus) as nat;
    if value >= 0 {
        lemma_small_mod(value as nat, modulus as nat);
    } else {
        lemma_small_mod((value + modulus) as nat, modulus as nat);
        lemma_mod_multiples_vanish(1, value, modulus);
    }
    lemma_uint_round_trip(raw, width);
}

/// A number written with `width` bits shows only its remainder by two to
/// the power of `width`.
pub proof fn lemma_uint_bits_of_remainder(value: nat, width: nat)
    ensures
        uint_bits(value % pow2(width), width) == uint_bits(value, width),
{
    assert forall|i: int| 0 <= i < width implies uint_bits(value % pow2(width), width)[i]
        == uint_bits(value, width)[i] by {
        lemma_bit_of_remainder(value, width, i as nat);
    }
    assert(uint_bits(value % pow2(width), width) =~= uint_bits(value, width));
}

/// The outcome of decoding a number of variable length whose first groups
/// gave `low`, from the outcome of decoding the groups that follow: the
/// groups that follow count `scale` times, and `used` bits were taken
/// before them.
pub open spec fn varint_after(rest: Decoded<nat>, low: nat, scale: nat, used: nat) -> Decoded<nat> {
    match rest {
        Ok((high, more)) => Ok((low + scale * high, more + used)),
        Err(error) => Err(error),
    }
}

/// What one more group does to the outcome of decoding a number of
/// variable length.
pub proof fn lemma_varint_group(cur: Seq<bool>, groups: nat, acc: nat, scale: nat, used: nat)
    requires
        groups > 0,
        cur.len() >= 8,
    ensures
        !cur[7] ==> varint_after(varint_groups(cur, groups), acc, scale, used) == Ok::<
            (nat, nat),
            DecodeError,
        >((acc + scale * bits_value(cur.take(7)), 8 + used)),
        cur[7] ==> varint_after(varint_groups(cur, groups), acc, scale, used) == varint_after(
            varint_groups(cur.skip(8), (groups - 1) as nat),
            acc + scale * bits_value(cur.take(7)),
            scale * 128,
            used + 8,
        ),
{
    let low = bits_value(cur.take(7));
    if cur[7] {
        match varint_groups(cur.skip(8), (groups - 1) as nat) {
            Ok((high, more)) => {
                assert(acc + scale * (low + 128 * high) == acc + scale * low + (scale * 128) * high)
                    by (nonlinear_arith);
            },
            Err(_) => {},
        }
    }
}

/// The sizes that arise while a number of variable length is decoded:
/// after `k` groups the number read so far is below two to the power of
/// `7 * k`, and only the tenth group can make it too large for 64 bits.
pub proof fn lemma_varint_scale(k: nat, acc: nat, low: nat)
    requires
        k <= 9,
        acc < pow2(7 * k),
        low < 128,
    ensures
        pow2(7 * k) <= 0x8000_0000_0000_0000,
        pow2(7 * (k + 1)) == pow2(7 * k) * 128,
        acc + pow2(7 * k) * low < pow2(7 * (k + 1)),
        k < 9 ==> acc + pow2(7 * k) * low < 0x8000_0000_0000_0000,
        k < 9 ==> pow2(7 * (k + 1)) <= 0x8000_0000_0000_0000,
        k == 9 && low <= 1 ==> acc + pow2(7 * k) * low <= u64::MAX,
        k == 9 && low >= 2 ==> acc + pow2(7 * k) * low > u64::MAX,
{
    lemma2_to64();
    vstd::arithmetic::power2::lemma2_to64_rest();
    let scale = pow2(7 * k);
    lemma_pow2_adds(7 * k, 7);
    assert(7 * k + 7 == 7 * (k + 1));
    if 7 * k < 63 {
        vstd::arithmetic::power2::lemma_pow2_strictly_increases(7 * k, 63);
    }
    if k < 9 {
        if 7 * (k + 1) < 63 {
            vstd::arithmetic::power2::lemma_pow2_strictly_increases(7 * (k + 1), 63);
        }
    }
    assert(acc + scale * low < scale * 128) by (nonlinear_arith)
        requires
            acc < scale,
            low < 128,
    ;
    if k == 9 {
        if low <= 1 {
            assert(scale * low <= scale) by (nonlinear_arith)
                requires
                    low <= 1,
            ;
        } else {
            assert(scale * low >= scale * 2) by (nonlinear_arith)
                requires
                    low >= 2,
            ;
        }
    }
}

/// Decoding a number of variable length takes at least eight bits and no
/// more bits than there are.
pub proof fn lemma_varint_groups_used(bits: Seq<bool>, groups: nat)
    ensures
        varint_groups(bits, groups) matches Ok((value, used)) ==> 8 <= used <= bits.len(),
    decreases groups,
{
    if groups > 0 && bits.len() >= 8 && bits[7] {
        lemma_varint_groups_used(bits.skip(8), (groups - 1) as nat);
    }
}

} // verus!
