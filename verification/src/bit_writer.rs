//! Writing values to a growing buffer, bit by bit.

use crate::bits::{
    bytes_bits, lemma_bytes_bits_push, lemma_uint_bits_push, lemma_uint_bits_widen, uint_bits,
    word_bit, zero_bits,
};
use crate::encoding::{byte_string_bits, int_bits, lemma_uint_bits_of_remainder, varint_bits};
use vstd::arithmetic::div_mod::lemma_mod_multiples_vanish;
use vstd::arithmetic::power2::*;
use vstd::prelude::*;

verus! {

/// A buffer that values are written to as bits.
///
/// Its view is the string of bits written so far.
pub struct BitWriter {
    bytes: Vec<u8>,
    scratch: u8,
    count: u8,
}

impl View for BitWriter {
    type V = Seq<bool>;

    closed spec fn view(&self) -> Seq<bool> {
        bytes_bits(self.bytes@) + uint_bits(self.scratch as nat, self.count as nat)
    }
}

/// A bit string filled up with zero bits to a whole number of bytes.
pub open spec fn padded_bits(bits: Seq<bool>) -> Seq<bool> {
    bits + zero_bits(((8 - bits.len() % 8) % 8) as nat)
}

impl BitWriter {
    /// The last byte holds fewer than eight bits, and no bit beyond them.
    pub closed spec fn wf(&self) -> bool {
        self.count < 8 && self.scratch < pow2(self.count as nat)
    }

    /// A writer that holds no bits.
    pub fn new() -> (writer: Self)
        ensures
            writer.wf(),
            writer@ == Seq::<bool>::empty(),
    {
        proof {
            lemma2_to64();
        }
        let writer = BitWriter { bytes: Vec::new(), scratch: 0, count: 0 };
        assert(writer@ =~= Seq::<bool>::empty());
        writer
    }

    /// Writes one bit.
    pub fn write_bit(&mut self, bit: bool)
        requires
            old(self).wf(),
        ensures
            final(self).wf(),
            final(self)@ == old(self)@.push(bit),
    {
        proof {
            lemma_uint_bits_push(self.scratch as nat, self.count as nat, bit);
            lemma2_to64();
            vstd::bits::lemma_u8_pow2_no_overflow(self.count as nat);
            vstd::bits::lemma_u8_shl_is_mul(1, self.count);
        }
        let weight: u8 = 1u8 << self.count;
        let filled: u8 = if bit {
            self.scratch + weight
        } else {
            self.scratch
        };
        if self.count == 7 {
            self.bytes.push(filled);
            self.scratch = 0;
            self.count = 0;
            proof {
                lemma_bytes_bits_push(old(self).bytes@, filled);
                assert(self@ =~= old(self)@.push(bit));
            }
        } else {
            self.count = self.count + 1;
            self.scratch = filled;
            assert(self@ =~= old(self)@.push(bit));
        }
    }

    /// Writes a boolean as one bit.
    pub fn write_bool(&mut self, value: bool)
        requires
            old(self).wf(),
        ensures
            final(self).wf(),
            final(self)@ == old(self)@.push(value),
    {
        self.write_bit(value);
    }

    /// Writes the `width` lowest bits of a number, least significant first.
    pub fn write_uint(&mut self, value: u64, width: u8)
        requires
            old(self).wf(),
            width <= 64,
        ensures
            final(self).wf(),
            final(self)@ == old(self)@ + uint_bits(value as nat, width as nat),
    {
        let mut i: u8 = 0;
        assert(self@ =~= old(self)@ + uint_bits(value as nat, width as nat).take(0));
        while i < width
            invariant
                i <= width <= 64,
                self.wf(),
                self@ == old(self)@ + uint_bits(value as nat, width as nat).take(i as int),
            decreases width - i,
        {
            self.write_bit(word_bit(value, i as u64));
            assert(self@ =~= old(self)@ + uint_bits(value as nat, width as nat).take(i + 1));
            i += 1;
        }
        assert(uint_bits(value as nat, width as nat).take(width as int) =~= uint_bits(
            value as nat,
            width as nat,
        ));
    }

    /// Writes a byte as eight bits.
    pub fn write_u8(&mut self, value: u8)
        requires
            old(self).wf(),
        ensures
            final(self).wf(),
            final(self)@ == old(self)@ + uint_bits(value as nat, 8),
    {
        self.write_uint(value as u64, 8);
    }

    /// Writes a 16-bit number.
    pub fn write_u16(&mut self, value: u16)
        requires
            old(self).wf(),
        ensures
            final(self).wf(),
            final(self)@ == old(self)@ + uint_bits(value as nat, 16),
    {
        self.write_uint(value as u64, 16);
    }

    /// Writes a 32-bit number.
    pub fn write_u32(&mut self, value: u32)
        requires
            old(self).wf(),
        ensures
            final(self).wf(),
            final(self)@ == old(self)@ + uint_bits(value as nat, 32),
    {
        self.write_uint(value as u64, 32);
    }

    /// Writes a 64-bit number.
    pub fn write_u64(&mut self, value: u64)
        requires
            old(self).wf(),
        ensures
            final(self).wf(),
            final(self)@ == old(self)@ + uint_bits(value as nat, 64),
    {
        self.write_uint(value, 64);
    }

    /// The bytes that hold the bits written, the last byte filled up with
    /// zero bits.
    pub fn to_bytes(self) -> (bytes: Vec<u8>)
        requires
            self.wf(),
        ensures
            bytes_bits(bytes@) == padded_bits(self@),
    {
        proof {
            lemma_uint_bits_widen(self.scratch as nat, self.count as nat, 8);
        }
        let mut bytes = self.bytes;
        if self.count > 0 {
            bytes.push(self.scratch);
            proof {
                lemma_bytes_bits_push(self.bytes@, self.scratch);
                assert(bytes_bits(bytes@) =~= padded_bits(self@));
            }
        } else {
            assert(bytes_bits(bytes@) =~= padded_bits(self@));
        }
        bytes
    }
}

impl BitWriter {
    /// Writes a signed number as `width` bits in two's complement.
    pub fn write_int(&mut self, value: i64, width: u8)
        requires
            old(self).wf(),
            1 <= width <= 64,
        ensures
            final(self).wf(),
            final(self)@ == old(self)@ + int_bits(value as int, width as nat),
    {
        let raw: u64 = if value >= 0 {
            value as u64
        } else {
            u64::MAX - ((-(value + 1)) as u64)
        };
        proof {
            lemma2_to64();
            let modulus = pow2(width as nat) as int;
            let factor = pow2((64 - width) as nat) as int;
            lemma_pow2_pos(width as nat);
            lemma_pow2_adds(width as nat, (64 - width) as nat);
            assert(raw == value + (if value >= 0 {
                0
            } else {
                modulus * factor
            }));
            if value < 0 {
                lemma_mod_multiples_vanish(factor, value as int, modulus);
                assert(modulus * factor + value == raw);
            }
            assert(raw as int % modulus == value as int % modulus);
            lemma_uint_bits_of_remainder(raw as nat, width as nat);
        }
        self.write_uint(raw, width);
    }

    /// Writes a number of variable length: groups of seven bits, the
    /// lowest first, each followed by a bit that says whether another
    /// group follows.
    pub fn write_varint(&mut self, value: u64)
        requires
            old(self).wf(),
        ensures
            final(self).wf(),
            final(self)@ == old(self)@ + varint_bits(value as nat),
    {
        let mut rest: u64 = value;
        while rest >= 128
            invariant
                self.wf(),
                self@ + varint_bits(rest as nat) == old(self)@ + varint_bits(value as nat),
            decreases rest,
        {
            let ghost before = self@;
            self.write_uint(rest % 128, 7);
            self.write_bit(true);
            proof {
                assert(self@ + varint_bits((rest / 128) as nat) =~= before + varint_bits(rest as nat));
            }
            rest = rest / 128;
        }
        let ghost before = self@;
        self.write_uint(rest, 7);
        self.write_bit(false);
        assert(self@ =~= before + varint_bits(rest as nat));
        assert(self@ =~= old(self)@ + varint_bits(value as nat));
    }

    /// Writes a byte string with its length in front.
    pub fn write_bytes(&mut self, bytes: &[u8])
        requires
            old(self).wf(),
        ensures
            final(self).wf(),
            final(self)@ == old(self)@ + byte_string_bits(bytes@),
    {
        self.write_varint(bytes.len() as u64);
        let ghost head = self@;
        let mut i: usize = 0;
        assert(self@ =~= head + bytes_bits(bytes@.take(0)));
        while i < bytes.len()
            invariant
                i <= bytes.len(),
                self.wf(),
                self@ == head + bytes_bits(bytes@.take(i as int)),
            decreases bytes.len() - i,
        {
            self.write_u8(bytes[i]);
            proof {
                assert(bytes@.take(i + 1) =~= bytes@.take(i as int).push(bytes@[i as int]));
                lemma_bytes_bits_push(bytes@.take(i as int), bytes@[i as int]);
                assert(self@ =~= head + bytes_bits(bytes@.take(i + 1)));
            }
            i += 1;
        }
        assert(bytes@.take(bytes.len() as int) =~= bytes@);
        assert(self@ =~= old(self)@ + byte_string_bits(bytes@));
    }
}

impl BitWriter {
    /// The number of bits written so far.
    pub fn bit_len(&self) -> (length: u128)
        requires
            self.wf(),
        ensures
            length == self@.len(),
    {
        8 * (self.bytes.len() as u128) + self.count as u128
    }
}

} // verus!
