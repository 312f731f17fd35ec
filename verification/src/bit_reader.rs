//! Reading values from a byte buffer, bit by bit.

use crate::bits::{bits_value, byte_bit, bytes_bits, lemma_bits_value_bound, power_of_two};
use crate::encoding::{
    bits_bytes, parse_byte_string, parse_varint, signed_value, varint_after, varint_groups,
};
use vstd::arithmetic::power2::{lemma2_to64, lemma_pow2_unfold, pow2};
use vstd::prelude::*;

verus! {

/// Why wire input could not be decoded.
#[derive(Clone, Copy, PartialEq, Eq, Debug, Structural)]
pub enum DecodeError {
    /// The input ended before the value was complete.
    Truncated,
    /// The input holds something that is no value of the kind expected.
    Malformed,
}

/// A byte buffer that values are read from as bits.
///
/// Its view is the string of bits that are still to be read. A reader can
/// be copied: the copy reads on from the same place, and the reader it
/// was copied from stays where it is.
#[derive(Clone, Copy)]
pub struct BitReader<'a> {
    bytes: &'a [u8],
    byte_index: usize,
    bit_index: u8,
}

impl<'a> View for BitReader<'a> {
    type V = Seq<bool>;

    closed spec fn view(&self) -> Seq<bool> {
        bytes_bits(self.bytes@).skip(8 * self.byte_index + self.bit_index)
    }
}

impl<'a> BitReader<'a> {
    /// The place of the next bit lies within the buffer.
    pub closed spec fn wf(&self) -> bool {
        &&& self.bit_index < 8
        &&& self.byte_index <= self.bytes@.len()
        &&& self.byte_index == self.bytes@.len() ==> self.bit_index == 0
    }

    /// The buffer that is read.
    pub closed spec fn buffer(&self) -> Seq<u8> {
        self.bytes@
    }

    /// A reader at the first bit of `bytes`.
    pub fn new(bytes: &'a [u8]) -> (reader: Self)
        ensures
            reader.wf(),
            reader@ == bytes_bits(bytes@),
            reader.buffer() == bytes@,
    {
        let reader = BitReader { bytes, byte_index: 0, bit_index: 0 };
        assert(reader@ =~= bytes_bits(bytes@));
        reader
    }

    /// Whether every bit has been read.
    pub fn is_empty(&self) -> (empty: bool)
        requires
            self.wf(),
        ensures
            empty == (self@.len() == 0),
    {
        self.byte_index == self.bytes.len()
    }

    /// Reads one bit. Fails, and reads nothing, at the end of the buffer.
    pub fn read_bit(&mut self) -> (bit: Result<bool, DecodeError>)
        requires
            old(self).wf(),
        ensures
            final(self).wf(),
            final(self).buffer() == old(self).buffer(),
            match bit {
                Ok(value) => old(self)@.len() > 0 && value == old(self)@[0] && final(self)@ == old(self)@.skip(1),
                Err(error) => error == DecodeError::Truncated && old(self)@.len() == 0 && final(self)@ == old(self)@,
            },
    {
        if self.byte_index == self.bytes.len() {
            return Err(DecodeError::Truncated);
        }
        let value = byte_bit(self.bytes[self.byte_index], self.bit_index);
        if self.bit_index == 7 {
            self.byte_index = self.byte_index + 1;
            self.bit_index = 0;
        } else {
            self.bit_index = self.bit_index + 1;
        }
        assert(self@ =~= old(self)@.skip(1));
        Ok(value)
    }

    /// Reads a boolean from one bit.
    pub fn read_bool(&mut self) -> (value: Result<bool, DecodeError>)
        requires
            old(self).wf(),
        ensures
            final(self).wf(),
            final(self).buffer() == old(self).buffer(),
            match value {
                Ok(v) => old(self)@.len() > 0 && v == old(self)@[0] && final(self)@ == old(self)@.skip(1),
                Err(error) => error == DecodeError::Truncated && old(self)@.len() == 0 && final(self)@ == old(self)@,
            },
    {
        self.read_bit()
    }

    /// Reads a number of `width` bits, least significant bit first. Fails,
    /// and reads nothing, where fewer than `width` bits are left.
    pub fn read_uint(&mut self, width: u8) -> (value: Result<u64, DecodeError>)
        requires
            old(self).wf(),
            width <= 64,
        ensures
            final(self).wf(),
            final(self).buffer() == old(self).buffer(),
            match value {
                Ok(v) => old(self)@.len() >= width && v == bits_value(old(self)@.take(width as int))
                    && final(self)@ == old(self)@.skip(width as int),
                Err(error) => error == DecodeError::Truncated && old(self)@.len() < width && final(self)@ == old(self)@,
            },
    {
        let start_byte = self.byte_index;
        let start_bit = self.bit_index;
        let mut acc: u64 = 0;
        let mut i: u8 = 0;
        assert(self@ =~= old(self)@.skip(0));
        while i < width
            invariant
                i <= width <= 64,
                self.wf(),
                old(self).wf(),
                self.bytes == old(self).bytes,
                start_byte == old(self).byte_index,
                start_bit == old(self).bit_index,
                i <= old(self)@.len(),
                acc == bits_value(old(self)@.take(i as int)),
                self@ == old(self)@.skip(i as int),
            decreases width - i,
        {
            let ghost front = old(self)@.take(i as int);
            let ghost next = old(self)@.take(i + 1);
            match self.read_bit() {
                Ok(bit) => {
                    proof {
                        assert(next.drop_last() =~= front);
                        assert(next.last() == bit);
                        lemma_bits_value_bound(front);
                        lemma_pow2_unfold((i + 1) as nat);
                        lemma_bits_value_bound(next);
                        lemma2_to64();
                        if i + 1 < 64 {
                            vstd::arithmetic::power2::lemma_pow2_strictly_increases(
                                (i + 1) as nat,
                                64,
                            );
                        }
                        assert(self@ =~= old(self)@.skip(i + 1));
                    }
                    if bit {
                        acc = acc + power_of_two(i as u64);
                    }
                },
                Err(_) => {
                    self.byte_index = start_byte;
                    self.bit_index = start_bit;
                    return Err(DecodeError::Truncated);
                },
            }
            i += 1;
        }
        Ok(acc)
    }
}

impl<'a> BitReader<'a> {
    /// Reads a byte from eight bits.
    pub fn read_u8(&mut self) -> (value: Result<u8, DecodeError>)
        requires
            old(self).wf(),
        ensures
            final(self).wf(),
            final(self).buffer() == old(self).buffer(),
            match value {
                Ok(v) => old(self)@.len() >= 8 && v == bits_value(old(self)@.take(8)) && final(self)@
                    == old(self)@.skip(8),
                Err(error) => error == DecodeError::Truncated && old(self)@.len() < 8 && final(self)@
                    == old(self)@,
            },
    {
        match self.read_uint(8) {
            Ok(v) => {
                proof {
                    lemma_bits_value_bound(old(self)@.take(8));
                    lemma2_to64();
                }
                Ok(v as u8)
            },
            Err(error) => Err(error),
        }
    }

    /// Reads a 16-bit number.
    pub fn read_u16(&mut self) -> (value: Result<u16, DecodeError>)
        requires
            old(self).wf(),
        ensures
            final(self).wf(),
            final(self).buffer() == old(self).buffer(),
            match value {
                Ok(v) => old(self)@.len() >= 16 && v == bits_value(old(self)@.take(16)) && final(
                    self)@ == old(self)@.skip(16),
                Err(error) => error == DecodeError::Truncated && old(self)@.len() < 16 && final(
                    self)@ == old(self)@,
            },
    {
        match self.read_uint(16) {
            Ok(v) => {
                proof {
                    lemma_bits_value_bound(old(self)@.take(16));
                    lemma2_to64();
                }
                Ok(v as u16)
            },
            Err(error) => Err(error),
        }
    }

    /// Reads a 32-bit number.
    pub fn read_u32(&mut self) -> (value: Result<u32, DecodeError>)
        requires
            old(self).wf(),
        ensures
            final(self).wf(),
            final(self).buffer() == old(self).buffer(),
            match value {
                Ok(v) => old(self)@.len() >= 32 && v == bits_value(old(self)@.take(32)) && final(
                    self)@ == old(self)@.skip(32),
                Err(error) => error == DecodeError::Truncated && old(self)@.len() < 32 && final(
                    self)@ == old(self)@,
            },
    {
        match self.read_uint(32) {
            Ok(v) => {
                proof {
                    lemma_bits_value_bound(old(self)@.take(32));
                    lemma2_to64();
                }
                Ok(v as u32)
            },
            Err(error) => Err(error),
        }
    }

    /// Reads a 64-bit number.
    pub fn read_u64(&mut self) -> (value: Result<u64, DecodeError>)
        requires
            old(self).wf(),
        ensures
            final(self).wf(),
            final(self).buffer() == old(self).buffer(),
            match value {
                Ok(v) => old(self)@.len() >= 64 && v == bits_value(old(self)@.take(64)) && final(
                    self)@ == old(self)@.skip(64),
                Err(error) => error == DecodeError::Truncated && old(self)@.len() < 64 && final(
                    self)@ == old(self)@,
            },
    {
        self.read_uint(64)
    }

    /// Reads a signed number from `width` bits in two's complement.
    pub fn read_int(&mut self, width: u8) -> (value: Result<i64, DecodeError>)
        requires
            old(self).wf(),
            1 <= width <= 64,
        ensures
            final(self).wf(),
            final(self).buffer() == old(self).buffer(),
            match value {
                Ok(v) => old(self)@.len() >= width && v == signed_value(
                    bits_value(old(self)@.take(width as int)),
                    width as nat,
                ) && final(self)@ == old(self)@.skip(width as int),
                Err(error) => error == DecodeError::Truncated && old(self)@.len() < width && final(
                    self)@ == old(self)@,
            },
    {
        match self.read_uint(width) {
            Ok(raw) => {
                proof {
                    lemma_bits_value_bound(old(self)@.take(width as int));
                    lemma_pow2_unfold(width as nat);
                    lemma2_to64();
                    vstd::arithmetic::power2::lemma2_to64_rest();
                }
                proof {
                    if width < 64 {
                        vstd::arithmetic::power2::lemma_pow2_strictly_increases(
                            (width - 1) as nat,
                            63,
                        );
                    }
                }
                let half = power_of_two((width - 1) as u64);
                if raw >= half {
                    let above: u64 = raw - half;
                    if width == 64 {
                        Ok((above as i64) + i64::MIN)
                    } else {
                        Ok((above as i64) - (half as i64))
                    }
                } else {
                    Ok(raw as i64)
                }
            },
            Err(error) => Err(error),
        }
    }

    /// Reads a number of variable length. Fails, and reads nothing, where
    /// the input ends within the number, where the number has more than
    /// ten groups, and where it does not fit in 64 bits.
    pub fn read_varint(&mut self) -> (value: Result<u64, DecodeError>)
        requires
            old(self).wf(),
        ensures
            final(self).wf(),
            final(self).buffer() == old(self).buffer(),
            match parse_varint(old(self)@) {
                Ok((v, used)) => value == Ok::<u64, DecodeError>(v) && final(self)@ == old(self)@.skip(
                    used as int,
                ),
                Err(error) => value == Err::<u64, DecodeError>(error) && final(self)@ == old(self)@,
            },
    {
        let start_byte = self.byte_index;
        let start_bit = self.bit_index;
        let mut acc: u64 = 0;
        let mut scale: u64 = 1;
        let mut k: u8 = 0;
        let ghost whole = varint_groups(old(self)@, 10);
        proof {
            lemma2_to64();
            assert(self@ =~= old(self)@.skip(0));
            match whole {
                Ok((v, u)) => {
                    assert(0 + 1 * v == v) by (nonlinear_arith);
                },
                Err(_) => {},
            }
            assert(whole == varint_after(whole, 0, 1, 0));
        }
        while k < 10
            invariant
                k <= 10,
                self.wf(),
                old(self).wf(),
                self.bytes == old(self).bytes,
                start_byte == old(self).byte_index,
                start_bit == old(self).bit_index,
                whole == varint_groups(old(self)@, 10),
                8 * k <= old(self)@.len(),
                self@ == old(self)@.skip(8 * k),
                acc < pow2((7 * k) as nat),
                k <= 9 ==> scale == pow2((7 * k) as nat),
                whole == varint_after(
                    varint_groups(self@, (10 - k) as nat),
                    acc as nat,
                    pow2((7 * k) as nat),
                    (8 * k) as nat,
                ),
            decreases 10 - k,
        {
            let ghost cur = self@;
            let low = match self.read_uint(7) {
                Ok(v) => v,
                Err(_) => {
                    self.byte_index = start_byte;
                    self.bit_index = start_bit;
                    return Err(DecodeError::Truncated);
                },
            };
            let more = match self.read_bit() {
                Ok(b) => b,
                Err(_) => {
                    self.byte_index = start_byte;
                    self.bit_index = start_bit;
                    return Err(DecodeError::Truncated);
                },
            };
            proof {
                lemma2_to64();
                lemma_bits_value_bound(cur.take(7));
                assert(more == cur[7]);
                assert(self@ =~= cur.skip(8));
                assert(self@ =~= old(self)@.skip(8 * (k + 1)));
                crate::encoding::lemma_varint_scale(k as nat, acc as nat, low as nat);
                crate::encoding::lemma_varint_group(
                    cur,
                    (10 - k) as nat,
                    acc as nat,
                    pow2((7 * k) as nat),
                    (8 * k) as nat,
                );
            }
            if k == 9 && low > 1 {
                self.byte_index = start_byte;
                self.bit_index = start_bit;
                return Err(DecodeError::Malformed);
            }
            proof {
                assert(low * scale == pow2((7 * k) as nat) * low) by (nonlinear_arith)
                    requires
                        scale == pow2((7 * k) as nat),
                ;
            }
            acc = acc + low * scale;
            if !more {
                return Ok(acc);
            }
            if k < 9 {
                scale = scale * 128;
            }
            k += 1;
        }
        self.byte_index = start_byte;
        self.bit_index = start_bit;
        Err(DecodeError::Malformed)
    }
}

impl<'a> BitReader<'a> {
    /// Reads a byte string with its length in front. Fails, and reads
    /// nothing, where the length cannot be decoded and where the input
    /// ends before the last byte.
    pub fn read_bytes(&mut self) -> (value: Result<Vec<u8>, DecodeError>)
        requires
            old(self).wf(),
        ensures
            final(self).wf(),
            final(self).buffer() == old(self).buffer(),
            match parse_byte_string(old(self)@) {
                Ok((bytes, used)) => value matches Ok(v) && v@ == bytes && final(self)@ == old(
                    self)@.skip(used as int),
                Err(error) => value matches Err(e) && e == error && final(self)@ == old(self)@,
            },
    {
        let start_byte = self.byte_index;
        let start_bit = self.bit_index;
        let length = match self.read_varint() {
            Ok(n) => n,
            Err(error) => {
                return Err(error);
            },
        };
        let ghost used = parse_varint(old(self)@).unwrap().1;
        let ghost rest = self@;
        proof {
            crate::encoding::lemma_varint_groups_used(old(self)@, 10);
            assert(rest.len() == old(self)@.len() - used);
            assert(rest.len() == 8 * (self.bytes@.len() - self.byte_index) - self.bit_index);
        }
        let bytes_left: usize = self.bytes.len() - self.byte_index;
        let whole_bytes: usize = if self.bit_index == 0 {
            bytes_left
        } else {
            bytes_left - 1
        };
        if length > whole_bytes as u64 {
            self.byte_index = start_byte;
            self.bit_index = start_bit;
            return Err(DecodeError::Truncated);
        }
        let ghost body = old(self)@.subrange(used as int, used + 8 * length);
        assert(body =~= rest.take(8 * length));
        let mut result: Vec<u8> = Vec::new();
        let mut i: u64 = 0;
        assert(self@ =~= rest.skip(0));
        while i < length
            invariant
                i <= length,
                self.wf(),
                self.bytes == old(self).bytes,
                8 * length <= rest.len(),
                body == rest.take(8 * length),
                self@ == rest.skip(8 * i),
                result@.len() == i,
                forall|j: int|
                    0 <= j < i ==> #[trigger] result@[j] == bits_value(
                        body.subrange(8 * j, 8 * j + 8),
                    ) as u8,
            decreases length - i,
        {
            let ghost cur = self@;
            match self.read_u8() {
                Ok(byte) => {
                    proof {
                        assert(cur.take(8) =~= body.subrange(8 * i, 8 * i + 8));
                        assert(self@ =~= rest.skip(8 * (i + 1)));
                    }
                    result.push(byte);
                },
                Err(error) => {
                    assert(false);
                    return Err(error);
                },
            }
            i += 1;
        }
        proof {
            assert(result@ =~= bits_bytes(body));
            assert(self@ =~= old(self)@.skip(used + 8 * length));
        }
        Ok(result)
    }
}

impl<'a> BitReader<'a> {
    /// Whether at least `count` bits are left to read.
    pub fn has_bits(&self, count: u8) -> (enough: bool)
        requires
            self.wf(),
        ensures
            enough == (self@.len() >= count),
    {
        let bytes_left: usize = self.bytes.len() - self.byte_index;
        if bytes_left > 32 {
            return true;
        }
        let bits_left: u64 = 8 * (bytes_left as u64) - self.bit_index as u64;
        bits_left >= count as u64
    }
}

} // verus!
