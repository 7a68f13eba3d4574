//! A byte sequence seen as one continuous stream of bits, and a cursor that
//! reads fixed-width fields from it.

use vstd::prelude::*;
use vstd::arithmetic::div_mod::lemma_div_denominator;
use vstd::arithmetic::power2::{
    lemma2_to64,
    lemma_pow2_pos,
    lemma_pow2_strictly_increases,
    lemma_pow2_unfold,
    pow2,
};
use vstd::bits::lemma_u8_shr_is_div;

verus! {

/// Bit `k` of `byte`, counted from the most significant bit (`k == 0`) down
/// to the least significant (`k == 7`).
pub open spec fn bit_of(byte: u8, k: int) -> bool {
    (byte as int / pow2((7 - k) as nat) as int) % 2 == 1
}

/// The bits of `source` in reading order: byte after byte, and within each
/// byte from the most significant bit to the least.
pub open spec fn bitstream(source: Seq<u8>) -> Seq<bool> {
    Seq::new(8 * source.len(), |i: int| bit_of(source[i / 8], i % 8))
}

/// The number that a run of bits spells when the first bit is the most
/// significant.
pub open spec fn packed(bits: Seq<bool>) -> nat
    decreases bits.len(),
{
    if bits.len() == 0 {
        0
    } else {
        2 * packed(bits.drop_last()) + if bits.last() {
            1nat
        } else {
            0nat
        }
    }
}

/// The unsigned number held by the `width` bits of `source` that start at bit
/// `start`, first bit most significant.
pub open spec fn field(source: Seq<u8>, start: int, width: int) -> nat {
    packed(bitstream(source).subrange(start, start + width))
}

/// A run of `n` bits spells a number below `2^n`.
pub proof fn lemma_packed_bound(bits: Seq<bool>)
    ensures
        packed(bits) < pow2(bits.len()),
    decreases bits.len(),
{
    if bits.len() == 0 {
        lemma2_to64();
    } else {
        lemma_packed_bound(bits.drop_last());
        lemma_pow2_unfold(bits.len());
    }
}

/// Appending one bit doubles the number and adds the bit.
pub proof fn lemma_packed_push(bits: Seq<bool>, bit: bool)
    ensures
        packed(bits.push(bit)) == 2 * packed(bits) + if bit {
            1nat
        } else {
            0nat
        },
{
    assert(bits.push(bit).drop_last() =~= bits);
}

/// The first `width` bits of a byte spell its `width` highest bits: a field
/// that starts on a byte boundary and stays within that byte holds the byte
/// divided by `2^(8 - width)`. A whole byte reads as itself.
pub proof fn lemma_aligned_field(source: Seq<u8>, index: int, width: int)
    requires
        0 <= index < source.len(),
        0 <= width <= 8,
    ensures
        field(source, 8 * index, width) == source[index] as int / pow2((8 - width) as nat) as int,
        width == 8 ==> field(source, 8 * index, width) == source[index],
    decreases width,
{
    let bits = bitstream(source).subrange(8 * index, 8 * index + width);
    let byte = source[index] as int;
    lemma2_to64();
    if width == 0 {
        assert(byte / 256 == 0);
    } else {
        let low = pow2((8 - width) as nat) as int;
        lemma_aligned_field(source, index, width - 1);
        assert(bits.drop_last() =~= bitstream(source).subrange(8 * index, 8 * index + width - 1));
        assert(bits.last() == bit_of(source[index], width - 1));
        lemma_pow2_pos((8 - width) as nat);
        lemma_pow2_unfold((8 - width + 1) as nat);
        lemma_div_denominator(byte, low, 2);
        assert(packed(bits) == byte / low);
        if width == 8 {
            assert(byte / low == byte) by (nonlinear_arith)
                requires
                    low == 1,
            ;
        }
    }
}

/// Packs bits into a byte, the first bit becoming the most significant of
/// those used. Only the first eight bits count.
pub fn pack_to_byte(bits: Vec<bool>) -> (byte: u8)
    ensures
        byte == packed(bits@.take(if bits@.len() < 8 { bits@.len() as int } else { 8 })),
{
    let used: usize = if bits.len() < 8 {
        bits.len()
    } else {
        8
    };
    let mut byte: u8 = 0;
    let mut count: usize = 0;
    while count < used
        invariant
            count <= used <= 8,
            used <= bits@.len(),
            byte == packed(bits@.take(count as int)),
        decreases used - count,
    {
        let bit: u8 = if bits[count] {
            1
        } else {
            0
        };
        proof {
            lemma_packed_bound(bits@.take(count as int));
            lemma_packed_push(bits@.take(count as int), bits@[count as int]);
            assert(bits@.take(count as int).push(bits@[count as int]) =~= bits@.take(
                count as int + 1,
            ));
            lemma2_to64();
            if count < 7 {
                lemma_pow2_strictly_increases(count as nat, 7);
            }
        }
        byte = byte * 2 + bit;
        count += 1;
    }
    byte
}

/// A reading position in a byte sequence, counted in bits from its start.
pub struct BitCursor<'a> {
    bytes: &'a [u8],
    offset: u128,
}

impl<'a> BitCursor<'a> {
    #[verifier::type_invariant]
    spec fn within_source(self) -> bool {
        self.offset <= 8 * self.bytes@.len()
    }

    /// The bytes that the cursor reads from.
    pub closed spec fn source(self) -> Seq<u8> {
        self.bytes@
    }

    /// The number of bits read or skipped so far.
    pub closed spec fn offset(self) -> int {
        self.offset as int
    }

    /// The number of bits between the cursor and the end of the source.
    pub open spec fn remaining(self) -> int {
        8 * self.source().len() - self.offset()
    }

    /// A cursor at the first bit of `bytes`.
    pub fn new(bytes: &'a [u8]) -> (cursor: Self)
        ensures
            cursor.source() == bytes@,
            cursor.offset() == 0,
    {
        BitCursor { bytes, offset: 0 }
    }

    /// The number of bits that can still be read.
    pub fn bits_left(&self) -> (left: u128)
        ensures
            left == self.remaining(),
    {
        proof {
            use_type_invariant(self);
        }
        let total: u128 = 8 * (self.bytes.len() as u128);
        total - self.offset
    }

    /// Reads one bit, or returns `None` at the end of the source.
    pub fn read(&mut self) -> (bit: Option<bool>)
        ensures
            final(self).source() == old(self).source(),
            old(self).remaining() >= 1 ==> bit == Some(
                bitstream(old(self).source())[old(self).offset()],
            ) && final(self).offset() == old(self).offset() + 1,
            old(self).remaining() < 1 ==> bit.is_none() && final(self).offset() == old(self).offset(),
    {
        proof {
            use_type_invariant(&*self);
        }
        if self.bits_left() < 1 {
            return None;
        }
        let index: usize = (self.offset / 8) as usize;
        let k: u8 = (self.offset % 8) as u8;
        let byte: u8 = self.bytes[index];
        let shifted: u8 = byte >> (7 - k);
        proof {
            lemma_u8_shr_is_div(byte, (7 - k) as u8);
        }
        self.offset = self.offset + 1;
        Some(shifted % 2 == 1)
    }

    /// Reads `n` bits in stream order. Returns `None`, and leaves the cursor
    /// where it was, when fewer than `n` bits are left.
    pub fn read_multi(&mut self, n: usize) -> (bits: Option<Vec<bool>>)
        ensures
            final(self).source() == old(self).source(),
            n <= old(self).remaining() ==> final(self).offset() == old(self).offset() + n && (
            bits matches Some(read) && read@ == bitstream(old(self).source()).subrange(
                old(self).offset(),
                old(self).offset() + n,
            )),
            n > old(self).remaining() ==> bits.is_none() && final(self).offset() == old(self).offset(),
    {
        if (n as u128) > self.bits_left() {
            return None;
        }
        let ghost start = self.offset();
        let ghost stream = bitstream(self.source());
        let mut read: Vec<bool> = Vec::new();
        let mut count: usize = 0;
        while count < n
            invariant
                count <= n,
                self.source() == old(self).source(),
                stream == bitstream(old(self).source()),
                start == old(self).offset(),
                start + n <= 8 * self.source().len(),
                self.offset() == start + count,
                read@ == stream.subrange(start, start + count),
            decreases n - count,
        {
            let bit = self.read();
            match bit {
                Some(b) => {
                    read.push(b);
                },
                None => {
                    proof {
                        assert(false);
                    }
                },
            }
            proof {
                assert(stream.subrange(start, start + count).push(stream[start + count])
                    =~= stream.subrange(start, start + count + 1));
            }
            count += 1;
        }
        Some(read)
    }

    /// Reads an unsigned number of `width` bits, first bit most significant.
    /// Returns `None`, and leaves the cursor where it was, when `width`
    /// exceeds eight or the bits that are left.
    pub fn read_bits(&mut self, width: u8) -> (value: Option<u8>)
        ensures
            final(self).source() == old(self).source(),
            width <= 8 && width <= old(self).remaining() ==> value == Some(
                field(old(self).source(), old(self).offset(), width as int) as u8,
            ) && final(self).offset() == old(self).offset() + width,
            width > 8 || width > old(self).remaining() ==> value.is_none() && final(self).offset() == old(self).offset(),
            value matches Some(v) ==> v < pow2(width as nat),
    {
        if width > 8 {
            return None;
        }
        match self.read_multi(width as usize) {
            Some(bits) => {
                proof {
                    assert(bits@.take(bits@.len() as int) =~= bits@);
                    lemma_packed_bound(bits@);
                }
                Some(pack_to_byte(bits))
            },
            None => None,
        }
    }

    /// Passes over `n` bits without reading them. Returns `false`, and leaves
    /// the cursor where it was, when fewer than `n` bits are left.
    pub fn skip(&mut self, n: u8) -> (skipped: bool)
        ensures
            final(self).source() == old(self).source(),
            skipped == (n <= old(self).remaining()),
            final(self).offset() == old(self).offset() + if skipped {
                n as int
            } else {
                0
            },
    {
        proof {
            use_type_invariant(&*self);
        }
        let total: u128 = 8 * (self.bytes.len() as u128);
        if (n as u128) > total - self.offset {
            return false;
        }
        self.offset = self.offset + (n as u128);
        true
    }
}

} // verus!
