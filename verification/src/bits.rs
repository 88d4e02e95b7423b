//! The bit-level model of the wire: a bit-addressed cursor over a byte
//! buffer and a bit accumulator, both most-significant-bit first with eight
//! bits per storage byte.

use vstd::prelude::*;

verus! {

/// Bit `i` of a byte, counting from the most significant end: bit 0 is the
/// `0x80` bit, bit 7 the `0x01` bit.
pub open spec fn nth_bit(b: u8, i: int) -> bool
    recommends
        0 <= i < 8,
{
    (b >> ((7 - i) as u8)) & 1u8 == 1u8
}

/// The eight bits of a byte, most significant first.
pub open spec fn byte_bits(b: u8) -> Seq<bool> {
    Seq::new(8, |i: int| nth_bit(b, i))
}

/// A bit as the numeral 0 or 1.
pub open spec fn bit_u8(x: bool) -> u8 {
    if x {
        1u8
    } else {
        0u8
    }
}

/// The byte whose bits, most significant first, are the first eight
/// elements of `s`.
pub open spec fn byte_of_bits(s: Seq<bool>) -> u8
    recommends
        s.len() >= 8,
{
    (bit_u8(s[0]) << 7u8) | (bit_u8(s[1]) << 6u8) | (bit_u8(s[2]) << 5u8) | (bit_u8(s[3]) << 4u8)
        | (bit_u8(s[4]) << 3u8) | (bit_u8(s[5]) << 2u8) | (bit_u8(s[6]) << 1u8) | bit_u8(s[7])
}

/// The bits of a byte sequence, each byte most significant bit first.
pub open spec fn bits_of_bytes(bs: Seq<u8>) -> Seq<bool> {
    Seq::new(bs.len() * 8, |i: int| nth_bit(bs[i / 8], i % 8))
}

/// The bytes packing a bit sequence whose length is a whole number of
/// bytes, eight bits per byte, most significant first.
pub open spec fn bytes_of_bits(s: Seq<bool>) -> Seq<u8>
    recommends
        s.len() % 8 == 0,
{
    Seq::new((s.len() / 8) as nat, |j: int| byte_of_bits(s.skip(8 * j)))
}

/// Packing the eight bits of a byte gives the byte back.
pub proof fn lemma_byte_of_byte_bits(b: u8)
    ensures
        byte_of_bits(byte_bits(b)) == b,
{
    assert((bit_u8(nth_bit(b, 0)) << 7u8) | (bit_u8(nth_bit(b, 1)) << 6u8) | (bit_u8(
        nth_bit(b, 2),
    ) << 5u8) | (bit_u8(nth_bit(b, 3)) << 4u8) | (bit_u8(nth_bit(b, 4)) << 3u8) | (bit_u8(
        nth_bit(b, 5),
    ) << 2u8) | (bit_u8(nth_bit(b, 6)) << 1u8) | bit_u8(nth_bit(b, 7)) == b) by (bit_vector);
}

/// Unpacking the byte packed from eight bits gives those bits back.
pub proof fn lemma_byte_bits_of_byte(s: Seq<bool>)
    requires
        s.len() >= 8,
    ensures
        byte_bits(byte_of_bits(s)) =~= s.take(8),
{
    let x0 = bit_u8(s[0]);
    let x1 = bit_u8(s[1]);
    let x2 = bit_u8(s[2]);
    let x3 = bit_u8(s[3]);
    let x4 = bit_u8(s[4]);
    let x5 = bit_u8(s[5]);
    let x6 = bit_u8(s[6]);
    let x7 = bit_u8(s[7]);
    let b = byte_of_bits(s);
    assert((((b >> 7u8) & 1u8 == 1u8) == (x0 == 1u8)) && (((b >> 6u8) & 1u8 == 1u8) == (x1 == 1u8))
        && (((b >> 5u8) & 1u8 == 1u8) == (x2 == 1u8)) && (((b >> 4u8) & 1u8 == 1u8) == (x3 == 1u8))
        && (((b >> 3u8) & 1u8 == 1u8) == (x4 == 1u8)) && (((b >> 2u8) & 1u8 == 1u8) == (x5 == 1u8))
        && (((b >> 1u8) & 1u8 == 1u8) == (x6 == 1u8)) && (((b >> 0u8) & 1u8 == 1u8) == (x7
        == 1u8))) by (bit_vector)
        requires
            b == (x0 << 7u8) | (x1 << 6u8) | (x2 << 5u8) | (x3 << 4u8) | (x4 << 3u8) | (x5 << 2u8)
                | (x6 << 1u8) | x7,
            x0 <= 1 && x1 <= 1 && x2 <= 1 && x3 <= 1 && x4 <= 1 && x5 <= 1 && x6 <= 1 && x7 <= 1,
    ;
}

/// Packing a whole number of bytes' worth of bits and unpacking the bytes
/// again gives the bits back: what an accumulator hands out as bytes, a
/// cursor over those bytes reads as the very same bit sequence.
pub proof fn lemma_bits_of_bytes_of_bits(s: Seq<bool>)
    requires
        s.len() % 8 == 0,
    ensures
        bits_of_bytes(bytes_of_bits(s)) =~= s,
{
    let bs = bytes_of_bits(s);
    vstd::arithmetic::div_mod::lemma_fundamental_div_mod(s.len() as int, 8);
    assert(bs.len() * 8 == s.len());
    assert forall|i: int| 0 <= i < s.len() implies bits_of_bytes(bs)[i] == s[i] by {
        vstd::arithmetic::div_mod::lemma_fundamental_div_mod(i, 8);
        vstd::arithmetic::div_mod::lemma_mod_bound(i, 8);
        let k = i / 8;
        let j = i % 8;
        let t = s.skip(8 * k);
        assert(k < bs.len());
        assert(t.len() >= 8);
        lemma_byte_bits_of_byte(t);
        assert(byte_bits(byte_of_bits(t))[j] == t.take(8)[j]);
        assert(t[j] == s[i]);
    }
}

/// Position `8 * i + j` addresses bit `j` of byte `i`.
proof fn lemma_bit_index(i: int, j: int)
    requires
        0 <= i,
        0 <= j < 8,
    ensures
        (8 * i + j) / 8 == i,
        (8 * i + j) % 8 == j,
{
    assert((8 * i + j) / 8 == i && (8 * i + j) % 8 == j) by (nonlinear_arith)
        requires
            0 <= i,
            0 <= j < 8,
    ;
}

/// An immutable, bit-addressed view over a byte buffer: the bits of `bits`
/// from position `pos` on. Decoders consume it strictly left to right; the
/// cursor a decode returns reflects exactly the bits consumed.
#[derive(Debug)]
pub struct BitCursor {
    bits: Vec<bool>,
    pos: usize,
}

impl View for BitCursor {
    type V = Seq<bool>;

    closed spec fn view(&self) -> Seq<bool> {
        self.bits@.skip(self.pos as int)
    }
}

impl BitCursor {
    #[verifier::type_invariant]
    spec fn inv(&self) -> bool {
        self.pos <= self.bits@.len()
    }

    /// A cursor over all bits of `bytes`, most significant bit of each byte
    /// first.
    pub fn from_bytes(bytes: &Vec<u8>) -> (c: BitCursor)
        ensures
            c@ == bits_of_bytes(bytes@),
    {
        let mut bits: Vec<bool> = Vec::new();
        let mut i: usize = 0;
        while i < bytes.len()
            invariant
                i <= bytes@.len(),
                bits@.len() == 8 * i,
                forall|k: int| 0 <= k < bits@.len() ==> bits@[k] == bits_of_bytes(bytes@)[k],
            decreases bytes@.len() - i,
        {
            let b = bytes[i];
            proof {
                lemma_bit_index(i as int, 0);
                lemma_bit_index(i as int, 1);
                lemma_bit_index(i as int, 2);
                lemma_bit_index(i as int, 3);
                lemma_bit_index(i as int, 4);
                lemma_bit_index(i as int, 5);
                lemma_bit_index(i as int, 6);
                lemma_bit_index(i as int, 7);
            }
            bits.push(((b >> 7u8) & 1u8) == 1u8);
            bits.push(((b >> 6u8) & 1u8) == 1u8);
            bits.push(((b >> 5u8) & 1u8) == 1u8);
            bits.push(((b >> 4u8) & 1u8) == 1u8);
            bits.push(((b >> 3u8) & 1u8) == 1u8);
            bits.push(((b >> 2u8) & 1u8) == 1u8);
            bits.push(((b >> 1u8) & 1u8) == 1u8);
            bits.push(((b >> 0u8) & 1u8) == 1u8);
            i = i + 1;
        }
        proof {
            assert(bits@ =~= bits_of_bytes(bytes@));
        }
        BitCursor { bits, pos: 0 }
    }

    /// How many bits are left in front of the cursor.
    pub fn remaining(&self) -> (n: usize)
        ensures
            n == self@.len(),
    {
        proof {
            use_type_invariant(&*self);
        }
        self.bits.len() - self.pos
    }

    /// The bit `i` places in front of the cursor.
    pub fn bit_at(&self, i: usize) -> (x: bool)
        requires
            i < self@.len(),
        ensures
            x == self@[i as int],
    {
        proof {
            use_type_invariant(&*self);
        }
        let n: usize = self.bits.len();
        proof {
            assert(self@.len() == n - self.pos);
        }
        self.bits[self.pos + i]
    }

    /// The cursor `n` bits further on.
    pub fn advance(self, n: usize) -> (c: BitCursor)
        requires
            n <= self@.len(),
        ensures
            c@ == self@.skip(n as int),
    {
        proof {
            use_type_invariant(&self);
        }
        let total: usize = self.bits.len();
        proof {
            assert(self@.len() == total - self.pos);
        }
        let c = BitCursor { bits: self.bits, pos: self.pos + n };
        proof {
            assert(c@ =~= self@.skip(n as int));
        }
        c
    }
}

/// An output accumulator: encoders append bits at its end and never truncate
/// or rewrite what was appended before.
#[derive(Debug)]
pub struct BitAcc {
    bits: Vec<bool>,
}

impl View for BitAcc {
    type V = Seq<bool>;

    closed spec fn view(&self) -> Seq<bool> {
        self.bits@
    }
}

impl BitAcc {
    /// An empty accumulator.
    pub fn new() -> (a: BitAcc)
        ensures
            a@ == Seq::<bool>::empty(),
    {
        BitAcc { bits: Vec::new() }
    }

    /// Appends one bit at the end.
    pub fn push_bit(&mut self, x: bool)
        ensures
            final(self)@ == old(self)@.push(x),
    {
        self.bits.push(x);
    }

    /// How many bits have been appended so far.
    pub fn len(&self) -> (n: usize)
        ensures
            n == self@.len(),
    {
        self.bits.len()
    }

    /// Packs the accumulated bits into bytes, eight per byte, most
    /// significant first. Defined for whole bytes only: encoders of
    /// byte-aligned values always leave a whole number of bytes.
    pub fn into_bytes(self) -> (r: Vec<u8>)
        requires
            self@.len() % 8 == 0,
        ensures
            r@ == bytes_of_bits(self@),
    {
        let mut r: Vec<u8> = Vec::new();
        let nbits: usize = self.bits.len();
        let total: usize = nbits / 8;
        let mut j: usize = 0;
        while j < total
            invariant
                nbits == self@.len(),
                nbits % 8 == 0,
                total == nbits / 8,
                j <= total,
                r@.len() == j,
                forall|m: int| 0 <= m < j ==> r@[m] == bytes_of_bits(self@)[m],
            decreases total - j,
        {
            proof {
                assert(8 * j + 8 <= nbits) by (nonlinear_arith)
                    requires
                        j < total,
                        total == nbits / 8,
                        nbits % 8 == 0,
                ;
            }
            let base: usize = 8 * j;
            let x0: u8 = if self.bits[base] {
                1
            } else {
                0
            };
            let x1: u8 = if self.bits[base + 1] {
                1
            } else {
                0
            };
            let x2: u8 = if self.bits[base + 2] {
                1
            } else {
                0
            };
            let x3: u8 = if self.bits[base + 3] {
                1
            } else {
                0
            };
            let x4: u8 = if self.bits[base + 4] {
                1
            } else {
                0
            };
            let x5: u8 = if self.bits[base + 5] {
                1
            } else {
                0
            };
            let x6: u8 = if self.bits[base + 6] {
                1
            } else {
                0
            };
            let x7: u8 = if self.bits[base + 7] {
                1
            } else {
                0
            };
            let b: u8 = (x0 << 7u8) | (x1 << 6u8) | (x2 << 5u8) | (x3 << 4u8) | (x4 << 3u8) | (x5
                << 2u8) | (x6 << 1u8) | x7;
            proof {
                let t = self@.skip(8 * j as int);
                assert(b == byte_of_bits(t));
            }
            r.push(b);
            j = j + 1;
        }
        proof {
            assert(r@ =~= bytes_of_bits(self@));
        }
        r
    }
}

} // verus!
