//! A 16-bit word codec: two bytes on the wire, low byte first, each byte
//! most significant bit first. Its context is [`EmptyCtx`].

use vstd::prelude::*;
use crate::bits::{
    byte_bits, byte_of_bits, lemma_byte_of_byte_bits, BitAcc, BitCursor,
};
use crate::codec::{BitRead, BitWrite, Codec, EmptyCtx};
use crate::error::CodecError;

verus! {

/// The sixteen bits encoding a word: its low byte, then its high byte.
pub open spec fn word_bits(v: u16) -> Seq<bool> {
    byte_bits((v & 0xffu16) as u8) + byte_bits((v >> 8u16) as u8)
}

/// The word whose encoding the first sixteen elements of `s` are.
pub open spec fn word_of_bits(s: Seq<bool>) -> u16
    recommends
        s.len() >= 16,
{
    (byte_of_bits(s) as u16) | ((byte_of_bits(s.skip(8)) as u16) << 8u16)
}

/// Reads the byte standing `off` bits in front of the cursor.
fn take_byte(cur: &BitCursor, off: usize) -> (b: u8)
    requires
        off + 8 <= cur@.len(),
    ensures
        b == byte_of_bits(cur@.skip(off as int)),
{
    let n: usize = cur.remaining();
    let x0: u8 = if cur.bit_at(off) {
        1
    } else {
        0
    };
    let x1: u8 = if cur.bit_at(off + 1) {
        1
    } else {
        0
    };
    let x2: u8 = if cur.bit_at(off + 2) {
        1
    } else {
        0
    };
    let x3: u8 = if cur.bit_at(off + 3) {
        1
    } else {
        0
    };
    let x4: u8 = if cur.bit_at(off + 4) {
        1
    } else {
        0
    };
    let x5: u8 = if cur.bit_at(off + 5) {
        1
    } else {
        0
    };
    let x6: u8 = if cur.bit_at(off + 6) {
        1
    } else {
        0
    };
    let x7: u8 = if cur.bit_at(off + 7) {
        1
    } else {
        0
    };
    (x0 << 7u8) | (x1 << 6u8) | (x2 << 5u8) | (x3 << 4u8) | (x4 << 3u8) | (x5 << 2u8) | (x6
        << 1u8) | x7
}

/// Appends the eight bits of a byte, most significant first.
fn push_byte(out: &mut BitAcc, b: u8)
    ensures
        final(out)@ == old(out)@ + byte_bits(b),
{
    out.push_bit(((b >> 7u8) & 1u8) == 1u8);
    out.push_bit(((b >> 6u8) & 1u8) == 1u8);
    out.push_bit(((b >> 5u8) & 1u8) == 1u8);
    out.push_bit(((b >> 4u8) & 1u8) == 1u8);
    out.push_bit(((b >> 3u8) & 1u8) == 1u8);
    out.push_bit(((b >> 2u8) & 1u8) == 1u8);
    out.push_bit(((b >> 1u8) & 1u8) == 1u8);
    out.push_bit(((b >> 0u8) & 1u8) == 1u8);
    proof {
        assert(final(out)@ =~= old(out)@ + byte_bits(b));
    }
}

/// A word read back from the sixteen bits that encode it, whatever follows
/// them, is the word itself.
pub proof fn lemma_word_of_word_bits(v: u16, rest: Seq<bool>)
    ensures
        word_of_bits(word_bits(v) + rest) == v,
{
    let lo = (v & 0xffu16) as u8;
    let hi = (v >> 8u16) as u8;
    let s = word_bits(v) + rest;
    assert(s.take(8) =~= byte_bits(lo));
    assert(byte_of_bits(s) == byte_of_bits(s.take(8)));
    lemma_byte_of_byte_bits(lo);
    assert(s.skip(8).take(8) =~= byte_bits(hi));
    assert(byte_of_bits(s.skip(8)) == byte_of_bits(s.skip(8).take(8)));
    lemma_byte_of_byte_bits(hi);
    assert(((v & 0xffu16) as u8 as u16) | ((((v >> 8u16) as u8) as u16) << 8u16) == v)
        by (bit_vector);
}

impl BitRead<EmptyCtx> for u16 {
    open spec fn dec_ok(bits: Seq<bool>, ctx: EmptyCtx) -> bool {
        bits.len() >= 16
    }

    open spec fn dec_len(bits: Seq<bool>, ctx: EmptyCtx) -> nat {
        16
    }

    open spec fn dec_err(bits: Seq<bool>, ctx: EmptyCtx) -> CodecError {
        CodecError::Incomplete
    }

    open spec fn is_dec_of(&self, bits: Seq<bool>, ctx: EmptyCtx) -> bool {
        bits.len() >= 16 && *self == word_of_bits(bits)
    }

    fn read(cur: BitCursor, ctx: EmptyCtx) -> (r: Result<(BitCursor, u16), CodecError>) {
        if cur.remaining() < 16 {
            return Err(CodecError::Incomplete);
        }
        let lo = take_byte(&cur, 0);
        let hi = take_byte(&cur, 8);
        let v: u16 = (lo as u16) | ((hi as u16) << 8u16);
        proof {
            assert(cur@.skip(0) =~= cur@);
        }
        let rest = cur.advance(16);
        Ok((rest, v))
    }
}

impl BitWrite<EmptyCtx> for u16 {
    open spec fn enc_ok(&self, ctx: EmptyCtx) -> bool {
        true
    }

    open spec fn enc(&self, ctx: EmptyCtx) -> Seq<bool> {
        word_bits(*self)
    }

    open spec fn enc_err(&self, ctx: EmptyCtx) -> CodecError {
        CodecError::Incomplete
    }

    fn write(&self, out: &mut BitAcc, ctx: EmptyCtx) -> (r: Result<(), CodecError>) {
        let lo = (*self & 0xffu16) as u8;
        let hi = (*self >> 8u16) as u8;
        push_byte(out, lo);
        push_byte(out, hi);
        proof {
            assert(out@ =~= old(out)@ + word_bits(*self));
        }
        Ok(())
    }
}

impl Codec<EmptyCtx> for u16 {
    proof fn lemma_enc_dec(v: Self, rest: Seq<bool>, ctx: EmptyCtx) {
        lemma_word_of_word_bits(v, rest);
    }
}

} // verus!
