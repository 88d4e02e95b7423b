//! A bounded sequence codec: a growable sequence of 16-bit words whose
//! decode is governed by a limit carried in the context. The limit says how
//! many elements may be materialized — directly, as a byte or bit budget,
//! or "until input exhausted" — and the decode stops exactly at the last
//! element that fits wholly within it.

use vstd::prelude::*;
use crate::bits::{BitAcc, BitCursor};
use crate::codec::{BitRead, BitWrite, EmptyCtx};
use crate::cow::CopyOnWrite;
use crate::error::CodecError;
use crate::word::{word_bits, word_of_bits};

verus! {

/// A size expressed on the wire, in bits or in whole bytes.
#[derive(Clone, Copy, Debug, PartialEq, Eq, Structural)]
pub enum WireSize {
    /// So many bits.
    Bits(usize),
    /// So many bytes of eight bits each.
    Bytes(usize),
}

/// The bound a sequence decode is given: how much input it may consume.
#[derive(Clone, Copy, Debug, PartialEq, Eq, Structural)]
pub enum Limit {
    /// Exactly this many elements.
    Count(usize),
    /// As many whole elements as fit within this size.
    Size(WireSize),
    /// As many whole elements as the remaining input holds.
    End,
}

/// How many 16-bit elements a decode under `lim` materializes, when `avail`
/// bits stand in front of the cursor.
pub open spec fn elem_target(lim: Limit, avail: nat) -> nat {
    match lim {
        Limit::Count(n) => n as nat,
        Limit::Size(WireSize::Bits(m)) => (m as nat) / 16,
        Limit::Size(WireSize::Bytes(m)) => (m as nat) / 2,
        Limit::End => avail / 16,
    }
}

/// The concatenated encodings of a sequence of words.
pub open spec fn words_bits(s: Seq<u16>) -> Seq<bool>
    decreases s.len(),
{
    if s.len() == 0 {
        Seq::empty()
    } else {
        word_bits(s[0]) + words_bits(s.skip(1))
    }
}

/// A sequence encodes to sixteen bits per element.
pub proof fn lemma_words_bits_len(s: Seq<u16>)
    ensures
        words_bits(s).len() == 16 * s.len(),
    decreases s.len(),
{
    if s.len() > 0 {
        lemma_words_bits_len(s.skip(1));
    }
}

/// Appending one word to a sequence appends its sixteen bits to the
/// sequence's encoding.
pub proof fn lemma_words_bits_push(s: Seq<u16>, v: u16)
    ensures
        words_bits(s.push(v)) == words_bits(s) + word_bits(v),
    decreases s.len(),
{
    if s.len() == 0 {
        assert(s.push(v)[0] == v);
        assert(s.push(v).skip(1) =~= Seq::<u16>::empty());
        assert(words_bits(s.push(v)) == word_bits(v) + words_bits(Seq::<u16>::empty()));
        assert(word_bits(v) + Seq::<bool>::empty() =~= Seq::<bool>::empty() + word_bits(v));
    } else {
        assert(s.push(v)[0] == s[0]);
        assert(s.push(v).skip(1) =~= s.skip(1).push(v));
        assert(words_bits(s.push(v)) == word_bits(s[0]) + words_bits(s.skip(1).push(v)));
        lemma_words_bits_push(s.skip(1), v);
        assert(word_bits(s[0]) + (words_bits(s.skip(1)) + word_bits(v)) =~= (word_bits(s[0])
            + words_bits(s.skip(1))) + word_bits(v));
    }
}

/// Element `i` of a sequence can be read back out of the sequence's
/// encoding, whatever follows it, sixteen bits per element in.
pub proof fn lemma_words_bits_elem(s: Seq<u16>, rest: Seq<bool>, i: int)
    requires
        0 <= i < s.len(),
    ensures
        word_of_bits((words_bits(s) + rest).skip(16 * i)) == s[i],
    decreases i,
{
    lemma_words_bits_len(s.skip(1));
    if i == 0 {
        assert((words_bits(s) + rest).skip(0) =~= word_bits(s[0]) + (words_bits(s.skip(1))
            + rest));
        crate::word::lemma_word_of_word_bits(s[0], words_bits(s.skip(1)) + rest);
    } else {
        assert((words_bits(s) + rest).skip(16 * i) =~= (words_bits(s.skip(1)) + rest).skip(
            16 * (i - 1),
        ));
        lemma_words_bits_elem(s.skip(1), rest, i - 1);
    }
}

impl BitRead<Limit> for Vec<u16> {
    /// The decode succeeds exactly when the input holds every element the
    /// limit asks for; under `End` that is always so.
    open spec fn dec_ok(bits: Seq<bool>, lim: Limit) -> bool {
        bits.len() >= 16 * elem_target(lim, bits.len())
    }

    /// Sixteen bits per materialized element: never more than the limit
    /// allows, and always a whole number of elements.
    open spec fn dec_len(bits: Seq<bool>, lim: Limit) -> nat {
        16 * elem_target(lim, bits.len())
    }

    open spec fn dec_err(bits: Seq<bool>, lim: Limit) -> CodecError {
        CodecError::Incomplete
    }

    open spec fn is_dec_of(&self, bits: Seq<bool>, lim: Limit) -> bool {
        &&& bits.len() >= 16 * elem_target(lim, bits.len())
        &&& self@ == Seq::new(
            elem_target(lim, bits.len()),
            |i: int| word_of_bits(bits.skip(16 * i)),
        )
    }

    /// Reads elements left to right until the limit is reached, stopping at
    /// an element boundary; the cursor ends exactly after the last element
    /// read. The element decoder, not the limit, is delegated to for each
    /// element in turn.
    fn read(cur: BitCursor, lim: Limit) -> (r: Result<(BitCursor, Vec<u16>), CodecError>) {
        let avail: usize = cur.remaining();
        let target: usize = match lim {
            Limit::Count(n) => n,
            Limit::Size(WireSize::Bits(m)) => m / 16,
            Limit::Size(WireSize::Bytes(m)) => m / 2,
            Limit::End => avail / 16,
        };
        proof {
            assert((target <= avail / 16) == (16 * target <= avail)) by (nonlinear_arith)
                requires
                    avail >= 0,
                    target >= 0,
            ;
        }
        if target > avail / 16 {
            return Err(CodecError::Incomplete);
        }
        let ghost orig: Seq<bool> = cur@;
        let mut c = cur;
        let mut out: Vec<u16> = Vec::new();
        let mut i: usize = 0;
        while i < target
            invariant
                i <= target,
                16 * target <= orig.len(),
                c@ == orig.skip(16 * i as int),
                out@.len() == i,
                forall|j: int| 0 <= j < i ==> out@[j] == word_of_bits(orig.skip(16 * j)),
            decreases target - i,
        {
            proof {
                assert(c@.len() == orig.len() - 16 * i as int);
                assert(16 * i as int + 16 <= 16 * target);
            }
            match <u16 as BitRead<EmptyCtx>>::read(c, EmptyCtx) {
                Ok((c2, v)) => {
                    proof {
                        assert(c@.skip(16) =~= orig.skip(16 * (i + 1) as int));
                    }
                    c = c2;
                    out.push(v);
                },
                Err(e) => {
                    // dead: the input check above guarantees every element
                    proof {
                        assert(false);
                    }
                    return Err(e);
                },
            }
            i = i + 1;
        }
        proof {
            assert(out@ =~= Seq::new(
                elem_target(lim, orig.len()),
                |j: int| word_of_bits(orig.skip(16 * j)),
            ));
        }
        Ok((c, out))
    }
}

impl BitWrite<EmptyCtx> for Vec<u16> {
    open spec fn enc_ok(&self, ctx: EmptyCtx) -> bool {
        true
    }

    open spec fn enc(&self, ctx: EmptyCtx) -> Seq<bool> {
        words_bits(self@)
    }

    open spec fn enc_err(&self, ctx: EmptyCtx) -> CodecError {
        CodecError::Incomplete
    }

    /// Writes every element in order, sixteen bits each.
    fn write(&self, out: &mut BitAcc, ctx: EmptyCtx) -> (r: Result<(), CodecError>) {
        let mut i: usize = 0;
        proof {
            assert(self@.take(0) =~= Seq::<u16>::empty());
        }
        while i < self.len()
            invariant
                i <= self@.len(),
                out@ == old(out)@ + words_bits(self@.take(i as int)),
            decreases self@.len() - i,
        {
            let v: u16 = self[i];
            match <u16 as BitWrite<EmptyCtx>>::write(&v, out, EmptyCtx) {
                Ok(_) => {
                },
                Err(e) => {
                    // dead: a word's encode always succeeds
                    proof {
                        assert(false);
                    }
                    return Err(e);
                },
            }
            proof {
                lemma_words_bits_push(self@.take(i as int), self@[i as int]);
                assert(self@.take(i as int).push(self@[i as int]) =~= self@.take(i as int + 1));
                assert(out@ =~= old(out)@ + words_bits(self@.take(i as int + 1)));
            }
            i = i + 1;
        }
        proof {
            assert(self@.take(self@.len() as int) =~= self@);
        }
        Ok(())
    }
}

/// The whole multiples of `d` within `x` do not exceed `x`.
proof fn lemma_div_mul_le(x: int, d: int)
    requires
        0 <= x,
        0 < d,
    ensures
        d * (x / d) <= x,
{
    vstd::arithmetic::div_mod::lemma_fundamental_div_mod(x, d);
    vstd::arithmetic::div_mod::lemma_mod_bound(x, d);
}

/// Limit respect: a bounded decode consumes a whole number of elements and
/// never more than its limit allows — at most `8 * m` bits under a byte
/// limit of `m`, at most `m` bits under a bit limit of `m`, and at most the
/// remaining input when reading until exhaustion.
pub proof fn lemma_limit_respected(bits: Seq<bool>, lim: Limit)
    ensures
        <Vec<u16> as BitRead<Limit>>::dec_len(bits, lim) % 16 == 0,
        lim matches Limit::Size(WireSize::Bytes(m)) ==> <Vec<u16> as BitRead<Limit>>::dec_len(
            bits,
            lim,
        ) <= 8 * m,
        lim matches Limit::Size(WireSize::Bits(m)) ==> <Vec<u16> as BitRead<Limit>>::dec_len(
            bits,
            lim,
        ) <= m,
        lim is End ==> <Vec<u16> as BitRead<Limit>>::dec_len(bits, lim) <= bits.len(),
{
    let e = elem_target(lim, bits.len());
    vstd::arithmetic::div_mod::lemma_mod_multiples_basic(e as int, 16);
    match lim {
        Limit::Count(n) => {
        },
        Limit::Size(WireSize::Bits(m)) => {
            lemma_div_mul_le(m as int, 16);
        },
        Limit::Size(WireSize::Bytes(m)) => {
            lemma_div_mul_le(m as int, 2);
        },
        Limit::End => {
            lemma_div_mul_le(bits.len() as int, 16);
        },
    }
}

/// Round trip under an element count: decoding the encoding of a sequence,
/// with a count limit equal to its length, succeeds, consumes exactly the
/// encoding, and yields the sequence back.
pub proof fn lemma_seq_enc_dec_count(v: Vec<u16>, rest: Seq<bool>)
    requires
        v@.len() <= usize::MAX,
    ensures
        <Vec<u16> as BitRead<Limit>>::dec_ok(
            words_bits(v@) + rest,
            Limit::Count(v@.len() as usize),
        ),
        <Vec<u16> as BitRead<Limit>>::dec_len(
            words_bits(v@) + rest,
            Limit::Count(v@.len() as usize),
        ) == words_bits(v@).len(),
        v.is_dec_of(words_bits(v@) + rest, Limit::Count(v@.len() as usize)),
{
    let bits = words_bits(v@) + rest;
    let lim = Limit::Count(v@.len() as usize);
    lemma_words_bits_len(v@);
    assert(elem_target(lim, bits.len()) == v@.len());
    let model = Seq::new(v@.len(), |i: int| word_of_bits(bits.skip(16 * i)));
    assert forall|i: int| 0 <= i < v@.len() implies model[i] == v@[i] by {
        lemma_words_bits_elem(v@, rest, i);
    }
    assert(v@ =~= model);
}

/// Round trip under a byte limit: decoding the encoding of a sequence,
/// with a byte limit of two bytes per element, succeeds, consumes exactly
/// the encoding, and yields the sequence back.
pub proof fn lemma_seq_enc_dec_bytes(v: Vec<u16>, rest: Seq<bool>)
    requires
        2 * v@.len() <= usize::MAX,
    ensures
        <Vec<u16> as BitRead<Limit>>::dec_ok(
            words_bits(v@) + rest,
            Limit::Size(WireSize::Bytes((2 * v@.len()) as usize)),
        ),
        <Vec<u16> as BitRead<Limit>>::dec_len(
            words_bits(v@) + rest,
            Limit::Size(WireSize::Bytes((2 * v@.len()) as usize)),
        ) == words_bits(v@).len(),
        v.is_dec_of(words_bits(v@) + rest, Limit::Size(WireSize::Bytes((2 * v@.len()) as usize))),
{
    let bits = words_bits(v@) + rest;
    let lim = Limit::Size(WireSize::Bytes((2 * v@.len()) as usize));
    lemma_words_bits_len(v@);
    vstd::arithmetic::div_mod::lemma_div_by_multiple(v@.len() as int, 2);
    assert((v@.len() * 2) as int / 2 == v@.len());
    assert(elem_target(lim, bits.len()) == v@.len());
    let model = Seq::new(v@.len(), |i: int| word_of_bits(bits.skip(16 * i)));
    assert forall|i: int| 0 <= i < v@.len() implies model[i] == v@[i] by {
        lemma_words_bits_elem(v@, rest, i);
    }
    assert(v@ =~= model);
}

/// Round trip for the unsized case, across contexts: encoding a container
/// of a word sequence under the empty context, then decoding the produced
/// bits under a byte limit of two bytes per element, succeeds, consumes
/// exactly the encoding, and yields the payload again as an owned value.
pub proof fn lemma_cow_seq_round_trip<'a>(w: CopyOnWrite<'a, Vec<u16>>, rest: Seq<bool>)
    requires
        2 * w.payload()@.len() <= usize::MAX,
    ensures
        <CopyOnWrite<'a, Vec<u16>> as BitRead<Limit>>::dec_ok(
            w.enc(EmptyCtx) + rest,
            Limit::Size(WireSize::Bytes((2 * w.payload()@.len()) as usize)),
        ),
        <CopyOnWrite<'a, Vec<u16>> as BitRead<Limit>>::dec_len(
            w.enc(EmptyCtx) + rest,
            Limit::Size(WireSize::Bytes((2 * w.payload()@.len()) as usize)),
        ) == w.enc(EmptyCtx).len(),
        CopyOnWrite::Owned(w.payload()).is_dec_of(
            w.enc(EmptyCtx) + rest,
            Limit::Size(WireSize::Bytes((2 * w.payload()@.len()) as usize)),
        ),
{
    lemma_seq_enc_dec_bytes(w.payload(), rest);
}

} // verus!
