//! The copy-on-write adapter: a container that is either an owned value or
//! a non-owning reference, taking part in the decode/encode protocol as a
//! pure dispatch shim.
//!
//! Decoding always produces the owned state, because the buffer behind the
//! cursor is not guaranteed to outlive the produced value. Encoding
//! dispatches on the state it holds, and both states write the identical
//! bit pattern for equal payloads.

use vstd::prelude::*;
use crate::bits::{bits_of_bytes, bytes_of_bits, lemma_bits_of_bytes_of_bits, BitAcc, BitCursor};
use crate::codec::{BitRead, BitWrite, Codec};
use crate::error::CodecError;

verus! {

/// A value that is either exclusively owned by the container or borrowed
/// from storage owned elsewhere, with uniform encode behaviour regardless
/// of which. It is read-only with respect to its payload: created by decode
/// (always [`CopyOnWrite::Owned`]) or by explicit construction from a
/// reference, then consumed by an encode call or dropped.
#[derive(Debug)]
pub enum CopyOnWrite<'a, T> {
    /// The container exclusively owns the value.
    Owned(T),
    /// The container holds a non-owning reference into storage owned
    /// elsewhere; only callers construct this state, a decode never does.
    Borrowed(&'a T),
}

impl<'a, T> CopyOnWrite<'a, T> {
    /// The logical payload, whichever state holds it.
    pub open spec fn payload(self) -> T {
        match self {
            CopyOnWrite::Owned(v) => v,
            CopyOnWrite::Borrowed(r) => *r,
        }
    }

    /// Whether the container is in the owned state.
    pub open spec fn is_owned(self) -> bool {
        self is Owned
    }

    /// Whether the container is in the owned state.
    pub fn owns_payload(&self) -> (r: bool)
        ensures
            r == self.is_owned(),
    {
        match self {
            CopyOnWrite::Owned(_) => true,
            CopyOnWrite::Borrowed(_) => false,
        }
    }
}

impl<'a, Ctx: Copy, T: BitRead<Ctx>> BitRead<Ctx> for CopyOnWrite<'a, T> {
    /// A decode succeeds exactly when the wrapped type's decode does: the
    /// adapter adds no validation of its own.
    open spec fn dec_ok(bits: Seq<bool>, ctx: Ctx) -> bool {
        T::dec_ok(bits, ctx)
    }

    open spec fn dec_len(bits: Seq<bool>, ctx: Ctx) -> nat {
        T::dec_len(bits, ctx)
    }

    /// Whatever error the wrapped decoder raises is surfaced verbatim.
    open spec fn dec_err(bits: Seq<bool>, ctx: Ctx) -> CodecError {
        T::dec_err(bits, ctx)
    }

    /// Only an owned value can come out of a decode; no borrowed state is a
    /// decode result.
    open spec fn is_dec_of(&self, bits: Seq<bool>, ctx: Ctx) -> bool {
        match self {
            CopyOnWrite::Owned(v) => v.is_dec_of(bits, ctx),
            CopyOnWrite::Borrowed(_) => false,
        }
    }

    /// Delegates to the wrapped type's decoder, forwarding the context
    /// unchanged and uninspected, and wraps the result as owned.
    fn read(cur: BitCursor, ctx: Ctx) -> (r: Result<(BitCursor, Self), CodecError>) {
        let (rest, val) = T::read(cur, ctx)?;
        Ok((rest, CopyOnWrite::Owned(val)))
    }
}

impl<'a, Ctx: Copy, T: BitWrite<Ctx>> BitWrite<Ctx> for CopyOnWrite<'a, T> {
    open spec fn enc_ok(&self, ctx: Ctx) -> bool {
        self.payload().enc_ok(ctx)
    }

    /// The encoding is a function of the payload alone, not of the state
    /// that holds it: the two states never diverge.
    open spec fn enc(&self, ctx: Ctx) -> Seq<bool> {
        self.payload().enc(ctx)
    }

    open spec fn enc_err(&self, ctx: Ctx) -> CodecError {
        self.payload().enc_err(ctx)
    }

    /// Dispatches, exhaustively over the two states, to the wrapped type's
    /// encoder; the context passes through unchanged.
    fn write(&self, out: &mut BitAcc, ctx: Ctx) -> (r: Result<(), CodecError>) {
        match self {
            CopyOnWrite::Borrowed(val) => val.write(out, ctx),
            CopyOnWrite::Owned(val) => val.write(out, ctx),
        }
    }
}

/// Decoding never produces the borrowed state: every value a decode can
/// produce is owned.
pub proof fn lemma_decode_always_owned<'a, Ctx: Copy, T: BitRead<Ctx>>(
    w: CopyOnWrite<'a, T>,
    bits: Seq<bool>,
    ctx: Ctx,
)
    ensures
        w.is_dec_of(bits, ctx) ==> w.is_owned(),
{
}

/// Cross-variant equivalence: a borrowed reference and an owned value with
/// equal logical content encode to identical bit sequences, and their
/// encodes succeed together.
pub proof fn lemma_cross_variant_equivalence<'a, Ctx: Copy, T: BitWrite<Ctx>>(
    v: T,
    r: &'a T,
    ctx: Ctx,
)
    requires
        *r == v,
    ensures
        CopyOnWrite::Borrowed(r).enc(ctx) == CopyOnWrite::Owned(v).enc(ctx),
        CopyOnWrite::Borrowed(r).enc_ok(ctx) == CopyOnWrite::Owned(v).enc_ok(ctx),
{
}

/// Round trip: decoding the bits produced by encoding a container yields
/// its payload again, as an owned value, with the cursor positioned exactly
/// after the encoding.
pub proof fn lemma_round_trip<'a, Ctx: Copy, T: Codec<Ctx>>(
    w: CopyOnWrite<'a, T>,
    rest: Seq<bool>,
    ctx: Ctx,
)
    requires
        w.enc_ok(ctx),
    ensures
        <CopyOnWrite<'a, T> as BitRead<Ctx>>::dec_ok(w.enc(ctx) + rest, ctx),
        <CopyOnWrite<'a, T> as BitRead<Ctx>>::dec_len(w.enc(ctx) + rest, ctx) == w.enc(ctx).len(),
        CopyOnWrite::Owned(w.payload()).is_dec_of(w.enc(ctx) + rest, ctx),
{
    T::lemma_enc_dec(w.payload(), rest, ctx);
}

/// Round trip through bytes: when the encoding fills whole bytes, decoding
/// a cursor over exactly the bytes the accumulator hands out yields the
/// payload again, as an owned value, with zero remaining bits.
pub proof fn lemma_round_trip_bytes<'a, Ctx: Copy, T: Codec<Ctx>>(w: CopyOnWrite<'a, T>, ctx: Ctx)
    requires
        w.enc_ok(ctx),
        w.enc(ctx).len() % 8 == 0,
    ensures
        <CopyOnWrite<'a, T> as BitRead<Ctx>>::dec_ok(
            bits_of_bytes(bytes_of_bits(w.enc(ctx))),
            ctx,
        ),
        <CopyOnWrite<'a, T> as BitRead<Ctx>>::dec_len(
            bits_of_bytes(bytes_of_bits(w.enc(ctx))),
            ctx,
        ) == bits_of_bytes(bytes_of_bits(w.enc(ctx))).len(),
        CopyOnWrite::Owned(w.payload()).is_dec_of(bits_of_bytes(bytes_of_bits(w.enc(ctx))), ctx),
{
    lemma_bits_of_bytes_of_bits(w.enc(ctx));
    T::lemma_enc_dec(w.payload(), Seq::empty(), ctx);
    assert(w.enc(ctx) + Seq::<bool>::empty() =~= w.enc(ctx));
}

} // verus!
