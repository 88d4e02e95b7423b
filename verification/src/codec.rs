//! The base decode/encode protocol: the trait pair any serializable type
//! implements, with the contract both sides are held to.

use vstd::prelude::*;
use crate::bits::{BitAcc, BitCursor};
use crate::error::CodecError;

verus! {

/// The empty context: for codecs that need no configuration at all.
#[derive(Clone, Copy, Debug, PartialEq, Eq, Structural)]
pub struct EmptyCtx;

/// A type decodable from a bit cursor under a context `Ctx`.
///
/// The context is an opaque, copyable configuration value (a size limit, a
/// format variant); what it means is the implementor's business alone.
/// The four spec functions pin the decoder down completely: on which
/// remaining bits it succeeds, how many bits it then consumes, which value
/// it produces, and which error it reports otherwise.
pub trait BitRead<Ctx: Copy>: Sized {
    /// Whether a decode of the remaining bits `bits` succeeds under `ctx`.
    spec fn dec_ok(bits: Seq<bool>, ctx: Ctx) -> bool;

    /// How many bits a successful decode consumes.
    spec fn dec_len(bits: Seq<bool>, ctx: Ctx) -> nat;

    /// The error a failing decode reports.
    spec fn dec_err(bits: Seq<bool>, ctx: Ctx) -> CodecError;

    /// Whether `self` is the value a successful decode of `bits` produces.
    spec fn is_dec_of(&self, bits: Seq<bool>, ctx: Ctx) -> bool;

    /// Decodes one value from the front of `cur`, consuming bits strictly
    /// left to right, and returns the cursor positioned exactly after the
    /// consumed bits together with the value. Either the whole decode
    /// succeeds or no value is produced; there is no partial result.
    fn read(cur: BitCursor, ctx: Ctx) -> (r: Result<(BitCursor, Self), CodecError>)
        ensures
            r is Ok <==> Self::dec_ok(cur@, ctx),
            r matches Ok(p) ==> {
                &&& Self::dec_len(cur@, ctx) <= cur@.len()
                &&& p.0@ == cur@.skip(Self::dec_len(cur@, ctx) as int)
                &&& p.1.is_dec_of(cur@, ctx)
            },
            r matches Err(e) ==> e == Self::dec_err(cur@, ctx),
    ;
}

/// A type encodable onto a bit accumulator under a context `Ctx`.
pub trait BitWrite<Ctx: Copy> {
    /// Whether encoding `self` under `ctx` succeeds.
    spec fn enc_ok(&self, ctx: Ctx) -> bool;

    /// The bits a successful encode appends.
    spec fn enc(&self, ctx: Ctx) -> Seq<bool>;

    /// The error a failing encode reports.
    spec fn enc_err(&self, ctx: Ctx) -> CodecError;

    /// Appends the encoding of `self` at the end of `out`. On success the
    /// accumulator grows by exactly the encoding; nothing previously
    /// appended is truncated or rewritten. On failure the accumulator may
    /// hold a partial prefix and the caller must not trust its content.
    fn write(&self, out: &mut BitAcc, ctx: Ctx) -> (r: Result<(), CodecError>)
        ensures
            r is Ok <==> self.enc_ok(ctx),
            r is Ok ==> final(out)@ == old(out)@ + self.enc(ctx),
            r matches Err(e) ==> e == self.enc_err(ctx),
    ;
}

/// Ties a type's decoder to its encoder: decoding what was encoded gives
/// the value back. Every implementor proves the law for its own pair.
pub trait Codec<Ctx: Copy>: BitRead<Ctx> + BitWrite<Ctx> {
    /// Round trip: after any successful encode, a decode of the appended
    /// bits (whatever follows them) succeeds, consumes exactly the
    /// encoding, and produces the encoded value again.
    proof fn lemma_enc_dec(v: Self, rest: Seq<bool>, ctx: Ctx)
        requires
            v.enc_ok(ctx),
        ensures
            Self::dec_ok(v.enc(ctx) + rest, ctx),
            Self::dec_len(v.enc(ctx) + rest, ctx) == v.enc(ctx).len(),
            v.is_dec_of(v.enc(ctx) + rest, ctx),
    ;
}

} // verus!
