//! The capability to decode, and the entry points that use it.

use crate::attr::Attrs;
use crate::error::BinError;
use crate::stream_rw::{BinRead, ByteSource};
use crate::wire::{Parsed, Val};
use vstd::prelude::*;

verus! {

/// The capability to rebuild a value from its byte layout.
pub trait BinDeserialize: Sized {
    /// The mathematical content of this value.
    open spec fn value(&self) -> Val {
        arbitrary()
    }

    /// What decoding yields on `input` under `attrs`: the content of the
    /// value or the error, and the number of bytes taken. `hinted` says
    /// whether the source knows how many bytes it has left: a sequence
    /// decoder checks a declared length up front only where it does.
    open spec fn parse(input: Seq<u8>, attrs: Attrs, hinted: bool) -> Parsed {
        arbitrary()
    }

    /// A number of bytes that every successful decode under `attrs` takes at
    /// least.
    open spec fn min_len(attrs: Attrs) -> nat {
        arbitrary()
    }

    /// The least number of bytes one value occupies under `attrs`. A
    /// sequence decoder uses it to reject a declared length that the source
    /// is known not to hold, before it reads any element, and to tell that
    /// an element took input where the source cannot say.
    fn min_wire_len(attrs: Attrs) -> (n: usize)
        ensures
            n == Self::min_len(attrs),
    ;

    /// Reads one value from `buf` under `attrs`.
    fn decode_from<R: BinRead>(buf: &mut R, attrs: Attrs) -> (r: Result<Self, BinError>)
        ensures
            crate::stream_rw::decode_outcome(
                old(buf).remaining(),
                final(buf).remaining(),
                Self::parse(old(buf).remaining(), attrs, R::knows_length()),
                crate::stream_rw::lift(r, |v: Self| v.value()),
            ),
            r is Ok ==> Self::parse(old(buf).remaining(), attrs, R::knows_length()).consumed
                >= Self::min_len(attrs),
    ;
}

/// Decodes one value from the front of `buf` under the default policy.
pub fn decode_from_bytes<T: BinDeserialize>(buf: &[u8]) -> (r: Result<T, BinError>)
    ensures
        crate::stream_rw::lift(r, |v: T| v.value()) == T::parse(buf@, Attrs::zero(), true).value,
{
    let mut src = ByteSource::new(buf);
    T::decode_from(&mut src, Attrs::zero())
}

/// Decodes one value from the source `s` under the default policy.
pub fn decode_from_stream<T: BinDeserialize, R: BinRead>(s: &mut R) -> (r: Result<T, BinError>)
    ensures
        crate::stream_rw::decode_outcome(
            old(s).remaining(),
            final(s).remaining(),
            T::parse(old(s).remaining(), Attrs::zero(), R::knows_length()),
            crate::stream_rw::lift(r, |v: T| v.value()),
        ),
{
    T::decode_from(s, Attrs::zero())
}

} // verus!
