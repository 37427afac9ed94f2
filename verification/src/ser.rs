//! The capability to encode, and the entry points that use it.

use crate::attr::Attrs;
use crate::error::BinError;
use crate::stream_rw::BinWrite;
use crate::wire::Encoding;
use vstd::prelude::*;

verus! {

/// The capability to turn a value into its exact byte layout.
pub trait BinSerialize {
    /// The bytes that encoding this value under `attrs` emits, and the error
    /// that ends the encoding where the value cannot be represented.
    open spec fn encoding(&self, attrs: Attrs) -> Encoding {
        arbitrary()
    }

    /// Writes the value to `buf` under `attrs`.
    fn encode_to<W: BinWrite>(&self, buf: &mut W, attrs: Attrs) -> (r: Result<(), BinError>)
        ensures
            crate::stream_rw::encode_outcome(
                old(buf).state(),
                final(buf).state(),
                self.encoding(attrs),
                r,
            ),
    ;
}

/// Encodes `t` under the default policy into a fresh byte vector.
pub fn encode_to_bytes<T: BinSerialize>(t: T) -> (r: Result<Vec<u8>, BinError>)
    ensures
        match r {
            Ok(v) => t.encoding(Attrs::zero()) == Encoding::ok(v@),
            Err(e) => t.encoding(Attrs::zero()).err == Some(e),
        },
{
    let mut buf: Vec<u8> = Vec::new();
    match t.encode_to(&mut buf, Attrs::zero()) {
        Ok(()) => {
            proof {
                assert(buf@ =~= t.encoding(Attrs::zero()).bytes);
            }
            Ok(buf)
        },
        Err(e) => Err(e),
    }
}

/// Encodes `t` under the default policy onto the sink `s`.
pub fn encode_to_stream<T: BinSerialize>(t: T, s: &mut impl BinWrite) -> (r: Result<(), BinError>)
    ensures
        crate::stream_rw::encode_outcome(
            old(s).state(),
            final(s).state(),
            t.encoding(Attrs::zero()),
            r,
        ),
{
    t.encode_to(s, Attrs::zero())
}

} // verus!
