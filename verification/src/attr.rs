//! The policy of an encode or decode call: byte orders and the length field.

use crate::bytes::{uint_from_bytes, uint_to_bytes};
use crate::error::BinError;
use crate::stream_rw::{BinRead, BinWrite};
use crate::wire::{Encoding, Parsed, Val};
use vstd::prelude::*;

verus! {

/// Byte order of a multi-byte integer on the wire.
#[derive(Debug, Copy, Clone, PartialEq, Eq, Structural)]
pub enum Endian {
    Little,
    Big,
}

/// The integer that carries a sequence's element count or a nested payload's
/// byte length. The same kinds give the width of a union's discriminant.
#[derive(Debug, Copy, Clone, PartialEq, Eq, Structural)]
pub enum Len {
    U8,
    U16,
    U32,
    U64,
    I8,
    I16,
    I32,
    I64,
}

/// The policy that travels with an encode or decode call. It is passed by
/// value, so an override made for one field never reaches its siblings.
#[derive(Debug, Copy, Clone, PartialEq, Eq, Structural)]
pub struct Attrs {
    /// The length prefix of sequences, or `None` for no prefix.
    pub len: Option<Len>,
    /// Byte order of the length prefix.
    pub len_endian: Endian,
    /// Byte order of multi-byte scalar values.
    pub endian: Endian,
}

impl Len {
    /// Number of bytes the length field occupies.
    pub open spec fn width(self) -> nat {
        match self {
            Len::U8 | Len::I8 => 1,
            Len::U16 | Len::I16 => 2,
            Len::U32 | Len::I32 => 4,
            Len::U64 | Len::I64 => 8,
        }
    }

    /// Largest length the field can carry.
    pub open spec fn max(self) -> nat {
        match self {
            Len::U8 => 0xff,
            Len::U16 => 0xffff,
            Len::U32 => 0xffff_ffff,
            Len::U64 => 0xffff_ffff_ffff_ffff,
            Len::I8 => 0x7f,
            Len::I16 => 0x7fff,
            Len::I32 => 0x7fff_ffff,
            Len::I64 => 0x7fff_ffff_ffff_ffff,
        }
    }

    /// Number of bytes the length field occupies.
    pub fn byte_width(&self) -> (w: usize)
        ensures
            w == self.width(),
    {
        match self {
            Len::U8 | Len::I8 => 1,
            Len::U16 | Len::I16 => 2,
            Len::U32 | Len::I32 => 4,
            Len::U64 | Len::I64 => 8,
        }
    }

    /// Largest length the field can carry.
    pub fn limit(&self) -> (m: u64)
        ensures
            m == self.max(),
    {
        match self {
            Len::U8 => 0xff,
            Len::U16 => 0xffff,
            Len::U32 => 0xffff_ffff,
            Len::U64 => 0xffff_ffff_ffff_ffff,
            Len::I8 => 0x7f,
            Len::I16 => 0x7fff,
            Len::I32 => 0x7fff_ffff,
            Len::I64 => 0x7fff_ffff_ffff_ffff,
        }
    }

    /// What writing the length `v` emits: its bytes in the field's width, or
    /// `IntegerOverflow` and no bytes when `v` does not fit.
    pub open spec fn encoding(self, v: u64, endian: Endian) -> Encoding {
        if v > self.max() {
            Encoding::fail(BinError::IntegerOverflow)
        } else {
            crate::stream_rw::uint_encoding(v as nat, self.width(), endian)
        }
    }

    /// What reading a length yields: the field is taken whole or not at all,
    /// and a negative value of a signed field is `IntegerOverflow`.
    pub open spec fn parse(self, input: Seq<u8>, endian: Endian) -> Parsed {
        if input.len() < self.width() {
            Parsed::fail(BinError::InsufficientData((self.width() - input.len()) as usize), 0)
        } else {
            let x = crate::bytes::int_value(input.take(self.width() as int), endian);
            if x > self.max() {
                Parsed::fail(BinError::IntegerOverflow, self.width())
            } else {
                Parsed::ok(Val::Int(x as int), self.width())
            }
        }
    }

    /// Writes `v` as a length field of this kind.
    pub fn encode<W: BinWrite>(&self, v: u64, buf: &mut W, endian: Endian) -> (r: Result<
        (),
        BinError,
    >)
        ensures
            crate::stream_rw::encode_outcome(
                old(buf).state(),
                final(buf).state(),
                self.encoding(v, endian),
                r,
            ),
    {
        if v > self.limit() {
            proof {
                crate::stream_rw::lemma_wrote_nothing(buf.state(), self.encoding(v, endian));
            }
            return Err(BinError::IntegerOverflow);
        }
        let data = uint_to_bytes(v, self.byte_width(), endian);
        buf.write_all(data.as_slice())
    }

    /// Reads a length field of this kind.
    pub fn decode<R: BinRead>(&self, buf: &mut R, endian: Endian) -> (r: Result<u64, BinError>)
        ensures
            crate::stream_rw::decode_outcome(
                old(buf).remaining(),
                final(buf).remaining(),
                self.parse(old(buf).remaining(), endian),
                crate::stream_rw::lift(r, |v: u64| Val::Int(v as int)),
            ),
    {
        match buf.read_exact(self.byte_width()) {
            Ok(data) => {
                let x = uint_from_bytes(data.as_slice(), endian);
                if x > self.limit() {
                    Err(BinError::IntegerOverflow)
                } else {
                    Ok(x)
                }
            },
            Err(e) => Err(e),
        }
    }
}

/// A length that fits its field is read back as written, whatever follows it.
pub proof fn lemma_len_roundtrip(kind: Len, v: u64, endian: Endian, rest: Seq<u8>)
    requires
        v <= kind.max(),
    ensures
        kind.encoding(v, endian).err is None,
        kind.encoding(v, endian).bytes.len() == kind.width(),
        kind.parse(kind.encoding(v, endian).bytes + rest, endian) == Parsed::ok(
            Val::Int(v as int),
            kind.width(),
        ),
{
    let bytes = crate::bytes::int_bytes(v as nat, kind.width(), endian);
    crate::bytes::lemma_int_value_of_bytes(v as nat, kind.width(), endian);
    assert((bytes + rest).take(kind.width() as int) =~= bytes);
}

impl Attrs {
    /// What writing the length prefix for `len` elements emits: nothing when
    /// no length field is configured.
    pub open spec fn length_encoding(self, len: u64) -> Encoding {
        match self.len {
            None => Encoding::ok(Seq::empty()),
            Some(kind) => kind.encoding(len, self.len_endian),
        }
    }

    /// What reading the length prefix yields, where one is configured.
    pub open spec fn length_parse(self, input: Seq<u8>) -> Parsed {
        match self.len {
            None => Parsed::ok(Val::Unit, 0),
            Some(kind) => kind.parse(input, self.len_endian),
        }
    }

    /// The content of a decoded length prefix: `Unit` stands for "no prefix".
    pub open spec fn length_val(r: Result<Option<u64>, BinError>) -> Result<Val, BinError> {
        match r {
            Ok(Some(v)) => Ok(Val::Int(v as int)),
            Ok(None) => Ok(Val::Unit),
            Err(e) => Err(e),
        }
    }

    /// Writes the length prefix for `len` elements, if one is configured.
    pub fn encode_length<W: BinWrite>(&self, buf: &mut W, len: u64) -> (r: Result<(), BinError>)
        ensures
            crate::stream_rw::encode_outcome(
                old(buf).state(),
                final(buf).state(),
                self.length_encoding(len),
                r,
            ),
    {
        match self.len {
            None => {
                proof {
                    crate::stream_rw::lemma_wrote_nothing(buf.state(), self.length_encoding(len));
                }
                Ok(())
            },
            Some(kind) => kind.encode(len, buf, self.len_endian),
        }
    }

    /// Reads the length prefix, if one is configured; `None` where none is.
    pub fn decode_length<R: BinRead>(&self, buf: &mut R) -> (r: Result<Option<u64>, BinError>)
        ensures
            crate::stream_rw::decode_outcome(
                old(buf).remaining(),
                final(buf).remaining(),
                self.length_parse(old(buf).remaining()),
                Self::length_val(r),
            ),
    {
        match self.len {
            None => {
                proof {
                    assert(buf.remaining().skip(0) =~= buf.remaining());
                }
                Ok(None)
            },
            Some(kind) => {
                match kind.decode(buf, self.len_endian) {
                    Ok(v) => Ok(Some(v)),
                    Err(e) => Err(e),
                }
            },
        }
    }

    /// The same policy with scalar values in the byte order `endian`.
    pub fn with_endian(self, endian: Endian) -> (a: Attrs)
        ensures
            a == (Attrs { endian, ..self }),
    {
        Attrs { len: self.len, len_endian: self.len_endian, endian }
    }

    /// The same policy with the length field `len`, or with none.
    pub fn with_len(self, len: Option<Len>) -> (a: Attrs)
        ensures
            a == (Attrs { len, ..self }),
    {
        Attrs { len, len_endian: self.len_endian, endian: self.endian }
    }

    /// The same policy with the length field in the byte order `endian`.
    pub fn with_len_endian(self, endian: Endian) -> (a: Attrs)
        ensures
            a == (Attrs { len_endian: endian, ..self }),
    {
        Attrs { len: self.len, len_endian: endian, endian: self.endian }
    }

    /// The default policy, in specifications.
    pub open spec fn spec_zero() -> Attrs {
        Attrs { len: None, len_endian: Endian::Little, endian: Endian::Little }
    }

    /// The default policy: no length prefix, little-endian throughout.
    #[verifier::when_used_as_spec(spec_zero)]
    pub fn zero() -> (a: Attrs)
        ensures
            a == Attrs::spec_zero(),
    {
        Attrs { len: None, len_endian: Endian::Little, endian: Endian::Little }
    }
}

} // verus!
