//! Codecs of scalars, booleans, the unit value and ownership wrappers.

use crate::attr::{Attrs, Endian};
use crate::de::BinDeserialize;
use crate::error::BinError;
use crate::ser::BinSerialize;
use crate::stream_rw::{BinRead, BinWrite};
use crate::wire::{Encoding, Parsed, Val};
use vstd::prelude::*;

verus! {

/// Reading a boolean: one byte, any non-zero value is `true`.
pub open spec fn parse_bool(input: Seq<u8>) -> Parsed {
    if input.len() < 1 {
        Parsed::fail(BinError::InsufficientData(1), 0)
    } else {
        Parsed::ok(Val::Bool(input[0] != 0), 1)
    }
}

impl BinSerialize for bool {
    open spec fn encoding(&self, attrs: Attrs) -> Encoding {
        Encoding::ok(seq![if *self { 1u8 } else { 0u8 }])
    }

    fn encode_to<W: BinWrite>(&self, buf: &mut W, attrs: Attrs) -> (r: Result<(), BinError>) {
        buf.put_u8(if *self { 1 } else { 0 })
    }
}

impl BinDeserialize for bool {
    open spec fn value(&self) -> Val {
        Val::Bool(*self)
    }

    open spec fn parse(input: Seq<u8>, attrs: Attrs, hinted: bool) -> Parsed {
        parse_bool(input)
    }

    open spec fn min_len(attrs: Attrs) -> nat {
        1
    }

    fn min_wire_len(attrs: Attrs) -> (n: usize) {
        1
    }

    fn decode_from<R: BinRead>(buf: &mut R, attrs: Attrs) -> (r: Result<Self, BinError>) {
        match buf.get_u8() {
            Ok(b) => Ok(b != 0),
            Err(e) => Err(e),
        }
    }
}

impl BinSerialize for u8 {
    open spec fn encoding(&self, attrs: Attrs) -> Encoding {
        Encoding::ok(seq![*self])
    }

    fn encode_to<W: BinWrite>(&self, buf: &mut W, attrs: Attrs) -> (r: Result<(), BinError>) {
        buf.put_u8(*self)
    }
}

impl BinDeserialize for u8 {
    open spec fn value(&self) -> Val {
        Val::Int(*self as int)
    }

    open spec fn parse(input: Seq<u8>, attrs: Attrs, hinted: bool) -> Parsed {
        crate::stream_rw::parse_byte(input)
    }

    open spec fn min_len(attrs: Attrs) -> nat {
        1
    }

    fn min_wire_len(attrs: Attrs) -> (n: usize) {
        1
    }

    fn decode_from<R: BinRead>(buf: &mut R, attrs: Attrs) -> (r: Result<Self, BinError>) {
        buf.get_u8()
    }
}

impl BinSerialize for i8 {
    open spec fn encoding(&self, attrs: Attrs) -> Encoding {
        Encoding::ok(seq![crate::bytes::to_unsigned(*self as int, 1) as u8])
    }

    fn encode_to<W: BinWrite>(&self, buf: &mut W, attrs: Attrs) -> (r: Result<(), BinError>) {
        buf.put_i8(*self)
    }
}

impl BinDeserialize for i8 {
    open spec fn value(&self) -> Val {
        Val::Int(*self as int)
    }

    open spec fn parse(input: Seq<u8>, attrs: Attrs, hinted: bool) -> Parsed {
        crate::stream_rw::parse_sbyte(input)
    }

    open spec fn min_len(attrs: Attrs) -> nat {
        1
    }

    fn min_wire_len(attrs: Attrs) -> (n: usize) {
        1
    }

    fn decode_from<R: BinRead>(buf: &mut R, attrs: Attrs) -> (r: Result<Self, BinError>) {
        buf.get_i8()
    }
}

impl BinSerialize for u16 {
    open spec fn encoding(&self, attrs: Attrs) -> Encoding {
        crate::stream_rw::uint_encoding(*self as nat, 2, attrs.endian)
    }

    fn encode_to<W: BinWrite>(&self, buf: &mut W, attrs: Attrs) -> (r: Result<(), BinError>) {
        match attrs.endian {
            Endian::Big => buf.put_u16_be(*self),
            Endian::Little => buf.put_u16_le(*self),
        }
    }
}

impl BinDeserialize for u16 {
    open spec fn value(&self) -> Val {
        Val::Int(*self as int)
    }

    open spec fn parse(input: Seq<u8>, attrs: Attrs, hinted: bool) -> Parsed {
        crate::stream_rw::parse_uint(input, 2, attrs.endian)
    }

    open spec fn min_len(attrs: Attrs) -> nat {
        2
    }

    fn min_wire_len(attrs: Attrs) -> (n: usize) {
        2
    }

    fn decode_from<R: BinRead>(buf: &mut R, attrs: Attrs) -> (r: Result<Self, BinError>) {
        match attrs.endian {
            Endian::Big => buf.get_u16_be(),
            Endian::Little => buf.get_u16_le(),
        }
    }
}

impl BinSerialize for i16 {
    open spec fn encoding(&self, attrs: Attrs) -> Encoding {
        crate::stream_rw::sint_encoding(*self as int, 2, attrs.endian)
    }

    fn encode_to<W: BinWrite>(&self, buf: &mut W, attrs: Attrs) -> (r: Result<(), BinError>) {
        match attrs.endian {
            Endian::Big => buf.put_i16_be(*self),
            Endian::Little => buf.put_i16_le(*self),
        }
    }
}

impl BinDeserialize for i16 {
    open spec fn value(&self) -> Val {
        Val::Int(*self as int)
    }

    open spec fn parse(input: Seq<u8>, attrs: Attrs, hinted: bool) -> Parsed {
        crate::stream_rw::parse_sint(input, 2, attrs.endian)
    }

    open spec fn min_len(attrs: Attrs) -> nat {
        2
    }

    fn min_wire_len(attrs: Attrs) -> (n: usize) {
        2
    }

    fn decode_from<R: BinRead>(buf: &mut R, attrs: Attrs) -> (r: Result<Self, BinError>) {
        match attrs.endian {
            Endian::Big => buf.get_i16_be(),
            Endian::Little => buf.get_i16_le(),
        }
    }
}

impl BinSerialize for u32 {
    open spec fn encoding(&self, attrs: Attrs) -> Encoding {
        crate::stream_rw::uint_encoding(*self as nat, 4, attrs.endian)
    }

    fn encode_to<W: BinWrite>(&self, buf: &mut W, attrs: Attrs) -> (r: Result<(), BinError>) {
        match attrs.endian {
            Endian::Big => buf.put_u32_be(*self),
            Endian::Little => buf.put_u32_le(*self),
        }
    }
}

impl BinDeserialize for u32 {
    open spec fn value(&self) -> Val {
        Val::Int(*self as int)
    }

    open spec fn parse(input: Seq<u8>, attrs: Attrs, hinted: bool) -> Parsed {
        crate::stream_rw::parse_uint(input, 4, attrs.endian)
    }

    open spec fn min_len(attrs: Attrs) -> nat {
        4
    }

    fn min_wire_len(attrs: Attrs) -> (n: usize) {
        4
    }

    fn decode_from<R: BinRead>(buf: &mut R, attrs: Attrs) -> (r: Result<Self, BinError>) {
        match attrs.endian {
            Endian::Big => buf.get_u32_be(),
            Endian::Little => buf.get_u32_le(),
        }
    }
}

impl BinSerialize for i32 {
    open spec fn encoding(&self, attrs: Attrs) -> Encoding {
        crate::stream_rw::sint_encoding(*self as int, 4, attrs.endian)
    }

    fn encode_to<W: BinWrite>(&self, buf: &mut W, attrs: Attrs) -> (r: Result<(), BinError>) {
        match attrs.endian {
            Endian::Big => buf.put_i32_be(*self),
            Endian::Little => buf.put_i32_le(*self),
        }
    }
}

impl BinDeserialize for i32 {
    open spec fn value(&self) -> Val {
        Val::Int(*self as int)
    }

    open spec fn parse(input: Seq<u8>, attrs: Attrs, hinted: bool) -> Parsed {
        crate::stream_rw::parse_sint(input, 4, attrs.endian)
    }

    open spec fn min_len(attrs: Attrs) -> nat {
        4
    }

    fn min_wire_len(attrs: Attrs) -> (n: usize) {
        4
    }

    fn decode_from<R: BinRead>(buf: &mut R, attrs: Attrs) -> (r: Result<Self, BinError>) {
        match attrs.endian {
            Endian::Big => buf.get_i32_be(),
            Endian::Little => buf.get_i32_le(),
        }
    }
}

impl BinSerialize for u64 {
    open spec fn encoding(&self, attrs: Attrs) -> Encoding {
        crate::stream_rw::uint_encoding(*self as nat, 8, attrs.endian)
    }

    fn encode_to<W: BinWrite>(&self, buf: &mut W, attrs: Attrs) -> (r: Result<(), BinError>) {
        match attrs.endian {
            Endian::Big => buf.put_u64_be(*self),
            Endian::Little => buf.put_u64_le(*self),
        }
    }
}

impl BinDeserialize for u64 {
    open spec fn value(&self) -> Val {
        Val::Int(*self as int)
    }

    open spec fn parse(input: Seq<u8>, attrs: Attrs, hinted: bool) -> Parsed {
        crate::stream_rw::parse_uint(input, 8, attrs.endian)
    }

    open spec fn min_len(attrs: Attrs) -> nat {
        8
    }

    fn min_wire_len(attrs: Attrs) -> (n: usize) {
        8
    }

    fn decode_from<R: BinRead>(buf: &mut R, attrs: Attrs) -> (r: Result<Self, BinError>) {
        match attrs.endian {
            Endian::Big => buf.get_u64_be(),
            Endian::Little => buf.get_u64_le(),
        }
    }
}

impl BinSerialize for i64 {
    open spec fn encoding(&self, attrs: Attrs) -> Encoding {
        crate::stream_rw::sint_encoding(*self as int, 8, attrs.endian)
    }

    fn encode_to<W: BinWrite>(&self, buf: &mut W, attrs: Attrs) -> (r: Result<(), BinError>) {
        match attrs.endian {
            Endian::Big => buf.put_i64_be(*self),
            Endian::Little => buf.put_i64_le(*self),
        }
    }
}

impl BinDeserialize for i64 {
    open spec fn value(&self) -> Val {
        Val::Int(*self as int)
    }

    open spec fn parse(input: Seq<u8>, attrs: Attrs, hinted: bool) -> Parsed {
        crate::stream_rw::parse_sint(input, 8, attrs.endian)
    }

    open spec fn min_len(attrs: Attrs) -> nat {
        8
    }

    fn min_wire_len(attrs: Attrs) -> (n: usize) {
        8
    }

    fn decode_from<R: BinRead>(buf: &mut R, attrs: Attrs) -> (r: Result<Self, BinError>) {
        match attrs.endian {
            Endian::Big => buf.get_i64_be(),
            Endian::Little => buf.get_i64_le(),
        }
    }
}

impl BinSerialize for () {
    open spec fn encoding(&self, attrs: Attrs) -> Encoding {
        Encoding::ok(Seq::empty())
    }

    fn encode_to<W: BinWrite>(&self, buf: &mut W, attrs: Attrs) -> (r: Result<(), BinError>) {
        proof {
            crate::stream_rw::lemma_wrote_nothing(buf.state(), self.encoding(attrs));
        }
        Ok(())
    }
}

impl BinDeserialize for () {
    open spec fn value(&self) -> Val {
        Val::Unit
    }

    open spec fn parse(input: Seq<u8>, attrs: Attrs, hinted: bool) -> Parsed {
        Parsed::ok(Val::Unit, 0)
    }

    open spec fn min_len(attrs: Attrs) -> nat {
        0
    }

    fn min_wire_len(attrs: Attrs) -> (n: usize) {
        0
    }

    fn decode_from<R: BinRead>(buf: &mut R, attrs: Attrs) -> (r: Result<Self, BinError>) {
        proof {
            assert(buf.remaining().skip(0) =~= buf.remaining());
        }
        Ok(())
    }
}

impl<T: BinSerialize> BinSerialize for &T {
    open spec fn encoding(&self, attrs: Attrs) -> Encoding {
        (**self).encoding(attrs)
    }

    fn encode_to<W: BinWrite>(&self, buf: &mut W, attrs: Attrs) -> (r: Result<(), BinError>) {
        (**self).encode_to(buf, attrs)
    }
}

impl<T: BinSerialize> BinSerialize for Box<T> {
    open spec fn encoding(&self, attrs: Attrs) -> Encoding {
        (**self).encoding(attrs)
    }

    fn encode_to<W: BinWrite>(&self, buf: &mut W, attrs: Attrs) -> (r: Result<(), BinError>) {
        (**self).encode_to(buf, attrs)
    }
}

impl<T: BinDeserialize> BinDeserialize for Box<T> {
    open spec fn value(&self) -> Val {
        (**self).value()
    }

    open spec fn parse(input: Seq<u8>, attrs: Attrs, hinted: bool) -> Parsed {
        T::parse(input, attrs, hinted)
    }

    open spec fn min_len(attrs: Attrs) -> nat {
        T::min_len(attrs)
    }

    fn min_wire_len(attrs: Attrs) -> (n: usize) {
        T::min_wire_len(attrs)
    }

    fn decode_from<R: BinRead>(buf: &mut R, attrs: Attrs) -> (r: Result<Self, BinError>) {
        match T::decode_from(buf, attrs) {
            Ok(v) => Ok(Box::new(v)),
            Err(e) => Err(e),
        }
    }
}

} // verus!
