//! Byte sinks and sources with endian-aware integer access.

use crate::attr::Endian;
use crate::bytes::{signed_of, uint_from_bytes, uint_to_bytes, unsigned_of};
use crate::error::BinError;
use crate::wire::{Encoding, Parsed, Val};
use vstd::prelude::*;

verus! {

/// What is known of a byte sink at one moment.
pub struct SinkState {
    /// Every byte the sink has accepted so far, in order.
    pub written: Seq<u8>,
    /// Whether writes to the sink always succeed.
    pub infallible: bool,
}

/// What an encode call leaves behind: how the sink `post` and the result `r`
/// relate to the sink `pre` and to the encoding `enc` that was asked for.
///
/// Whatever happens, the sink has gained a leading part of the bytes of `enc`
/// and nothing else. A reported success means that all of `enc` was written;
/// a reported failure is the error of `enc` or a failure of the transport.
/// Where all of the bytes of `enc` were written, which is always so where it
/// has none, the result is that of `enc`: the transport fails only by
/// leaving bytes unwritten. A sink that cannot fail takes all of the bytes.
pub open spec fn encode_outcome(
    pre: SinkState,
    post: SinkState,
    enc: Encoding,
    r: Result<(), BinError>,
) -> bool {
    &&& post.infallible == pre.infallible
    &&& wrote_prefix(pre.written, post.written, enc.bytes)
    &&& r is Ok ==> enc.err is None && post.written == pre.written + enc.bytes
    &&& r matches Err(e) ==> enc.err == Some(e) || e is IOError
    &&& post.written.len() == pre.written.len() + enc.bytes.len() ==> r == enc.result()
    &&& pre.infallible ==> post.written == pre.written + enc.bytes
}

/// Whether `post` is `pre` followed by some leading part of `bytes`: nothing
/// was taken back, and nothing but those bytes was added, in their order.
pub open spec fn wrote_prefix(pre: Seq<u8>, post: Seq<u8>, bytes: Seq<u8>) -> bool {
    &&& pre.len() <= post.len() <= pre.len() + bytes.len()
    &&& post == (pre + bytes).take(post.len() as int)
}

/// What a decode call leaves behind: the source advanced by exactly the bytes
/// that `p` consumed, and the result `r` is the one that `p` holds.
pub open spec fn decode_outcome(
    pre: Seq<u8>,
    post: Seq<u8>,
    p: Parsed,
    r: Result<Val, BinError>,
) -> bool {
    &&& p.consumed <= pre.len()
    &&& post == pre.skip(p.consumed as int)
    &&& r == p.value
}

/// A sink that was left alone holds a leading part, the empty one, of any bytes.
pub proof fn lemma_wrote_nothing(state: SinkState, enc: Encoding)
    requires
        enc.bytes.len() == 0 || enc.err is Some,
    ensures
        wrote_prefix(state.written, state.written, enc.bytes),
        enc.bytes.len() == 0 ==> encode_outcome(state, state, enc, enc.result()),
{
    assert((state.written + enc.bytes).take(state.written.len() as int) =~= state.written);
    if enc.bytes.len() == 0 {
        assert(state.written + enc.bytes =~= state.written);
    }
}

/// A sink that gained all of some bytes has gained a leading part of them.
pub proof fn lemma_wrote_all(pre: Seq<u8>, bytes: Seq<u8>)
    ensures
        wrote_prefix(pre, pre + bytes, bytes),
{
    assert((pre + bytes).take((pre + bytes).len() as int) =~= pre + bytes);
}

/// An encode call that reports a failure has met its contract for any
/// continuation of what it was asked to write.
pub proof fn lemma_encode_stop(
    pre: SinkState,
    post: SinkState,
    head: Encoding,
    tail: Encoding,
    r: Result<(), BinError>,
)
    requires
        encode_outcome(pre, post, head, r),
        r is Err,
    ensures
        encode_outcome(pre, post, head.followed_by(tail), r),
{
    if head.err is None {
        assert((pre.written + (head.bytes + tail.bytes)).take(post.written.len() as int) =~= (
        pre.written + head.bytes).take(post.written.len() as int));
    }
}

/// Two encode calls in a row write the first encoding followed by the second.
pub proof fn lemma_encode_compose(
    s0: SinkState,
    s1: SinkState,
    s2: SinkState,
    e1: Encoding,
    e2: Encoding,
    r: Result<(), BinError>,
)
    requires
        encode_outcome(s0, s1, e1, Ok(())),
        encode_outcome(s1, s2, e2, r),
    ensures
        encode_outcome(s0, s2, e1.followed_by(e2), r),
{
    assert((s0.written + e1.bytes) + e2.bytes =~= s0.written + (e1.bytes + e2.bytes));
}

/// The content of a result whose value is described by `f`.
pub open spec fn lift<T>(r: Result<T, BinError>, f: spec_fn(T) -> Val) -> Result<Val, BinError> {
    match r {
        Ok(v) => Ok(f(v)),
        Err(e) => Err(e),
    }
}

/// Reading `n` raw bytes: all or nothing.
pub open spec fn parse_raw(input: Seq<u8>, n: nat) -> Parsed {
    if input.len() < n {
        Parsed::fail(BinError::InsufficientData((n - input.len()) as usize), 0)
    } else {
        Parsed::ok(Val::List(input.take(n as int).map_values(|b: u8| Val::Int(b as int))), n)
    }
}

/// Reading one byte as an unsigned integer.
pub open spec fn parse_byte(input: Seq<u8>) -> Parsed {
    if input.len() < 1 {
        Parsed::fail(BinError::InsufficientData(1), 0)
    } else {
        Parsed::ok(Val::Int(input[0] as int), 1)
    }
}

/// Reading one byte as a two's-complement integer.
pub open spec fn parse_sbyte(input: Seq<u8>) -> Parsed {
    if input.len() < 1 {
        Parsed::fail(BinError::InsufficientData(1), 0)
    } else {
        Parsed::ok(Val::Int(crate::bytes::to_signed(input[0] as nat, 1)), 1)
    }
}

/// Reading an unsigned integer of `width` bytes.
pub open spec fn parse_uint(input: Seq<u8>, width: nat, endian: Endian) -> Parsed {
    if input.len() < width {
        Parsed::fail(BinError::InsufficientData((width - input.len()) as usize), 0)
    } else {
        Parsed::ok(
            Val::Int(crate::bytes::int_value(input.take(width as int), endian) as int),
            width,
        )
    }
}

/// Reading a two's-complement integer of `width` bytes.
pub open spec fn parse_sint(input: Seq<u8>, width: nat, endian: Endian) -> Parsed {
    if input.len() < width {
        Parsed::fail(BinError::InsufficientData((width - input.len()) as usize), 0)
    } else {
        Parsed::ok(
            Val::Int(
                crate::bytes::to_signed(
                    crate::bytes::int_value(input.take(width as int), endian),
                    width,
                ),
            ),
            width,
        )
    }
}

/// The bytes of an unsigned integer of `width` bytes.
pub open spec fn uint_encoding(v: nat, width: nat, endian: Endian) -> Encoding {
    Encoding::ok(crate::bytes::int_bytes(v, width, endian))
}

/// The bytes of a two's-complement integer of `width` bytes.
pub open spec fn sint_encoding(v: int, width: nat, endian: Endian) -> Encoding {
    Encoding::ok(crate::bytes::int_bytes(crate::bytes::to_unsigned(v, width), width, endian))
}

/// A byte sink with endian-aware writers for fixed-width integers.
///
/// An implementation supplies `write_all`; the typed writers are built on it.
pub trait BinWrite: Sized {
    /// The bytes accepted so far, and whether a write can fail.
    open spec fn state(&self) -> SinkState {
        arbitrary()
    }

    /// Appends all of `data`, or reports why it could not.
    fn write_all(&mut self, data: &[u8]) -> (r: Result<(), BinError>)
        ensures
            encode_outcome(old(self).state(), final(self).state(), Encoding::ok(data@), r),
    ;

    /// Writes `v` as a two's-complement 8-bit integer.
    fn put_i8(&mut self, v: i8) -> (r: Result<(), BinError>)
        ensures
            encode_outcome(
                old(self).state(),
                final(self).state(),
                Encoding::ok(seq![crate::bytes::to_unsigned(v as int, 1) as u8]),
                r,
            ),
    {
        let data = uint_to_bytes(unsigned_of(v as i64, 1), 1, Endian::Big);
        proof {
            assert(data@ =~= seq![crate::bytes::to_unsigned(v as int, 1) as u8]);
        }
        self.write_all(data.as_slice())
    }

    /// Writes `v` as a two's-complement 16-bit integer, most significant byte first.
    fn put_i16_be(&mut self, v: i16) -> (r: Result<(), BinError>)
        ensures
            encode_outcome(
                old(self).state(),
                final(self).state(),
                sint_encoding(v as int, 2, Endian::Big),
                r,
            ),
    {
        let data = uint_to_bytes(unsigned_of(v as i64, 2), 2, Endian::Big);
        self.write_all(data.as_slice())
    }

    /// Writes `v` as a two's-complement 16-bit integer, least significant byte first.
    fn put_i16_le(&mut self, v: i16) -> (r: Result<(), BinError>)
        ensures
            encode_outcome(
                old(self).state(),
                final(self).state(),
                sint_encoding(v as int, 2, Endian::Little),
                r,
            ),
    {
        let data = uint_to_bytes(unsigned_of(v as i64, 2), 2, Endian::Little);
        self.write_all(data.as_slice())
    }

    /// Writes `v` as a two's-complement 32-bit integer, most significant byte first.
    fn put_i32_be(&mut self, v: i32) -> (r: Result<(), BinError>)
        ensures
            encode_outcome(
                old(self).state(),
                final(self).state(),
                sint_encoding(v as int, 4, Endian::Big),
                r,
            ),
    {
        let data = uint_to_bytes(unsigned_of(v as i64, 4), 4, Endian::Big);
        self.write_all(data.as_slice())
    }

    /// Writes `v` as a two's-complement 32-bit integer, least significant byte first.
    fn put_i32_le(&mut self, v: i32) -> (r: Result<(), BinError>)
        ensures
            encode_outcome(
                old(self).state(),
                final(self).state(),
                sint_encoding(v as int, 4, Endian::Little),
                r,
            ),
    {
        let data = uint_to_bytes(unsigned_of(v as i64, 4), 4, Endian::Little);
        self.write_all(data.as_slice())
    }

    /// Writes `v` as a two's-complement 64-bit integer, most significant byte first.
    fn put_i64_be(&mut self, v: i64) -> (r: Result<(), BinError>)
        ensures
            encode_outcome(
                old(self).state(),
                final(self).state(),
                sint_encoding(v as int, 8, Endian::Big),
                r,
            ),
    {
        let data = uint_to_bytes(unsigned_of(v as i64, 8), 8, Endian::Big);
        self.write_all(data.as_slice())
    }

    /// Writes `v` as a two's-complement 64-bit integer, least significant byte first.
    fn put_i64_le(&mut self, v: i64) -> (r: Result<(), BinError>)
        ensures
            encode_outcome(
                old(self).state(),
                final(self).state(),
                sint_encoding(v as int, 8, Endian::Little),
                r,
            ),
    {
        let data = uint_to_bytes(unsigned_of(v as i64, 8), 8, Endian::Little);
        self.write_all(data.as_slice())
    }

    /// Writes `v` as an unsigned 8-bit integer.
    fn put_u8(&mut self, v: u8) -> (r: Result<(), BinError>)
        ensures
            encode_outcome(old(self).state(), final(self).state(), Encoding::ok(seq![v]), r),
    {
        let data = uint_to_bytes(v as u64, 1, Endian::Big);
        proof {
            assert(data@ =~= seq![v]);
        }
        self.write_all(data.as_slice())
    }

    /// Writes `v` as an unsigned 16-bit integer, most significant byte first.
    fn put_u16_be(&mut self, v: u16) -> (r: Result<(), BinError>)
        ensures
            encode_outcome(
                old(self).state(),
                final(self).state(),
                uint_encoding(v as nat, 2, Endian::Big),
                r,
            ),
    {
        let data = uint_to_bytes(v as u64, 2, Endian::Big);
        self.write_all(data.as_slice())
    }

    /// Writes `v` as an unsigned 16-bit integer, least significant byte first.
    fn put_u16_le(&mut self, v: u16) -> (r: Result<(), BinError>)
        ensures
            encode_outcome(
                old(self).state(),
                final(self).state(),
                uint_encoding(v as nat, 2, Endian::Little),
                r,
            ),
    {
        let data = uint_to_bytes(v as u64, 2, Endian::Little);
        self.write_all(data.as_slice())
    }

    /// Writes `v` as an unsigned 32-bit integer, most significant byte first.
    fn put_u32_be(&mut self, v: u32) -> (r: Result<(), BinError>)
        ensures
            encode_outcome(
                old(self).state(),
                final(self).state(),
                uint_encoding(v as nat, 4, Endian::Big),
                r,
            ),
    {
        let data = uint_to_bytes(v as u64, 4, Endian::Big);
        self.write_all(data.as_slice())
    }

    /// Writes `v` as an unsigned 32-bit integer, least significant byte first.
    fn put_u32_le(&mut self, v: u32) -> (r: Result<(), BinError>)
        ensures
            encode_outcome(
                old(self).state(),
                final(self).state(),
                uint_encoding(v as nat, 4, Endian::Little),
                r,
            ),
    {
        let data = uint_to_bytes(v as u64, 4, Endian::Little);
        self.write_all(data.as_slice())
    }

    /// Writes `v` as an unsigned 64-bit integer, most significant byte first.
    fn put_u64_be(&mut self, v: u64) -> (r: Result<(), BinError>)
        ensures
            encode_outcome(
                old(self).state(),
                final(self).state(),
                uint_encoding(v as nat, 8, Endian::Big),
                r,
            ),
    {
        let data = uint_to_bytes(v as u64, 8, Endian::Big);
        self.write_all(data.as_slice())
    }

    /// Writes `v` as an unsigned 64-bit integer, least significant byte first.
    fn put_u64_le(&mut self, v: u64) -> (r: Result<(), BinError>)
        ensures
            encode_outcome(
                old(self).state(),
                final(self).state(),
                uint_encoding(v as nat, 8, Endian::Little),
                r,
            ),
    {
        let data = uint_to_bytes(v as u64, 8, Endian::Little);
        self.write_all(data.as_slice())
    }
}

/// A byte source with endian-aware readers for fixed-width integers.
///
/// An implementation supplies `remaining_hint` and `read_exact`; the typed
/// readers are built on them. A read either takes all the bytes it asks for
/// or none.
pub trait BinRead: Sized {
    /// The bytes that have not been read yet.
    open spec fn remaining(&self) -> Seq<u8> {
        arbitrary()
    }

    /// Whether sources of this kind know how many bytes they have left. A
    /// source over bytes in memory does; a source over a stream may not.
    open spec fn knows_length() -> bool {
        arbitrary()
    }

    /// How many bytes are left, where the source knows; zero where it does
    /// not. A hint of zero therefore says nothing.
    fn remaining_hint(&self) -> (n: usize)
        ensures
            n == (if Self::knows_length() {
                self.remaining().len()
            } else {
                0
            }),
    ;

    /// Takes the next `n` bytes, or none of them if fewer are left.
    fn read_exact(&mut self, n: usize) -> (r: Result<Vec<u8>, BinError>)
        ensures
            decode_outcome(
                old(self).remaining(),
                final(self).remaining(),
                parse_raw(old(self).remaining(), n as nat),
                lift(r, |v: Vec<u8>| Val::List(v@.map_values(|b: u8| Val::Int(b as int)))),
            ),
            r matches Ok(v) ==> v@ == old(self).remaining().take(n as int),
    ;

    /// Checks up front that `n` bytes are available, without taking any.
    /// Where the source is known to hold fewer, the shortfall is reported;
    /// where the hint says nothing, the check passes and the read that
    /// follows is the judge.
    fn require(&self, n: usize) -> (r: Result<(), BinError>)
        ensures
            r == (if Self::knows_length() && 0 < self.remaining().len() < n {
                Err::<(), BinError>(
                    BinError::InsufficientData((n - self.remaining().len()) as usize),
                )
            } else {
                Ok::<(), BinError>(())
            }),
    {
        let left = self.remaining_hint();
        if left != 0 && left < n {
            Err(BinError::InsufficientData(n - left))
        } else {
            Ok(())
        }
    }

    /// Reads a two's-complement 8-bit integer.
    fn get_i8(&mut self) -> (r: Result<i8, BinError>)
        ensures
            decode_outcome(
                old(self).remaining(),
                final(self).remaining(),
                parse_sbyte(old(self).remaining()),
                lift(r, |v: i8| Val::Int(v as int)),
            ),
    {
        match self.read_exact(1) {
            Ok(data) => {
                let raw = uint_from_bytes(data.as_slice(), Endian::Big);
                proof {
                    crate::bytes::lemma_single_byte(data@);
                }
                Ok(signed_of(raw, 1) as i8)
            },
            Err(e) => Err(e),
        }
    }

    /// Reads a two's-complement 16-bit integer, most significant byte first.
    fn get_i16_be(&mut self) -> (r: Result<i16, BinError>)
        ensures
            decode_outcome(
                old(self).remaining(),
                final(self).remaining(),
                parse_sint(old(self).remaining(), 2, Endian::Big),
                lift(r, |v: i16| Val::Int(v as int)),
            ),
    {
        match self.read_exact(2) {
            Ok(data) => {
                let raw = uint_from_bytes(data.as_slice(), Endian::Big);
                Ok(signed_of(raw, 2) as i16)
            },
            Err(e) => Err(e),
        }
    }

    /// Reads a two's-complement 16-bit integer, least significant byte first.
    fn get_i16_le(&mut self) -> (r: Result<i16, BinError>)
        ensures
            decode_outcome(
                old(self).remaining(),
                final(self).remaining(),
                parse_sint(old(self).remaining(), 2, Endian::Little),
                lift(r, |v: i16| Val::Int(v as int)),
            ),
    {
        match self.read_exact(2) {
            Ok(data) => {
                let raw = uint_from_bytes(data.as_slice(), Endian::Little);
                Ok(signed_of(raw, 2) as i16)
            },
            Err(e) => Err(e),
        }
    }

    /// Reads a two's-complement 32-bit integer, most significant byte first.
    fn get_i32_be(&mut self) -> (r: Result<i32, BinError>)
        ensures
            decode_outcome(
                old(self).remaining(),
                final(self).remaining(),
                parse_sint(old(self).remaining(), 4, Endian::Big),
                lift(r, |v: i32| Val::Int(v as int)),
            ),
    {
        match self.read_exact(4) {
            Ok(data) => {
                let raw = uint_from_bytes(data.as_slice(), Endian::Big);
                Ok(signed_of(raw, 4) as i32)
            },
            Err(e) => Err(e),
        }
    }

    /// Reads a two's-complement 32-bit integer, least significant byte first.
    fn get_i32_le(&mut self) -> (r: Result<i32, BinError>)
        ensures
            decode_outcome(
                old(self).remaining(),
                final(self).remaining(),
                parse_sint(old(self).remaining(), 4, Endian::Little),
                lift(r, |v: i32| Val::Int(v as int)),
            ),
    {
        match self.read_exact(4) {
            Ok(data) => {
                let raw = uint_from_bytes(data.as_slice(), Endian::Little);
                Ok(signed_of(raw, 4) as i32)
            },
            Err(e) => Err(e),
        }
    }

    /// Reads a two's-complement 64-bit integer, most significant byte first.
    fn get_i64_be(&mut self) -> (r: Result<i64, BinError>)
        ensures
            decode_outcome(
                old(self).remaining(),
                final(self).remaining(),
                parse_sint(old(self).remaining(), 8, Endian::Big),
                lift(r, |v: i64| Val::Int(v as int)),
            ),
    {
        match self.read_exact(8) {
            Ok(data) => {
                let raw = uint_from_bytes(data.as_slice(), Endian::Big);
                Ok(signed_of(raw, 8) as i64)
            },
            Err(e) => Err(e),
        }
    }

    /// Reads a two's-complement 64-bit integer, least significant byte first.
    fn get_i64_le(&mut self) -> (r: Result<i64, BinError>)
        ensures
            decode_outcome(
                old(self).remaining(),
                final(self).remaining(),
                parse_sint(old(self).remaining(), 8, Endian::Little),
                lift(r, |v: i64| Val::Int(v as int)),
            ),
    {
        match self.read_exact(8) {
            Ok(data) => {
                let raw = uint_from_bytes(data.as_slice(), Endian::Little);
                Ok(signed_of(raw, 8) as i64)
            },
            Err(e) => Err(e),
        }
    }

    /// Reads an unsigned 8-bit integer.
    fn get_u8(&mut self) -> (r: Result<u8, BinError>)
        ensures
            decode_outcome(
                old(self).remaining(),
                final(self).remaining(),
                parse_byte(old(self).remaining()),
                lift(r, |v: u8| Val::Int(v as int)),
            ),
    {
        match self.read_exact(1) {
            Ok(data) => {
                let raw = uint_from_bytes(data.as_slice(), Endian::Big);
                proof {
                    crate::bytes::lemma_single_byte(data@);
                }
                Ok(raw as u8)
            },
            Err(e) => Err(e),
        }
    }

    /// Reads an unsigned 16-bit integer, most significant byte first.
    fn get_u16_be(&mut self) -> (r: Result<u16, BinError>)
        ensures
            decode_outcome(
                old(self).remaining(),
                final(self).remaining(),
                parse_uint(old(self).remaining(), 2, Endian::Big),
                lift(r, |v: u16| Val::Int(v as int)),
            ),
    {
        match self.read_exact(2) {
            Ok(data) => {
                let raw = uint_from_bytes(data.as_slice(), Endian::Big);
                Ok(raw as u16)
            },
            Err(e) => Err(e),
        }
    }

    /// Reads an unsigned 16-bit integer, least significant byte first.
    fn get_u16_le(&mut self) -> (r: Result<u16, BinError>)
        ensures
            decode_outcome(
                old(self).remaining(),
                final(self).remaining(),
                parse_uint(old(self).remaining(), 2, Endian::Little),
                lift(r, |v: u16| Val::Int(v as int)),
            ),
    {
        match self.read_exact(2) {
            Ok(data) => {
                let raw = uint_from_bytes(data.as_slice(), Endian::Little);
                Ok(raw as u16)
            },
            Err(e) => Err(e),
        }
    }

    /// Reads an unsigned 32-bit integer, most significant byte first.
    fn get_u32_be(&mut self) -> (r: Result<u32, BinError>)
        ensures
            decode_outcome(
                old(self).remaining(),
                final(self).remaining(),
                parse_uint(old(self).remaining(), 4, Endian::Big),
                lift(r, |v: u32| Val::Int(v as int)),
            ),
    {
        match self.read_exact(4) {
            Ok(data) => {
                let raw = uint_from_bytes(data.as_slice(), Endian::Big);
                Ok(raw as u32)
            },
            Err(e) => Err(e),
        }
    }

    /// Reads an unsigned 32-bit integer, least significant byte first.
    fn get_u32_le(&mut self) -> (r: Result<u32, BinError>)
        ensures
            decode_outcome(
                old(self).remaining(),
                final(self).remaining(),
                parse_uint(old(self).remaining(), 4, Endian::Little),
                lift(r, |v: u32| Val::Int(v as int)),
            ),
    {
        match self.read_exact(4) {
            Ok(data) => {
                let raw = uint_from_bytes(data.as_slice(), Endian::Little);
                Ok(raw as u32)
            },
            Err(e) => Err(e),
        }
    }

    /// Reads an unsigned 64-bit integer, most significant byte first.
    fn get_u64_be(&mut self) -> (r: Result<u64, BinError>)
        ensures
            decode_outcome(
                old(self).remaining(),
                final(self).remaining(),
                parse_uint(old(self).remaining(), 8, Endian::Big),
                lift(r, |v: u64| Val::Int(v as int)),
            ),
    {
        match self.read_exact(8) {
            Ok(data) => {
                let raw = uint_from_bytes(data.as_slice(), Endian::Big);
                Ok(raw as u64)
            },
            Err(e) => Err(e),
        }
    }

    /// Reads an unsigned 64-bit integer, least significant byte first.
    fn get_u64_le(&mut self) -> (r: Result<u64, BinError>)
        ensures
            decode_outcome(
                old(self).remaining(),
                final(self).remaining(),
                parse_uint(old(self).remaining(), 8, Endian::Little),
                lift(r, |v: u64| Val::Int(v as int)),
            ),
    {
        match self.read_exact(8) {
            Ok(data) => {
                let raw = uint_from_bytes(data.as_slice(), Endian::Little);
                Ok(raw as u64)
            },
            Err(e) => Err(e),
        }
    }
}

impl BinWrite for Vec<u8> {
    open spec fn state(&self) -> SinkState {
        SinkState { written: self@, infallible: true }
    }

    fn write_all(&mut self, data: &[u8]) -> (r: Result<(), BinError>) {
        let mut i: usize = 0;
        while i < data.len()
            invariant
                i <= data.len(),
                self@ == old(self)@ + data@.take(i as int),
            decreases data.len() - i,
        {
            self.push(data[i]);
            proof {
                assert(data@.take(i + 1) =~= data@.take(i as int).push(data@[i as int]));
            }
            i = i + 1;
        }
        proof {
            assert(data@.take(i as int) =~= data@);
            assert(self.state().written == old(self).state().written + Encoding::ok(data@).bytes);
            lemma_wrote_all(old(self)@, data@);
        }
        Ok(())
    }
}

/// A sink with room for a fixed number of bytes. A write that does not fit
/// fills the room that is left and fails with `IOError`.
pub struct BoundedSink {
    buf: Vec<u8>,
    limit: usize,
}

impl BoundedSink {
    /// The number of bytes that can still be written.
    pub closed spec fn room(self) -> nat {
        if self.buf@.len() <= self.limit {
            (self.limit - self.buf@.len()) as nat
        } else {
            0
        }
    }

    /// An empty sink with room for `limit` bytes.
    pub fn new(limit: usize) -> (s: Self)
        ensures
            s.state().written == Seq::<u8>::empty(),
            s.room() == limit,
    {
        BoundedSink { buf: Vec::new(), limit }
    }

    /// The bytes written so far.
    pub fn into_bytes(self) -> (v: Vec<u8>)
        ensures
            v@ == self.state().written,
    {
        self.buf
    }
}

impl BinWrite for BoundedSink {
    closed spec fn state(&self) -> SinkState {
        SinkState { written: self.buf@, infallible: false }
    }

    fn write_all(&mut self, data: &[u8]) -> (r: Result<(), BinError>)
        ensures
            r is Ok <==> data@.len() <= old(self).room(),
            r is Ok ==> final(self).room() == old(self).room() - data@.len(),
            r is Err ==> final(self).room() == 0,
    {
        let limit: usize = self.limit;
        let room: usize = if self.buf.len() <= limit {
            limit - self.buf.len()
        } else {
            0
        };
        let n: usize = if data.len() <= room {
            data.len()
        } else {
            room
        };
        let ghost before = self.buf@;
        let mut i: usize = 0;
        while i < n
            invariant
                i <= n <= data@.len(),
                self.limit == limit,
                self.buf@ == before + data@.take(i as int),
            decreases n - i,
        {
            self.buf.push(data[i]);
            proof {
                assert(data@.take(i + 1) =~= data@.take(i as int).push(data@[i as int]));
            }
            i = i + 1;
        }
        proof {
            assert(self.buf@ =~= (before + data@).take((before.len() + n) as int));
            if n == data@.len() {
                assert(data@.take(n as int) =~= data@);
            }
        }
        if n < data.len() {
            Err(BinError::IOError("failed to write whole buffer".to_string()))
        } else {
            Ok(())
        }
    }
}

/// A source that reads from a byte slice held in memory.
pub struct ByteSource<'a> {
    data: &'a [u8],
    pos: usize,
}

impl<'a> ByteSource<'a> {
    #[verifier::type_invariant]
    spec fn wf(self) -> bool {
        self.pos <= self.data@.len()
    }

    /// A source positioned at the first byte of `data`.
    pub fn new(data: &'a [u8]) -> (s: Self)
        ensures
            s.remaining() == data@,
    {
        proof {
            assert(data@.skip(0) =~= data@);
        }
        ByteSource { data, pos: 0 }
    }
}

impl<'a> BinRead for ByteSource<'a> {
    closed spec fn remaining(&self) -> Seq<u8> {
        self.data@.skip(self.pos as int)
    }

    open spec fn knows_length() -> bool {
        true
    }

    fn remaining_hint(&self) -> (n: usize) {
        proof {
            use_type_invariant(self);
        }
        self.data.len() - self.pos
    }

    fn read_exact(&mut self, n: usize) -> (r: Result<Vec<u8>, BinError>) {
        proof {
            use_type_invariant(&*self);
            assert(self.remaining().skip(0) =~= self.remaining());
        }
        let data: &[u8] = self.data;
        let pos: usize = self.pos;
        let total: usize = data.len();
        let left: usize = total - pos;
        if n > left {
            return Err(BinError::InsufficientData(n - left));
        }
        let mut out: Vec<u8> = Vec::new();
        let mut i: usize = 0;
        while i < n
            invariant
                i <= n,
                pos + n <= total == data@.len(),
                out@ == data@.subrange(pos as int, pos + i),
            decreases n - i,
        {
            out.push(data[pos + i]);
            proof {
                assert(data@.subrange(pos as int, pos + i + 1) =~= data@.subrange(
                    pos as int,
                    pos + i,
                ).push(data@[pos + i]));
            }
            i = i + 1;
        }
        proof {
            assert(out@ =~= data@.skip(pos as int).take(n as int));
            assert(data@.skip(pos + n) =~= data@.skip(pos as int).skip(n as int));
        }
        self.pos = pos + n;
        Ok(out)
    }
}

} // verus!
