//! The codec of zero-terminated UTF-8 text.

use crate::attr::Attrs;
use crate::de::BinDeserialize;
use crate::error::BinError;
use crate::ser::BinSerialize;
use crate::stream_rw::{BinRead, BinWrite};
use crate::wire::{Encoding, Parsed, Val};
use vstd::prelude::*;

verus! {

/// The position of the first zero byte of `input`, if it has one.
pub open spec fn find_zero(input: Seq<u8>) -> Option<nat>
    decreases input.len(),
{
    if input.len() == 0 {
        None
    } else if input[0] == 0 {
        Some(0)
    } else {
        match find_zero(input.drop_first()) {
            Some(i) => Some(i + 1),
            None => None,
        }
    }
}

/// A string on the wire: its UTF-8 bytes, then one zero byte.
pub open spec fn text_encoding(chars: Seq<char>) -> Encoding {
    Encoding::ok(vstd::utf8::encode_utf8(chars) + seq![0u8])
}

/// Reading a string: the bytes before the first zero byte, which must be
/// valid UTF-8. Without a zero byte the whole input is taken and one more
/// byte is asked for.
pub open spec fn parse_text(input: Seq<u8>) -> Parsed {
    match find_zero(input) {
        Some(n) => {
            let body = input.take(n as int);
            if vstd::utf8::valid_utf8(body) {
                Parsed::ok(Val::Text(vstd::utf8::decode_utf8(body)), n + 1)
            } else {
                Parsed::fail(BinError::InvalidUtf8, n + 1)
            }
        },
        None => Parsed::fail(BinError::InsufficientData(1), input.len()),
    }
}

/// `find_zero` names the first zero byte: none before it, one at it.
pub proof fn lemma_find_zero(input: Seq<u8>)
    ensures
        match find_zero(input) {
            Some(n) => n < input.len() && input[n as int] == 0 && forall|j: int|
                0 <= j < n ==> input[j] != 0,
            None => forall|j: int| 0 <= j < input.len() ==> input[j] != 0,
        },
    decreases input.len(),
{
    if input.len() > 0 && input[0] != 0 {
        let rest = input.drop_first();
        lemma_find_zero(rest);
        match find_zero(rest) {
            Some(n) => {
                assert forall|j: int| 0 <= j < n + 1 implies input[j] != 0 by {
                    if j > 0 {
                        assert(input[j] == rest[j - 1]);
                    }
                }
            },
            None => {
                assert forall|j: int| 0 <= j < input.len() implies input[j] != 0 by {
                    if j > 0 {
                        assert(input[j] == rest[j - 1]);
                    }
                }
            },
        }
    }
}

/// A zero byte that no zero byte precedes is the one `find_zero` finds.
pub proof fn lemma_first_zero_at(input: Seq<u8>, n: nat)
    requires
        n < input.len(),
        input[n as int] == 0,
        forall|j: int| 0 <= j < n ==> input[j] != 0,
    ensures
        find_zero(input) == Some(n),
{
    lemma_find_zero(input);
}

/// The UTF-8 bytes of a scalar other than U+0000 are all non-zero.
proof fn lemma_scalar_no_zero(c: u32)
    by (bit_vector)
    requires
        c != 0,
    ensures
        (c & 0x7F) as u8 != 0 || !(c <= 0x7F),
        0xC0u8 | ((c >> 6) & 0x1F) as u8 != 0,
        0xE0u8 | ((c >> 12) & 0x0F) as u8 != 0,
        0xF0u8 | ((c >> 18) & 0x7) as u8 != 0,
        0x80u8 | (c & 0x3F) as u8 != 0,
        0x80u8 | ((c >> 6) & 0x3F) as u8 != 0,
        0x80u8 | ((c >> 12) & 0x3F) as u8 != 0,
{
}

/// Text without the character U+0000 has no zero byte in its UTF-8 form.
pub proof fn lemma_no_zero_byte(chars: Seq<char>)
    requires
        forall|i: int| 0 <= i < chars.len() ==> chars[i] as u32 != 0,
    ensures
        forall|j: int|
            0 <= j < vstd::utf8::encode_utf8(chars).len() ==> vstd::utf8::encode_utf8(chars)[j]
                != 0,
    decreases chars.len(),
{
    if chars.len() > 0 {
        let c = chars[0] as u32;
        let head = vstd::utf8::encode_scalar(c);
        let tail = vstd::utf8::encode_utf8(chars.drop_first());
        lemma_scalar_no_zero(c);
        assert forall|i: int| 0 <= i < chars.drop_first().len() implies chars.drop_first()[i] as u32
            != 0 by {
            assert(chars.drop_first()[i] == chars[i + 1]);
        }
        lemma_no_zero_byte(chars.drop_first());
        assert forall|j: int| 0 <= j < (head + tail).len() implies (head + tail)[j] != 0 by {
            if j >= head.len() {
                assert((head + tail)[j] == tail[j - head.len()]);
            }
        }
    }
}

/// `String::from_utf8` of std: succeeds exactly on valid UTF-8, and the
/// string it returns consists of the very bytes it was given.
#[verifier::external_body]
fn string_from_utf8(bytes: Vec<u8>) -> (r: Option<String>)
    ensures
        match r {
            Some(s) => vstd::utf8::valid_utf8(bytes@) && vstd::utf8::encode_utf8(s@) == bytes@,
            None => !vstd::utf8::valid_utf8(bytes@),
        },
{
    match String::from_utf8(bytes) {
        Ok(s) => Some(s),
        Err(_) => None,
    }
}

/// Writes the UTF-8 bytes of `s` and the terminating zero byte.
fn encode_text<W: BinWrite>(s: &str, buf: &mut W) -> (r: Result<(), BinError>)
    ensures
        crate::stream_rw::encode_outcome(
            old(buf).state(),
            final(buf).state(),
            text_encoding(s@),
            r,
        ),
{
    let ghost utf8 = Encoding::ok(vstd::utf8::encode_utf8(s@));
    let ghost end = Encoding::ok(seq![0u8]);
    match buf.write_all(s.as_bytes()) {
        Ok(()) => {},
        Err(e) => {
            proof {
                crate::stream_rw::lemma_encode_stop(
                    old(buf).state(),
                    buf.state(),
                    utf8,
                    end,
                    Err(e),
                );
            }
            return Err(e);
        },
    }
    let ghost mid = buf.state();
    let r = buf.put_u8(0);
    proof {
        crate::stream_rw::lemma_encode_compose(old(buf).state(), mid, buf.state(), utf8, end, r);
    }
    r
}

impl BinSerialize for &str {
    open spec fn encoding(&self, attrs: Attrs) -> Encoding {
        text_encoding(self@)
    }

    fn encode_to<W: BinWrite>(&self, buf: &mut W, attrs: Attrs) -> (r: Result<(), BinError>) {
        encode_text(*self, buf)
    }
}

impl BinSerialize for String {
    open spec fn encoding(&self, attrs: Attrs) -> Encoding {
        text_encoding(self@)
    }

    fn encode_to<W: BinWrite>(&self, buf: &mut W, attrs: Attrs) -> (r: Result<(), BinError>) {
        encode_text(self.as_str(), buf)
    }
}

impl BinDeserialize for String {
    open spec fn value(&self) -> Val {
        Val::Text(self@)
    }

    open spec fn parse(input: Seq<u8>, attrs: Attrs, hinted: bool) -> Parsed {
        parse_text(input)
    }

    open spec fn min_len(attrs: Attrs) -> nat {
        1
    }

    fn min_wire_len(attrs: Attrs) -> (n: usize) {
        1
    }

    fn decode_from<R: BinRead>(buf: &mut R, attrs: Attrs) -> (r: Result<Self, BinError>) {
        let ghost input = buf.remaining();
        let mut data: Vec<u8> = Vec::new();
        proof {
            assert(input.skip(0) =~= input);
            assert(data@ =~= input.take(0));
        }
        loop
            invariant
                input == old(buf).remaining(),
                data@.len() <= input.len(),
                data@ == input.take(data@.len() as int),
                buf.remaining() == input.skip(data@.len() as int),
                forall|j: int| 0 <= j < data@.len() ==> input[j] != 0,
            decreases input.len() - data@.len(),
        {
            let ghost n = data@.len();
            match buf.get_u8() {
                Ok(b) => {
                    proof {
                        assert(input.skip(n as int)[0] == input[n as int]);
                        assert(input.skip(n as int).skip(1) =~= input.skip(n as int + 1));
                    }
                    if b == 0 {
                        proof {
                            lemma_first_zero_at(input, n);
                        }
                        return match string_from_utf8(data) {
                            Some(s) => {
                                proof {
                                    vstd::utf8::encode_utf8_decode_utf8(s@);
                                }
                                Ok(s)
                            },
                            None => Err(BinError::InvalidUtf8),
                        };
                    }
                    data.push(b);
                    proof {
                        assert(data@ =~= input.take(n as int + 1));
                    }
                },
                Err(e) => {
                    proof {
                        lemma_find_zero(input);
                        assert(input.skip(n as int).skip(0) =~= input.skip(n as int));
                        assert(n == input.len());
                    }
                    return Err(e);
                },
            }
        }
    }
}

} // verus!
