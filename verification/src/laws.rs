//! What holds of encoding and decoding together.

use crate::attr::{Attrs, Endian, Len};
use crate::de::BinDeserialize;
use crate::error::BinError;
use crate::ser::BinSerialize;
use crate::tagged::{Nest, Selection, Slot};
use crate::wire::{Encoding, Parsed, Val};
use vstd::prelude::*;

verus! {

/// Types whose encoding decodes back to the value that was encoded.
pub trait Roundtrip: BinSerialize + BinDeserialize {
    /// The values that survive a round trip under `attrs`: those that encode
    /// without error to bytes from which the decoder finds the same end.
    spec fn roundtrips(&self, attrs: Attrs, hinted: bool) -> bool;

    /// Whether an encoded value marks its own end under `attrs`, so that
    /// more bytes may follow it.
    spec fn delimited(attrs: Attrs) -> bool;

    /// Decoding the encoding of `self`, followed by any `rest`, yields the
    /// content of `self` and takes exactly the bytes of the encoding.
    proof fn lemma_roundtrip(&self, attrs: Attrs, hinted: bool, rest: Seq<u8>)
        requires
            self.roundtrips(attrs, hinted),
            Self::delimited(attrs) || rest.len() == 0,
        ensures
            self.encoding(attrs).err is None,
            Self::parse(self.encoding(attrs).bytes + rest, attrs, hinted) == Parsed::ok(
                self.value(),
                self.encoding(attrs).bytes.len(),
            ),
            self.encoding(attrs).bytes.len() >= Self::min_len(attrs),
    ;
}

/// Decoding what was encoded gives the value back, and takes all of its
/// bytes.
pub proof fn law_roundtrip<T: Roundtrip>(v: T, attrs: Attrs, hinted: bool)
    requires
        v.roundtrips(attrs, hinted),
    ensures
        v.encoding(attrs).err is None,
        T::parse(v.encoding(attrs).bytes, attrs, hinted) == Parsed::ok(
            v.value(),
            v.encoding(attrs).bytes.len(),
        ),
{
    v.lemma_roundtrip(attrs, hinted, Seq::empty());
    assert(v.encoding(attrs).bytes + Seq::<u8>::empty() =~= v.encoding(attrs).bytes);
}

impl Roundtrip for bool {
    open spec fn roundtrips(&self, attrs: Attrs, hinted: bool) -> bool {
        true
    }

    open spec fn delimited(attrs: Attrs) -> bool {
        true
    }

    proof fn lemma_roundtrip(&self, attrs: Attrs, hinted: bool, rest: Seq<u8>) {
    }
}

impl Roundtrip for u8 {
    open spec fn roundtrips(&self, attrs: Attrs, hinted: bool) -> bool {
        true
    }

    open spec fn delimited(attrs: Attrs) -> bool {
        true
    }

    proof fn lemma_roundtrip(&self, attrs: Attrs, hinted: bool, rest: Seq<u8>) {
    }
}

impl Roundtrip for i8 {
    open spec fn roundtrips(&self, attrs: Attrs, hinted: bool) -> bool {
        true
    }

    open spec fn delimited(attrs: Attrs) -> bool {
        true
    }

    proof fn lemma_roundtrip(&self, attrs: Attrs, hinted: bool, rest: Seq<u8>) {
        crate::bytes::lemma_signed_roundtrip(*self as int, 1);
    }
}

impl Roundtrip for u16 {
    open spec fn roundtrips(&self, attrs: Attrs, hinted: bool) -> bool {
        true
    }

    open spec fn delimited(attrs: Attrs) -> bool {
        true
    }

    proof fn lemma_roundtrip(&self, attrs: Attrs, hinted: bool, rest: Seq<u8>) {
        let u = *self as nat;
        let bytes = crate::bytes::int_bytes(u, 2, attrs.endian);
        crate::bytes::lemma_int_value_of_bytes(u, 2, attrs.endian);
        assert((bytes + rest).take(2) =~= bytes);
    }
}

impl Roundtrip for i16 {
    open spec fn roundtrips(&self, attrs: Attrs, hinted: bool) -> bool {
        true
    }

    open spec fn delimited(attrs: Attrs) -> bool {
        true
    }

    proof fn lemma_roundtrip(&self, attrs: Attrs, hinted: bool, rest: Seq<u8>) {
        crate::bytes::lemma_signed_roundtrip(*self as int, 2);
        let u = crate::bytes::to_unsigned(*self as int, 2);
        let bytes = crate::bytes::int_bytes(u, 2, attrs.endian);
        crate::bytes::lemma_int_value_of_bytes(u, 2, attrs.endian);
        assert((bytes + rest).take(2) =~= bytes);
    }
}

impl Roundtrip for u32 {
    open spec fn roundtrips(&self, attrs: Attrs, hinted: bool) -> bool {
        true
    }

    open spec fn delimited(attrs: Attrs) -> bool {
        true
    }

    proof fn lemma_roundtrip(&self, attrs: Attrs, hinted: bool, rest: Seq<u8>) {
        let u = *self as nat;
        let bytes = crate::bytes::int_bytes(u, 4, attrs.endian);
        crate::bytes::lemma_int_value_of_bytes(u, 4, attrs.endian);
        assert((bytes + rest).take(4) =~= bytes);
    }
}

impl Roundtrip for i32 {
    open spec fn roundtrips(&self, attrs: Attrs, hinted: bool) -> bool {
        true
    }

    open spec fn delimited(attrs: Attrs) -> bool {
        true
    }

    proof fn lemma_roundtrip(&self, attrs: Attrs, hinted: bool, rest: Seq<u8>) {
        crate::bytes::lemma_signed_roundtrip(*self as int, 4);
        let u = crate::bytes::to_unsigned(*self as int, 4);
        let bytes = crate::bytes::int_bytes(u, 4, attrs.endian);
        crate::bytes::lemma_int_value_of_bytes(u, 4, attrs.endian);
        assert((bytes + rest).take(4) =~= bytes);
    }
}

impl Roundtrip for u64 {
    open spec fn roundtrips(&self, attrs: Attrs, hinted: bool) -> bool {
        true
    }

    open spec fn delimited(attrs: Attrs) -> bool {
        true
    }

    proof fn lemma_roundtrip(&self, attrs: Attrs, hinted: bool, rest: Seq<u8>) {
        let u = *self as nat;
        let bytes = crate::bytes::int_bytes(u, 8, attrs.endian);
        crate::bytes::lemma_int_value_of_bytes(u, 8, attrs.endian);
        assert((bytes + rest).take(8) =~= bytes);
    }
}

impl Roundtrip for i64 {
    open spec fn roundtrips(&self, attrs: Attrs, hinted: bool) -> bool {
        true
    }

    open spec fn delimited(attrs: Attrs) -> bool {
        true
    }

    proof fn lemma_roundtrip(&self, attrs: Attrs, hinted: bool, rest: Seq<u8>) {
        crate::bytes::lemma_signed_roundtrip(*self as int, 8);
        let u = crate::bytes::to_unsigned(*self as int, 8);
        let bytes = crate::bytes::int_bytes(u, 8, attrs.endian);
        crate::bytes::lemma_int_value_of_bytes(u, 8, attrs.endian);
        assert((bytes + rest).take(8) =~= bytes);
    }
}

impl Roundtrip for () {
    open spec fn roundtrips(&self, attrs: Attrs, hinted: bool) -> bool {
        true
    }

    open spec fn delimited(attrs: Attrs) -> bool {
        true
    }

    proof fn lemma_roundtrip(&self, attrs: Attrs, hinted: bool, rest: Seq<u8>) {
    }
}

impl<T: Roundtrip> Roundtrip for Box<T> {
    open spec fn roundtrips(&self, attrs: Attrs, hinted: bool) -> bool {
        (**self).roundtrips(attrs, hinted)
    }

    open spec fn delimited(attrs: Attrs) -> bool {
        T::delimited(attrs)
    }

    proof fn lemma_roundtrip(&self, attrs: Attrs, hinted: bool, rest: Seq<u8>) {
        (**self).lemma_roundtrip(attrs, hinted, rest);
    }
}

impl Roundtrip for String {
    /// Text survives a round trip unless it holds the character U+0000,
    /// whose byte would be taken for the terminator.
    open spec fn roundtrips(&self, attrs: Attrs, hinted: bool) -> bool {
        forall|i: int| 0 <= i < self@.len() ==> self@[i] as u32 != 0
    }

    open spec fn delimited(attrs: Attrs) -> bool {
        true
    }

    proof fn lemma_roundtrip(&self, attrs: Attrs, hinted: bool, rest: Seq<u8>) {
        let utf8 = vstd::utf8::encode_utf8(self@);
        let input = (utf8 + seq![0u8]) + rest;
        crate::text::lemma_no_zero_byte(self@);
        crate::text::lemma_first_zero_at(input, utf8.len());
        assert(input.take(utf8.len() as int) =~= utf8);
        vstd::utf8::encode_utf8_valid_utf8(self@);
        vstd::utf8::encode_utf8_decode_utf8(self@);
    }
}

/// Whether a reader that goes on until the input gives out stops cleanly on
/// an empty input: the element decoder asks for more data without taking
/// any.
pub open spec fn ends_cleanly<T: BinDeserialize>(attrs: Attrs, hinted: bool) -> bool {
    let p = T::parse(Seq::empty(), attrs, hinted);
    p.value matches Err(BinError::InsufficientData(_)) && p.consumed == 0
}

/// Whether the reader of an unbounded sequence stops behind every element,
/// for want of any sign that the element took input.
pub open spec fn stops_at_once<T: BinDeserialize>(attrs: Attrs, hinted: bool) -> bool {
    !hinted && T::min_len(attrs) == 0
}

/// Elements written one after the other are read back, as many as were
/// written, whatever follows them.
pub proof fn lemma_elems_roundtrip<T: Roundtrip>(
    s: Seq<T>,
    attrs: Attrs,
    hinted: bool,
    rest: Seq<u8>,
    acc: Seq<Val>,
)
    requires
        forall|i: int| 0 <= i < s.len() ==> #[trigger] s[i].roundtrips(attrs, hinted),
        T::delimited(attrs) || s.len() == 0 || (s.len() == 1 && rest.len() == 0),
    ensures
        crate::seq::elems_encoding(s, attrs).err is None,
        crate::seq::parse_counted::<T>(
            crate::seq::elems_encoding(s, attrs).bytes + rest,
            attrs,
            hinted,
            s.len(),
            acc,
        ) == Parsed::ok(
            Val::List(acc + crate::seq::values_of(s)),
            crate::seq::elems_encoding(s, attrs).bytes.len(),
        ),
        crate::seq::elems_encoding(s, attrs).bytes.len() >= s.len() * T::min_len(attrs),
    decreases s.len(),
{
    if s.len() == 0 {
        assert(acc + crate::seq::values_of(s) =~= acc);
        assert(Seq::<u8>::empty() + rest =~= rest);
    } else {
        let x = s[0];
        let tail = s.drop_first();
        let xb = x.encoding(attrs).bytes;
        let tb = crate::seq::elems_encoding(tail, attrs).bytes;
        assert(x.roundtrips(attrs, hinted));
        assert forall|i: int| 0 <= i < tail.len() implies #[trigger] tail[i].roundtrips(
            attrs,
            hinted,
        ) by {
            assert(tail[i] == s[i + 1]);
            assert(s[i + 1].roundtrips(attrs, hinted));
        }
        if tail.len() == 0 {
            assert(tb + rest =~= rest);
        }
        x.lemma_roundtrip(attrs, hinted, tb + rest);
        lemma_elems_roundtrip::<T>(tail, attrs, hinted, rest, acc.push(x.value()));
        let input = (xb + tb) + rest;
        assert(input =~= xb + (tb + rest));
        assert(input.skip(xb.len() as int) =~= tb + rest);
        assert(acc.push(x.value()) + crate::seq::values_of(tail) =~= acc + crate::seq::values_of(
            s,
        ));
        let m = T::min_len(attrs);
        assert(s.len() * m == m + (s.len() - 1) * m) by (nonlinear_arith);
    }
}

/// Elements written one after the other with nothing behind them are read
/// back by a reader that goes on until the input gives out, provided that
/// every element has at least one byte.
pub proof fn lemma_unbounded_roundtrip<T: Roundtrip>(
    s: Seq<T>,
    attrs: Attrs,
    hinted: bool,
    acc: Seq<Val>,
)
    requires
        forall|i: int| 0 <= i < s.len() ==> #[trigger] s[i].roundtrips(attrs, hinted),
        forall|i: int| 0 <= i < s.len() ==> (#[trigger] s[i]).encoding(attrs).bytes.len() > 0,
        T::delimited(attrs) || s.len() <= 1,
        if stops_at_once::<T>(attrs, hinted) {
            s.len() == 1
        } else {
            ends_cleanly::<T>(attrs, hinted)
        },
    ensures
        crate::seq::elems_encoding(s, attrs).err is None,
        crate::seq::parse_unbounded::<T>(
            crate::seq::elems_encoding(s, attrs).bytes,
            attrs,
            hinted,
            acc,
        ) == Parsed::ok(
            Val::List(acc + crate::seq::values_of(s)),
            crate::seq::elems_encoding(s, attrs).bytes.len(),
        ),
    decreases s.len(),
{
    if s.len() == 0 {
        assert(acc + crate::seq::values_of(s) =~= acc);
    } else {
        let x = s[0];
        let tail = s.drop_first();
        let xb = x.encoding(attrs).bytes;
        let tb = crate::seq::elems_encoding(tail, attrs).bytes;
        assert(x.roundtrips(attrs, hinted));
        assert(xb.len() > 0);
        assert forall|i: int| 0 <= i < tail.len() implies #[trigger] tail[i].roundtrips(
            attrs,
            hinted,
        ) by {
            assert(tail[i] == s[i + 1]);
            assert(s[i + 1].roundtrips(attrs, hinted));
        }
        assert forall|i: int| 0 <= i < tail.len() implies (#[trigger] tail[i]).encoding(
            attrs,
        ).bytes.len() > 0 by {
            assert(tail[i] == s[i + 1]);
            assert(s[i + 1].encoding(attrs).bytes.len() > 0);
        }
        x.lemma_roundtrip(attrs, hinted, tb);
        if stops_at_once::<T>(attrs, hinted) {
            assert(tail.len() == 0);
            assert(xb + tb =~= xb);
        } else {
            lemma_unbounded_roundtrip::<T>(tail, attrs, hinted, acc.push(x.value()));
        }
        assert((xb + tb).skip(xb.len() as int) =~= tb);
        assert(acc.push(x.value()) + crate::seq::values_of(tail) =~= acc + crate::seq::values_of(
            s,
        ));
    }
}

impl<T: Roundtrip> Roundtrip for Vec<T> {
    /// A sequence survives a round trip when its elements do and the decoder
    /// can tell where each element and the sequence end: by the length field,
    /// which the length must fit; or, without one, by the end of the input,
    /// where every element must have at least one byte and the element
    /// decoder must ask for more on an empty input. Where the decoder stops
    /// behind every element, the one element of a sequence is read back.
    open spec fn roundtrips(&self, attrs: Attrs, hinted: bool) -> bool {
        &&& forall|i: int| 0 <= i < self@.len() ==> #[trigger] self@[i].roundtrips(attrs, hinted)
        &&& T::delimited(attrs) || self@.len() <= 1
        &&& match attrs.len {
            Some(kind) => self@.len() <= kind.max(),
            None => {
                &&& if stops_at_once::<T>(attrs, hinted) {
                    self@.len() == 1
                } else {
                    ends_cleanly::<T>(attrs, hinted)
                }
                &&& forall|i: int|
                    0 <= i < self@.len() ==> (#[trigger] self@[i]).encoding(attrs).bytes.len() > 0
            },
        }
    }

    open spec fn delimited(attrs: Attrs) -> bool {
        attrs.len is Some && T::delimited(attrs)
    }

    proof fn lemma_roundtrip(&self, attrs: Attrs, hinted: bool, rest: Seq<u8>) {
        let s = self@;
        let body = crate::seq::elems_encoding(s, attrs).bytes;
        match attrs.len {
            Some(kind) => {
                vstd::std_specs::vec::axiom_spec_len(self);
                let n = s.len() as u64;
                let head = kind.encoding(n, attrs.len_endian).bytes;
                crate::attr::lemma_len_roundtrip(kind, n, attrs.len_endian, body + rest);
                lemma_elems_roundtrip::<T>(s, attrs, hinted, rest, Seq::empty());
                let input = (head + body) + rest;
                assert(input =~= head + (body + rest));
                assert(input.skip(head.len() as int) =~= body + rest);
                assert(Seq::<Val>::empty() + crate::seq::values_of(s) =~= crate::seq::values_of(s));
            },
            None => {
                lemma_unbounded_roundtrip::<T>(s, attrs, hinted, Seq::empty());
                assert(Seq::<u8>::empty() + body =~= body);
                assert(body + rest =~= body);
                assert(Seq::<Val>::empty() + crate::seq::values_of(s) =~= crate::seq::values_of(s));
            },
        }
    }
}

impl<T: Roundtrip, const N: usize> Roundtrip for [T; N] {
    open spec fn roundtrips(&self, attrs: Attrs, hinted: bool) -> bool {
        &&& forall|i: int| 0 <= i < self@.len() ==> #[trigger] self@[i].roundtrips(attrs, hinted)
        &&& T::delimited(attrs) || N <= 1
    }

    open spec fn delimited(attrs: Attrs) -> bool {
        T::delimited(attrs) || N == 0
    }

    proof fn lemma_roundtrip(&self, attrs: Attrs, hinted: bool, rest: Seq<u8>) {
        vstd::array::array_len_matches_n(self);
        lemma_elems_roundtrip::<T>(self@, attrs, hinted, rest, Seq::empty());
        assert(Seq::<Val>::empty() + crate::seq::values_of(self@) =~= crate::seq::values_of(
            self@,
        ));
    }
}

/// Bytes are their own encoding, under any policy.
pub proof fn lemma_bytes_encoding(s: Seq<u8>, attrs: Attrs)
    ensures
        crate::seq::elems_encoding::<u8>(s, attrs) == Encoding::ok(s),
    decreases s.len(),
{
    if s.len() > 0 {
        lemma_bytes_encoding(s.drop_first(), attrs);
        assert(seq![s[0]] + s.drop_first() =~= s);
    } else {
        assert(s =~= Seq::<u8>::empty());
    }
}

/// A sequence of bytes is encoded as its length in the configured field,
/// followed by the bytes as they are.
pub proof fn law_prefixed_bytes(s: Seq<u8>, attrs: Attrs)
    ensures
        crate::seq::seq_encoding::<u8>(s, attrs) == attrs.length_encoding(
            s.len() as u64,
        ).followed_by(Encoding::ok(s)),
{
    lemma_bytes_encoding(s, attrs);
}

/// A reader of `n` bytes takes the first `n` bytes of an input that has them.
pub proof fn lemma_counted_bytes(input: Seq<u8>, attrs: Attrs, hinted: bool, n: nat, acc: Seq<Val>)
    requires
        n <= input.len(),
    ensures
        crate::seq::parse_counted::<u8>(input, attrs, hinted, n, acc) == Parsed::ok(
            Val::List(acc + input.take(n as int).map_values(|b: u8| Val::Int(b as int))),
            n,
        ),
    decreases n,
{
    let f = |b: u8| Val::Int(b as int);
    if n == 0 {
        assert(acc + input.take(0).map_values(f) =~= acc);
    } else {
        let rest = input.skip(1);
        lemma_counted_bytes(
            rest,
            attrs,
            hinted,
            (n - 1) as nat,
            acc.push(Val::Int(input[0] as int)),
        );
        assert(acc.push(Val::Int(input[0] as int)) + rest.take(n - 1).map_values(f) =~= acc
            + input.take(n as int).map_values(f));
    }
}

/// Framing a payload is encoding it as a length-prefixed sequence of bytes.
pub proof fn law_frame_is_byte_sequence(nest: Nest, payload: Seq<u8>)
    ensures
        crate::seq::seq_encoding::<u8>(
            payload,
            Attrs { len: Some(nest.kind), len_endian: nest.endian, endian: Endian::Little },
        ) == crate::tagged::frame_encoding(nest, payload),
{
    let attrs = Attrs { len: Some(nest.kind), len_endian: nest.endian, endian: Endian::Little };
    lemma_bytes_encoding(payload, attrs);
}

/// Reading a framed payload is decoding a length-prefixed sequence of bytes,
/// wherever the frame is whole or the source gives the hint by which a
/// sequence decoder finds the shortfall up front.
pub proof fn law_unframing_is_byte_sequence(nest: Nest, input: Seq<u8>, hinted: bool)
    requires
        crate::tagged::parse_frame(nest, input).value is Ok || (hinted && input.len()
            > nest.kind.width()),
    ensures
        <Vec<u8> as BinDeserialize>::parse(
            input,
            Attrs { len: Some(nest.kind), len_endian: nest.endian, endian: Endian::Little },
            hinted,
        ) == crate::tagged::parse_frame(nest, input),
{
    let attrs = Attrs { len: Some(nest.kind), len_endian: nest.endian, endian: Endian::Little };
    let head = nest.kind.parse(input, nest.endian);
    match head.value {
        Ok(Val::Int(n)) => {
            let body = input.skip(head.consumed as int);
            assert(n * 1 == n);
            if n <= usize::MAX && n <= body.len() {
                lemma_counted_bytes(body, attrs, hinted, n as nat, Seq::empty());
                assert(Seq::<Val>::empty() + body.take(n).map_values(|b: u8| Val::Int(b as int))
                    =~= body.take(n).map_values(|b: u8| Val::Int(b as int)));
            }
        },
        _ => {},
    }
}

/// A reader of bytes that goes on until the input gives out takes all of it.
pub proof fn lemma_unbounded_bytes(input: Seq<u8>, attrs: Attrs, hinted: bool, acc: Seq<Val>)
    ensures
        crate::seq::parse_unbounded::<u8>(input, attrs, hinted, acc) == Parsed::ok(
            Val::List(acc + input.map_values(|b: u8| Val::Int(b as int))),
            input.len(),
        ),
    decreases input.len(),
{
    let f = |b: u8| Val::Int(b as int);
    if input.len() == 0 {
        assert(acc + input.map_values(f) =~= acc);
    } else {
        let rest = input.skip(1);
        lemma_unbounded_bytes(rest, attrs, hinted, acc.push(Val::Int(input[0] as int)));
        assert(acc.push(Val::Int(input[0] as int)) + rest.map_values(f) =~= acc + input.map_values(
            f,
        ));
    }
}

/// Without a configured length, a sequence of bytes takes every remaining
/// byte as an element.
pub proof fn law_unbounded_bytes(input: Seq<u8>, attrs: Attrs, hinted: bool)
    requires
        attrs.len is None,
    ensures
        <Vec<u8> as BinDeserialize>::parse(input, attrs, hinted) == Parsed::ok(
            crate::tagged::bytes_val(input),
            input.len(),
        ),
{
    lemma_unbounded_bytes(input, attrs, hinted, Seq::empty());
    assert(Seq::<Val>::empty() + input.map_values(|b: u8| Val::Int(b as int)) =~= input.map_values(
        |b: u8| Val::Int(b as int),
    ));
}

/// A sequence longer than its length field can say encodes to
/// `IntegerOverflow`, and not one byte is emitted for it.
pub proof fn law_length_overflow<T: BinSerialize>(v: Vec<T>, attrs: Attrs)
    requires
        attrs.len matches Some(kind) && v@.len() > kind.max(),
    ensures
        v.encoding(attrs) == Encoding::fail(BinError::IntegerOverflow),
{
    vstd::std_specs::vec::axiom_spec_len(&v);
}

/// Where the source says how many bytes are left, and the declared length
/// of a sequence asks for more than are left behind the length field,
/// decoding reports the exact shortfall and takes nothing but the length
/// field.
pub proof fn law_shortfall<T: BinDeserialize>(
    input: Seq<u8>,
    attrs: Attrs,
    hinted: bool,
    declared: nat,
)
    requires
        hinted,
        attrs.len is Some,
        input.len() > attrs.len->0.width(),
        attrs.length_parse(input) == Parsed::ok(
            Val::Int(declared as int),
            attrs.len->0.width(),
        ),
        declared * T::min_len(attrs) <= usize::MAX,
        declared * T::min_len(attrs) > input.len() - attrs.len->0.width(),
    ensures
        <Vec<T> as BinDeserialize>::parse(input, attrs, hinted) == Parsed::fail(
            BinError::InsufficientData(
                (declared * T::min_len(attrs) - (input.len() - attrs.len->0.width())) as usize,
            ),
            attrs.len->0.width(),
        ),
{
    let m = T::min_len(attrs);
    if declared > usize::MAX {
        assert(declared * m >= declared || m == 0) by (nonlinear_arith);
        if m == 0 {
            assert(declared * m == 0) by (nonlinear_arith)
                requires
                    m == 0,
            ;
        }
    }
}

/// Text that no zero byte ends is reported as short of data, after all of
/// the input has been taken.
pub proof fn law_unterminated_text(input: Seq<u8>)
    requires
        forall|i: int| 0 <= i < input.len() ==> input[i] != 0,
    ensures
        crate::text::parse_text(input) == Parsed::fail(
            BinError::InsufficientData(1),
            input.len(),
        ),
{
    crate::text::lemma_find_zero(input);
}

/// A discriminant that fits its width is read back as written, whatever
/// follows it and whatever the signedness of its kind.
pub proof fn lemma_tag_roundtrip(tag_kind: Len, endian: Endian, tag: u64, rest: Seq<u8>)
    requires
        tag < crate::bytes::radix(tag_kind.width()),
    ensures
        crate::tagged::tag_encoding(tag_kind, endian, tag).err is None,
        crate::tagged::tag_encoding(tag_kind, endian, tag).bytes.len() == tag_kind.width(),
        crate::tagged::tag_parse(
            tag_kind,
            endian,
            crate::tagged::tag_encoding(tag_kind, endian, tag).bytes + rest,
        ) == Parsed::ok(Val::Int(tag as int), tag_kind.width()),
{
    let bytes = crate::bytes::int_bytes(tag as nat, tag_kind.width(), endian);
    crate::bytes::lemma_int_value_of_bytes(tag as nat, tag_kind.width(), endian);
    assert((bytes + rest).take(tag_kind.width() as int) =~= bytes);
}

/// The discriminant that an input of at least the discriminant's width
/// starts with.
pub open spec fn leading_tag(tag_kind: Len, endian: Endian, input: Seq<u8>) -> u64 {
    crate::bytes::int_value(input.take(tag_kind.width() as int), endian) as u64
}

/// A discriminant that no variant has selects the fallback variant, which
/// keeps the discriminant and all bytes behind it; writing the two back gives
/// the input, byte for byte. This holds of every input that has the bytes of
/// a discriminant, for every kind of discriminant.
pub proof fn law_fallback_roundtrip(
    tag_kind: Len,
    endian: Endian,
    slots: Seq<Slot>,
    input: Seq<u8>,
)
    requires
        input.len() >= tag_kind.width(),
        crate::tagged::has_default(slots),
        !crate::tagged::knows(slots, leading_tag(tag_kind, endian, input)),
    ensures
        crate::tagged::tag_parse(tag_kind, endian, input) == Parsed::ok(
            Val::Int(leading_tag(tag_kind, endian, input) as int),
            tag_kind.width(),
        ),
        crate::tagged::selects(
            slots,
            leading_tag(tag_kind, endian, input),
            Ok(Selection::Fallback),
        ),
        crate::tagged::fallback_encoding(
            tag_kind,
            endian,
            leading_tag(tag_kind, endian, input),
            input.skip(tag_kind.width() as int),
        ) == Encoding::ok(input),
{
    let w = tag_kind.width();
    let head = input.take(w as int);
    crate::bytes::lemma_bytes_of_int_value(head, endian);
    crate::bytes::lemma_le_value_bound(head);
    crate::bytes::lemma_be_value_bound(head);
    assert(head + input.skip(w as int) =~= input);
}

/// A framed payload is read back whole, whatever follows it.
pub proof fn law_frame_roundtrip(nest: Nest, payload: Seq<u8>, rest: Seq<u8>)
    requires
        payload.len() <= nest.kind.max(),
        payload.len() <= usize::MAX,
    ensures
        crate::tagged::frame_encoding(nest, payload).err is None,
        crate::tagged::parse_frame(
            nest,
            crate::tagged::frame_encoding(nest, payload).bytes + rest,
        ) == Parsed::ok(
            crate::tagged::bytes_val(payload),
            crate::tagged::frame_encoding(nest, payload).bytes.len(),
        ),
{
    let n = payload.len() as u64;
    let head = nest.kind.encoding(n, nest.endian).bytes;
    crate::attr::lemma_len_roundtrip(nest.kind, n, nest.endian, payload + rest);
    let input = (head + payload) + rest;
    assert(input =~= head + (payload + rest));
    assert(input.skip(head.len() as int) =~= payload + rest);
    assert((payload + rest).take(payload.len() as int) =~= payload);
}

/// The payload of a variant is read back as it was written, whatever
/// follows it. Inside a frame even a payload that does not mark its own end
/// is read back.
pub proof fn lemma_payload_roundtrip<T: Roundtrip>(
    nest: Option<Nest>,
    payload: T,
    attrs: Attrs,
    hinted: bool,
    rest: Seq<u8>,
)
    requires
        match nest {
            None => payload.roundtrips(attrs, hinted) && (T::delimited(attrs) || rest.len() == 0),
            Some(n) => {
                &&& payload.roundtrips(attrs, true)
                &&& payload.encoding(attrs).bytes.len() <= n.kind.max()
                &&& payload.encoding(attrs).bytes.len() <= usize::MAX
            },
        },
    ensures
        crate::tagged::payload_encoding(nest, payload.encoding(attrs)).err is None,
        crate::tagged::payload_parse::<T>(
            nest,
            crate::tagged::payload_encoding(nest, payload.encoding(attrs)).bytes + rest,
            attrs,
            hinted,
        ) == Parsed::ok(
            payload.value(),
            crate::tagged::payload_encoding(nest, payload.encoding(attrs)).bytes.len(),
        ),
{
    let inner = payload.encoding(attrs).bytes;
    match nest {
        None => {
            payload.lemma_roundtrip(attrs, hinted, rest);
        },
        Some(n) => {
            payload.lemma_roundtrip(attrs, true, Seq::empty());
            assert(inner + Seq::<u8>::empty() =~= inner);
            law_frame_roundtrip(n, inner, rest);
            crate::attr::lemma_len_roundtrip(n.kind, inner.len() as u64, n.endian, inner);
            let k = n.kind.width();
            let head = n.kind.encoding(inner.len() as u64, n.endian).bytes;
            let frame = crate::tagged::frame_encoding(n, inner).bytes;
            assert(frame == head + inner);
            assert((frame + rest).subrange(k as int, frame.len() as int) =~= inner);
        },
    }
}

/// A variant is read back as it was written, whatever follows it: its
/// discriminant first, then its payload, from its frame where the union
/// frames its payloads.
pub proof fn law_variant_roundtrip<T: Roundtrip>(
    tag_kind: Len,
    endian: Endian,
    nest: Option<Nest>,
    tag: u64,
    payload: T,
    attrs: Attrs,
    hinted: bool,
    rest: Seq<u8>,
)
    requires
        tag < crate::bytes::radix(tag_kind.width()),
        match nest {
            None => payload.roundtrips(attrs, hinted) && (T::delimited(attrs) || rest.len() == 0),
            Some(n) => {
                &&& payload.roundtrips(attrs, true)
                &&& payload.encoding(attrs).bytes.len() <= n.kind.max()
                &&& payload.encoding(attrs).bytes.len() <= usize::MAX
            },
        },
    ensures
        ({
            let enc = crate::tagged::variant_encoding(
                tag_kind,
                endian,
                nest,
                tag,
                payload.encoding(attrs),
            );
            let w = tag_kind.width();
            &&& enc.err is None
            &&& enc.bytes.len() >= w
            &&& crate::tagged::tag_parse(tag_kind, endian, enc.bytes + rest) == Parsed::ok(
                Val::Int(tag as int),
                w,
            )
            &&& crate::tagged::payload_parse::<T>(
                nest,
                (enc.bytes + rest).skip(w as int),
                attrs,
                hinted,
            ) == Parsed::ok(payload.value(), (enc.bytes.len() - w) as nat)
        }),
{
    let head = crate::tagged::tag_encoding(tag_kind, endian, tag).bytes;
    let body = crate::tagged::payload_encoding(nest, payload.encoding(attrs)).bytes;
    lemma_tag_roundtrip(tag_kind, endian, tag, body + rest);
    lemma_payload_roundtrip(nest, payload, attrs, hinted, rest);
    let input = (head + body) + rest;
    assert(input =~= head + (body + rest));
    assert(input.skip(head.len() as int) =~= body + rest);
}

/// A flag-gated field is read back as it was written: its value where it
/// was present, nothing where it was absent.
pub proof fn law_optional_roundtrip<T: Roundtrip>(
    field: Option<T>,
    attrs: Attrs,
    hinted: bool,
    rest: Seq<u8>,
)
    requires
        field matches Some(v) ==> v.roundtrips(attrs, hinted) && (T::delimited(attrs)
            || rest.len() == 0),
    ensures
        match field {
            Some(v) => crate::flags::parse_optional::<T>(
                true,
                v.encoding(attrs).bytes + rest,
                attrs,
                hinted,
            ) == Parsed::ok(v.value(), v.encoding(attrs).bytes.len()),
            None => crate::flags::parse_optional::<T>(false, rest, attrs, hinted) == Parsed::ok(
                Val::Unit,
                0,
            ),
        },
{
    match field {
        Some(v) => {
            v.lemma_roundtrip(attrs, hinted, rest);
        },
        None => {},
    }
}

/// Decoders whose byte counts are sound: a decode never takes more than the
/// input holds, and a successful one takes at least the stated minimum.
pub trait Bounded: BinDeserialize {
    proof fn lemma_bounds(input: Seq<u8>, attrs: Attrs, hinted: bool)
        ensures
            Self::parse(input, attrs, hinted).consumed <= input.len(),
            Self::parse(input, attrs, hinted).value is Ok ==> Self::parse(
                input,
                attrs,
                hinted,
            ).consumed
                >= Self::min_len(attrs),
    ;
}

impl Bounded for bool {
    proof fn lemma_bounds(input: Seq<u8>, attrs: Attrs, hinted: bool) {
    }
}

impl Bounded for u8 {
    proof fn lemma_bounds(input: Seq<u8>, attrs: Attrs, hinted: bool) {
    }
}

impl Bounded for i8 {
    proof fn lemma_bounds(input: Seq<u8>, attrs: Attrs, hinted: bool) {
    }
}

impl Bounded for u16 {
    proof fn lemma_bounds(input: Seq<u8>, attrs: Attrs, hinted: bool) {
    }
}

impl Bounded for i16 {
    proof fn lemma_bounds(input: Seq<u8>, attrs: Attrs, hinted: bool) {
    }
}

impl Bounded for u32 {
    proof fn lemma_bounds(input: Seq<u8>, attrs: Attrs, hinted: bool) {
    }
}

impl Bounded for i32 {
    proof fn lemma_bounds(input: Seq<u8>, attrs: Attrs, hinted: bool) {
    }
}

impl Bounded for u64 {
    proof fn lemma_bounds(input: Seq<u8>, attrs: Attrs, hinted: bool) {
    }
}

impl Bounded for i64 {
    proof fn lemma_bounds(input: Seq<u8>, attrs: Attrs, hinted: bool) {
    }
}

impl Bounded for () {
    proof fn lemma_bounds(input: Seq<u8>, attrs: Attrs, hinted: bool) {
    }
}

impl<T: Bounded> Bounded for Box<T> {
    proof fn lemma_bounds(input: Seq<u8>, attrs: Attrs, hinted: bool) {
        T::lemma_bounds(input, attrs, hinted);
    }
}

impl Bounded for String {
    proof fn lemma_bounds(input: Seq<u8>, attrs: Attrs, hinted: bool) {
        crate::text::lemma_find_zero(input);
    }
}

/// Reading a counted run of elements takes no more than the input holds,
/// and, where it succeeds, at least the least size of every element.
pub proof fn lemma_counted_bounds<T: Bounded>(
    input: Seq<u8>,
    attrs: Attrs,
    hinted: bool,
    count: nat,
    acc: Seq<Val>,
)
    ensures
        crate::seq::parse_counted::<T>(input, attrs, hinted, count, acc).consumed <= input.len(),
        crate::seq::parse_counted::<T>(input, attrs, hinted, count, acc).value is Ok
            ==> crate::seq::parse_counted::<T>(input, attrs, hinted, count, acc).consumed >= count
            * T::min_len(attrs),
    decreases count,
{
    if count > 0 {
        let p = T::parse(input, attrs, hinted);
        T::lemma_bounds(input, attrs, hinted);
        match p.value {
            Ok(v) => {
                lemma_counted_bounds::<T>(
                    input.skip(p.consumed as int),
                    attrs,
                    hinted,
                    (count - 1) as nat,
                    acc.push(v),
                );
                let m = T::min_len(attrs);
                assert(count * m == m + (count - 1) * m) by (nonlinear_arith);
            },
            Err(_) => {},
        }
    } else {
        assert(count * T::min_len(attrs) == 0) by (nonlinear_arith)
            requires
                count == 0,
        ;
    }
}

/// Reading elements until the input gives out takes no more than it holds.
pub proof fn lemma_unbounded_bounds<T: Bounded>(
    input: Seq<u8>,
    attrs: Attrs,
    hinted: bool,
    acc: Seq<Val>,
)
    ensures
        crate::seq::parse_unbounded::<T>(input, attrs, hinted, acc).consumed <= input.len(),
    decreases input.len(),
{
    let p = T::parse(input, attrs, hinted);
    T::lemma_bounds(input, attrs, hinted);
    match p.value {
        Ok(v) => {
            if 0 < p.consumed <= input.len() {
                lemma_unbounded_bounds::<T>(
                    input.skip(p.consumed as int),
                    attrs,
                    hinted,
                    acc.push(v),
                );
            }
        },
        Err(_) => {},
    }
}

impl<T: Bounded> Bounded for Vec<T> {
    proof fn lemma_bounds(input: Seq<u8>, attrs: Attrs, hinted: bool) {
        let head = attrs.length_parse(input);
        match head.value {
            Ok(Val::Int(n)) => {
                if n >= 0 {
                    lemma_counted_bounds::<T>(
                        input.skip(head.consumed as int),
                        attrs,
                        hinted,
                        n as nat,
                        Seq::empty(),
                    );
                }
            },
            Ok(_) => {
                lemma_unbounded_bounds::<T>(input, attrs, hinted, Seq::empty());
            },
            Err(_) => {},
        }
    }
}

impl<T: Bounded, const N: usize> Bounded for [T; N] {
    proof fn lemma_bounds(input: Seq<u8>, attrs: Attrs, hinted: bool) {
        lemma_counted_bounds::<T>(input, attrs, hinted, N as nat, Seq::empty());
    }
}

/// The up-front check of a declared length rejects no input that reading the
/// elements one by one would accept: where the declared elements need more
/// bytes than are left, reading them fails.
pub proof fn law_shortfall_is_sound<T: Bounded>(
    body: Seq<u8>,
    attrs: Attrs,
    hinted: bool,
    declared: nat,
    acc: Seq<Val>,
)
    requires
        declared * T::min_len(attrs) > body.len(),
    ensures
        crate::seq::parse_counted::<T>(body, attrs, hinted, declared, acc).value is Err,
{
    lemma_counted_bounds::<T>(body, attrs, hinted, declared, acc);
}

} // verus!
