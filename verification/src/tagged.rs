//! Tagged unions: discriminants, dispatch, fallback and framed payloads.

use crate::attr::{Attrs, Endian, Len};
use crate::bytes::{uint_from_bytes, uint_to_bytes};
use crate::de::BinDeserialize;
use crate::error::{BinError, LayoutError};
use crate::ser::BinSerialize;
use crate::stream_rw::{BinRead, BinWrite, ByteSource};
use crate::wire::{Encoding, Parsed, Val};
use vstd::prelude::*;

verus! {

/// One variant of a tagged union as it is declared.
#[derive(Debug, Copy, Clone, PartialEq, Eq, Structural)]
pub struct VariantDecl {
    /// The discriminant given for the variant, if one is given.
    pub discriminant: Option<u64>,
    /// Whether the variant is the fallback for unknown discriminants.
    pub is_default: bool,
}

/// What a declared variant is on the wire.
#[derive(Debug, Copy, Clone, PartialEq, Eq, Structural)]
pub enum Slot {
    /// A variant with this discriminant.
    Known(u64),
    /// The fallback variant; it has no discriminant of its own.
    Default,
}

/// What a discriminant read from the wire selects.
#[derive(Debug, Copy, Clone, PartialEq, Eq, Structural)]
pub enum Selection {
    /// The variant declared at this position.
    Known(usize),
    /// The fallback variant.
    Fallback,
}

/// The length prefix that frames the payload of every variant of a union.
#[derive(Debug, Copy, Clone, PartialEq, Eq, Structural)]
pub struct Nest {
    /// The integer that carries the payload's length in bytes.
    pub kind: Len,
    /// Byte order of that integer.
    pub endian: Endian,
}

/// The wire policy of a tagged union: how its discriminant is laid out, what
/// each declared variant is, and whether payloads are framed.
#[derive(Debug, Clone, PartialEq, Eq)]
pub struct TaggedUnion {
    /// Width of the discriminant. Its signedness plays no part on the
    /// wire: a discriminant is kept as the unsigned value of its bytes.
    pub tag: Len,
    /// Byte order of the discriminant.
    pub tag_endian: Endian,
    /// The framing of payloads, if they are framed.
    pub nest: Option<Nest>,
    /// The declared variants, in order.
    pub slots: Vec<Slot>,
}

/// The value of the implicit discriminant counter when variant `i` is
/// reached: it starts at zero and stands one past the discriminant of the
/// last variant before `i` that is not the fallback.
pub open spec fn counter_before(decls: Seq<VariantDecl>, i: nat) -> nat
    decreases i,
{
    if i == 0 {
        0
    } else {
        let j = (i - 1) as nat;
        if decls[j as int].is_default {
            counter_before(decls, j)
        } else {
            match decls[j as int].discriminant {
                Some(v) => v as nat + 1,
                None => counter_before(decls, j) + 1,
            }
        }
    }
}

/// The discriminant of variant `i`: the one given for it, or the counter.
pub open spec fn discriminant_at(decls: Seq<VariantDecl>, i: int) -> nat {
    match decls[i].discriminant {
        Some(v) => v as nat,
        None => counter_before(decls, i as nat),
    }
}

/// How many variants are marked as the default.
pub open spec fn default_count(decls: Seq<VariantDecl>) -> nat
    decreases decls.len(),
{
    if decls.len() == 0 {
        0
    } else {
        default_count(decls.drop_last()) + if decls.last().is_default {
            1nat
        } else {
            0nat
        }
    }
}

/// Whether some variant's discriminant does not fit in 64 bits.
pub open spec fn overflows(decls: Seq<VariantDecl>) -> bool {
    exists|i: int|
        0 <= i < decls.len() && !(#[trigger] decls[i]).is_default && discriminant_at(decls, i)
            > u64::MAX
}

/// What variant `i` is on the wire.
pub open spec fn slot_at(decls: Seq<VariantDecl>, i: int) -> Slot {
    if decls[i].is_default {
        Slot::Default
    } else {
        Slot::Known(discriminant_at(decls, i) as u64)
    }
}

/// Whether `slots` are the declared variants `decls` with their discriminants.
pub open spec fn slots_match(slots: Seq<Slot>, decls: Seq<VariantDecl>) -> bool {
    &&& slots.len() == decls.len()
    &&& forall|i: int| 0 <= i < slots.len() ==> #[trigger] slots[i] == slot_at(decls, i)
}

/// Whether some variant has the discriminant `tag`.
pub open spec fn knows(slots: Seq<Slot>, tag: u64) -> bool {
    exists|i: int| 0 <= i < slots.len() && #[trigger] slots[i] == Slot::Known(tag)
}

/// Whether a fallback variant is declared.
pub open spec fn has_default(slots: Seq<Slot>) -> bool {
    exists|i: int| 0 <= i < slots.len() && #[trigger] slots[i] == Slot::Default
}

/// The outcome `r` of dispatching on `tag`: the first declared variant with
/// that discriminant; failing that the fallback; failing that an error that
/// names the discriminant.
pub open spec fn selects(slots: Seq<Slot>, tag: u64, r: Result<Selection, BinError>) -> bool {
    match r {
        Ok(Selection::Known(i)) => {
            &&& i < slots.len()
            &&& slots[i as int] == Slot::Known(tag)
            &&& forall|j: int| 0 <= j < i ==> #[trigger] slots[j] != Slot::Known(tag)
        },
        Ok(Selection::Fallback) => !knows(slots, tag) && has_default(slots),
        Err(e) => !knows(slots, tag) && !has_default(slots) && e == BinError::VariantNotMatched(
            tag,
        ),
    }
}

/// A framed payload on the wire: its length, then its bytes.
pub open spec fn frame_encoding(nest: Nest, payload: Seq<u8>) -> Encoding {
    nest.kind.encoding(payload.len() as u64, nest.endian).followed_by(Encoding::ok(payload))
}

/// The content of raw bytes.
pub open spec fn bytes_val(bytes: Seq<u8>) -> Val {
    Val::List(bytes.map_values(|b: u8| Val::Int(b as int)))
}

/// Reading a framed payload: the length, then exactly that many bytes.
pub open spec fn parse_frame(nest: Nest, input: Seq<u8>) -> Parsed {
    let head = nest.kind.parse(input, nest.endian);
    match head.value {
        Ok(Val::Int(n)) => if n > usize::MAX {
            Parsed::fail(BinError::IntegerOverflow, head.consumed)
        } else {
            crate::stream_rw::parse_raw(input.skip(head.consumed as int), n as nat).shifted(
                head.consumed,
            )
        },
        _ => head,
    }
}

/// A discriminant on the wire: the bytes of its value in the discriminant's
/// width, whatever the signedness of the kind; a value that needs more bytes
/// than that is an `IntegerOverflow`.
pub open spec fn tag_encoding(tag_kind: Len, endian: Endian, tag: u64) -> Encoding {
    if tag >= crate::bytes::radix(tag_kind.width()) {
        Encoding::fail(BinError::IntegerOverflow)
    } else {
        crate::stream_rw::uint_encoding(tag as nat, tag_kind.width(), endian)
    }
}

/// Reading a discriminant: the plain value of as many bytes as the
/// discriminant is wide. Every value is accepted; only a lack of bytes fails.
pub open spec fn tag_parse(tag_kind: Len, endian: Endian, input: Seq<u8>) -> Parsed {
    crate::stream_rw::parse_uint(input, tag_kind.width(), endian)
}

/// The payload of a variant on the wire: as it is, or framed where the union
/// frames its payloads. A payload that cannot be encoded emits nothing of a
/// frame.
pub open spec fn payload_encoding(nest: Option<Nest>, payload: Encoding) -> Encoding {
    match nest {
        None => payload,
        Some(n) => match payload.err {
            Some(e) => Encoding::fail(e),
            None => frame_encoding(n, payload.bytes),
        },
    }
}

/// A variant on the wire: its discriminant, then its payload.
pub open spec fn variant_encoding(
    tag_kind: Len,
    endian: Endian,
    nest: Option<Nest>,
    tag: u64,
    payload: Encoding,
) -> Encoding {
    tag_encoding(tag_kind, endian, tag).followed_by(payload_encoding(nest, payload))
}

/// Reading the payload of a variant: from the input as it is, or, where the
/// union frames its payloads, from the bytes of the frame alone, whose number
/// is known; the frame is taken whole, whatever the payload takes of it.
pub open spec fn payload_parse<T: BinDeserialize>(
    nest: Option<Nest>,
    input: Seq<u8>,
    attrs: Attrs,
    hinted: bool,
) -> Parsed {
    match nest {
        None => T::parse(input, attrs, hinted),
        Some(n) => {
            let frame = parse_frame(n, input);
            match frame.value {
                Err(e) => frame,
                Ok(_) => Parsed {
                    value: T::parse(
                        input.subrange(n.kind.width() as int, frame.consumed as int),
                        attrs,
                        true,
                    ).value,
                    consumed: frame.consumed,
                },
            }
        },
    }
}

/// The fallback variant on the wire: the stored discriminant, then the
/// stored bytes, both as they are.
pub open spec fn fallback_encoding(
    tag_kind: Len,
    endian: Endian,
    tag: u64,
    raw: Seq<u8>,
) -> Encoding {
    tag_encoding(tag_kind, endian, tag).followed_by(Encoding::ok(raw))
}

/// Assigns each declared variant its discriminant: counting from zero, and
/// from one past each discriminant that is given. The fallback variant takes
/// no discriminant and does not advance the count.
pub fn assign_discriminants(decls: &[VariantDecl]) -> (r: Result<Vec<Slot>, LayoutError>)
    ensures
        match r {
            Ok(slots) => default_count(decls@) <= 1 && !overflows(decls@) && slots_match(
                slots@,
                decls@,
            ),
            Err(LayoutError::MultipleDefaults) => default_count(decls@) > 1,
            Err(LayoutError::DiscriminantOverflow) => default_count(decls@) <= 1 && overflows(
                decls@,
            ),
            Err(_) => false,
        },
{
    let n: usize = decls.len();
    let mut defaults: usize = 0;
    let mut i: usize = 0;
    while i < n
        invariant
            i <= n == decls@.len(),
            defaults == default_count(decls@.take(i as int)),
            defaults <= i,
        decreases n - i,
    {
        proof {
            assert(decls@.take(i + 1).drop_last() =~= decls@.take(i as int));
        }
        if decls[i].is_default {
            defaults = defaults + 1;
        }
        i = i + 1;
    }
    proof {
        assert(decls@.take(n as int) =~= decls@);
    }
    if defaults > 1 {
        return Err(LayoutError::MultipleDefaults);
    }
    let mut slots: Vec<Slot> = Vec::new();
    let mut counter: u128 = 0;
    let mut k: usize = 0;
    while k < n
        invariant
            k <= n == decls@.len(),
            slots@.len() == k,
            default_count(decls@) <= 1,
            counter == counter_before(decls@, k as nat),
            counter <= 0x1_0000_0000_0000_0000,
            forall|j: int| 0 <= j < k ==> #[trigger] slots@[j] == slot_at(decls@, j),
            forall|j: int|
                0 <= j < k && !(#[trigger] decls@[j]).is_default ==> discriminant_at(decls@, j)
                    <= u64::MAX,
        decreases n - k,
    {
        let d = decls[k];
        if d.is_default {
            slots.push(Slot::Default);
        } else {
            let v: u128 = match d.discriminant {
                Some(x) => x as u128,
                None => counter,
            };
            if v > u64::MAX as u128 {
                proof {
                    assert(!decls@[k as int].is_default && discriminant_at(decls@, k as int)
                        > u64::MAX);
                }
                return Err(LayoutError::DiscriminantOverflow);
            }
            slots.push(Slot::Known(v as u64));
            counter = v + 1;
        }
        k = k + 1;
    }
    Ok(slots)
}

impl Nest {
    /// The policy under which a framed payload is a length-prefixed byte
    /// sequence: no other setting than the length field.
    pub fn attrs(&self) -> (a: Attrs)
        ensures
            a == (Attrs { len: Some(self.kind), len_endian: self.endian, endian: Endian::Little }),
    {
        Attrs { len: Some(self.kind), len_endian: self.endian, endian: Endian::Little }
    }

    /// Writes `payload` behind its length.
    pub fn wrap<W: BinWrite>(&self, buf: &mut W, payload: &[u8]) -> (r: Result<(), BinError>)
        ensures
            crate::stream_rw::encode_outcome(
                old(buf).state(),
                final(buf).state(),
                frame_encoding(*self, payload@),
                r,
            ),
    {
        let ghost head = self.kind.encoding(payload@.len() as u64, self.endian);
        match self.kind.encode(payload.len() as u64, buf, self.endian) {
            Ok(()) => {},
            Err(e) => {
                proof {
                    crate::stream_rw::lemma_encode_stop(
                        old(buf).state(),
                        buf.state(),
                        head,
                        Encoding::ok(payload@),
                        Err(e),
                    );
                }
                return Err(e);
            },
        }
        let ghost mid = buf.state();
        let r = buf.write_all(payload);
        proof {
            crate::stream_rw::lemma_encode_compose(
                old(buf).state(),
                mid,
                buf.state(),
                head,
                Encoding::ok(payload@),
                r,
            );
        }
        r
    }

    /// Reads a framed payload: exactly as many bytes as its length says, so
    /// that a payload can be skipped or decoded on its own.
    pub fn unwrap<R: BinRead>(&self, buf: &mut R) -> (r: Result<Vec<u8>, BinError>)
        ensures
            crate::stream_rw::decode_outcome(
                old(buf).remaining(),
                final(buf).remaining(),
                parse_frame(*self, old(buf).remaining()),
                crate::stream_rw::lift(r, |v: Vec<u8>| bytes_val(v@)),
            ),
            r matches Ok(v) ==> {
                &&& parse_frame(*self, old(buf).remaining()).consumed == self.kind.width()
                    + v@.len()
                &&& v@ == old(buf).remaining().subrange(
                    self.kind.width() as int,
                    (self.kind.width() + v@.len()) as int,
                )
            },
    {
        let ghost input = buf.remaining();
        let ghost head = self.kind.parse(input, self.endian);
        let declared = match self.kind.decode(buf, self.endian) {
            Ok(n) => n,
            Err(e) => {
                return Err(e);
            },
        };
        if declared > usize::MAX as u64 {
            return Err(BinError::IntegerOverflow);
        }
        let ghost body = buf.remaining();
        let r = buf.read_exact(declared as usize);
        proof {
            let p = crate::stream_rw::parse_raw(body, declared as nat);
            assert(input.skip(head.consumed as int).skip(p.consumed as int) =~= input.skip(
                (p.consumed + head.consumed) as int,
            ));
            if r is Ok {
                assert(input.skip(head.consumed as int).take(declared as int) =~= input.subrange(
                    head.consumed as int,
                    head.consumed + declared,
                ));
            }
        }
        r
    }
}

impl TaggedUnion {
    /// The policy of a union with the given discriminant layout and declared
    /// variants, without framing of payloads.
    pub fn new(tag: Len, tag_endian: Endian, decls: &[VariantDecl]) -> (r: Result<
        TaggedUnion,
        LayoutError,
    >)
        ensures
            match r {
                Ok(u) => {
                    &&& default_count(decls@) <= 1
                    &&& !overflows(decls@)
                    &&& slots_match(u.slots@, decls@)
                    &&& u.tag == tag
                    &&& u.tag_endian == tag_endian
                    &&& u.nest is None
                },
                Err(LayoutError::MultipleDefaults) => default_count(decls@) > 1,
                Err(LayoutError::DiscriminantOverflow) => default_count(decls@) <= 1 && overflows(
                    decls@,
                ),
                Err(_) => false,
            },
    {
        match assign_discriminants(decls) {
            Ok(slots) => Ok(TaggedUnion { tag, tag_endian, nest: None, slots }),
            Err(e) => Err(e),
        }
    }

    /// The same union with every payload framed by a length of the given
    /// kind and byte order.
    pub fn with_nest(self, kind: Len, endian: Endian) -> (u: TaggedUnion)
        ensures
            u.nest == Some(Nest { kind, endian }),
            u.tag == self.tag,
            u.tag_endian == self.tag_endian,
            u.slots == self.slots,
    {
        TaggedUnion {
            tag: self.tag,
            tag_endian: self.tag_endian,
            nest: Some(Nest { kind, endian }),
            slots: self.slots,
        }
    }

    /// The policy under which the discriminant is laid out: its byte order,
    /// and nothing of the surrounding field's policy.
    pub fn tag_attrs(&self) -> (a: Attrs)
        ensures
            a == (Attrs { len: None, len_endian: Endian::Little, endian: self.tag_endian }),
    {
        Attrs { len: None, len_endian: Endian::Little, endian: self.tag_endian }
    }

    /// The discriminant of the variant declared at `index`; `None` for the
    /// fallback variant and for a position that is not declared.
    pub fn discriminant(&self, index: usize) -> (d: Option<u64>)
        ensures
            d == (if index < self.slots@.len() {
                match self.slots@[index as int] {
                    Slot::Known(v) => Some(v),
                    Slot::Default => None,
                }
            } else {
                None
            }),
    {
        if index < self.slots.len() {
            match self.slots[index] {
                Slot::Known(v) => Some(v),
                Slot::Default => None,
            }
        } else {
            None
        }
    }

    /// Writes the discriminant `tag` in as many bytes as the discriminant is
    /// wide; one that needs more bytes is an `IntegerOverflow`.
    pub fn encode_tag<W: BinWrite>(&self, buf: &mut W, tag: u64) -> (r: Result<(), BinError>)
        ensures
            crate::stream_rw::encode_outcome(
                old(buf).state(),
                final(buf).state(),
                tag_encoding(self.tag, self.tag_endian, tag),
                r,
            ),
    {
        let width: usize = self.tag.byte_width();
        if width < 8 && tag >= crate::bytes::radix_of(width) {
            proof {
                crate::stream_rw::lemma_wrote_nothing(
                    buf.state(),
                    tag_encoding(self.tag, self.tag_endian, tag),
                );
            }
            return Err(BinError::IntegerOverflow);
        }
        let data = uint_to_bytes(tag, width, self.tag_endian);
        buf.write_all(data.as_slice())
    }

    /// Reads a discriminant: the value of its bytes, whatever it is.
    pub fn decode_tag<R: BinRead>(&self, buf: &mut R) -> (r: Result<u64, BinError>)
        ensures
            crate::stream_rw::decode_outcome(
                old(buf).remaining(),
                final(buf).remaining(),
                tag_parse(self.tag, self.tag_endian, old(buf).remaining()),
                crate::stream_rw::lift(r, |v: u64| Val::Int(v as int)),
            ),
    {
        match buf.read_exact(self.tag.byte_width()) {
            Ok(data) => Ok(uint_from_bytes(data.as_slice(), self.tag_endian)),
            Err(e) => Err(e),
        }
    }

    /// Dispatches on a discriminant: the first declared variant that has it
    /// wins; an unknown one selects the fallback variant, or fails with
    /// `VariantNotMatched` where none is declared.
    pub fn select(&self, tag: u64) -> (r: Result<Selection, BinError>)
        ensures
            selects(self.slots@, tag, r),
    {
        let n: usize = self.slots.len();
        let mut fallback: bool = false;
        let mut i: usize = 0;
        while i < n
            invariant
                i <= n == self.slots@.len(),
                forall|j: int| 0 <= j < i ==> #[trigger] self.slots@[j] != Slot::Known(tag),
                fallback == has_default(self.slots@.take(i as int)),
            decreases n - i,
        {
            let ghost before = self.slots@.take(i as int);
            let ghost after = self.slots@.take(i + 1);
            match self.slots[i] {
                Slot::Known(v) => {
                    if v == tag {
                        return Ok(Selection::Known(i));
                    }
                    proof {
                        if has_default(after) {
                            let j = choose|j: int|
                                0 <= j < after.len() && #[trigger] after[j] == Slot::Default;
                            assert(before[j] == Slot::Default);
                        }
                        if has_default(before) {
                            let j = choose|j: int|
                                0 <= j < before.len() && #[trigger] before[j] == Slot::Default;
                            assert(after[j] == Slot::Default);
                        }
                    }
                },
                Slot::Default => {
                    proof {
                        assert(after[i as int] == Slot::Default);
                    }
                    fallback = true;
                },
            }
            i = i + 1;
        }
        proof {
            assert(self.slots@.take(n as int) =~= self.slots@);
        }
        if fallback {
            Ok(Selection::Fallback)
        } else {
            Err(BinError::VariantNotMatched(tag))
        }
    }

    /// Reads a discriminant and dispatches on it.
    pub fn decode_variant<R: BinRead>(&self, buf: &mut R) -> (r: Result<(u64, Selection), BinError>)
        ensures
            tag_parse(self.tag, self.tag_endian, old(buf).remaining()).consumed <= old(
                buf,
            ).remaining().len(),
            final(buf).remaining() == old(buf).remaining().skip(
                tag_parse(self.tag, self.tag_endian, old(buf).remaining()).consumed as int,
            ),
            match tag_parse(self.tag, self.tag_endian, old(buf).remaining()).value {
                Ok(Val::Int(t)) => selects(
                    self.slots@,
                    t as u64,
                    match r {
                        Ok((_, s)) => Ok(s),
                        Err(e) => Err(e),
                    },
                ) && (r matches Ok((tag, _)) ==> tag == t),
                Ok(_) => false,
                Err(e) => r == Err::<(u64, Selection), BinError>(e),
            },
    {
        match self.decode_tag(buf) {
            Ok(tag) => {
                match self.select(tag) {
                    Ok(s) => Ok((tag, s)),
                    Err(e) => Err(e),
                }
            },
            Err(e) => Err(e),
        }
    }

    /// Writes a variant: the discriminant `tag`, then the payload under
    /// `attrs`. Where the union frames its payloads, the payload is encoded
    /// aside first and written behind its length.
    pub fn encode_variant<T: BinSerialize, W: BinWrite>(
        &self,
        buf: &mut W,
        tag: u64,
        payload: &T,
        attrs: Attrs,
    ) -> (r: Result<(), BinError>)
        ensures
            crate::stream_rw::encode_outcome(
                old(buf).state(),
                final(buf).state(),
                variant_encoding(
                    self.tag,
                    self.tag_endian,
                    self.nest,
                    tag,
                    payload.encoding(attrs),
                ),
                r,
            ),
    {
        let ghost head = tag_encoding(self.tag, self.tag_endian, tag);
        let ghost body = payload_encoding(self.nest, payload.encoding(attrs));
        match self.encode_tag(buf, tag) {
            Ok(()) => {},
            Err(e) => {
                proof {
                    crate::stream_rw::lemma_encode_stop(
                        old(buf).state(),
                        buf.state(),
                        head,
                        body,
                        Err(e),
                    );
                }
                return Err(e);
            },
        }
        let ghost mid = buf.state();
        let r = match self.nest {
            None => payload.encode_to(buf, attrs),
            Some(n) => {
                let mut aside: Vec<u8> = Vec::new();
                match payload.encode_to(&mut aside, attrs) {
                    Ok(()) => {
                        proof {
                            assert(aside@ =~= payload.encoding(attrs).bytes);
                        }
                        n.wrap(buf, aside.as_slice())
                    },
                    Err(e) => {
                        proof {
                            crate::stream_rw::lemma_wrote_nothing(buf.state(), body);
                        }
                        Err(e)
                    },
                }
            },
        };
        proof {
            crate::stream_rw::lemma_encode_compose(
                old(buf).state(),
                mid,
                buf.state(),
                head,
                body,
                r,
            );
        }
        r
    }

    /// Reads the payload of a variant under `attrs`. Where the union frames
    /// its payloads, the frame is taken whole and the payload is decoded from
    /// its bytes alone.
    pub fn decode_payload<T: BinDeserialize, R: BinRead>(&self, buf: &mut R, attrs: Attrs) -> (r:
        Result<T, BinError>)
        ensures
            crate::stream_rw::decode_outcome(
                old(buf).remaining(),
                final(buf).remaining(),
                payload_parse::<T>(self.nest, old(buf).remaining(), attrs, R::knows_length()),
                crate::stream_rw::lift(r, |v: T| v.value()),
            ),
    {
        match self.nest {
            None => T::decode_from(buf, attrs),
            Some(n) => {
                let ghost input = buf.remaining();
                let ghost frame = parse_frame(n, input);
                match n.unwrap(buf) {
                    Ok(bytes) => {
                        let mut inner = ByteSource::new(bytes.as_slice());
                        T::decode_from(&mut inner, attrs)
                    },
                    Err(e) => Err(e),
                }
            },
        }
    }

    /// Writes the fallback variant: the stored discriminant, then the stored
    /// bytes, neither reinterpreted.
    pub fn encode_fallback<W: BinWrite>(&self, buf: &mut W, tag: u64, raw: &[u8]) -> (r: Result<
        (),
        BinError,
    >)
        ensures
            crate::stream_rw::encode_outcome(
                old(buf).state(),
                final(buf).state(),
                fallback_encoding(self.tag, self.tag_endian, tag, raw@),
                r,
            ),
    {
        let ghost head = tag_encoding(self.tag, self.tag_endian, tag);
        match self.encode_tag(buf, tag) {
            Ok(()) => {},
            Err(e) => {
                proof {
                    crate::stream_rw::lemma_encode_stop(
                        old(buf).state(),
                        buf.state(),
                        head,
                        Encoding::ok(raw@),
                        Err(e),
                    );
                }
                return Err(e);
            },
        }
        let ghost mid = buf.state();
        let r = buf.write_all(raw);
        proof {
            crate::stream_rw::lemma_encode_compose(
                old(buf).state(),
                mid,
                buf.state(),
                head,
                Encoding::ok(raw@),
                r,
            );
        }
        r
    }
}

/// Reads the payload of the fallback variant: every byte that is left.
pub fn decode_fallback<R: BinRead>(buf: &mut R) -> (r: Result<Vec<u8>, BinError>)
    ensures
        r matches Ok(v) && v@ == old(buf).remaining(),
        final(buf).remaining() == Seq::<u8>::empty(),
{
    let ghost input = buf.remaining();
    // Where the source knows what it has left, that is taken at once.
    let mut out: Vec<u8> = match buf.read_exact(buf.remaining_hint()) {
        Ok(v) => v,
        Err(_) => Vec::new(),
    };
    proof {
        assert(input.skip(0) =~= input);
        assert(input.take(0) =~= Seq::<u8>::empty());
    }
    loop
        invariant
            input == old(buf).remaining(),
            out@.len() <= input.len(),
            out@ == input.take(out@.len() as int),
            buf.remaining() == input.skip(out@.len() as int),
        decreases input.len() - out@.len(),
    {
        let ghost n = out@.len();
        match buf.get_u8() {
            Ok(b) => {
                out.push(b);
                proof {
                    assert(input.skip(n as int)[0] == input[n as int]);
                    assert(input.skip(n as int).skip(1) =~= input.skip(n as int + 1));
                    assert(out@ =~= input.take(n as int + 1));
                }
            },
            Err(_) => {
                proof {
                    assert(input.skip(n as int).skip(0) =~= input.skip(n as int));
                    assert(input.take(n as int) =~= input);
                    assert(input.skip(n as int) =~= Seq::<u8>::empty());
                }
                return Ok(out);
            },
        }
    }
}

} // verus!
