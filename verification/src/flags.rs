//! Flag carriers and the optional fields they gate.

use crate::attr::Attrs;
use crate::de::BinDeserialize;
use crate::error::{BinError, LayoutError};
use crate::private::Sealed;
use crate::ser::BinSerialize;
use crate::stream_rw::{BinRead, BinWrite, SinkState};
use crate::wire::{Encoding, Parsed, Val};
use vstd::prelude::*;

verus! {

/// An unsigned integer used as a flags carrier: each bit says whether one
/// optional field is present.
pub trait BinFlags: Sized {
    /// The carrier's value.
    open spec fn bits(&self) -> u64 {
        arbitrary()
    }

    /// The bits that the carrier can hold.
    open spec fn capacity() -> u64 {
        arbitrary()
    }

    /// The carrier with no bit set.
    fn zero() -> (z: Self)
        ensures
            z.bits() == 0,
    ;

    /// Whether any bit of `v` is set in the carrier.
    fn has(&self, v: u64) -> (r: bool)
        ensures
            r == (self.bits() & v & Self::capacity() != 0),
    ;

    /// Sets the bits of `v` that the carrier can hold.
    fn set(&mut self, v: u64)
        ensures
            final(self).bits() == old(self).bits() | (v & Self::capacity()),
    ;
}

impl BinFlags for u8 {
    open spec fn bits(&self) -> u64 {
        *self as u64
    }

    open spec fn capacity() -> u64 {
        0xff
    }

    fn zero() -> (z: Self) {
        0
    }

    fn has(&self, v: u64) -> (r: bool) {
        let s: u8 = *self;
        let low: u8 = #[verifier::truncate] (v as u8);
        proof {
            assert((s & low != 0) == ((s as u64) & v & 0xff != 0)) by (bit_vector)
                requires
                    low == v as u8,
            ;
        }
        (s & low) != 0
    }

    fn set(&mut self, v: u64) {
        let s: u8 = *self;
        let low: u8 = #[verifier::truncate] (v as u8);
        proof {
            assert(((s | low) as u64) == (s as u64) | (v & 0xff)) by (bit_vector)
                requires
                    low == v as u8,
            ;
        }
        *self = s | low;
    }
}

impl BinFlags for u16 {
    open spec fn bits(&self) -> u64 {
        *self as u64
    }

    open spec fn capacity() -> u64 {
        0xffff
    }

    fn zero() -> (z: Self) {
        0
    }

    fn has(&self, v: u64) -> (r: bool) {
        let s: u16 = *self;
        let low: u16 = #[verifier::truncate] (v as u16);
        proof {
            assert((s & low != 0) == ((s as u64) & v & 0xffff != 0)) by (bit_vector)
                requires
                    low == v as u16,
            ;
        }
        (s & low) != 0
    }

    fn set(&mut self, v: u64) {
        let s: u16 = *self;
        let low: u16 = #[verifier::truncate] (v as u16);
        proof {
            assert(((s | low) as u64) == (s as u64) | (v & 0xffff)) by (bit_vector)
                requires
                    low == v as u16,
            ;
        }
        *self = s | low;
    }
}

impl BinFlags for u32 {
    open spec fn bits(&self) -> u64 {
        *self as u64
    }

    open spec fn capacity() -> u64 {
        0xffff_ffff
    }

    fn zero() -> (z: Self) {
        0
    }

    fn has(&self, v: u64) -> (r: bool) {
        let s: u32 = *self;
        let low: u32 = #[verifier::truncate] (v as u32);
        proof {
            assert((s & low != 0) == ((s as u64) & v & 0xffff_ffff != 0)) by (bit_vector)
                requires
                    low == v as u32,
            ;
        }
        (s & low) != 0
    }

    fn set(&mut self, v: u64) {
        let s: u32 = *self;
        let low: u32 = #[verifier::truncate] (v as u32);
        proof {
            assert(((s | low) as u64) == (s as u64) | (v & 0xffff_ffff)) by (bit_vector)
                requires
                    low == v as u32,
            ;
        }
        *self = s | low;
    }
}

impl BinFlags for u64 {
    open spec fn bits(&self) -> u64 {
        *self
    }

    open spec fn capacity() -> u64 {
        0xffff_ffff_ffff_ffff
    }

    fn zero() -> (z: Self) {
        0
    }

    fn has(&self, v: u64) -> (r: bool) {
        let s: u64 = *self;
        proof {
            assert((s & v) == (s & v & 0xffff_ffff_ffff_ffff)) by (bit_vector);
        }
        (s & v) != 0
    }

    fn set(&mut self, v: u64) {
        let s: u64 = *self;
        proof {
            assert((s | v) == (s | (v & 0xffff_ffff_ffff_ffff))) by (bit_vector);
        }
        *self = s | v;
    }
}

/// Names the type inside an `Option`: the type of a flag-gated field once
/// its presence is known.
pub trait DeOption: Sealed {
    type Assoc;
}

impl<T> DeOption for Option<T> {
    type Assoc = T;
}

/// The part a declared field plays in a flags group.
#[derive(Debug, Copy, Clone, PartialEq, Eq, Structural)]
pub enum FieldDecl {
    /// An ordinary field.
    Plain,
    /// The flags carrier.
    Carrier,
    /// An optional field, present where this bit of the carrier is set.
    Gated(u64),
}

/// How many fields are marked as the flags carrier.
pub open spec fn carrier_count(decls: Seq<FieldDecl>) -> nat
    decreases decls.len(),
{
    if decls.len() == 0 {
        0
    } else {
        carrier_count(decls.drop_last()) + if decls.last() is Carrier {
            1nat
        } else {
            0nat
        }
    }
}

/// Whether some flag-gated field stands before any flags carrier.
pub open spec fn gated_before_carrier(decls: Seq<FieldDecl>) -> bool {
    exists|i: int|
        0 <= i < decls.len() && (#[trigger] decls[i]) is Gated && carrier_count(decls.take(i))
            == 0
}

/// Checks the declared fields of an aggregate: every flag-gated field must
/// follow the flags carrier, and there is one carrier at most. Returns the
/// position of the carrier, if there is one.
pub fn check_fields(decls: &[FieldDecl]) -> (r: Result<Option<usize>, LayoutError>)
    ensures
        match r {
            Ok(c) => {
                &&& !gated_before_carrier(decls@)
                &&& carrier_count(decls@) <= 1
                &&& match c {
                    Some(i) => i < decls@.len() && decls@[i as int] is Carrier,
                    None => carrier_count(decls@) == 0,
                }
            },
            Err(LayoutError::FlagBeforeCarrier) => gated_before_carrier(decls@),
            Err(LayoutError::MultipleCarriers) => !gated_before_carrier(decls@) && carrier_count(
                decls@,
            ) > 1,
            Err(_) => false,
        },
{
    let n: usize = decls.len();
    let mut carriers: usize = 0;
    let mut first: Option<usize> = None;
    let mut k: usize = 0;
    while k < n
        invariant
            k <= n == decls@.len(),
            carriers == carrier_count(decls@.take(k as int)),
            carriers <= k,
            first is None <==> carriers == 0,
            first matches Some(i) ==> i < k && decls@[i as int] is Carrier,
            forall|i: int|
                0 <= i < k && (#[trigger] decls@[i]) is Gated ==> carrier_count(decls@.take(i))
                    > 0,
        decreases n - k,
    {
        proof {
            assert(decls@.take(k + 1).drop_last() =~= decls@.take(k as int));
        }
        match decls[k] {
            FieldDecl::Plain => {},
            FieldDecl::Carrier => {
                if first.is_none() {
                    first = Some(k);
                }
                carriers = carriers + 1;
            },
            FieldDecl::Gated(_) => {
                if carriers == 0 {
                    return Err(LayoutError::FlagBeforeCarrier);
                }
            },
        }
        k = k + 1;
    }
    proof {
        assert(decls@.take(n as int) =~= decls@);
    }
    if carriers > 1 {
        Err(LayoutError::MultipleCarriers)
    } else {
        Ok(first)
    }
}

/// The fields that follow a flags carrier, gathered while the carrier is
/// being worked out. The carrier starts at zero and gains the bit of every
/// optional field that is present; it is written before the gathered bytes.
pub struct FlagsGroup<F: BinFlags> {
    /// The carrier as derived so far.
    pub carrier: F,
    /// The bytes of the fields encoded so far.
    pub body: Vec<u8>,
}

impl<F: BinFlags> BinWrite for FlagsGroup<F> {
    open spec fn state(&self) -> SinkState {
        SinkState { written: self.body@, infallible: true }
    }

    fn write_all(&mut self, data: &[u8]) -> (r: Result<(), BinError>)
        ensures
            final(self).carrier == old(self).carrier,
    {
        self.body.write_all(data)
    }
}

/// One flag-gated field as a group meets it: its bit, and the encoding of
/// its value where it is present.
pub struct Gate {
    /// The bit of the carrier that stands for the field.
    pub bit: u64,
    /// The encoding of the field's value, or `None` where the field is absent.
    pub field: Option<Encoding>,
}

/// The gated field with the bit `bit` and the value `field`, as a group
/// meets it under `attrs`.
pub open spec fn gate_of<T: BinSerialize>(bit: u64, field: Option<T>, attrs: Attrs) -> Gate {
    Gate {
        bit,
        field: match field {
            Some(v) => Some(v.encoding(attrs)),
            None => None,
        },
    }
}

/// What a group has gathered: the carrier derived so far and the bytes of
/// the fields encoded so far.
pub struct Gathered {
    /// The carrier's value.
    pub carrier: u64,
    /// The bytes of the fields, in order.
    pub body: Seq<u8>,
}

/// What a group has gathered after it met one more field: a present field
/// adds its bit, as far as the carrier can hold it, and its bytes; an absent
/// one adds nothing.
pub open spec fn gather_one(g: Gathered, gate: Gate, capacity: u64) -> Gathered {
    match gate.field {
        Some(enc) => Gathered {
            carrier: g.carrier | (gate.bit & capacity),
            body: g.body + enc.bytes,
        },
        None => g,
    }
}

/// What a new group has gathered after it met the fields `gates` in order.
pub open spec fn gather(gates: Seq<Gate>, capacity: u64) -> Gathered
    decreases gates.len(),
{
    if gates.len() == 0 {
        Gathered { carrier: 0, body: Seq::empty() }
    } else {
        gather_one(gather(gates.drop_last(), capacity), gates.last(), capacity)
    }
}

/// Meeting one more field is one more step of gathering.
pub proof fn lemma_gather_push(gates: Seq<Gate>, gate: Gate, capacity: u64)
    ensures
        gather(gates.push(gate), capacity) == gather_one(gather(gates, capacity), gate, capacity),
{
    assert(gates.push(gate).drop_last() =~= gates);
}

/// The bytes of the present fields among `gates`, in order.
pub open spec fn present_bytes(gates: Seq<Gate>) -> Seq<u8>
    decreases gates.len(),
{
    if gates.len() == 0 {
        Seq::empty()
    } else {
        present_bytes(gates.drop_last()) + match gates.last().field {
            Some(enc) => enc.bytes,
            None => Seq::empty(),
        }
    }
}

/// A bit is set in the union of two values exactly where it is set in one.
proof fn lemma_or_meets(x: u64, y: u64, b: u64)
    by (bit_vector)
    ensures
        ((x | y) & b != 0) == ((x & b != 0) || (y & b != 0)),
        0u64 & b == 0,
{
}

/// The carrier of a group of any number of gated fields is derived from
/// which of them are present and from nothing else: a bit is set in it
/// exactly where a present field has that bit, and the bytes gathered are
/// those of the present fields in order, none for an absent one.
pub proof fn law_carrier_is_presence(gates: Seq<Gate>, capacity: u64, b: u64)
    ensures
        (gather(gates, capacity).carrier & b != 0) <==> (exists|i: int|
            0 <= i < gates.len() && (#[trigger] gates[i]).field is Some && gates[i].bit
                & capacity & b != 0),
        gather(gates, capacity).body == present_bytes(gates),
    decreases gates.len(),
{
    if gates.len() == 0 {
        lemma_or_meets(0, 0, b);
    } else {
        let init = gates.drop_last();
        let last = gates.last();
        law_carrier_is_presence(init, capacity, b);
        let before = gather(init, capacity).carrier;
        lemma_or_meets(before, last.bit & capacity, b);
        let met = |s: Seq<Gate>|
            exists|i: int|
                0 <= i < s.len() && (#[trigger] s[i]).field is Some && s[i].bit & capacity & b
                    != 0;
        if met(init) {
            let i = choose|i: int|
                0 <= i < init.len() && (#[trigger] init[i]).field is Some && init[i].bit
                    & capacity & b != 0;
            assert(gates[i] == init[i]);
        }
        if met(gates) {
            let i = choose|i: int|
                0 <= i < gates.len() && (#[trigger] gates[i]).field is Some && gates[i].bit
                    & capacity & b != 0;
            if i < init.len() {
                assert(init[i] == gates[i]);
            } else {
                assert(gates[i] == last);
            }
        }
        if last.field is Some && last.bit & capacity & b != 0 {
            assert(gates[gates.len() - 1] == last);
        }
        match last.field {
            Some(enc) => {},
            None => {
                assert(present_bytes(init) + Seq::<u8>::empty() =~= present_bytes(init));
            },
        }
    }
}

impl<F: BinFlags> FlagsGroup<F> {
    /// What the group has gathered.
    pub open spec fn gathered(&self) -> Gathered {
        Gathered { carrier: self.carrier.bits(), body: self.body@ }
    }

    /// A group with no field yet: the carrier is zero, whatever value the
    /// aggregate holds for it.
    pub fn new() -> (g: Self)
        ensures
            g.gathered() == gather(Seq::empty(), F::capacity()),
    {
        FlagsGroup { carrier: F::zero(), body: Vec::new() }
    }

    /// Adds an optional field gated by `bit`: a present value sets the bit
    /// and is encoded; an absent one leaves the group as it is. A group that
    /// had gathered `gather(gates, ..)` has then gathered
    /// `gather(gates.push(..), ..)`, by `lemma_gather_push`.
    pub fn put_optional<T: BinSerialize>(
        &mut self,
        bit: u64,
        field: &Option<T>,
        attrs: Attrs,
    ) -> (r: Result<(), BinError>)
        ensures
            final(self).gathered() == gather_one(
                old(self).gathered(),
                gate_of(bit, *field, attrs),
                F::capacity(),
            ),
            r == (match field {
                Some(v) => v.encoding(attrs).result(),
                None => Ok(()),
            }),
    {
        match field {
            Some(v) => {
                self.carrier.set(bit);
                v.encode_to(&mut self.body, attrs)
            },
            None => Ok(()),
        }
    }

    /// Writes the carrier under `attrs`, then the gathered bytes as they are.
    pub fn finish<W: BinWrite>(self, buf: &mut W, attrs: Attrs) -> (r: Result<(), BinError>) where
        F: BinSerialize,

        ensures
            crate::stream_rw::encode_outcome(
                old(buf).state(),
                final(buf).state(),
                self.carrier.encoding(attrs).followed_by(Encoding::ok(self.body@)),
                r,
            ),
    {
        match self.carrier.encode_to(buf, attrs) {
            Ok(()) => {},
            Err(e) => {
                proof {
                    crate::stream_rw::lemma_encode_stop(
                        old(buf).state(),
                        buf.state(),
                        self.carrier.encoding(attrs),
                        Encoding::ok(self.body@),
                        Err(e),
                    );
                }
                return Err(e);
            },
        }
        let ghost mid = buf.state();
        let r = buf.write_all(self.body.as_slice());
        proof {
            crate::stream_rw::lemma_encode_compose(
                old(buf).state(),
                mid,
                buf.state(),
                self.carrier.encoding(attrs),
                Encoding::ok(self.body@),
                r,
            );
        }
        r
    }
}

/// What reading a field gated by a flag yields: the field's value where the
/// flag is set, nothing where it is not.
pub open spec fn parse_optional<T: BinDeserialize>(
    present: bool,
    input: Seq<u8>,
    attrs: Attrs,
    hinted: bool,
) -> Parsed {
    if present {
        T::parse(input, attrs, hinted)
    } else {
        Parsed::ok(Val::Unit, 0)
    }
}

/// Reads an optional field gated by `bit` of `carrier`: where the bit is set
/// the value is decoded, where it is not the field is absent and no byte is
/// taken.
pub fn get_optional<F: BinFlags, T: BinDeserialize, R: BinRead>(
    carrier: &F,
    bit: u64,
    buf: &mut R,
    attrs: Attrs,
) -> (r: Result<Option<T>, BinError>)
    ensures
        r matches Ok(o) ==> (o is Some) == (carrier.bits() & bit & F::capacity() != 0),
        crate::stream_rw::decode_outcome(
            old(buf).remaining(),
            final(buf).remaining(),
            parse_optional::<T>(
                carrier.bits() & bit & F::capacity() != 0,
                old(buf).remaining(),
                attrs,
                R::knows_length(),
            ),
            match r {
                Ok(Some(v)) => Ok(v.value()),
                Ok(None) => Ok(Val::Unit),
                Err(e) => Err(e),
            },
        ),
{
    if carrier.has(bit) {
        match T::decode_from(buf, attrs) {
            Ok(v) => Ok(Some(v)),
            Err(e) => Err(e),
        }
    } else {
        proof {
            assert(buf.remaining().skip(0) =~= buf.remaining());
        }
        Ok(None)
    }
}

} // verus!
