//! Codecs of sequences and fixed-size arrays.

use crate::attr::Attrs;
use crate::de::BinDeserialize;
use crate::error::BinError;
use crate::ser::BinSerialize;
use crate::stream_rw::{BinRead, BinWrite};
use crate::wire::{Encoding, Parsed, Val};
use vstd::prelude::*;

verus! {

/// The contents of the elements of `s`, in order.
pub open spec fn values_of<T: BinDeserialize>(s: Seq<T>) -> Seq<Val> {
    Seq::new(s.len(), |i: int| s[i].value())
}

/// The elements of `s` encoded one after the other; the first element that
/// fails ends the encoding.
pub open spec fn elems_encoding<T: BinSerialize>(s: Seq<T>, attrs: Attrs) -> Encoding
    decreases s.len(),
{
    if s.len() == 0 {
        Encoding::ok(Seq::empty())
    } else {
        s[0].encoding(attrs).followed_by(elems_encoding(s.drop_first(), attrs))
    }
}

/// A sequence on the wire: the length prefix, where one is configured, then
/// the elements.
pub open spec fn seq_encoding<T: BinSerialize>(s: Seq<T>, attrs: Attrs) -> Encoding {
    attrs.length_encoding(s.len() as u64).followed_by(elems_encoding(s, attrs))
}

/// Reading exactly `count` elements after those in `acc`; the first element
/// that fails ends the read with its error.
pub open spec fn parse_counted<T: BinDeserialize>(
    input: Seq<u8>,
    attrs: Attrs,
    hinted: bool,
    count: nat,
    acc: Seq<Val>,
) -> Parsed
    decreases count,
{
    if count == 0 {
        Parsed::ok(Val::List(acc), 0)
    } else {
        let p = T::parse(input, attrs, hinted);
        match p.value {
            Err(e) => Parsed::fail(e, p.consumed),
            Ok(v) => parse_counted::<T>(
                input.skip(p.consumed as int),
                attrs,
                hinted,
                (count - 1) as nat,
                acc.push(v),
            ).shifted(p.consumed),
        }
    }
}

/// Whether the reader of an unbounded sequence goes on behind an element
/// that took `consumed` bytes: it does where the element is known to have
/// taken input, by the length of the source or, where the source does not
/// know its length, by the least size of an element.
pub open spec fn goes_on<T: BinDeserialize>(
    input: Seq<u8>,
    attrs: Attrs,
    hinted: bool,
    consumed: nat,
) -> bool {
    0 < consumed <= input.len() && (hinted || T::min_len(attrs) > 0)
}

/// Reading elements after those in `acc` until the input gives out: an
/// element that fails with `InsufficientData` ends the sequence cleanly, and
/// an element that is not known to have taken input is its last.
pub open spec fn parse_unbounded<T: BinDeserialize>(
    input: Seq<u8>,
    attrs: Attrs,
    hinted: bool,
    acc: Seq<Val>,
) -> Parsed
    decreases input.len(),
{
    let p = T::parse(input, attrs, hinted);
    match p.value {
        Err(BinError::InsufficientData(_)) => Parsed::ok(Val::List(acc), p.consumed),
        Err(e) => Parsed::fail(e, p.consumed),
        Ok(v) => if goes_on::<T>(input, attrs, hinted, p.consumed) {
            parse_unbounded::<T>(
                input.skip(p.consumed as int),
                attrs,
                hinted,
                acc.push(v),
            ).shifted(p.consumed)
        } else {
            Parsed::ok(Val::List(acc.push(v)), p.consumed)
        },
    }
}

/// Whether the up-front check of a declared length reports a shortfall: the
/// source says how many bytes are left behind the length field, and the
/// `need` of the declared elements at their least size is more.
pub open spec fn short_up_front(hinted: bool, left: nat, need: nat) -> bool {
    hinted && left != 0 && need <= usize::MAX && need > left
}

/// Reading a sequence. With a length prefix: the declared number of
/// elements, after the up-front check where the source gives a hint. Without
/// one: elements until the input gives out.
pub open spec fn parse_seq<T: BinDeserialize>(
    input: Seq<u8>,
    attrs: Attrs,
    hinted: bool,
) -> Parsed {
    let head = attrs.length_parse(input);
    match head.value {
        Err(e) => head,
        Ok(Val::Int(n)) => {
            let body = input.skip(head.consumed as int);
            let need = n * T::min_len(attrs);
            if n > usize::MAX {
                Parsed::fail(BinError::IntegerOverflow, head.consumed)
            } else if short_up_front(hinted, body.len(), need as nat) {
                Parsed::fail(
                    BinError::InsufficientData((need - body.len()) as usize),
                    head.consumed,
                )
            } else {
                parse_counted::<T>(body, attrs, hinted, n as nat, Seq::empty()).shifted(
                    head.consumed,
                )
            }
        },
        Ok(_) => parse_unbounded::<T>(input, attrs, hinted, Seq::empty()),
    }
}

/// Writes the elements of `items` in order, stopping at the first failure.
pub fn encode_elems<T: BinSerialize, W: BinWrite>(items: &[T], buf: &mut W, attrs: Attrs) -> (r:
    Result<(), BinError>)
    ensures
        crate::stream_rw::encode_outcome(
            old(buf).state(),
            final(buf).state(),
            elems_encoding(items@, attrs),
            r,
        ),
{
    let ghost target = elems_encoding(items@, attrs);
    let ghost mut done = Encoding::ok(Seq::empty());
    proof {
        crate::stream_rw::lemma_wrote_nothing(buf.state(), done);
        assert(items@.skip(0) =~= items@);
        crate::wire::lemma_followed_by_empty(target);
    }
    let mut i: usize = 0;
    while i < items.len()
        invariant
            i <= items@.len(),
            target == elems_encoding(items@, attrs),
            crate::stream_rw::encode_outcome(old(buf).state(), buf.state(), done, Ok(())),
            done.followed_by(elems_encoding(items@.skip(i as int), attrs)) == target,
        decreases items@.len() - i,
    {
        let ghost before = buf.state();
        let ghost rest = items@.skip(i as int);
        let ghost tail = elems_encoding(items@.skip(i + 1), attrs);
        let r = items[i].encode_to(buf, attrs);
        proof {
            let x = items@[i as int].encoding(attrs);
            assert(rest[0] == items@[i as int]);
            assert(rest.drop_first() =~= items@.skip(i + 1));
            assert(elems_encoding(rest, attrs) == x.followed_by(tail));
            crate::stream_rw::lemma_encode_compose(
                old(buf).state(),
                before,
                buf.state(),
                done,
                x,
                r,
            );
            crate::wire::lemma_followed_by_assoc(done, x, tail);
            if r is Err {
                crate::stream_rw::lemma_encode_stop(
                    old(buf).state(),
                    buf.state(),
                    done.followed_by(x),
                    tail,
                    r,
                );
            }
            done = done.followed_by(x);
        }
        match r {
            Ok(()) => {},
            Err(e) => {
                return Err(e);
            },
        }
        i = i + 1;
    }
    proof {
        assert(items@.skip(i as int).len() == 0);
        crate::wire::lemma_followed_by_empty(done);
    }
    Ok(())
}

/// Reads exactly `n` elements, stopping at the first failure.
pub fn decode_counted<T: BinDeserialize, R: BinRead>(buf: &mut R, attrs: Attrs, n: usize) -> (r:
    Result<Vec<T>, BinError>)
    ensures
        crate::stream_rw::decode_outcome(
            old(buf).remaining(),
            final(buf).remaining(),
            parse_counted::<T>(
                old(buf).remaining(),
                attrs,
                R::knows_length(),
                n as nat,
                Seq::empty(),
            ),
            crate::stream_rw::lift(r, |v: Vec<T>| Val::List(values_of(v@))),
        ),
        r matches Ok(v) ==> v@.len() == n,
        r is Ok ==> parse_counted::<T>(
            old(buf).remaining(),
            attrs,
            R::knows_length(),
            n as nat,
            Seq::empty(),
        ).consumed >= n * T::min_len(attrs),
{
    let ghost input = buf.remaining();
    let ghost hinted = R::knows_length();
    let ghost target = parse_counted::<T>(input, attrs, hinted, n as nat, Seq::empty());
    let ghost mut used: nat = 0;
    let mut v: Vec<T> = Vec::new();
    proof {
        assert(input.skip(0) =~= input);
        assert(values_of(v@) =~= Seq::<Val>::empty());
        assert(0 * T::min_len(attrs) == 0) by (nonlinear_arith);
    }
    let mut i: usize = 0;
    while i < n
        invariant
            i <= n,
            v@.len() == i,
            hinted == R::knows_length(),
            input == old(buf).remaining(),
            used <= input.len(),
            used >= i * T::min_len(attrs),
            buf.remaining() == input.skip(used as int),
            target == parse_counted::<T>(input, attrs, hinted, n as nat, Seq::empty()),
            parse_counted::<T>(
                buf.remaining(),
                attrs,
                hinted,
                (n - i) as nat,
                values_of(v@),
            ).shifted(used) == target,
        decreases n - i,
    {
        let ghost before = buf.remaining();
        let ghost acc = values_of(v@);
        let ghost p = T::parse(before, attrs, hinted);
        match T::decode_from(buf, attrs) {
            Ok(elem) => {
                v.push(elem);
                proof {
                    assert(values_of(v@) =~= acc.push(elem.value()));
                    assert(input.skip(used as int).skip(p.consumed as int) =~= input.skip(
                        (used + p.consumed) as int,
                    ));
                    let m = T::min_len(attrs);
                    assert((i + 1) * m == i * m + m) by (nonlinear_arith);
                    used = used + p.consumed;
                }
            },
            Err(e) => {
                proof {
                    assert(input.skip(used as int).skip(p.consumed as int) =~= input.skip(
                        (used + p.consumed) as int,
                    ));
                }
                return Err(e);
            },
        }
        i = i + 1;
    }
    Ok(v)
}

/// Reads elements until the source gives out.
pub fn decode_unbounded<T: BinDeserialize, R: BinRead>(buf: &mut R, attrs: Attrs) -> (r: Result<
    Vec<T>,
    BinError,
>)
    ensures
        crate::stream_rw::decode_outcome(
            old(buf).remaining(),
            final(buf).remaining(),
            parse_unbounded::<T>(old(buf).remaining(), attrs, R::knows_length(), Seq::empty()),
            crate::stream_rw::lift(r, |v: Vec<T>| Val::List(values_of(v@))),
        ),
{
    let ghost input = buf.remaining();
    let ghost hinted = R::knows_length();
    let ghost target = parse_unbounded::<T>(input, attrs, hinted, Seq::empty());
    let ghost mut used: nat = 0;
    let mut v: Vec<T> = Vec::new();
    let least: usize = T::min_wire_len(attrs);
    proof {
        assert(input.skip(0) =~= input);
        assert(values_of(v@) =~= Seq::<Val>::empty());
    }
    loop
        invariant
            hinted == R::knows_length(),
            least == T::min_len(attrs),
            input == old(buf).remaining(),
            used <= input.len(),
            buf.remaining() == input.skip(used as int),
            target == parse_unbounded::<T>(input, attrs, hinted, Seq::empty()),
            parse_unbounded::<T>(buf.remaining(), attrs, hinted, values_of(v@)).shifted(used)
                == target,
        decreases buf.remaining().len(),
    {
        let ghost before = buf.remaining();
        let ghost acc = values_of(v@);
        let ghost p = T::parse(before, attrs, hinted);
        let left: usize = buf.remaining_hint();
        let r = T::decode_from(buf, attrs);
        proof {
            assert(input.skip(used as int).skip(p.consumed as int) =~= input.skip(
                (used + p.consumed) as int,
            ));
        }
        match r {
            Ok(elem) => {
                v.push(elem);
                proof {
                    assert(values_of(v@) =~= acc.push(elem.value()));
                }
                // The element is known to have taken input where the hint
                // has gone down, or, without a hint, where no element is
                // empty.
                let moved: bool = if left != 0 {
                    buf.remaining_hint() < left
                } else {
                    least > 0
                };
                proof {
                    assert(moved == goes_on::<T>(before, attrs, hinted, p.consumed));
                }
                if !moved {
                    return Ok(v);
                }
                proof {
                    used = used + p.consumed;
                }
            },
            Err(BinError::InsufficientData(_)) => {
                return Ok(v);
            },
            Err(e) => {
                return Err(e);
            },
        }
    }
}

impl<T: BinSerialize> BinSerialize for Vec<T> {
    open spec fn encoding(&self, attrs: Attrs) -> Encoding {
        seq_encoding(self@, attrs)
    }

    fn encode_to<W: BinWrite>(&self, buf: &mut W, attrs: Attrs) -> (r: Result<(), BinError>) {
        let ghost head = attrs.length_encoding(self@.len() as u64);
        let ghost body = elems_encoding(self@, attrs);
        match attrs.encode_length(buf, self.len() as u64) {
            Ok(()) => {},
            Err(e) => {
                proof {
                    crate::stream_rw::lemma_encode_stop(
                        old(buf).state(),
                        buf.state(),
                        head,
                        body,
                        Err(e),
                    );
                }
                return Err(e);
            },
        }
        let ghost mid = buf.state();
        let r = encode_elems(self.as_slice(), buf, attrs);
        proof {
            crate::stream_rw::lemma_encode_compose(
                old(buf).state(),
                mid,
                buf.state(),
                head,
                body,
                r,
            );
        }
        r
    }
}

impl<T: BinDeserialize> BinDeserialize for Vec<T> {
    open spec fn value(&self) -> Val {
        Val::List(values_of(self@))
    }

    open spec fn parse(input: Seq<u8>, attrs: Attrs, hinted: bool) -> Parsed {
        parse_seq::<T>(input, attrs, hinted)
    }

    open spec fn min_len(attrs: Attrs) -> nat {
        match attrs.len {
            None => 0,
            Some(kind) => kind.width(),
        }
    }

    fn min_wire_len(attrs: Attrs) -> (n: usize) {
        match attrs.len {
            None => 0,
            Some(kind) => kind.byte_width(),
        }
    }

    fn decode_from<R: BinRead>(buf: &mut R, attrs: Attrs) -> (r: Result<Self, BinError>) {
        let ghost input = buf.remaining();
        let ghost head = attrs.length_parse(input);
        let len = match attrs.decode_length(buf) {
            Ok(len) => len,
            Err(e) => {
                return Err(e);
            },
        };
        match len {
            None => {
                proof {
                    assert(input.skip(0) =~= input);
                }
                decode_unbounded::<T, R>(buf, attrs)
            },
            Some(declared) => {
                let ghost body = buf.remaining();
                proof {
                    assert(body.skip(0) =~= body);
                }
                if declared > usize::MAX as u64 {
                    return Err(BinError::IntegerOverflow);
                }
                let n: usize = declared as usize;
                let left: usize = buf.remaining_hint();
                if left != 0 {
                    match n.checked_mul(T::min_wire_len(attrs)) {
                        Some(need) => {
                            if need > left {
                                return Err(BinError::InsufficientData(need - left));
                            }
                        },
                        None => {},
                    }
                }
                let r = decode_counted::<T, R>(buf, attrs, n);
                proof {
                    let p = parse_counted::<T>(
                        body,
                        attrs,
                        R::knows_length(),
                        n as nat,
                        Seq::empty(),
                    );
                    assert(input.skip(head.consumed as int).skip(p.consumed as int) =~= input.skip(
                        (p.consumed + head.consumed) as int,
                    ));
                }
                r
            },
        }
    }
}


/// The conversion of std from `Vec<T>` to `[T; N]`, `TryFrom::try_from`: a
/// vector of exactly `N` elements becomes the array of those elements, in
/// order; a vector of any other length is refused.
#[verifier::external_body]
fn array_from_vec<T, const N: usize>(v: Vec<T>) -> (r: Option<[T; N]>)
    ensures
        match r {
            Some(a) => v@.len() == N && a@ == v@,
            None => v@.len() != N,
        },
{
    match <[T; N]>::try_from(v) {
        Ok(a) => Some(a),
        Err(_) => None,
    }
}

/// `n` times `m`, or the largest `usize` where the product does not fit.
pub open spec fn saturating_product(n: nat, m: nat) -> nat {
    if n * m <= usize::MAX {
        n * m
    } else {
        usize::MAX as nat
    }
}

impl<T: BinSerialize, const N: usize> BinSerialize for [T; N] {
    open spec fn encoding(&self, attrs: Attrs) -> Encoding {
        elems_encoding(self@, attrs)
    }

    fn encode_to<W: BinWrite>(&self, buf: &mut W, attrs: Attrs) -> (r: Result<(), BinError>) {
        encode_elems(self.as_slice(), buf, attrs)
    }
}

impl<T: BinDeserialize, const N: usize> BinDeserialize for [T; N] {
    open spec fn value(&self) -> Val {
        Val::List(values_of(self@))
    }

    open spec fn parse(input: Seq<u8>, attrs: Attrs, hinted: bool) -> Parsed {
        parse_counted::<T>(input, attrs, hinted, N as nat, Seq::empty())
    }

    open spec fn min_len(attrs: Attrs) -> nat {
        saturating_product(N as nat, T::min_len(attrs))
    }

    fn min_wire_len(attrs: Attrs) -> (n: usize) {
        match N.checked_mul(T::min_wire_len(attrs)) {
            Some(n) => n,
            None => usize::MAX,
        }
    }

    fn decode_from<R: BinRead>(buf: &mut R, attrs: Attrs) -> (r: Result<Self, BinError>) {
        match decode_counted::<T, R>(buf, attrs, N) {
            Ok(v) => match array_from_vec::<T, N>(v) {
                Some(a) => Ok(a),
                // Not reached: `v` has exactly `N` elements.
                None => Err(BinError::IntegerOverflow),
            },
            Err(e) => Err(e),
        }
    }
}

} // verus!
