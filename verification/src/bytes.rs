//! Fixed-width integers as bytes, in either byte order.

use crate::attr::Endian;
use vstd::arithmetic::div_mod::lemma_div_denominator;
use vstd::prelude::*;

verus! {

/// 256 to the power `i`, for the byte positions of a 64-bit integer.
pub open spec fn radix(i: nat) -> nat {
    if i == 0 {
        1
    } else if i == 1 {
        0x100
    } else if i == 2 {
        0x1_0000
    } else if i == 3 {
        0x100_0000
    } else if i == 4 {
        0x1_0000_0000
    } else if i == 5 {
        0x100_0000_0000
    } else if i == 6 {
        0x1_0000_0000_0000
    } else if i == 7 {
        0x100_0000_0000_0000
    } else {
        0x1_0000_0000_0000_0000
    }
}

/// The byte of weight `256^i` in `x`.
pub open spec fn byte_at(x: nat, i: nat) -> u8 {
    ((x / radix(i)) % 256) as u8
}

/// The `width` low bytes of `x`, least significant first.
pub open spec fn le_bytes(x: nat, width: nat) -> Seq<u8> {
    Seq::new(width, |i: int| byte_at(x, i as nat))
}

/// The `width` low bytes of `x`, most significant first.
pub open spec fn be_bytes(x: nat, width: nat) -> Seq<u8> {
    Seq::new(width, |i: int| byte_at(x, (width - 1 - i) as nat))
}

/// The `width` low bytes of `x` in the given byte order.
pub open spec fn int_bytes(x: nat, width: nat, endian: Endian) -> Seq<u8> {
    match endian {
        Endian::Little => le_bytes(x, width),
        Endian::Big => be_bytes(x, width),
    }
}

/// The number whose little-endian bytes are `bytes`.
pub open spec fn le_value(bytes: Seq<u8>) -> nat
    decreases bytes.len(),
{
    if bytes.len() == 0 {
        0
    } else {
        bytes[0] as nat + 256 * le_value(bytes.drop_first())
    }
}

/// The number whose big-endian bytes are `bytes`.
pub open spec fn be_value(bytes: Seq<u8>) -> nat
    decreases bytes.len(),
{
    if bytes.len() == 0 {
        0
    } else {
        256 * be_value(bytes.drop_last()) + bytes.last() as nat
    }
}

/// The number whose bytes, in the given order, are `bytes`.
pub open spec fn int_value(bytes: Seq<u8>, endian: Endian) -> nat {
    match endian {
        Endian::Little => le_value(bytes),
        Endian::Big => be_value(bytes),
    }
}

/// The unsigned number with the same `width`-byte two's-complement pattern as `x`.
pub open spec fn to_unsigned(x: int, width: nat) -> nat {
    if x < 0 {
        (x + radix(width)) as nat
    } else {
        x as nat
    }
}

/// The signed number with the same `width`-byte two's-complement pattern as `x`.
pub open spec fn to_signed(x: nat, width: nat) -> int {
    if 2 * x >= radix(width) {
        x - radix(width)
    } else {
        x as int
    }
}

/// Dividing by 256 moves every byte one position down.
pub proof fn lemma_byte_at_shift(x: nat, i: nat)
    requires
        i < 8,
    ensures
        (x / radix(i)) / 256 == x / radix(i + 1),
        byte_at(x / 256, i) == byte_at(x, i + 1),
{
    lemma_div_denominator(x as int, radix(i) as int, 256);
    lemma_div_denominator(x as int, 256, radix(i) as int);
    assert(radix(i) * 256 == radix(i + 1));
    assert(256 * radix(i) == radix(i + 1));
}

/// A number below `256^n` has `n` bytes at most.
pub proof fn lemma_le_value_bound(bytes: Seq<u8>)
    requires
        bytes.len() <= 8,
    ensures
        le_value(bytes) < radix(bytes.len()),
    decreases bytes.len(),
{
    if bytes.len() > 0 {
        lemma_le_value_bound(bytes.drop_first());
        assert(radix((bytes.len() - 1) as nat) * 256 == radix(bytes.len()));
    }
}

/// A number below `256^n` has `n` bytes at most.
pub proof fn lemma_be_value_bound(bytes: Seq<u8>)
    requires
        bytes.len() <= 8,
    ensures
        be_value(bytes) < radix(bytes.len()),
    decreases bytes.len(),
{
    if bytes.len() > 0 {
        lemma_be_value_bound(bytes.drop_last());
        assert(radix((bytes.len() - 1) as nat) * 256 == radix(bytes.len()));
    }
}

/// The bytes of a number in either order give the number back.
pub proof fn lemma_int_value_of_bytes(x: nat, width: nat, endian: Endian)
    requires
        width <= 8,
        x < radix(width),
    ensures
        int_bytes(x, width, endian).len() == width,
        int_value(int_bytes(x, width, endian), endian) == x,
    decreases width,
{
    if width > 0 {
        let w = (width - 1) as nat;
        assert(radix(w) * 256 == radix(width));
        assert(x / 256 < radix(w));
        lemma_int_value_of_bytes(x / 256, w, endian);
        assert forall|i: nat| i < w implies #[trigger] byte_at(x / 256, i) == byte_at(x, i + 1) by {
            lemma_byte_at_shift(x, i);
        }
        match endian {
            Endian::Little => {
                assert(le_bytes(x, width).drop_first() =~= le_bytes(x / 256, w));
            },
            Endian::Big => {
                assert(be_bytes(x, width).drop_last() =~= be_bytes(x / 256, w));
            },
        }
    }
}

/// The value of some bytes, laid out again in the same order, is those bytes.
pub proof fn lemma_bytes_of_int_value(bytes: Seq<u8>, endian: Endian)
    requires
        bytes.len() <= 8,
    ensures
        int_bytes(int_value(bytes, endian), bytes.len(), endian) == bytes,
    decreases bytes.len(),
{
    let n = bytes.len();
    if n > 0 {
        match endian {
            Endian::Little => {
                let rest = bytes.drop_first();
                let x = le_value(bytes);
                lemma_bytes_of_int_value(rest, endian);
                assert(x / 256 == le_value(rest));
                assert forall|i: int| 0 <= i < n implies le_bytes(x, n)[i] == bytes[i] by {
                    if i > 0 {
                        lemma_byte_at_shift(x, (i - 1) as nat);
                        assert(le_bytes(le_value(rest), rest.len())[i - 1] == rest[i - 1]);
                        assert(byte_at(x, i as nat) == byte_at(le_value(rest), (i - 1) as nat));
                        assert(rest[i - 1] == bytes[i]);
                    } else {
                        assert(x % 256 == bytes[0] as nat);
                        assert(byte_at(x, 0) == bytes[0]);
                    }
                }
                assert(le_bytes(x, n) =~= bytes);
            },
            Endian::Big => {
                let rest = bytes.drop_last();
                let x = be_value(bytes);
                lemma_bytes_of_int_value(rest, endian);
                assert(x / 256 == be_value(rest));
                assert forall|i: int| 0 <= i < n implies be_bytes(x, n)[i] == bytes[i] by {
                    if i < n - 1 {
                        lemma_byte_at_shift(x, (n - 2 - i) as nat);
                        assert(be_bytes(be_value(rest), rest.len())[i] == rest[i]);
                        assert(byte_at(x, (n - 1 - i) as nat) == byte_at(
                            be_value(rest),
                            (n - 2 - i) as nat,
                        ));
                        assert(rest[i] == bytes[i]);
                    } else {
                        assert(x % 256 == bytes.last() as nat);
                        assert(byte_at(x, 0) == bytes.last());
                    }
                }
                assert(be_bytes(x, n) =~= bytes);
            },
        }
    } else {
        assert(int_bytes(int_value(bytes, endian), 0, endian) =~= bytes);
    }
}

/// A single byte is its own value in either byte order.
pub proof fn lemma_single_byte(bytes: Seq<u8>)
    requires
        bytes.len() == 1,
    ensures
        le_value(bytes) == bytes[0],
        be_value(bytes) == bytes[0],
{
    reveal_with_fuel(le_value, 2);
    reveal_with_fuel(be_value, 2);
}

/// Two's complement is a bijection between a signed range and its unsigned patterns.
pub proof fn lemma_signed_roundtrip(x: int, width: nat)
    requires
        1 <= width <= 8,
        -(radix(width) as int) <= 2 * x < radix(width),
    ensures
        to_unsigned(x, width) < radix(width),
        to_signed(to_unsigned(x, width), width) == x,
{
}

/// `256^i` as a machine integer.
pub(crate) fn radix_of(i: usize) -> (r: u64)
    requires
        i < 8,
    ensures
        r == radix(i as nat),
{
    if i == 0 {
        1
    } else if i == 1 {
        0x100
    } else if i == 2 {
        0x1_0000
    } else if i == 3 {
        0x100_0000
    } else if i == 4 {
        0x1_0000_0000
    } else if i == 5 {
        0x100_0000_0000
    } else if i == 6 {
        0x1_0000_0000_0000
    } else {
        0x100_0000_0000_0000
    }
}

/// Lays out the `width` low bytes of `x` in the given byte order.
pub fn uint_to_bytes(x: u64, width: usize, endian: Endian) -> (out: Vec<u8>)
    requires
        width <= 8,
    ensures
        out@ == int_bytes(x as nat, width as nat, endian),
{
    let mut out: Vec<u8> = Vec::new();
    let mut i: usize = 0;
    while i < width
        invariant
            i <= width <= 8,
            out@.len() == i,
            forall|j: int|
                0 <= j < i ==> out@[j] == (match endian {
                    Endian::Little => byte_at(x as nat, j as nat),
                    Endian::Big => byte_at(x as nat, (width - 1 - j) as nat),
                }),
        decreases width - i,
    {
        let pos: usize = match endian {
            Endian::Little => i,
            Endian::Big => width - 1 - i,
        };
        let b: u8 = ((x / radix_of(pos)) % 256) as u8;
        out.push(b);
        i = i + 1;
    }
    proof {
        assert(out@ =~= int_bytes(x as nat, width as nat, endian));
    }
    out
}

/// Reads the number that `bytes` spell in the given byte order.
pub fn uint_from_bytes(bytes: &[u8], endian: Endian) -> (x: u64)
    requires
        bytes@.len() <= 8,
    ensures
        x == int_value(bytes@, endian),
        x < radix(bytes@.len()),
{
    let n: usize = bytes.len();
    let mut acc: u64 = 0;
    match endian {
        Endian::Little => {
            let mut i: usize = n;
            while i > 0
                invariant
                    i <= n,
                    n == bytes@.len(),
                    n <= 8,
                    acc == le_value(bytes@.skip(i as int)),
                decreases i,
            {
                i = i - 1;
                proof {
                    let s = bytes@.skip(i as int);
                    assert(s.drop_first() =~= bytes@.skip(i + 1));
                    lemma_le_value_bound(s.drop_first());
                    lemma_le_value_bound(s);
                    assert(radix((s.len() - 1) as nat) * 256 == radix(s.len()));
                }
                acc = acc * 256 + bytes[i] as u64;
            }
            proof {
                assert(bytes@.skip(0) =~= bytes@);
                lemma_le_value_bound(bytes@);
            }
        },
        Endian::Big => {
            let mut i: usize = 0;
            while i < n
                invariant
                    i <= n,
                    n == bytes@.len(),
                    n <= 8,
                    acc == be_value(bytes@.take(i as int)),
                decreases n - i,
            {
                proof {
                    let s = bytes@.take(i + 1);
                    assert(s.drop_last() =~= bytes@.take(i as int));
                    lemma_be_value_bound(s.drop_last());
                    lemma_be_value_bound(s);
                    assert(radix((s.len() - 1) as nat) * 256 == radix(s.len()));
                }
                acc = acc * 256 + bytes[i] as u64;
                i = i + 1;
            }
            proof {
                assert(bytes@.take(n as int) =~= bytes@);
                lemma_be_value_bound(bytes@);
            }
        },
    }
    acc
}

/// The unsigned pattern of a signed number of `width` bytes.
pub(crate) fn unsigned_of(v: i64, width: usize) -> (u: u64)
    requires
        1 <= width <= 8,
        -(radix(width as nat) as int) <= 2 * v < radix(width as nat),
    ensures
        u == to_unsigned(v as int, width as nat),
        u < radix(width as nat),
{
    if v >= 0 {
        v as u64
    } else if width == 8 {
        (v as i128 + 0x1_0000_0000_0000_0000) as u64
    } else {
        (v as i128 + radix_of(width) as i128) as u64
    }
}

/// The signed number that an unsigned pattern of `width` bytes stands for.
pub(crate) fn signed_of(u: u64, width: usize) -> (v: i64)
    requires
        1 <= width <= 8,
        u < radix(width as nat),
    ensures
        v == to_signed(u as nat, width as nat),
        -(radix(width as nat) as int) <= 2 * v < radix(width as nat),
{
    if width == 8 {
        if u >= 0x8000_0000_0000_0000 {
            (u as i128 - 0x1_0000_0000_0000_0000) as i64
        } else {
            u as i64
        }
    } else {
        let r: u64 = radix_of(width);
        if u >= r / 2 {
            (u as i128 - r as i128) as i64
        } else {
            u as i64
        }
    }
}

} // verus!
