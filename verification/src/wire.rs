//! The mathematical model of what is written and read.

use crate::error::BinError;
use vstd::prelude::*;

verus! {

/// The mathematical content of a decoded value, independent of the Rust type
/// that holds it.
pub enum Val {
    /// Nothing: the unit value, or a field that is absent.
    Unit,
    /// A truth value.
    Bool(bool),
    /// An integer of any width and signedness.
    Int(int),
    /// Text, as its characters.
    Text(Seq<char>),
    /// The contents of a sequence or of an array, in order.
    List(Seq<Val>),
}

/// What an encode call emits: the bytes written before it stopped, and the
/// error that stopped it, if any.
pub struct Encoding {
    /// The bytes emitted, in order.
    pub bytes: Seq<u8>,
    /// The error that ended the encoding early, if one did.
    pub err: Option<BinError>,
}

impl Encoding {
    /// A complete encoding.
    pub open spec fn ok(bytes: Seq<u8>) -> Encoding {
        Encoding { bytes, err: None }
    }

    /// An encoding that failed before anything was written.
    pub open spec fn fail(e: BinError) -> Encoding {
        Encoding { bytes: Seq::empty(), err: Some(e) }
    }

    /// The result an encode call reports for this encoding.
    pub open spec fn result(self) -> Result<(), BinError> {
        match self.err {
            None => Ok(()),
            Some(e) => Err(e),
        }
    }

    /// This encoding followed by `next`; a failure ends the sequence.
    pub open spec fn followed_by(self, next: Encoding) -> Encoding {
        if self.err is Some {
            self
        } else {
            Encoding { bytes: self.bytes + next.bytes, err: next.err }
        }
    }
}

/// What a decode call yields on a given input: the value or the error, and
/// how many bytes it took from the front of the input.
pub struct Parsed {
    /// The content of the decoded value, or the error.
    pub value: Result<Val, BinError>,
    /// The number of bytes taken from the front of the input.
    pub consumed: nat,
}

impl Parsed {
    /// A successful decode of `v` that took `consumed` bytes.
    pub open spec fn ok(v: Val, consumed: nat) -> Parsed {
        Parsed { value: Ok(v), consumed }
    }

    /// A decode that failed with `e` after taking `consumed` bytes.
    pub open spec fn fail(e: BinError, consumed: nat) -> Parsed {
        Parsed { value: Err(e), consumed }
    }

    /// The same outcome, reached after `k` bytes had already been taken.
    pub open spec fn shifted(self, k: nat) -> Parsed {
        Parsed { value: self.value, consumed: self.consumed + k }
    }
}

/// Sequencing of encodings is associative.
pub proof fn lemma_followed_by_assoc(a: Encoding, b: Encoding, c: Encoding)
    ensures
        a.followed_by(b).followed_by(c) == a.followed_by(b.followed_by(c)),
{
    if a.err is None && b.err is None {
        assert((a.bytes + b.bytes) + c.bytes =~= a.bytes + (b.bytes + c.bytes));
    }
}

/// The empty encoding changes nothing, before or behind another.
pub proof fn lemma_followed_by_empty(a: Encoding)
    ensures
        Encoding::ok(Seq::empty()).followed_by(a) == a,
        a.followed_by(Encoding::ok(Seq::empty())) == a,
{
    assert(Seq::<u8>::empty() + a.bytes =~= a.bytes);
    assert(a.bytes + Seq::<u8>::empty() =~= a.bytes);
}

} // verus!
