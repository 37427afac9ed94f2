//! Declarative binary encoding and decoding with exact, configurable byte
//! layouts.
//!
//! A value is written to a byte sink ([`BinWrite`]) or read from a byte
//! source ([`BinRead`]) under a policy ([`attr::Attrs`]) that says in which
//! byte order scalars and length fields are laid out and which integer, if
//! any, carries the length of a sequence. The policy is passed by value: a
//! codec of an aggregate hands each field a copy, changed as the field
//! requires, so that nothing a field changes reaches its siblings.
//!
//! - [`BinSerialize`] and [`BinDeserialize`] are the two capabilities of a
//!   type; `impls`, `text` and `seq` hold them for scalars, booleans, text,
//!   sequences, arrays, boxes and the unit value.
//! - `tagged` holds the policy of tagged unions: how discriminants are
//!   assigned, written, read and dispatched on, the fallback variant for
//!   unknown discriminants, and the framing of payloads by their length.
//! - `flags` holds flag carriers and the optional fields they gate.
//! - `wire` is the model in which every contract is stated: the bytes an
//!   encode call emits, and what a decode call yields on a given input.
//! - `laws` states what holds of the two directions together.

pub mod attr;
pub mod bytes;
pub mod de;
pub mod error;
pub mod flags;
pub mod impls;
pub mod laws;
mod private;
pub mod seq;
pub mod ser;
pub mod stream_rw;
pub mod tagged;
pub mod text;
pub mod wire;

pub use de::{decode_from_bytes, decode_from_stream, BinDeserialize};
pub use error::{BinError, LayoutError};
pub use flags::{BinFlags, DeOption};
pub use ser::{encode_to_bytes, encode_to_stream, BinSerialize};
pub use stream_rw::{BinRead, BinWrite, BoundedSink, ByteSource};
