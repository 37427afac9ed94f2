use binary::attr::{Attrs, Endian, Len};
use binary::flags::{get_optional, FlagsGroup};
use binary::tagged::{decode_fallback, Selection, TaggedUnion, VariantDecl};
use binary::{BinDeserialize, BinError, BinRead, BinSerialize, BinWrite, ByteSource};
use std::fmt::Debug;

fn roundtrip<T>(val: T, bytes: Vec<u8>)
where
    T: BinSerialize + BinDeserialize + PartialEq + Debug + Clone,
{
    assert_eq!(binary::encode_to_bytes(val.clone()), Ok(bytes.clone()));
    assert_eq!(binary::decode_from_bytes::<T>(&bytes), Ok(val));
}

/// A 32-bit float, carried on the wire as its IEEE 754 bit pattern.
#[derive(Debug, Clone, PartialEq)]
struct F32(f32);

impl BinSerialize for F32 {
    fn encode_to<W: BinWrite>(&self, buf: &mut W, attrs: Attrs) -> Result<(), BinError> {
        self.0.to_bits().encode_to(buf, attrs)
    }
}

impl BinDeserialize for F32 {
    fn min_wire_len(attrs: Attrs) -> usize {
        u32::min_wire_len(attrs)
    }

    fn decode_from<R: BinRead>(buf: &mut R, attrs: Attrs) -> Result<Self, BinError> {
        Ok(F32(f32::from_bits(u32::decode_from(buf, attrs)?)))
    }
}

/// A 64-bit float, carried on the wire as its IEEE 754 bit pattern.
#[derive(Debug, Clone, PartialEq)]
struct F64(f64);

impl BinSerialize for F64 {
    fn encode_to<W: BinWrite>(&self, buf: &mut W, attrs: Attrs) -> Result<(), BinError> {
        self.0.to_bits().encode_to(buf, attrs)
    }
}

impl BinDeserialize for F64 {
    fn min_wire_len(attrs: Attrs) -> usize {
        u64::min_wire_len(attrs)
    }

    fn decode_from<R: BinRead>(buf: &mut R, attrs: Attrs) -> Result<Self, BinError> {
        Ok(F64(f64::from_bits(u64::decode_from(buf, attrs)?)))
    }
}

#[test]
fn test_primitive() {
    roundtrip(42u8, vec![42]);
    roundtrip(-5i8, vec![251]);

    roundtrip(42u16, vec![42, 0]);
    roundtrip(-5i16, vec![251, 255]);

    roundtrip(42u32, vec![42, 0, 0, 0]);
    roundtrip(-5i32, vec![251, 255, 255, 255]);

    roundtrip(42u64, vec![42, 0, 0, 0, 0, 0, 0, 0]);
    roundtrip(-5i64, vec![251, 255, 255, 255, 255, 255, 255, 255]);

    roundtrip(true, vec![1]);
    roundtrip(false, vec![0]);

    roundtrip(F32(2.0f32), vec![0, 0, 0, 64]);
    roundtrip(F64(2.0f64), vec![0, 0, 0, 0, 0, 0, 0, 64]);
}

#[test]
fn test_str() {
    roundtrip("".to_string(), vec![0]);

    roundtrip("test".to_string(), vec![116, 101, 115, 116, 0]);
}

#[test]
fn test_vec() {
    roundtrip(Vec::<u8>::new(), vec![]);

    roundtrip(vec![1u8, 2, 3, 4], vec![1, 2, 3, 4]);
    roundtrip(vec![1u16, 2, 3, 4], vec![1, 0, 2, 0, 3, 0, 4, 0]);
}

#[derive(Debug, Clone, PartialEq, Eq)]
struct X {
    a: u16,
    b: String,
    c: Vec<u8>,
    d: Vec<u8>,
    e: u8,
}

impl BinSerialize for X {
    fn encode_to<W: BinWrite>(&self, buf: &mut W, attrs: Attrs) -> Result<(), BinError> {
        self.a.encode_to(buf, attrs)?;
        self.b.encode_to(buf, attrs)?;
        self.c.encode_to(buf, attrs.with_len(Some(Len::U16)))?;
        self.d.encode_to(buf, attrs.with_len(Some(Len::U32)).with_len_endian(Endian::Big))?;
        self.e.encode_to(buf, attrs)
    }
}

impl BinDeserialize for X {
    fn min_wire_len(_attrs: Attrs) -> usize {
        10
    }

    fn decode_from<R: BinRead>(buf: &mut R, attrs: Attrs) -> Result<Self, BinError> {
        let a = u16::decode_from(buf, attrs)?;
        let b = String::decode_from(buf, attrs)?;
        let c = Vec::<u8>::decode_from(buf, attrs.with_len(Some(Len::U16)))?;
        let d = Vec::<u8>::decode_from(
            buf,
            attrs.with_len(Some(Len::U32)).with_len_endian(Endian::Big),
        )?;
        let e = u8::decode_from(buf, attrs)?;
        Ok(X { a, b, c, d, e })
    }
}

#[derive(Debug, Clone, PartialEq, Eq)]
struct Y(u16, String, Vec<u8>);

impl BinSerialize for Y {
    fn encode_to<W: BinWrite>(&self, buf: &mut W, attrs: Attrs) -> Result<(), BinError> {
        self.0.encode_to(buf, attrs)?;
        self.1.encode_to(buf, attrs)?;
        self.2.encode_to(buf, attrs.with_len(Some(Len::U16)))
    }
}

impl BinDeserialize for Y {
    fn min_wire_len(_attrs: Attrs) -> usize {
        5
    }

    fn decode_from<R: BinRead>(buf: &mut R, attrs: Attrs) -> Result<Self, BinError> {
        let a = u16::decode_from(buf, attrs)?;
        let b = String::decode_from(buf, attrs)?;
        let c = Vec::<u8>::decode_from(buf, attrs.with_len(Some(Len::U16)))?;
        Ok(Y(a, b, c))
    }
}

#[test]
fn test_struct() {
    roundtrip(
        X {
            a: 10000,
            b: "test".to_string(),
            c: vec![1, 2, 3, 4],
            d: vec![66],
            e: 42,
        },
        vec![16, 39, 116, 101, 115, 116, 0, 4, 0, 1, 2, 3, 4, 0, 0, 0, 1, 66, 42],
    );

    roundtrip(
        Y(10000, "test".to_string(), vec![1, 2, 3, 4]),
        vec![16, 39, 116, 101, 115, 116, 0, 4, 0, 1, 2, 3, 4],
    );
}

fn plain(discriminant: Option<u64>) -> VariantDecl {
    VariantDecl { discriminant, is_default: false }
}

#[derive(Debug, Clone, PartialEq, Eq)]
enum Plain {
    A,
    B,
    C,
}

impl Plain {
    fn layout() -> TaggedUnion {
        TaggedUnion::new(Len::U8, Endian::Little, &[plain(None), plain(Some(42)), plain(None)])
            .unwrap()
    }
}

impl BinSerialize for Plain {
    fn encode_to<W: BinWrite>(&self, buf: &mut W, _attrs: Attrs) -> Result<(), BinError> {
        let layout = Plain::layout();
        let index = match self {
            Plain::A => 0,
            Plain::B => 1,
            Plain::C => 2,
        };
        layout.encode_tag(buf, layout.discriminant(index).unwrap())
    }
}

impl BinDeserialize for Plain {
    fn min_wire_len(_attrs: Attrs) -> usize {
        1
    }

    fn decode_from<R: BinRead>(buf: &mut R, _attrs: Attrs) -> Result<Self, BinError> {
        match Plain::layout().decode_variant(buf)? {
            (_, Selection::Known(0)) => Ok(Plain::A),
            (_, Selection::Known(1)) => Ok(Plain::B),
            (_, Selection::Known(_)) => Ok(Plain::C),
            (tag, Selection::Fallback) => Err(BinError::VariantNotMatched(tag)),
        }
    }
}

#[test]
fn test_enum_plain() {
    roundtrip(Plain::A, vec![0]);
    roundtrip(Plain::B, vec![42]);
    roundtrip(Plain::C, vec![43]);
}

#[derive(Debug, Clone, PartialEq, Eq)]
enum Fields {
    A,
    B(u8, String),
    C { x: u32, y: u32 },
}

impl Fields {
    fn layout() -> TaggedUnion {
        TaggedUnion::new(Len::U8, Endian::Little, &[plain(None), plain(None), plain(None)]).unwrap()
    }

    fn index(&self) -> usize {
        match self {
            Fields::A => 0,
            Fields::B(_, _) => 1,
            Fields::C { .. } => 2,
        }
    }

    fn encode_payload<W: BinWrite>(&self, buf: &mut W, attrs: Attrs) -> Result<(), BinError> {
        match self {
            Fields::A => Ok(()),
            Fields::B(n, s) => {
                n.encode_to(buf, attrs)?;
                s.encode_to(buf, attrs)
            }
            Fields::C { x, y } => {
                x.encode_to(buf, attrs)?;
                y.encode_to(buf, attrs)
            }
        }
    }

    fn decode_payload<R: BinRead>(
        index: usize,
        buf: &mut R,
        attrs: Attrs,
    ) -> Result<Self, BinError> {
        match index {
            0 => Ok(Fields::A),
            1 => {
                let n = u8::decode_from(buf, attrs)?;
                let s = String::decode_from(buf, attrs)?;
                Ok(Fields::B(n, s))
            }
            _ => {
                let x = u32::decode_from(buf, attrs)?;
                let y = u32::decode_from(buf, attrs)?;
                Ok(Fields::C { x, y })
            }
        }
    }
}

impl BinSerialize for Fields {
    fn encode_to<W: BinWrite>(&self, buf: &mut W, attrs: Attrs) -> Result<(), BinError> {
        let layout = Fields::layout();
        layout.encode_tag(buf, layout.discriminant(self.index()).unwrap())?;
        self.encode_payload(buf, attrs)
    }
}

impl BinDeserialize for Fields {
    fn min_wire_len(_attrs: Attrs) -> usize {
        1
    }

    fn decode_from<R: BinRead>(buf: &mut R, attrs: Attrs) -> Result<Self, BinError> {
        match Fields::layout().decode_variant(buf)? {
            (_, Selection::Known(index)) => Fields::decode_payload(index, buf, attrs),
            (tag, Selection::Fallback) => Err(BinError::VariantNotMatched(tag)),
        }
    }
}

#[test]
fn test_enum_fields() {
    roundtrip(Fields::A, vec![0]);
    roundtrip(
        Fields::B(42, "test".to_string()),
        vec![1, 42, 116, 101, 115, 116, 0],
    );
    roundtrip(
        Fields::C { x: 42, y: 100 },
        vec![2, 42, 0, 0, 0, 100, 0, 0, 0],
    );
}

/// The same variants as `Fields`, each payload framed by a one-byte length.
#[derive(Debug, Clone, PartialEq, Eq)]
struct Nest(Fields);

impl Nest {
    fn layout() -> TaggedUnion {
        Fields::layout().with_nest(Len::U8, Endian::Little)
    }
}

impl BinSerialize for Nest {
    fn encode_to<W: BinWrite>(&self, buf: &mut W, attrs: Attrs) -> Result<(), BinError> {
        let layout = Nest::layout();
        layout.encode_tag(buf, layout.discriminant(self.0.index()).unwrap())?;
        let mut nested: Vec<u8> = Vec::new();
        self.0.encode_payload(&mut nested, attrs)?;
        layout.nest.unwrap().wrap(buf, &nested)
    }
}

impl BinDeserialize for Nest {
    fn min_wire_len(_attrs: Attrs) -> usize {
        2
    }

    fn decode_from<R: BinRead>(buf: &mut R, attrs: Attrs) -> Result<Self, BinError> {
        let layout = Nest::layout();
        match layout.decode_variant(buf)? {
            (_, Selection::Known(index)) => {
                let nested = layout.nest.unwrap().unwrap(buf)?;
                let mut inner = ByteSource::new(&nested);
                Ok(Nest(Fields::decode_payload(index, &mut inner, attrs)?))
            }
            (tag, Selection::Fallback) => Err(BinError::VariantNotMatched(tag)),
        }
    }
}

#[test]
fn test_enum_nested() {
    roundtrip(Nest(Fields::A), vec![0, 0]);
    roundtrip(
        Nest(Fields::B(42, "test".to_string())),
        vec![1, 6, 42, 116, 101, 115, 116, 0],
    );
    roundtrip(
        Nest(Fields::C { x: 42, y: 100 }),
        vec![2, 8, 42, 0, 0, 0, 100, 0, 0, 0],
    );
}

#[derive(Debug, Clone, PartialEq, Eq)]
struct Flags {
    flags: u8,
    field1: Option<u16>,
    field2: Option<u8>,
    field4: Option<String>,
}

impl BinSerialize for Flags {
    fn encode_to<W: BinWrite>(&self, buf: &mut W, attrs: Attrs) -> Result<(), BinError> {
        let mut group: FlagsGroup<u8> = FlagsGroup::new();
        group.put_optional(0x01, &self.field1, attrs)?;
        group.put_optional(0x02, &self.field2, attrs)?;
        group.put_optional(0x04, &self.field4, attrs)?;
        group.finish(buf, attrs)
    }
}

impl BinDeserialize for Flags {
    fn min_wire_len(_attrs: Attrs) -> usize {
        1
    }

    fn decode_from<R: BinRead>(buf: &mut R, attrs: Attrs) -> Result<Self, BinError> {
        let flags = u8::decode_from(buf, attrs)?;
        let field1 = get_optional::<u8, u16, R>(&flags, 0x01, buf, attrs)?;
        let field2 = get_optional::<u8, u8, R>(&flags, 0x02, buf, attrs)?;
        let field4 = get_optional::<u8, String, R>(&flags, 0x04, buf, attrs)?;
        Ok(Flags { flags, field1, field2, field4 })
    }
}

#[test]
fn test_flags() {
    roundtrip(
        Flags {
            flags: 1,
            field1: Some(1000),
            field2: None,
            field4: None,
        },
        vec![1, 232, 3],
    );
    roundtrip(
        Flags {
            flags: 2,
            field1: None,
            field2: Some(42),
            field4: None,
        },
        vec![2, 42],
    );
    roundtrip(
        Flags {
            flags: 4,
            field1: None,
            field2: None,
            field4: Some("test".to_string()),
        },
        vec![4, 116, 101, 115, 116, 0],
    );
    roundtrip(
        Flags {
            flags: 7,
            field1: Some(1000),
            field2: Some(42),
            field4: Some("test".to_string()),
        },
        vec![7, 232, 3, 42, 116, 101, 115, 116, 0],
    );
    assert_eq!(
        binary::encode_to_bytes(Flags {
            flags: 0, // encodes as 7: all three fields are present
            field1: Some(1000),
            field2: Some(42),
            field4: Some("test".to_string())
        }),
        Ok(vec![7, 232, 3, 42, 116, 101, 115, 116, 0])
    );
}

#[derive(Debug, Clone, PartialEq, Eq)]
enum DefaultVariant {
    A(u64),
    B(u32),
    C(u16),
    Unknown(u16, Vec<u8>),
}

impl DefaultVariant {
    fn layout() -> TaggedUnion {
        TaggedUnion::new(
            Len::U16,
            Endian::Big,
            &[
                plain(None),
                plain(None),
                plain(None),
                VariantDecl { discriminant: None, is_default: true },
            ],
        )
        .unwrap()
    }
}

impl BinSerialize for DefaultVariant {
    fn encode_to<W: BinWrite>(&self, buf: &mut W, attrs: Attrs) -> Result<(), BinError> {
        let layout = DefaultVariant::layout();
        match self {
            DefaultVariant::A(v) => {
                layout.encode_tag(buf, layout.discriminant(0).unwrap())?;
                v.encode_to(buf, attrs)
            }
            DefaultVariant::B(v) => {
                layout.encode_tag(buf, layout.discriminant(1).unwrap())?;
                v.encode_to(buf, attrs)
            }
            DefaultVariant::C(v) => {
                layout.encode_tag(buf, layout.discriminant(2).unwrap())?;
                v.encode_to(buf, attrs)
            }
            DefaultVariant::Unknown(tag, raw) => layout.encode_fallback(buf, *tag as u64, raw),
        }
    }
}

impl BinDeserialize for DefaultVariant {
    fn min_wire_len(_attrs: Attrs) -> usize {
        2
    }

    fn decode_from<R: BinRead>(buf: &mut R, attrs: Attrs) -> Result<Self, BinError> {
        match DefaultVariant::layout().decode_variant(buf)? {
            (_, Selection::Known(0)) => Ok(DefaultVariant::A(u64::decode_from(buf, attrs)?)),
            (_, Selection::Known(1)) => Ok(DefaultVariant::B(u32::decode_from(buf, attrs)?)),
            (_, Selection::Known(_)) => Ok(DefaultVariant::C(u16::decode_from(buf, attrs)?)),
            (tag, Selection::Fallback) => {
                Ok(DefaultVariant::Unknown(tag as u16, decode_fallback(buf)?))
            }
        }
    }
}

#[test]
fn test_default_variant() {
    roundtrip(
        DefaultVariant::A(0x1122334455667788),
        vec![0, 0, 0x88, 0x77, 0x66, 0x55, 0x44, 0x33, 0x22, 0x11],
    );
    roundtrip(
        DefaultVariant::B(0x11223344),
        vec![0, 1, 0x44, 0x33, 0x22, 0x11],
    );
    roundtrip(DefaultVariant::C(0x1122), vec![0, 2, 0x22, 0x11]);
    roundtrip(
        DefaultVariant::Unknown(42, vec![1, 2, 3, 4]),
        vec![0, 42, 1, 2, 3, 4],
    );
}

#[derive(PartialEq, Eq, Debug)]
struct TestStruct {
    x: Vec<u8>,
}

impl BinSerialize for TestStruct {
    fn encode_to<W: BinWrite>(&self, buf: &mut W, attrs: Attrs) -> Result<(), BinError> {
        let mut field = attrs;
        field.len = Some(Len::U8);
        self.x.encode_to(buf, field)
    }
}

impl BinDeserialize for TestStruct {
    fn min_wire_len(_attrs: Attrs) -> usize {
        1
    }

    fn decode_from<R: BinRead>(buf: &mut R, attrs: Attrs) -> Result<Self, BinError> {
        let mut field = attrs;
        field.len = Some(Len::U8);
        Ok(TestStruct { x: Vec::<u8>::decode_from(buf, field)? })
    }
}

#[test]
fn test_encode_error() {
    assert_eq!(
        binary::encode_to_bytes(TestStruct { x: vec![0; 256] }),
        Err(binary::BinError::from(u8::try_from(256usize).err().unwrap()))
    );
    assert_eq!(
        binary::encode_to_bytes(TestStruct { x: vec![0; 256] }),
        Err(binary::BinError::IntegerOverflow)
    );
}

#[test]
fn test_decode_error() {
    assert_eq!(
        binary::decode_from_bytes::<TestStruct>(&[3, 1, 2]),
        Err(binary::BinError::InsufficientData(1))
    );
}
