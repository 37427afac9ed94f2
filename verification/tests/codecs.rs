use binary::attr::{Attrs, Endian, Len};
use binary::{BinDeserialize, BinError, BinRead, BinSerialize, ByteSource};

fn encode_with<T: BinSerialize>(v: &T, attrs: Attrs) -> (Result<(), BinError>, Vec<u8>) {
    let mut buf: Vec<u8> = Vec::new();
    let r = v.encode_to(&mut buf, attrs);
    (r, buf)
}

fn decode_with<T: BinDeserialize>(bytes: &[u8], attrs: Attrs) -> (Result<T, BinError>, usize) {
    let mut src = ByteSource::new(bytes);
    let r = T::decode_from(&mut src, attrs);
    (r, src.remaining_hint())
}

#[test]
fn booleans_are_one_byte() {
    assert_eq!(encode_with(&true, Attrs::zero()), (Ok(()), vec![1]));
    assert_eq!(encode_with(&false, Attrs::zero()), (Ok(()), vec![0]));
    assert_eq!(decode_with::<bool>(&[0], Attrs::zero()), (Ok(false), 0));
    assert_eq!(decode_with::<bool>(&[1], Attrs::zero()), (Ok(true), 0));
    assert_eq!(decode_with::<bool>(&[0x80, 0], Attrs::zero()), (Ok(true), 1));
    assert_eq!(decode_with::<bool>(&[], Attrs::zero()), (Err(BinError::InsufficientData(1)), 0));
}

#[test]
fn scalars_follow_the_configured_byte_order() {
    let big = Attrs::zero().with_endian(Endian::Big);
    assert_eq!(encode_with(&0x0102_0304u32, big), (Ok(()), vec![1, 2, 3, 4]));
    assert_eq!(encode_with(&-2i32, big), (Ok(()), vec![0xff, 0xff, 0xff, 0xfe]));
    assert_eq!(encode_with(&0x0102_0304_0506_0708u64, big).1, vec![1, 2, 3, 4, 5, 6, 7, 8]);
    assert_eq!(encode_with(&-2i64, big).1, vec![0xff, 0xff, 0xff, 0xff, 0xff, 0xff, 0xff, 0xfe]);
    assert_eq!(encode_with(&-2i16, big).1, vec![0xff, 0xfe]);
    assert_eq!(decode_with::<i16>(&[0xff, 0xfe], big), (Ok(-2), 0));
    assert_eq!(decode_with::<i32>(&[0x80, 0, 0, 0], big), (Ok(i32::MIN), 0));
    assert_eq!(
        decode_with::<i64>(&[0x7f, 0xff, 0xff, 0xff, 0xff, 0xff, 0xff, 0xff], big),
        (Ok(i64::MAX), 0)
    );
    assert_eq!(decode_with::<u64>(&[0, 0, 0, 0, 0, 0, 1, 0], big), (Ok(256), 0));
    // One-byte scalars have no byte order.
    assert_eq!(encode_with(&0x7fu8, big), encode_with(&0x7fu8, Attrs::zero()));
    assert_eq!(encode_with(&-128i8, big), (Ok(()), vec![0x80]));
    assert_eq!(decode_with::<i8>(&[0x80], big), (Ok(-128), 0));
    // The length policy does not touch scalars.
    let prefixed = Attrs::zero().with_len(Some(Len::U32));
    assert_eq!(encode_with(&7u16, prefixed), (Ok(()), vec![7, 0]));
}

#[test]
fn text_is_utf8_with_a_terminator() {
    let s = "\u{e9}\u{20ac}\u{1f600}".to_string();
    let expected = vec![0xc3, 0xa9, 0xe2, 0x82, 0xac, 0xf0, 0x9f, 0x98, 0x80, 0];
    assert_eq!(encode_with(&s, Attrs::zero()), (Ok(()), expected.clone()));
    assert_eq!(encode_with(&s.as_str(), Attrs::zero()), (Ok(()), expected.clone()));
    assert_eq!(decode_with::<String>(&expected, Attrs::zero()), (Ok(s), 0));
}

#[test]
fn text_that_is_not_utf8_is_rejected() {
    assert_eq!(decode_with::<String>(&[0xff, 0], Attrs::zero()), (Err(BinError::InvalidUtf8), 0));
    // A truncated two-byte character.
    assert_eq!(
        decode_with::<String>(&[0xc3, 0, 7], Attrs::zero()),
        (Err(BinError::InvalidUtf8), 1)
    );
    // An overlong encoding of '/'.
    assert_eq!(
        decode_with::<String>(&[0xc0, 0xaf, 0], Attrs::zero()),
        (Err(BinError::InvalidUtf8), 0)
    );
}

#[test]
fn arrays_have_no_length_prefix() {
    let attrs = Attrs::zero().with_len(Some(Len::U8));
    let a: [u16; 3] = [1, 2, 3];
    assert_eq!(encode_with(&a, attrs), (Ok(()), vec![1, 0, 2, 0, 3, 0]));
    assert_eq!(decode_with::<[u16; 3]>(&[1, 0, 2, 0, 3, 0, 4], attrs), (Ok(a), 1));
    assert_eq!(
        decode_with::<[u16; 3]>(&[1, 0, 2, 0, 3], attrs),
        (Err(BinError::InsufficientData(1)), 1)
    );
    let empty: [u32; 0] = [];
    assert_eq!(encode_with(&empty, attrs), (Ok(()), vec![]));
    assert_eq!(decode_with::<[u32; 0]>(&[5], attrs), (Ok(empty), 1));
    // The elements of an array take the policy of the array.
    let rows: [Vec<u8>; 2] = [vec![7], vec![8, 9]];
    assert_eq!(encode_with(&rows, attrs), (Ok(()), vec![1, 7, 2, 8, 9]));
    assert_eq!(decode_with::<[Vec<u8>; 2]>(&[1, 7, 2, 8, 9], attrs), (Ok(rows), 0));
}

#[test]
fn wrappers_add_no_bytes() {
    let b: Box<u32> = Box::new(0x0102_0304);
    assert_eq!(encode_with(&b, Attrs::zero()), (Ok(()), vec![4, 3, 2, 1]));
    assert_eq!(decode_with::<Box<u32>>(&[4, 3, 2, 1], Attrs::zero()), (Ok(b), 0));
    let v: Vec<u8> = vec![1, 2];
    assert_eq!(encode_with(&&v, Attrs::zero()), (Ok(()), vec![1, 2]));
    let nested: Box<Box<String>> = Box::new(Box::new("x".to_string()));
    assert_eq!(encode_with(&nested, Attrs::zero()), (Ok(()), vec![b'x', 0]));
    assert_eq!(decode_with::<Box<Box<String>>>(&[b'x', 0], Attrs::zero()), (Ok(nested), 0));
}

#[test]
fn unit_takes_and_gives_nothing() {
    assert_eq!(encode_with(&(), Attrs::zero()), (Ok(()), vec![]));
    assert_eq!(decode_with::<()>(&[1, 2], Attrs::zero()), (Ok(()), 2));
    assert_eq!(decode_with::<()>(&[], Attrs::zero()), (Ok(()), 0));
    // With a length prefix, a sequence of units is its length alone.
    let attrs = Attrs::zero().with_len(Some(Len::U8));
    assert_eq!(encode_with(&vec![(), (), ()], attrs), (Ok(()), vec![3]));
    assert_eq!(decode_with::<Vec<()>>(&[3, 9], attrs), (Ok(vec![(), (), ()]), 1));
}

#[test]
fn least_sizes() {
    let zero = Attrs::zero();
    let prefixed = Attrs::zero().with_len(Some(Len::U32));
    assert_eq!(bool::min_wire_len(zero), 1);
    assert_eq!(u8::min_wire_len(zero), 1);
    assert_eq!(i8::min_wire_len(zero), 1);
    assert_eq!(u16::min_wire_len(zero), 2);
    assert_eq!(i16::min_wire_len(zero), 2);
    assert_eq!(u32::min_wire_len(zero), 4);
    assert_eq!(i32::min_wire_len(zero), 4);
    assert_eq!(u64::min_wire_len(zero), 8);
    assert_eq!(i64::min_wire_len(zero), 8);
    assert_eq!(<()>::min_wire_len(zero), 0);
    assert_eq!(String::min_wire_len(zero), 1);
    assert_eq!(Box::<u32>::min_wire_len(zero), 4);
    assert_eq!(Vec::<u64>::min_wire_len(zero), 0);
    assert_eq!(Vec::<u64>::min_wire_len(prefixed), 4);
    assert_eq!(<[u16; 5]>::min_wire_len(zero), 10);
    assert_eq!(<[Vec<u8>; 3]>::min_wire_len(prefixed), 12);
    assert_eq!(<[(); 9]>::min_wire_len(zero), 0);
}

#[test]
fn every_length_kind_in_both_orders() {
    let kinds = [
        (Len::U8, 1usize),
        (Len::I8, 1),
        (Len::U16, 2),
        (Len::I16, 2),
        (Len::U32, 4),
        (Len::I32, 4),
        (Len::U64, 8),
        (Len::I64, 8),
    ];
    for (kind, width) in kinds {
        assert_eq!(kind.byte_width(), width);
        for endian in [Endian::Little, Endian::Big] {
            let mut buf: Vec<u8> = Vec::new();
            assert_eq!(kind.encode(0x45, &mut buf, endian), Ok(()));
            let mut expected = vec![0u8; width];
            match endian {
                Endian::Little => expected[0] = 0x45,
                Endian::Big => expected[width - 1] = 0x45,
            }
            assert_eq!(buf, expected);
            let mut src = ByteSource::new(&buf);
            assert_eq!(kind.decode(&mut src, endian), Ok(0x45));
            assert_eq!(src.remaining_hint(), 0);

            let mut buf: Vec<u8> = Vec::new();
            assert_eq!(kind.encode(kind.limit(), &mut buf, endian), Ok(()));
            let mut src = ByteSource::new(&buf);
            assert_eq!(kind.decode(&mut src, endian), Ok(kind.limit()));
            if kind.limit() < u64::MAX {
                let mut buf: Vec<u8> = Vec::new();
                assert_eq!(
                    kind.encode(kind.limit() + 1, &mut buf, endian),
                    Err(BinError::IntegerOverflow)
                );
                assert!(buf.is_empty());
            }
            let short = vec![0u8; width - 1];
            let mut src = ByteSource::new(&short);
            assert_eq!(kind.decode(&mut src, endian), Err(BinError::InsufficientData(1)));
            assert_eq!(src.remaining_hint(), width - 1);
        }
    }
    assert_eq!(Len::U8.limit(), 255);
    assert_eq!(Len::I8.limit(), 127);
    assert_eq!(Len::U16.limit(), 65535);
    assert_eq!(Len::I16.limit(), 32767);
    assert_eq!(Len::U32.limit(), 4294967295);
    assert_eq!(Len::I32.limit(), 2147483647);
    assert_eq!(Len::U64.limit(), u64::MAX);
    assert_eq!(Len::I64.limit(), i64::MAX as u64);
}

#[test]
fn length_of_a_signed_kind_must_not_be_negative() {
    let data = [0xffu8, 0xff];
    let mut src = ByteSource::new(&data);
    assert_eq!(Len::I16.decode(&mut src, Endian::Little), Err(BinError::IntegerOverflow));
    assert_eq!(src.remaining_hint(), 0);
    let mut src = ByteSource::new(&data);
    assert_eq!(Len::U16.decode(&mut src, Endian::Little), Ok(0xffff));
}

#[test]
fn attrs_are_passed_by_value() {
    let zero = Attrs::zero();
    assert_eq!(zero, Attrs { len: None, len_endian: Endian::Little, endian: Endian::Little });
    let a = zero.with_endian(Endian::Big);
    let b = a.with_len(Some(Len::I32));
    let c = b.with_len_endian(Endian::Big);
    assert_eq!(zero.endian, Endian::Little);
    assert_eq!(a, Attrs { len: None, len_endian: Endian::Little, endian: Endian::Big });
    assert_eq!(b, Attrs { len: Some(Len::I32), len_endian: Endian::Little, endian: Endian::Big });
    assert_eq!(c, Attrs { len: Some(Len::I32), len_endian: Endian::Big, endian: Endian::Big });
    assert_eq!(c.with_len(None).len, None);
    let mut buf: Vec<u8> = Vec::new();
    assert_eq!(c.encode_length(&mut buf, 0x0102), Ok(()));
    assert_eq!(buf, vec![0, 0, 1, 2]);
    let mut src = ByteSource::new(&buf);
    assert_eq!(c.decode_length(&mut src), Ok(Some(0x0102)));
    let mut src = ByteSource::new(&buf[..3]);
    assert_eq!(c.decode_length(&mut src), Err(BinError::InsufficientData(1)));
}
