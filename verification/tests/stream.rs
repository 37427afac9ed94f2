use binary::{BinError, BinRead, BinWrite, ByteSource};

#[test]
fn writers_lay_out_every_width_in_both_orders() {
    let mut s: Vec<u8> = Vec::new();
    s.put_u8(0xfe).unwrap();
    s.put_i8(-2).unwrap();
    assert_eq!(s, vec![0xfe, 0xfe]);

    let mut s: Vec<u8> = Vec::new();
    s.put_u16_be(0x0102).unwrap();
    s.put_u16_le(0x0102).unwrap();
    s.put_i16_be(-2).unwrap();
    s.put_i16_le(-2).unwrap();
    assert_eq!(s, vec![1, 2, 2, 1, 0xff, 0xfe, 0xfe, 0xff]);

    let mut s: Vec<u8> = Vec::new();
    s.put_u32_be(0x0102_0304).unwrap();
    s.put_u32_le(0x0102_0304).unwrap();
    s.put_i32_be(i32::MIN).unwrap();
    s.put_i32_le(i32::MIN).unwrap();
    assert_eq!(s, vec![1, 2, 3, 4, 4, 3, 2, 1, 0x80, 0, 0, 0, 0, 0, 0, 0x80]);

    let mut s: Vec<u8> = Vec::new();
    s.put_u64_be(0x0102_0304_0506_0708).unwrap();
    s.put_u64_le(0x0102_0304_0506_0708).unwrap();
    assert_eq!(s, vec![1, 2, 3, 4, 5, 6, 7, 8, 8, 7, 6, 5, 4, 3, 2, 1]);

    let mut s: Vec<u8> = Vec::new();
    s.put_i64_be(-1).unwrap();
    s.put_i64_le(i64::MIN).unwrap();
    s.put_u64_le(u64::MAX).unwrap();
    s.put_i64_be(i64::MAX).unwrap();
    assert_eq!(
        s,
        vec![
            0xff, 0xff, 0xff, 0xff, 0xff, 0xff, 0xff, 0xff, 0, 0, 0, 0, 0, 0, 0, 0x80, 0xff, 0xff,
            0xff, 0xff, 0xff, 0xff, 0xff, 0xff, 0x7f, 0xff, 0xff, 0xff, 0xff, 0xff, 0xff, 0xff
        ]
    );
}

#[test]
fn readers_mirror_the_writers() {
    let data = [0xfeu8, 0xfe];
    let mut r = ByteSource::new(&data);
    assert_eq!(r.get_u8(), Ok(0xfe));
    assert_eq!(r.get_i8(), Ok(-2));

    let data = [1u8, 2, 2, 1, 0xff, 0xfe, 0xfe, 0xff];
    let mut r = ByteSource::new(&data);
    assert_eq!(r.get_u16_be(), Ok(0x0102));
    assert_eq!(r.get_u16_le(), Ok(0x0102));
    assert_eq!(r.get_i16_be(), Ok(-2));
    assert_eq!(r.get_i16_le(), Ok(-2));

    let data = [1u8, 2, 3, 4, 4, 3, 2, 1, 0x80, 0, 0, 0, 0, 0, 0, 0x80];
    let mut r = ByteSource::new(&data);
    assert_eq!(r.get_u32_be(), Ok(0x0102_0304));
    assert_eq!(r.get_u32_le(), Ok(0x0102_0304));
    assert_eq!(r.get_i32_be(), Ok(i32::MIN));
    assert_eq!(r.get_i32_le(), Ok(i32::MIN));

    let data = [1u8, 2, 3, 4, 5, 6, 7, 8, 8, 7, 6, 5, 4, 3, 2, 1];
    let mut r = ByteSource::new(&data);
    assert_eq!(r.get_u64_be(), Ok(0x0102_0304_0506_0708));
    assert_eq!(r.get_u64_le(), Ok(0x0102_0304_0506_0708));

    let data = [0xffu8, 0xff, 0xff, 0xff, 0xff, 0xff, 0xff, 0xff, 0, 0, 0, 0, 0, 0, 0, 0x80];
    let mut r = ByteSource::new(&data);
    assert_eq!(r.get_i64_be(), Ok(-1));
    assert_eq!(r.get_i64_le(), Ok(i64::MIN));
    assert_eq!(r.remaining_hint(), 0);
}

#[test]
fn a_short_read_takes_nothing() {
    let data = [1u8, 2, 3];
    let mut r = ByteSource::new(&data);
    assert_eq!(r.remaining_hint(), 3);
    assert_eq!(r.get_u32_le(), Err(BinError::InsufficientData(1)));
    assert_eq!(r.get_u64_be(), Err(BinError::InsufficientData(5)));
    assert_eq!(r.remaining_hint(), 3);
    assert_eq!(r.get_u16_be(), Ok(0x0102));
    assert_eq!(r.get_i16_le(), Err(BinError::InsufficientData(1)));
    assert_eq!(r.remaining_hint(), 1);
    assert_eq!(r.get_u8(), Ok(3));
    assert_eq!(r.get_u8(), Err(BinError::InsufficientData(1)));
    assert_eq!(r.get_i8(), Err(BinError::InsufficientData(1)));
}

#[test]
fn require_checks_without_taking() {
    let data = [1u8, 2, 3];
    let r = ByteSource::new(&data);
    assert_eq!(r.require(0), Ok(()));
    assert_eq!(r.require(3), Ok(()));
    assert_eq!(r.require(4), Err(BinError::InsufficientData(1)));
    assert_eq!(r.require(10), Err(BinError::InsufficientData(7)));
    assert_eq!(r.remaining_hint(), 3);
    // A hint of zero says nothing, so the check passes and the read judges.
    let mut empty = ByteSource::new(&[]);
    assert_eq!(empty.remaining_hint(), 0);
    assert_eq!(empty.require(4), Ok(()));
    assert_eq!(empty.read_exact(4), Err(BinError::InsufficientData(4)));
}

#[test]
fn raw_reads_and_writes() {
    let data = [1u8, 2, 3, 4, 5];
    let mut r = ByteSource::new(&data);
    assert_eq!(r.read_exact(2), Ok(vec![1, 2]));
    assert_eq!(r.read_exact(0), Ok(vec![]));
    assert_eq!(r.read_exact(4), Err(BinError::InsufficientData(1)));
    assert_eq!(r.read_exact(3), Ok(vec![3, 4, 5]));
    assert_eq!(r.read_exact(1), Err(BinError::InsufficientData(1)));

    let mut s: Vec<u8> = vec![9];
    assert_eq!(s.write_all(&[1, 2, 3]), Ok(()));
    assert_eq!(s.write_all(&[]), Ok(()));
    assert_eq!(s, vec![9, 1, 2, 3]);
}

#[test]
fn integers_as_bytes() {
    let little = binary::attr::Endian::Little;
    let big = binary::attr::Endian::Big;
    assert_eq!(binary::bytes::uint_to_bytes(0x1122, 2, little), vec![0x22, 0x11]);
    assert_eq!(binary::bytes::uint_to_bytes(0x1122, 2, big), vec![0x11, 0x22]);
    assert_eq!(binary::bytes::uint_to_bytes(0x1122, 0, big), Vec::<u8>::new());
    assert_eq!(binary::bytes::uint_to_bytes(0x0102_0304, 3, little), vec![4, 3, 2]);
    assert_eq!(binary::bytes::uint_to_bytes(0x0102_0304, 3, big), vec![2, 3, 4]);
    assert_eq!(binary::bytes::uint_to_bytes(u64::MAX, 8, big), vec![0xff; 8]);
    assert_eq!(binary::bytes::uint_from_bytes(&[0x22, 0x11], little), 0x1122);
    assert_eq!(binary::bytes::uint_from_bytes(&[0x22, 0x11], big), 0x2211);
    assert_eq!(binary::bytes::uint_from_bytes(&[], big), 0);
    assert_eq!(
        binary::bytes::uint_from_bytes(&[1, 2, 3, 4, 5, 6, 7, 8], big),
        0x0102_0304_0506_0708
    );
    assert_eq!(binary::bytes::uint_from_bytes(&[0xff; 8], little), u64::MAX);
}
