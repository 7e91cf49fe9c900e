use squash::{deserialize, serialize, Error, IoError, SquashCursor, Vlq};
use squash::{i24, i40, u24, u48, u56};

#[test]
fn u8_is_one_byte() {
    assert_eq!(serialize(5u8).unwrap(), vec![5]);
    assert_eq!(deserialize::<u8>(vec![9, 5]).unwrap(), 5);
}

#[test]
fn integers_are_little_endian() {
    assert_eq!(serialize(0x1234u16).unwrap(), vec![0x34, 0x12]);
    assert_eq!(serialize(0x01020304u32).unwrap(), vec![4, 3, 2, 1]);
    assert_eq!(serialize(-1i16).unwrap(), vec![0xff, 0xff]);
    assert_eq!(serialize(-2i64).unwrap(), vec![0xfe, 0xff, 0xff, 0xff, 0xff, 0xff, 0xff, 0xff]);
    assert_eq!(deserialize::<u16>(vec![0x34, 0x12]).unwrap(), 0x1234);
    assert_eq!(deserialize::<i32>(vec![0xff, 0xff, 0xff, 0xff]).unwrap(), -1);
}

#[test]
fn integers_round_trip() {
    let v: u64 = 0xdead_beef_0123_4567;
    assert_eq!(deserialize::<u64>(serialize(v).unwrap()).unwrap(), v);
    let w: i8 = -100;
    assert_eq!(deserialize::<i8>(serialize(w).unwrap()).unwrap(), w);
}

#[test]
fn popping_past_the_start_fails() {
    assert!(matches!(deserialize::<u32>(vec![1, 2]), Err(Error::Io(IoError::SeekBeforeStart))));
    assert!(matches!(deserialize::<u8>(vec![]), Err(Error::Io(IoError::SeekBeforeStart))));
}

#[test]
fn bool_reads_only_one_as_true() {
    assert_eq!(serialize(true).unwrap(), vec![1]);
    assert_eq!(serialize(false).unwrap(), vec![0]);
    assert_eq!(deserialize::<bool>(vec![1]).unwrap(), true);
    assert_eq!(deserialize::<bool>(vec![2]).unwrap(), false);
}

#[test]
fn vlq_bytes() {
    assert_eq!(serialize(Vlq(0)).unwrap(), vec![0]);
    assert_eq!(serialize(Vlq(127)).unwrap(), vec![127]);
    assert_eq!(serialize(Vlq(128)).unwrap(), vec![0, 0x81]);
    assert_eq!(serialize(Vlq(300)).unwrap(), vec![0x2c, 0x82]);
    assert_eq!(deserialize::<Vlq>(vec![0x2c, 0x82]).unwrap(), Vlq(300));
}

#[test]
fn vlq_round_trips_below_two_to_the_fifty_six() {
    for v in [1u64, 1 << 7, 1 << 14, 1 << 21, 1 << 28, 1 << 35, 1 << 42, 1 << 49, (1 << 56) - 1] {
        let bytes = serialize(Vlq(v)).unwrap();
        assert_eq!(deserialize::<Vlq>(bytes).unwrap(), Vlq(v));
    }
    assert_eq!(serialize(Vlq((1 << 56) - 1)).unwrap().len(), 8);
}

#[test]
fn vlq_too_large_or_unterminated() {
    assert!(matches!(serialize(Vlq(1 << 56)), Err(Error::InvalidVlq(v)) if v == 1 << 56));
    assert!(matches!(deserialize::<Vlq>(vec![0x80; 8]), Err(Error::InvalidVlq(0))));
    assert!(matches!(deserialize::<Vlq>(vec![0x80; 3]), Err(Error::Io(IoError::SeekBeforeStart))));
    let mut c = SquashCursor::new();
    assert!(c.push(Vlq(1 << 56)).is_err());
    assert_eq!(c.position(), 0);
}

#[test]
fn string_is_bytes_then_length() {
    assert_eq!(serialize("hi".to_string()).unwrap(), vec![b'h', b'i', 2]);
    assert_eq!(deserialize::<String>(vec![b'h', b'i', 2]).unwrap(), "hi");
    assert!(matches!(deserialize::<String>(vec![0xff, 1]), Err(Error::Utf8(_))));
}

#[test]
fn char_is_a_one_char_string() {
    assert_eq!(serialize('a').unwrap(), vec![b'a', 1]);
    assert_eq!(deserialize::<char>(vec![b'a', 1]).unwrap(), 'a');
    assert!(matches!(deserialize::<char>(vec![0]), Err(Error::CharMissing)));
}

#[test]
fn option_some_round_trips() {
    assert_eq!(serialize(Some(7u8)).unwrap(), vec![7, 1]);
    assert_eq!(deserialize::<Option<u8>>(vec![7, 1]).unwrap(), Some(7));
    assert_eq!(deserialize::<Option<u8>>(vec![0]).unwrap(), None);
}

#[test]
fn option_none_is_written_as_a_one() {
    assert_eq!(serialize(None::<u8>).unwrap(), vec![1]);
    assert!(deserialize::<Option<u8>>(vec![1]).is_err());
}

#[test]
fn vec_writes_its_count_first() {
    assert_eq!(serialize(Vec::<u8>::new()).unwrap(), vec![0]);
    assert_eq!(deserialize::<Vec<u8>>(vec![0]).unwrap(), Vec::<u8>::new());
    assert_eq!(serialize(vec![5u8, 6, 7]).unwrap(), vec![3, 5, 6, 7]);
    assert!(deserialize::<Vec<u8>>(vec![3, 5, 6, 7]).is_err());
}

#[test]
fn odd_width_integers() {
    let x = u24::new(0x123456).unwrap();
    assert_eq!(serialize(x).unwrap(), vec![0x56, 0x34, 0x12]);
    assert_eq!(deserialize::<u24>(vec![0x56, 0x34, 0x12]).unwrap().convert(), 0x123456);
    assert!(matches!(u24::new(0x100_0000), Err(Error::ValueTooLarge)));
    let y = i24::new(-1).unwrap();
    assert_eq!(serialize(y).unwrap(), vec![0xff, 0xff, 0xff]);
    assert_eq!(deserialize::<i24>(vec![0xff, 0xff, 0xff]).unwrap().convert(), -1);
    assert!(matches!(i24::new(1 << 23), Err(Error::ValueTooLarge)));
    let z = i40::new(-(1 << 39)).unwrap();
    assert_eq!(deserialize::<i40>(serialize(z).unwrap()).unwrap().convert(), -(1 << 39));
    assert_eq!(u48::new(0xffff_ffff_ffff).unwrap().convert(), 0xffff_ffff_ffff);
    assert!(u56::new(1 << 56).is_err());
}

#[test]
fn values_come_off_last_first() {
    let mut c = SquashCursor::new();
    c.push(1u8).unwrap();
    c.push(0x0203u16).unwrap();
    assert_eq!(c.pop::<u16>().unwrap(), 0x0203);
    assert_eq!(c.pop::<u8>().unwrap(), 1);
    assert!(c.pop::<u8>().is_err());
}

#[test]
fn cursor_write_and_pop_read() {
    let mut c = SquashCursor::new();
    assert_eq!(c.write(&[1, 2, 3]).unwrap(), 3);
    assert_eq!(c.position(), 3);
    let mut buf = [0u8; 2];
    assert_eq!(c.pop_read(&mut buf).unwrap(), 2);
    assert_eq!(buf, [2, 3]);
    assert_eq!(c.remaining().unwrap(), 1);
    let mut big = [0u8; 2];
    assert!(matches!(c.pop_read(&mut big), Err(Error::Io(IoError::SeekBeforeStart))));
    c.realloc(5);
    assert_eq!(c.into_inner(), vec![1, 2, 3, 0, 0, 0]);
}
