use std::collections::HashMap;

use squash::codec::literal::Literal;
use squash::codec::{
    array, array_n, buffer, buffer_n, from_bytes, literal, opt, range, string, string_n, to_bytes, vlq,
    Array, ArrayLen, BitArray, BitArrayN, Bool, Uint, I16, U16, U24, U8,
};
use squash::codec::{pop_bits, push_bits};
use squash::codec::record::{pop_record_bits, push_record_bits};
use squash::{Error, SerDes, SquashCursor};

#[test]
fn primitive_codecs() {
    assert_eq!(to_bytes(&U8, &5).unwrap(), vec![5]);
    assert_eq!(to_bytes(&U16, &0x0102).unwrap(), vec![2, 1]);
    assert_eq!(from_bytes(&I16, vec![0xfe, 0xff]).unwrap(), -2);
    assert_eq!(to_bytes(&Bool, &true).unwrap(), vec![1]);
    let x = squash::u24::new(7).unwrap();
    assert_eq!(to_bytes(&U24, &x).unwrap(), vec![7, 0, 0]);
    assert_eq!(to_bytes(&vlq(), &300).unwrap(), vec![0x2c, 0x82]);
    assert_eq!(from_bytes(&vlq(), vec![0x2c, 0x82]).unwrap(), 300);
}

#[test]
fn opt_codec_uses_a_zero_for_none() {
    assert_eq!(to_bytes(&opt(U8), &None).unwrap(), vec![0]);
    assert_eq!(to_bytes(&opt(U8), &Some(4)).unwrap(), vec![4, 1]);
    assert_eq!(from_bytes(&opt(U8), vec![0]).unwrap(), None);
    assert_eq!(from_bytes(&opt(U8), vec![4, 1]).unwrap(), Some(4));
}

#[test]
fn range_writes_offset_in_fewest_bytes() {
    assert_eq!(to_bytes(&range(10, 20), &15).unwrap(), vec![5]);
    assert_eq!(from_bytes(&range(10, 20), vec![5]).unwrap(), 15);
    assert_eq!(to_bytes(&range(0, 1000), &300).unwrap(), vec![0x2c, 0x01]);
    assert_eq!(from_bytes(&range(0, 1000), vec![0x2c, 0x01]).unwrap(), 300);
    assert_eq!(to_bytes(&range(i64::MIN, i64::MAX), &0).unwrap().len(), 8);
    assert_eq!(from_bytes(&range(i64::MIN, i64::MAX), to_bytes(&range(i64::MIN, i64::MAX), &-5).unwrap()).unwrap(), -5);
}

#[test]
fn range_rejects_values_outside() {
    assert!(matches!(to_bytes(&range(10, 20), &21), Err(Error::Custom(_))));
    assert!(matches!(to_bytes(&range(10, 20), &9), Err(Error::Custom(_))));
    assert!(matches!(from_bytes(&range(10, 20), vec![250]), Err(Error::Custom(_))));
}

#[test]
fn uint_codec_widths() {
    assert_eq!(to_bytes(&Uint(3), &0x010203).unwrap(), vec![3, 2, 1]);
    assert_eq!(from_bytes(&Uint(3), vec![3, 2, 1]).unwrap(), 0x010203);
    assert!(matches!(to_bytes(&Uint(1), &256), Err(Error::Custom(_))));
    assert!(matches!(to_bytes(&Uint(9), &1), Err(Error::Custom(_))));
    assert!(matches!(from_bytes(&Uint(0), vec![1]), Err(Error::Custom(_))));
}

#[test]
fn strings() {
    assert_eq!(to_bytes(&string(), &"ab".to_string()).unwrap(), vec![b'a', b'b', 2]);
    assert_eq!(from_bytes(&string(), vec![b'a', b'b', 2]).unwrap(), "ab");
    assert_eq!(to_bytes(&string_n(3), &"abcd".to_string()).unwrap(), vec![b'a', b'b', b'c']);
    assert_eq!(to_bytes(&string_n(4), &"ab".to_string()).unwrap(), vec![b'a', b'b', 0, 0]);
    assert_eq!(from_bytes(&string_n(4), vec![b'a', b'b', 0, 0]).unwrap(), "ab\0\0");
    // A character is never cut in half.
    assert_eq!(to_bytes(&string_n(1), &"é".to_string()).unwrap(), vec![0]);
}

#[test]
fn buffers() {
    assert_eq!(to_bytes(&buffer(), &vec![1, 2, 3]).unwrap(), vec![1, 2, 3, 3]);
    assert_eq!(from_bytes(&buffer(), vec![1, 2, 3, 3]).unwrap(), vec![1, 2, 3]);
    assert!(matches!(from_bytes(&buffer(), vec![1, 5]), Err(Error::Io(_))));
    let mut c = SquashCursor::from_vec(vec![9, 1, 2, 3, 3]);
    c.seek_end().unwrap();
    assert_eq!(buffer().des(&mut c).unwrap(), vec![1, 2, 3]);
    assert_eq!(c.position(), 1);
    assert_eq!(to_bytes(&buffer_n(2), &vec![9]).unwrap(), vec![9, 0]);
    assert_eq!(to_bytes(&buffer_n(2), &vec![9, 8, 7]).unwrap(), vec![9, 8]);
    assert_eq!(from_bytes(&buffer_n(2), vec![9, 8]).unwrap(), vec![9, 8]);
}

#[test]
fn bit_arrays() {
    assert_eq!(to_bytes(&BitArray, &vec![true, false, true]).unwrap(), vec![0b101, 3]);
    assert_eq!(from_bytes(&BitArray, vec![0b101, 3]).unwrap(), vec![true, false, true]);
    let bits = vec![true, true, false, false, true, false, true, false, true];
    let bytes = to_bytes(&BitArray, &bits).unwrap();
    assert_eq!(bytes, vec![0b0101_0011, 1, 9]);
    assert_eq!(from_bytes(&BitArray, bytes).unwrap(), bits);
    assert_eq!(to_bytes(&BitArrayN(4), &vec![true]).unwrap(), vec![1]);
    assert!(matches!(from_bytes(&BitArray, vec![20]), Err(Error::Custom(_))));
}

#[test]
fn push_and_pop_bits() {
    let mut c = SquashCursor::new();
    assert_eq!(push_bits(&mut c, &[]).unwrap(), 0);
    assert_eq!(push_bits(&mut c, &[false, true]).unwrap(), 1);
    assert_eq!(pop_bits(&mut c, 2).unwrap(), vec![false, true]);
    assert_eq!(pop_bits(&mut c, 0).unwrap(), Vec::<bool>::new());
}

#[test]
fn arrays_read_back_in_order() {
    assert_eq!(to_bytes(&array(U8), &vec![1, 2, 3]).unwrap(), vec![1, 2, 3, 3]);
    assert_eq!(from_bytes(&array(U8), vec![1, 2, 3, 3]).unwrap(), vec![1, 2, 3]);
    assert_eq!(to_bytes(&array_n(U8, 2), &vec![1, 2]).unwrap(), vec![1, 2]);
    assert_eq!(from_bytes(&array_n(U8, 2), vec![1, 2]).unwrap(), vec![1, 2]);
    assert!(matches!(to_bytes(&array_n(U8, 2), &vec![1]), Err(Error::Custom(_))));
    let c = ArrayLen(U8, Uint(2));
    assert_eq!(to_bytes(&c, &vec![7]).unwrap(), vec![7, 1, 0]);
    assert_eq!(from_bytes(&c, vec![7, 1, 0]).unwrap(), vec![7]);
}

#[test]
fn array_of_zero_width_elements_is_refused() {
    let nested = Array(array_n(U8, 0));
    assert!(matches!(from_bytes(&nested, vec![5]), Err(Error::Custom(_))));
    assert_eq!(from_bytes(&nested, vec![0]).unwrap(), Vec::<Vec<u8>>::new());
}

#[test]
fn literals_write_their_index() {
    let l: Literal<u8> = literal(vec![10, 20, 30]);
    assert_eq!(to_bytes(&l, &20).unwrap(), vec![1]);
    assert_eq!(from_bytes(&l, vec![2]).unwrap(), 30);
    assert!(matches!(to_bytes(&l, &40), Err(Error::Custom(_))));
    assert!(matches!(from_bytes(&l, vec![3]), Err(Error::Custom(_))));
}

#[test]
fn tuples_read_back_in_order() {
    let c = (U8, U16, Bool);
    assert_eq!(to_bytes(&c, &(1, 0x0203, true)).unwrap(), vec![1, 3, 2, 1]);
    assert_eq!(from_bytes(&c, vec![1, 3, 2, 1]).unwrap(), (1, 0x0203, true));
    let six = (U8, U8, U8, U8, U8, U8);
    assert_eq!(from_bytes(&six, to_bytes(&six, &(1, 2, 3, 4, 5, 6)).unwrap()).unwrap(), (1, 2, 3, 4, 5, 6));
}

#[test]
fn maps_write_value_then_key_then_count() {
    let mut m: HashMap<u8, u16> = HashMap::new();
    m.insert(3, 0x0102);
    let c = squash::codec::map(U8, U16);
    assert_eq!(to_bytes(&c, &m).unwrap(), vec![2, 1, 3, 1]);
    assert_eq!(from_bytes(&c, vec![2, 1, 3, 1]).unwrap(), m);
    let mut big: HashMap<u8, u16> = HashMap::new();
    for k in 0..20u8 {
        big.insert(k, k as u16 * 300);
    }
    assert_eq!(from_bytes(&c, to_bytes(&c, &big).unwrap()).unwrap(), big);
    assert!(matches!(from_bytes(&squash::codec::map(array_n(U8, 0), array_n(U8, 0)), vec![9]), Err(Error::Custom(_))));
}

#[test]
fn refused_writes_leave_the_cursor_alone() {
    let mut c = SquashCursor::new();
    c.push(7u8).unwrap();
    assert!(matches!(range(10, 20).ser(&mut c, &21), Err(Error::Custom(_))));
    assert!(matches!(Uint(2).ser(&mut c, &0x1_0000), Err(Error::Custom(_))));
    assert!(matches!(array_n(U8, 2).ser(&mut c, &vec![1]), Err(Error::Custom(_))));
    let l: Literal<u8> = literal(vec![1]);
    assert!(matches!(l.ser(&mut c, &2), Err(Error::Custom(_))));
    assert!(matches!(Uint(0).des(&mut c), Err(Error::Custom(_))));
    assert_eq!(c.position(), 1);
    assert_eq!(c.into_inner(), vec![7]);
}

#[test]
fn refused_reads_are_custom_errors() {
    assert!(matches!(from_bytes(&range(0, 100), vec![200]), Err(Error::Custom(_))));
    let l: Literal<u8> = literal(vec![1, 2]);
    assert!(matches!(from_bytes(&l, vec![2]), Err(Error::Custom(_))));
    assert!(matches!(from_bytes(&array(array_n(U8, 0)), vec![5]), Err(Error::Custom(_))));
    let m = squash::codec::map(array_n(U8, 0), array_n(U8, 0));
    assert!(matches!(from_bytes(&m, vec![5]), Err(Error::Custom(_))));
}

#[test]
fn elements_written_read_back_in_order() {
    let mut c = SquashCursor::new();
    assert_eq!(squash::codec::array::write_elems(&mut c, &U16, &[1, 2, 3]).unwrap(), 6);
    assert_eq!(squash::codec::array::read_elems(&mut c, &U16, 3, false).unwrap(), vec![1, 2, 3]);
    assert_eq!(c.position(), 0);
}

#[test]
fn maps_and_literals_with_string_keys() {
    let mut m: HashMap<String, u8> = HashMap::new();
    m.insert("a".to_string(), 1);
    m.insert("bc".to_string(), 2);
    let c = squash::codec::map(string(), U8);
    assert_eq!(from_bytes(&c, to_bytes(&c, &m).unwrap()).unwrap(), m);
    let l: Literal<String> = literal(vec!["x".to_string(), "y".to_string()]);
    assert_eq!(to_bytes(&l, &"y".to_string()).unwrap(), vec![1]);
    assert_eq!(from_bytes(&l, vec![0]).unwrap(), "x");
}

#[test]
fn record_bits_round_trip() {

    let mut c = SquashCursor::new();
    let bools = [true, false, true];
    let optbools = [Some(false), None, Some(true)];
    let present = [true, false];
    // Bits: true, false, true, false, true -> 0b10101; flags: true, false, true, true, false -> 0b01101.
    assert_eq!(push_record_bits(&mut c, &bools, &optbools, &present).unwrap(), 2);
    assert_eq!(c.as_slice(), &[0b10101, 0b01101]);
    let (b, o, p) = pop_record_bits(&mut c, 3, 3, 2).unwrap();
    assert_eq!(b, bools.to_vec());
    assert_eq!(o, optbools.to_vec());
    assert_eq!(p, present.to_vec());
    assert_eq!(c.position(), 0);
}
