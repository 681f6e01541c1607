use bt_hci::{BdAddr, ConnHandle, Duration, FromHciBytes, FromHciBytesError, HciVec, WriteHci};

fn encode<T: WriteHci>(v: &T) -> Vec<u8> {
    let mut out = Vec::new();
    v.write_hci(&mut out);
    out
}

#[test]
fn u16_is_little_endian() {
    assert_eq!(encode(&0x1234u16), vec![0x34, 0x12]);
    assert_eq!(0x1234u16.size(), 2);
    assert_eq!(u16::from_hci_bytes(&[0x34, 0x12, 0xff]), Ok((0x1234, 2)));
}

#[test]
fn u8_reads_first_byte() {
    assert_eq!(encode(&0xabu8), vec![0xab]);
    assert_eq!(u8::from_hci_bytes(&[7, 8]), Ok((7, 1)));
    assert_eq!(u8::from_hci_bytes(&[]), Err(FromHciBytesError::InvalidSize));
}

#[test]
fn u32_and_u64_values() {
    assert_eq!(encode(&0x0102_0304u32), vec![4, 3, 2, 1]);
    assert_eq!(u32::from_hci_bytes(&[4, 3, 2, 1]), Ok((0x0102_0304, 4)));
    assert_eq!(encode(&0x0102_0304_0506_0708u64), vec![8, 7, 6, 5, 4, 3, 2, 1]);
    assert_eq!(
        u64::from_hci_bytes(&[8, 7, 6, 5, 4, 3, 2, 1]),
        Ok((0x0102_0304_0506_0708, 8))
    );
}

#[test]
fn signed_values_are_twos_complement() {
    assert_eq!(encode(&-2i16), vec![0xfe, 0xff]);
    assert_eq!(i16::from_hci_bytes(&[0xfe, 0xff]), Ok((-2, 2)));
    assert_eq!(encode(&-1i8), vec![0xff]);
    assert_eq!(i8::from_hci_bytes(&[0x80]), Ok((-128, 1)));
    assert_eq!(encode(&i32::MIN), vec![0, 0, 0, 0x80]);
    assert_eq!(i64::from_hci_bytes(&[0xff; 8]), Ok((-1, 8)));
}

#[test]
fn wide_integers_round_trip() {
    for v in [0u128, 1, u128::MAX, 0x0123_4567_89ab_cdef_0011_2233_4455_6677] {
        let bytes = encode(&v);
        assert_eq!(bytes.len(), 16);
        assert_eq!(u128::from_hci_bytes(&bytes), Ok((v, 16)));
    }
    for v in [0i128, -1, i128::MIN, i128::MAX] {
        let mut bytes = encode(&v);
        bytes.push(0x55);
        assert_eq!(i128::from_hci_bytes(&bytes), Ok((v, 16)));
    }
}

#[test]
fn short_input_is_invalid_size() {
    assert_eq!(u16::from_hci_bytes(&[1]), Err(FromHciBytesError::InvalidSize));
    assert_eq!(u32::from_hci_bytes(&[1, 2, 3]), Err(FromHciBytesError::InvalidSize));
    assert_eq!(i64::from_hci_bytes(&[0; 7]), Err(FromHciBytesError::InvalidSize));
    assert_eq!(u128::from_hci_bytes(&[0; 15]), Err(FromHciBytesError::InvalidSize));
}

#[test]
fn bool_values() {
    assert_eq!(encode(&true), vec![1]);
    assert_eq!(encode(&false), vec![0]);
    assert_eq!(true.size(), 1);
    assert_eq!(bool::from_hci_bytes(&[0, 5]), Ok((false, 1)));
    assert_eq!(bool::from_hci_bytes(&[1]), Ok((true, 1)));
    assert_eq!(bool::from_hci_bytes(&[2]), Err(FromHciBytesError::InvalidValue));
    assert_eq!(bool::from_hci_bytes(&[]), Err(FromHciBytesError::InvalidSize));
}

#[test]
fn byte_slice_is_length_prefixed() {
    let data: &[u8] = &[1, 2, 3];
    assert_eq!(encode(&data), vec![3, 1, 2, 3]);
    assert_eq!(data.size(), 3);
    let empty: &[u8] = &[];
    assert_eq!(encode(&empty), vec![0]);
}

#[test]
fn byte_slice_length_wraps_at_256() {
    let long = vec![7u8; 300];
    let data: &[u8] = &long;
    let bytes = encode(&data);
    assert_eq!(bytes.len(), 301);
    assert_eq!(bytes[0], 44);
}

#[test]
fn byte_slice_read_keeps_rest() {
    let input: &[u8] = &[2, 9, 8, 7];
    let (value, consumed) = <&[u8]>::from_hci_bytes(input).unwrap();
    assert_eq!(value, &[9, 8, 7]);
    assert_eq!(consumed, 2);
    assert_eq!(<&[u8]>::from_hci_bytes(&[3, 1]), Err(FromHciBytesError::InvalidSize));
    assert_eq!(<&[u8]>::from_hci_bytes(&[]), Err(FromHciBytesError::InvalidSize));
    assert_eq!(<&[u8]>::from_hci_bytes(&[0]), Ok((&[][..], 0)));
}

#[test]
fn byte_array_values() {
    assert_eq!(encode(&[1u8, 2, 3]), vec![1, 2, 3]);
    assert_eq!([1u8, 2, 3].size(), 3);
    assert_eq!(<[u8; 3]>::from_hci_bytes(&[1, 2, 3, 4]), Ok(([1, 2, 3], 3)));
    assert_eq!(<[u8; 3]>::from_hci_bytes(&[1, 2]), Err(FromHciBytesError::InvalidSize));
    assert_eq!(<[u8; 0]>::from_hci_bytes(&[]), Ok(([], 0)));
}

#[test]
fn tuples_are_fields_in_order() {
    let v = (0x12u8, 0x3456u16, true);
    assert_eq!(encode(&v), vec![0x12, 0x56, 0x34, 1]);
    assert_eq!(v.size(), 4);
    assert_eq!(<(u8, u16, bool)>::from_hci_bytes(&[0x12, 0x56, 0x34, 1, 9]), Ok((v, 4)));
    assert_eq!(
        <(u8, u16, bool)>::from_hci_bytes(&[0x12, 0x56, 0x34, 7]),
        Err(FromHciBytesError::InvalidValue)
    );
    assert_eq!(<(u8, u16, bool)>::from_hci_bytes(&[0x12, 0x56]), Err(FromHciBytesError::InvalidSize));
}

#[test]
fn empty_tuple_takes_no_bytes() {
    assert_eq!(encode(&()), Vec::<u8>::new());
    assert_eq!(().size(), 0);
    assert_eq!(<()>::from_hci_bytes(&[1, 2]), Ok(((), 0)));
    assert_eq!(<(u8,)>::from_hci_bytes(&[5]), Ok(((5,), 1)));
}

#[test]
fn twelve_field_tuple_round_trips() {
    let v = (1u8, 2u16, 3u32, 4u64, 5i8, -6i16, 7i32, -8i64, true, false, [9u8, 10], 11u128);
    let bytes = encode(&v);
    assert_eq!(bytes.len(), 1 + 2 + 4 + 8 + 1 + 2 + 4 + 8 + 1 + 1 + 2 + 16);
    assert_eq!(v.size(), bytes.len());
    type T12 = (u8, u16, u32, u64, i8, i16, i32, i64, bool, bool, [u8; 2], u128);
    assert_eq!(T12::from_hci_bytes(&bytes), Ok((v, bytes.len())));
}

#[test]
fn tuple_with_byte_slice_reads_by_declared_length() {
    let input: &[u8] = &[2, 0xaa, 0xbb, 0x07];
    let ((s, b), n) = <(&[u8], u8)>::from_hci_bytes(input).unwrap();
    assert_eq!(s, &[0xaa, 0xbb, 0x07]);
    assert_eq!(b, 0xbb);
    assert_eq!(n, 3);
}

#[test]
fn vec_reads_count_then_items() {
    let (v, n) = HciVec::<u16, 4>::from_hci_bytes(&[2, 1, 0, 2, 0, 9]).unwrap();
    assert_eq!(v.as_slice(), &[1, 2]);
    assert_eq!(n, 5);
    let (v, n) = HciVec::<u16, 4>::from_hci_bytes(&[0]).unwrap();
    assert_eq!(v.as_slice(), &[] as &[u16]);
    assert_eq!(n, 1);
    let inner = HciVec::<u8, 3>::from_hci_bytes(&[3, 7, 8, 9]).unwrap().0.into_inner();
    assert_eq!(&inner[..], &[7, 8, 9]);
}

#[test]
fn vec_errors() {
    assert_eq!(
        HciVec::<u16, 4>::from_hci_bytes(&[]).err(),
        Some(FromHciBytesError::InvalidSize)
    );
    assert_eq!(
        HciVec::<u16, 4>::from_hci_bytes(&[2, 1, 0, 2]).err(),
        Some(FromHciBytesError::InvalidSize)
    );
    assert_eq!(
        HciVec::<u8, 2>::from_hci_bytes(&[3, 1, 2, 3]).err(),
        Some(FromHciBytesError::InvalidValue)
    );
    assert_eq!(
        HciVec::<bool, 2>::from_hci_bytes(&[2, 1, 4]).err(),
        Some(FromHciBytesError::InvalidValue)
    );
    assert_eq!(
        HciVec::<u8, 2>::from_hci_bytes(&[3, 1, 2]).err(),
        Some(FromHciBytesError::InvalidSize)
    );
}

#[test]
fn vec_push_stops_at_capacity() {
    let mut v = HciVec::<u8, 2>::new();
    assert_eq!(v.push(1), Ok(()));
    assert_eq!(v.push(2), Ok(()));
    assert_eq!(v.push(3), Err(3));
    assert_eq!(v.as_slice(), &[1, 2]);
}

#[test]
fn bd_addr_values() {
    let a = BdAddr::new([1, 2, 3, 4, 5, 6]);
    assert_eq!(a.into_inner(), [1, 2, 3, 4, 5, 6]);
    assert_eq!(encode(&a), vec![1, 2, 3, 4, 5, 6]);
    assert_eq!(a.size(), 6);
    assert_eq!(BdAddr::from_hci_bytes(&[1, 2, 3, 4, 5, 6, 7]), Ok((a, 6)));
    assert_eq!(BdAddr::from_hci_bytes(&[1, 2, 3]), Err(FromHciBytesError::InvalidSize));
    assert_eq!(BdAddr::default().into_inner(), [0; 6]);
}

#[test]
fn conn_handle_values() {
    let h = ConnHandle::new(0xeff);
    assert_eq!(h.into_inner(), 0xeff);
    assert_eq!(encode(&h), vec![0xff, 0x0e]);
    assert_eq!(h.size(), 2);
    assert_eq!(ConnHandle::from_hci_bytes(&[0xff, 0x0e]), Ok((h, 2)));
    let (big, _) = ConnHandle::from_hci_bytes(&[0xff, 0xff]).unwrap();
    assert_eq!(big.into_inner(), 0xffff);
    assert_eq!(ConnHandle::default().into_inner(), 0);
}

#[test]
fn duration_conversions() {
    let d = Duration::<1>::from_micros(1250);
    assert_eq!(d.as_u16(), 2);
    assert_eq!(d.as_micros(), 1250);
    assert_eq!(Duration::<1>::from_micros(1249).as_u16(), 1);
    assert_eq!(Duration::<1>::from_millis(10).as_u16(), 16);
    assert_eq!(Duration::<1>::from_u16(16).as_millis(), 10);
    assert_eq!(Duration::<1>::from_u16(17).as_millis(), 10);
    assert_eq!(Duration::<1>::from_secs(1).as_u16(), 1600);
    assert_eq!(Duration::<1>::from_u16(1600).as_secs(), 1);
    assert_eq!(Duration::<2>::from_micros(2500).as_u16(), 2);
    assert_eq!(Duration::<2>::from_u16(3).as_micros(), 3750);
    assert_eq!(Duration::<1>::default().as_u16(), 0);
}

#[test]
fn duration_tick_count_wraps() {
    assert_eq!(Duration::<1>::from_micros(625 * 65536).as_u16(), 0);
    assert_eq!(Duration::<1>::from_micros(625 * 65537).as_u16(), 1);
    assert_eq!(Duration::<1>::from_millis(40960).as_u16(), 0);
}

#[test]
fn duration_micros_round_trip() {
    for t in [0u16, 1, 7, 1000, u16::MAX] {
        let d = Duration::<1>::from_u16(t);
        assert_eq!(Duration::<1>::from_micros(d.as_micros()).as_u16(), t);
    }
}

#[test]
fn duration_codec() {
    let d = Duration::<1>::from_u16(0x0102);
    assert_eq!(encode(&d), vec![0x02, 0x01]);
    assert_eq!(d.size(), 2);
    assert_eq!(Duration::<1>::from_hci_bytes(&[0x02, 0x01]), Ok((d, 2)));
    assert_eq!(Duration::<1>::from_hci_bytes(&[0x02]), Err(FromHciBytesError::InvalidSize));
}

#[test]
fn param_slice_is_counted_list() {
    let items = [0x0102u16, 0x0304];
    let list = bt_hci::ParamSlice(&items);
    assert_eq!(encode(&list), vec![2, 0x02, 0x01, 0x04, 0x03]);
    assert_eq!(list.size(), 5);
    let empty: [bool; 0] = [];
    assert_eq!(encode(&bt_hci::ParamSlice(&empty)), vec![0]);
    assert_eq!(bt_hci::ParamSlice(&empty).size(), 1);
}

#[test]
fn vec_len_and_get() {
    let (v, _) = HciVec::<u8, 4>::from_hci_bytes(&[2, 5, 6]).unwrap();
    assert_eq!(v.len(), 2);
    assert_eq!(v.get(0), Some(&5));
    assert_eq!(v.get(1), Some(&6));
    assert_eq!(v.get(2), None);
}

#[test]
fn bit_field_set_and_get() {
    let f = bt_hci::BitField::<2>::default();
    assert!(!f.get(9));
    let f = f.set(9, true);
    assert!(f.get(9));
    assert!(!f.get(8));
    assert_eq!(f.into_inner(), [0, 0b10]);
    let f = f.set(0, true).set(9, false);
    assert_eq!(f.into_inner(), [1, 0]);
    assert_eq!(encode(&f), vec![1, 0]);
    assert_eq!(bt_hci::BitField::<2>::from_hci_bytes(&[0x80, 1]), Ok((bt_hci::BitField::new([0x80, 1]), 2)));
    assert!(bt_hci::BitField::<2>::new([0x80, 1]).get(7));
}
