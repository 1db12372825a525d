use proc_workshop::bitfield_gen::{
    accessor_names, bitfield_specifier_enum, bits_attribute, layout, size_check, variant_for,
    BitsAttr, BitsAttrError, SpecifierError,
};
use proc_workshop::bits::{field_get, field_set, primitive_into_arr, u64_from_be};
use proc_workshop::checks::check_mod;
use proc_workshop::four_bytes::MyFourBytes;
use proc_workshop::specifier::{Specifier, B1, B25, B64, B8, B9};
use proc_workshop::{bool_from_byte_array, byte_array_from_bool, byte_array_from_u8, max_usize, ByteArray};

#[test]
fn four_bytes_roundtrip_like_main() {
    let mut bit_field = MyFourBytes::new();
    for i in 0..=0b1 {
        bit_field.set_a(i);
        assert_eq!(i, bit_field.get_a());
    }
    for i in 0..=0b111 {
        bit_field.set_b(i);
        assert_eq!(i, bit_field.get_b());
    }
    for i in 0..=0b1111 {
        bit_field.set_c(i);
        assert_eq!(i, bit_field.get_c());
    }
    bit_field.set_a(0);
    bit_field.set_b(0);
    bit_field.set_c(0);
    let mut i: u32 = 0;
    while i <= 0x1_FF_FF_FF {
        bit_field.set_d(i);
        assert_eq!(i, bit_field.get_d());
        i += 997;
    }
    bit_field.set_d(0x1_FF_FF_FF);
    assert_eq!(0x1_FF_FF_FF, bit_field.get_d());
}

#[test]
fn four_bytes_fields_are_independent() {
    let mut f = MyFourBytes::new();
    f.set_a(1);
    f.set_b(5);
    f.set_c(9);
    f.set_p1(6);
    f.set_d(0x1_23_45_67);
    f.set_p2(0xA);
    assert_eq!(f.get_a(), 1);
    assert_eq!(f.get_b(), 5);
    assert_eq!(f.get_c(), 9);
    assert_eq!(f.get_p1(), 6);
    assert_eq!(f.get_d(), 0x1_23_45_67);
    assert_eq!(f.get_p2(), 0xA);
    f.set_d(0);
    assert_eq!(f.get_c(), 9);
    assert_eq!(f.get_p1(), 6);
    assert_eq!(f.get_p2(), 0xA);
}

#[test]
fn four_bytes_setter_keeps_only_the_field_width() {
    let mut f = MyFourBytes::new();
    f.set_b(0b1111_1101);
    assert_eq!(f.get_b(), 0b101);
    assert_eq!(f.get_a(), 0);
    assert_eq!(f.get_c(), 0);
    f.set_d(0xFFFF_FFFF);
    assert_eq!(f.get_d(), 0x1_FF_FF_FF);
    assert_eq!(f.get_p1(), 0);
    assert_eq!(f.get_p2(), 0);
}

#[test]
fn getter_reads_msb_first() {
    let data = [0b1010_1100u8, 0xFF];
    assert_eq!(field_get(&data, 2, 3), 0b101);
    assert_eq!(field_get(&data, 0, 8), 0b1010_1100);
    assert_eq!(field_get(&data, 4, 8), 0b1100_1111);
    assert_eq!(field_get(&data, 6, 10), 0b00_1111_1111);
}

#[test]
fn setter_writes_msb_first() {
    let mut data = [0u8; 3];
    field_set(&mut data, 3, 9, 0b1_0110_0111);
    assert_eq!(data, [0b0001_0110, 0b0111_0000, 0]);
    assert_eq!(field_get(&data, 3, 9), 0b1_0110_0111);
}

#[test]
fn setter_ors_first_byte_of_field_starting_on_byte_boundary() {
    // a 12-bit field at bit 0: the new high bits are ORed into the old ones
    let mut data = [0xF0u8, 0x00];
    field_set(&mut data, 0, 12, 0x0FF);
    assert_eq!(field_get(&data, 0, 12), 0xFFF);
    let mut clean = [0u8, 0];
    field_set(&mut clean, 0, 12, 0x0FF);
    assert_eq!(field_get(&clean, 0, 12), 0x0FF);
}

#[test]
fn setter_clears_bits_before_field_ending_on_byte_boundary() {
    // a 12-bit field at bit 4 that ends at bit 16
    let mut data = [0xFFu8, 0x00, 0x00];
    field_set(&mut data, 4, 12, 0xABC);
    assert_eq!(data, [0x0A, 0xBC, 0x00]);
    assert_eq!(field_get(&data, 4, 12), 0xABC);
}

#[test]
fn spilling_field_reads_and_clears_neighbour_bit() {
    // a: 6 bits at 0, b: 7 bits at 6 (ends at bit 13, inside byte 1)
    let mut data = [0u8; 2];
    field_set(&mut data, 0, 6, 0b11_1111);
    assert_eq!(field_get(&data, 0, 6), 0b11_1111);
    // the getter of b reads 8 bits, the last bit of a among them
    assert_eq!(field_get(&data, 6, 7), 0b1000_0000);
    field_set(&mut data, 6, 7, 0b101_0101);
    assert_eq!(field_get(&data, 6, 7), 0b101_0101);
    // and the setter of b cleared that bit of a
    assert_eq!(field_get(&data, 0, 6), 0b11_1110);
}

#[test]
fn byte_arrays_convert_big_endian() {
    assert_eq!(u16::from(ByteArray([0x12, 0x34])), 0x1234);
    assert_eq!(u32::from(ByteArray([0x12, 0x34, 0x56])), 0x12_3456);
    assert_eq!(u32::from(ByteArray([0x12, 0x34, 0x56, 0x78])), 0x1234_5678);
    assert_eq!(u64::from(ByteArray([1, 2, 3, 4, 5, 6, 7, 8])), 0x0102_0304_0506_0708);
    assert_eq!(u64::from(ByteArray([7])), 7);
    assert_eq!(u8::from(ByteArray([9])), 9);
    assert_eq!(primitive_into_arr::<3>(0x12_3456).0, [0x12, 0x34, 0x56]);
    assert_eq!(primitive_into_arr::<2>(0xAB_CDEF).0, [0xCD, 0xEF]);
    assert_eq!(primitive_into_arr::<0>(5).0, [0u8; 0]);
    assert_eq!(u64_from_be(&primitive_into_arr::<8>(0xDEAD_BEEF_0123_4567).0), 0xDEAD_BEEF_0123_4567);
    assert_eq!(u64::from(primitive_into_arr::<5>(0xFF_FF12_3456_789A)), 0x12_3456_789A);
    assert_eq!(byte_array_from_u8(200).0, [200]);
    assert_eq!(byte_array_from_bool(true).0, [1]);
    assert_eq!(byte_array_from_bool(false).0, [0]);
    assert!(bool_from_byte_array(ByteArray([4])));
    assert!(!bool_from_byte_array(ByteArray([0])));
}

#[test]
fn widths_of_specifiers() {
    assert_eq!(<B1 as Specifier>::BITS, 1);
    assert_eq!(<B8 as Specifier>::BITS, 8);
    assert_eq!(<B9 as Specifier>::BITS, 9);
    assert_eq!(<B25 as Specifier>::BITS, 25);
    assert_eq!(<B64 as Specifier>::BITS, 64);
    assert_eq!(<bool as Specifier>::BITS, 1);
    assert_eq!(<MyFourBytes as Specifier>::BITS, 40);
    let x: <B9 as Specifier>::Ty = 300u16;
    assert_eq!(x, 300);
}

#[test]
fn max_and_size_checks() {
    assert_eq!(max_usize(3, 7), 7);
    assert_eq!(max_usize(7, 3), 7);
    assert_eq!(max_usize(5, 5), 5);
    assert_eq!(check_mod::<[(); 0]>(), 0);
    assert_eq!(size_check(40), Some(5));
    assert_eq!(size_check(41), None);
    assert_eq!(size_check(0), Some(0));
}

#[test]
fn layout_of_four_bytes() {
    let (offsets, total) = layout(&vec![1, 3, 4, 3, 25, 4]);
    assert_eq!(offsets, vec![0, 1, 4, 8, 11, 36]);
    assert_eq!(total, 40);
    let (o, t) = layout(&vec![]);
    assert!(o.is_empty());
    assert_eq!(t, 0);
}

#[test]
fn accessor_names_of_a_field() {
    let (g, s) = accessor_names(&"field".to_string());
    assert_eq!(g, "get_field");
    assert_eq!(s, "set_field");
}

#[test]
fn bits_attribute_cases() {
    assert_eq!(bits_attribute(&vec![]), Ok(None));
    assert_eq!(bits_attribute(&vec![BitsAttr::NameValueInt("3".to_string())]), Ok(Some("3".to_string())));
    assert_eq!(
        bits_attribute(&vec![BitsAttr::NameValueInt("3".to_string()), BitsAttr::NameValueInt("4".to_string())]),
        Err(BitsAttrError::Duplicate(1))
    );
    assert_eq!(bits_attribute(&vec![BitsAttr::NameValueLit]), Err(BitsAttrError::NotIntLiteral(0)));
    assert_eq!(
        bits_attribute(&vec![BitsAttr::NameValueInt("1".to_string()), BitsAttr::NameValueExpr]),
        Err(BitsAttrError::NotIntLiteral(1))
    );
    assert_eq!(bits_attribute(&vec![BitsAttr::NotNameValue]), Err(BitsAttrError::NotNameValue(0)));
}

#[test]
fn specifier_enum_widths() {
    assert_eq!(bitfield_specifier_enum(&vec![true; 4]), Ok(2));
    assert_eq!(bitfield_specifier_enum(&vec![true; 1]), Ok(0));
    assert_eq!(bitfield_specifier_enum(&vec![true; 8]), Ok(3));
    assert_eq!(bitfield_specifier_enum(&vec![true; 6]), Err(SpecifierError::NotPowerOfTwo));
    assert_eq!(bitfield_specifier_enum(&vec![true, false, false]), Err(SpecifierError::NotUnit(1)));
}

#[test]
fn variant_for_a_value() {
    let d = vec![0u64, 1, 2, 3];
    assert_eq!(variant_for(&d, 2), Some(2));
    assert_eq!(variant_for(&d, 4), None);
    assert_eq!(variant_for(&vec![5u64, 7, 5], 5), Some(0));
}

#[test]
fn integers_into_byte_arrays_most_significant_first() {
    assert_eq!(ByteArray::<1>::from(0xABu8).0, [0xAB]);
    assert_eq!(ByteArray::<2>::from(0x1234u16).0, [0x12, 0x34]);
    assert_eq!(ByteArray::<3>::from(0x12_3456u32).0, [0x12, 0x34, 0x56]);
    assert_eq!(ByteArray::<4>::from(0x1234_5678u32).0, [0x12, 0x34, 0x56, 0x78]);
    assert_eq!(ByteArray::<5>::from(0x01_0203_0405u64).0, [1, 2, 3, 4, 5]);
    assert_eq!(ByteArray::<8>::from(u64::MAX).0, [0xFF; 8]);
    assert_eq!(ByteArray::<0>::from(7u64).0, [0u8; 0]);
    assert_eq!(ByteArray::<1>::from(true).0, [1]);
    assert_eq!(ByteArray::<1>::from(false).0, [0]);
    assert!(bool::from(ByteArray([2u8])));
    assert!(!bool::from(ByteArray([0u8])));
    assert_eq!(u64::from(ByteArray::<5>::from(0x01_0203_0405u64)), 0x01_0203_0405);
}

#[test]
fn wide_integers_into_byte_arrays_and_back() {
    let v: u128 = 0x0102_0304_0506_0708_090A_0B0C_0D0E_0F10;
    let b16 = ByteArray::<16>::from(v);
    assert_eq!(b16.0, [1, 2, 3, 4, 5, 6, 7, 8, 9, 10, 11, 12, 13, 14, 15, 16]);
    assert_eq!(u128::from(b16), v);
    let b9 = ByteArray::<9>::from(v);
    assert_eq!(b9.0, [8, 9, 10, 11, 12, 13, 14, 15, 16]);
    assert_eq!(u128::from(b9), 0x08_090A_0B0C_0D0E_0F10);
    assert_eq!(u128::from(ByteArray::<12>::from(u128::MAX)), (1u128 << 96) - 1);
    assert_eq!(primitive_into_arr::<10>(0xAB_CDEFu128).0, [0, 0, 0, 0, 0, 0, 0, 0xAB, 0xCD, 0xEF]);
}

#[test]
fn bytes_read_and_written_back_are_unchanged() {
    let b = [0x80u8, 0, 0xFF, 0x12, 0x34, 0x56, 0x78];
    assert_eq!(ByteArray::<7>::from(u64::from(ByteArray(b))).0, b);
    let w = [0xFEu8; 13];
    assert_eq!(ByteArray::<13>::from(u128::from(ByteArray(w))).0, w);
}

#[test]
fn distinct_discriminants_find_their_variant() {
    let d = vec![3u64, 0, 2, 1];
    for (k, v) in d.iter().enumerate() {
        assert_eq!(variant_for(&d, *v), Some(k));
        let bytes = ByteArray::<1>::from(*v);
        assert_eq!(variant_for(&d, u64::from(bytes)), Some(k));
    }
    assert_eq!(variant_for(&d, 4), None);
}

#[test]
fn more_bytes_than_the_value_has_lead_with_zeros() {
    let a = primitive_into_arr::<18>(u128::MAX).0;
    assert_eq!(a[0..2], [0, 0]);
    assert_eq!(a[2..], [0xFF; 16]);
    let b = primitive_into_arr::<20>(0x0102u128).0;
    assert_eq!(b[..18], [0u8; 18]);
    assert_eq!(b[18..], [1, 2]);
}
