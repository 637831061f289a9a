use h2datatype::{
    Alignment, Context, Endian, H2Error, H2Number, IPv4, IPv6, Offset, SizedDefinition, SizedDisplay,
};

#[test]
fn test_u8_hex() {
    let data = b"\x00\x7f\x80\xff".to_vec();
    let s_offset = Offset::Static(0);
    let d_offset = Offset::Dynamic(Context::new(&data));

    let t = H2Number::new(SizedDefinition::U8, SizedDisplay::Hex);

    assert_eq!(1, t.actual_size(s_offset).unwrap());
    assert_eq!(1, t.actual_size(d_offset).unwrap());

    assert_eq!(0, t.related(s_offset).unwrap().len());
    assert_eq!(0, t.related(d_offset).unwrap().len());

    assert_eq!("0x00", t.to_string(d_offset.at(0)).unwrap());
    assert_eq!("0x7f", t.to_string(d_offset.at(1)).unwrap());
    assert_eq!("0x80", t.to_string(d_offset.at(2)).unwrap());
    assert_eq!("0xff", t.to_string(d_offset.at(3)).unwrap());
}

#[test]
fn test_i16_decimal() {
    let data = b"\x00\x00\x7f\xff\x80\x00\xff\xff".to_vec();
    let s_offset = Offset::Static(0);
    let d_offset = Offset::Dynamic(Context::new(&data));

    let t = H2Number::new(SizedDefinition::I16(Endian::Big), SizedDisplay::Decimal);

    assert_eq!(2, t.actual_size(s_offset).unwrap());
    assert_eq!(2, t.actual_size(d_offset).unwrap());

    assert_eq!(0, t.related(s_offset).unwrap().len());
    assert_eq!(0, t.related(d_offset).unwrap().len());

    assert_eq!("0", t.to_string(d_offset.at(0)).unwrap());
    assert_eq!("32767", t.to_string(d_offset.at(2)).unwrap());
    assert_eq!("-32768", t.to_string(d_offset.at(4)).unwrap());
    assert_eq!("-1", t.to_string(d_offset.at(6)).unwrap());
}

#[test]
fn test_number_alignment() {
    let data = b"\x00\x00\x7f\xff\x80\x00\xff\xff".to_vec();
    let offset = Offset::Dynamic(Context::new(&data));

    let t = H2Number::new_aligned(Alignment::Loose(8), SizedDefinition::I16(Endian::Big), SizedDisplay::Decimal);

    let this_offset = offset.at(0);
    assert_eq!(2, t.actual_size(this_offset).unwrap());
    assert_eq!(0..2, t.actual_range(this_offset).unwrap());
    assert_eq!(8, t.aligned_size(this_offset).unwrap());
    assert_eq!(0..8, t.aligned_range(this_offset).unwrap());

    let this_offset = offset.at(2);
    assert_eq!(2, t.actual_size(this_offset).unwrap());
    assert_eq!(2..4, t.actual_range(this_offset).unwrap());
    assert_eq!(8, t.aligned_size(this_offset).unwrap());
    assert_eq!(2..10, t.aligned_range(this_offset).unwrap());

    let this_offset = offset.at(7);
    assert_eq!(2, t.actual_size(this_offset).unwrap());
    assert_eq!(7..9, t.actual_range(this_offset).unwrap());
    assert_eq!(8, t.aligned_size(this_offset).unwrap());
    assert_eq!(7..15, t.aligned_range(this_offset).unwrap());

    assert_eq!("0", t.to_string(offset.at(0)).unwrap());
    assert_eq!("32767", t.to_string(offset.at(2)).unwrap());
    assert_eq!("-32768", t.to_string(offset.at(4)).unwrap());
    assert_eq!("-1", t.to_string(offset.at(6)).unwrap());
}

#[test]
fn number_renderings() {
    let data = b"\x0f\x0e\x0d\x0c\x0b\x0a\x09\x08".to_vec();
    let o = Offset::Dynamic(Context::new(&data));
    let u32le = H2Number::new(SizedDefinition::U32(Endian::Little), SizedDisplay::Decimal);
    assert_eq!("202182159", u32le.to_string(o).unwrap());
    let u8oct = H2Number::new(SizedDefinition::U8, SizedDisplay::Octal);
    assert_eq!("0o17", u8oct.to_string(o).unwrap());
    let u64hex = H2Number::new(SizedDefinition::U64(Endian::Big), SizedDisplay::Hex);
    assert_eq!("0x0f0e0d0c0b0a0908", u64hex.to_string(o).unwrap());
    let i64dec = H2Number::new(SizedDefinition::I64(Endian::Big), SizedDisplay::Decimal);
    let min = b"\x80\x00\x00\x00\x00\x00\x00\x00".to_vec();
    assert_eq!("-9223372036854775808", i64dec.to_string(Offset::Dynamic(Context::new(&min))).unwrap());
    assert_eq!(Ok(i64::MIN), i64dec.to_i64(Offset::Dynamic(Context::new(&min))));
    let i8hex = H2Number::new(SizedDefinition::I8, SizedDisplay::Hex);
    let neg = b"\xff".to_vec();
    assert_eq!("0xff", i8hex.to_string(Offset::Dynamic(Context::new(&neg))).unwrap());
    assert_eq!(Ok(-1), i8hex.to_i64(Offset::Dynamic(Context::new(&neg))));
}

#[test]
fn number_abstract_and_errors() {
    let t = H2Number::new(SizedDefinition::U32(Endian::Big), SizedDisplay::Hex);
    assert_eq!("Number", t.to_string(Offset::Static(0)).unwrap());
    let short = b"\x00\x01".to_vec();
    assert_eq!(Err(H2Error::OutOfBounds), t.to_string(Offset::Dynamic(Context::new(&short))));
    assert_eq!(Err(H2Error::WrongMode), t.to_u64(Offset::Static(0)));
    assert_eq!(Err(H2Error::NotALengthType), t.to_i64(Offset::Static(0)));
    let data = b"\x00\x01\x02\x03".to_vec();
    assert_eq!(Ok(0x00010203), t.to_u64(Offset::Dynamic(Context::new(&data))));
    assert!(t.can_be_u64());
    assert!(!t.can_be_i64());
    assert!(!t.can_be_char());
}

#[test]
fn test_ipv4() {
    let data = b"\x7f\x00\x00\x01".to_vec();
    let d_offset = Offset::Dynamic(Context::new(&data));

    assert_eq!("127.0.0.1", IPv4::new(Endian::Big).to_string(d_offset).unwrap());
}

#[test]
fn test_ipv4_little() {
    let data = b"\x01\x02\x02\x04".to_vec();
    let d_offset = Offset::Dynamic(Context::new(&data));

    assert_eq!("4.2.2.1", IPv4::new(Endian::Little).to_string(d_offset).unwrap());
}

#[test]
fn test_ipv4_error() {
    let data = b"\x7f\x00\x00".to_vec();
    let d_offset = Offset::Dynamic(Context::new(&data));

    assert!(IPv4::new(Endian::Big).to_string(d_offset).is_err());
}

#[test]
fn test_ipv6() {
    let data = b"\x00\x00\x00\x00\x00\x00\x00\x00\x00\x00\x00\x00\x00\x00\x00\x00".to_vec();
    let d_offset = Offset::Dynamic(Context::new(&data));

    assert_eq!("::", IPv6::new(Endian::Big).to_string(d_offset).unwrap());

    let data = b"\x00\x01\x02\x03\x04\x05\x06\x07\x08\x09\x0a\x0b\x0c\x0d\x0e\x0f".to_vec();
    let d_offset = Offset::Dynamic(Context::new(&data));

    assert_eq!("1:203:405:607:809:a0b:c0d:e0f", IPv6::new(Endian::Big).to_string(d_offset).unwrap());
}

#[test]
fn test_ipv6_little() {
    let data = b"\x01\x00\x00\x00\x00\x00\x00\x00\x00\x00\x00\x00\x00\x00\x00\x00".to_vec();
    let d_offset = Offset::Dynamic(Context::new(&data));

    assert_eq!("::1", IPv6::new(Endian::Little).to_string(d_offset).unwrap());
}

#[test]
fn test_ipv6_error() {
    let data = b"\x00\x00\x00\x00\x00\x00\x00\x00\x00\x00\x00\x00\x00\x00\x00".to_vec();
    let d_offset = Offset::Dynamic(Context::new(&data));

    assert!(IPv6::new(Endian::Big).to_string(d_offset).is_err());
}

#[test]
fn ipv6_compresses_first_longest_zero_run() {
    let data = b"\x20\x01\x0d\xb8\x00\x00\x00\x00\x00\x01\x00\x00\x00\x00\x00\x01".to_vec();
    let o = Offset::Dynamic(Context::new(&data));
    assert_eq!("2001:db8::1:0:0:1", IPv6::new(Endian::Big).to_string(o).unwrap());
    let one_zero = b"\x00\x01\x00\x00\x00\x02\x00\x03\x00\x04\x00\x05\x00\x06\x00\x07".to_vec();
    let o = Offset::Dynamic(Context::new(&one_zero));
    assert_eq!("1:0:2:3:4:5:6:7", IPv6::new(Endian::Big).to_string(o).unwrap());
    assert_eq!("IPv6 Address", IPv6::new(Endian::Big).to_string(Offset::Static(0)).unwrap());
    assert_eq!(16, IPv6::new(Endian::Big).actual_size(Offset::Static(0)).unwrap());
}
