use h2datatype::{
    Alignment, Character, CharacterType, Context, Endian, H2Array, H2Error, H2Number, H2String, IPv4,
    LPString, NTString, Offset, SizedDefinition, SizedDisplay, StrictASCII,
};

const MIXED_UTF8: &[u8] = b"\x41\x42\xE2\x9D\x84\xE2\x98\xA2\xF0\x9D\x84\x9E\xF0\x9F\x98\x88\xc3\xb7";

#[test]
fn h2string_test_utf8_lstring() {
    let offset = Offset::Dynamic(Context::new(MIXED_UTF8));

    let a = H2String::new(7, Character::new(CharacterType::UTF8)).unwrap();
    assert_eq!("AB❄☢𝄞😈÷", a.to_string(offset).unwrap());
}

#[test]
fn h2string_test_zero_length_utf8_lstring() {
    let data = b"\x00".to_vec();
    let offset = Offset::Dynamic(Context::new(&data));

    let a = H2String::new(1, Character::new(CharacterType::UTF8)).unwrap();
    assert_eq!("\0", a.to_string(offset).unwrap());
}

#[test]
fn h2string_test_blank_lstring() {
    let data = b"".to_vec();
    let offset = Offset::Dynamic(Context::new(&data));

    let a = H2String::new(2, Character::new(CharacterType::UTF8)).unwrap();
    assert!(a.to_string(offset).is_err());
}

#[test]
fn h2string_test_utf8_to_array() {
    let offset = Offset::Dynamic(Context::new(MIXED_UTF8));

    let a = H2String::new(7, Character::new(CharacterType::UTF8)).unwrap();
    let array = a.resolve(offset, None).unwrap();

    assert_eq!(1, array.children.len());
    assert_eq!("[ 'A', 'B', '❄', '☢', '𝄞', '😈', '÷' ]", array.children[0].value);
    assert_eq!(7, array.children[0].children.len());
}

#[test]
fn test_bad_type() {
    assert!(H2String::new(1, IPv4::new(Endian::Big)).is_err());
    assert!(H2String::new(0, Character::new(CharacterType::UTF8)).is_err());
}

#[test]
fn string_shape_error_kinds() {
    assert_eq!(
        Err(H2Error::NotACharacterType),
        H2String::new(1, IPv4::new(Endian::Big)).map(|_| ())
    );
    assert_eq!(
        Err(H2Error::ZeroLengthString),
        H2String::new(0, Character::new(CharacterType::UTF8)).map(|_| ())
    );
    let signed = H2Number::new(SizedDefinition::I8, SizedDisplay::Decimal);
    assert_eq!(
        Err(H2Error::NotALengthType),
        LPString::new(signed, Character::new(CharacterType::UTF8)).map(|_| ())
    );
    let size = H2Number::new(SizedDefinition::U8, SizedDisplay::Decimal);
    assert_eq!(Err(H2Error::NotACharacterType), LPString::new(size, IPv4::new(Endian::Big)).map(|_| ()));
}

#[test]
fn test_starting_non_zero_offset() {
    let data = b"AAAABBBBCCCCDDDD".to_vec();
    let offset = Offset::Dynamic(Context::new(&data));

    let t = H2Array::new(4, H2String::new(4, Character::new(CharacterType::ASCII(StrictASCII::Strict))).unwrap())
        .unwrap();

    assert_eq!(16, t.actual_size(offset).unwrap());
    assert_eq!("[ AAAA, BBBB, CCCC, DDDD ]", t.to_string(offset).unwrap());
}

#[test]
fn lstring_test_utf8_lstring() {
    let offset = Offset::Dynamic(Context::new(MIXED_UTF8));

    let a = H2String::new(7, Character::new(CharacterType::UTF8)).unwrap();
    assert_eq!("AB❄☢𝄞😈÷", a.to_string(offset).unwrap());
    assert_eq!(18, a.actual_size(offset).unwrap());
}

#[test]
fn lstring_test_zero_length_utf8_lstring() {
    let data = b"\x00".to_vec();
    let offset = Offset::Dynamic(Context::new(&data));

    let a = H2String::new(1, Character::new(CharacterType::UTF8)).unwrap();
    assert_eq!("\0", a.to_string(offset).unwrap());
}

#[test]
fn lstring_test_blank_lstring() {
    let data = b"".to_vec();
    let offset = Offset::Dynamic(Context::new(&data));

    let a = H2String::new(2, Character::new(CharacterType::UTF8)).unwrap();
    assert!(a.to_string(offset).is_err());
}

#[test]
fn lstring_test_utf8_to_array() {
    let offset = Offset::Dynamic(Context::new(MIXED_UTF8));

    let a = H2String::new(7, Character::new(CharacterType::UTF8)).unwrap();
    let array = a.resolve(offset, None).unwrap();

    assert_eq!(1, array.children.len());
    assert_eq!("[ 'A', 'B', '❄', '☢', '𝄞', '😈', '÷' ]", array.children[0].value);
    assert_eq!(7, array.children[0].children.len());
}

#[test]
fn ntstring_test_utf8_string() {
    let data = b"\x41\x42\xE2\x9D\x84\xE2\x98\xA2\xF0\x9D\x84\x9E\xF0\x9F\x98\x88\xc3\xb7\x00".to_vec();
    let offset = Offset::Dynamic(Context::new(&data));

    let a = NTString::new(Character::new(CharacterType::UTF8));
    assert_eq!("AB❄☢𝄞😈÷", a.to_string(offset).unwrap());
    assert_eq!(19, a.actual_size(offset).unwrap());
}

#[test]
fn ntstring_test_zero_length_utf8_string() {
    let data = b"\x00".to_vec();
    let offset = Offset::Dynamic(Context::new(&data));

    let a = NTString::new(Character::new(CharacterType::UTF8));
    assert_eq!("", a.to_string(offset).unwrap());
}

#[test]
fn ntstring_test_blank_string() {
    let data = b"".to_vec();
    let offset = Offset::Dynamic(Context::new(&data));

    let a = NTString::new(Character::new(CharacterType::UTF8));
    assert!(a.to_string(offset).is_err());
}

#[test]
fn ntstring_test_missing_terminator() {
    let offset = Offset::Dynamic(Context::new(MIXED_UTF8));

    let a = NTString::new(Character::new(CharacterType::UTF8));
    assert!(a.to_string(offset).is_err());
    assert_eq!(Err(H2Error::MissingTerminator), a.actual_size(offset));
}

#[test]
fn test_utf8_aligned_characters_string() {
    let data = b"\x41PP\x42PP\xE2\x9D\x84\xE2\x98\xA2\xF0\x9D\x84\x9EPP\xF0\x9F\x98\x88PP\xc3\xb7P\x00".to_vec();
    let offset = Offset::Dynamic(Context::new(&data));

    let a = NTString::new(Character::new_aligned(Alignment::Loose(3), CharacterType::UTF8));
    assert_eq!("AB❄☢𝄞😈÷", a.to_string(offset).unwrap());
}

#[test]
fn ntstring_children_hold_characters_and_terminator() {
    let data = b"AB\x00xyz".to_vec();
    let offset = Offset::Dynamic(Context::new(&data));
    let a = NTString::new(Character::new(CharacterType::ASCII(StrictASCII::Strict)));
    assert_eq!(false, a.is_static());
    assert_eq!(Err(H2Error::WrongMode), a.actual_size(Offset::Static(0)));
    let r = a.resolve(offset, None).unwrap();
    assert_eq!(0..3, r.actual_range);
    assert_eq!("AB", r.value);
    assert_eq!(2, r.children.len());
    assert_eq!("[ 'A', 'B' ]", r.children[0].value);
    assert_eq!(0..2, r.children[0].actual_range);
    assert_eq!(Some("terminator".to_string()), r.children[1].field_name);
    assert_eq!("'\\0'", r.children[1].value);
    assert_eq!(2..3, r.children[1].actual_range);
    assert_eq!(2, a.children(offset).unwrap().len());
}

#[test]
fn ntstring_resolves_the_same_twice() {
    let data = b"xxHello\x00tail".to_vec();
    let a = NTString::new(Character::new(CharacterType::UTF8));
    let r1 = a.resolve(Offset::Dynamic(Context::new_at(&data, 2)), None).unwrap();
    let r2 = a.resolve(Offset::Dynamic(Context::new_at(&data, 2)), None).unwrap();
    assert_eq!(r1.value, r2.value);
    assert_eq!(r1.actual_range, r2.actual_range);
    assert_eq!(r1.aligned_range, r2.aligned_range);
    assert_eq!("Hello", r1.value);
    assert_eq!(2..8, r1.actual_range);
}

#[test]
fn lpstring_test_utf8_lpstring() {
    let data = b"\x00\x07\x41\x42\xE2\x9D\x84\xE2\x98\xA2\xF0\x9D\x84\x9E\xF0\x9F\x98\x88\xc3\xb7".to_vec();
    let offset = Offset::Dynamic(Context::new(&data));

    let size_type = H2Number::new(SizedDefinition::U16(Endian::Big), SizedDisplay::Decimal);

    let a = LPString::new(size_type, Character::new(CharacterType::UTF8)).unwrap();
    assert_eq!("AB❄☢𝄞😈÷", a.to_string(offset).unwrap());
    assert_eq!(20, a.actual_size(offset).unwrap());
}

#[test]
fn lpstring_test_zero_length_utf8_lpstring() {
    let data = b"\x00\x41".to_vec();
    let offset = Offset::Dynamic(Context::new(&data));

    let size_type = H2Number::new(SizedDefinition::U8, SizedDisplay::Decimal);
    let a = LPString::new(size_type, Character::new(CharacterType::UTF8)).unwrap();
    assert_eq!("", a.to_string(offset).unwrap());
}

#[test]
fn lpstring_zero_length_spans_only_its_length_field() {
    let data = b"\x00\xff\xfe".to_vec();
    let offset = Offset::Dynamic(Context::new(&data));
    let a = LPString::new(
        H2Number::new(SizedDefinition::U8, SizedDisplay::Decimal),
        Character::new(CharacterType::UTF8),
    )
    .unwrap();
    let r = a.resolve(offset, None).unwrap();
    assert_eq!("", r.value);
    assert_eq!(0..1, r.actual_range);
    assert_eq!(1, r.actual_size());
    assert_eq!(1, r.children.len());
    assert_eq!(Some("size".to_string()), r.children[0].field_name);
    assert_eq!("0", r.children[0].value);
}

#[test]
fn lpstring_test_blank_lpstring() {
    let data = b"".to_vec();
    let offset = Offset::Dynamic(Context::new(&data));

    let size_type = H2Number::new(SizedDefinition::U8, SizedDisplay::Decimal);
    let a = LPString::new(size_type, Character::new(CharacterType::UTF8)).unwrap();
    assert!(a.to_string(offset).is_err());
}

#[test]
fn test_aligned_length_lpstring() {
    let data = b"\x00\x07PPPPPP\x41\x42\xE2\x9D\x84\xE2\x98\xA2\xF0\x9D\x84\x9E\xF0\x9F\x98\x88\xc3\xb7".to_vec();
    let offset = Offset::Dynamic(Context::new(&data));

    let size_type =
        H2Number::new_aligned(Alignment::Loose(8), SizedDefinition::U16(Endian::Big), SizedDisplay::Decimal);

    let a = LPString::new(size_type, Character::new(CharacterType::UTF8)).unwrap();
    assert_eq!("AB❄☢𝄞😈÷", a.to_string(offset).unwrap());
}

#[test]
fn lpstring_test_utf8_to_array() {
    let data = b"\x07\x41\x42\xE2\x9D\x84\xE2\x98\xA2\xF0\x9D\x84\x9E\xF0\x9F\x98\x88\xc3\xb7".to_vec();
    let offset = Offset::Dynamic(Context::new(&data));

    let size_type = H2Number::new(SizedDefinition::U8, SizedDisplay::Decimal);
    let a = LPString::new(size_type, Character::new(CharacterType::UTF8)).unwrap();
    let array = a.resolve(offset, None).unwrap();

    assert_eq!(2, array.children.len());
    assert_eq!("7", array.children[0].value);
    assert_eq!("[ 'A', 'B', '❄', '☢', '𝄞', '😈', '÷' ]", array.children[1].value);
    assert_eq!(7, array.children[1].children.len());
}

#[test]
fn strings_need_data() {
    let a = H2String::new(3, Character::new(CharacterType::ASCII(StrictASCII::Strict))).unwrap();
    assert_eq!(false, a.is_static());
    assert_eq!(Err(H2Error::WrongMode), a.to_string(Offset::Static(0)));
    assert_eq!(1, a.children(Offset::Static(0)).unwrap().len());
}
