use h2datatype::{
    Alignment, Character, CharacterType, Context, Endian, H2Array, H2Enum, H2Number, H2Struct, IPv6,
    Offset, SizedDefinition, SizedDisplay, StrictASCII, UTF32,
};

fn static_sample() -> h2datatype::H2Type {
    H2Struct::new(vec![
        (
            "a".to_string(),
            H2Number::new_aligned(Alignment::Loose(3), SizedDefinition::U16(Endian::Big), SizedDisplay::Hex),
        ),
        (
            "b".to_string(),
            H2Array::new(3, Character::new(CharacterType::ASCII(StrictASCII::Strict))).unwrap(),
        ),
        (
            "c".to_string(),
            H2Enum::new(vec![
                ("x".to_string(), UTF32::new(Endian::Little)),
                ("y".to_string(), IPv6::new(Endian::Big)),
            ])
            .unwrap(),
        ),
    ])
    .unwrap()
}

#[test]
fn static_size_is_the_same_with_and_without_data() {
    let t = static_sample();
    assert!(t.is_static());
    let buffers: Vec<Vec<u8>> = vec![vec![], vec![0xff; 4], (0..64).collect()];
    for p in 0..8u64 {
        let abstract_size = t.actual_size(Offset::Static(p)).unwrap();
        for b in &buffers {
            let bound = t.actual_size(Offset::Dynamic(Context::new_at(b, p))).unwrap();
            assert_eq!(abstract_size, bound);
        }
    }
    // 3 (u16 padded to 3) + 3 chars + 16 (the wider variant)
    assert_eq!(22, t.actual_size(Offset::Static(0)).unwrap());
}

#[test]
fn offsets_convert_and_move() {
    let data = b"abcdef".to_vec();
    let s: Offset = Offset::from(3u64);
    assert_eq!(3, s.position());
    assert_eq!(5, s.at(5).position());
    assert!(matches!(s, Offset::Static(3)));
    let d: Offset = Offset::from(Context::new_at(&data, 2));
    assert_eq!(2, d.position());
    assert!(d.get_dynamic().is_ok());
    assert!(s.get_dynamic().is_err());
    assert_eq!(4, d.at(4).position());
}
