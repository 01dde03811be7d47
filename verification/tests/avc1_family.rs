use rfc6381_codec::{Avc1, Codec, CodecError};

#[test]
fn avc1_constructor_writes_upper_case_hex() {
    assert_eq!(Codec::avc1(0x4d, 0x40, 0x1e).to_string(), "avc1.4D401E");
    assert_eq!(Codec::avc1(0, 0, 0).to_string(), "avc1.000000");
    assert_eq!(Codec::avc1(0xff, 0x0a, 0x09).to_string(), "avc1.FF0A09");
    assert_eq!(Codec::avc1(0xab, 0xcd, 0xef).to_string(), "avc1.ABCDEF");
}

#[test]
fn avc1_getters_give_the_fields() {
    let avc1 = Avc1::new(1, 2, 3);
    assert_eq!(avc1.profile(), 1);
    assert_eq!(avc1.constraints(), 2);
    assert_eq!(avc1.level(), 3);
    assert_eq!(Codec::avc1(1, 2, 3), Codec::Avc1(avc1));
}

#[test]
fn avc1_payload_reads_either_case() {
    assert_eq!(Avc1::from_str("4d401e"), Ok(Avc1::new(0x4d, 0x40, 0x1e)));
    assert_eq!(Avc1::from_str("4D401E"), Ok(Avc1::new(0x4d, 0x40, 0x1e)));
    assert_eq!(Avc1::from_str("aBcDeF"), Ok(Avc1::new(0xab, 0xcd, 0xef)));
    assert_eq!(Avc1::from_str("000000"), Ok(Avc1::new(0, 0, 0)));
    assert_eq!(Avc1::from_str("ffffff"), Ok(Avc1::new(255, 255, 255)));
}

#[test]
fn avc1_lower_case_is_normalised_once() {
    let first = Codec::from_str("avc1.4d401e").unwrap().to_string();
    assert_eq!(first, "avc1.4D401E");
    let second = Codec::from_str(&first).unwrap().to_string();
    assert_eq!(second, first);
}

#[test]
fn avc1_empty_payload_has_wrong_length() {
    assert_eq!(
        Codec::from_str("avc1."),
        Err(CodecError::UnexpectedLength {
            expected: 6,
            got: String::new()
        })
    );
    assert_eq!(
        Avc1::from_str(""),
        Err(CodecError::UnexpectedLength {
            expected: 6,
            got: String::new()
        })
    );
}

#[test]
fn avc1_bad_digit_refuses_whole_payload() {
    for text in ["4g401e", "4d4x1e", "4d401z", "4d 01e", "4d.01e", "4d40-1", "4_401e"] {
        assert_eq!(
            Avc1::from_str(text),
            Err(CodecError::InvalidComponent(text.to_string())),
            "{}",
            text
        );
        assert_eq!(
            Codec::from_str(&format!("avc1.{}", text)),
            Err(CodecError::InvalidComponent(text.to_string())),
            "{}",
            text
        );
    }
}

#[test]
fn avc1_plus_sign_is_no_hex_digit() {
    for text in ["+4+0+1", "+1+2+3", "+f0a+0", "4d40+e", "++0000", "0+0000", "-1-2-3"] {
        assert_eq!(
            Avc1::from_str(text),
            Err(CodecError::InvalidComponent(text.to_string())),
            "{}",
            text
        );
        assert_eq!(
            Codec::from_str(&format!("avc1.{}", text)),
            Err(CodecError::InvalidComponent(text.to_string())),
            "{}",
            text
        );
    }
}

#[test]
fn avc1_six_characters_are_read_when_all_are_hex_digits() {
    let alphabet = ['0', '9', 'a', 'f', 'A', 'F', 'g', 'G', '+', '-', ' ', '.', 'x', '_', 'é'];
    for high in alphabet {
        for low in alphabet {
            let text = format!("4d{}{}1e", high, low);
            let parsed = Avc1::from_str(&text);
            if high.is_ascii_hexdigit() && low.is_ascii_hexdigit() {
                let byte = (high.to_digit(16).unwrap() * 16 + low.to_digit(16).unwrap()) as u8;
                assert_eq!(parsed, Ok(Avc1::new(0x4d, byte, 0x1e)), "{}", text);
            } else {
                assert_eq!(parsed, Err(CodecError::InvalidComponent(text.clone())), "{}", text);
            }
        }
    }
}

#[test]
fn avc1_length_is_counted_in_characters() {
    // Six bytes, three characters.
    assert_eq!(
        Codec::from_str("avc1.a👍b"),
        Err(CodecError::UnexpectedLength {
            expected: 6,
            got: "a👍b".to_string()
        })
    );
    // Six characters, seven bytes.
    assert_eq!(
        Codec::from_str("avc1.4d40é1"),
        Err(CodecError::InvalidComponent("4d40é1".to_string()))
    );
    // Six bytes, four characters: cutting at byte offsets would fail.
    assert_eq!(
        Avc1::from_str("éé4d"),
        Err(CodecError::UnexpectedLength {
            expected: 6,
            got: "éé4d".to_string()
        })
    );
}

#[test]
fn avc1_every_byte_round_trips_in_every_field() {
    for b in 0..=255u8 {
        for codec in [
            Codec::avc1(b, 0x40, 0x1e),
            Codec::avc1(0x4d, b, 0x1e),
            Codec::avc1(0x4d, 0x40, b),
        ] {
            let text = codec.to_string();
            assert_eq!(text.len(), 11);
            assert_eq!(Codec::from_str(&text), Ok(codec.clone()));
            assert_eq!(Codec::from_str(&text.to_lowercase()), Ok(codec));
        }
    }
}

#[test]
fn avc1_parse_through_the_trait() {
    assert_eq!("4d401e".parse::<Avc1>(), Ok(Avc1::new(0x4d, 0x40, 0x1e)));
    assert_eq!(
        "avc1.4d401e".parse::<Codec>(),
        Ok(Codec::avc1(0x4d, 0x40, 0x1e))
    );
}
