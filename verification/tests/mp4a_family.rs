use mp4ra_rust::ObjectTypeIdentifier;
use mpeg4_audio_const::AudioObjectType;
use rfc6381_codec::{Codec, CodecError, Mp4a};
use std::convert::TryFrom;

fn invalid(text: &str) -> Result<Codec, CodecError> {
    Err(CodecError::InvalidComponent(text.to_string()))
}

fn mpeg4(aot: Option<u8>) -> Result<Codec, CodecError> {
    Ok(Codec::Mp4a(Mp4a::Mpeg4Audio {
        audio_object_type: aot,
    }))
}

fn other(oti: u8, secondary: Option<u8>) -> Result<Codec, CodecError> {
    Ok(Codec::Mp4a(Mp4a::Unknown {
        object_type_indication: oti,
        audio_object_type_indication: secondary,
    }))
}

#[test]
fn mp4a_without_secondary_value() {
    assert_eq!(Codec::from_str("mp4a.40"), mpeg4(None));
    assert_eq!(Codec::from_str("mp4a.40").unwrap().to_string(), "mp4a.40");
    assert_eq!(Codec::from_str("mp4a.6B"), other(0x6b, None));
    assert_eq!(Codec::from_str("mp4a.6B").unwrap().to_string(), "mp4a.6b");
}

#[test]
fn mp4a_indication_comes_from_the_registry() {
    let oti = u8::from(ObjectTypeIdentifier::AUDIO_ISO_IEC_14496_3);
    let text = format!("mp4a.{:02x}.2", oti);
    assert_eq!(Codec::from_str(&text), mpeg4(Some(2)));
    assert_eq!(
        Codec::Mp4a(Mp4a::Mpeg4Audio {
            audio_object_type: None
        })
        .to_string(),
        format!("mp4a.{:02x}", oti)
    );
}

#[test]
fn mp4a_secondary_value_is_decimal() {
    assert_eq!(Codec::from_str("mp4a.40.10"), mpeg4(Some(10)));
    assert_eq!(
        Codec::from_str("mp4a.40.10").unwrap().to_string(),
        "mp4a.40.10"
    );
    assert_eq!(Codec::from_str("mp4a.40.29"), mpeg4(Some(29)));
    assert_eq!(Codec::from_str("mp4a.41.255"), other(0x41, Some(255)));
    assert_eq!(
        Codec::from_str("mp4a.41.255").unwrap().to_string(),
        "mp4a.41.255"
    );
    assert_eq!(Codec::from_str("mp4a.41.ff"), invalid("ff"));
    assert_eq!(Codec::from_str("mp4a.40.1a"), invalid("1a"));
}

#[test]
fn mp4a_secondary_value_is_written_without_padding() {
    assert_eq!(Codec::from_str("mp4a.40.002"), mpeg4(Some(2)));
    assert_eq!(
        Codec::from_str("mp4a.40.002").unwrap().to_string(),
        "mp4a.40.2"
    );
    assert_eq!(
        Codec::from_str("mp4a.0040.2").unwrap().to_string(),
        "mp4a.40.2"
    );
    assert_eq!(
        Codec::from_str("mp4a.E1.007").unwrap().to_string(),
        "mp4a.e1.7"
    );
    assert_eq!(
        Codec::from_str("mp4a.5.0").unwrap().to_string(),
        "mp4a.05.0"
    );
}

#[test]
fn mp4a_audio_object_type_is_checked() {
    assert_eq!(Codec::from_str("mp4a.40.0"), mpeg4(Some(0)));
    assert_eq!(Codec::from_str("mp4a.40.30"), mpeg4(Some(30)));
    assert_eq!(Codec::from_str("mp4a.40.31"), invalid("31"));
    assert_eq!(Codec::from_str("mp4a.40.32"), mpeg4(Some(32)));
    assert_eq!(Codec::from_str("mp4a.40.95"), mpeg4(Some(95)));
    assert_eq!(Codec::from_str("mp4a.40.96"), invalid("96"));
    assert_eq!(Codec::from_str("mp4a.40.255"), invalid("255"));
    // The value is reported in its decimal form, not as it was written.
    assert_eq!(Codec::from_str("mp4a.40.031"), invalid("31"));
    assert_eq!(Codec::from_str("mp4a.40.0100"), invalid("100"));
}

#[test]
fn mp4a_accepts_what_the_registry_accepts() {
    for value in 0..=255u8 {
        let parsed = Codec::from_str(&format!("mp4a.40.{}", value));
        match AudioObjectType::try_from(value) {
            Ok(aot) => assert_eq!(parsed, mpeg4(Some(u8::from(aot)))),
            Err(_) => assert_eq!(parsed, invalid(&value.to_string())),
        }
    }
}

#[test]
fn mp4a_other_indication_keeps_any_secondary_value() {
    assert_eq!(Codec::from_str("mp4a.41.31"), other(0x41, Some(31)));
    assert_eq!(Codec::from_str("mp4a.69.200"), other(0x69, Some(200)));
    assert_eq!(Codec::from_str("mp4a.00.0"), other(0, Some(0)));
    assert_eq!(Codec::from_str("mp4a.ff"), other(0xff, None));
}

#[test]
fn mp4a_bad_components() {
    assert_eq!(Codec::from_str("mp4a.4g"), invalid("4g"));
    assert_eq!(Codec::from_str("mp4a."), invalid(""));
    assert_eq!(Codec::from_str("mp4a..2"), invalid(""));
    assert_eq!(Codec::from_str("mp4a.100"), invalid("100"));
    assert_eq!(Codec::from_str("mp4a.+"), invalid("+"));
    assert_eq!(Codec::from_str("mp4a.+40"), invalid("+40"));
    assert_eq!(Codec::from_str("mp4a.+40.+2"), invalid("+40"));
    assert_eq!(Codec::from_str("mp4a.40.+2"), invalid("+2"));
    assert_eq!(Codec::from_str("mp4a.41.+2"), invalid("+2"));
    assert_eq!(Codec::from_str("mp4a.40.+100"), invalid("+100"));
    assert_eq!(Codec::from_str("mp4a.-1"), invalid("-1"));
    assert_eq!(Codec::from_str("mp4a.40."), invalid(""));
    assert_eq!(Codec::from_str("mp4a.40.256"), invalid("256"));
    assert_eq!(Codec::from_str("mp4a.40.2.1"), invalid("2.1"));
    assert_eq!(Codec::from_str("mp4a.40. 2"), invalid(" 2"));
    assert_eq!(Codec::from_str("mp4a.4é.2"), invalid("4é"));
    assert_eq!(Codec::from_str("mp4a.41.٣"), invalid("٣"));
    // The first component is judged first.
    assert_eq!(Codec::from_str("mp4a.zz.zz"), invalid("zz"));
}

#[test]
fn mp4a_payload_alone() {
    assert_eq!(
        Mp4a::from_str("40.2"),
        Ok(Mp4a::Mpeg4Audio {
            audio_object_type: Some(2)
        })
    );
    assert_eq!(
        "41".parse::<Mp4a>(),
        Ok(Mp4a::Unknown {
            object_type_indication: 0x41,
            audio_object_type_indication: None
        })
    );
    assert_eq!(
        Mp4a::from_str("40.31"),
        Err(CodecError::InvalidComponent("31".to_string()))
    );
    assert_eq!(
        Mp4a::from_str("+40.+2"),
        Err(CodecError::InvalidComponent("+40".to_string()))
    );
}

#[test]
fn mp4a_resolve_by_value() {
    assert_eq!(
        Mp4a::resolve(0x40, None),
        Ok(Mp4a::Mpeg4Audio {
            audio_object_type: None
        })
    );
    assert_eq!(
        Mp4a::resolve(0x40, Some(5)),
        Ok(Mp4a::Mpeg4Audio {
            audio_object_type: Some(5)
        })
    );
    assert_eq!(
        Mp4a::resolve(0x40, Some(131)),
        Err(CodecError::InvalidComponent("131".to_string()))
    );
    assert_eq!(
        Mp4a::resolve(0x40, Some(31)),
        Err(CodecError::InvalidComponent("31".to_string()))
    );
    assert_eq!(
        Mp4a::resolve(0x20, Some(31)),
        Ok(Mp4a::Unknown {
            object_type_indication: 0x20,
            audio_object_type_indication: Some(31)
        })
    );
}

#[test]
fn mp4a_payload_text() {
    assert_eq!(
        Mp4a::Mpeg4Audio {
            audio_object_type: Some(42)
        }
        .to_string(),
        "40.42"
    );
    assert_eq!(
        Mp4a::Unknown {
            object_type_indication: 0x0a,
            audio_object_type_indication: Some(105)
        }
        .to_string(),
        "0a.105"
    );
    assert_eq!(
        Mp4a::Unknown {
            object_type_indication: 0xdd,
            audio_object_type_indication: None
        }
        .to_string(),
        "dd"
    );
}

#[test]
fn mp4a_every_well_formed_value_round_trips() {
    for oti in 0..=255u8 {
        for secondary in std::iter::once(None).chain((0..=255u8).map(Some)) {
            let value = if oti == 0x40 {
                match secondary {
                    Some(v) if v == 31 || v > 95 => continue,
                    _ => Mp4a::Mpeg4Audio {
                        audio_object_type: secondary,
                    },
                }
            } else {
                Mp4a::Unknown {
                    object_type_indication: oti,
                    audio_object_type_indication: secondary,
                }
            };
            let text = Codec::Mp4a(value).to_string();
            assert_eq!(Codec::from_str(&text), Ok(Codec::Mp4a(value)), "{}", text);
        }
    }
}
