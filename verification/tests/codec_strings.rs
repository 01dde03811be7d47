use mp4ra_rust::ObjectTypeIdentifier;
use mpeg4_audio_const::AudioObjectType;
use rfc6381_codec::{Avc1, Codec, CodecError, Mp4a};

fn roundtrip(codec: &str) {
    assert_eq!(codec, Codec::from_str(codec).unwrap().to_string())
}

#[test]
fn mp4a() {
    assert!(matches!(
        Codec::from_str("mp4a.40.3"),
        Ok(Codec::Mp4a(Mp4a::Mpeg4Audio {
            audio_object_type: Some(aot)
        })) if aot == u8::from(AudioObjectType::AAC_SSR)
    ));
    roundtrip("mp4a.40.3");
}

#[test]
fn unknown_oti() {
    const RESERVED_X41: ObjectTypeIdentifier = ObjectTypeIdentifier(0x41);
    assert!(matches!(
        Codec::from_str("mp4a.41"),
        Ok(Codec::Mp4a(Mp4a::Unknown {
            object_type_indication: oti,
            audio_object_type_indication: None
        })) if ObjectTypeIdentifier::from(oti) == RESERVED_X41
    ));
    roundtrip("mp4a.41");
}

#[test]
fn bad_oti_digit() {
    assert!(matches!(Codec::from_str("mp4a.4g"), Err(_)));
}

#[test]
fn list() {
    let mut i = Codec::parse_codecs("mp4a.40.2,avc1.4d401e").into_iter();
    assert!(matches!(
        i.next().unwrap(),
        Ok(Codec::Mp4a(Mp4a::Mpeg4Audio {
            audio_object_type: Some(aot)
        })) if aot == u8::from(AudioObjectType::AAC_LC)
    ));
    let second = i.next().unwrap();
    assert!(matches!(
        &second,
        Ok(Codec::Avc1(avc1))
            if avc1.profile() == 0x4d && avc1.constraints() == 0x40 && avc1.level() == 0x1e
    ));
    assert_eq!(second, Ok(Codec::Avc1(Avc1::new(0x4d, 0x40, 0x1e))));
    assert!(i.next().is_none());
}

#[test]
fn avc1() {
    assert!(matches!(
        Codec::from_str("avc1.4d401e"),
        Ok(Codec::Avc1(avc1))
            if avc1.profile() == 0x4d && avc1.constraints() == 0x40 && avc1.level() == 0x1e
    ));
    roundtrip("avc1.4D401E");
}

#[test]
fn bad_avc1_lengths() {
    assert!(
        matches!(Codec::from_str("avc1.41141"), Err(CodecError::UnexpectedLength { expected: 6, got: text }) if text == "41141")
    );
    assert!(
        matches!(Codec::from_str("avc1.4114134"), Err(CodecError::UnexpectedLength { expected: 6, got: text }) if text == "4114134")
    );
}

#[test]
fn unknown_fourcc() {
    assert!(matches!(Codec::from_str("badd.41"), Ok(Codec::Unknown(v)) if v == "badd.41"));
    roundtrip("badd.41");
}

#[test]
fn invalid_unicode_boundary() {
    // Byte position 4 lies inside a character: cutting off the first four
    // bytes would fail. The string has no separator, so it is refused.
    assert!(Codec::from_str("cod👍ec").is_err())
}
