//! The registered code points that the codec grammar rests on: sample entry
//! codes, the object type indication of MPEG-4 audio, and the audio object
//! types. The registries themselves live in `mp4ra_rust` and
//! `mpeg4_audio_const`; this module asks them and classifies the answers.

use four_cc::FourCC;
use mp4ra_rust::{ObjectTypeIdentifier, SampleEntryCode};
use mpeg4_audio_const::AudioObjectType;
use vstd::prelude::*;
use vstd::string::StringSliceAdditionalSpecFns;
use vstd::utf8::is_ascii_chars;

verus! {

/// The codec families that have a grammar of their own.
#[derive(Clone, Copy, Debug, PartialEq, Eq, Structural)]
pub enum Family {
    /// MPEG-4 audio sample entries, `mp4a`.
    Audio,
    /// AVC video sample entries, `avc1`.
    Video,
    /// Every other code.
    Other,
}

/// The four characters of the audio sample entry code.
pub open spec fn mp4a_code() -> Seq<char> {
    seq!['m', 'p', '4', 'a']
}

/// The four characters of the video sample entry code.
pub open spec fn avc1_code() -> Seq<char> {
    seq!['a', 'v', 'c', '1']
}

/// A text of one-byte characters as bytes.
pub open spec fn ascii_bytes(text: Seq<char>) -> Seq<u8> {
    Seq::new(text.len(), |i: int| text[i] as u8)
}

/// The object type indication that stands for MPEG-4 audio.
pub open spec fn mpeg4_audio_indication() -> u8 {
    0x40
}

/// The values that denote an audio object type: up to 95, without the escape
/// value 31.
pub open spec fn is_audio_object_type(value: u8) -> bool {
    value != 31 && value <= 95
}

/// The family that a leading code belongs to.
pub open spec fn family_of(code: Seq<char>) -> Family {
    if code == mp4a_code() {
        Family::Audio
    } else if code == avc1_code() {
        Family::Video
    } else {
        Family::Other
    }
}

/// Calls `FourCC::from` on the slice and `SampleEntryCode::from` on the result.
/// The code that comes back holds the first four bytes of the slice, in order.
/// `FourCC::from` reads four bytes, so the slice must hold as many.
#[verifier::external_body]
pub(crate) fn sample_entry_code(bytes: &[u8]) -> (code: [u8; 4])
    requires
        bytes@.len() >= 4,
    ensures
        code@ == bytes@.subrange(0, 4),
{
    SampleEntryCode::from(FourCC::from(bytes)).0.0
}

/// The bytes of `SampleEntryCode::MP4A`, which the registry gives as `mp4a`.
#[verifier::external_body]
pub(crate) fn mp4a_sample_entry() -> (code: [u8; 4])
    ensures
        code@ == ascii_bytes(mp4a_code()),
{
    SampleEntryCode::MP4A.0.0
}

/// The bytes of `SampleEntryCode::AVC1`, which the registry gives as `avc1`.
#[verifier::external_body]
pub(crate) fn avc1_sample_entry() -> (code: [u8; 4])
    ensures
        code@ == ascii_bytes(avc1_code()),
{
    SampleEntryCode::AVC1.0.0
}

/// The byte of `ObjectTypeIdentifier::AUDIO_ISO_IEC_14496_3`, which the
/// registry gives as `0x40`.
#[verifier::external_body]
pub(crate) fn mpeg4_audio_object_type_indication() -> (oti: u8)
    ensures
        oti == mpeg4_audio_indication(),
{
    u8::from(ObjectTypeIdentifier::AUDIO_ISO_IEC_14496_3)
}

/// Calls `AudioObjectType::try_from`, and `u8::from` on what it accepts. The
/// conversion refuses the escape value 31 and every value above 95; any other
/// value comes back unchanged.
#[verifier::external_body]
pub(crate) fn audio_object_type(value: u8) -> (accepted: Option<u8>)
    ensures
        accepted == if is_audio_object_type(value) {
            Some(value)
        } else {
            None
        },
{
    match AudioObjectType::try_from(value) {
        Ok(aot) => Some(u8::from(aot)),
        Err(_) => None,
    }
}

/// Texts of one-byte characters differ where their bytes differ.
pub proof fn lemma_ascii_bytes_injective(a: Seq<char>, b: Seq<char>)
    requires
        is_ascii_chars(a),
        is_ascii_chars(b),
        ascii_bytes(a) == ascii_bytes(b),
    ensures
        a == b,
{
    assert(a.len() == ascii_bytes(a).len());
    assert(b.len() == ascii_bytes(b).len());
    assert forall|i: int| 0 <= i < a.len() implies a[i] == b[i] by {
        assert(ascii_bytes(a)[i] == a[i] as u8);
        assert(ascii_bytes(b)[i] == b[i] as u8);
        assert('\0' <= a[i] <= '\u{7f}');
        assert('\0' <= b[i] <= '\u{7f}');
    }
    assert(a =~= b);
}

/// Both registered codes are made of one-byte characters.
pub proof fn lemma_known_codes_are_ascii()
    ensures
        is_ascii_chars(mp4a_code()),
        is_ascii_chars(avc1_code()),
{
}

/// Whether two codes hold the same four bytes.
fn same_code(a: &[u8; 4], b: &[u8; 4]) -> (r: bool)
    ensures
        r == (a@ == b@),
{
    let r = a[0] == b[0] && a[1] == b[1] && a[2] == b[2] && a[3] == b[3];
    assert(r == (a@ =~= b@));
    r
}

/// Looks a leading code up among the registered sample entry codes.
pub fn family(code: &str) -> (r: Family)
    ensures
        r == family_of(code@),
{
    broadcast use vstd::string::is_ascii_spec_bytes;

    proof {
        lemma_known_codes_are_ascii();
    }

    if code.is_ascii() {
        let bytes = code.as_bytes();
        if bytes.len() == 4 {
            let entry = sample_entry_code(bytes);
            assert(entry@ =~= ascii_bytes(code@));
            if same_code(&entry, &mp4a_sample_entry()) {
                proof {
                    lemma_ascii_bytes_injective(code@, mp4a_code());
                }
                Family::Audio
            } else if same_code(&entry, &avc1_sample_entry()) {
                proof {
                    lemma_ascii_bytes_injective(code@, avc1_code());
                }
                Family::Video
            } else {
                Family::Other
            }
        } else {
            Family::Other
        }
    } else {
        Family::Other
    }
}

} // verus!
