//! The MPEG-4 audio family: an object type indication in hexadecimal, then,
//! after a `.`, an optional secondary value in decimal.

use crate::error::{result_view, CodecError, ErrorView};
use crate::registry::{
    audio_object_type, is_audio_object_type, mpeg4_audio_indication,
    mpeg4_audio_object_type_indication,
};
use crate::text::{
    decimal_text, find_char, first_index_of, hex_pair, lemma_decimal_reads_back,
    lemma_first_index_of, lemma_hex_pair_reads_back, parse_radix_u8, push_decimal, push_hex_pair,
    radix_u8,
};
use vstd::prelude::*;

verus! {

/// The parameters of an `mp4a` sample entry. The audio object type is held
/// as its number; reading gives only numbers that the registry of audio
/// object types accepts.
#[derive(Debug, Clone, Copy, PartialEq, Eq)]
#[non_exhaustive]
pub enum Mp4a {
    /// MPEG-4 audio, with its audio object type where the string gives one.
    Mpeg4Audio { audio_object_type: Option<u8> },
    /// Any other object type indication, with the secondary value as written.
    Unknown { object_type_indication: u8, audio_object_type_indication: Option<u8> },
}

impl View for Mp4a {
    type V = Mp4a;

    open spec fn view(&self) -> Mp4a {
        *self
    }
}

/// The value for an object type indication and an optional secondary value.
/// Under the indication of MPEG-4 audio the secondary value must be an audio
/// object type, else it is refused, in its decimal form. Under any other
/// indication both are kept as they are.
pub open spec fn mp4a_resolve(oti: u8, secondary: Option<u8>) -> Result<Mp4a, ErrorView> {
    if oti == mpeg4_audio_indication() {
        match secondary {
            Some(value) => if is_audio_object_type(value) {
                Ok(Mp4a::Mpeg4Audio { audio_object_type: secondary })
            } else {
                Err(ErrorView::InvalidComponent(decimal_text(value)))
            },
            None => Ok(Mp4a::Mpeg4Audio { audio_object_type: None }),
        }
    } else {
        Ok(Mp4a::Unknown { object_type_indication: oti, audio_object_type_indication: secondary })
    }
}

/// What an `mp4a` payload denotes. The payload is cut at its first `.`. What
/// stands before it must read as a hexadecimal byte, the object type
/// indication. What stands after it, if there is a `.`, must read as a decimal
/// byte, the secondary value. Both are read in the sense of `radix_u8`: in
/// digits alone, without a sign. A part that does not read so is refused, the
/// first part first, and the refusal holds that part.
pub open spec fn mp4a_parse(payload: Seq<char>) -> Result<Mp4a, ErrorView> {
    let dot = first_index_of(payload, '.');
    let first = payload.take(dot);
    match radix_u8(first, 16) {
        None => Err(ErrorView::InvalidComponent(first)),
        Some(oti) => if dot < payload.len() {
            let second = payload.skip(dot + 1);
            match radix_u8(second, 10) {
                None => Err(ErrorView::InvalidComponent(second)),
                Some(value) => mp4a_resolve(oti, Some(value)),
            }
        } else {
            mp4a_resolve(oti, None)
        },
    }
}

/// The canonical payload: the object type indication as two lower-case
/// hexadecimal digits, then, if there is a secondary value, a `.` and that
/// value in decimal.
pub open spec fn mp4a_payload(m: Mp4a) -> Seq<char> {
    hex_pair(m.object_type_indication(), false) + match m.secondary() {
        Some(value) => seq!['.'] + decimal_text(value),
        None => Seq::<char>::empty(),
    }
}

impl Mp4a {
    /// The object type indication that the value stands under.
    pub open spec fn object_type_indication(&self) -> u8 {
        match *self {
            Mp4a::Mpeg4Audio { .. } => mpeg4_audio_indication(),
            Mp4a::Unknown { object_type_indication, .. } => object_type_indication,
        }
    }

    /// The secondary value, if there is one.
    pub open spec fn secondary(&self) -> Option<u8> {
        match *self {
            Mp4a::Mpeg4Audio { audio_object_type } => audio_object_type,
            Mp4a::Unknown { audio_object_type_indication, .. } => audio_object_type_indication,
        }
    }

    /// A value as reading produces it: an audio object type under MPEG-4
    /// audio, and no value marked unknown that stands under MPEG-4 audio.
    pub open spec fn wf(&self) -> bool {
        match *self {
            Mp4a::Mpeg4Audio { audio_object_type } => match audio_object_type {
                Some(value) => is_audio_object_type(value),
                None => true,
            },
            Mp4a::Unknown { object_type_indication, .. } => object_type_indication
                != mpeg4_audio_indication(),
        }
    }

    /// Builds the value for an object type indication and a secondary value
    /// that were read from a payload.
    pub fn resolve(oti: u8, secondary: Option<u8>) -> (r: Result<Mp4a, CodecError>)
        ensures
            result_view(r) == mp4a_resolve(oti, secondary),
    {
        if oti == mpeg4_audio_object_type_indication() {
            match secondary {
                None => Ok(Mp4a::Mpeg4Audio { audio_object_type: None }),
                Some(value) => match audio_object_type(value) {
                    Some(aot) => Ok(Mp4a::Mpeg4Audio { audio_object_type: Some(aot) }),
                    None => {
                        let mut text = String::new();
                        push_decimal(&mut text, value);
                        assert(text@ =~= decimal_text(value));
                        Err(CodecError::InvalidComponent(text))
                    },
                },
            }
        } else {
            Ok(
                Mp4a::Unknown {
                    object_type_indication: oti,
                    audio_object_type_indication: secondary,
                },
            )
        }
    }

    /// Reads the payload of an `mp4a` codec string: what follows `mp4a.`.
    pub fn from_str(value: &str) -> (r: Result<Mp4a, CodecError>)
        ensures
            result_view(r) == mp4a_parse(value@),
            r matches Ok(m) ==> m.wf(),
    {
        let n: usize = value.unicode_len();
        match find_char(value, '.') {
            Some(dot) => {
                let first = value.substring_char(0, dot);
                let second = value.substring_char(dot + 1, n);
                assert(first@ =~= value@.take(dot as int));
                assert(second@ =~= value@.skip(dot + 1));
                match parse_radix_u8(first, 16) {
                    None => Err(CodecError::InvalidComponent(first.to_owned())),
                    Some(oti) => match parse_radix_u8(second, 10) {
                        None => Err(CodecError::InvalidComponent(second.to_owned())),
                        Some(secondary) => Mp4a::resolve(oti, Some(secondary)),
                    },
                }
            },
            None => {
                assert(value@ =~= value@.take(n as int));
                match parse_radix_u8(value, 16) {
                    None => Err(CodecError::InvalidComponent(value.to_owned())),
                    Some(oti) => Mp4a::resolve(oti, None),
                }
            },
        }
    }

    /// Writes the canonical payload.
    pub fn to_string(&self) -> (r: String)
        ensures
            r@ == mp4a_payload(*self),
    {
        let mut out = String::new();
        let (oti, secondary) = match *self {
            Mp4a::Mpeg4Audio { audio_object_type } => (
                mpeg4_audio_object_type_indication(),
                audio_object_type,
            ),
            Mp4a::Unknown { object_type_indication, audio_object_type_indication } => (
                object_type_indication,
                audio_object_type_indication,
            ),
        };
        push_hex_pair(&mut out, oti, false);
        if let Some(value) = secondary {
            out.push('.');
            push_decimal(&mut out, value);
        }
        assert(out@ =~= mp4a_payload(*self));
        out
    }
}

/// Every value that reading produces is well formed.
pub proof fn lemma_mp4a_parse_wf(payload: Seq<char>)
    ensures
        mp4a_parse(payload) matches Ok(m) ==> m.wf(),
{
}

/// Reading the canonical payload of a well-formed value gives that value back.
pub proof fn lemma_mp4a_payload_reads_back(m: Mp4a)
    requires
        m.wf(),
    ensures
        mp4a_parse(mp4a_payload(m)) == Ok::<Mp4a, ErrorView>(m),
{
    let oti = m.object_type_indication();
    let t = mp4a_payload(m);
    lemma_hex_pair_reads_back(oti, false);
    match m.secondary() {
        Some(value) => {
            lemma_decimal_reads_back(value);
            assert(t[2] == '.');
            assert forall|j: int| 0 <= j < 2 implies t[j] != '.' by {
                assert(t[j] == hex_pair(oti, false)[j]);
            }
            lemma_first_index_of(t, '.', 2);
            assert(t.take(2) =~= hex_pair(oti, false));
            assert(t.skip(3) =~= decimal_text(value));
        },
        None => {
            assert(t =~= hex_pair(oti, false));
            lemma_first_index_of(t, '.', 2);
            assert(t.take(2) =~= t);
        },
    }
}

impl core::str::FromStr for Mp4a {
    type Err = CodecError;

    fn from_str(value: &str) -> (r: Result<Mp4a, CodecError>)
        ensures
            result_view(r) == mp4a_parse(value@),
    {
        Mp4a::from_str(value)
    }
}

} // verus!
