//! Codec strings as a whole: a leading code, a `.`, and what the code's
//! family prescribes after it.

use crate::avc1::{avc1_parse, avc1_payload, Avc1, Avc1View};
use crate::error::{result_view, CodecError, ErrorView};
use crate::mp4a::{mp4a_parse, mp4a_payload, Mp4a};
use crate::registry::{
    ascii_bytes, avc1_code, avc1_sample_entry, family, family_of, lemma_known_codes_are_ascii,
    mp4a_code, mp4a_sample_entry, Family,
};
use crate::text::{
    find_char, first_index_of, push_hex_pair, split, split_on, texts, trim, trimmed,
};
use vstd::prelude::*;
use vstd::utf8::is_ascii_chars;

verus! {

/// One entry of a codecs parameter.
#[derive(Debug, PartialEq, Eq)]
#[non_exhaustive]
pub enum Codec {
    /// AVC video, `avc1`.
    Avc1(Avc1),
    /// MPEG-4 audio and its relatives, `mp4a`.
    Mp4a(Mp4a),
    /// A codec of no known family, as it was written.
    Unknown(String),
}

/// A `Codec` with its parts as plain values.
pub enum CodecView {
    /// The three bytes of an AVC codec.
    Avc1(Avc1View),
    /// The parameters of an `mp4a` codec.
    Mp4a(Mp4a),
    /// The text of an unknown codec.
    Unknown(Seq<char>),
}

impl View for Codec {
    type V = CodecView;

    open spec fn view(&self) -> CodecView {
        match self {
            Codec::Avc1(avc1) => CodecView::Avc1(avc1@),
            Codec::Mp4a(mp4a) => CodecView::Mp4a(*mp4a),
            Codec::Unknown(text) => CodecView::Unknown(text@),
        }
    }
}

/// The payload in what follows a leading code: nothing where nothing follows,
/// else what stands after the `.` that must come first.
pub open spec fn rest_after_separator(text: Seq<char>) -> Result<Seq<char>, ErrorView> {
    if text.len() == 0 {
        Ok(text)
    } else if text[0] == '.' {
        Ok(text.drop_first())
    } else {
        Err(ErrorView::ExpectedHierarchySeparator(text))
    }
}

/// What a codec string denotes. A string without a `.` is refused, a bare
/// code of four characters too. The leading code is what stands before the
/// first `.`. Unless it has four characters and names a known family, the
/// string is kept whole as an unknown codec. Else the family's grammar decides
/// on what follows the `.`.
pub open spec fn codec_parse(s: Seq<char>) -> Result<CodecView, ErrorView> {
    let dot = first_index_of(s, '.');
    if dot < s.len() {
        let code = s.take(dot);
        let rest = s.skip(dot);
        if code.len() != 4 {
            Ok(CodecView::Unknown(s))
        } else {
            match family_of(code) {
                Family::Audio => match rest_after_separator(rest) {
                    Ok(payload) => match mp4a_parse(payload) {
                        Ok(mp4a) => Ok(CodecView::Mp4a(mp4a)),
                        Err(e) => Err(e),
                    },
                    Err(e) => Err(e),
                },
                Family::Video => match rest_after_separator(rest) {
                    Ok(payload) => match avc1_parse(payload) {
                        Ok(avc1) => Ok(CodecView::Avc1(avc1)),
                        Err(e) => Err(e),
                    },
                    Err(e) => Err(e),
                },
                Family::Other => Ok(CodecView::Unknown(s)),
            }
        }
    } else {
        Err(ErrorView::ExpectedHierarchySeparator(s))
    }
}

/// The canonical string of a codec: for a known family its code, a `.` and the
/// family's canonical payload; for an unknown codec the text it holds.
pub open spec fn codec_text(c: CodecView) -> Seq<char> {
    match c {
        CodecView::Avc1(avc1) => avc1_code() + seq!['.'] + avc1_payload(avc1),
        CodecView::Mp4a(mp4a) => mp4a_code() + seq!['.'] + mp4a_payload(mp4a),
        CodecView::Unknown(text) => text,
    }
}

impl CodecView {
    /// A value as reading produces it. An unknown codec holds a text with a
    /// `.` whose leading code names no known family.
    pub open spec fn wf(self) -> bool {
        match self {
            CodecView::Avc1(_) => true,
            CodecView::Mp4a(mp4a) => mp4a.wf(),
            CodecView::Unknown(text) => {
                let dot = first_index_of(text, '.');
                dot < text.len() && family_of(text.take(dot)) == Family::Other
            },
        }
    }
}

/// Takes the `.` off the front of what follows a leading code.
pub fn get_rest(text: &str) -> (r: Result<&str, CodecError>)
    ensures
        result_view(r) == rest_after_separator(text@),
{
    let n: usize = text.unicode_len();
    if n == 0 {
        Ok(text)
    } else if text.get_char(0) == '.' {
        let rest = text.substring_char(1, n);
        assert(rest@ =~= text@.drop_first());
        Ok(rest)
    } else {
        Err(CodecError::ExpectedHierarchySeparator(text.to_owned()))
    }
}

/// Appends the four characters of a sample entry code.
fn push_code(out: &mut String, code: &[u8; 4], Ghost(text): Ghost<Seq<char>>)
    requires
        text.len() == 4,
        is_ascii_chars(text),
        code@ == ascii_bytes(text),
    ensures
        final(out)@ == old(out)@ + text,
{
    let mut i: usize = 0;
    while i < 4
        invariant
            i <= 4,
            text.len() == 4,
            is_ascii_chars(text),
            code@ == ascii_bytes(text),
            out@ == old(out)@ + text.take(i as int),
        decreases 4 - i,
    {
        let c: char = code[i] as char;
        assert('\0' <= text[i as int] <= '\u{7f}');
        assert(code@[i as int] == text[i as int] as u8);
        assert(c == text[i as int]);
        out.push(c);
        assert(out@ =~= old(out)@ + text.take(i + 1));
        i = i + 1;
    }
    assert(text.take(4) =~= text);
}

impl Codec {
    /// Reads every entry of a comma-separated list, each without the white
    /// space around it. The outcomes stand in the order of the entries, one
    /// for each, whatever became of the others.
    pub fn parse_codecs(codecs: &str) -> (r: Vec<Result<Codec, CodecError>>)
        ensures
            r@.len() == split_on(codecs@, ',').len(),
            forall|i: int|
                0 <= i < r@.len() ==> result_view(#[trigger] r@[i]) == codec_parse(
                    trimmed(split_on(codecs@, ',')[i]),
                ),
    {
        let parts = split(codecs, ',');
        let mut outcomes: Vec<Result<Codec, CodecError>> = Vec::new();
        let mut k: usize = 0;
        while k < parts.len()
            invariant
                k <= parts.len(),
                texts(parts@) == split_on(codecs@, ','),
                outcomes@.len() == k,
                forall|i: int|
                    0 <= i < k ==> result_view(#[trigger] outcomes@[i]) == codec_parse(
                        trimmed(split_on(codecs@, ',')[i]),
                    ),
            decreases parts.len() - k,
        {
            assert(texts(parts@)[k as int] == parts@[k as int]@);
            let entry = trim(parts[k].as_str());
            outcomes.push(Codec::from_str(entry));
            k = k + 1;
        }
        assert(texts(parts@).len() == parts@.len());
        outcomes
    }

    /// An AVC codec with the given profile, constraint flags and level.
    pub fn avc1(profile: u8, constraints: u8, level: u8) -> (r: Codec)
        ensures
            r@ == CodecView::Avc1(Avc1View { profile, constraints, level }),
    {
        Codec::Avc1(Avc1::new(profile, constraints, level))
    }

    /// Reads one codec string.
    pub fn from_str(codec: &str) -> (r: Result<Codec, CodecError>)
        ensures
            result_view(r) == codec_parse(codec@),
            r matches Ok(c) ==> c@.wf(),
    {
        match find_char(codec, '.') {
            None => Err(CodecError::ExpectedHierarchySeparator(codec.to_owned())),
            Some(dot) => {
                let n: usize = codec.unicode_len();
                let code = codec.substring_char(0, dot);
                let rest = codec.substring_char(dot, n);
                assert(code@ =~= codec@.take(dot as int));
                assert(rest@ =~= codec@.skip(dot as int));
                if dot != 4 {
                    return Ok(Codec::Unknown(codec.to_owned()));
                }
                match family(code) {
                    Family::Audio => match get_rest(rest) {
                        Ok(payload) => match Mp4a::from_str(payload) {
                            Ok(mp4a) => Ok(Codec::Mp4a(mp4a)),
                            Err(e) => Err(e),
                        },
                        Err(e) => Err(e),
                    },
                    Family::Video => match get_rest(rest) {
                        Ok(payload) => match Avc1::from_str(payload) {
                            Ok(avc1) => Ok(Codec::Avc1(avc1)),
                            Err(e) => Err(e),
                        },
                        Err(e) => Err(e),
                    },
                    Family::Other => Ok(Codec::Unknown(codec.to_owned())),
                }
            },
        }
    }

    /// Writes the canonical string.
    pub fn to_string(&self) -> (r: String)
        ensures
            r@ == codec_text(self@),
    {
        proof {
            lemma_known_codes_are_ascii();
        }
        match self {
            Codec::Avc1(avc1) => {
                let mut out = String::new();
                push_code(&mut out, &avc1_sample_entry(), Ghost(avc1_code()));
                out.push('.');
                push_hex_pair(&mut out, avc1.profile(), true);
                push_hex_pair(&mut out, avc1.constraints(), true);
                push_hex_pair(&mut out, avc1.level(), true);
                assert(out@ =~= codec_text(self@));
                out
            },
            Codec::Mp4a(mp4a) => {
                let mut out = String::new();
                push_code(&mut out, &mp4a_sample_entry(), Ghost(mp4a_code()));
                out.push('.');
                let payload = mp4a.to_string();
                out.append(payload.as_str());
                assert(out@ =~= codec_text(self@));
                out
            },
            Codec::Unknown(text) => text.clone(),
        }
    }
}

impl Clone for Codec {
    fn clone(&self) -> (r: Codec)
        ensures
            r@ == self@,
    {
        match self {
            Codec::Avc1(avc1) => Codec::Avc1(*avc1),
            Codec::Mp4a(mp4a) => Codec::Mp4a(*mp4a),
            Codec::Unknown(text) => Codec::Unknown(text.clone()),
        }
    }
}

impl core::str::FromStr for Codec {
    type Err = CodecError;

    fn from_str(codec: &str) -> (r: Result<Codec, CodecError>)
        ensures
            result_view(r) == codec_parse(codec@),
    {
        Codec::from_str(codec)
    }
}

} // verus!
