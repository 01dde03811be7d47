//! What holds between reading and writing codec strings.

use crate::avc1::{avc1_payload, avc1_payload_len, lemma_avc1_payload_reads_back};
use crate::codec::{codec_parse, codec_text, rest_after_separator, CodecView};
use crate::error::ErrorView;
use crate::mp4a::{lemma_mp4a_parse_wf, lemma_mp4a_payload_reads_back, mp4a_payload};
use crate::registry::{avc1_code, family_of, mp4a_code, Family};
use crate::text::{first_index_of, lemma_first_index_of};
use vstd::prelude::*;

verus! {

/// In a known code followed by `.` and a payload, the first `.` is the one
/// after the code, and the payload is what follows it.
proof fn lemma_code_then_payload(code: Seq<char>, payload: Seq<char>)
    requires
        code.len() == 4,
        forall|j: int| 0 <= j < 4 ==> code[j] != '.',
    ensures
        first_index_of(code + seq!['.'] + payload, '.') == 4,
        (code + seq!['.'] + payload).take(4) == code,
        rest_after_separator((code + seq!['.'] + payload).skip(4)) == Ok::<Seq<char>, ErrorView>(
            payload,
        ),
{
    let s = code + seq!['.'] + payload;
    assert(s[4] == '.');
    assert forall|j: int| 0 <= j < 4 implies s[j] != '.' by {
        assert(s[j] == code[j]);
    }
    lemma_first_index_of(s, '.', 4);
    assert(s.take(4) =~= code);
    assert(s.skip(4).drop_first() =~= payload);
}

/// Reading never produces a value that is not well formed.
pub proof fn lemma_parse_is_well_formed(s: Seq<char>)
    ensures
        codec_parse(s) matches Ok(c) ==> c.wf(),
{
    let dot = first_index_of(s, '.');
    if dot < s.len() {
        let rest = s.skip(dot);
        if let Ok(payload) = rest_after_separator(rest) {
            lemma_mp4a_parse_wf(payload);
        }
    }
}

/// Writing a well-formed value and reading the string gives the value back.
pub proof fn lemma_text_reads_back(c: CodecView)
    requires
        c.wf(),
    ensures
        codec_parse(codec_text(c)) == Ok::<CodecView, ErrorView>(c),
{
    match c {
        CodecView::Avc1(avc1) => {
            lemma_code_then_payload(avc1_code(), avc1_payload(avc1));
            lemma_avc1_payload_reads_back(avc1);
        },
        CodecView::Mp4a(mp4a) => {
            lemma_code_then_payload(mp4a_code(), mp4a_payload(mp4a));
            lemma_mp4a_payload_reads_back(mp4a);
        },
        CodecView::Unknown(text) => {},
    }
}

/// A string is canonical when it is read, and what was read is written as
/// the same string.
pub open spec fn is_canonical(s: Seq<char>) -> bool {
    match codec_parse(s) {
        Ok(c) => codec_text(c) == s,
        Err(_) => false,
    }
}

/// The string written for a well-formed value is canonical.
pub proof fn lemma_written_text_is_canonical(c: CodecView)
    requires
        c.wf(),
    ensures
        is_canonical(codec_text(c)),
{
    lemma_text_reads_back(c);
}

/// One pass of reading and writing normalises. The string written for what
/// was read from `s` is canonical, and it is read as the value that `s` was
/// read as.
pub proof fn lemma_normalisation_is_idempotent(s: Seq<char>)
    requires
        codec_parse(s) is Ok,
    ensures
        is_canonical(codec_text(codec_parse(s)->Ok_0)),
        codec_parse(codec_text(codec_parse(s)->Ok_0)) == codec_parse(s),
{
    lemma_parse_is_well_formed(s);
    lemma_text_reads_back(codec_parse(s)->Ok_0);
}

/// A string without a `.` is refused, whatever else it holds.
pub proof fn lemma_missing_separator_is_refused(s: Seq<char>)
    requires
        forall|j: int| 0 <= j < s.len() ==> s[j] != '.',
    ensures
        codec_parse(s) == Err::<CodecView, ErrorView>(ErrorView::ExpectedHierarchySeparator(s)),
{
    lemma_first_index_of(s, '.', s.len() as int);
}

/// A string with a `.` whose leading code names no known family is kept as
/// it is, and written back unchanged.
pub proof fn lemma_unknown_code_passes_through(s: Seq<char>)
    requires
        first_index_of(s, '.') < s.len(),
        family_of(s.take(first_index_of(s, '.'))) == Family::Other,
    ensures
        codec_parse(s) == Ok::<CodecView, ErrorView>(CodecView::Unknown(s)),
        is_canonical(s),
{
}

/// An AVC payload of any length but six is refused for its length, with the
/// payload as the text that was found.
pub proof fn lemma_avc1_length_is_enforced(payload: Seq<char>)
    requires
        payload.len() != avc1_payload_len(),
    ensures
        codec_parse(avc1_code() + seq!['.'] + payload) == Err::<CodecView, ErrorView>(
            ErrorView::UnexpectedLength { expected: avc1_payload_len(), got: payload },
        ),
{
    lemma_code_then_payload(avc1_code(), payload);
}

} // verus!
