//! The AVC video family: a payload of three bytes, each as two hexadecimal digits.

use crate::error::{result_view, CodecError, ErrorView};
use crate::text::{
    digit_value, hex_pair, lemma_hex_digits_make_a_byte, lemma_hex_pair_reads_back, parse_radix_u8,
    radix_u8,
};
use vstd::prelude::*;

verus! {

/// The parameters of an AVC sample entry.
#[derive(Debug, Clone, Copy, PartialEq, Eq)]
pub struct Avc1 {
    profile: u8,
    constraints: u8,
    level: u8,
}

/// The three bytes that an `Avc1` holds.
pub struct Avc1View {
    pub profile: u8,
    pub constraints: u8,
    pub level: u8,
}

impl View for Avc1 {
    type V = Avc1View;

    closed spec fn view(&self) -> Avc1View {
        Avc1View { profile: self.profile, constraints: self.constraints, level: self.level }
    }
}

/// Number of characters in the payload of an AVC codec string.
pub open spec fn avc1_payload_len() -> usize {
    6
}

/// What an AVC payload denotes. It must have six characters, else its length
/// is refused. Each pair of characters must then be two hexadecimal digits,
/// of either case, else the payload as a whole is refused. The three bytes
/// are the profile, the constraint flags and the level.
pub open spec fn avc1_parse(payload: Seq<char>) -> Result<Avc1View, ErrorView> {
    if payload.len() != avc1_payload_len() {
        Err(ErrorView::UnexpectedLength { expected: avc1_payload_len(), got: payload })
    } else {
        match (
            radix_u8(payload.subrange(0, 2), 16),
            radix_u8(payload.subrange(2, 4), 16),
            radix_u8(payload.subrange(4, 6), 16),
        ) {
            (Some(profile), Some(constraints), Some(level)) => Ok(
                Avc1View { profile, constraints, level },
            ),
            _ => Err(ErrorView::InvalidComponent(payload)),
        }
    }
}

/// The canonical payload: each byte as two upper-case hexadecimal digits.
pub open spec fn avc1_payload(v: Avc1View) -> Seq<char> {
    hex_pair(v.profile, true) + hex_pair(v.constraints, true) + hex_pair(v.level, true)
}

/// Reading a canonical payload gives back the bytes it was written for.
pub proof fn lemma_avc1_payload_reads_back(v: Avc1View)
    ensures
        avc1_payload(v).len() == 6,
        avc1_parse(avc1_payload(v)) == Ok::<Avc1View, ErrorView>(v),
        forall|i: int| 0 <= i < 6 ==> avc1_payload(v)[i] != '.',
{
    let t = avc1_payload(v);
    lemma_hex_pair_reads_back(v.profile, true);
    lemma_hex_pair_reads_back(v.constraints, true);
    lemma_hex_pair_reads_back(v.level, true);
    assert(t.subrange(0, 2) =~= hex_pair(v.profile, true));
    assert(t.subrange(2, 4) =~= hex_pair(v.constraints, true));
    assert(t.subrange(4, 6) =~= hex_pair(v.level, true));
    assert forall|i: int| 0 <= i < 6 implies t[i] != '.' by {
        if i < 2 {
            assert(t[i] == hex_pair(v.profile, true)[i]);
        } else if i < 4 {
            assert(t[i] == hex_pair(v.constraints, true)[i - 2]);
        } else {
            assert(t[i] == hex_pair(v.level, true)[i - 4]);
        }
    }
}

/// A payload of six characters is accepted exactly when all six are
/// hexadecimal digits; any other is refused as a whole.
pub proof fn lemma_avc1_accepts_hex_digits_only(payload: Seq<char>)
    requires
        payload.len() == 6,
    ensures
        avc1_parse(payload) is Ok <==> forall|i: int|
            0 <= i < 6 ==> digit_value(#[trigger] payload[i], 16) is Some,
        avc1_parse(payload) is Err ==> avc1_parse(payload) == Err::<Avc1View, ErrorView>(
            ErrorView::InvalidComponent(payload),
        ),
{
    lemma_hex_digits_make_a_byte(payload[0], payload[1]);
    lemma_hex_digits_make_a_byte(payload[2], payload[3]);
    lemma_hex_digits_make_a_byte(payload[4], payload[5]);
    assert(payload.subrange(0, 2) =~= seq![payload[0], payload[1]]);
    assert(payload.subrange(2, 4) =~= seq![payload[2], payload[3]]);
    assert(payload.subrange(4, 6) =~= seq![payload[4], payload[5]]);
}

impl Avc1 {
    /// The parameters with the given profile, constraint flags and level.
    pub fn new(profile: u8, constraints: u8, level: u8) -> (r: Avc1)
        ensures
            r@ == (Avc1View { profile, constraints, level }),
    {
        Avc1 { profile, constraints, level }
    }

    /// The profile indication.
    pub fn profile(&self) -> (r: u8)
        ensures
            r == self@.profile,
    {
        self.profile
    }

    /// The constraint flags.
    pub fn constraints(&self) -> (r: u8)
        ensures
            r == self@.constraints,
    {
        self.constraints
    }

    /// The level indication.
    pub fn level(&self) -> (r: u8)
        ensures
            r == self@.level,
    {
        self.level
    }

    /// Reads the payload of an AVC codec string: what follows `avc1.`.
    pub fn from_str(value: &str) -> (r: Result<Avc1, CodecError>)
        ensures
            result_view(r) == avc1_parse(value@),
    {
        if value.unicode_len() != 6 {
            return Err(CodecError::UnexpectedLength { expected: 6, got: value.to_owned() });
        }
        let profile = parse_radix_u8(value.substring_char(0, 2), 16);
        let constraints = parse_radix_u8(value.substring_char(2, 4), 16);
        let level = parse_radix_u8(value.substring_char(4, 6), 16);
        match (profile, constraints, level) {
            (Some(profile), Some(constraints), Some(level)) => Ok(
                Avc1 { profile, constraints, level },
            ),
            _ => Err(CodecError::InvalidComponent(value.to_owned())),
        }
    }
}

impl core::str::FromStr for Avc1 {
    type Err = CodecError;

    fn from_str(value: &str) -> (r: Result<Avc1, CodecError>)
        ensures
            result_view(r) == avc1_parse(value@),
    {
        Avc1::from_str(value)
    }
}

} // verus!
