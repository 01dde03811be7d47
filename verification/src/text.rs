//! Character-level building blocks: searching, number parsing and number rendering.

use vstd::prelude::*;
use vstd::string::StringSliceAdditionalSpecFns;
use vstd::utf8::encode_utf8;

verus! {

/// `String::push` appends exactly the given character and leaves the rest of
/// the string as it was.
pub assume_specification[ String::push ](s: &mut String, c: char)
    ensures
        final(s)@ == old(s)@.push(c),
;

/// Position of the first occurrence of `c` in `s`, or `s.len()` when there is none.
pub open spec fn first_index_of(s: Seq<char>, c: char) -> int
    decreases s.len(),
{
    if s.len() == 0 || s[0] == c {
        0
    } else {
        1 + first_index_of(s.drop_first(), c)
    }
}

/// `first_index_of` is the one position that holds `c` and has no `c` before it.
pub proof fn lemma_first_index_of(s: Seq<char>, c: char, k: int)
    requires
        0 <= k <= s.len(),
        forall|j: int| 0 <= j < k ==> s[j] != c,
        k < s.len() ==> s[k] == c,
    ensures
        first_index_of(s, c) == k,
    decreases k,
{
    if k > 0 {
        lemma_first_index_of(s.drop_first(), c, k - 1);
    }
}

/// A text never has more characters than its encoding has bytes.
pub proof fn lemma_char_count_le_byte_count(chars: Seq<char>)
    ensures
        chars.len() <= encode_utf8(chars).len(),
    decreases chars.len(),
{
    if chars.len() > 0 {
        lemma_char_count_le_byte_count(chars.drop_first());
    }
}

/// Establishes that the number of characters of `s` fits in a `usize`.
fn char_count_fits(s: &str)
    ensures
        s@.len() <= usize::MAX,
{
    let _n: usize = s.as_bytes().len();
    proof {
        lemma_char_count_le_byte_count(s@);
    }
}

/// Finds the first occurrence of `c` in `s`, counted in characters.
pub fn find_char(s: &str, c: char) -> (r: Option<usize>)
    ensures
        match r {
            Some(k) => k == first_index_of(s@, c) && k < s@.len(),
            None => first_index_of(s@, c) == s@.len(),
        },
{
    char_count_fits(s);
    let mut i: usize = 0;
    for x in it: s.chars()
        invariant
            i == it.index(),
            it.seq() == s@,
            s@.len() <= usize::MAX,
            forall|j: int| 0 <= j < i ==> s@[j] != c,
    {
        if x == c {
            proof {
                lemma_first_index_of(s@, c, i as int);
            }
            return Some(i);
        }
        i = i + 1;
    }
    proof {
        lemma_first_index_of(s@, c, i as int);
    }
    None
}

/// Value of `c` as a digit in the given radix: `0`-`9`, then the letters of
/// either case from ten on. `None` when `c` is no digit of that radix.
pub open spec fn digit_value(c: char, radix: nat) -> Option<nat> {
    let d: int = if '0' <= c && c <= '9' {
        c as int - '0' as int
    } else if 'a' <= c && c <= 'z' {
        c as int - 'a' as int + 10
    } else if 'A' <= c && c <= 'Z' {
        c as int - 'A' as int + 10
    } else {
        -1
    };
    if 0 <= d < radix {
        Some(d as nat)
    } else {
        None
    }
}

/// Value of a run of digits, most significant first. The empty run is zero;
/// a run that holds anything but digits has no value.
pub open spec fn digits_value(s: Seq<char>, radix: nat) -> Option<nat>
    decreases s.len(),
{
    if s.len() == 0 {
        Some(0)
    } else {
        match (digits_value(s.drop_last(), radix), digit_value(s.last(), radix)) {
            (Some(high), Some(d)) => Some(high * radix + d),
            _ => None,
        }
    }
}

/// The byte that a number text denotes: at least one digit of the radix and
/// nothing but such digits, the value at most 255. Leading zeros are
/// accepted; a sign, white space or any other character is not. A text of
/// any other form denotes nothing.
pub open spec fn radix_u8(s: Seq<char>, radix: nat) -> Option<u8> {
    match digits_value(s, radix) {
        Some(v) => if s.len() > 0 && v <= 255 {
            Some(v as u8)
        } else {
            None
        },
        None => None,
    }
}

/// A run of digits has no value once a prefix has none, and in a radix of at
/// least one it is worth at least as much as each of its prefixes.
pub proof fn lemma_digits_value_prefix(s: Seq<char>, k: int, radix: nat)
    requires
        0 <= k <= s.len(),
    ensures
        match digits_value(s.take(k), radix) {
            Some(v) => match digits_value(s, radix) {
                Some(w) => radix >= 1 ==> v <= w,
                None => true,
            },
            None => digits_value(s, radix) is None,
        },
    decreases s.len() - k,
{
    if k == s.len() {
        assert(s.take(k) =~= s);
    } else {
        let t = s.drop_last();
        assert(t.take(k) =~= s.take(k));
        lemma_digits_value_prefix(t, k, radix);
        match (digits_value(t, radix), digit_value(s.last(), radix)) {
            (Some(high), Some(d)) => {
                assert(radix >= 1 ==> high <= high * radix + d) by (nonlinear_arith)
                    requires
                        d >= 0,
                        high >= 0,
                ;
            },
            _ => {},
        }
    }
}

/// A text that denotes a byte is not empty and holds digits of the radix
/// only.
pub proof fn lemma_radix_u8_reads_digits_only(s: Seq<char>, radix: nat)
    requires
        radix_u8(s, radix) is Some,
    ensures
        s.len() > 0,
        forall|i: int| 0 <= i < s.len() ==> digit_value(#[trigger] s[i], radix) is Some,
{
    assert forall|i: int| 0 <= i < s.len() implies digit_value(#[trigger] s[i], radix) is Some by {
        assert(s.take(i + 1).last() == s[i]);
        lemma_digits_value_prefix(s, i + 1, radix);
    }
}

/// Digit value of one character.
fn digit_of(c: char, radix: u8) -> (r: Option<u8>)
    ensures
        match r {
            Some(d) => digit_value(c, radix as nat) == Some(d as nat),
            None => digit_value(c, radix as nat) is None,
        },
{
    let code: u32 = c as u32;
    let v: u32 = if 48 <= code && code <= 57 {
        code - 48
    } else if 97 <= code && code <= 122 {
        code - 97 + 10
    } else if 65 <= code && code <= 90 {
        code - 65 + 10
    } else {
        return None;
    };
    if v < radix as u32 {
        Some(v as u8)
    } else {
        None
    }
}

/// Reads a byte written in the given radix, in digits alone.
pub fn parse_radix_u8(s: &str, radix: u8) -> (r: Option<u8>)
    ensures
        r == radix_u8(s@, radix as nat),
{
    let mut acc: u16 = 0;
    let mut any: bool = false;
    for c in it: s.chars()
        invariant
            it.seq() == s@,
            any == (it.index() > 0),
            acc <= 255,
            digits_value(s@.take(it.index() as int), radix as nat) == Some(acc as nat),
    {
        let ghost i: int = it.index() as int;
        assert(s@.take(i + 1).drop_last() =~= s@.take(i));
        proof {
            lemma_digits_value_prefix(s@, i + 1, radix as nat);
        }
        match digit_of(c, radix) {
            None => {
                return None;
            },
            Some(d) => {
                assert(acc * radix <= 255 * 255) by (nonlinear_arith)
                    requires
                        acc <= 255,
                        radix <= 255,
                ;
                let next: u16 = acc * (radix as u16) + (d as u16);
                if next > 255 {
                    return None;
                }
                acc = next;
                any = true;
            },
        }
    }
    assert(s@.take(s@.len() as int) =~= s@);
    if any {
        Some(acc as u8)
    } else {
        None
    }
}

/// The character for a digit below 36: `0`-`9`, then letters of the chosen case.
pub open spec fn digit_char(d: nat, upper: bool) -> char {
    if d < 10 {
        ('0' as nat + d) as char
    } else if upper {
        ('A' as nat + d - 10) as char
    } else {
        ('a' as nat + d - 10) as char
    }
}

/// A byte as exactly two hexadecimal digits, zero-padded.
pub open spec fn hex_pair(b: u8, upper: bool) -> Seq<char> {
    seq![digit_char((b / 16) as nat, upper), digit_char((b % 16) as nat, upper)]
}

/// A byte in decimal, without padding.
pub open spec fn decimal_text(b: u8) -> Seq<char> {
    if b < 10 {
        seq![digit_char(b as nat, false)]
    } else if b < 100 {
        seq![digit_char((b / 10) as nat, false), digit_char((b % 10) as nat, false)]
    } else {
        seq![
            digit_char((b / 100) as nat, false),
            digit_char((b / 10 % 10) as nat, false),
            digit_char((b % 10) as nat, false),
        ]
    }
}

/// A digit's character is read back as that digit, and is no separator.
pub proof fn lemma_digit_char_reads_back(d: nat, upper: bool, radix: nat)
    requires
        d < radix <= 36,
    ensures
        digit_value(digit_char(d, upper), radix) == Some(d),
        digit_char(d, upper) != '.',
{
}

/// The value of one digit, and of two and three digits in a row.
pub proof fn lemma_digits_value_short(s: Seq<char>, radix: nat)
    requires
        1 <= s.len() <= 3,
        forall|i: int| 0 <= i < s.len() ==> digit_value(#[trigger] s[i], radix) is Some,
    ensures
        s.len() == 1 ==> digits_value(s, radix) == Some(digit_value(s[0], radix).unwrap()),
        s.len() == 2 ==> digits_value(s, radix) == Some(
            digit_value(s[0], radix).unwrap() * radix + digit_value(s[1], radix).unwrap(),
        ),
        s.len() == 3 ==> digits_value(s, radix) == Some(
            (digit_value(s[0], radix).unwrap() * radix + digit_value(s[1], radix).unwrap()) * radix
                + digit_value(s[2], radix).unwrap(),
        ),
    decreases s.len(),
{
    let t = s.drop_last();
    if s.len() == 1 {
        assert(digits_value(t, radix) == Some(0nat));
        assert(0 * radix == 0) by (nonlinear_arith);
    } else {
        assert forall|i: int| 0 <= i < t.len() implies digit_value(#[trigger] t[i], radix) is Some by {
            assert(t[i] == s[i]);
        }
        lemma_digits_value_short(t, radix);
    }
}

/// Two characters denote a hexadecimal byte exactly when both are hexadecimal
/// digits, and then the first counts sixteenfold.
pub proof fn lemma_hex_digits_make_a_byte(high: char, low: char)
    ensures
        match (digit_value(high, 16), digit_value(low, 16)) {
            (Some(h), Some(l)) => radix_u8(seq![high, low], 16) == Some((h * 16 + l) as u8),
            _ => radix_u8(seq![high, low], 16) is None,
        },
{
    let s = seq![high, low];
    let t = s.drop_last();
    assert(s.last() == low);
    assert(t.last() == high);
    assert(t.drop_last().len() == 0);
    assert(digits_value(t.drop_last(), 16) == Some(0nat));
    assert(digits_value(t, 16) == match digit_value(high, 16) {
        Some(h) => Some(h),
        None => None,
    });
    assert(digits_value(s, 16) == match (digits_value(t, 16), digit_value(low, 16)) {
        (Some(h), Some(l)) => Some(h * 16 + l),
        _ => None,
    });
}

/// Two hexadecimal digits of either case are read back as the byte they were
/// written for.
pub proof fn lemma_hex_pair_reads_back(b: u8, upper: bool)
    ensures
        hex_pair(b, upper).len() == 2,
        radix_u8(hex_pair(b, upper), 16) == Some(b),
        forall|i: int| 0 <= i < 2 ==> hex_pair(b, upper)[i] != '.',
{
    let s = hex_pair(b, upper);
    lemma_digit_char_reads_back((b / 16) as nat, upper, 16);
    lemma_digit_char_reads_back((b % 16) as nat, upper, 16);
    lemma_digits_value_short(s, 16);
}

/// A byte's decimal text is read back as that byte.
pub proof fn lemma_decimal_reads_back(b: u8)
    ensures
        1 <= decimal_text(b).len() <= 3,
        radix_u8(decimal_text(b), 10) == Some(b),
        forall|i: int| 0 <= i < decimal_text(b).len() ==> decimal_text(b)[i] != '.',
{
    let s = decimal_text(b);
    lemma_digit_char_reads_back((b % 10) as nat, false, 10);
    lemma_digit_char_reads_back((b / 10 % 10) as nat, false, 10);
    lemma_digit_char_reads_back((b / 100) as nat, false, 10);
    lemma_digits_value_short(s, 10);
}

/// The character of a digit below 36.
fn digit_char_of(d: u8, upper: bool) -> (c: char)
    requires
        d < 36,
    ensures
        c == digit_char(d as nat, upper),
{
    if d < 10 {
        (48u8 + d) as char
    } else if upper {
        (55u8 + d) as char
    } else {
        (87u8 + d) as char
    }
}

/// Appends `b` as two hexadecimal digits.
pub fn push_hex_pair(out: &mut String, b: u8, upper: bool)
    ensures
        final(out)@ == old(out)@ + hex_pair(b, upper),
{
    out.push(digit_char_of(b / 16, upper));
    out.push(digit_char_of(b % 16, upper));
    assert(out@ =~= old(out)@ + hex_pair(b, upper));
}

/// Appends `b` in decimal.
pub fn push_decimal(out: &mut String, b: u8)
    ensures
        final(out)@ == old(out)@ + decimal_text(b),
{
    if b >= 100 {
        out.push(digit_char_of(b / 100, false));
    }
    if b >= 10 {
        out.push(digit_char_of(b / 10 % 10, false));
    }
    out.push(digit_char_of(b % 10, false));
    assert(out@ =~= old(out)@ + decimal_text(b));
}

/// Whether `c` is white space: one of the characters with the Unicode
/// property `White_Space`.
pub open spec fn white_space(c: char) -> bool {
    let code = c as u32;
    ||| 0x09 <= code <= 0x0d
    ||| code == 0x20
    ||| code == 0x85
    ||| code == 0xa0
    ||| code == 0x1680
    ||| 0x2000 <= code <= 0x200a
    ||| code == 0x2028
    ||| code == 0x2029
    ||| code == 0x202f
    ||| code == 0x205f
    ||| code == 0x3000
}

/// Tells whether `c` is white space.
pub fn is_white_space(c: char) -> (r: bool)
    ensures
        r == white_space(c),
{
    let code: u32 = c as u32;
    (0x09 <= code && code <= 0x0d) || code == 0x20 || code == 0x85 || code == 0xa0 || code
        == 0x1680 || (0x2000 <= code && code <= 0x200a) || code == 0x2028 || code == 0x2029
        || code == 0x202f || code == 0x205f || code == 0x3000
}

/// Number of white-space characters that `s` begins with.
pub open spec fn leading_white_space(s: Seq<char>) -> nat
    decreases s.len(),
{
    if s.len() > 0 && white_space(s[0]) {
        1 + leading_white_space(s.drop_first())
    } else {
        0
    }
}

/// Number of white-space characters that `s` ends with.
pub open spec fn trailing_white_space(s: Seq<char>) -> nat
    decreases s.len(),
{
    if s.len() > 0 && white_space(s.last()) {
        1 + trailing_white_space(s.drop_last())
    } else {
        0
    }
}

/// `s` without the white space that it begins and ends with.
pub open spec fn trimmed(s: Seq<char>) -> Seq<char> {
    let rest = s.skip(leading_white_space(s) as int);
    rest.take(rest.len() - trailing_white_space(rest))
}

/// The count of leading white space is the position of the first character
/// that is none.
pub proof fn lemma_leading_white_space(s: Seq<char>, k: int)
    requires
        0 <= k <= s.len(),
        forall|j: int| 0 <= j < k ==> white_space(s[j]),
        k < s.len() ==> !white_space(s[k]),
    ensures
        leading_white_space(s) == k,
    decreases k,
{
    if k > 0 {
        lemma_leading_white_space(s.drop_first(), k - 1);
    }
}

/// The count of trailing white space is the distance from the end to the
/// last character that is none.
pub proof fn lemma_trailing_white_space(s: Seq<char>, k: int)
    requires
        0 <= k <= s.len(),
        forall|j: int| s.len() - k <= j < s.len() ==> white_space(s[j]),
        k < s.len() ==> !white_space(s[s.len() - k - 1]),
    ensures
        trailing_white_space(s) == k,
    decreases k,
{
    if k > 0 {
        lemma_trailing_white_space(s.drop_last(), k - 1);
    }
}

/// Removes the white space that `s` begins and ends with.
pub fn trim(s: &str) -> (r: &str)
    ensures
        r@ == trimmed(s@),
{
    char_count_fits(s);
    let mut i: usize = 0;
    let mut start: usize = 0;
    let mut end: usize = 0;
    for c in it: s.chars()
        invariant
            i == it.index(),
            it.seq() == s@,
            s@.len() <= usize::MAX,
            start <= end <= i,
            forall|j: int| 0 <= j < start ==> white_space(s@[j]),
            forall|j: int| end <= j < i ==> white_space(s@[j]),
            start == end ==> start == i,
            start < end ==> !white_space(s@[start as int]) && !white_space(s@[end - 1]),
    {
        if is_white_space(c) {
            if start == end {
                start = i + 1;
                end = i + 1;
            }
        } else {
            end = i + 1;
        }
        i = i + 1;
    }
    proof {
        let rest = s@.skip(start as int);
        lemma_leading_white_space(s@, start as int);
        lemma_trailing_white_space(rest, i - end);
        assert(rest.take(end - start) =~= s@.subrange(start as int, end as int));
    }
    s.substring_char(start, end)
}

/// The parts of `s` between the occurrences of `sep`, in order: one part more
/// than there are separators, empty parts included.
pub open spec fn split_on(s: Seq<char>, sep: char) -> Seq<Seq<char>>
    decreases s.len(),
{
    let k = first_index_of(s, sep);
    if 0 <= k < s.len() {
        seq![s.take(k)] + split_on(s.skip(k + 1), sep)
    } else {
        seq![s]
    }
}

/// The texts that a vector of strings holds.
pub open spec fn texts(parts: Seq<String>) -> Seq<Seq<char>> {
    parts.map_values(|part: String| part@)
}

/// Cuts `s` at every occurrence of `sep`.
pub fn split(s: &str, sep: char) -> (parts: Vec<String>)
    ensures
        texts(parts@) == split_on(s@, sep),
{
    let mut parts: Vec<String> = Vec::new();
    let mut part = String::new();
    let ghost mut start: int = 0;
    assert(s@.skip(0) =~= s@);
    assert(texts(parts@) =~= Seq::<Seq<char>>::empty());
    for c in it: s.chars()
        invariant
            it.seq() == s@,
            0 <= start <= it.index(),
            part@ == s@.subrange(start, it.index() as int),
            forall|j: int| start <= j < it.index() ==> s@[j] != sep,
            split_on(s@, sep) == texts(parts@) + split_on(s@.skip(start), sep),
    {
        let ghost i: int = it.index() as int;
        if c == sep {
            proof {
                let rest = s@.skip(start);
                lemma_first_index_of(rest, sep, i - start);
                assert(rest.take(i - start) =~= part@);
                assert(rest.skip(i - start + 1) =~= s@.skip(i + 1));
                assert(texts(parts@.push(part)) =~= texts(parts@) + seq![part@]);
                assert(s@.subrange(i + 1, i + 1) =~= Seq::<char>::empty());
            }
            parts.push(part);
            part = String::new();
            proof {
                start = i + 1;
            }
        } else {
            part.push(c);
            assert(part@ =~= s@.subrange(start, i + 1));
        }
    }
    proof {
        let rest = s@.skip(start);
        lemma_first_index_of(rest, sep, s@.len() - start);
        assert(rest =~= part@);
        assert(texts(parts@.push(part)) =~= texts(parts@) + seq![part@]);
    }
    parts.push(part);
    parts
}

} // verus!
