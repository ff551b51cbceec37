//! Statements of a BDF file as bytes: keywords, numbers, strings and
//! comments.

use crate::text::{parse_i32, parse_i32_chars, parse_integer};
use bstr::ByteSlice;
use vstd::prelude::*;
use vstd::slice::slice_subrange;
use vstd::string::StringSliceAdditionalSpecFns;

verus! {

/// The bytes without the whitespace at their start and at their end, as
/// `bstr` finds it.
pub uninterp spec fn bstr_trimmed(bytes: Seq<u8>) -> Seq<u8>;

/// Calls `ByteSlice::trim` of `bstr`: the bytes without their leading and
/// trailing whitespace, where whitespace is what has the Unicode property
/// `White_Space` in bytes that are read as UTF-8.
#[verifier::external_body]
pub(crate) fn trim_bytes<'a>(bytes: &'a [u8]) -> (trimmed: &'a [u8])
    ensures
        trimmed@ == bstr_trimmed(bytes@),
{
    bytes.trim()
}

/// Calls [`core::str::from_utf8`] of the standard library: bytes are a
/// string exactly if they are valid UTF-8, and the string then holds the
/// characters that they encode.
#[verifier::external_body]
pub(crate) fn str_from_utf8<'a>(bytes: &'a [u8]) -> (r: Option<&'a str>)
    ensures
        r.is_some() == vstd::utf8::valid_utf8(bytes@),
        r.is_some() ==> r.unwrap()@ == vstd::utf8::decode_utf8(bytes@),
{
    core::str::from_utf8(bytes).ok()
}

/// The characters for bytes of ASCII.
pub open spec fn ascii_chars(bytes: Seq<u8>) -> Seq<char> {
    bytes.map_values(|b: u8| b as char)
}

/// The characters for bytes that are meant to be ASCII: a byte that is none
/// becomes the replacement character.
pub open spec fn lossy_chars(bytes: Seq<u8>) -> Seq<char> {
    bytes.map_values(
        |b: u8|
            if b >= 0x80 {
                '\u{FFFD}'
            } else {
                b as char
            },
    )
}

/// Index of the first byte at or behind `from` that is no decimal digit, or
/// the length of `s`.
pub open spec fn digits_end(s: Seq<u8>, from: int) -> int
    decreases s.len() - from,
{
    if 0 <= from < s.len() && 0x30 <= s[from] <= 0x39 {
        digits_end(s, from + 1)
    } else {
        from
    }
}

/// Index of the first byte at or behind `from` that is neither a space nor
/// a tab, or the length of `s`.
pub open spec fn spaces_end(s: Seq<u8>, from: int) -> int
    decreases s.len() - from,
{
    if 0 <= from < s.len() && (s[from] == 0x20 || s[from] == 0x09) {
        spaces_end(s, from + 1)
    } else {
        from
    }
}

/// Index of the first line feed at or behind `from`, or the length of `s`.
pub open spec fn line_feed(s: Seq<u8>, from: int) -> int
    decreases s.len() - from,
{
    if 0 <= from < s.len() && s[from] != 0x0A {
        line_feed(s, from + 1)
    } else {
        from
    }
}

/// Index of the first line feed or carriage return, or the length of `s`.
pub open spec fn line_ending_start(s: Seq<u8>, from: int) -> int
    decreases s.len() - from,
{
    if 0 <= from < s.len() && s[from] != 0x0A && s[from] != 0x0D {
        line_ending_start(s, from + 1)
    } else {
        from
    }
}

/// Number of bytes of the line ending at index `at`: one for a line feed,
/// two for a carriage return and a line feed, else none.
pub open spec fn line_ending_len(s: Seq<u8>, at: int) -> int {
    if 0 <= at < s.len() && s[at] == 0x0A {
        1
    } else if 0 <= at && at + 1 < s.len() && s[at] == 0x0D && s[at + 1] == 0x0A {
        2
    } else {
        0
    }
}

/// `s` begins with `prefix`.
pub open spec fn starts_with(s: Seq<u8>, prefix: Seq<u8>) -> bool {
    prefix.len() <= s.len() && s.take(prefix.len() as int) == prefix
}

/// A signed integer at the start of the bytes, and the bytes behind it: an
/// optional sign and decimal digits that denote a 32-bit integer.
pub open spec fn signed_integer(s: Seq<u8>) -> Option<(Seq<u8>, i32)> {
    let start: int = if s.len() > 0 && (s[0] == 0x2B || s[0] == 0x2D) {
        1
    } else {
        0
    };
    let end = digits_end(s, start);
    match parse_i32(ascii_chars(s.take(end))) {
        Some(value) => if end > start {
            Some((s.skip(end), value))
        } else {
            None
        },
        None => None,
    }
}

/// An unsigned integer at the start of the bytes, and the bytes behind it:
/// decimal digits that denote an unsigned 32-bit integer.
pub open spec fn unsigned_integer(s: Seq<u8>) -> Option<(Seq<u8>, u32)> {
    let end = digits_end(s, 0);
    match parse_integer(ascii_chars(s.take(end))) {
        Some(value) => if end > 0 && value <= u32::MAX {
            Some((s.skip(end), value as u32))
        } else {
            None
        },
        None => None,
    }
}

/// A comment at the start of the bytes, and the bytes behind it: the
/// keyword `COMMENT`; then, where spaces and a line feed follow, the text
/// between them, which must be valid UTF-8; then the end of the line.
pub open spec fn comment_line(s: Seq<u8>) -> Option<(Seq<u8>, Seq<char>)> {
    let keyword = "COMMENT"@.len() as int;
    let text_start = spaces_end(s, keyword);
    let text_end = line_feed(s, text_start);
    let has_text = text_start > keyword && text_end < s.len();
    let text = if has_text {
        s.subrange(text_start, text_end)
    } else {
        Seq::empty()
    };
    let at = if has_text {
        text_end
    } else {
        keyword
    };
    if starts_with(s, "COMMENT"@.map_values(|c: char| c as u8)) && line_ending_len(s, at) > 0
        && vstd::utf8::valid_utf8(text) {
        Some((s.skip(at + line_ending_len(s, at)), vstd::utf8::decode_utf8(text)))
    } else {
        None
    }
}

/// The bytes behind all comments at the start of the bytes.
pub open spec fn without_comments(s: Seq<u8>) -> Seq<u8>
    decreases s.len(),
{
    match comment_line(s) {
        Some((rest, _)) => if rest.len() < s.len() {
            without_comments(rest)
        } else {
            rest
        },
        None => s,
    }
}

/// A statement at the start of the bytes: the bytes behind its line, and
/// its untrimmed parameters. The keyword is followed by spaces and the
/// parameters, which reach to the end of the line, or by nothing.
pub open spec fn statement_line(keyword: Seq<u8>, s: Seq<u8>) -> Option<(Seq<u8>, Seq<u8>)> {
    let k = keyword.len() as int;
    let start = spaces_end(s, k);
    let end = if start > k {
        line_ending_start(s, start)
    } else {
        k
    };
    if starts_with(s, keyword) {
        Some((s.skip(end + line_ending_len(s, end)), s.subrange(if start > k {
            start
        } else {
            k
        }, end)))
    } else {
        None
    }
}

/// Does the scan for the end of decimal digits.
fn find_digits_end(input: &[u8], from: usize) -> (r: usize)
    requires
        from <= input.len(),
    ensures
        r == digits_end(input@, from as int),
        from <= r <= input.len(),
{
    let mut i: usize = from;
    while i < input.len() && 0x30 <= input[i] && input[i] <= 0x39
        invariant
            from <= i <= input.len(),
            digits_end(input@, i as int) == digits_end(input@, from as int),
        decreases input.len() - i,
    {
        i += 1;
    }
    i
}

/// Does the scan for the end of spaces and tabs.
fn find_spaces_end(input: &[u8], from: usize) -> (r: usize)
    requires
        from <= input.len(),
    ensures
        r == spaces_end(input@, from as int),
        from <= r <= input.len(),
{
    let mut i: usize = from;
    while i < input.len() && (input[i] == 0x20 || input[i] == 0x09)
        invariant
            from <= i <= input.len(),
            spaces_end(input@, i as int) == spaces_end(input@, from as int),
        decreases input.len() - i,
    {
        i += 1;
    }
    i
}

/// Does the scan for a line feed.
fn find_line_feed(input: &[u8], from: usize) -> (r: usize)
    requires
        from <= input.len(),
    ensures
        r == line_feed(input@, from as int),
        from <= r <= input.len(),
{
    let mut i: usize = from;
    while i < input.len() && input[i] != 0x0A
        invariant
            from <= i <= input.len(),
            line_feed(input@, i as int) == line_feed(input@, from as int),
        decreases input.len() - i,
    {
        i += 1;
    }
    i
}

/// Does the scan for a line feed or a carriage return.
fn find_line_ending_start(input: &[u8], from: usize) -> (r: usize)
    requires
        from <= input.len(),
    ensures
        r == line_ending_start(input@, from as int),
        from <= r <= input.len(),
{
    let mut i: usize = from;
    while i < input.len() && input[i] != 0x0A && input[i] != 0x0D
        invariant
            from <= i <= input.len(),
            line_ending_start(input@, i as int) == line_ending_start(input@, from as int),
        decreases input.len() - i,
    {
        i += 1;
    }
    i
}

/// Measures the line ending at an index.
fn measure_line_ending(input: &[u8], at: usize) -> (r: usize)
    requires
        at <= input.len(),
    ensures
        r == line_ending_len(input@, at as int),
        at + r <= input.len(),
{
    if at < input.len() && input[at] == 0x0A {
        1
    } else if at < input.len() && at + 1 < input.len() && input[at] == 0x0D && input[at + 1]
        == 0x0A {
        2
    } else {
        0
    }
}

/// Tests whether bytes begin with the bytes of a keyword.
fn has_prefix(input: &[u8], keyword: &[u8]) -> (b: bool)
    ensures
        b == starts_with(input@, keyword@),
{
    if keyword.len() > input.len() {
        return false;
    }
    let mut i: usize = 0;
    while i < keyword.len()
        invariant
            i <= keyword.len() <= input.len(),
            forall|j: int| 0 <= j < i ==> input@[j] == keyword@[j],
        decreases keyword.len() - i,
    {
        if input[i] != keyword[i] {
            assert(input@.take(keyword@.len() as int)[i as int] != keyword@[i as int]);
            return false;
        }
        i += 1;
    }
    assert(input@.take(keyword@.len() as int) =~= keyword@);
    true
}

/// The characters of ASCII bytes.
fn to_ascii_chars(input: &[u8], to: usize) -> (r: Vec<char>)
    requires
        to <= input.len(),
    ensures
        r@ == ascii_chars(input@.take(to as int)),
{
    let mut r: Vec<char> = Vec::new();
    let mut i: usize = 0;
    while i < to
        invariant
            i <= to <= input.len(),
            r@ == ascii_chars(input@.take(i as int)),
        decreases to - i,
    {
        r.push(input[i] as char);
        proof {
            assert(ascii_chars(input@.take(i + 1)) =~= ascii_chars(input@.take(i as int)).push(
                input@[i as int] as char,
            ));
        }
        i += 1;
    }
    r
}

/// Reads a signed 32-bit integer from the start of the input.
pub fn parse_to_i32(input: &[u8]) -> (r: Option<(&[u8], i32)>)
    ensures
        match r {
            Some((rest, value)) => signed_integer(input@) == Some((rest@, value)),
            None => signed_integer(input@).is_none(),
        },
{
    let start: usize = if input.len() > 0 && (input[0] == 0x2B || input[0] == 0x2D) {
        1
    } else {
        0
    };
    let end = find_digits_end(input, start);
    if end == start {
        return None;
    }
    let chars = to_ascii_chars(input, end);
    proof {
        assert(chars@.subrange(0, chars.len() as int) == chars@);
    }
    match parse_i32_chars(&chars, 0, chars.len()) {
        Some(value) => Some((slice_subrange(input, end, input.len()), value)),
        None => None,
    }
}

/// Reads an unsigned 32-bit integer from the start of the input.
pub fn parse_to_u32(input: &[u8]) -> (r: Option<(&[u8], u32)>)
    ensures
        match r {
            Some((rest, value)) => unsigned_integer(input@) == Some((rest@, value)),
            None => unsigned_integer(input@).is_none(),
        },
{
    let end = find_digits_end(input, 0);
    if end == 0 {
        return None;
    }
    let chars = to_ascii_chars(input, end);
    proof {
        assert(chars@.subrange(0, chars.len() as int) == chars@);
    }
    match crate::text::parse_u32_chars(&chars, 0, chars.len()) {
        Some(value) => Some((slice_subrange(input, end, input.len()), value)),
        None => None,
    }
}

/// Reads a comment from the start of the input.
pub fn comment(input: &[u8]) -> (r: Option<(&[u8], String)>)
    ensures
        match r {
            Some((rest, text)) => comment_line(input@) == Some((rest@, text@)),
            None => comment_line(input@).is_none(),
        },
{
    let keyword = "COMMENT";
    proof {
        reveal_strlit("COMMENT");
        vstd::string::is_ascii_spec_bytes(keyword);
        assert(keyword.spec_bytes() =~= "COMMENT"@.map_values(|c: char| c as u8));
    }
    if !has_prefix(input, keyword.as_bytes()) {
        return None;
    }
    let k: usize = 7;
    let text_start = find_spaces_end(input, k);
    let text_end = find_line_feed(input, text_start);
    let has_text = text_start > k && text_end < input.len();
    let at: usize = if has_text {
        text_end
    } else {
        k
    };
    let ending = measure_line_ending(input, at);
    if ending == 0 {
        return None;
    }
    let text: &[u8] = if has_text {
        slice_subrange(input, text_start, text_end)
    } else {
        slice_subrange(input, 0, 0)
    };
    proof {
        assert(input@.subrange(0, 0) =~= Seq::<u8>::empty());
    }
    match str_from_utf8(text) {
        Some(s) => Some((slice_subrange(input, at + ending, input.len()), String::from_str(s))),
        None => None,
    }
}

/// Passes over all comments at the start of the input.
pub fn skip_comments(input: &[u8]) -> (rest: &[u8])
    ensures
        rest@ == without_comments(input@),
{
    let mut rest: &[u8] = input;
    loop
        invariant
            without_comments(rest@) == without_comments(input@),
        decreases rest@.len(),
    {
        match comment(rest) {
            Some((next, _)) => {
                if next.len() >= rest.len() {
                    return next;
                }
                rest = next;
            },
            None => {
                return rest;
            },
        }
    }
}

/// Converts a byte slice into a valid UTF-8 string.
pub fn ascii_to_string_lossy(bytes: &[u8]) -> (r: String)
    ensures
        r@ == lossy_chars(bytes@),
{
    let mut r = String::new();
    let mut i: usize = 0;
    while i < bytes.len()
        invariant
            i <= bytes.len(),
            r@ == lossy_chars(bytes@.take(i as int)),
        decreases bytes.len() - i,
    {
        let c: char = if bytes[i] >= 0x80 {
            '\u{FFFD}'
        } else {
            bytes[i] as char
        };
        proof {
            assert(lossy_chars(bytes@.take(i + 1)) =~= lossy_chars(bytes@.take(i as int)).push(c));
        }
        r.push(c);
        i += 1;
    }
    proof {
        assert(bytes@.take(bytes.len() as int) == bytes@);
    }
    r
}

/// Splits the input in front of its first line feed or carriage return; the
/// first part of the result is what is left of the input.
pub fn take_until_line_ending(input: &[u8]) -> (r: (&[u8], &[u8]))
    ensures
        r.0@ == input@.skip(line_ending_start(input@, 0)),
        r.1@ == input@.take(line_ending_start(input@, 0)),
{
    let end = find_line_ending_start(input, 0);
    (slice_subrange(input, end, input.len()), slice_subrange(input, 0, end))
}

/// Reads the text up to the end of the line as a string; the first part of
/// the result is what is left of the input.
pub fn parse_string(input: &[u8]) -> (r: (&[u8], String))
    ensures
        r.0@ == input@.skip(line_ending_start(input@, 0)),
        r.1@ == lossy_chars(input@.take(line_ending_start(input@, 0))),
{
    let (rest, line) = take_until_line_ending(input);
    (rest, ascii_to_string_lossy(line))
}

/// Reads a statement with the given keyword from the start of the input:
/// what is left of the input behind its line, and its parameters without
/// the whitespace around them.
pub fn statement<'a>(keyword: &str, input: &'a [u8]) -> (r: Option<(&'a [u8], &'a [u8])>)
    ensures
        match r {
            Some((rest, parameters)) => statement_line(keyword.spec_bytes(), input@) matches Some(
                (left, untrimmed),
            ) && rest@ == left && parameters@ == bstr_trimmed(untrimmed),
            None => statement_line(keyword.spec_bytes(), input@).is_none(),
        },
{
    let key = keyword.as_bytes();
    if !has_prefix(input, key) {
        return None;
    }
    let k: usize = key.len();
    let start = find_spaces_end(input, k);
    let (from, end): (usize, usize) = if start > k {
        (start, find_line_ending_start(input, start))
    } else {
        (k, k)
    };
    let ending = measure_line_ending(input, end);
    let parameters = slice_subrange(input, from, end);
    Some((slice_subrange(input, end + ending, input.len()), trim_bytes(parameters)))
}

} // verus!
