//! Code points, ranges of characters and ascending lists of characters.

use vstd::prelude::*;

verus! {

/// Specifies [`char::from_u32`] of the standard library: a number is a
/// character exactly if it is a Unicode scalar value, and then the
/// character has that number.
pub assume_specification[ char::from_u32 ](i: u32) -> (r: Option<char>)
    ensures
        r.is_some() == is_scalar(i as int),
        r.is_some() ==> r.unwrap() as u32 == i,
;

/// Calls [`core::ops::RangeInclusive::start`] of the standard library on a
/// range of characters: the result is the lower bound of the range.
#[verifier::external_body]
pub(crate) fn inclusive_start(range: &core::ops::RangeInclusive<char>) -> (c: char)
    ensures
        c == range@.start,
{
    *range.start()
}

/// Calls [`core::ops::RangeInclusive::end`] of the standard library on a
/// range of characters: the result is the upper bound of the range.
#[verifier::external_body]
pub(crate) fn inclusive_end(range: &core::ops::RangeInclusive<char>) -> (c: char)
    ensures
        c == range@.end,
{
    *range.end()
}

/// Calls [`core::ops::RangeInclusive::is_empty`] of the standard library on
/// a range of characters: the range holds nothing exactly if it has been
/// iterated to its end or its bounds are out of order.
#[verifier::external_body]
pub(crate) fn inclusive_is_empty(range: &core::ops::RangeInclusive<char>) -> (b: bool)
    ensures
        b == (range@.exhausted || range@.start as u32 > range@.end as u32),
{
    range.is_empty()
}

/// The Unicode scalar values: the code points without the surrogates.
pub open spec fn is_scalar(u: int) -> bool {
    0 <= u <= 0xD7FF || 0xE000 <= u <= 0x10FFFF
}

/// The characters with the code points `from..to`, in ascending order.
pub open spec fn chars_between(from: int, to: int) -> Seq<char>
    decreases to - from,
{
    if from >= to {
        Seq::empty()
    } else if is_scalar(from) {
        seq![(from as u32) as char] + chars_between(from + 1, to)
    } else {
        chars_between(from + 1, to)
    }
}

/// The characters are in strictly ascending order of their code points.
pub open spec fn is_ascending(s: Seq<char>) -> bool {
    forall|i: int, j: int| 0 <= i < j < s.len() ==> (s[i] as u32) < (s[j] as u32)
}

/// Collects the characters with the code points `from..to`.
pub fn collect_chars(from: u32, to: u32) -> (r: Vec<char>)
    ensures
        r@ == chars_between(from as int, to as int),
{
    let mut out: Vec<char> = Vec::new();
    let mut u: u32 = from;
    proof {
        assert(out@ + chars_between(from as int, to as int) == chars_between(
            from as int,
            to as int,
        ));
    }
    while u < to
        invariant
            out@ + chars_between(u as int, to as int) == chars_between(from as int, to as int),
        decreases to - u,
    {
        let ghost rest = chars_between(u + 1, to as int);
        match char::from_u32(u) {
            Some(c) => {
                proof {
                    vstd::utf8::char_u32_cast(c, u);
                    assert(out@.push(c) + rest == out@ + (seq![c] + rest));
                }
                out.push(c);
            },
            None => {},
        }
        u += 1;
    }
    proof {
        assert(out@ + Seq::<char>::empty() == out@);
    }
    out
}

/// Adds a character to an ascending list, unless the list holds it already.
pub fn insert_ascending(list: &mut Vec<char>, c: char)
    requires
        is_ascending(old(list)@),
    ensures
        is_ascending(final(list)@),
        final(list)@.to_set() == old(list)@.to_set().insert(c),
{
    let mut i: usize = 0;
    while i < list.len() && (list[i] as u32) < (c as u32)
        invariant
            i <= list.len(),
            list@ == old(list)@,
            forall|j: int| 0 <= j < i ==> (list@[j] as u32) < (c as u32),
        decreases list.len() - i,
    {
        i += 1;
    }
    if i < list.len() && list[i] == c {
        proof {
            assert(list@.to_set() =~= list@.to_set().insert(c)) by {
                assert(list@.contains(list@[i as int]));
            }
        }
        return ;
    }
    let ghost before = list@;
    list.insert(i, c);
    proof {
        assert(list@ == before.insert(i as int, c));
        assert forall|a: int, b: int| 0 <= a < b < list@.len() implies (list@[a] as u32) < (
        list@[b] as u32) by {
            if b < i {
                assert(list@[a] == before[a] && list@[b] == before[b]);
            } else if b == i {
                assert(list@[a] == before[a]);
            } else if a < i {
                assert(list@[a] == before[a] && list@[b] == before[b - 1]);
                assert((before[b - 1] as u32) >= (c as u32)) by {
                    if b - 1 > i {
                        assert((before[i as int] as u32) < (before[b - 1] as u32));
                    }
                    assert((before[i as int] as u32) > (c as u32) || before[i as int] != c);
                    assert((before[i as int] as u32) >= (c as u32));
                }
            } else if a == i {
                assert(list@[b] == before[b - 1]);
                assert((before[i as int] as u32) >= (c as u32));
                assert(before[i as int] != c);
                assert(before[i as int] as u32 != c as u32) by {
                    vstd::utf8::char_u32_cast(before[i as int], before[i as int] as u32);
                    vstd::utf8::char_u32_cast(c, c as u32);
                }
                if b - 1 > i {
                    assert((before[i as int] as u32) < (before[b - 1] as u32));
                }
            } else {
                assert(list@[a] == before[a - 1] && list@[b] == before[b - 1]);
            }
        }
        assert(list@.to_set() =~= before.to_set().insert(c)) by {
            assert forall|x: char| list@.to_set().contains(x) <==> before.to_set().insert(
                c,
            ).contains(x) by {
                if list@.contains(x) {
                    let k = choose|k: int| 0 <= k < list@.len() && list@[k] == x;
                    if k < i {
                        assert(before[k] == x);
                        assert(before.contains(x));
                    } else if k > i {
                        assert(before[k - 1] == x);
                        assert(before.contains(x));
                    }
                }
                if before.contains(x) {
                    let k = choose|k: int| 0 <= k < before.len() && before[k] == x;
                    if k < i {
                        assert(list@[k] == x);
                    } else {
                        assert(list@[k + 1] == x);
                    }
                    assert(list@.contains(x));
                }
                if x == c {
                    assert(list@[i as int] == c);
                    assert(list@.contains(x));
                }
            }
        }
    }
}

/// The letters of ASCII.
pub open spec fn is_ascii_alphabetic(c: char) -> bool {
    let u = c as u32;
    0x41 <= u <= 0x5A || 0x61 <= u <= 0x7A
}

/// The letters and digits of ASCII.
pub open spec fn is_ascii_alphanumeric(c: char) -> bool {
    let u = c as u32;
    is_ascii_alphabetic(c) || 0x30 <= u <= 0x39
}

/// The character in lower case, where it is an upper case letter of ASCII.
pub open spec fn ascii_lowercase(c: char) -> char {
    let u = c as u32;
    if 0x41 <= u <= 0x5A {
        ((u + 0x20) as u32) as char
    } else {
        c
    }
}

/// Tests whether a character is an ASCII letter.
pub fn char_is_ascii_alphabetic(c: char) -> (b: bool)
    ensures
        b == is_ascii_alphabetic(c),
{
    let u: u32 = c as u32;
    (0x41 <= u && u <= 0x5A) || (0x61 <= u && u <= 0x7A)
}

/// Tests whether a character is an ASCII letter or digit.
pub fn char_is_ascii_alphanumeric(c: char) -> (b: bool)
    ensures
        b == is_ascii_alphanumeric(c),
{
    let u: u32 = c as u32;
    char_is_ascii_alphabetic(c) || (0x30 <= u && u <= 0x39)
}

/// The string with its upper case letters of ASCII in lower case.
pub fn to_ascii_lowercase(s: &str) -> (r: String)
    ensures
        r@ == s@.map_values(|c: char| ascii_lowercase(c)),
{
    let chars = crate::text::to_chars(s);
    let mut out = String::new();
    let mut i: usize = 0;
    while i < chars.len()
        invariant
            i <= chars.len(),
            chars@ == s@,
            out@ == s@.take(i as int).map_values(|c: char| ascii_lowercase(c)),
        decreases chars.len() - i,
    {
        let c = chars[i];
        let u: u32 = c as u32;
        let lower = if 0x41 <= u && u <= 0x5A {
            let l = char::from_u32(u + 0x20).unwrap();
            proof {
                vstd::utf8::char_u32_cast(l, (u + 0x20) as u32);
            }
            l
        } else {
            c
        };
        proof {
            assert(s@.take(i + 1).map_values(|c: char| ascii_lowercase(c)) =~= s@.take(
                i as int,
            ).map_values(|c: char| ascii_lowercase(c)).push(lower));
        }
        out.push(lower);
        i += 1;
    }
    proof {
        assert(s@.take(chars.len() as int) == s@);
    }
    out
}

} // verus!
