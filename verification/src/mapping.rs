//! Mappings from characters to the indices of their glyphs: the mappings of
//! standard character sets, and the compressed string that stands for any
//! other set.

use crate::chars::{chars_between, collect_chars, is_scalar};
use crate::text::to_chars;
use crate::converter::{ConvertError, ConvertErrorView, GlyphRange};
use crate::glyph::{glyph_views, Encoding, Glyph, GlyphView};
use embedded_graphics::mono_font::mapping::Mapping as Preset;
use vstd::prelude::*;

verus! {

/// The glyph mappings of standard character sets that `embedded-graphics`
/// includes.
#[derive(Debug, Clone, Copy, PartialEq, Eq, Structural, PartialOrd, Ord, Hash)]
pub enum Mapping {
    /// ASCII.
    Ascii,
    /// ISO/IEC 8859 Part 1: Latin-1, Western European.
    Iso8859_1,
    /// ISO/IEC 8859 Part 2: Latin-2, Central European.
    Iso8859_2,
    /// ISO/IEC 8859 Part 3: Latin-3, South European.
    Iso8859_3,
    /// ISO/IEC 8859 Part 4: Latin-4, North European.
    Iso8859_4,
    /// ISO/IEC 8859 Part 5: Latin/Cyrillic.
    Iso8859_5,
    /// ISO/IEC 8859 Part 7: Latin/Greek.
    Iso8859_7,
    /// ISO/IEC 8859 Part 9: Latin-5, Turkish.
    Iso8859_9,
    /// ISO/IEC 8859 Part 10: Latin-6, Nordic.
    Iso8859_10,
    /// ISO/IEC 8859 Part 13: Latin-7, Baltic Rim.
    Iso8859_13,
    /// ISO/IEC 8859 Part 14: Latin-8, Celtic.
    Iso8859_14,
    /// ISO/IEC 8859 Part 15: Latin-9 (revised Latin-1).
    Iso8859_15,
    /// ISO/IEC 8859 Part 16: Latin-10: South-East European.
    Iso8859_16,
    /// JIS X 0201: Japanese katakana (halfwidth).
    JisX0201,
}

/// The characters of a mapping, in the order of their glyphs.
pub uninterp spec fn mapping_chars(mapping: Mapping) -> Seq<char>;

/// Calls `Mapping::glyph_mapping` and `StrGlyphMapping::chars` of
/// `embedded-graphics` for the mapping of the same name: the characters of
/// the mapping, in the order of their glyphs.
#[verifier::external_body]
pub(crate) fn preset_chars(mapping: Mapping) -> (chars: Vec<char>)
    ensures
        chars@ == mapping_chars(mapping),
{
    let preset = match mapping {
        Mapping::Ascii => Preset::Ascii, Mapping::Iso8859_1 => Preset::Iso8859_1,
        Mapping::Iso8859_2 => Preset::Iso8859_2, Mapping::Iso8859_3 => Preset::Iso8859_3,
        Mapping::Iso8859_4 => Preset::Iso8859_4, Mapping::Iso8859_5 => Preset::Iso8859_5,
        Mapping::Iso8859_7 => Preset::Iso8859_7, Mapping::Iso8859_9 => Preset::Iso8859_9,
        Mapping::Iso8859_10 => Preset::Iso8859_10, Mapping::Iso8859_13 => Preset::Iso8859_13,
        Mapping::Iso8859_14 => Preset::Iso8859_14, Mapping::Iso8859_15 => Preset::Iso8859_15,
        Mapping::Iso8859_16 => Preset::Iso8859_16, Mapping::JisX0201 => Preset::JisX0201,
    };
    preset.glyph_mapping().chars().collect()
}

impl GlyphRange for Mapping {
    open spec fn chars(&self) -> Seq<char> {
        mapping_chars(*self)
    }

    fn glyphs(self) -> (r: Vec<char>) {
        preset_chars(self)
    }
}

/// All mappings, in the order in which they are tried.
pub open spec fn all_mappings() -> Seq<Mapping> {
    seq![
        Mapping::Ascii,
        Mapping::Iso8859_1,
        Mapping::Iso8859_2,
        Mapping::Iso8859_3,
        Mapping::Iso8859_4,
        Mapping::Iso8859_5,
        Mapping::Iso8859_7,
        Mapping::Iso8859_9,
        Mapping::Iso8859_10,
        Mapping::Iso8859_13,
        Mapping::Iso8859_14,
        Mapping::Iso8859_15,
        Mapping::Iso8859_16,
        Mapping::JisX0201,
    ]
}

impl Mapping {
    /// Returns all mappings.
    pub fn all() -> (r: Vec<Mapping>)
        ensures
            r@ == all_mappings(),
    {
        let r = vec![
            Mapping::Ascii,
            Mapping::Iso8859_1,
            Mapping::Iso8859_2,
            Mapping::Iso8859_3,
            Mapping::Iso8859_4,
            Mapping::Iso8859_5,
            Mapping::Iso8859_7,
            Mapping::Iso8859_9,
            Mapping::Iso8859_10,
            Mapping::Iso8859_13,
            Mapping::Iso8859_14,
            Mapping::Iso8859_15,
            Mapping::Iso8859_16,
            Mapping::JisX0201,
        ];
        assert(r@ =~= all_mappings());
        r
    }
}

/// One character is not behind the other in the order of the code points.
pub open spec fn char_le(a: char, b: char) -> bool {
    a as u32 <= b as u32
}

/// The characters are in ascending order of their code points; a character
/// may be repeated.
pub open spec fn is_sorted(s: Seq<char>) -> bool {
    forall|i: int, j: int| 0 <= i < j < s.len() ==> char_le(s[i], s[j])
}

/// The characters are those of the mapping in ascending order.
pub open spec fn is_mapping_of(chars: Seq<char>, mapping: Seq<char>) -> bool {
    is_sorted(chars) && chars.to_multiset() == mapping.to_multiset()
}

/// The first of the mappings from index `from` on whose characters are all
/// the given characters, in ascending order.
pub open spec fn first_mapping(chars: Seq<char>, mappings: Seq<Mapping>, from: int) -> Option<
    Mapping,
>
    decreases mappings.len() - from,
{
    if from < 0 || from >= mappings.len() {
        None
    } else if is_mapping_of(chars, mapping_chars(mappings[from])) {
        Some(mappings[from])
    } else {
        first_mapping(chars, mappings, from + 1)
    }
}

/// The order of the code points is a total order.
pub proof fn lemma_char_le_total()
    ensures
        vstd::relations::total_ordering(|a: char, b: char| char_le(a, b)),
{
    let leq = |a: char, b: char| char_le(a, b);
    assert(vstd::relations::reflexive(leq));
    assert(vstd::relations::antisymmetric(leq)) by {
        assert forall|x: char, y: char| #[trigger] leq(x, y) && #[trigger] leq(y, x) implies x
            == y by {
            vstd::utf8::char_u32_cast(x, x as u32);
            vstd::utf8::char_u32_cast(y, y as u32);
        }
    }
    assert(vstd::relations::transitive(leq));
    assert(vstd::relations::strongly_connected(leq));
}

/// Sorts characters by their code points.
pub fn sort_chars(chars: &Vec<char>) -> (sorted: Vec<char>)
    ensures
        is_sorted(sorted@),
        sorted@.to_multiset() == chars@.to_multiset(),
{
    let mut sorted: Vec<char> = Vec::new();
    let mut i: usize = 0;
    proof {
        assert(chars@.take(0) =~= Seq::<char>::empty());
        assert(sorted@ =~= chars@.take(0));
    }
    while i < chars.len()
        invariant
            i <= chars.len(),
            is_sorted(sorted@),
            sorted@.to_multiset() == chars@.take(i as int).to_multiset(),
        decreases chars.len() - i,
    {
        let c = chars[i];
        let mut k: usize = 0;
        while k < sorted.len() && sorted[k] as u32 <= c as u32
            invariant
                k <= sorted.len(),
                forall|j: int| 0 <= j < k ==> char_le(sorted@[j], c),
            decreases sorted.len() - k,
        {
            k += 1;
        }
        let ghost before = sorted@;
        sorted.insert(k, c);
        proof {
            assert(sorted@ == before.insert(k as int, c));
            vstd::seq_lib::to_multiset_insert(before, k as int, c);
            assert(chars@.take(i + 1) == chars@.take(i as int).push(c));
            vstd::seq_lib::to_multiset_build(chars@.take(i as int), c);
            assert forall|a: int, b: int| 0 <= a < b < sorted@.len() implies char_le(
                sorted@[a],
                sorted@[b],
            ) by {
                if b < k {
                    assert(sorted@[a] == before[a] && sorted@[b] == before[b]);
                } else if b == k {
                    assert(sorted@[a] == before[a]);
                } else if a < k {
                    assert(sorted@[a] == before[a] && sorted@[b] == before[b - 1]);
                    assert(char_le(before[a], before[b - 1]));
                } else if a == k {
                    assert(sorted@[b] == before[b - 1]);
                    assert(char_le(before[k as int], before[b - 1]) || b - 1 == k);
                } else {
                    assert(sorted@[a] == before[a - 1] && sorted@[b] == before[b - 1]);
                    assert(char_le(before[a - 1], before[b - 1]));
                }
            }
        }
        i += 1;
    }
    proof {
        assert(chars@.take(chars.len() as int) == chars@);
    }
    sorted
}

/// Tests whether characters are those of a mapping in ascending order.
pub fn is_mapping(chars: &Vec<char>, mapping: &Vec<char>) -> (b: bool)
    ensures
        b == is_mapping_of(chars@, mapping@),
{
    let sorted = sort_chars(mapping);
    let mut equal = chars.len() == sorted.len();
    let mut i: usize = 0;
    while equal && i < chars.len()
        invariant
            i <= chars.len(),
            equal ==> chars.len() == sorted.len(),
            equal ==> forall|j: int| 0 <= j < i ==> chars@[j] == sorted@[j],
            !equal ==> chars@ != sorted@,
        decreases chars.len() - i + (if equal {
            1int
        } else {
            0int
        }),
    {
        if chars[i] != sorted[i] {
            equal = false;
        } else {
            i += 1;
        }
    }
    proof {
        if equal {
            assert(chars@ =~= sorted@);
        } else if is_mapping_of(chars@, mapping@) {
            lemma_char_le_total();
            vstd::seq_lib::lemma_sorted_unique(
                chars@,
                sorted@,
                |a: char, b: char| char_le(a, b),
            );
        }
    }
    equal
}

/// Finds the mapping whose characters are all the given characters, in
/// ascending order.
pub fn chars_to_mapping(chars: &Vec<char>) -> (r: Option<Mapping>)
    ensures
        r == first_mapping(chars@, all_mappings(), 0),
{
    let mappings = Mapping::all();
    let mut i: usize = 0;
    while i < mappings.len()
        invariant
            i <= mappings.len(),
            mappings@ == all_mappings(),
            first_mapping(chars@, all_mappings(), i as int) == first_mapping(
                chars@,
                all_mappings(),
                0,
            ),
        decreases mappings.len() - i,
    {
        let preset = preset_chars(mappings[i]);
        if is_mapping(chars, &preset) {
            return Some(mappings[i]);
        }
        i += 1;
    }
    None
}

/// The characters for which the glyphs stand: every glyph must have a
/// standard encoding that is the code point of a character.
pub open spec fn glyph_chars(glyphs: Seq<GlyphView>) -> Result<Seq<char>, ConvertErrorView>
    decreases glyphs.len(),
{
    if glyphs.len() == 0 {
        Ok(Seq::empty())
    } else {
        match glyph_chars(glyphs.drop_last()) {
            Err(e) => Err(e),
            Ok(chars) => match glyphs.last().encoding {
                Encoding::Standard(index) => if is_scalar(index as int) {
                    Ok(chars.push(index as char))
                } else {
                    Err(ConvertErrorView::InvalidCodePoint(index))
                },
                _ => Err(ConvertErrorView::InvalidEncoding),
            },
        }
    }
}

/// The error for the glyphs up to some point is the error for all glyphs.
pub proof fn lemma_glyph_chars_error(glyphs: Seq<GlyphView>, n: int)
    requires
        0 <= n <= glyphs.len(),
        glyph_chars(glyphs.take(n)).is_err(),
    ensures
        glyph_chars(glyphs) == glyph_chars(glyphs.take(n)),
    decreases glyphs.len() - n,
{
    if n < glyphs.len() {
        assert(glyphs.take(n + 1).drop_last() == glyphs.take(n));
        lemma_glyph_chars_error(glyphs, n + 1);
    } else {
        assert(glyphs.take(n) == glyphs);
    }
}

/// Returns the characters for which the glyphs stand.
pub fn chars_of_glyphs(glyphs: &Vec<Glyph>) -> (r: Result<Vec<char>, ConvertError>)
    ensures
        match r {
            Ok(chars) => glyph_chars(glyph_views(glyphs@)) == Ok::<_, ConvertErrorView>(chars@),
            Err(e) => glyph_chars(glyph_views(glyphs@)) == Err::<Seq<char>, _>(e@),
        },
{
    let mut chars: Vec<char> = Vec::new();
    let mut i: usize = 0;
    let ghost all = glyph_views(glyphs@);
    proof {
        assert(all.take(0) =~= Seq::<GlyphView>::empty());
    }
    while i < glyphs.len()
        invariant
            i <= glyphs.len(),
            all == glyph_views(glyphs@),
            glyph_chars(all.take(i as int)) == Ok::<_, ConvertErrorView>(chars@),
        decreases glyphs.len() - i,
    {
        proof {
            assert(all.take(i + 1).drop_last() == all.take(i as int));
            assert(all.take(i + 1).last() == glyphs@[i as int]@);
        }
        match glyphs[i].encoding {
            Encoding::Standard(index) => match char::from_u32(index) {
                Some(c) => {
                    proof {
                        vstd::utf8::char_u32_cast(c, index);
                    }
                    chars.push(c);
                },
                None => {
                    proof {
                        assert(glyph_chars(all.take(i + 1)).is_err());
                        lemma_glyph_chars_error(all, i + 1);
                    }
                    return Err(ConvertError::InvalidCodePoint(index));
                },
            },
            _ => {
                proof {
                    assert(glyph_chars(all.take(i + 1)).is_err());
                    lemma_glyph_chars_error(all, i + 1);
                }
                return Err(ConvertError::InvalidEncoding);
            },
        }
        i += 1;
    }
    proof {
        assert(all.take(glyphs.len() as int) == all);
    }
    Ok(chars)
}

/// Finds the mapping whose characters are those of the glyphs, in their
/// order. Every glyph must have a standard encoding that is the code point
/// of a character.
pub fn glyphs_to_mapping(glyphs: &Vec<Glyph>) -> (r: Option<Mapping>)
    requires
        glyph_chars(glyph_views(glyphs@)).is_ok(),
    ensures
        match glyph_chars(glyph_views(glyphs@)) {
            Ok(chars) => r == first_mapping(chars, all_mappings(), 0),
            Err(_) => r.is_none(),
        },
{
    match chars_of_glyphs(glyphs) {
        Ok(chars) => chars_to_mapping(&chars),
        Err(_) => None,
    }
}

/// Index behind the last of the characters that follow the character at
/// `from` in steps of one code point.
pub open spec fn run_end(chars: Seq<char>, from: int) -> int
    decreases chars.len() - from,
{
    if 0 <= from && from + 1 < chars.len() && chars[from + 1] as u32 == chars[from] as u32 + 1 {
        run_end(chars, from + 1)
    } else {
        from + 1
    }
}

/// The code of a range of characters: one character stands for itself, two
/// characters stand for themselves, and a longer range is written as a NUL
/// followed by its first and its last character.
pub open spec fn range_code(first: char, last: char) -> Seq<char> {
    if first == last {
        seq![first]
    } else if last as u32 == first as u32 + 1 {
        seq![first, last]
    } else {
        seq!['\0', first, last]
    }
}

/// The string that stands for the characters from index `from` on: the
/// codes of their ranges, end to end.
pub open spec fn str_mapping_from(chars: Seq<char>, from: int) -> Seq<char>
    decreases chars.len() - from,
{
    if from < 0 || from >= chars.len() {
        Seq::empty()
    } else {
        let end = run_end(chars, from);
        let rest = if from < end <= chars.len() {
            str_mapping_from(chars, end)
        } else {
            Seq::empty()
        };
        range_code(chars[from], chars[end - 1]) + rest
    }
}

/// The string that stands for a list of characters.
pub open spec fn str_mapping(chars: Seq<char>) -> Seq<char> {
    str_mapping_from(chars, 0)
}

/// Compresses a list of characters into a string, in which each range of
/// characters that follow each other in steps of one code point is written
/// with its first and its last character.
pub fn glyphs_to_str_mapping(glyphs: &[char]) -> (mapping: String)
    ensures
        mapping@ == str_mapping(glyphs@),
{
    let mut mapping = String::new();
    let mut i: usize = 0;
    proof {
        assert(mapping@ + str_mapping_from(glyphs@, 0) == str_mapping(glyphs@));
    }
    while i < glyphs.len()
        invariant
            i <= glyphs.len(),
            mapping@ + str_mapping_from(glyphs@, i as int) == str_mapping(glyphs@),
        decreases glyphs.len() - i,
    {
        let mut end: usize = i + 1;
        while end < glyphs.len() && glyphs[end] as u32 as u64 == glyphs[end - 1] as u32 as u64
            + 1
            invariant
                i < end <= glyphs.len(),
                run_end(glyphs@, end - 1) == run_end(glyphs@, i as int),
            decreases glyphs.len() - end,
        {
            end += 1;
        }
        let first = glyphs[i];
        let last = glyphs[end - 1];
        let ghost before = mapping@;
        let ghost rest = str_mapping_from(glyphs@, end as int);
        if first == last {
            mapping.push(first);
            proof {
                assert(before.push(first) + rest == before + (seq![first] + rest));
            }
        } else if last as u32 as u64 == first as u32 as u64 + 1 {
            mapping.push(first);
            mapping.push(last);
            proof {
                assert(before.push(first).push(last) + rest == before + (seq![first, last] + rest));
            }
        } else {
            mapping.push('\0');
            mapping.push(first);
            mapping.push(last);
            proof {
                assert(before.push('\0').push(first).push(last) + rest == before + (seq![
                    '\0',
                    first,
                    last,
                ] + rest));
            }
        }
        i = end;
    }
    proof {
        assert(mapping@ + Seq::<char>::empty() == mapping@);
    }
    mapping
}

/// The characters for which a string stands: a NUL is followed by the
/// first and the last character of a range and stands for all characters of
/// that range; every other character stands for itself. A NUL without two
/// characters behind it ends the string.
pub open spec fn expand_mapping(s: Seq<char>) -> Seq<char>
    decreases s.len(),
{
    if s.len() == 0 {
        Seq::empty()
    } else if s[0] == '\0' {
        if s.len() >= 3 {
            chars_between(s[1] as u32 as int, s[2] as u32 + 1) + expand_mapping(s.skip(3))
        } else {
            Seq::empty()
        }
    } else {
        seq![s[0]] + expand_mapping(s.skip(1))
    }
}

/// Expands a string into the characters for which it stands.
pub fn expand_str_mapping(mapping: &str) -> (chars: Vec<char>)
    ensures
        chars@ == expand_mapping(mapping@),
{
    let s = to_chars(mapping);
    let mut chars: Vec<char> = Vec::new();
    let mut i: usize = 0;
    proof {
        assert(s@.skip(0) == s@);
        assert(chars@ + expand_mapping(s@) == expand_mapping(s@));
    }
    while i < s.len()
        invariant
            i <= s.len(),
            s@ == mapping@,
            chars@ + expand_mapping(s@.skip(i as int)) == expand_mapping(mapping@),
        decreases s.len() - i,
    {
        let ghost tail = s@.skip(i as int);
        let ghost before = chars@;
        assert(tail[0] == s@[i as int]);
        if s[i] == '\0' {
            if s.len() - i < 3 {
                proof {
                    assert(chars@ + Seq::<char>::empty() == chars@);
                }
                return chars;
            }
            assert(tail[1] == s@[i + 1] && tail[2] == s@[i + 2]);
            proof {
                vstd::utf8::char_is_scalar(s@[i + 2]);
            }
            let mut range = collect_chars(s[i + 1] as u32, s[i + 2] as u32 + 1);
            proof {
                assert(tail.skip(3) == s@.skip(i + 3));
                assert((before + range@) + expand_mapping(tail.skip(3)) == before + (range@
                    + expand_mapping(tail.skip(3))));
            }
            chars.append(&mut range);
            i += 3;
        } else {
            proof {
                assert(tail.skip(1) == s@.skip(i + 1));
                assert(before.push(tail[0]) + expand_mapping(tail.skip(1)) == before + (seq![
                    tail[0],
                ] + expand_mapping(tail.skip(1))));
            }
            chars.push(s[i]);
            i += 1;
        }
    }
    proof {
        assert(s@.skip(s.len() as int).len() == 0);
        assert(chars@ + Seq::<char>::empty() == chars@);
    }
    chars
}

/// The characters of a run follow each other in steps of one code point.
pub proof fn lemma_run(chars: Seq<char>, from: int, i: int)
    requires
        0 <= from <= i < run_end(chars, from),
        from < chars.len(),
    ensures
        run_end(chars, from) <= chars.len(),
        chars[i] as u32 == chars[from] as u32 + (i - from),
        run_end(chars, i) == run_end(chars, from),
    decreases i - from,
{
    lemma_run_end_bound(chars, from);
    if i > from {
        lemma_run_end_bound(chars, from + 1);
        lemma_run(chars, from + 1, i);
    }
}

/// A run ends behind its first character and within the characters.
pub proof fn lemma_run_end_bound(chars: Seq<char>, from: int)
    requires
        0 <= from < chars.len(),
    ensures
        from < run_end(chars, from) <= chars.len(),
    decreases chars.len() - from,
{
    if from + 1 < chars.len() && chars[from + 1] as u32 == chars[from] as u32 + 1 {
        lemma_run_end_bound(chars, from + 1);
    }
}

/// The characters with the code points of a run are the characters of the
/// run.
proof fn lemma_run_chars(chars: Seq<char>, from: int, i: int)
    requires
        0 <= from <= i <= run_end(chars, from),
        from < chars.len(),
    ensures
        run_end(chars, from) <= chars.len(),
        chars_between(
            chars[from] as u32 + (i - from),
            chars[from] as u32 + (run_end(chars, from) - from),
        ) == chars.subrange(i, run_end(chars, from)),
    decreases run_end(chars, from) - i,
{
    let end = run_end(chars, from);
    lemma_run_end_bound(chars, from);
    if i < end {
        lemma_run(chars, from, i);
        lemma_run_chars(chars, from, i + 1);
        let code = chars[from] as u32 + (i - from);
        assert(chars[i] as u32 == code);
        vstd::utf8::char_is_scalar(chars[i]);
        vstd::utf8::char_u32_cast(chars[i], chars[i] as u32);
        assert(is_scalar(code));
        assert(seq![chars[i]] + chars.subrange(i + 1, end) =~= chars.subrange(i, end));
    } else {
        assert(chars.subrange(i, end) =~= Seq::<char>::empty());
    }
}

/// A string that was made of characters stands for these characters, as
/// long as none of them is a NUL.
pub proof fn lemma_str_mapping_expands(chars: Seq<char>)
    requires
        forall|i: int| 0 <= i < chars.len() ==> #[trigger] chars[i] != '\0',
    ensures
        expand_mapping(str_mapping(chars)) == chars,
{
    lemma_str_mapping_expands_from(chars, 0);
    assert(chars.skip(0) =~= chars);
}

/// The string for the characters from `from` on stands for these
/// characters.
proof fn lemma_str_mapping_expands_from(chars: Seq<char>, from: int)
    requires
        0 <= from <= chars.len(),
        forall|i: int| 0 <= i < chars.len() ==> #[trigger] chars[i] != '\0',
    ensures
        expand_mapping(str_mapping_from(chars, from)) == chars.skip(from),
    decreases chars.len() - from,
{
    if from >= chars.len() {
        assert(chars.skip(from) =~= Seq::<char>::empty());
    } else {
        let end = run_end(chars, from);
        lemma_run_end_bound(chars, from);
        lemma_str_mapping_expands_from(chars, end);
        let first = chars[from];
        let last = chars[end - 1];
        let rest = str_mapping_from(chars, end);
        let code = range_code(first, last);
        lemma_run(chars, from, end - 1);
        assert(chars.subrange(from, end) + chars.skip(end) =~= chars.skip(from));
        assert(str_mapping_from(chars, from) == code + rest);
        assert(first != '\0' && last != '\0');
        if first == last {
            assert(end == from + 1) by {
                if end > from + 1 {
                    assert(chars[end - 1] as u32 == chars[from] as u32 + (end - 1 - from));
                }
            }
            assert((code + rest)[0] == first);
            assert((code + rest).skip(1) =~= rest);
            assert(expand_mapping(code + rest) == seq![first] + expand_mapping(rest));
            assert(chars.subrange(from, end) =~= seq![first]);
        } else if last as u32 == first as u32 + 1 {
            assert(end == from + 2);
            assert((code + rest)[0] == first);
            assert((code + rest).skip(1) =~= seq![last] + rest);
            assert((seq![last] + rest)[0] == last);
            assert((seq![last] + rest).skip(1) =~= rest);
            assert(expand_mapping(seq![last] + rest) == seq![last] + expand_mapping(rest));
            assert(expand_mapping(code + rest) == seq![first] + expand_mapping(
                seq![last] + rest,
            ));
            assert(chars.subrange(from, end) =~= seq![first, last]);
            assert(seq![first] + (seq![last] + chars.skip(end)) =~= chars.skip(from));
        } else {
            assert((code + rest)[0] == '\0');
            assert((code + rest)[1] == first);
            assert((code + rest)[2] == last);
            assert((code + rest).skip(3) =~= rest);
            lemma_run_chars(chars, from, from);
            assert(last as u32 + 1 == first as u32 + (end - from));
            assert(expand_mapping(code + rest) == chars_between(
                first as u32 as int,
                last as u32 + 1,
            ) + expand_mapping(rest));
        }
    }
}

} // verus!
