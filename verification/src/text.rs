//! Characters, whitespace and decimal numbers: the vocabulary on which the
//! line-oriented font format is built.

use vstd::prelude::*;

verus! {

/// Specifies [`String::push`] of the standard library: the character is
/// appended to the end of the string.
pub assume_specification[ String::push ](s: &mut String, c: char)
    ensures
        final(s)@ == old(s)@.push(c),
;

/// Specifies `==` on string slices of the standard library: two slices are
/// equal exactly if they hold the same characters.
pub assume_specification[ <str as PartialEq>::eq ](a: &str, b: &str) -> (r: bool)
    ensures
        r == (a@ == b@),
;

/// Characters with the Unicode property `White_Space`.
pub open spec fn is_whitespace(c: char) -> bool {
    let u = c as u32;
    ||| 0x09 <= u <= 0x0D
    ||| u == 0x20
    ||| u == 0x85
    ||| u == 0xA0
    ||| u == 0x1680
    ||| 0x2000 <= u <= 0x200A
    ||| u == 0x2028
    ||| u == 0x2029
    ||| u == 0x202F
    ||| u == 0x205F
    ||| u == 0x3000
}

/// The whitespace characters of ASCII: space, tab, line feed, form feed and
/// carriage return.
pub open spec fn is_ascii_whitespace(c: char) -> bool {
    let u = c as u32;
    u == 0x20 || u == 0x09 || u == 0x0A || u == 0x0C || u == 0x0D
}

/// The decimal digits of ASCII.
pub open spec fn is_digit(c: char) -> bool {
    0x30 <= c as u32 <= 0x39
}

/// Value of a decimal digit.
pub open spec fn digit_value(c: char) -> int {
    c as u32 - 0x30
}

/// Index of the first character in `from..to` that is no whitespace, or `to`.
pub open spec fn skip_whitespace(s: Seq<char>, from: int, to: int) -> int
    decreases to - from,
{
    if from < to && is_whitespace(s[from]) {
        skip_whitespace(s, from + 1, to)
    } else {
        from
    }
}

/// Index behind the last character in `from..to` that is no whitespace, or
/// `from`.
pub open spec fn skip_whitespace_back(s: Seq<char>, from: int, to: int) -> int
    decreases to - from,
{
    if from < to && is_whitespace(s[to - 1]) {
        skip_whitespace_back(s, from, to - 1)
    } else {
        to
    }
}

/// Index of the first whitespace character in `from..to`, or `to`.
pub open spec fn word_end(s: Seq<char>, from: int, to: int) -> int
    decreases to - from,
{
    if from < to && !is_whitespace(s[from]) {
        word_end(s, from + 1, to)
    } else {
        from
    }
}

/// Index of the first character at or behind `from` that is no ASCII
/// whitespace, or the length of `s`.
pub open spec fn skip_ascii_whitespace(s: Seq<char>, from: int) -> int
    decreases s.len() - from,
{
    if from < s.len() && is_ascii_whitespace(s[from]) {
        skip_ascii_whitespace(s, from + 1)
    } else {
        from
    }
}

/// Index of the first ASCII whitespace character at or behind `from`, or the
/// length of `s`.
pub open spec fn ascii_word_end(s: Seq<char>, from: int) -> int
    decreases s.len() - from,
{
    if from < s.len() && !is_ascii_whitespace(s[from]) {
        ascii_word_end(s, from + 1)
    } else {
        from
    }
}

/// Every character is a decimal digit.
pub open spec fn all_digits(s: Seq<char>) -> bool {
    forall|i: int| 0 <= i < s.len() ==> is_digit(#[trigger] s[i])
}

/// Value of a sequence of decimal digits, the most significant first.
pub open spec fn decimal_value(s: Seq<char>) -> int
    decreases s.len(),
{
    if s.len() == 0 {
        0
    } else {
        10 * decimal_value(s.drop_last()) + digit_value(s.last())
    }
}

/// The integer written as an optional sign and at least one decimal digit.
pub open spec fn parse_integer(s: Seq<char>) -> Option<int> {
    if s.len() > 0 && s[0] == '-' {
        let d = s.skip(1);
        if d.len() > 0 && all_digits(d) {
            Some(-decimal_value(d))
        } else {
            None
        }
    } else if s.len() > 0 && s[0] == '+' {
        let d = s.skip(1);
        if d.len() > 0 && all_digits(d) {
            Some(decimal_value(d))
        } else {
            None
        }
    } else if s.len() > 0 && all_digits(s) {
        Some(decimal_value(s))
    } else {
        None
    }
}

/// The signed 32-bit integer that `s` denotes, if it denotes one.
pub open spec fn parse_i32(s: Seq<char>) -> Option<i32> {
    match parse_integer(s) {
        Some(v) => if i32::MIN <= v <= i32::MAX {
            Some(v as i32)
        } else {
            None
        },
        None => None,
    }
}

/// The unsigned integer of pointer width that `s` denotes, if it denotes one:
/// a minus sign is not accepted.
pub open spec fn parse_usize(s: Seq<char>) -> Option<usize> {
    if s.len() > 0 && s[0] == '-' {
        None
    } else {
        match parse_integer(s) {
            Some(v) => if v <= usize::MAX {
                Some(v as usize)
            } else {
                None
            },
            None => None,
        }
    }
}

/// The integers that `s` holds from index `from` on, separated by ASCII
/// whitespace; `None` if a word between the separators is no 32-bit integer.
pub open spec fn integers_from(s: Seq<char>, from: int) -> Option<Seq<i32>>
    decreases s.len() - from,
{
    let a = skip_ascii_whitespace(s, from);
    if a >= s.len() {
        Some(Seq::empty())
    } else {
        let b = ascii_word_end(s, a);
        match parse_i32(s.subrange(a, b)) {
            None => None,
            Some(x) => {
                let rest = if from < b <= s.len() {
                    integers_from(s, b)
                } else {
                    None
                };
                match rest {
                    None => None,
                    Some(r) => Some(seq![x] + r),
                }
            },
        }
    }
}

/// The integers that `s` holds, separated by ASCII whitespace.
pub open spec fn integers(s: Seq<char>) -> Option<Seq<i32>> {
    integers_from(s, 0)
}

/// Tests whether a character has the Unicode property `White_Space`.
pub fn char_is_whitespace(c: char) -> (b: bool)
    ensures
        b == is_whitespace(c),
{
    let u: u32 = c as u32;
    (0x09 <= u && u <= 0x0D) || u == 0x20 || u == 0x85 || u == 0xA0 || u == 0x1680 || (0x2000
        <= u && u <= 0x200A) || u == 0x2028 || u == 0x2029 || u == 0x202F || u == 0x205F || u
        == 0x3000
}

/// Tests whether a character is ASCII whitespace.
pub fn char_is_ascii_whitespace(c: char) -> (b: bool)
    ensures
        b == is_ascii_whitespace(c),
{
    let u: u32 = c as u32;
    u == 0x20 || u == 0x09 || u == 0x0A || u == 0x0C || u == 0x0D
}

/// The characters of a string slice.
pub fn to_chars(s: &str) -> (v: Vec<char>)
    ensures
        v@ == s@,
{
    let mut v: Vec<char> = Vec::new();
    for c in it: s.chars()
        invariant
            v@ == it.seq().take(it.index() as int),
            it.seq() == s@,
    {
        v.push(c);
    }
    v
}

/// The string made of the characters `from..to` of `v`.
pub fn string_from_chars(v: &Vec<char>, from: usize, to: usize) -> (s: String)
    requires
        from <= to <= v.len(),
    ensures
        s@ == v@.subrange(from as int, to as int),
{
    let mut s = String::new();
    let mut i: usize = from;
    while i < to
        invariant
            from <= i <= to <= v.len(),
            s@ == v@.subrange(from as int, i as int),
        decreases to - i,
    {
        s.push(v[i]);
        i += 1;
    }
    s
}

/// Finds the first character in `from..to` that is no whitespace.
pub fn find_non_whitespace(v: &Vec<char>, from: usize, to: usize) -> (r: usize)
    requires
        from <= to <= v.len(),
    ensures
        r == skip_whitespace(v@, from as int, to as int),
        from <= r <= to,
{
    let mut i: usize = from;
    while i < to && char_is_whitespace(v[i])
        invariant
            from <= i <= to <= v.len(),
            skip_whitespace(v@, i as int, to as int) == skip_whitespace(v@, from as int, to as int),
        decreases to - i,
    {
        i += 1;
    }
    i
}

/// Finds the end of the part of `from..to` that does not end in whitespace.
pub fn find_non_whitespace_back(v: &Vec<char>, from: usize, to: usize) -> (r: usize)
    requires
        from <= to <= v.len(),
    ensures
        r == skip_whitespace_back(v@, from as int, to as int),
        from <= r <= to,
{
    let mut i: usize = to;
    while from < i && char_is_whitespace(v[i - 1])
        invariant
            from <= i <= to <= v.len(),
            skip_whitespace_back(v@, from as int, i as int) == skip_whitespace_back(
                v@,
                from as int,
                to as int,
            ),
        decreases i - from,
    {
        i -= 1;
    }
    i
}

/// Finds the first whitespace character in `from..to`.
pub fn find_word_end(v: &Vec<char>, from: usize, to: usize) -> (r: usize)
    requires
        from <= to <= v.len(),
    ensures
        r == word_end(v@, from as int, to as int),
        from <= r <= to,
{
    let mut i: usize = from;
    while i < to && !char_is_whitespace(v[i])
        invariant
            from <= i <= to <= v.len(),
            word_end(v@, i as int, to as int) == word_end(v@, from as int, to as int),
        decreases to - i,
    {
        i += 1;
    }
    i
}

/// Reads the digits `from..to` of `v` as a number. The result is `None` if
/// the range is empty or holds another character; otherwise it is the value,
/// or `limit + 1` where the value is above `limit`.
fn read_digits(v: &Vec<char>, from: usize, to: usize, limit: u128) -> (r: Option<u128>)
    requires
        from <= to <= v.len(),
        limit <= u64::MAX,
    ensures
        r.is_some() == (from < to && all_digits(v@.subrange(from as int, to as int))),
        r.is_some() ==> {
            let value = decimal_value(v@.subrange(from as int, to as int));
            if value <= limit {
                r.unwrap() == value
            } else {
                r.unwrap() == limit + 1
            }
        },
{
    if from >= to {
        return None;
    }
    let ghost d = v@.subrange(from as int, to as int);
    let mut acc: u128 = 0;
    let mut i: usize = from;
    while i < to
        invariant
            from <= i <= to <= v.len(),
            limit <= u64::MAX,
            d == v@.subrange(from as int, to as int),
            all_digits(d.take(i - from)),
            0 <= decimal_value(d.take(i - from)),
            decimal_value(d.take(i - from)) <= limit ==> acc == decimal_value(d.take(i - from)),
            decimal_value(d.take(i - from)) > limit ==> acc == limit + 1,
        decreases to - i,
    {
        let c = v[i];
        let u: u32 = c as u32;
        proof {
            assert(d.take(i + 1 - from).drop_last() == d.take(i - from));
            assert(d.take(i + 1 - from).last() == c);
            assert(d[i - from] == c);
        }
        if u < 0x30 || u > 0x39 {
            proof {
                assert(!is_digit(d[i - from]));
            }
            return None;
        }
        proof {
            assert forall|j: int| 0 <= j < d.take(i + 1 - from).len() implies is_digit(
                #[trigger] d.take(i + 1 - from)[j],
            ) by {
                if j < i - from {
                    assert(d.take(i - from)[j] == d.take(i + 1 - from)[j]);
                }
            }
        }
        if acc <= limit {
            let next: u128 = acc * 10 + (u - 0x30) as u128;
            acc = if next > limit {
                limit + 1
            } else {
                next
            };
        }
        i += 1;
    }
    proof {
        assert(d.take(to - from) == d);
    }
    Some(acc)
}

/// Reads the characters `from..to` of `v` as a signed 32-bit integer.
pub fn parse_i32_chars(v: &Vec<char>, from: usize, to: usize) -> (r: Option<i32>)
    requires
        from <= to <= v.len(),
    ensures
        r == parse_i32(v@.subrange(from as int, to as int)),
{
    let ghost s = v@.subrange(from as int, to as int);
    if from == to {
        return None;
    }
    let first = v[from];
    assert(s[0] == first);
    let negative = first == '-';
    let start: usize = if first == '-' || first == '+' {
        from + 1
    } else {
        from
    };
    proof {
        if start > from {
            assert(s.skip(1) == v@.subrange(start as int, to as int));
        } else {
            assert(s == v@.subrange(start as int, to as int));
        }
    }
    match read_digits(v, start, to, 0x8000_0000) {
        None => None,
        Some(value) => {
            if negative {
                if value <= 0x8000_0000 {
                    Some((-(value as i64)) as i32)
                } else {
                    None
                }
            } else if value <= 0x7fff_ffff {
                Some(value as i32)
            } else {
                None
            }
        },
    }
}

/// The unsigned 32-bit integer that `s` denotes, if it denotes one: a minus
/// sign is not accepted.
pub open spec fn parse_u32(s: Seq<char>) -> Option<u32> {
    if s.len() > 0 && s[0] == '-' {
        None
    } else {
        match parse_integer(s) {
            Some(v) => if v <= u32::MAX {
                Some(v as u32)
            } else {
                None
            },
            None => None,
        }
    }
}

/// Reads the characters `from..to` of `v` as an unsigned 32-bit integer.
pub fn parse_u32_chars(v: &Vec<char>, from: usize, to: usize) -> (r: Option<u32>)
    requires
        from <= to <= v.len(),
    ensures
        r == parse_u32(v@.subrange(from as int, to as int)),
{
    let ghost s = v@.subrange(from as int, to as int);
    if from == to {
        return None;
    }
    let first = v[from];
    assert(s[0] == first);
    if first == '-' {
        return None;
    }
    let start: usize = if first == '+' {
        from + 1
    } else {
        from
    };
    proof {
        if start > from {
            assert(s.skip(1) == v@.subrange(start as int, to as int));
        } else {
            assert(s == v@.subrange(start as int, to as int));
        }
    }
    match read_digits(v, start, to, 0xffff_ffff) {
        None => None,
        Some(value) => {
            if value <= 0xffff_ffff {
                Some(value as u32)
            } else {
                None
            }
        },
    }
}

/// Reads the characters `from..to` of `v` as an unsigned integer of pointer
/// width.
pub fn parse_usize_chars(v: &Vec<char>, from: usize, to: usize) -> (r: Option<usize>)
    requires
        from <= to <= v.len(),
    ensures
        r == parse_usize(v@.subrange(from as int, to as int)),
{
    let ghost s = v@.subrange(from as int, to as int);
    if from == to {
        return None;
    }
    let first = v[from];
    assert(s[0] == first);
    if first == '-' {
        return None;
    }
    let start: usize = if first == '+' {
        from + 1
    } else {
        from
    };
    proof {
        if start > from {
            assert(s.skip(1) == v@.subrange(start as int, to as int));
        } else {
            assert(s == v@.subrange(start as int, to as int));
        }
    }
    match read_digits(v, start, to, usize::MAX as u128) {
        None => None,
        Some(value) => {
            if value <= usize::MAX as u128 {
                Some(value as usize)
            } else {
                None
            }
        },
    }
}

/// Reads integers separated by ASCII whitespace.
pub fn parse_integers(v: &Vec<char>) -> (r: Option<Vec<i32>>)
    ensures
        match r {
            Some(values) => integers(v@) == Some(values@),
            None => integers(v@).is_none(),
        },
{
    let mut values: Vec<i32> = Vec::new();
    let mut i: usize = 0;
    loop
        invariant
            i <= v.len(),
            integers(v@) == match integers_from(v@, i as int) {
                None => None::<Seq<i32>>,
                Some(rest) => Some(values@ + rest),
            },
        decreases v.len() - i,
    {
        let mut a: usize = i;
        while a < v.len() && char_is_ascii_whitespace(v[a])
            invariant
                i <= a <= v.len(),
                skip_ascii_whitespace(v@, a as int) == skip_ascii_whitespace(v@, i as int),
            decreases v.len() - a,
        {
            a += 1;
        }
        if a >= v.len() {
            proof {
                assert(values@ + Seq::<i32>::empty() == values@);
            }
            return Some(values);
        }
        let mut b: usize = a;
        while b < v.len() && !char_is_ascii_whitespace(v[b])
            invariant
                a <= b <= v.len(),
                ascii_word_end(v@, b as int) == ascii_word_end(v@, a as int),
            decreases v.len() - b,
        {
            b += 1;
        }
        assert(b > a);
        match parse_i32_chars(v, a, b) {
            None => {
                return None;
            },
            Some(x) => {
                proof {
                    let rest = integers_from(v@, b as int);
                    if rest.is_some() {
                        assert(values@ + (seq![x] + rest.unwrap()) == values@.push(x)
                            + rest.unwrap());
                    }
                }
                values.push(x);
                i = b;
            },
        }
    }
}

/// The character for a decimal digit.
pub open spec fn digit_char(d: nat) -> char {
    ((0x30 + d) as u32) as char
}

/// The decimal digits of a number, the most significant first and without
/// leading zeros.
pub open spec fn decimal_digits(n: nat) -> Seq<char>
    decreases n,
{
    if n < 10 {
        seq![digit_char(n)]
    } else {
        decimal_digits(n / 10).push(digit_char(n % 10))
    }
}

/// An integer in decimal notation, with a minus sign where it is negative.
pub open spec fn render_integer(v: int) -> Seq<char> {
    if v < 0 {
        seq!['-'] + decimal_digits((-v) as nat)
    } else {
        decimal_digits(v as nat)
    }
}

/// Integers in decimal notation with one space between them.
pub open spec fn render_integers(values: Seq<i32>) -> Seq<char>
    decreases values.len(),
{
    if values.len() == 0 {
        Seq::empty()
    } else if values.len() == 1 {
        render_integer(values[0] as int)
    } else {
        render_integers(values.drop_last()) + seq![' '] + render_integer(values.last() as int)
    }
}

/// The digits of a number are digits, and their value is the number.
pub proof fn lemma_decimal_digits(n: nat)
    ensures
        decimal_digits(n).len() > 0,
        all_digits(decimal_digits(n)),
        decimal_value(decimal_digits(n)) == n,
    decreases n,
{
    if n < 10 {
        let s = decimal_digits(n);
        assert(s.drop_last() =~= Seq::<char>::empty());
        assert(is_digit(s[0]));
        assert(decimal_value(s.drop_last()) == 0);
    } else {
        lemma_decimal_digits(n / 10);
        let s = decimal_digits(n);
        let shorter = decimal_digits(n / 10);
        assert(s.drop_last() =~= shorter);
        assert(s.last() == digit_char(n % 10));
        assert forall|i: int| 0 <= i < s.len() implies is_digit(#[trigger] s[i]) by {
            if i < shorter.len() {
                assert(s[i] == shorter[i]);
            }
        }
    }
}

/// Reading an integer that was written in decimal notation gives the
/// integer.
pub proof fn lemma_parse_rendered(v: int)
    ensures
        parse_integer(render_integer(v)) == Some(v),
        render_integer(v).len() > 0,
        forall|i: int|
            0 <= i < render_integer(v).len() ==> !is_ascii_whitespace(
                #[trigger] render_integer(v)[i],
            ),
{
    let s = render_integer(v);
    if v < 0 {
        let d = decimal_digits((-v) as nat);
        lemma_decimal_digits((-v) as nat);
        assert(s.skip(1) =~= d);
        assert(s[0] == '-');
        assert forall|i: int| 0 <= i < s.len() implies !is_ascii_whitespace(#[trigger] s[i]) by {
            if i > 0 {
                assert(s[i] == d[i - 1]);
                assert(is_digit(d[i - 1]));
            }
        }
    } else {
        lemma_decimal_digits(v as nat);
        assert(is_digit(s[0]));
        assert forall|i: int| 0 <= i < s.len() implies !is_ascii_whitespace(#[trigger] s[i]) by {
            assert(is_digit(s[i]));
        }
    }
}

/// A word that reaches from `from` to `to`, behind separators that begin at
/// `start`, is the first of the integers from `start` on.
pub proof fn lemma_integers_step(s: Seq<char>, start: int, from: int, to: int, x: i32)
    requires
        0 <= start <= from < to <= s.len(),
        forall|i: int| start <= i < from ==> is_ascii_whitespace(#[trigger] s[i]),
        forall|i: int| from <= i < to ==> !is_ascii_whitespace(#[trigger] s[i]),
        to == s.len() || is_ascii_whitespace(s[to]),
        parse_i32(s.subrange(from, to)) == Some(x),
    ensures
        integers_from(s, start) == match integers_from(s, to) {
            Some(rest) => Some(seq![x] + rest),
            None => None::<Seq<i32>>,
        },
{
    lemma_skip_ascii_whitespace(s, start, from);
    lemma_ascii_word_end(s, from, to);
}

/// Separators from `from` to `to` are passed over.
pub proof fn lemma_skip_ascii_whitespace(s: Seq<char>, from: int, to: int)
    requires
        0 <= from <= to <= s.len(),
        forall|i: int| from <= i < to ==> is_ascii_whitespace(#[trigger] s[i]),
        to == s.len() || !is_ascii_whitespace(s[to]),
    ensures
        skip_ascii_whitespace(s, from) == to,
    decreases to - from,
{
    if from < to {
        lemma_skip_ascii_whitespace(s, from + 1, to);
    }
}

/// A word from `from` to `to` ends at `to`.
pub proof fn lemma_ascii_word_end(s: Seq<char>, from: int, to: int)
    requires
        0 <= from <= to <= s.len(),
        forall|i: int| from <= i < to ==> !is_ascii_whitespace(#[trigger] s[i]),
        to == s.len() || is_ascii_whitespace(s[to]),
    ensures
        ascii_word_end(s, from) == to,
    decreases to - from,
{
    if from < to {
        lemma_ascii_word_end(s, from + 1, to);
    }
}

/// Reading integers that were written in decimal notation with one space
/// between them gives the integers.
pub proof fn lemma_integers_rendered(values: Seq<i32>)
    ensures
        integers(render_integers(values)) == Some(values),
{
    lemma_integers_rendered_from(values, 0);
    assert(values.take(0) =~= Seq::<i32>::empty());
    assert(values.skip(0) =~= values);
}

/// The text of the first `n` integers ends where the text of integer `n`
/// begins, and the integers from there on are read as they were written.
proof fn lemma_integers_rendered_from(values: Seq<i32>, n: int)
    requires
        0 <= n <= values.len(),
    ensures
        ({
            let s = render_integers(values);
            let p = render_integers(values.take(n));
            &&& p.len() <= s.len()
            &&& s.take(p.len() as int) == p
            &&& n < values.len() && n > 0 ==> s[p.len() as int] == ' '
            &&& integers_from(s, p.len() as int) == Some(values.skip(n))
        }),
    decreases values.len() - n,
{
    let s = render_integers(values);
    let p = render_integers(values.take(n));
    if n == values.len() {
        assert(values.take(n) == values);
        assert(s.take(s.len() as int) == s);
        assert(values.skip(n) =~= Seq::<i32>::empty());
    } else {
        lemma_integers_rendered_from(values, n + 1);
        let q = render_integers(values.take(n + 1));
        let word = render_integer(values[n] as int);
        lemma_parse_rendered(values[n] as int);
        assert(values.take(n + 1).drop_last() == values.take(n));
        assert(values.take(n + 1).last() == values[n]);
        let from: int = if n == 0 {
            0int
        } else {
            (p.len() + 1) as int
        };
        if n == 0 {
            assert(values.take(1).len() == 1);
            assert(q == word);
            assert(p =~= Seq::<char>::empty());
        } else {
            assert(values.take(n + 1).len() > 1);
            assert(q == p + seq![' '] + word);
            assert(q[p.len() as int] == ' ');
        }
        assert(from + word.len() == q.len());
        assert(s.take(q.len() as int) == q);
        assert forall|i: int| 0 <= i < q.len() implies s[i] == q[i] by {
            assert(s.take(q.len() as int)[i] == s[i]);
        }
        assert(s.take(p.len() as int) =~= p) by {
            assert forall|i: int| 0 <= i < p.len() implies s[i] == p[i] by {
                assert(q[i] == p[i]);
            }
        }
        assert(s.subrange(from, q.len() as int) =~= word) by {
            assert forall|i: int| 0 <= i < word.len() implies s[from + i] == word[i] by {
                assert(q[from + i] == word[i]);
            }
        }
        assert(parse_i32(word) == Some(values[n]));
        assert forall|i: int| from <= i < q.len() implies !is_ascii_whitespace(
            #[trigger] s[i],
        ) by {
            assert(s[i] == word[i - from]);
        }
        if n > 0 {
            assert(s[p.len() as int] == ' ');
        }
        if q.len() < s.len() {
            assert(s[q.len() as int] == ' ');
        }
        lemma_integers_step(s, p.len() as int, from, q.len() as int, values[n]);
        assert(seq![values[n]] + values.skip(n + 1) =~= values.skip(n));
    }
}

/// Appends a number in decimal notation to a string.
pub fn push_decimal(s: &mut String, n: u64)
    ensures
        final(s)@ == old(s)@ + decimal_digits(n as nat),
    decreases n,
{
    if n >= 10 {
        push_decimal(s, n / 10);
    }
    let u: u32 = 0x30 + (n % 10) as u32;
    let c = char::from_u32(u).unwrap();
    proof {
        vstd::utf8::char_u32_cast(c, u);
        if n >= 10 {
            assert(old(s)@ + decimal_digits((n / 10) as nat).push(c) == (old(s)@ + decimal_digits(
                (n / 10) as nat,
            )).push(c));
        } else {
            assert(old(s)@ + seq![c] == old(s)@.push(c));
        }
    }
    s.push(c);
}

/// Appends a 32-bit integer in decimal notation to a string.
pub fn push_integer(s: &mut String, v: i32)
    ensures
        final(s)@ == old(s)@ + render_integer(v as int),
{
    if v < 0 {
        s.push('-');
        push_decimal(s, (-(v as i64)) as u64);
        proof {
            assert(old(s)@.push('-') + decimal_digits((-v) as nat) == old(s)@ + (seq!['-']
                + decimal_digits((-v) as nat)));
        }
    } else {
        push_decimal(s, v as u64);
    }
}

} // verus!
