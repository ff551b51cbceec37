//! A text has the same lines whether its lines end with a line feed or with
//! a carriage return and a line feed.

use crate::font::parse_font;
use crate::parser::{line_end, line_of, lines_from, tokenize};
use crate::text::{is_whitespace, skip_whitespace, skip_whitespace_back, word_end};
use vstd::prelude::*;

verus! {

/// The text with a carriage return in front of every line feed.
pub open spec fn with_carriage_returns(s: Seq<char>) -> Seq<char>
    decreases s.len(),
{
    if s.len() == 0 {
        Seq::empty()
    } else if s[0] == '\n' {
        seq!['\r', '\n'] + with_carriage_returns(s.skip(1))
    } else {
        seq![s[0]] + with_carriage_returns(s.skip(1))
    }
}

/// Where the search for a character that is no whitespace ends.
pub proof fn lemma_skip_whitespace_is(s: Seq<char>, from: int, to: int, r: int)
    requires
        0 <= from <= r <= to <= s.len(),
        forall|i: int| from <= i < r ==> is_whitespace(#[trigger] s[i]),
        r == to || !is_whitespace(s[r]),
    ensures
        skip_whitespace(s, from, to) == r,
    decreases r - from,
{
    if from < r {
        lemma_skip_whitespace_is(s, from + 1, to, r);
    }
}

/// What the search for a character that is no whitespace finds.
pub proof fn lemma_skip_whitespace_found(s: Seq<char>, from: int, to: int)
    requires
        0 <= from <= to <= s.len(),
    ensures
        from <= skip_whitespace(s, from, to) <= to,
        forall|i: int| from <= i < skip_whitespace(s, from, to) ==> is_whitespace(#[trigger] s[i]),
        skip_whitespace(s, from, to) == to || !is_whitespace(s[skip_whitespace(s, from, to)]),
    decreases to - from,
{
    if from < to && is_whitespace(s[from]) {
        lemma_skip_whitespace_found(s, from + 1, to);
    }
}

/// Where the search from the end for a character that is no whitespace
/// ends.
pub proof fn lemma_skip_whitespace_back_is(s: Seq<char>, from: int, to: int, r: int)
    requires
        0 <= from <= r <= to <= s.len(),
        forall|i: int| r <= i < to ==> is_whitespace(#[trigger] s[i]),
        r == from || !is_whitespace(s[r - 1]),
    ensures
        skip_whitespace_back(s, from, to) == r,
    decreases to - r,
{
    if r < to {
        lemma_skip_whitespace_back_is(s, from, to - 1, r);
    }
}

/// What the search from the end for a character that is no whitespace
/// finds.
pub proof fn lemma_skip_whitespace_back_found(s: Seq<char>, from: int, to: int)
    requires
        0 <= from <= to <= s.len(),
    ensures
        from <= skip_whitespace_back(s, from, to) <= to,
        forall|i: int|
            skip_whitespace_back(s, from, to) <= i < to ==> is_whitespace(#[trigger] s[i]),
        skip_whitespace_back(s, from, to) == from || !is_whitespace(
            s[skip_whitespace_back(s, from, to) - 1],
        ),
    decreases to - from,
{
    if from < to && is_whitespace(s[to - 1]) {
        lemma_skip_whitespace_back_found(s, from, to - 1);
    }
}

/// Where a word ends.
pub proof fn lemma_word_end_is(s: Seq<char>, from: int, to: int, r: int)
    requires
        0 <= from <= r <= to <= s.len(),
        forall|i: int| from <= i < r ==> !is_whitespace(#[trigger] s[i]),
        r == to || is_whitespace(s[r]),
    ensures
        word_end(s, from, to) == r,
    decreases r - from,
{
    if from < r {
        lemma_word_end_is(s, from + 1, to, r);
    }
}

/// What the end of a word is.
pub proof fn lemma_word_end_found(s: Seq<char>, from: int, to: int)
    requires
        0 <= from <= to <= s.len(),
    ensures
        from <= word_end(s, from, to) <= to,
        forall|i: int| from <= i < word_end(s, from, to) ==> !is_whitespace(#[trigger] s[i]),
        word_end(s, from, to) == to || is_whitespace(s[word_end(s, from, to)]),
    decreases to - from,
{
    if from < to && !is_whitespace(s[from]) {
        lemma_word_end_found(s, from + 1, to);
    }
}

/// A physical line holds the same line with and without a whitespace
/// character at its end.
pub proof fn lemma_line_of_trailing_whitespace(raw: Seq<char>, c: char, number: nat)
    requires
        is_whitespace(c),
    ensures
        line_of(raw.push(c), number) == line_of(raw, number),
{
    let longer = raw.push(c);
    let n = raw.len() as int;
    let a = skip_whitespace(raw, 0, n);
    lemma_skip_whitespace_found(raw, 0, n);
    let b = skip_whitespace_back(raw, a, n);
    lemma_skip_whitespace_back_found(raw, a, n);
    assert forall|i: int| 0 <= i < n implies longer[i] == raw[i] by {}
    if a == n {
        lemma_skip_whitespace_is(longer, 0, n + 1, n + 1);
        lemma_skip_whitespace_back_found(longer, n + 1, n + 1);
    } else {
        lemma_skip_whitespace_is(longer, 0, n + 1, a);
        assert(b > a) by {
            if b == a {
                assert(is_whitespace(raw[a]));
            }
        }
        lemma_skip_whitespace_back_is(longer, a, n + 1, b);
        let k = word_end(raw, a, b);
        lemma_word_end_found(raw, a, b);
        lemma_word_end_is(longer, a, b, k);
        let p = skip_whitespace(raw, k, b);
        lemma_skip_whitespace_found(raw, k, b);
        lemma_skip_whitespace_is(longer, k, b, p);
        assert(longer.subrange(a, k) =~= raw.subrange(a, k));
        assert(longer.subrange(p, b) =~= raw.subrange(p, b));
    }
}

/// Where a physical line ends.
pub proof fn lemma_line_end_is(s: Seq<char>, from: int, r: int)
    requires
        0 <= from <= r <= s.len(),
        forall|i: int| from <= i < r ==> #[trigger] s[i] != '\n',
        r == s.len() || s[r] == '\n',
    ensures
        line_end(s, from) == r,
    decreases r - from,
{
    if from < r {
        lemma_line_end_is(s, from + 1, r);
    }
}

/// What the end of a physical line is.
pub proof fn lemma_line_end_found(s: Seq<char>, from: int)
    requires
        0 <= from <= s.len(),
    ensures
        from <= line_end(s, from) <= s.len(),
        forall|i: int| from <= i < line_end(s, from) ==> #[trigger] s[i] != '\n',
        line_end(s, from) == s.len() || s[line_end(s, from)] == '\n',
    decreases s.len() - from,
{
    if from < s.len() && s[from] != '\n' {
        lemma_line_end_found(s, from + 1);
    }
}

/// The lines of a text from an index on are the lines of what the text
/// holds from that index on.
pub proof fn lemma_lines_from_skip(s: Seq<char>, from: int, number: nat)
    requires
        0 <= from <= s.len(),
    ensures
        lines_from(s, from, number) == lines_from(s.skip(from), 0, number),
    decreases s.len() - from,
{
    let t = s.skip(from);
    if from < s.len() {
        let end = line_end(s, from);
        lemma_line_end_found(s, from);
        assert forall|i: int| 0 <= i < end - from implies #[trigger] t[i] != '\n' by {
            assert(t[i] == s[from + i]);
        }
        lemma_line_end_is(t, 0, end - from);
        assert(t.subrange(0, end - from) =~= s.subrange(from, end));
        if end < s.len() {
            lemma_lines_from_skip(s, end + 1, number + 1);
            lemma_lines_from_skip(t, end - from + 1, number + 1);
            assert(t.skip(end - from + 1) =~= s.skip(end + 1));
        }
    }
}

/// The text with carriage returns, up to its first line feed.
proof fn lemma_first_line_with_carriage_returns(s: Seq<char>)
    ensures
        ({
            let end = line_end(s, 0);
            with_carriage_returns(s) == s.take(end) + (if end < s.len() {
                seq!['\r', '\n'] + with_carriage_returns(s.skip(end + 1))
            } else {
                Seq::<char>::empty()
            })
        }),
    decreases s.len(),
{
    let end = line_end(s, 0);
    lemma_line_end_found(s, 0);
    if s.len() == 0 {
        assert(s.take(0) + Seq::<char>::empty() =~= Seq::<char>::empty());
    } else if s[0] == '\n' {
        assert(s.take(0) + (seq!['\r', '\n'] + with_carriage_returns(s.skip(1))) =~= seq![
            '\r',
            '\n',
        ] + with_carriage_returns(s.skip(1)));
    } else {
        let t = s.skip(1);
        lemma_first_line_with_carriage_returns(t);
        assert forall|i: int| 0 <= i < end - 1 implies #[trigger] t[i] != '\n' by {
            assert(t[i] == s[i + 1]);
        }
        lemma_line_end_is(t, 0, end - 1);
        let tail = if end < s.len() {
            seq!['\r', '\n'] + with_carriage_returns(s.skip(end + 1))
        } else {
            Seq::<char>::empty()
        };
        if end < s.len() {
            assert(t.skip(end) =~= s.skip(end + 1));
        }
        assert(seq![s[0]] + (t.take(end - 1) + tail) =~= s.take(end) + tail);
    }
}

/// A text has the same lines with the same numbers whether its lines end
/// with a line feed or with a carriage return and a line feed.
pub proof fn lemma_lines_with_carriage_returns(s: Seq<char>, number: nat)
    ensures
        lines_from(with_carriage_returns(s), 0, number) == lines_from(s, 0, number),
    decreases s.len(),
{
    let t = with_carriage_returns(s);
    let end = line_end(s, 0);
    lemma_line_end_found(s, 0);
    lemma_first_line_with_carriage_returns(s);
    if s.len() == 0 {
    } else if end == s.len() {
        assert(s.take(end) == s);
        assert(t =~= s);
    } else {
        let rest = with_carriage_returns(s.skip(end + 1));
        assert(t == s.take(end) + (seq!['\r', '\n'] + rest));
        assert forall|i: int| 0 <= i < end + 1 implies #[trigger] t[i] != '\n' by {
            if i < end {
                assert(t[i] == s[i]);
            }
        }
        assert(t[end + 1] == '\n');
        lemma_line_end_is(t, 0, end + 1);
        assert(t.subrange(0, end + 1) =~= s.subrange(0, end).push('\r'));
        lemma_line_of_trailing_whitespace(s.subrange(0, end), '\r', number);
        assert(t.skip(end + 2) =~= rest);
        lemma_lines_from_skip(t, end + 2, number + 1);
        lemma_lines_from_skip(s, end + 1, number + 1);
        lemma_lines_with_carriage_returns(s.skip(end + 1), number + 1);
    }
}

/// A text parses alike whether its lines end with a line feed or with a
/// carriage return and a line feed.
pub proof fn lemma_line_endings_do_not_matter(text: Seq<char>)
    ensures
        tokenize(with_carriage_returns(text)) == tokenize(text),
        parse_font(tokenize(with_carriage_returns(text))) == parse_font(tokenize(text)),
{
    lemma_lines_with_carriage_returns(text, 1);
}

} // verus!
