//! The lines of a BDF file: keyword, parameters and line number.

use crate::text::{
    decimal_digits, find_non_whitespace, find_non_whitespace_back, find_word_end, integers,
    parse_integers, push_decimal, skip_whitespace, skip_whitespace_back, string_from_chars,
    to_chars, word_end,
};
use vstd::prelude::*;

verus! {

/// Parser error.
#[derive(Debug, Clone, PartialEq, Eq)]
pub struct ParserError {
    /// What went wrong.
    pub message: String,
    /// The line that was refused, counted from 1, where one is to blame.
    pub line_number: Option<usize>,
}

/// Mathematical value of a [`ParserError`].
pub struct ParserErrorView {
    pub message: Seq<char>,
    pub line_number: Option<nat>,
}

impl View for ParserError {
    type V = ParserErrorView;

    open spec fn view(&self) -> ParserErrorView {
        ParserErrorView {
            message: self.message@,
            line_number: match self.line_number {
                Some(n) => Some(n as nat),
                None => None,
            },
        }
    }
}

impl ParserErrorView {
    /// The error as it is shown to a reader: the message, behind the number
    /// of the line where there is one.
    pub open spec fn text(self) -> Seq<char> {
        match self.line_number {
            Some(n) => "line "@ + decimal_digits(n) + ": "@ + self.message,
            None => self.message,
        }
    }
}

impl ParserError {
    /// Returns the error as it is shown to a reader.
    pub fn to_string(&self) -> (r: String)
        ensures
            r@ == self@.text(),
    {
        match self.line_number {
            Some(n) => {
                let mut r = String::from_str("line ");
                push_decimal(&mut r, n as u64);
                r.append(": ");
                r.append(self.message.as_str());
                r
            },
            None => self.message.clone(),
        }
    }

    /// An error that no single line is to blame for.
    pub fn new(message: &str) -> (e: Self)
        ensures
            e@ == (ParserErrorView { message: message@, line_number: None }),
    {
        Self { message: String::from_str(message), line_number: None }
    }

    /// An error in the given line.
    pub fn with_line(message: &str, line: &Line) -> (e: Self)
        ensures
            e@ == (ParserErrorView {
                message: message@,
                line_number: Some(line.line_number as nat),
            }),
    {
        Self { message: String::from_str(message), line_number: Some(line.line_number) }
    }
}

/// Line in a BDF file.
#[derive(Debug, Clone, PartialEq, Eq)]
pub struct Line {
    /// First word in the line, separated by whitespace.
    pub keyword: String,
    /// The remaining text in the line.
    pub parameters: String,
    /// Line number (starting at 1).
    pub line_number: usize,
}

/// Mathematical value of a [`Line`].
pub struct LineView {
    pub keyword: Seq<char>,
    pub parameters: Seq<char>,
    pub line_number: nat,
}

impl View for Line {
    type V = LineView;

    open spec fn view(&self) -> LineView {
        LineView {
            keyword: self.keyword@,
            parameters: self.parameters@,
            line_number: self.line_number as nat,
        }
    }
}

impl LineView {
    /// The parameters as exactly `n` integers: `None` if a parameter is no
    /// 32-bit integer or their number is not `n`.
    pub open spec fn integer_parameters(self, n: nat) -> Option<Seq<i32>> {
        match integers(self.parameters) {
            Some(values) => if values.len() == n {
                Some(values)
            } else {
                None
            },
            None => None,
        }
    }
}

impl Line {
    /// Parses the parameters as `N` integers separated by whitespace.
    pub fn parse_integer_parameters<const N: usize>(&self) -> (r: Option<[i32; N]>)
        ensures
            match r {
                Some(values) => self@.integer_parameters(N as nat) == Some(values@),
                None => self@.integer_parameters(N as nat).is_none(),
            },
    {
        let chars = to_chars(self.parameters.as_str());
        match parse_integers(&chars) {
            None => None,
            Some(values) => {
                if values.len() != N {
                    return None;
                }
                let mut result: [i32; N] = [0i32; N];
                let mut i: usize = 0;
                while i < N
                    invariant
                        i <= N,
                        values.len() == N,
                        forall|j: int| 0 <= j < i ==> result[j] == values[j],
                    decreases N - i,
                {
                    result[i] = values[i];
                    i += 1;
                }
                assert(result@ =~= values@);
                Some(result)
            },
        }
    }
}

/// The line that one physical line of a file holds: nothing if it is blank
/// or a comment; else its first word as the keyword and what follows that
/// word, without surrounding whitespace, as the parameters.
pub open spec fn line_of(raw: Seq<char>, number: nat) -> Option<LineView> {
    let a = skip_whitespace(raw, 0, raw.len() as int);
    let b = skip_whitespace_back(raw, a, raw.len() as int);
    let k = word_end(raw, a, b);
    let p = skip_whitespace(raw, k, b);
    if a >= b {
        None
    } else if raw.subrange(a, k) == "COMMENT"@ {
        None
    } else {
        Some(LineView { keyword: raw.subrange(a, k), parameters: raw.subrange(p, b), line_number: number })
    }
}

/// Index of the first line feed at or behind `from`, or the length of `s`.
pub open spec fn line_end(s: Seq<char>, from: int) -> int
    decreases s.len() - from,
{
    if from < s.len() && s[from] != '\n' {
        line_end(s, from + 1)
    } else {
        from
    }
}

/// The lines of the text `s` from index `from` on, where the physical line
/// that starts there has the given number.
pub open spec fn lines_from(s: Seq<char>, from: int, number: nat) -> Seq<LineView>
    decreases s.len() - from,
{
    if from < 0 || from >= s.len() {
        Seq::empty()
    } else {
        let end = line_end(s, from);
        let rest = if from <= end < s.len() {
            lines_from(s, end + 1, number + 1)
        } else {
            Seq::empty()
        };
        match line_of(s.subrange(from, end), number) {
            Some(line) => seq![line] + rest,
            None => rest,
        }
    }
}

/// The lines of a text. Physical lines end at a line feed and are counted
/// from 1, blank lines and comments included.
pub open spec fn tokenize(text: Seq<char>) -> Seq<LineView> {
    lines_from(text, 0, 1)
}

/// Reads one physical line.
fn make_line(raw: &Vec<char>, number: usize) -> (r: Option<Line>)
    ensures
        match r {
            Some(line) => line_of(raw@, number as nat) == Some(line@),
            None => line_of(raw@, number as nat).is_none(),
        },
{
    let a = find_non_whitespace(raw, 0, raw.len());
    let b = find_non_whitespace_back(raw, a, raw.len());
    if a >= b {
        return None;
    }
    let k = find_word_end(raw, a, b);
    let p = find_non_whitespace(raw, k, b);
    let keyword = string_from_chars(raw, a, k);
    if keyword.as_str().eq("COMMENT") {
        return None;
    }
    let parameters = string_from_chars(raw, p, b);
    Some(Line { keyword, parameters, line_number: number })
}

/// Iterator over lines in a BDF file.
///
/// This iterator keeps track of line numbers for error messages and filters out
/// empty lines and comments.
#[derive(Debug)]
pub struct Lines {
    chars: Vec<char>,
    pos: usize,
    consumed: usize,
    backtrack_next: Option<Line>,
}

impl Lines {
    #[verifier::type_invariant]
    spec fn well_formed(&self) -> bool {
        self.consumed <= self.pos <= self.chars.len()
    }

    /// The lines that are still to come, in the order in which
    /// [`Lines::next`] returns them.
    pub closed spec fn remaining(&self) -> Seq<LineView> {
        let rest = lines_from(self.chars@, self.pos as int, (self.consumed + 1) as nat);
        match self.backtrack_next {
            Some(line) => seq![line@] + rest,
            None => rest,
        }
    }

    /// A line was pushed back and has not been read again.
    pub closed spec fn has_backtrack(&self) -> bool {
        self.backtrack_next.is_some()
    }

    /// Creates a new lines iterator.
    pub fn new(input: &str) -> (lines: Self)
        ensures
            lines.remaining() == tokenize(input@),
            !lines.has_backtrack(),
    {
        Self { chars: to_chars(input), pos: 0, consumed: 0, backtrack_next: None }
    }

    /// Adds a backtracking line.
    ///
    /// The line that is passed to this method will be returned the next time
    /// [`Lines::next`] is called. Only one line can be pushed back at a time.
    pub fn backtrack(&mut self, line: Line)
        requires
            !old(self).has_backtrack(),
        ensures
            final(self).remaining() == seq![line@] + old(self).remaining(),
            final(self).has_backtrack(),
    {
        proof {
            use_type_invariant(&*self);
        }
        self.backtrack_next = Some(line);
    }

    /// Returns the next line that is neither blank nor a comment, or `None`
    /// at the end of the input.
    pub fn next(&mut self) -> (r: Option<Line>)
        ensures
            !final(self).has_backtrack(),
            match r {
                Some(line) => {
                    &&& old(self).remaining().len() > 0
                    &&& line@ == old(self).remaining()[0]
                    &&& final(self).remaining() == old(self).remaining().skip(1)
                },
                None => old(self).remaining().len() == 0 && final(self).remaining().len() == 0,
            },
    {
        proof {
            use_type_invariant(&*self);
        }
        if self.backtrack_next.is_some() {
            let mut slot: Option<Line> = None;
            core::mem::swap(&mut slot, &mut self.backtrack_next);
            proof {
                let rest = lines_from(self.chars@, self.pos as int, (self.consumed + 1) as nat);
                assert((seq![slot.unwrap()@] + rest).skip(1) == rest);
            }
            return slot;
        }
        loop
            invariant
                self.consumed <= self.pos <= self.chars.len(),
                self.backtrack_next.is_none(),
                self.remaining() == old(self).remaining(),
            decreases self.chars.len() - self.pos,
        {
            if self.pos >= self.chars.len() {
                return None;
            }
            let mut raw: Vec<char> = Vec::new();
            let mut i: usize = self.pos;
            while i < self.chars.len() && self.chars[i] != '\n'
                invariant
                    self.pos <= i <= self.chars.len(),
                    raw@ == self.chars@.subrange(self.pos as int, i as int),
                    line_end(self.chars@, i as int) == line_end(self.chars@, self.pos as int),
                decreases self.chars.len() - i,
            {
                raw.push(self.chars[i]);
                i += 1;
            }
            let number: usize = self.consumed + 1;
            let ghost before = self.remaining();
            let ghost rest = if i < self.chars.len() {
                lines_from(self.chars@, i + 1, (number + 1) as nat)
            } else {
                Seq::<LineView>::empty()
            };
            let next_pos: usize = if i < self.chars.len() {
                i + 1
            } else {
                i
            };
            self.pos = next_pos;
            self.consumed = number;
            assert(self.remaining() == rest);
            match make_line(&raw, number) {
                Some(line) => {
                    proof {
                        assert(before == seq![line@] + rest);
                        assert((seq![line@] + rest).skip(1) == rest);
                    }
                    return Some(line);
                },
                None => {
                    assert(before == rest);
                },
            }
        }
    }
}

} // verus!
