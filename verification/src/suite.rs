//! Parsing a collection of font files and counting those that fail.

use crate::font::{parse_font, BdfFont, FontView};
use crate::parser::{tokenize, ParserError, ParserErrorView};
use crate::text::{decimal_digits, push_decimal};
use vstd::prelude::*;

verus! {

/// The path of a font file.
#[derive(Debug, PartialEq, Eq, PartialOrd, Ord)]
pub struct FontPath {
    /// The path by which the file is read.
    pub absolute: String,
    /// The path by which the file is shown: the part behind the directory
    /// that was searched.
    pub relative: String,
}

/// A font file and what parsing it gave.
#[derive(Debug)]
pub struct FontFile {
    /// The path of the file.
    pub path: FontPath,
    /// The font, or the error of the parser.
    pub parsed: Result<BdfFont, ParserError>,
}

/// Number of the files among the first `n` that could not be parsed.
pub open spec fn failed_count(files: Seq<FontFile>, n: int) -> nat
    decreases n,
{
    if n <= 0 {
        0
    } else {
        failed_count(files, n - 1) + (if files[n - 1].parsed.is_err() {
            1nat
        } else {
            0nat
        })
    }
}

/// Not more files have failed than there are.
pub proof fn lemma_failed_count_bound(files: Seq<FontFile>, n: int)
    requires
        0 <= n,
    ensures
        failed_count(files, n) <= n,
    decreases n,
{
    if n > 0 {
        lemma_failed_count_bound(files, n - 1);
    }
}

/// The line that sums the results up.
pub open spec fn summary_text(total: nat, failed: nat) -> Seq<char> {
    "\n"@ + decimal_digits((total - failed) as nat) + " out of "@ + decimal_digits(total)
        + " fonts passed ("@ + decimal_digits(failed) + " failed)\n"@
}

/// Parses the text of one font file.
pub fn parse_font_file(path: FontPath, text: &str) -> (file: FontFile)
    ensures
        file.path == path,
        match file.parsed {
            Ok(font) => parse_font(tokenize(text@)) == Ok::<_, ParserErrorView>(font@),
            Err(e) => parse_font(tokenize(text@)) == Err::<FontView, _>(e@),
        },
{
    FontFile { path, parsed: BdfFont::parse(text) }
}

/// Parses the texts of font files, in their order.
pub fn parse_fonts(files: Vec<(FontPath, String)>) -> (parsed: Vec<FontFile>)
    ensures
        parsed@.len() == files@.len(),
        forall|i: int|
            0 <= i < files@.len() ==> (#[trigger] parsed@[i]).path == files@[i].0 && (
            match parsed@[i].parsed {
                Ok(font) => parse_font(tokenize(files@[i].1@)) == Ok::<_, ParserErrorView>(font@),
                Err(e) => parse_font(tokenize(files@[i].1@)) == Err::<FontView, _>(e@),
            }),
{
    let mut files = files;
    let ghost all = files@;
    let mut parsed: Vec<FontFile> = Vec::new();
    let mut rest: Vec<(FontPath, String)> = Vec::new();
    // take the files from the end, then put the results in order
    while files.len() > 0
        invariant
            files@.len() <= all.len(),
            files@ == all.take(files@.len() as int),
            rest@.len() + files@.len() == all.len(),
            forall|i: int|
                0 <= i < rest@.len() ==> #[trigger] rest@[i] == all[all.len() - 1 - i],
        decreases files.len(),
    {
        let ghost before = files@;
        let last = files.pop().unwrap();
        proof {
            assert(files@ == all.take(files@.len() as int));
            assert(last == all[all.len() - 1 - rest@.len()]) by {
                assert(before[before.len() - 1] == all[before.len() - 1]);
            }
        }
        rest.push(last);
    }
    while rest.len() > 0
        invariant
            rest@.len() + parsed@.len() == all.len(),
            forall|i: int|
                0 <= i < rest@.len() ==> #[trigger] rest@[i] == all[all.len() - 1 - i],
            forall|i: int|
                0 <= i < parsed@.len() ==> (#[trigger] parsed@[i]).path == all[i].0 && (
                match parsed@[i].parsed {
                    Ok(font) => parse_font(tokenize(all[i].1@)) == Ok::<_, ParserErrorView>(font@),
                    Err(e) => parse_font(tokenize(all[i].1@)) == Err::<FontView, _>(e@),
                }),
        decreases rest.len(),
    {
        let ghost index = parsed@.len() as int;
        let (path, text) = rest.pop().unwrap();
        let file = parse_font_file(path, text.as_str());
        parsed.push(file);
    }
    parsed
}

/// Counts the files that could not be parsed.
pub fn count_errors(files: &[FontFile]) -> (n: usize)
    ensures
        n == failed_count(files@, files@.len() as int),
{
    let mut n: usize = 0;
    let mut i: usize = 0;
    while i < files.len()
        invariant
            i <= files.len(),
            n == failed_count(files@, i as int),
            n <= i,
        decreases files.len() - i,
    {
        if files[i].parsed.is_err() {
            n += 1;
        }
        i += 1;
    }
    n
}

/// Sums the results up in one line.
pub fn summary(files: &[FontFile]) -> (r: String)
    ensures
        r@ == summary_text(files@.len(), failed_count(files@, files@.len() as int)),
{
    let failed = count_errors(files);
    proof {
        lemma_failed_count_bound(files@, files@.len() as int);
    }
    let mut r = String::from_str("\n");
    push_decimal(&mut r, (files.len() - failed) as u64);
    r.append(" out of ");
    push_decimal(&mut r, files.len() as u64);
    r.append(" fonts passed (");
    push_decimal(&mut r, failed as u64);
    r.append(" failed)\n");
    r
}

} // verus!
