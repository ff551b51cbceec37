//! A whole BDF font: the banner, the metadata and the glyphs.

use crate::glyph::{glyph_list, GlyphView, Glyphs};
use crate::metadata::{error_in, parse_metadata, Metadata, MetadataView};
use crate::parser::{tokenize, LineView, Lines, ParserError, ParserErrorView};
use vstd::prelude::*;

verus! {

/// BDF Font.
#[derive(Debug, Clone, PartialEq)]
pub struct BdfFont {
    /// Font metadata.
    pub metadata: Metadata,
    /// Glyphs.
    pub glyphs: Glyphs,
}

/// Mathematical value of a [`BdfFont`].
pub struct FontView {
    pub metadata: MetadataView,
    pub glyphs: Seq<GlyphView>,
}

impl View for BdfFont {
    type V = FontView;

    open spec fn view(&self) -> FontView {
        FontView { metadata: self.metadata@, glyphs: self.glyphs@ }
    }
}

/// The font that a sequence of lines holds. The first line must be
/// `STARTFONT 2.1`; the metadata and the glyphs follow. Lines behind the
/// line `ENDFONT` are not read.
pub open spec fn parse_font(lines: Seq<LineView>) -> Result<FontView, ParserErrorView> {
    if lines.len() == 0 {
        Err(ParserErrorView { message: "empty input"@, line_number: None })
    } else if lines[0].keyword != "STARTFONT"@ || lines[0].parameters != "2.1"@ {
        Err(error_in("expected \"STARTFONT 2.1\""@, lines[0]))
    } else {
        let metadata = parse_metadata(lines.skip(1));
        match metadata.result {
            Err(e) => Err(e),
            Ok(m) => match glyph_list(metadata.rest, Seq::empty(), m.point_size, m.resolution).result {
                Err(e) => Err(e),
                Ok(glyphs) => Ok(FontView { metadata: m, glyphs }),
            },
        }
    }
}

impl BdfFont {
    /// Parses a BDF file.
    pub fn parse(input: &str) -> (r: Result<Self, ParserError>)
        ensures
            match r {
                Ok(font) => parse_font(tokenize(input@)) == Ok::<_, ParserErrorView>(font@),
                Err(e) => parse_font(tokenize(input@)) == Err::<FontView, _>(e@),
            },
    {
        let mut lines = Lines::new(input);
        let first_line = match lines.next() {
            Some(line) => line,
            None => {
                return Err(ParserError::new("empty input"));
            },
        };
        if !first_line.keyword.as_str().eq("STARTFONT") || !first_line.parameters.as_str().eq(
            "2.1",
        ) {
            return Err(ParserError::with_line("expected \"STARTFONT 2.1\"", &first_line));
        }
        let metadata = match Metadata::parse(&mut lines) {
            Ok(metadata) => metadata,
            Err(e) => {
                return Err(e);
            },
        };
        let glyphs = match Glyphs::parse(&mut lines, &metadata) {
            Ok(glyphs) => glyphs,
            Err(e) => {
                return Err(e);
            },
        };
        Ok(BdfFont { metadata, glyphs })
    }
}

} // verus!
