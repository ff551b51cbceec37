//! A font parses alike with and without its closing line `ENDFONT`.

use crate::font::parse_font;
use crate::geometry::Coord;
use crate::glyph::{
    bitmap_row, glyph_bitmap, glyph_field, glyph_header, glyph_list, glyph_start,
    lemma_parse_glyph_rest, parse_glyph, GlyphState, GlyphView,
};
use crate::metadata::{
    lemma_properties_block_rest, metadata_field, metadata_lines, metadata_start, parse_metadata,
    MetadataState,
};
use crate::line_endings::{
    lemma_line_end_found, lemma_line_end_is, lemma_skip_whitespace_back_is,
    lemma_skip_whitespace_is, lemma_word_end_is,
};
use crate::parser::{line_end, line_of, lines_from, tokenize, LineView};
use crate::text::is_whitespace;
use crate::properties::{properties_block, property_lines, property_value, PropertyValueView};
use vstd::prelude::*;

verus! {

/// The line that closes a font: the keyword `ENDFONT` without parameters.
pub open spec fn is_endfont(line: LineView) -> bool {
    line.keyword == "ENDFONT"@ && line.parameters.len() == 0
}

/// The keyword `ENDFONT` has seven characters and is none of the other
/// keywords that the parsers of metadata, properties and glyphs know.
proof fn lemma_endfont_keyword()
    ensures
        "ENDFONT"@.len() == 7,
        "ENDFONT"@ != "STARTFONT"@,
        "ENDFONT"@ != "FONT"@,
        "ENDFONT"@ != "FONTBOUNDINGBOX"@,
        "ENDFONT"@ != "SIZE"@,
        "ENDFONT"@ != "METRICSSET"@,
        "ENDFONT"@ != "STARTPROPERTIES"@,
        "ENDFONT"@ != "ENDPROPERTIES"@,
        "ENDFONT"@ != "CHARS"@,
        "ENDFONT"@ != "STARTCHAR"@,
        "ENDFONT"@ != "ENCODING"@,
        "ENDFONT"@ != "SWIDTH"@,
        "ENDFONT"@ != "DWIDTH"@,
        "ENDFONT"@ != "SWIDTH1"@,
        "ENDFONT"@ != "DWIDTH1"@,
        "ENDFONT"@ != "BBX"@,
        "ENDFONT"@ != "VVECTOR"@,
        "ENDFONT"@ != "BITMAP"@,
        "ENDFONT"@ != "ENDCHAR"@,
{
    reveal_strlit("ENDFONT");
    reveal_strlit("STARTFONT");
    reveal_strlit("FONT");
    reveal_strlit("FONTBOUNDINGBOX");
    reveal_strlit("SIZE");
    reveal_strlit("METRICSSET");
    reveal_strlit("STARTPROPERTIES");
    reveal_strlit("ENDPROPERTIES");
    reveal_strlit("CHARS");
    reveal_strlit("STARTCHAR");
    reveal_strlit("ENCODING");
    reveal_strlit("SWIDTH");
    reveal_strlit("DWIDTH");
    reveal_strlit("SWIDTH1");
    reveal_strlit("DWIDTH1");
    reveal_strlit("BBX");
    reveal_strlit("VVECTOR");
    reveal_strlit("BITMAP");
    reveal_strlit("ENDCHAR");
    assert("ENDFONT"@[0] == 'E');
    assert("SWIDTH1"@[0] == 'S');
    assert("DWIDTH1"@[0] == 'D');
    assert("VVECTOR"@[0] == 'V');
    assert("ENDFONT"@[3] == 'F');
    assert("ENDCHAR"@[3] == 'C');
}

/// The lines behind the first of some lines and a further line are the
/// lines behind the first and the further line.
proof fn lemma_push_skip(lines: Seq<LineView>, end: LineView)
    requires
        lines.len() > 0,
    ensures
        lines.push(end)[0] == lines[0],
        lines.push(end).skip(1) == lines.skip(1).push(end),
{
    assert(lines.push(end).skip(1) =~= lines.skip(1).push(end));
}

/// Properties that are read from lines with a closing line `ENDFONT` behind
/// them end before that line.
proof fn lemma_property_lines_endfont(
    lines: Seq<LineView>,
    end: LineView,
    found: Map<Seq<char>, PropertyValueView>,
)
    requires
        is_endfont(end),
        property_lines(lines.push(end), found).result.is_ok(),
    ensures
        property_lines(lines, found).result == property_lines(lines.push(end), found).result,
        property_lines(lines.push(end), found).rest == property_lines(lines, found).rest.push(
            end,
        ),
    decreases lines.len(),
{
    lemma_endfont_keyword();
    let longer = lines.push(end);
    if lines.len() == 0 {
        assert(longer[0] == end);
        assert(property_value(end.parameters).is_none());
    } else {
        lemma_push_skip(lines, end);
        if lines[0].keyword == "ENDPROPERTIES"@ {
        } else {
            match property_value(lines[0].parameters) {
                Some(value) => {
                    lemma_property_lines_endfont(
                        lines.skip(1),
                        end,
                        found.insert(lines[0].keyword, value),
                    );
                },
                None => {},
            }
        }
    }
}

/// A properties block with a closing line `ENDFONT` behind it ends before
/// that line.
proof fn lemma_properties_block_endfont(lines: Seq<LineView>, end: LineView)
    requires
        lines.len() > 0,
        is_endfont(end),
        properties_block(lines.push(end)).result.is_ok(),
    ensures
        properties_block(lines).result == properties_block(lines.push(end)).result,
        properties_block(lines.push(end)).rest == properties_block(lines).rest.push(end),
{
    lemma_push_skip(lines, end);
    lemma_property_lines_endfont(lines.skip(1), end, Map::empty());
}

/// Metadata with a closing line `ENDFONT` behind it ends before that line.
proof fn lemma_metadata_lines_endfont(lines: Seq<LineView>, end: LineView, state: MetadataState)
    requires
        is_endfont(end),
        metadata_lines(lines.push(end), state).result.is_ok(),
    ensures
        metadata_lines(lines, state).result == metadata_lines(lines.push(end), state).result,
        metadata_lines(lines.push(end), state).rest == metadata_lines(lines, state).rest.push(
            end,
        ),
    decreases lines.len(),
{
    lemma_endfont_keyword();
    let longer = lines.push(end);
    if lines.len() == 0 {
        assert(longer[0] == end);
        assert(metadata_field(state, end).is_err());
    } else {
        lemma_push_skip(lines, end);
        if lines[0].keyword == "STARTPROPERTIES"@ {
            lemma_properties_block_rest(lines);
            lemma_properties_block_rest(longer);
            let block = properties_block(longer);
            match block.result {
                Ok(properties) => {
                    lemma_properties_block_endfont(lines, end);
                    let next = MetadataState {
                        name: state.name,
                        bounding_box: state.bounding_box,
                        point_size: state.point_size,
                        resolution: state.resolution,
                        metrics_set: state.metrics_set,
                        properties: Some(properties),
                    };
                    lemma_metadata_lines_endfont(properties_block(lines).rest, end, next);
                },
                Err(_) => {},
            }
        } else if lines[0].keyword == "CHARS"@ || lines[0].keyword == "STARTCHAR"@ {
        } else {
            match metadata_field(state, lines[0]) {
                Ok(next) => {
                    lemma_metadata_lines_endfont(lines.skip(1), end, next);
                },
                Err(_) => {},
            }
        }
    }
}

/// The header of a glyph with a closing line `ENDFONT` behind it ends
/// before that line.
proof fn lemma_glyph_header_endfont(lines: Seq<LineView>, end: LineView, state: GlyphState)
    requires
        is_endfont(end),
        glyph_header(lines.push(end), state).result.is_ok(),
    ensures
        glyph_header(lines, state).result == glyph_header(lines.push(end), state).result,
        glyph_header(lines.push(end), state).rest == glyph_header(lines, state).rest.push(end),
    decreases lines.len(),
{
    lemma_endfont_keyword();
    let longer = lines.push(end);
    if lines.len() == 0 {
        assert(longer[0] == end);
        assert(glyph_field(state, end).is_err());
    } else {
        lemma_push_skip(lines, end);
        if lines[0].keyword == "BITMAP"@ {
        } else {
            match glyph_field(state, lines[0]) {
                Ok(next) => {
                    lemma_glyph_header_endfont(lines.skip(1), end, next);
                },
                Err(_) => {},
            }
        }
    }
}

/// The bitmap of a glyph with a closing line `ENDFONT` behind it ends
/// before that line.
proof fn lemma_glyph_bitmap_endfont(lines: Seq<LineView>, end: LineView, bitmap: Seq<u8>)
    requires
        is_endfont(end),
        glyph_bitmap(lines.push(end), bitmap).result.is_ok(),
    ensures
        glyph_bitmap(lines, bitmap).result == glyph_bitmap(lines.push(end), bitmap).result,
        glyph_bitmap(lines.push(end), bitmap).rest == glyph_bitmap(lines, bitmap).rest.push(end),
    decreases lines.len(),
{
    lemma_endfont_keyword();
    let longer = lines.push(end);
    if lines.len() == 0 {
        assert(longer[0] == end);
        assert(bitmap_row(end).is_none());
    } else {
        lemma_push_skip(lines, end);
        if lines[0].keyword == "ENDCHAR"@ {
        } else {
            match bitmap_row(lines[0]) {
                Some(bytes) => {
                    lemma_glyph_bitmap_endfont(lines.skip(1), end, bitmap + bytes);
                },
                None => {},
            }
        }
    }
}

/// A glyph with a closing line `ENDFONT` behind it ends before that line.
proof fn lemma_parse_glyph_endfont(
    lines: Seq<LineView>,
    end: LineView,
    point_size: i32,
    resolution: Coord,
)
    requires
        lines.len() > 0,
        is_endfont(end),
        parse_glyph(lines.push(end), point_size, resolution).result.is_ok(),
    ensures
        parse_glyph(lines, point_size, resolution).result == parse_glyph(
            lines.push(end),
            point_size,
            resolution,
        ).result,
        parse_glyph(lines.push(end), point_size, resolution).rest == parse_glyph(
            lines,
            point_size,
            resolution,
        ).rest.push(end),
{
    lemma_push_skip(lines, end);
    let header = glyph_header(lines.skip(1).push(end), glyph_start());
    if header.result.is_ok() {
        lemma_glyph_header_endfont(lines.skip(1), end, glyph_start());
        let before = glyph_header(lines.skip(1), glyph_start());
        let rows = glyph_bitmap(header.rest, Seq::empty());
        if rows.result.is_ok() {
            lemma_glyph_bitmap_endfont(before.rest, end, Seq::empty());
        }
    }
}

/// A list of glyphs is the same with and without a closing line `ENDFONT`
/// behind it.
proof fn lemma_glyph_list_endfont(
    lines: Seq<LineView>,
    end: LineView,
    glyphs: Seq<GlyphView>,
    point_size: i32,
    resolution: Coord,
)
    requires
        is_endfont(end),
        glyph_list(lines.push(end), glyphs, point_size, resolution).result.is_ok(),
    ensures
        glyph_list(lines, glyphs, point_size, resolution).result == glyph_list(
            lines.push(end),
            glyphs,
            point_size,
            resolution,
        ).result,
    decreases lines.len(),
{
    lemma_endfont_keyword();
    let longer = lines.push(end);
    if lines.len() == 0 {
        assert(longer[0] == end);
    } else {
        lemma_push_skip(lines, end);
        if lines[0].keyword == "CHARS"@ {
            lemma_glyph_list_endfont(lines.skip(1), end, glyphs, point_size, resolution);
        } else if lines[0].keyword == "STARTCHAR"@ {
            lemma_parse_glyph_rest(lines, point_size, resolution);
            lemma_parse_glyph_rest(longer, point_size, resolution);
            let glyph = parse_glyph(longer, point_size, resolution);
            match glyph.result {
                Ok(g) => {
                    lemma_parse_glyph_endfont(lines, end, point_size, resolution);
                    lemma_glyph_list_endfont(
                        parse_glyph(lines, point_size, resolution).rest,
                        end,
                        glyphs.push(g),
                        point_size,
                        resolution,
                    );
                },
                Err(_) => {},
            }
        } else {
        }
    }
}

/// A font that parses with the closing line `ENDFONT` at its end parses to
/// the same font without that line.
pub proof fn lemma_endfont_is_optional(lines: Seq<LineView>, end: LineView)
    requires
        is_endfont(end),
        parse_font(lines.push(end)).is_ok(),
    ensures
        parse_font(lines) == parse_font(lines.push(end)),
{
    lemma_endfont_keyword();
    let longer = lines.push(end);
    if lines.len() == 0 {
        assert(longer[0] == end);
    } else {
        lemma_push_skip(lines, end);
        let metadata = parse_metadata(longer.skip(1));
        match metadata.result {
            Ok(m) => {
                lemma_metadata_lines_endfont(lines.skip(1), end, metadata_start());
                lemma_glyph_list_endfont(
                    parse_metadata(lines.skip(1)).rest,
                    end,
                    Seq::empty(),
                    m.point_size,
                    m.resolution,
                );
            },
            Err(_) => {},
        }
    }
}

/// The number of the physical line that follows the text `s`, where the
/// physical line that starts at index `from` has the given number.
pub open spec fn following_line_number(s: Seq<char>, from: int, number: nat) -> nat
    decreases s.len() - from,
{
    if from < 0 || from >= s.len() {
        number + 1
    } else {
        let end = line_end(s, from);
        if from <= end < s.len() {
            following_line_number(s, end + 1, number + 1)
        } else {
            number + 1
        }
    }
}

/// The lines that a physical line holds, as a list.
pub open spec fn line_list(raw: Seq<char>, number: nat) -> Seq<LineView> {
    match line_of(raw, number) {
        Some(line) => seq![line],
        None => Seq::empty(),
    }
}

/// A text with a line feed and a further physical line at its end has the
/// lines of the text and the line that the further physical line holds.
pub proof fn lemma_lines_with_further_line(
    s: Seq<char>,
    further: Seq<char>,
    from: int,
    number: nat,
)
    requires
        0 <= from <= s.len(),
        forall|i: int| 0 <= i < further.len() ==> #[trigger] further[i] != '\n',
    ensures
        lines_from(s + seq!['\n'] + further, from, number) == lines_from(s, from, number)
            + line_list(further, following_line_number(s, from, number)),
    decreases s.len() - from,
{
    let longer = s + seq!['\n'] + further;
    let n = s.len() as int;
    assert(longer[n] == '\n');
    assert forall|i: int| n < i < longer.len() implies #[trigger] longer[i] != '\n' by {
        assert(longer[i] == further[i - n - 1]);
    }
    if from == n {
        lemma_line_end_is(longer, n, n);
        assert(longer.subrange(n, n) =~= Seq::<char>::empty());
        assert(line_of(Seq::<char>::empty(), number).is_none());
        if further.len() > 0 {
            lemma_line_end_is(longer, n + 1, longer.len() as int);
            assert(longer.subrange(n + 1, longer.len() as int) =~= further);
            assert(lines_from(longer, n + 1, number + 1) =~= line_list(further, number + 1));
        } else {
            assert(line_of(further, number + 1).is_none());
            assert(lines_from(longer, n + 1, number + 1) =~= Seq::<LineView>::empty());
        }
        assert(line_end(longer, n) == n);
        assert(line_of(longer.subrange(n, n), number).is_none());
        assert(lines_from(longer, n, number) == lines_from(longer, n + 1, number + 1));
        assert(lines_from(s, from, number) =~= Seq::<LineView>::empty());
        assert(lines_from(longer, from, number) =~= line_list(further, number + 1));
    } else {
        let end = line_end(s, from);
        lemma_line_end_found(s, from);
        assert forall|i: int| from <= i < end implies #[trigger] longer[i] != '\n' by {
            assert(longer[i] == s[i]);
        }
        if end < n {
            assert(longer[end] == s[end]);
        }
        lemma_line_end_is(longer, from, end);
        assert(longer.subrange(from, end) =~= s.subrange(from, end));
        if end < n {
            lemma_lines_with_further_line(s, further, end + 1, number + 1);
            let first = line_list(s.subrange(from, end), number);
            let rest = lines_from(s, end + 1, number + 1);
            let last = line_list(further, following_line_number(s, end + 1, number + 1));
            assert(first + (rest + last) =~= (first + rest) + last);
            assert(lines_from(s, from, number) =~= first + rest);
            assert(lines_from(longer, from, number) =~= first + (rest + last));
        } else {
            lemma_lines_with_further_line(s, further, n, number);
            let first = line_list(s.subrange(from, end), number);
            let last = line_list(further, number + 1);
            assert(lines_from(longer, n, number) =~= last);
            assert(lines_from(longer, n + 1, number + 1) =~= last) by {
                lemma_line_end_is(longer, n, n);
                assert(longer.subrange(n, n) =~= Seq::<char>::empty());
                assert(line_of(Seq::<char>::empty(), number).is_none());
            }
            assert(lines_from(s, from, number) =~= first);
            assert(lines_from(longer, from, number) =~= first + last);
        }
    }
}

/// The physical line `ENDFONT` holds the line that closes a font.
pub proof fn lemma_endfont_line(number: nat)
    ensures
        line_of("ENDFONT"@, number) matches Some(line) && is_endfont(line) && line.line_number
            == number,
        forall|i: int| 0 <= i < "ENDFONT"@.len() ==> #[trigger] "ENDFONT"@[i] != '\n',
{
    reveal_strlit("ENDFONT");
    reveal_strlit("COMMENT");
    let raw = "ENDFONT"@;
    assert(raw[0] == 'E' && raw[1] == 'N' && raw[2] == 'D' && raw[3] == 'F' && raw[4] == 'O'
        && raw[5] == 'N' && raw[6] == 'T');
    assert forall|i: int| 0 <= i < 7 implies !is_whitespace(#[trigger] raw[i]) by {}
    lemma_skip_whitespace_is(raw, 0, 7, 0);
    lemma_skip_whitespace_back_is(raw, 0, 7, 7);
    lemma_word_end_is(raw, 0, 7, 7);
    lemma_skip_whitespace_is(raw, 7, 7, 7);
    assert(raw.subrange(0, 7) =~= raw);
    assert(raw.subrange(7, 7) =~= Seq::<char>::empty());
    assert("COMMENT"@[0] == 'C');
    assert(raw != "COMMENT"@);
}

/// A text that parses with a line `ENDFONT` at its end parses to the same
/// font without that line.
pub proof fn lemma_endfont_text_is_optional(text: Seq<char>)
    requires
        parse_font(tokenize(text + seq!['\n'] + "ENDFONT"@)).is_ok(),
    ensures
        parse_font(tokenize(text)) == parse_font(tokenize(text + seq!['\n'] + "ENDFONT"@)),
{
    let number = following_line_number(text, 0, 1);
    lemma_endfont_line(number);
    lemma_lines_with_further_line(text, "ENDFONT"@, 0, 1);
    match line_of("ENDFONT"@, number) {
        Some(line) => {
            assert(tokenize(text + seq!['\n'] + "ENDFONT"@) =~= tokenize(text).push(line));
            lemma_endfont_is_optional(tokenize(text), line);
        },
        None => {},
    }
}

} // verus!
