use bdf_font::bitbuf::bits_to_bytes;
use bdf_font::converter::{is_valid_identifier, BdfSource};
use bdf_font::mapping::{
    chars_to_mapping, expand_str_mapping, glyphs_to_mapping, glyphs_to_str_mapping, is_mapping,
    sort_chars,
};
use bdf_font::{
    bounding_box_to_rectangle, BoundingBox, ConvertError, Coord, Encoding, FontConverter, Glyph,
    GlyphRange, GlyphWidth, Mapping, Point, Rectangle, Size, Visibility,
};
use embedded_graphics::mono_font::mapping::Mapping as Preset;
use std::collections::BTreeSet;

const FONT: &str = r#"
        STARTFONT 2.1
        FONT -gbdfed-Unknown-Medium-R-Normal--16-120-96-96-P-100-FontSpecific-0
        SIZE 8 96 96
        FONTBOUNDINGBOX 8 8 0 0
        STARTPROPERTIES 9
        POINT_SIZE 120
        PIXEL_SIZE 8
        RESOLUTION_X 96
        RESOLUTION_Y 96
        FONT_ASCENT 8
        FONT_DESCENT 0
        AVERAGE_WIDTH 100
        SPACING "C"
        _GBDFED_INFO "Edited with gbdfed 1.6."
        ENDPROPERTIES
        CHARS 1
        STARTCHAR A
        ENCODING 65
        SWIDTH 750 0
        DWIDTH 8 0
        BBX 8 8 0 0
        BITMAP
        FF
        81
        81
        81
        81
        81
        81
        FF
        ENDCHAR
        ENDFONT
    "#;

const THREE: &str = "STARTFONT 2.1\nFONT three\nSIZE 8 96 96\nFONTBOUNDINGBOX 4 4 0 -1\nSTARTPROPERTIES 2\nFONT_ASCENT 3\nFONT_DESCENT 2\nENDPROPERTIES\nCHARS 3\nSTARTCHAR b\nENCODING 98\nDWIDTH 4 0\nBBX 3 2 0 0\nBITMAP\nA0\n40\nENDCHAR\nSTARTCHAR a\nENCODING 97\nDWIDTH 5 0\nBBX 2 3 1 -1\nBITMAP\n80\n40\nC0\nENDCHAR\nSTARTCHAR question\nENCODING 63\nDWIDTH 4 0\nBBX 1 1 0 0\nBITMAP\n80\nENDCHAR\nENDFONT\n";

#[test]
fn with_string() {
    FontConverter::with_string(FONT, "TEST")
        .glyphs('A'..='A')
        .convert()
        .unwrap();
}

#[test]
fn add_glyphs() {
    let converter = FontConverter::with_string(FONT, "TEST")
        .glyphs('E')
        .glyphs('A'..='C')
        .glyphs('Y'..'Z')
        .glyphs("HG")
        .glyphs(&['W', 'V'] as &[_]);

    assert!(converter
        .selected_glyphs()
        .iter()
        .eq(['A', 'B', 'C', 'E', 'G', 'H', 'V', 'W', 'Y'].iter()));
}

#[test]
fn add_glyphs_twice() {
    let converter = FontConverter::with_string(FONT, "TEST")
        .glyphs("cab")
        .glyphs('b'..='d')
        .glyphs('a');
    assert_eq!(converter.selected_glyphs(), &vec!['a', 'b', 'c', 'd']);
}

#[test]
fn add_glyphs_of_a_mapping() {
    let converter = FontConverter::with_string(FONT, "TEST").glyphs(Mapping::Ascii);
    let expected: Vec<char> = (' '..='\x7f').collect();
    assert_eq!(converter.selected_glyphs(), &expected);
    let converter = FontConverter::with_string(FONT, "TEST").glyphs(Mapping::Iso8859_15);
    let mut expected: Vec<char> = embedded_graphics::mono_font::mapping::ISO_8859_15
        .chars()
        .collect();
    expected.sort();
    assert_eq!(converter.selected_glyphs(), &expected);
    assert!(expected.contains(&'\u{20ac}'));
}

#[test]
fn glyph_ranges() {
    assert_eq!('x'.glyphs(), vec!['x']);
    assert_eq!(('a'..'d').glyphs(), vec!['a', 'b', 'c']);
    assert_eq!(('a'..='d').glyphs(), vec!['a', 'b', 'c', 'd']);
    assert_eq!(('d'..'a').glyphs(), Vec::<char>::new());
    assert_eq!(('d'..='a').glyphs(), Vec::<char>::new());
    assert_eq!(('a'..'a').glyphs(), Vec::<char>::new());
    assert_eq!(('a'..='a').glyphs(), vec!['a']);
    assert_eq!("h\u{e9}llo".glyphs(), vec!['h', '\u{e9}', 'l', 'l', 'o']);
    assert_eq!((&['z', 'a'][..]).glyphs(), vec!['z', 'a']);
    // the surrogates are no characters
    assert_eq!(
        ('\u{d7fe}'..='\u{e001}').glyphs(),
        vec!['\u{d7fe}', '\u{d7ff}', '\u{e000}', '\u{e001}']
    );
    assert_eq!(('\u{10fffe}'..='\u{10ffff}').glyphs(), vec!['\u{10fffe}', '\u{10ffff}']);
    assert_eq!(
        ('\u{0}'..='\u{10ffff}').glyphs().len(),
        ('\u{0}'..='\u{10ffff}').count()
    );
    let mut exhausted = 'a'..='b';
    exhausted.next();
    exhausted.next();
    assert_eq!(exhausted.glyphs(), Vec::<char>::new());
}

#[test]
fn no_glyph_ranges() {
    let converter = FontConverter::with_string(FONT, "TEST");
    let font = converter.convert().unwrap();
    assert_eq!(font.glyphs.len(), 1);
    assert_eq!(font.glyphs[0].name, "A");
    assert_eq!(font.glyphs[0].encoding, Encoding::Standard(65));
}

#[test]
fn converted_font() {
    let font = FontConverter::with_string(THREE, "Three_1")
        .comment("first")
        .comment("second")
        .data_file_extension("bin")
        .data_file_path("fonts")
        .embedded_graphics_crate_path("::embedded_graphics")
        .constant_visibility(Visibility::PubCrate)
        .convert()
        .unwrap();
    assert_eq!(font.name, "Three_1");
    assert_eq!(font.file_stem, "three_1");
    assert_eq!(font.comments, vec!["first", "second"]);
    assert_eq!(font.data_file_extension, "bin");
    assert_eq!(font.data_file_path, Some("fonts".to_string()));
    assert_eq!(font.embedded_graphics_crate_path, "::embedded_graphics");
    assert_eq!(font.constant_visibility, Visibility::PubCrate);
    assert_eq!(font.ascent, 3);
    assert_eq!(font.descent, 2);
    assert_eq!(font.underline_position, 4);
    assert_eq!(font.underline_thickness, 1);
    assert_eq!(font.strikethrough_position, 2);
    assert_eq!(font.strikethrough_thickness, 1);
    assert_eq!(
        font.glyphs.iter().map(|g| g.name.as_str()).collect::<Vec<_>>(),
        ["b", "a", "question"]
    );
    // the question mark
    assert_eq!(font.replacement_character, 2);
    assert_eq!(font.glyph_index('a'), Some(1));
    assert_eq!(font.glyph_index('c'), None);
    assert_eq!(font.index('a'), 1);
    assert_eq!(font.index('c'), 0);
    assert_eq!(font.bdf.glyphs.len(), 3);
}

#[test]
fn default_options() {
    let font = FontConverter::with_string(THREE, "F").convert().unwrap();
    assert_eq!(font.file_stem, "f");
    assert_eq!(font.comments, Vec::<String>::new());
    assert_eq!(font.data_file_extension, "data");
    assert_eq!(font.data_file_path, None);
    assert_eq!(font.embedded_graphics_crate_path, "embedded_graphics");
    assert_eq!(font.constant_visibility, Visibility::Pub);
}

#[test]
fn selected_glyphs_are_sorted() {
    let font = FontConverter::with_string(THREE, "F")
        .glyphs("ba")
        .convert()
        .unwrap();
    assert_eq!(
        font.glyphs.iter().map(|g| g.name.as_str()).collect::<Vec<_>>(),
        ["a", "b"]
    );
    // no replacement character, no question mark: the first glyph
    assert_eq!(font.replacement_character, 0);
}

#[test]
fn missing_glyph() {
    let error = FontConverter::with_string(THREE, "F")
        .glyphs("abc")
        .convert()
        .unwrap_err();
    assert_eq!(error, ConvertError::MissingGlyph('c'));
}

#[test]
fn missing_glyph_is_substituted() {
    let font = FontConverter::with_string(THREE, "F")
        .glyphs("abc")
        .missing_glyph_substitute('?')
        .convert()
        .unwrap();
    assert_eq!(font.glyphs.len(), 3);
    assert_eq!(font.glyphs[2].name, "question");
    assert_eq!(font.glyphs[2].encoding, Encoding::Standard('c' as u32));
    assert_eq!(font.glyphs[2].bitmap, vec![0x80]);
    assert_eq!(font.glyphs[0].encoding, Encoding::Standard('a' as u32));
    assert_eq!(font.glyph_index('c'), Some(2));
    assert_eq!(font.glyph_index('?'), None);
}

#[test]
fn missing_substitute() {
    let error = FontConverter::with_string(THREE, "F")
        .glyphs("abc")
        .missing_glyph_substitute('!')
        .convert()
        .unwrap_err();
    assert_eq!(error, ConvertError::MissingGlyph('!'));
}

#[test]
fn replacement_characters() {
    let font = FontConverter::with_string(THREE, "F")
        .replacement_character('a')
        .convert()
        .unwrap();
    assert_eq!(font.replacement_character, 1);
    let error = FontConverter::with_string(THREE, "F")
        .glyphs("ab")
        .replacement_character('?')
        .convert()
        .unwrap_err();
    assert_eq!(error, ConvertError::MissingReplacement('?'));
    let font = FontConverter::with_string(THREE, "F")
        .glyphs("ab?\u{fffd}")
        .missing_glyph_substitute('a')
        .convert()
        .unwrap();
    // '?', 'a', 'b', U+FFFD
    assert_eq!(font.replacement_character, 3);
}

#[test]
fn metrics_default_to_zero() {
    let text = THREE
        .replace("FONT_ASCENT 3", "FONT_ASCENT -3")
        .replace("FONT_DESCENT 2", "FONT_DESCENT \"2\"");
    let font = FontConverter::with_string(&text, "F").convert().unwrap();
    assert_eq!(font.ascent, 0);
    assert_eq!(font.descent, 0);
    assert_eq!(font.underline_position, 1);
    assert_eq!(font.strikethrough_position, 0);
    let text = THREE.replace("FONT_ASCENT 3", "ASCENT 3");
    let font = FontConverter::with_string(&text, "F").convert().unwrap();
    assert_eq!(font.ascent, 0);
    assert_eq!(font.descent, 2);
    assert_eq!(font.strikethrough_position, 1);
    let text = THREE
        .replace("FONT_ASCENT 3", "FONT_ASCENT 2147483647")
        .replace("FONT_DESCENT 2", "FONT_DESCENT 2147483647");
    let font = FontConverter::with_string(&text, "F").convert().unwrap();
    assert_eq!(font.underline_position, 2147483648);
    assert_eq!(font.strikethrough_position, 2147483647);
}

#[test]
fn invalid_names() {
    for name in ["", "1", "_A", "A-B", "A B", "\u{c4}", "A\u{e4}"] {
        assert!(!is_valid_identifier(name), "{name:?}");
        assert_eq!(
            FontConverter::with_string(THREE, name).convert().unwrap_err(),
            ConvertError::InvalidName(name.to_string())
        );
    }
    for name in ["A", "a", "z9", "FONT_6X10", "a_", "Z__1"] {
        assert!(is_valid_identifier(name), "{name:?}");
    }
}

#[test]
fn unparsable_font() {
    let error = FontConverter::with_string("STARTFONT 2.1\nFONT f\nFOO", "F")
        .convert()
        .unwrap_err();
    match error {
        ConvertError::Parse(e) => {
            assert_eq!(e.message, "unknown keyword in metadata: \"FOO\"");
            assert_eq!(e.line_number, Some(3));
        }
        other => panic!("{other:?}"),
    }
}

#[test]
fn file_has_to_be_read() {
    let converter = FontConverter::with_file("fonts/6x10.bdf", "F").glyphs('a');
    assert_eq!(converter.bdf_file(), Some(&"fonts/6x10.bdf".to_string()));
    assert_eq!(
        converter.convert().unwrap_err(),
        ConvertError::UnreadFile("fonts/6x10.bdf".to_string())
    );
    let converter = converter.with_text(THREE);
    assert_eq!(converter.bdf_file(), None);
    assert_eq!(converter.convert().unwrap().glyphs[0].name, "a");
    let converter = FontConverter::new(BdfSource::Text(THREE.to_string()), "F");
    assert_eq!(converter.convert().unwrap().glyphs.len(), 3);
}

#[test]
fn visibility_to_rust() {
    assert_eq!(Visibility::Private.to_rust(), "");
    assert_eq!(Visibility::Pub.to_rust(), "pub");
    assert_eq!(Visibility::PubCrate.to_rust(), "pub(crate)");
    assert_eq!(Visibility::PubSelf.to_rust(), "pub(self)");
    assert_eq!(Visibility::PubSuper.to_rust(), "pub(super)");
    assert_eq!(
        Visibility::PubIn("crate::fonts".to_string()).to_rust(),
        "pub(in crate::fonts)"
    );
    assert_eq!(
        Visibility::PubIn("a".to_string()).clone(),
        Visibility::PubIn("a".to_string())
    );
}

#[test]
fn test_glyphs_to_str_mapping() {
    let mut glyphs = BTreeSet::new();
    let mapping = |glyphs: &BTreeSet<char>| {
        glyphs_to_str_mapping(&glyphs.iter().copied().collect::<Vec<_>>())
    };
    assert_eq!(mapping(&glyphs), "");

    glyphs.insert('a');
    assert_eq!(mapping(&glyphs), "a");

    glyphs.insert('b');
    assert_eq!(mapping(&glyphs), "ab");

    glyphs.insert('c');
    assert_eq!(mapping(&glyphs), "\0ac");

    glyphs.insert('d');
    assert_eq!(mapping(&glyphs), "\0ad");

    glyphs.insert('x');
    assert_eq!(mapping(&glyphs), "\0adx");

    glyphs.insert('y');
    assert_eq!(mapping(&glyphs), "\0adxy");

    glyphs.insert('z');
    assert_eq!(mapping(&glyphs), "\0ad\0xz");
}

#[test]
fn str_mapping_is_read_back() {
    for chars in [
        "",
        "a",
        "ab",
        "abc",
        "acegi",
        "abdefhijklz",
        " !\"#0123456789?ABCXYZ\u{a0}\u{a1}\u{a2}\u{ff}\u{100}\u{20ac}",
        "\u{d7fe}\u{d7ff}\u{e000}\u{e001}\u{e002}",
        "ba",
        "cba",
        "aab",
    ] {
        let chars: Vec<char> = chars.chars().collect();
        let mapping = glyphs_to_str_mapping(&chars);
        let read = embedded_graphics::mono_font::mapping::StrGlyphMapping::new(&mapping, 0)
            .chars()
            .collect::<Vec<_>>();
        assert_eq!(read, chars, "{mapping:?}");
    }
}

fn standard_glyphs(chars: impl Iterator<Item = char>) -> Vec<Glyph> {
    chars
        .map(|c| Glyph {
            encoding: Encoding::Standard(c as u32),
            ..Glyph::default()
        })
        .collect::<Vec<_>>()
}

#[test]
fn test_glyphs_to_mapping() {
    let glyphs = standard_glyphs(' '..='\x7F');
    assert_eq!(glyphs_to_mapping(&glyphs), Some(Mapping::Ascii));

    let glyphs = standard_glyphs((' '..='\x7F').chain(0xA0 as char..=0xFF as char));
    assert_eq!(glyphs_to_mapping(&glyphs), Some(Mapping::Iso8859_1));
}

#[test]
fn mappings_are_those_of_embedded_graphics() {
    let ours = Mapping::all();
    let theirs: Vec<Preset> = Preset::iter().collect();
    assert_eq!(ours.len(), theirs.len());
    for (mapping, preset) in ours.iter().zip(theirs.iter()) {
        assert_eq!(format!("{mapping:?}"), format!("{preset:?}"));
        let chars: Vec<char> = preset.glyph_mapping().chars().collect();
        assert_eq!(mapping.glyphs(), chars);
        let mut sorted = chars.clone();
        sorted.sort();
        assert_eq!(chars_to_mapping(&sorted), Some(*mapping));
        assert_eq!(glyphs_to_mapping(&standard_glyphs(sorted.iter().copied())), Some(*mapping));
        assert!(is_mapping(&sorted, &chars));
        assert_eq!(sort_chars(&chars), sorted);
        if mapping != &Mapping::Ascii && mapping != &Mapping::Iso8859_1 && mapping != &Mapping::JisX0201 {
            // not in the order of the code points
            assert_eq!(chars_to_mapping(&chars), None);
            assert!(!is_mapping(&chars, &chars));
        }
    }
}

#[test]
fn no_mapping() {
    assert_eq!(chars_to_mapping(&Vec::new()), None);
    assert_eq!(chars_to_mapping(&('a'..='z').collect()), None);
    assert_eq!(chars_to_mapping(&(' '..='\x7e').collect()), None);
    assert_eq!(chars_to_mapping(&(' '..='\u{80}').collect()), None);
    let mut twice: Vec<char> = (' '..='\x7f').collect();
    twice.insert(1, ' ');
    assert_eq!(chars_to_mapping(&twice), None);
    assert_eq!(sort_chars(&vec!['c', 'a', 'b', 'a']), vec!['a', 'a', 'b', 'c']);
    assert!(is_mapping(&vec!['a', 'a', 'b'], &vec!['a', 'b', 'a']));
    assert!(!is_mapping(&vec!['a', 'b'], &vec!['a', 'b', 'a']));
    assert!(!is_mapping(&vec!['a', 'b', 'b'], &vec!['a', 'b', 'a']));
}

#[test]
fn test_bits_to_bytes() {
    let f = false;
    let t = true;

    assert_eq!(bits_to_bytes(&[f, f, f, f, f, f, f, f]), vec![0x00]);
    assert_eq!(bits_to_bytes(&[t, f, f, f, f, f, f, f]), vec![0x80]);
    assert_eq!(bits_to_bytes(&[t, f, f, f, f, f, f, t]), vec![0x81]);
}

#[test]
fn test_bits_to_bytes_incomplete_byte() {
    let f = false;
    let t = true;

    assert_eq!(
        bits_to_bytes(&[f, f, f, f, f, f, f, f, t]),
        vec![0x00, 0x80]
    );
}

#[test]
fn bits_to_bytes_of_nothing() {
    assert_eq!(bits_to_bytes(&[]), Vec::<u8>::new());
    assert_eq!(bits_to_bytes(&[false, true, true]), vec![0x60]);
}

#[test]
fn rectangles() {
    let bb = BoundingBox {
        offset: Coord::new(1, -2),
        size: Coord::new(6, 10),
    };
    assert_eq!(
        bounding_box_to_rectangle(&bb),
        Rectangle {
            top_left: Point { x: 1, y: -7 },
            size: Size {
                width: 6,
                height: 10
            }
        }
    );
    assert!(bdf_font::eg_bdf_font::fits_rectangle(&bb));
    let zero = BoundingBox::default();
    assert_eq!(
        bounding_box_to_rectangle(&zero),
        Rectangle {
            top_left: Point { x: 0, y: 1 },
            size: Size {
                width: 0,
                height: 0
            }
        }
    );
    for (offset_y, size_x, size_y) in [(0, -1, 1), (0, 1, -1), (i32::MIN, 1, 1), (i32::MIN + 1, 1, 0)] {
        assert!(!bdf_font::eg_bdf_font::fits_rectangle(&BoundingBox {
            offset: Coord::new(0, offset_y),
            size: Coord::new(size_x, size_y),
        }));
    }
    assert!(bdf_font::eg_bdf_font::fits_rectangle(&BoundingBox {
        offset: Coord::new(0, i32::MIN + 1),
        size: Coord::new(1, 1),
    }));
}

#[test]
fn eg_bdf_output() {
    let output = FontConverter::with_string(THREE, "F")
        .convert_eg_bdf()
        .unwrap();
    assert_eq!(
        output.bounding_box(),
        Rectangle {
            top_left: Point { x: 0, y: -2 },
            size: Size {
                width: 4,
                height: 4
            }
        }
    );
    let glyphs = output.glyphs();
    assert_eq!(glyphs.len(), 3);
    assert_eq!(glyphs[0].character, 'b');
    assert_eq!(glyphs[0].device_width, 4);
    assert_eq!(glyphs[0].start_index, 0);
    assert_eq!(
        glyphs[0].bounding_box,
        Rectangle {
            top_left: Point { x: 0, y: -1 },
            size: Size {
                width: 3,
                height: 2
            }
        }
    );
    assert_eq!(glyphs[1].character, 'a');
    assert_eq!(glyphs[1].device_width, 5);
    assert_eq!(glyphs[1].start_index, 6);
    assert_eq!(
        glyphs[1].bounding_box,
        Rectangle {
            top_left: Point { x: 1, y: -1 },
            size: Size {
                width: 2,
                height: 3
            }
        }
    );
    assert_eq!(glyphs[2].character, '?');
    assert_eq!(glyphs[2].start_index, 12);
    assert_eq!(output.bit_len(), 13);
    // b: 101 010, a: 10 01 11, ?: 1
    assert_eq!(output.data(), &[0b1010_1010, 0b0111_1000]);
    assert_eq!(output.font().glyphs.len(), 3);
}

#[test]
fn eg_bdf_output_passes_over_glyphs_without_a_character() {
    let text = THREE.replace("ENCODING 97", "ENCODING -1 97");
    let output = FontConverter::with_string(&text, "F")
        .convert_eg_bdf()
        .unwrap();
    let glyphs = output.glyphs();
    assert_eq!(glyphs.len(), 2);
    assert_eq!(glyphs[1].character, '?');
    assert_eq!(glyphs[1].start_index, 6);
    assert_eq!(output.data(), &[0b1010_1010]);
}

#[test]
fn eg_bdf_output_errors() {
    let convert = |text: &str| FontConverter::with_string(text, "F").convert_eg_bdf();
    assert_eq!(
        convert(&THREE.replace("ENCODING 97", "ENCODING 55296")).unwrap_err(),
        ConvertError::InvalidCodePoint(0xd800)
    );
    assert_eq!(
        convert(&THREE.replace("DWIDTH 5 0", "DWIDTH -5 0")).unwrap_err(),
        ConvertError::InvalidWidth('a')
    );
    assert_eq!(
        convert(&THREE.replace("DWIDTH 5 0", "DWIDTH1 5 0")).unwrap_err(),
        ConvertError::InvalidWidth('a')
    );
    assert_eq!(
        convert(&THREE.replace("BBX 2 3 1 -1", "BBX 2 4 1 -1")).unwrap_err(),
        ConvertError::IncompleteBitmap('a')
    );
    assert_eq!(
        convert(&THREE.replace("BBX 2 3 1 -1", "BBX 2 -3 1 -1")).unwrap_err(),
        ConvertError::InvalidBoundingBox(Some('a'))
    );
    assert_eq!(
        convert(&THREE.replace("BBX 2 3 1 -1", "BBX 2 1 1 -2147483648")).unwrap_err(),
        ConvertError::InvalidBoundingBox(Some('a'))
    );
    assert_eq!(
        convert(&THREE.replace("FONTBOUNDINGBOX 4 4 0 -1", "FONTBOUNDINGBOX -4 4 0 -1")).unwrap_err(),
        ConvertError::InvalidBoundingBox(None)
    );
    assert_eq!(
        convert(&THREE.replace("ENCODING 97", "ENCODING 97 1")).map(|_| ()).unwrap_err(),
        match FontConverter::with_string(&THREE.replace("ENCODING 97", "ENCODING 97 1"), "F")
            .convert()
            .unwrap_err()
        {
            e @ ConvertError::Parse(_) => e,
            other => panic!("{other:?}"),
        }
    );
}

fn image_rows(data: &[u8], width: u32) -> Vec<String> {
    let bytes_per_row = (width as usize + 7) / 8;
    if bytes_per_row == 0 {
        return Vec::new();
    }
    data.chunks(bytes_per_row)
        .map(|row| {
            (0..width as usize)
                .map(|x| if row[x / 8] & (0x80 >> (x % 8)) != 0 { '#' } else { '.' })
                .collect::<String>()
        })
        .collect()
}

#[test]
fn mono_font_output() {
    let output = FontConverter::with_string(THREE, "F")
        .convert_mono_font()
        .unwrap();
    // the boxes are 3x2 at (0, 0), 2x3 at (1, -1) and 1x1 at (0, 0): all of
    // them lie in the box 3x3 at (0, -1)
    assert_eq!(
        output.character_size(),
        Size {
            width: 3,
            height: 3
        }
    );
    assert_eq!(output.image_width(), 48);
    assert_eq!(output.image_height(), 3);
    assert_eq!(output.mapping(), None);
    assert_eq!(output.character_spacing(), 0);
    assert_eq!(output.baseline(), 2);
    assert_eq!(output.underline().offset, 4);
    assert_eq!(output.underline().height, 1);
    assert_eq!(output.strikethrough().offset, 2);
    assert_eq!(output.strikethrough().height, 1);
    assert_eq!(output.data().len(), 18);
    let rows = image_rows(output.data(), output.image_width());
    let blank = ".".repeat(39);
    assert_eq!(
        rows,
        [
            format!("#.#.#.{}{}", "...", blank),
            format!(".#...#{}{}", "#..", blank),
            format!("....##{}{}", "...", blank),
        ]
    );
    assert_eq!(output.bdf().glyphs.len(), 3);
    assert_eq!(output.font().replacement_character, 2);
    assert_eq!(output.glyphs().len(), 3);
}

#[test]
fn mono_font_output_with_more_than_one_row() {
    let mut text = String::from("STARTFONT 2.1\nFONT f\nSIZE 8 96 96\nFONTBOUNDINGBOX 2 1 0 0\n");
    for i in 0..18 {
        text.push_str(&format!(
            "STARTCHAR c{i}\nENCODING {}\nDWIDTH 2 0\nBBX 2 1 0 0\nBITMAP\n{}\nENDCHAR\n",
            0x100 + i * 2,
            if i % 2 == 0 { "80" } else { "40" }
        ));
    }
    let output = FontConverter::with_string(&text, "F")
        .convert_mono_font()
        .unwrap();
    assert_eq!(output.image_width(), 32);
    assert_eq!(output.image_height(), 2);
    assert_eq!(
        image_rows(output.data(), 32),
        ["#..##..##..##..##..##..##..##..#", "#..#............................"]
    );
    assert_eq!(output.baseline(), 0);
}

#[test]
fn mono_font_output_in_the_order_of_the_mapping() {
    let mut text = String::from("STARTFONT 2.1\nFONT f\nSIZE 8 96 96\nFONTBOUNDINGBOX 8 1 0 0\n");
    for c in embedded_graphics::mono_font::mapping::ISO_8859_2.chars() {
        text.push_str(&format!(
            "STARTCHAR c\nENCODING {}\nDWIDTH 8 0\nBBX 8 1 0 0\nBITMAP\n{:02x}\nENDCHAR\n",
            c as u32,
            (c as u32 % 251) as u8,
        ));
    }
    let output = FontConverter::with_string(&text, "F")
        .glyphs(Mapping::Iso8859_2)
        .convert_mono_font()
        .unwrap();
    assert_eq!(output.mapping(), Some(Mapping::Iso8859_2));
    assert_eq!(output.image_width(), 128);
    assert_eq!(output.image_height(), 12);
    let expected: Vec<u8> = embedded_graphics::mono_font::mapping::ISO_8859_2
        .chars()
        .map(|c| (c as u32 % 251) as u8)
        .collect();
    assert_eq!(output.data(), &expected[..]);
    // the converted font is in the order of the code points
    let font = output.font();
    assert!(font
        .glyphs
        .windows(2)
        .all(|pair| pair[0].encoding < pair[1].encoding));
    assert_ne!(
        output.glyphs().iter().map(|g| g.encoding).collect::<Vec<_>>(),
        font.glyphs.iter().map(|g| g.encoding).collect::<Vec<_>>()
    );
}

#[test]
fn mono_font_output_errors() {
    let text = THREE.replace("ENCODING 97", "ENCODING -1 97");
    assert_eq!(
        FontConverter::with_string(&text, "F")
            .convert_mono_font()
            .unwrap_err(),
        ConvertError::InvalidEncoding
    );
    let text = THREE
        .replace("BBX 3 2 0 0", "BBX 3 2 -2147483648 0")
        .replace("BBX 2 3 1 -1", "BBX 2 3 2147483000 -1");
    assert_eq!(
        FontConverter::with_string(&text, "F")
            .convert_mono_font()
            .unwrap_err(),
        ConvertError::InvalidBoundingBox(None)
    );
    let text = THREE.replace("BBX 3 2 0 0", "BBX 3 2 -268435456 0");
    assert_eq!(
        FontConverter::with_string(&text, "F")
            .convert_mono_font()
            .unwrap_err(),
        ConvertError::TooLarge
    );
}

#[test]
fn glyph_widths_are_kept() {
    let font = FontConverter::with_string(THREE, "F").convert().unwrap();
    assert_eq!(
        font.glyphs[1].width_horizontal,
        Some(GlyphWidth {
            scalable: Coord::new(5 * 72000 / 8 / 96, 0),
            device: Coord::new(5, 0)
        })
    );
}

#[test]
fn mappings_are_expanded() {
    assert_eq!(expand_str_mapping(""), Vec::<char>::new());
    assert_eq!(expand_str_mapping("abc"), vec!['a', 'b', 'c']);
    assert_eq!(expand_str_mapping("\0ad"), vec!['a', 'b', 'c', 'd']);
    assert_eq!(
        expand_str_mapping("a\0bde\0xz!"),
        vec!['a', 'b', 'c', 'd', 'e', 'x', 'y', 'z', '!']
    );
    // a range whose bounds are out of order holds nothing
    assert_eq!(expand_str_mapping("a\0dbc"), vec!['a', 'c']);
    // a range that lacks a bound ends the string
    assert_eq!(expand_str_mapping("ab\0c"), vec!['a', 'b']);
    assert_eq!(expand_str_mapping("ab\0"), vec!['a', 'b']);
    // the surrogates are passed over
    assert_eq!(
        expand_str_mapping("\0\u{d7ff}\u{e000}"),
        vec!['\u{d7ff}', '\u{e000}']
    );
    assert_eq!(expand_str_mapping("\0\u{10fffe}\u{10ffff}").len(), 2);
    for mapping in [
        "",
        "a\0bde",
        "\0a",
        "\0\0\0",
        "\0\0\u{1}",
        "x\0zay",
        "\0\u{20}\u{7f}\u{a0}\u{104}\u{2d8}\0\u{a3}\u{a5}",
    ] {
        let expected: Vec<char> = embedded_graphics::mono_font::mapping::StrGlyphMapping::new(mapping, 0)
            .chars()
            .collect();
        assert_eq!(expand_str_mapping(mapping), expected, "{mapping:?}");
    }
    for chars in ["", "a", "ab", "abc", "abcxyz", "acegi", "zyx", "aab"] {
        let chars: Vec<char> = chars.chars().collect();
        assert_eq!(expand_str_mapping(&glyphs_to_str_mapping(&chars)), chars);
    }
    // a NUL among the characters is not read back
    assert_eq!(glyphs_to_str_mapping(&['\0', 'b']), "\0b");
    assert_eq!(expand_str_mapping("\0b"), Vec::<char>::new());
}
