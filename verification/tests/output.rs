use bdf_font::bitbuf::read_bit;
use bdf_font::eg_bdf::{Baseline, BdfFont as PackedFont};
use bdf_font::suite::{count_errors, parse_font_file, parse_fonts, summary, FontPath};
use bdf_font::{
    BdfGlyph, BoundingBox, Coord, FontConverter, Line, ParserError, Point, Rectangle, Size,
};

const THREE: &str = "STARTFONT 2.1\nFONT three\nSIZE 8 96 96\nFONTBOUNDINGBOX 4 4 0 -1\nSTARTPROPERTIES 2\nFONT_ASCENT 3\nFONT_DESCENT 2\nENDPROPERTIES\nCHARS 3\nSTARTCHAR b\nENCODING 98\nDWIDTH 4 0\nBBX 3 2 0 0\nBITMAP\nA0\n40\nENDCHAR\nSTARTCHAR a\nENCODING 97\nDWIDTH 5 0\nBBX 2 3 1 -1\nBITMAP\n80\n40\nC0\nENDCHAR\nSTARTCHAR question\nENCODING 63\nDWIDTH 4 0\nBBX 1 1 0 0\nBITMAP\n80\nENDCHAR\nENDFONT\n";

#[test]
fn packed_font_is_read_back() {
    let converted = FontConverter::with_string(THREE, "F").convert().unwrap();
    let output = FontConverter::with_string(THREE, "F")
        .convert_eg_bdf()
        .unwrap();
    let font = output.as_font();
    assert_eq!(font.replacement_character, 2);
    assert_eq!(font.ascent, 3);
    assert_eq!(font.descent, 2);
    assert_eq!(font.glyphs.len(), 3);
    assert_eq!(font.data, output.data());
    for (glyph, source) in font.glyphs.iter().zip(converted.glyphs.iter()) {
        assert_eq!(glyph.bounding_box.size.width as i32, source.bounding_box.size.x);
        assert_eq!(glyph.bounding_box.size.height as i32, source.bounding_box.size.y);
        for y in 0..glyph.bounding_box.size.height + 1 {
            for x in 0..glyph.bounding_box.size.width + 1 {
                assert_eq!(
                    font.pixel(glyph, x, y),
                    source.pixel(x as usize, y as usize) == Some(true)
                        && x < glyph.bounding_box.size.width
                        && y < glyph.bounding_box.size.height,
                    "{} {x} {y}",
                    glyph.character
                );
            }
        }
    }
}

#[test]
fn glyphs_of_a_packed_font() {
    let output = FontConverter::with_string(THREE, "F")
        .convert_eg_bdf()
        .unwrap();
    let font = output.as_font();
    assert_eq!(font.find_glyph('a').unwrap().start_index, 6);
    assert_eq!(font.find_glyph('b').unwrap().start_index, 0);
    assert_eq!(font.find_glyph('c'), None);
    assert_eq!(font.get_glyph('a').character, 'a');
    assert_eq!(font.get_glyph('c').character, '?');
    assert_eq!(font.line_height(), 5);
    assert_eq!(font.baseline_offset(Baseline::Top), 2);
    assert_eq!(font.baseline_offset(Baseline::Bottom), -2);
    assert_eq!(font.baseline_offset(Baseline::Middle), 0);
    assert_eq!(font.baseline_offset(Baseline::Alphabetic), 0);
}

#[test]
fn baseline_offsets() {
    let font = |ascent, descent| PackedFont {
        replacement_character: 0,
        ascent,
        descent,
        glyphs: &[],
        data: &[],
    };
    assert_eq!(font(0, 0).baseline_offset(Baseline::Top), 0);
    assert_eq!(font(1, 0).baseline_offset(Baseline::Top), 0);
    assert_eq!(font(10, 3).baseline_offset(Baseline::Top), 9);
    assert_eq!(font(10, 3).baseline_offset(Baseline::Bottom), -3);
    assert_eq!(font(10, 3).baseline_offset(Baseline::Middle), 3);
    assert_eq!(font(3, 10).baseline_offset(Baseline::Middle), -3);
    assert_eq!(font(3, 10).baseline_offset(Baseline::Middle), (3 - 10) / 2);
    assert_eq!(font(i32::MAX as u32, 0).baseline_offset(Baseline::Middle), i32::MAX / 2);
    assert_eq!(font(0, i32::MAX as u32).baseline_offset(Baseline::Bottom), -i32::MAX);
    assert_eq!(font(0, 0).find_glyph('a'), None);
}

#[test]
fn pixels_behind_the_data() {
    let glyph = BdfGlyph {
        character: 'x',
        bounding_box: Rectangle {
            top_left: Point { x: 0, y: 0 },
            size: Size {
                width: 3,
                height: 4,
            },
        },
        device_width: 3,
        start_index: 4,
    };
    let font = PackedFont {
        replacement_character: 0,
        ascent: 0,
        descent: 0,
        glyphs: &[glyph],
        data: &[0b0000_1010],
    };
    assert!(font.pixel(&glyph, 0, 0));
    assert!(!font.pixel(&glyph, 1, 0));
    assert!(font.pixel(&glyph, 2, 0));
    assert!(!font.pixel(&glyph, 0, 1));
    assert!(!font.pixel(&glyph, 0, 2));
    assert!(!font.pixel(&glyph, 2, 3));
    let far = BdfGlyph {
        start_index: usize::MAX,
        ..glyph
    };
    assert!(!font.pixel(&far, 2, 3));
}

#[test]
fn bits_are_read() {
    assert!(read_bit(&[0x80], 0));
    assert!(!read_bit(&[0x80], 1));
    assert!(read_bit(&[0x00, 0x01], 15));
    assert!(!read_bit(&[0x00, 0x01], 16));
    assert!(!read_bit(&[], 0));
    assert!(!read_bit(&[0xff], usize::MAX));
}

#[test]
fn image_is_read_back() {
    let output = FontConverter::with_string(THREE, "F")
        .convert_mono_font()
        .unwrap();
    let rows = [
        "#.#.#.",
        ".#...##",
        "....##",
    ];
    for y in 0..3u32 {
        for x in 0..48u32 {
            let expected = rows[y as usize].as_bytes().get(x as usize) == Some(&b'#');
            assert_eq!(output.pixel(x, y), Some(expected), "{x} {y}");
        }
    }
    assert_eq!(output.pixel(48, 0), None);
    assert_eq!(output.pixel(0, 3), None);
    assert_eq!(output.pixel(u32::MAX, u32::MAX), None);
}

#[test]
fn coordinates_are_written_and_read_again() {
    for (x, y) in [
        (0, 0),
        (8, 0),
        (-1, 1),
        (i32::MAX, i32::MIN),
        (i32::MIN, i32::MAX),
        (1000000, -99),
        (10, -10),
    ] {
        let coord = Coord::new(x, y);
        let parameters = coord.to_parameters();
        assert_eq!(parameters, format!("{x} {y}"));
        let line = Line {
            keyword: "DWIDTH".to_string(),
            parameters,
            line_number: 1,
        };
        assert_eq!(Coord::parse(&line), Some(coord));
        assert_eq!(line.parse_integer_parameters::<2>(), Some([x, y]));
    }
}

#[test]
fn bounding_boxes_are_written_and_read_again() {
    for (width, height, x, y) in [(0, 0, 0, 0), (8, 16, 0, -2), (i32::MAX, i32::MIN, -7, 7)] {
        let bounding_box = BoundingBox {
            size: Coord::new(width, height),
            offset: Coord::new(x, y),
        };
        let parameters = bounding_box.to_parameters();
        assert_eq!(parameters, format!("{width} {height} {x} {y}"));
        let line = Line {
            keyword: "BBX".to_string(),
            parameters,
            line_number: 1,
        };
        assert_eq!(BoundingBox::parse(&line), Some(bounding_box));
    }
}

#[test]
fn parser_errors_as_text() {
    let error = ParserError {
        message: "invalid property".to_string(),
        line_number: Some(1203),
    };
    assert_eq!(error.to_string(), "line 1203: invalid property");
    let error = ParserError {
        message: "empty input".to_string(),
        line_number: None,
    };
    assert_eq!(error.to_string(), "empty input");
    let error = ParserError::new("x");
    assert_eq!(error.line_number, None);
    let line = Line {
        keyword: "K".to_string(),
        parameters: String::new(),
        line_number: 10,
    };
    assert_eq!(ParserError::with_line("bad", &line).to_string(), "line 10: bad");
    assert_eq!(
        ParserError {
            message: String::new(),
            line_number: Some(usize::MAX)
        }
        .to_string(),
        format!("line {}: ", usize::MAX)
    );
}

fn path(name: &str) -> FontPath {
    FontPath {
        absolute: format!("/fonts/{name}"),
        relative: name.to_string(),
    }
}

#[test]
fn font_files() {
    let files = parse_fonts(vec![
        (path("three.bdf"), THREE.to_string()),
        (path("empty.bdf"), String::new()),
        (path("broken.bdf"), "STARTFONT 2.1\nFOO".to_string()),
        (path("again.bdf"), THREE.to_string()),
    ]);
    assert_eq!(
        files.iter().map(|f| f.path.relative.as_str()).collect::<Vec<_>>(),
        ["three.bdf", "empty.bdf", "broken.bdf", "again.bdf"]
    );
    assert_eq!(files[0].path, path("three.bdf"));
    assert_eq!(files[0].parsed.as_ref().unwrap().glyphs.len(), 3);
    assert_eq!(
        files[1].parsed.as_ref().unwrap_err().to_string(),
        "empty input"
    );
    assert_eq!(
        files[2].parsed.as_ref().unwrap_err().to_string(),
        "line 2: unknown keyword in metadata: \"FOO\""
    );
    assert!(files[3].parsed.is_ok());
    assert_eq!(count_errors(&files), 2);
    assert_eq!(summary(&files), "\n2 out of 4 fonts passed (2 failed)\n");
    assert_eq!(count_errors(&[]), 0);
    assert_eq!(summary(&[]), "\n0 out of 0 fonts passed (0 failed)\n");
    let one = parse_font_file(path("one"), THREE);
    assert!(one.parsed.is_ok());
    assert_eq!(one.path.absolute, "/fonts/one");
}
