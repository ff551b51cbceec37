use bdf_font::{
    BoundingBox, Coord, Encoding, Glyph, GlyphWidth, Glyphs, Lines, Metadata, MetricsSet,
    Properties,
};

fn mock_metadata() -> Metadata {
    Metadata {
        name: "test".to_string(),
        point_size: 16,
        resolution: Coord::new(100, 100),
        bounding_box: BoundingBox::default(),
        metrics_set: MetricsSet::Horizontal,
        properties: Properties::default(),
    }
}

fn parse_glyph(input: &str) -> Glyph {
    let mut lines = Lines::new(input);
    Glyph::parse(&mut lines, &mock_metadata()).unwrap()
}

fn glyph_error(input: &str) -> (String, Option<usize>) {
    let mut lines = Lines::new(input);
    let error = Glyph::parse(&mut lines, &mock_metadata()).unwrap_err();
    (error.message, error.line_number)
}

#[test]
fn test_parse_bitmap() {
    let prefix = "STARTCHAR 0\nSWIDTH 0 0\nDWIDTH 0 0\nBITMAP\n";
    let suffix = "\nENDCHAR";

    for (input, expected) in [
        ("7e", vec![0x7e]),
        ("ff", vec![0xff]),
        ("CCCC", vec![0xcc, 0xcc]),
        ("ffffffff", vec![0xff, 0xff, 0xff, 0xff]),
        (
            "ffffffff\naaaaaaaa",
            vec![0xff, 0xff, 0xff, 0xff, 0xaa, 0xaa, 0xaa, 0xaa],
        ),
        (
            "ff\nff\nff\nff\naa\naa\naa\naa",
            vec![0xff, 0xff, 0xff, 0xff, 0xaa, 0xaa, 0xaa, 0xaa],
        ),
        (
            "00\n00\n00\n00\n18\n24\n24\n42\n42\n7E\n42\n42\n42\n42\n00\n00",
            vec![
                0x00, 0x00, 0x00, 0x00, 0x18, 0x24, 0x24, 0x42, 0x42, 0x7e, 0x42, 0x42, 0x42,
                0x42, 0x00, 0x00,
            ],
        ),
    ] {
        let glyph = parse_glyph(&format!("{prefix}{input}{suffix}"));
        assert_eq!(glyph.bitmap, expected);
    }
}

/// Returns test data for a single glyph and the expected parsing result
fn test_data() -> (&'static str, Glyph) {
    (
        "STARTCHAR ZZZZ\nENCODING 65\nSWIDTH 500 0\nDWIDTH 8 0\nBBX 8 16 0 -2\nBITMAP\n00\n00\n00\n00\n18\n24\n24\n42\n42\n7E\n42\n42\n42\n42\n00\n00\nENDCHAR\n",
        Glyph {
            name: "ZZZZ".to_string(),
            encoding: Encoding::Standard(65), // 'A'
            bitmap: vec![
                0x00, 0x00, 0x00, 0x00, 0x18, 0x24, 0x24, 0x42, 0x42, 0x7e, 0x42, 0x42, 0x42,
                0x42, 0x00, 0x00,
            ],
            bounding_box: BoundingBox {
                size: Coord::new(8, 16),
                offset: Coord::new(0, -2),
            },
            width_horizontal: Some(GlyphWidth {
                scalable: Coord::new(500, 0),
                device: Coord::new(8, 0),
            }),
            width_vertical: None,
            origin_offset: None,
        },
    )
}

#[test]
fn parse_single_char() {
    let (chardata, expected_glyph) = test_data();
    assert_eq!(parse_glyph(chardata), expected_glyph);
}

#[test]
fn get_glyph_by_char() {
    let (chardata, expected_glyph) = test_data();

    let mut lines = Lines::new(chardata);

    let glyphs = Glyphs::parse(&mut lines, &mock_metadata()).unwrap();
    assert_eq!(glyphs.get('A'), Some(&expected_glyph));
}

#[test]
fn pixel_getter() {
    let (chardata, _) = test_data();
    let glyph = parse_glyph(chardata);

    let bitmap = (0..16)
        .map(|y| {
            (0..8)
                .map(|x| if glyph.pixel(x, y).unwrap() { '#' } else { ' ' })
                .collect::<String>()
        })
        .collect::<Vec<_>>();

    assert_eq!(
        bitmap,
        [
            "        ", //
            "        ", //
            "        ", //
            "        ", //
            "   ##   ", //
            "  #  #  ", //
            "  #  #  ", //
            " #    # ", //
            " #    # ", //
            " ###### ", //
            " #    # ", //
            " #    # ", //
            " #    # ", //
            " #    # ", //
            "        ", //
            "        ", //
        ]
        .iter()
        .map(|s| s.to_string())
        .collect::<Vec<_>>()
    );
}

#[test]
fn pixels_iterator() {
    let (chardata, _) = test_data();
    let glyph = parse_glyph(chardata);

    assert!(glyph.is_complete());
    let bitmap = glyph
        .pixels()
        .into_iter()
        .map(|v| if v { '#' } else { ' ' })
        .collect::<String>();

    assert_eq!(
        bitmap,
        [
            "        ", //
            "        ", //
            "        ", //
            "        ", //
            "   ##   ", //
            "  #  #  ", //
            "  #  #  ", //
            " #    # ", //
            " #    # ", //
            " ###### ", //
            " #    # ", //
            " #    # ", //
            " #    # ", //
            " #    # ", //
            "        ", //
            "        ", //
        ]
        .concat()
    );
}

#[test]
fn pixel_getter_outside() {
    let (chardata, _) = test_data();
    let glyph = parse_glyph(chardata);

    assert_eq!(glyph.pixel(8, 0), None);
    assert_eq!(glyph.pixel(0, 16), None);
    assert_eq!(glyph.pixel(8, 16), None);
}

#[test]
fn pixel_getter_far_outside() {
    let (chardata, _) = test_data();
    let glyph = parse_glyph(chardata);

    assert_eq!(glyph.pixel(usize::MAX, 0), None);
    assert_eq!(glyph.pixel(0, usize::MAX), None);
    assert_eq!(glyph.pixel(7, usize::MAX / 2), None);
    assert_eq!(glyph.pixel(7, 15), Some(false));
}

#[test]
fn pixels_of_a_wide_glyph() {
    let glyph = Glyph {
        bounding_box: BoundingBox {
            size: Coord::new(10, 2),
            offset: Coord::new(0, 0),
        },
        bitmap: vec![0x80, 0x40, 0x01, 0x80],
        ..Glyph::default()
    };
    assert!(glyph.is_complete());
    assert_eq!(glyph.pixel(0, 0), Some(true));
    assert_eq!(glyph.pixel(1, 0), Some(false));
    assert_eq!(glyph.pixel(9, 0), Some(true));
    assert_eq!(glyph.pixel(10, 0), None);
    assert_eq!(glyph.pixel(7, 1), Some(true));
    assert_eq!(glyph.pixel(8, 1), Some(true));
    assert_eq!(glyph.pixel(9, 1), Some(false));
    assert_eq!(glyph.pixel(0, 2), None);
    let pixels = glyph.pixels();
    assert_eq!(pixels.len(), 20);
    let expected = "#........#.......##.";
    assert_eq!(
        pixels
            .iter()
            .map(|p| if *p { '#' } else { '.' })
            .collect::<String>(),
        expected
    );
}

#[test]
fn incomplete_glyphs() {
    let short = Glyph {
        bounding_box: BoundingBox {
            size: Coord::new(8, 3),
            offset: Coord::new(0, 0),
        },
        bitmap: vec![0xff, 0xff],
        ..Glyph::default()
    };
    assert!(!short.is_complete());
    assert_eq!(short.pixel(0, 1), Some(true));
    assert_eq!(short.pixel(0, 2), None);

    let negative = Glyph {
        bounding_box: BoundingBox {
            size: Coord::new(8, -1),
            offset: Coord::new(0, 0),
        },
        ..Glyph::default()
    };
    assert!(!negative.is_complete());

    let empty = Glyph::default();
    assert!(empty.is_complete());
    assert_eq!(empty.pixels(), Vec::<bool>::new());
    assert_eq!(empty.pixel(0, 0), None);
}

#[test]
fn parse_glyph_with_no_encoding() {
    let chardata = "STARTCHAR 000\nENCODING -1\nSWIDTH 432 0\nDWIDTH 6 0\nBBX 0 0 0 0\nBITMAP\nENDCHAR\n";

    assert_eq!(
        parse_glyph(chardata),
        Glyph {
            bitmap: vec![],
            bounding_box: BoundingBox {
                size: Coord::new(0, 0),
                offset: Coord::new(0, 0),
            },
            encoding: Encoding::Unspecified,
            name: "000".to_string(),
            width_horizontal: Some(GlyphWidth {
                scalable: Coord::new(432, 0),
                device: Coord::new(6, 0),
            }),
            width_vertical: None,
            origin_offset: None,
        }
    );
}

#[test]
fn parse_glyph_with_no_encoding_and_index() {
    let chardata = "STARTCHAR 000\nENCODING -1 123\nSWIDTH 432 0\nDWIDTH 6 0\nBBX 0 0 0 0\nBITMAP\nENDCHAR\n";

    assert_eq!(
        parse_glyph(chardata),
        Glyph {
            bitmap: vec![],
            bounding_box: BoundingBox {
                size: Coord::new(0, 0),
                offset: Coord::new(0, 0),
            },
            encoding: Encoding::NonStandard(123),
            name: "000".to_string(),
            width_horizontal: Some(GlyphWidth {
                scalable: Coord::new(432, 0),
                device: Coord::new(6, 0),
            }),
            width_vertical: None,
            origin_offset: None,
        }
    );
}

#[test]
fn parse_glyph_with_writing_mode1_metrics() {
    let chardata = "STARTCHAR 000\nENCODING -1\nSWIDTH1 0 432\nDWIDTH1 0 6\nVVECTOR 1 2\nBBX 0 0 0 0\nBITMAP\nENDCHAR\n";

    assert_eq!(
        parse_glyph(chardata),
        Glyph {
            bitmap: vec![],
            bounding_box: BoundingBox {
                size: Coord::new(0, 0),
                offset: Coord::new(0, 0),
            },
            encoding: Encoding::Unspecified,
            name: "000".to_string(),
            width_horizontal: None,
            width_vertical: Some(GlyphWidth {
                scalable: Coord::new(0, 432),
                device: Coord::new(0, 6),
            }),
            origin_offset: Some(Coord::new(1, 2)),
        }
    );
}

#[test]
fn parse_glyph_with_empty_bitmap() {
    let chardata = "STARTCHAR 000\nENCODING 0\nSWIDTH 432 0\nDWIDTH 6 0\nBBX 0 0 0 0\nBITMAP\nENDCHAR\n";

    assert_eq!(
        parse_glyph(chardata),
        Glyph {
            bitmap: vec![],
            bounding_box: BoundingBox {
                size: Coord::new(0, 0),
                offset: Coord::new(0, 0),
            },
            encoding: Encoding::Standard(0),
            name: "000".to_string(),
            width_horizontal: Some(GlyphWidth {
                scalable: Coord::new(432, 0),
                device: Coord::new(6, 0),
            }),
            width_vertical: None,
            origin_offset: None,
        }
    );
}

#[test]
fn invalid_encodings() {
    for parameters in ["", "x", "1 2", "0 0", "-1 -1", "-1 2 3", "1.5"] {
        let input = format!("STARTCHAR a\nENCODING {parameters}\nBITMAP\nENDCHAR");
        assert_eq!(
            glyph_error(&input),
            ("invalid \"ENCODING\"".to_string(), Some(2)),
            "{parameters:?}"
        );
    }
    assert_eq!(
        parse_glyph("STARTCHAR a\nENCODING -5 0\nBITMAP\nENDCHAR").encoding,
        Encoding::NonStandard(0)
    );
    assert_eq!(
        parse_glyph("STARTCHAR a\nENCODING 2147483647\nBITMAP\nENDCHAR").encoding,
        Encoding::Standard(2147483647)
    );
}

#[test]
fn invalid_glyph_lines() {
    for (input, message, line) in [
        ("STARTCHAR a\nSWIDTH 1\nBITMAP\nENDCHAR", "invalid \"SWIDTH\"", 2),
        ("STARTCHAR a\n\nDWIDTH 1 2 3\nBITMAP\nENDCHAR", "invalid \"DWIDTH\"", 3),
        ("STARTCHAR a\nSWIDTH1 a b\nBITMAP\nENDCHAR", "invalid \"SWIDTH1\"", 2),
        ("STARTCHAR a\nDWIDTH1\nBITMAP\nENDCHAR", "invalid \"DWIDTH1\"", 2),
        ("STARTCHAR a\nBBX 1 2 3\nBITMAP\nENDCHAR", "invalid \"BBX\"", 2),
        ("STARTCHAR a\nVVECTOR 1\nBITMAP\nENDCHAR", "invalid \"VVECTOR\"", 2),
        ("STARTCHAR a\nFOO 1\nBITMAP\nENDCHAR", "unknown keyword in glyphs: \"FOO\"", 2),
        ("STARTCHAR a\nENDCHAR", "unknown keyword in glyphs: \"ENDCHAR\"", 2),
        ("STARTCHAR a\nSWIDTH 1 2\nBITMAP\nENDCHAR", "missing \"DWIDTH\"", 1),
        ("COMMENT c\nSTARTCHAR a\nSWIDTH1 1 2\nBITMAP\nENDCHAR", "missing \"DWIDTH1\"", 2),
        ("STARTCHAR a\nBITMAP\n0\nENDCHAR", "invalid hex data in BITMAP", 3),
        ("STARTCHAR a\nBITMAP\n0g\nENDCHAR", "invalid hex data in BITMAP", 3),
        ("STARTCHAR a\nBITMAP\n00 11\nENDCHAR", "invalid hex data in BITMAP", 3),
        ("STARTCHAR a\nBITMAP\n00\n+f\nENDCHAR", "invalid hex data in BITMAP", 4),
        ("STARTCHAR a\nBITMAP\n\u{e9}\u{e9}\nENDCHAR", "invalid hex data in BITMAP", 3),
        ("STARTCHAR a\nBITMAP\nENDFONT", "invalid hex data in BITMAP", 3),
    ] {
        assert_eq!(glyph_error(input), (message.to_string(), Some(line)), "{input:?}");
    }
}

#[test]
fn glyph_ends_with_the_input() {
    let glyph = parse_glyph("STARTCHAR a b\nENCODING 1");
    assert_eq!(glyph.name, "a b");
    assert_eq!(glyph.encoding, Encoding::Standard(1));
    assert_eq!(glyph.bitmap, Vec::<u8>::new());
    let glyph = parse_glyph("STARTCHAR a\nBITMAP\n0a0B");
    assert_eq!(glyph.bitmap, vec![0x0a, 0x0b]);
}

#[test]
fn later_lines_replace_earlier_ones() {
    let glyph = parse_glyph(
        "STARTCHAR a\nENCODING 1\nBBX 1 1 1 1\nENCODING -1 7\nBBX 2 3 4 5\nBITMAP\nENDCHAR",
    );
    assert_eq!(glyph.encoding, Encoding::NonStandard(7));
    assert_eq!(
        glyph.bounding_box,
        BoundingBox {
            size: Coord::new(2, 3),
            offset: Coord::new(4, 5)
        }
    );
}

#[test]
fn approximated_scalable_width() {
    let metadata = mock_metadata();
    // 8 * 72000 / (16 * 100) = 360
    let mut lines = Lines::new("STARTCHAR a\nDWIDTH 8 -3\nBITMAP\nENDCHAR");
    let glyph = Glyph::parse(&mut lines, &metadata).unwrap();
    assert_eq!(
        glyph.width_horizontal,
        Some(GlyphWidth {
            scalable: Coord::new(360, -135),
            device: Coord::new(8, -3),
        })
    );
    assert_eq!(
        bdf_font::glyph::calculate_swidth(Coord::new(8, -3), &metadata),
        Some(Coord::new(360, -135))
    );
    // rounds towards zero
    assert_eq!(
        bdf_font::glyph::calculate_swidth(Coord::new(1, -1), &metadata),
        Some(Coord::new(45, -45))
    );
    let odd = Metadata {
        point_size: 7,
        resolution: Coord::new(-11, 13),
        ..mock_metadata()
    };
    assert_eq!(
        bdf_font::glyph::calculate_swidth(Coord::new(5, -5), &odd),
        Some(Coord::new(5 * 1000 * 72 / 7 / -11, -5 * 1000 * 72 / 7 / 13))
    );
    // large intermediate results do no harm
    assert_eq!(
        bdf_font::glyph::calculate_swidth(Coord::new(40000, 0), &metadata),
        Some(Coord::new(1800000, 0))
    );
}

#[test]
fn scalable_width_that_cannot_be_approximated() {
    for (point_size, resolution) in [(0, Coord::new(75, 75)), (16, Coord::new(0, 75)), (16, Coord::new(75, 0))] {
        let metadata = Metadata {
            point_size,
            resolution,
            ..mock_metadata()
        };
        assert_eq!(
            bdf_font::glyph::calculate_swidth(Coord::new(8, 0), &metadata),
            None
        );
        let mut lines = Lines::new("STARTCHAR a\nDWIDTH 8 0\nBITMAP\nENDCHAR");
        let error = Glyph::parse(&mut lines, &metadata).unwrap_err();
        assert_eq!(error.message, "cannot approximate the scalable width");
        assert_eq!(error.line_number, Some(1));
    }
    let tiny = Metadata {
        point_size: 1,
        resolution: Coord::new(1, 1),
        ..mock_metadata()
    };
    assert_eq!(
        bdf_font::glyph::calculate_swidth(Coord::new(29826, 0), &tiny),
        Some(Coord::new(2147472000, 0))
    );
    assert_eq!(
        bdf_font::glyph::calculate_swidth(Coord::new(29827, 0), &tiny),
        None
    );
    assert_eq!(
        bdf_font::glyph::calculate_swidth(Coord::new(0, -29827), &tiny),
        None
    );
}

#[test]
fn glyph_collection() {
    let input = "CHARS 3\nSTARTCHAR first\nENCODING 66\nBITMAP\nENDCHAR\nSTARTCHAR second\nENCODING 65\nBITMAP\nENDCHAR\nSTARTCHAR third\nENCODING 66\nBITMAP\nENDCHAR\nSTARTCHAR fourth\nENCODING -1 65\nBITMAP\nENDCHAR\nENDFONT\nignored";
    let mut lines = Lines::new(input);
    let glyphs = Glyphs::parse(&mut lines, &mock_metadata()).unwrap();
    assert_eq!(glyphs.len(), 4);
    assert_eq!(
        glyphs.iter().iter().map(|g| g.name.clone()).collect::<Vec<_>>(),
        ["first", "second", "third", "fourth"]
    );
    assert_eq!(glyphs.get('A').unwrap().name, "second");
    assert_eq!(glyphs.get('B').unwrap().name, "first");
    assert_eq!(glyphs.get('C'), None);
    assert!(glyphs.contains('A'));
    assert!(!glyphs.contains('a'));
    assert_eq!(lines.next().unwrap().keyword, "ignored");
}

#[test]
fn unknown_keyword_between_glyphs() {
    let mut lines = Lines::new("CHARS 1\nBITMAP\n");
    let error = Glyphs::parse(&mut lines, &mock_metadata()).unwrap_err();
    assert_eq!(error.message, "unknown keyword: \"BITMAP\"");
    assert_eq!(error.line_number, Some(2));
}

#[test]
fn cloned_glyph_is_equal() {
    let (chardata, expected) = test_data();
    let glyph = parse_glyph(chardata);
    assert_eq!(glyph.clone(), expected);
}
