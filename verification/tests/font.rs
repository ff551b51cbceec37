use bdf_font::{
    BdfFont, BoundingBox, Coord, Encoding, Glyph, GlyphWidth, Metadata, MetricsSet, ParserError,
    Properties, PropertyValue,
};

fn assert_parser_error(input: &str, message: &str, line_number: Option<usize>) {
    assert_eq!(
        BdfFont::parse(input),
        Err(ParserError {
            message: message.to_string(),
            line_number,
        })
    );
}

const FONT: &str = "STARTFONT 2.1\nFONT \"test font\"\nSIZE 16 75 75\nFONTBOUNDINGBOX 16 24 0 0\nSTARTPROPERTIES 3\nCOPYRIGHT \"Copyright123\"\nFONT_ASCENT 1\nCOMMENT comment\nFONT_DESCENT 2\nENDPROPERTIES\nCHARS 2\nSTARTCHAR Char 0\nENCODING 64\nSWIDTH 480 0\nDWIDTH 8 0\nBBX 8 8 0 0\nBITMAP\n1f\n01\nENDCHAR\nSTARTCHAR Char 1\nENCODING 65\nSWIDTH 480 0\nDWIDTH 8 0\nBBX 8 8 0 0\nBITMAP\n2f\n02\nENDCHAR\nENDFONT\n";

fn test_font(font: &BdfFont) {
    assert_eq!(
        font.metadata,
        Metadata {
            name: String::from("\"test font\""),
            point_size: 16,
            resolution: Coord::new(75, 75),
            bounding_box: BoundingBox {
                size: Coord::new(16, 24),
                offset: Coord::new(0, 0),
            },
            metrics_set: MetricsSet::Horizontal,
            properties: Properties::new(
                [
                    (
                        "COPYRIGHT".to_string(),
                        PropertyValue::Text("Copyright123".to_string()),
                    ),
                    ("FONT_ASCENT".to_string(), PropertyValue::Int(1)),
                    ("FONT_DESCENT".to_string(), PropertyValue::Int(2)),
                ]
                .into_iter()
                .collect(),
            )
        }
    );

    assert_eq!(
        font.glyphs.iter().iter().cloned().collect::<Vec<_>>(),
        vec![
            Glyph {
                bitmap: vec![0x1f, 0x01],
                bounding_box: BoundingBox {
                    size: Coord::new(8, 8),
                    offset: Coord::new(0, 0),
                },
                encoding: Encoding::Standard(64), // '@'
                name: "Char 0".to_string(),
                width_horizontal: Some(GlyphWidth {
                    device: Coord::new(8, 0),
                    scalable: Coord::new(480, 0),
                }),
                width_vertical: None,
                origin_offset: None,
            },
            Glyph {
                bitmap: vec![0x2f, 0x02],
                bounding_box: BoundingBox {
                    size: Coord::new(8, 8),
                    offset: Coord::new(0, 0),
                },
                encoding: Encoding::Standard(65), // 'A'
                name: "Char 1".to_string(),
                width_horizontal: Some(GlyphWidth {
                    device: Coord::new(8, 0),
                    scalable: Coord::new(480, 0),
                }),
                width_vertical: None,
                origin_offset: None,
            },
        ],
    );
}

#[test]
fn parse_font() {
    test_font(&BdfFont::parse(FONT).unwrap())
}

#[test]
fn parse_font_without_endfont() {
    let lines: Vec<_> = FONT
        .lines()
        .filter(|line| !line.contains("ENDFONT"))
        .collect();
    let input = lines.join("\n");

    test_font(&BdfFont::parse(&input).unwrap());
}

#[test]
fn parse_font_without_chars() {
    let lines: Vec<_> = FONT
        .lines()
        .filter(|line| !line.contains("CHARS"))
        .collect();
    let input = lines.join("\n");

    test_font(&BdfFont::parse(&input).unwrap());
}

#[test]
fn parse_font_missing_swidth() {
    let lines: Vec<_> = FONT
        .lines()
        .filter(|line| !line.contains("SWIDTH"))
        .collect();
    let input = lines.join("\n");

    test_font(&BdfFont::parse(&input).unwrap());
}

#[test]
fn parse_font_with_windows_line_endings() {
    let lines: Vec<_> = FONT.lines().collect();
    let input = lines.join("\r\n");

    test_font(&BdfFont::parse(&input).unwrap());
}

#[test]
fn parse_empty_font() {
    assert_parser_error("", "empty input", None);
}

#[test]
fn parse_blank_font() {
    assert_parser_error("\n  \n\t\nCOMMENT nothing\n", "empty input", None);
}

#[test]
fn lines_behind_endfont_are_not_read() {
    let lines: Vec<_> = FONT.lines().chain(std::iter::once("Invalid")).collect();
    let input = lines.join("\n");

    test_font(&BdfFont::parse(&input).unwrap());
}

#[test]
fn parse_with_leading_whitespace() {
    let lines: Vec<_> = std::iter::once("").chain(FONT.lines()).collect();
    let input = lines.join("\n");

    test_font(&BdfFont::parse(&input).unwrap());
}

#[test]
fn invalid_first_line() {
    let input = "\nSOMETHING 2.1";
    assert_parser_error(input, "expected \"STARTFONT 2.1\"", Some(2));
}

#[test]
fn invalid_version() {
    assert_parser_error("STARTFONT 2.2\n", "expected \"STARTFONT 2.1\"", Some(1));
    assert_parser_error("STARTFONT\n", "expected \"STARTFONT 2.1\"", Some(1));
}

#[test]
fn missing_font_name() {
    let input = "STARTFONT 2.1\n";
    assert_parser_error(input, "missing \"FONT\"", None);
}

#[test]
fn complete_metadata() {
    const FONT: &str = "STARTFONT 2.1\nFONT \"test font\"\nFONTBOUNDINGBOX 0 1 2 3\nSIZE 1 2 3\nCOMMENT \"comment\"\nCHARS 0\nENDFONT\n";

    let font = BdfFont::parse(FONT).unwrap();
    assert_eq!(font.metadata.name, "\"test font\"");
    assert_eq!(font.metadata.point_size, 1);
    assert_eq!(font.metadata.resolution, Coord::new(2, 3));
    assert_eq!(
        font.metadata.bounding_box,
        BoundingBox {
            size: Coord::new(0, 1),
            offset: Coord::new(2, 3)
        }
    );
    assert_eq!(font.metadata.metrics_set, MetricsSet::Horizontal);
    assert!(font.metadata.properties.is_empty());
    assert_eq!(font.glyphs.len(), 0);
}

#[test]
fn missing_name() {
    const FONT: &str = "STARTFONT 2.1\nFONTBOUNDINGBOX 0 1 2 3\nSIZE 1 2 3\nCHARS 0\nENDFONT\n";

    assert_parser_error(FONT, "missing \"FONT\"", None);
}

#[test]
fn missing_fontboundingbox() {
    const FONT: &str = "STARTFONT 2.1\nFONT \"test font\"\nSIZE 1 2 3\nCHARS 0\nENDFONT\n";

    assert_parser_error(FONT, "missing \"FONTBOUNDINGBOX\"", None);
}

#[test]
fn missing_size() {
    const FONT: &str = "STARTFONT 2.1\nFONT \"test font\"\nFONTBOUNDINGBOX 0 1 2 3\nCHARS 0\nENDFONT\n";

    assert_parser_error(FONT, "missing \"SIZE\"", None);
}

#[test]
fn metrics_set() {
    const FONT: &str = "STARTFONT 2.1\nFONT \"test font\"\nFONTBOUNDINGBOX 0 1 2 3\nSIZE 1 2 3\nCOMMENT \"comment\"\nMETRICSSET 2\nCHARS 0\nENDFONT\n";

    let font = BdfFont::parse(FONT).unwrap();
    assert_eq!(font.metadata.metrics_set, MetricsSet::Both);
}

#[test]
fn metrics_sets() {
    for (index, expected) in [
        ("0", MetricsSet::Horizontal),
        ("1", MetricsSet::Vertical),
        ("2", MetricsSet::Both),
    ] {
        let input = format!(
            "STARTFONT 2.1\nFONT f\nFONTBOUNDINGBOX 0 1 2 3\nSIZE 1 2 3\nMETRICSSET {index}\n"
        );
        assert_eq!(BdfFont::parse(&input).unwrap().metadata.metrics_set, expected);
    }
}

#[test]
fn invalid_metadata() {
    for (line, message) in [
        ("METRICSSET 3", "invalid \"METRICSSET\""),
        ("METRICSSET -1", "invalid \"METRICSSET\""),
        ("METRICSSET", "invalid \"METRICSSET\""),
        ("METRICSSET 1 2", "invalid \"METRICSSET\""),
        ("SIZE 1 2", "invalid \"SIZE\""),
        ("SIZE 1 2 x", "invalid \"SIZE\""),
        ("FONTBOUNDINGBOX 1 2 3", "invalid \"FONTBOUNDINGBOX\""),
        ("FONTBOUNDINGBOX 1 2 3 4 5", "invalid \"FONTBOUNDINGBOX\""),
        ("ENDFONT", "unknown keyword in metadata: \"ENDFONT\""),
        ("FONT_ASCENT 1", "unknown keyword in metadata: \"FONT_ASCENT\""),
        ("STARTPROPERTIES many", "invalid \"STARTPROPERTIES\""),
    ] {
        let input = format!("STARTFONT 2.1\nFONT f\n{line}\nSIZE 1 2 3\n");
        assert_parser_error(&input, message, Some(3));
    }
}

#[test]
fn end_to_end() {
    let input = "STARTFONT 2.1\nFONT font\nSIZE 16 75 75\nFONTBOUNDINGBOX 16 24 0 0\nSTARTPROPERTIES 1\nFONT_ASCENT 1\nENDPROPERTIES\nSTARTCHAR A\nENCODING 65\nBBX 8 8 0 0\nBITMAP\n1f\n01\nENDCHAR\n";
    let font = BdfFont::parse(input).unwrap();
    assert_eq!(font.glyphs.get('A').unwrap().bitmap, vec![0x1f, 0x01]);
    assert_eq!(font.glyphs.get('A').unwrap().width_horizontal, None);
    assert_eq!(font.glyphs.get('B'), None);
    let with_endfont = format!("{input}ENDFONT\n");
    assert_eq!(BdfFont::parse(&with_endfont).unwrap(), font);
    let windows = with_endfont.replace('\n', "\r\n");
    assert_eq!(BdfFont::parse(&windows).unwrap(), font);
}

#[test]
fn errors_in_glyphs_stop_the_parser() {
    let input = "STARTFONT 2.1\nFONT font\nSIZE 16 75 75\nFONTBOUNDINGBOX 16 24 0 0\nCHARS 1\nSTARTCHAR A\nENCODING 65 1\nBITMAP\nENDCHAR\nENDFONT";
    assert_parser_error(input, "invalid \"ENCODING\"", Some(7));
    let input = "STARTFONT 2.1\nFONT font\nSIZE 16 75 75\nFONTBOUNDINGBOX 16 24 0 0\nCHARS 1\nENDCHAR\n";
    assert_parser_error(input, "unknown keyword: \"ENDCHAR\"", Some(6));
}

#[test]
fn last_line_of_a_field_counts() {
    let input = "STARTFONT 2.1\nFONT first\nSIZE 1 2 3\nSIZE 4 5 6\nFONT second name\nFONTBOUNDINGBOX 1 2 3 4\n";
    let font = BdfFont::parse(input).unwrap();
    assert_eq!(font.metadata.name, "second name");
    assert_eq!(font.metadata.point_size, 4);
    assert_eq!(font.metadata.resolution, Coord::new(5, 6));
}
