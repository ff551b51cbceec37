//! Glyphs: encoding, metrics and bitmap of one character, and the collection
//! of all glyphs of a font.

use crate::geometry::{BoundingBox, Coord};
use crate::metadata::{error_in, quote_keyword, Metadata};
use crate::parser::{Line, LineView, Lines, ParserError, ParserErrorView};
use crate::properties::Parsed;
use crate::text::to_chars;
use vstd::prelude::*;

verus! {

/// Glyph encoding
#[derive(Default, Debug, Clone, Copy, PartialEq, Eq, Structural, PartialOrd, Ord)]
pub enum Encoding {
    /// Standard encoding
    Standard(u32),
    /// Non standard encoding
    NonStandard(u32),
    /// Unspecified encoding
    #[default]
    Unspecified,
}

/// Glyph width.
#[derive(Default, Debug, Clone, Copy, PartialEq, Eq, Structural, PartialOrd, Ord)]
pub struct GlyphWidth {
    /// Scalable width in 1/1000th of the size.
    pub scalable: Coord,
    /// Device width in device pixels.
    pub device: Coord,
}

/// Glyph.
#[derive(Debug, PartialEq, Default)]
pub struct Glyph {
    /// Name.
    ///
    /// Specified by `STARTCHAR`.
    pub name: String,
    /// Encoding.
    ///
    /// Specified by `ENCODING`.
    pub encoding: Encoding,
    /// Width for writing mode 0.
    ///
    /// Specified by `DWIDTH` and `SWIDTH` and used for `METRICSSET 0` and
    /// `METRICSSET 2`.
    pub width_horizontal: Option<GlyphWidth>,
    /// Width for writing mode 1.
    ///
    /// Specified by `DWIDTH1` and `SWIDTH1` and used for `METRICSSET 1` and
    /// `METRICSSET 2`.
    pub width_vertical: Option<GlyphWidth>,
    /// Bounding box.
    ///
    /// Specified by `BBX`.
    pub bounding_box: BoundingBox,
    /// Origin offset between writing mode 0 and 1.
    ///
    /// Specified by `VVECTOR`.
    pub origin_offset: Option<Coord>,
    /// Bitmap data.
    ///
    /// Specified by the hex values between `BITMAP` and `ENDCHAR`.
    pub bitmap: Vec<u8>,
}

/// Mathematical value of a [`Glyph`].
pub struct GlyphView {
    pub name: Seq<char>,
    pub encoding: Encoding,
    pub width_horizontal: Option<GlyphWidth>,
    pub width_vertical: Option<GlyphWidth>,
    pub bounding_box: BoundingBox,
    pub origin_offset: Option<Coord>,
    pub bitmap: Seq<u8>,
}

impl View for Glyph {
    type V = GlyphView;

    open spec fn view(&self) -> GlyphView {
        GlyphView {
            name: self.name@,
            encoding: self.encoding,
            width_horizontal: self.width_horizontal,
            width_vertical: self.width_vertical,
            bounding_box: self.bounding_box,
            origin_offset: self.origin_offset,
            bitmap: self.bitmap@,
        }
    }
}

impl Clone for Glyph {
    fn clone(&self) -> (r: Self)
        ensures
            r@ == self@,
    {
        let r = Glyph {
            name: self.name.clone(),
            encoding: self.encoding,
            width_horizontal: self.width_horizontal,
            width_vertical: self.width_vertical,
            bounding_box: self.bounding_box,
            origin_offset: self.origin_offset,
            bitmap: self.bitmap.clone(),
        };
        assert(r.bitmap@ =~= self.bitmap@);
        r
    }
}

/// Bit `bit` of a byte is set, where bit 0 is the most significant one.
pub open spec fn bit_is_set(byte: u8, bit: u8) -> bool {
    byte & (0x80u8 >> bit) != 0
}

impl GlyphView {
    /// Width of the bounding box in pixels.
    pub open spec fn width(self) -> int {
        self.bounding_box.size.x as int
    }

    /// Height of the bounding box in pixels.
    pub open spec fn height(self) -> int {
        self.bounding_box.size.y as int
    }

    /// Number of bytes that hold one row of the bitmap.
    pub open spec fn bytes_per_row(self) -> int {
        (self.width() + 7) / 8
    }

    /// Index of the byte that holds the pixel in column `x` of row `y`.
    pub open spec fn pixel_index(self, x: int, y: int) -> int {
        x / 8 + self.bytes_per_row() * y
    }

    /// The pixel in column `x` of row `y`, counted from the top left corner
    /// of the bounding box: `None` outside the width of the bounding box and
    /// behind the end of the bitmap.
    pub open spec fn pixel(self, x: int, y: int) -> Option<bool> {
        if 0 <= x < self.width() && 0 <= y && self.pixel_index(x, y) < self.bitmap.len() {
            Some(bit_is_set(self.bitmap[self.pixel_index(x, y)], (x % 8) as u8))
        } else {
            None
        }
    }

    /// The bitmap holds every pixel of the bounding box.
    pub open spec fn has_all_pixels(self) -> bool {
        &&& self.bounding_box.has_size()
        &&& self.width() == 0 || self.height() == 0 || self.bytes_per_row() * self.height()
            <= self.bitmap.len()
    }

    /// The pixels of the bounding box row by row, from the top left corner to
    /// the bottom right corner.
    pub open spec fn pixels(self) -> Seq<bool> {
        Seq::new(
            (self.width() * self.height()) as nat,
            |i: int| self.pixel(i % self.width(), i / self.width()).unwrap(),
        )
    }
}

/// Absolute value.
pub open spec fn int_abs(a: int) -> int {
    if a < 0 {
        -a
    } else {
        a
    }
}

/// Quotient rounded towards zero.
pub open spec fn truncating_div(a: int, b: int) -> int {
    let q = int_abs(a) / int_abs(b);
    if (a < 0) != (b < 0) {
        -q
    } else {
        q
    }
}

/// A device width in pixels as a scalable width in 1/1000 of the font size,
/// for a font of the given point size and resolution.
pub open spec fn scaled_width(device: int, point_size: int, resolution: int) -> int {
    truncating_div(device * 72000, point_size * resolution)
}

/// The scalable width that approximates a device width, where it is defined
/// and can be represented.
pub open spec fn approximate_swidth(device: Coord, point_size: i32, resolution: Coord) -> Option<
    Coord,
> {
    let x = scaled_width(device.x as int, point_size as int, resolution.x as int);
    let y = scaled_width(device.y as int, point_size as int, resolution.y as int);
    if point_size == 0 || resolution.x == 0 || resolution.y == 0 {
        None
    } else if i32::MIN <= x <= i32::MAX && i32::MIN <= y <= i32::MAX {
        Some(Coord { x: x as i32, y: y as i32 })
    } else {
        None
    }
}

/// Scales one component of a device width.
fn scale_width(device: i32, point_size: i32, resolution: i32) -> (r: Option<i32>)
    requires
        point_size != 0,
        resolution != 0,
    ensures
        ({
            let w = scaled_width(device as int, point_size as int, resolution as int);
            r == if i32::MIN <= w <= i32::MAX {
                Some(w as i32)
            } else {
                None
            }
        }),
{
    assert(-0x4000_0000_0000_0000 <= (point_size as int) * (resolution as int)
        <= 0x4000_0000_0000_0000 && (point_size as int) * (resolution as int) != 0)
        by (nonlinear_arith)
        requires
            -0x8000_0000 <= point_size <= 0x7fff_ffff,
            -0x8000_0000 <= resolution <= 0x7fff_ffff,
            point_size != 0,
            resolution != 0,
    ;
    let a: i64 = device as i64 * 72000;
    let b: i64 = point_size as i64 * resolution as i64;
    let abs_a: u64 = if a < 0 {
        (-a) as u64
    } else {
        a as u64
    };
    let abs_b: u64 = if b < 0 {
        (-b) as u64
    } else {
        b as u64
    };
    let q: u64 = abs_a / abs_b;
    if (a < 0) != (b < 0) {
        if q <= 0x8000_0000 {
            Some((-(q as i64)) as i32)
        } else {
            None
        }
    } else if q <= 0x7fff_ffff {
        Some(q as i32)
    } else {
        None
    }
}

/// Approximate SWIDTH based on DWIDTH and the font metadata.
///
/// Returns `None` where the point size or a resolution is zero, or where
/// the result cannot be represented.
pub fn calculate_swidth(device_width: Coord, metadata: &Metadata) -> (r: Option<Coord>)
    ensures
        r == approximate_swidth(device_width, metadata.point_size, metadata.resolution),
{
    if metadata.point_size == 0 || metadata.resolution.x == 0 || metadata.resolution.y == 0 {
        return None;
    }
    let x = scale_width(device_width.x, metadata.point_size, metadata.resolution.x);
    let y = scale_width(device_width.y, metadata.point_size, metadata.resolution.y);
    match (x, y) {
        (Some(x), Some(y)) => Some(Coord::new(x, y)),
        _ => None,
    }
}

/// The hexadecimal digits.
pub open spec fn is_hex_digit(c: char) -> bool {
    let u = c as u32;
    0x30 <= u <= 0x39 || 0x41 <= u <= 0x46 || 0x61 <= u <= 0x66
}

/// Value of a hexadecimal digit.
pub open spec fn hex_digit_value(c: char) -> int {
    let u = c as u32;
    if u <= 0x39 {
        u - 0x30
    } else if u <= 0x46 {
        u - 0x41 + 10
    } else {
        u - 0x61 + 10
    }
}

/// Every character is a hexadecimal digit.
pub open spec fn all_hex_digits(s: Seq<char>) -> bool {
    forall|i: int| 0 <= i < s.len() ==> is_hex_digit(#[trigger] s[i])
}

/// The bytes that pairs of hexadecimal digits denote.
pub open spec fn hex_bytes(s: Seq<char>) -> Seq<u8>
    decreases s.len(),
{
    if s.len() < 2 {
        Seq::empty()
    } else {
        seq![(16 * hex_digit_value(s[0]) + hex_digit_value(s[1])) as u8] + hex_bytes(s.skip(2))
    }
}

/// The bytes of one row of a bitmap: the line must be an even number of
/// hexadecimal digits and nothing else.
pub open spec fn bitmap_row(line: LineView) -> Option<Seq<u8>> {
    if line.parameters.len() == 0 && line.keyword.len() % 2 == 0 && all_hex_digits(line.keyword) {
        Some(hex_bytes(line.keyword))
    } else {
        None
    }
}

/// What has been read of the header of a glyph so far.
pub struct GlyphState {
    pub encoding: Encoding,
    pub swidth: Option<Coord>,
    pub dwidth: Option<Coord>,
    pub swidth1: Option<Coord>,
    pub dwidth1: Option<Coord>,
    pub bounding_box: BoundingBox,
    pub vvector: Option<Coord>,
}

/// The state before the first line of the header of a glyph.
pub open spec fn glyph_start() -> GlyphState {
    GlyphState {
        encoding: Encoding::Unspecified,
        swidth: None,
        dwidth: None,
        swidth1: None,
        dwidth1: None,
        bounding_box: BoundingBox { offset: Coord { x: 0, y: 0 }, size: Coord { x: 0, y: 0 } },
        vvector: None,
    }
}

/// The encoding that an `ENCODING` line denotes. One integer that is not
/// negative is a standard encoding, one negative integer leaves the encoding
/// unspecified, a negative integer followed by one that is not negative is a
/// non standard encoding, and everything else is refused.
pub open spec fn encoding_of(line: LineView) -> Option<Encoding> {
    match line.integer_parameters(2) {
        Some(v) => if v[0] >= 0 || v[1] < 0 {
            None
        } else {
            Some(Encoding::NonStandard(v[1] as u32))
        },
        None => match line.integer_parameters(1) {
            Some(v) => if v[0] >= 0 {
                Some(Encoding::Standard(v[0] as u32))
            } else {
                Some(Encoding::Unspecified)
            },
            None => None,
        },
    }
}

/// The state after a line of the header of a glyph, or the error for a line
/// that is malformed or has an unknown keyword.
pub open spec fn glyph_field(state: GlyphState, line: LineView) -> Result<
    GlyphState,
    ParserErrorView,
> {
    if line.keyword == "ENCODING"@ {
        match encoding_of(line) {
            Some(encoding) => Ok(GlyphState { encoding, ..state }),
            None => Err(error_in("invalid \"ENCODING\""@, line)),
        }
    } else if line.keyword == "SWIDTH"@ {
        match Coord::parse_spec(line) {
            Some(c) => Ok(GlyphState { swidth: Some(c), ..state }),
            None => Err(error_in("invalid \"SWIDTH\""@, line)),
        }
    } else if line.keyword == "DWIDTH"@ {
        match Coord::parse_spec(line) {
            Some(c) => Ok(GlyphState { dwidth: Some(c), ..state }),
            None => Err(error_in("invalid \"DWIDTH\""@, line)),
        }
    } else if line.keyword == "SWIDTH1"@ {
        match Coord::parse_spec(line) {
            Some(c) => Ok(GlyphState { swidth1: Some(c), ..state }),
            None => Err(error_in("invalid \"SWIDTH1\""@, line)),
        }
    } else if line.keyword == "DWIDTH1"@ {
        match Coord::parse_spec(line) {
            Some(c) => Ok(GlyphState { dwidth1: Some(c), ..state }),
            None => Err(error_in("invalid \"DWIDTH1\""@, line)),
        }
    } else if line.keyword == "BBX"@ {
        match BoundingBox::parse_spec(line) {
            Some(b) => Ok(GlyphState { bounding_box: b, ..state }),
            None => Err(error_in("invalid \"BBX\""@, line)),
        }
    } else if line.keyword == "VVECTOR"@ {
        match Coord::parse_spec(line) {
            Some(c) => Ok(GlyphState { vvector: Some(c), ..state }),
            None => Err(error_in("invalid \"VVECTOR\""@, line)),
        }
    } else {
        Err(error_in("unknown keyword in glyphs: \""@ + line.keyword + "\""@, line))
    }
}

/// The state after the header of a glyph, which ends behind the line
/// `BITMAP` or at the end of the input.
pub open spec fn glyph_header(lines: Seq<LineView>, state: GlyphState) -> Parsed<GlyphState>
    decreases lines.len(),
{
    if lines.len() == 0 {
        Parsed { result: Ok(state), rest: lines }
    } else if lines[0].keyword == "BITMAP"@ {
        Parsed { result: Ok(state), rest: lines.skip(1) }
    } else {
        match glyph_field(state, lines[0]) {
            Ok(next) => glyph_header(lines.skip(1), next),
            Err(e) => Parsed { result: Err(e), rest: lines.skip(1) },
        }
    }
}

/// The bitmap after the rows of hexadecimal digits, which end behind the
/// line `ENDCHAR` or at the end of the input.
pub open spec fn glyph_bitmap(lines: Seq<LineView>, bitmap: Seq<u8>) -> Parsed<Seq<u8>>
    decreases lines.len(),
{
    if lines.len() == 0 {
        Parsed { result: Ok(bitmap), rest: lines }
    } else if lines[0].keyword == "ENDCHAR"@ {
        Parsed { result: Ok(bitmap), rest: lines.skip(1) }
    } else {
        match bitmap_row(lines[0]) {
            Some(bytes) => glyph_bitmap(lines.skip(1), bitmap + bytes),
            None => Parsed {
                result: Err(error_in("invalid hex data in BITMAP"@, lines[0])),
                rest: lines.skip(1),
            },
        }
    }
}

/// The width of a glyph in one writing direction. Without a scalable and a
/// device width there is none. A device width is required then, and a
/// missing scalable width is approximated from it.
pub open spec fn glyph_width(
    scalable: Option<Coord>,
    device: Option<Coord>,
    missing: Seq<char>,
    start: LineView,
    point_size: i32,
    resolution: Coord,
) -> Result<Option<GlyphWidth>, ParserErrorView> {
    if scalable.is_none() && device.is_none() {
        Ok(None)
    } else if device.is_none() {
        Err(error_in(missing, start))
    } else if scalable.is_some() {
        Ok(Some(GlyphWidth { scalable: scalable.unwrap(), device: device.unwrap() }))
    } else {
        match approximate_swidth(device.unwrap(), point_size, resolution) {
            Some(approximation) => Ok(
                Some(GlyphWidth { scalable: approximation, device: device.unwrap() }),
            ),
            None => Err(error_in("cannot approximate the scalable width"@, start)),
        }
    }
}

/// The glyph that a header and a bitmap make, or the error in its widths.
pub open spec fn glyph_finish(
    start: LineView,
    state: GlyphState,
    bitmap: Seq<u8>,
    point_size: i32,
    resolution: Coord,
) -> Result<GlyphView, ParserErrorView> {
    match glyph_width(
        state.swidth,
        state.dwidth,
        "missing \"DWIDTH\""@,
        start,
        point_size,
        resolution,
    ) {
        Err(e) => Err(e),
        Ok(width_horizontal) => match glyph_width(
            state.swidth1,
            state.dwidth1,
            "missing \"DWIDTH1\""@,
            start,
            point_size,
            resolution,
        ) {
            Err(e) => Err(e),
            Ok(width_vertical) => Ok(
                GlyphView {
                    name: start.parameters,
                    encoding: state.encoding,
                    width_horizontal,
                    width_vertical,
                    bounding_box: state.bounding_box,
                    origin_offset: state.vvector,
                    bitmap,
                },
            ),
        },
    }
}

/// The glyph that starts with the first of the lines, which is its line
/// `STARTCHAR`, and the lines behind the glyph.
pub open spec fn parse_glyph(lines: Seq<LineView>, point_size: i32, resolution: Coord) -> Parsed<
    GlyphView,
> {
    let header = glyph_header(lines.skip(1), glyph_start());
    match header.result {
        Err(e) => Parsed { result: Err(e), rest: header.rest },
        Ok(state) => {
            let rows = glyph_bitmap(header.rest, Seq::empty());
            match rows.result {
                Err(e) => Parsed { result: Err(e), rest: rows.rest },
                Ok(bitmap) => Parsed {
                    result: glyph_finish(lines[0], state, bitmap, point_size, resolution),
                    rest: rows.rest,
                },
            }
        },
    }
}

/// The glyphs of a font. `CHARS` lines are passed over, each `STARTCHAR`
/// line opens a glyph, and the list ends behind the line `ENDFONT` or at the
/// end of the input.
pub open spec fn glyph_list(
    lines: Seq<LineView>,
    glyphs: Seq<GlyphView>,
    point_size: i32,
    resolution: Coord,
) -> Parsed<Seq<GlyphView>>
    decreases lines.len(),
{
    if lines.len() == 0 {
        Parsed { result: Ok(glyphs), rest: lines }
    } else if lines[0].keyword == "CHARS"@ {
        glyph_list(lines.skip(1), glyphs, point_size, resolution)
    } else if lines[0].keyword == "STARTCHAR"@ {
        let glyph = parse_glyph(lines, point_size, resolution);
        match glyph.result {
            Ok(g) => if glyph.rest.len() < lines.len() {
                glyph_list(glyph.rest, glyphs.push(g), point_size, resolution)
            } else {
                Parsed { result: Ok(glyphs), rest: glyph.rest }
            },
            Err(e) => Parsed { result: Err(e), rest: glyph.rest },
        }
    } else if lines[0].keyword == "ENDFONT"@ {
        Parsed { result: Ok(glyphs), rest: lines.skip(1) }
    } else {
        Parsed {
            result: Err(error_in("unknown keyword: \""@ + lines[0].keyword + "\""@, lines[0])),
            rest: lines.skip(1),
        }
    }
}

/// Index of the first glyph at or behind `from` with the given encoding, or
/// the number of glyphs.
pub open spec fn first_with_encoding(glyphs: Seq<GlyphView>, encoding: Encoding, from: int) -> int
    decreases glyphs.len() - from,
{
    if 0 <= from < glyphs.len() && glyphs[from].encoding != encoding {
        first_with_encoding(glyphs, encoding, from + 1)
    } else {
        from
    }
}

/// The header of a glyph leaves no more lines than it was given.
pub proof fn lemma_glyph_header_rest(lines: Seq<LineView>, state: GlyphState)
    ensures
        glyph_header(lines, state).rest.len() <= lines.len(),
    decreases lines.len(),
{
    if lines.len() > 0 && lines[0].keyword != "BITMAP"@ {
        match glyph_field(state, lines[0]) {
            Ok(next) => {
                lemma_glyph_header_rest(lines.skip(1), next);
            },
            Err(_) => {},
        }
    }
}

/// The rows of a bitmap leave no more lines than they were given.
pub proof fn lemma_glyph_bitmap_rest(lines: Seq<LineView>, bitmap: Seq<u8>)
    ensures
        glyph_bitmap(lines, bitmap).rest.len() <= lines.len(),
    decreases lines.len(),
{
    if lines.len() > 0 && lines[0].keyword != "ENDCHAR"@ {
        match bitmap_row(lines[0]) {
            Some(bytes) => {
                lemma_glyph_bitmap_rest(lines.skip(1), bitmap + bytes);
            },
            None => {},
        }
    }
}

/// A glyph takes at least its first line.
pub proof fn lemma_parse_glyph_rest(lines: Seq<LineView>, point_size: i32, resolution: Coord)
    requires
        lines.len() > 0,
    ensures
        parse_glyph(lines, point_size, resolution).rest.len() < lines.len(),
{
    lemma_glyph_header_rest(lines.skip(1), glyph_start());
    let header = glyph_header(lines.skip(1), glyph_start());
    lemma_glyph_bitmap_rest(header.rest, Seq::empty());
}

/// The fields of the header of a glyph while they are read.
#[derive(Clone, Copy)]
struct GlyphFields {
    encoding: Encoding,
    swidth: Option<Coord>,
    dwidth: Option<Coord>,
    swidth1: Option<Coord>,
    dwidth1: Option<Coord>,
    bounding_box: BoundingBox,
    vvector: Option<Coord>,
}

impl View for GlyphFields {
    type V = GlyphState;

    closed spec fn view(&self) -> GlyphState {
        GlyphState {
            encoding: self.encoding,
            swidth: self.swidth,
            dwidth: self.dwidth,
            swidth1: self.swidth1,
            dwidth1: self.dwidth1,
            bounding_box: self.bounding_box,
            vvector: self.vvector,
        }
    }
}

/// Reads the encoding from an `ENCODING` line.
pub fn parse_encoding(line: &Line) -> (r: Option<Encoding>)
    ensures
        r == encoding_of(line@),
{
    match line.parse_integer_parameters::<2>() {
        Some(v) => {
            if v[0] >= 0 || v[1] < 0 {
                None
            } else {
                Some(Encoding::NonStandard(v[1] as u32))
            }
        },
        None => match line.parse_integer_parameters::<1>() {
            Some(v) => {
                if v[0] >= 0 {
                    Some(Encoding::Standard(v[0] as u32))
                } else {
                    Some(Encoding::Unspecified)
                }
            },
            None => None,
        },
    }
}

/// Reads a coordinate, or gives the error with the given message.
fn coord_or(line: &Line, message: &str) -> (r: Result<Coord, ParserError>)
    ensures
        match r {
            Ok(c) => Coord::parse_spec(line@) == Some(c),
            Err(e) => Coord::parse_spec(line@).is_none() && e@ == error_in(message@, line@),
        },
{
    match Coord::parse(line) {
        Some(c) => Ok(c),
        None => Err(ParserError::with_line(message, line)),
    }
}

/// Applies a line of the header of a glyph.
fn read_glyph_field(state: GlyphFields, line: &Line) -> (r: Result<GlyphFields, ParserError>)
    ensures
        match r {
            Ok(next) => glyph_field(state@, line@) == Ok::<_, ParserErrorView>(next@),
            Err(e) => glyph_field(state@, line@) == Err::<GlyphState, _>(e@),
        },
{
    let mut state = state;
    if line.keyword.as_str().eq("ENCODING") {
        match parse_encoding(line) {
            Some(encoding) => {
                state.encoding = encoding;
                Ok(state)
            },
            None => Err(ParserError::with_line("invalid \"ENCODING\"", line)),
        }
    } else if line.keyword.as_str().eq("SWIDTH") {
        match coord_or(line, "invalid \"SWIDTH\"") {
            Ok(c) => {
                state.swidth = Some(c);
                Ok(state)
            },
            Err(e) => Err(e),
        }
    } else if line.keyword.as_str().eq("DWIDTH") {
        match coord_or(line, "invalid \"DWIDTH\"") {
            Ok(c) => {
                state.dwidth = Some(c);
                Ok(state)
            },
            Err(e) => Err(e),
        }
    } else if line.keyword.as_str().eq("SWIDTH1") {
        match coord_or(line, "invalid \"SWIDTH1\"") {
            Ok(c) => {
                state.swidth1 = Some(c);
                Ok(state)
            },
            Err(e) => Err(e),
        }
    } else if line.keyword.as_str().eq("DWIDTH1") {
        match coord_or(line, "invalid \"DWIDTH1\"") {
            Ok(c) => {
                state.dwidth1 = Some(c);
                Ok(state)
            },
            Err(e) => Err(e),
        }
    } else if line.keyword.as_str().eq("BBX") {
        match BoundingBox::parse(line) {
            Some(b) => {
                state.bounding_box = b;
                Ok(state)
            },
            None => Err(ParserError::with_line("invalid \"BBX\"", line)),
        }
    } else if line.keyword.as_str().eq("VVECTOR") {
        match coord_or(line, "invalid \"VVECTOR\"") {
            Ok(c) => {
                state.vvector = Some(c);
                Ok(state)
            },
            Err(e) => Err(e),
        }
    } else {
        let message = quote_keyword("unknown keyword in glyphs: \"", line.keyword.as_str());
        Err(ParserError::with_line(message.as_str(), line))
    }
}

/// Reads the value of a hexadecimal digit.
fn hex_digit(c: char) -> (r: Option<u8>)
    ensures
        r.is_some() == is_hex_digit(c),
        r.is_some() ==> r.unwrap() == hex_digit_value(c),
{
    let u: u32 = c as u32;
    if 0x30 <= u && u <= 0x39 {
        Some((u - 0x30) as u8)
    } else if 0x41 <= u && u <= 0x46 {
        Some((u - 0x41 + 10) as u8)
    } else if 0x61 <= u && u <= 0x66 {
        Some((u - 0x61 + 10) as u8)
    } else {
        None
    }
}

/// Appends the bytes of one row of hexadecimal digits to a bitmap. On an
/// error the bitmap is left as it was.
pub fn parse_bitmap_row(line: &Line, bitmap: &mut Vec<u8>) -> (r: Result<(), ()>)
    ensures
        match r {
            Ok(_) => bitmap_row(line@).is_some() && final(bitmap)@ == old(bitmap)@ + bitmap_row(
                line@,
            ).unwrap(),
            Err(_) => bitmap_row(line@).is_none() && final(bitmap)@ == old(bitmap)@,
        },
{
    if !line.parameters.as_str().is_empty() {
        return Err(());
    }
    let digits = to_chars(line.keyword.as_str());
    let n = digits.len();
    if n % 2 != 0 {
        return Err(());
    }
    let mut row: Vec<u8> = Vec::new();
    let mut i: usize = 0;
    proof {
        assert(digits@.skip(0) == digits@);
        assert(row@ + hex_bytes(digits@) == hex_bytes(digits@));
    }
    while i < n
        invariant
            i <= n,
            n == digits.len(),
            n % 2 == 0,
            i % 2 == 0,
            bitmap@ == old(bitmap)@,
            digits@ == line.keyword@,
            line.parameters@.len() == 0,
            forall|j: int| 0 <= j < i ==> is_hex_digit(#[trigger] digits@[j]),
            row@ + hex_bytes(digits@.skip(i as int)) == hex_bytes(digits@),
        decreases n - i,
    {
        let ghost tail = digits@.skip(i as int);
        assert(tail[0] == digits@[i as int] && tail[1] == digits@[i + 1]);
        let high = match hex_digit(digits[i]) {
            Some(v) => v,
            None => {
                assert(!is_hex_digit(line.keyword@[i as int]));
                return Err(());
            },
        };
        let low = match hex_digit(digits[i + 1]) {
            Some(v) => v,
            None => {
                assert(!is_hex_digit(line.keyword@[i + 1]));
                return Err(());
            },
        };
        proof {
            assert(tail.skip(2) == digits@.skip(i + 2));
            assert(row@.push((16 * high + low) as u8) + hex_bytes(tail.skip(2)) == row@ + (
            seq![(16 * high + low) as u8] + hex_bytes(tail.skip(2))));
        }
        row.push(16 * high + low);
        i += 2;
    }
    proof {
        assert(digits@.skip(n as int).len() == 0);
        assert(row@ + Seq::<u8>::empty() == row@);
    }
    bitmap.append(&mut row);
    Ok(())
}

/// Reads the header of a glyph.
fn read_glyph_header(lines: &mut Lines) -> (r: Result<GlyphFields, ParserError>)
    ensures
        !final(lines).has_backtrack(),
        final(lines).remaining() == glyph_header(old(lines).remaining(), glyph_start()).rest,
        match r {
            Ok(state) => glyph_header(old(lines).remaining(), glyph_start()).result == Ok::<
                _,
                ParserErrorView,
            >(state@),
            Err(e) => glyph_header(old(lines).remaining(), glyph_start()).result == Err::<
                GlyphState,
                _,
            >(e@),
        },
{
    let mut state = GlyphFields {
        encoding: Encoding::Unspecified,
        swidth: None,
        dwidth: None,
        swidth1: None,
        dwidth1: None,
        bounding_box: BoundingBox { offset: Coord::new(0, 0), size: Coord::new(0, 0) },
        vvector: None,
    };
    loop
        invariant
            glyph_header(lines.remaining(), state@) == glyph_header(
                old(lines).remaining(),
                glyph_start(),
            ),
        decreases lines.remaining().len(),
    {
        let ghost before = lines.remaining();
        let line = match lines.next() {
            Some(line) => line,
            None => {
                proof {
                    assert(lines.remaining() =~= before);
                }
                return Ok(state);
            },
        };
        if line.keyword.as_str().eq("BITMAP") {
            return Ok(state);
        }
        match read_glyph_field(state, &line) {
            Ok(next) => {
                state = next;
            },
            Err(e) => {
                return Err(e);
            },
        }
    }
}

/// Reads the rows of a bitmap.
fn read_glyph_bitmap(lines: &mut Lines) -> (r: Result<Vec<u8>, ParserError>)
    ensures
        !final(lines).has_backtrack(),
        final(lines).remaining() == glyph_bitmap(old(lines).remaining(), Seq::empty()).rest,
        match r {
            Ok(bitmap) => glyph_bitmap(old(lines).remaining(), Seq::empty()).result == Ok::<
                _,
                ParserErrorView,
            >(bitmap@),
            Err(e) => glyph_bitmap(old(lines).remaining(), Seq::empty()).result == Err::<
                Seq<u8>,
                _,
            >(e@),
        },
{
    let mut bitmap: Vec<u8> = Vec::new();
    loop
        invariant
            glyph_bitmap(lines.remaining(), bitmap@) == glyph_bitmap(
                old(lines).remaining(),
                Seq::empty(),
            ),
        decreases lines.remaining().len(),
    {
        let ghost before = lines.remaining();
        let line = match lines.next() {
            Some(line) => line,
            None => {
                proof {
                    assert(lines.remaining() =~= before);
                }
                return Ok(bitmap);
            },
        };
        if line.keyword.as_str().eq("ENDCHAR") {
            return Ok(bitmap);
        }
        match parse_bitmap_row(&line, &mut bitmap) {
            Ok(_) => {},
            Err(_) => {
                return Err(ParserError::with_line("invalid hex data in BITMAP", &line));
            },
        }
    }
}

/// Puts the width of a glyph in one writing direction together.
fn make_width(
    scalable: Option<Coord>,
    device: Option<Coord>,
    missing: &str,
    start: &Line,
    metadata: &Metadata,
) -> (r: Result<Option<GlyphWidth>, ParserError>)
    ensures
        match r {
            Ok(width) => glyph_width(
                scalable,
                device,
                missing@,
                start@,
                metadata.point_size,
                metadata.resolution,
            ) == Ok::<_, ParserErrorView>(width),
            Err(e) => glyph_width(
                scalable,
                device,
                missing@,
                start@,
                metadata.point_size,
                metadata.resolution,
            ) == Err::<Option<GlyphWidth>, _>(e@),
        },
{
    if scalable.is_none() && device.is_none() {
        return Ok(None);
    }
    let device = match device {
        Some(device) => device,
        None => {
            return Err(ParserError::with_line(missing, start));
        },
    };
    // According to the specs SWIDTH is required, but there are BDF
    // files which are missing this value. The parser will try to
    // approximate the value in this case.
    let scalable = match scalable {
        Some(scalable) => scalable,
        None => match calculate_swidth(device, metadata) {
            Some(approximation) => approximation,
            None => {
                return Err(
                    ParserError::with_line("cannot approximate the scalable width", start),
                );
            },
        },
    };
    Ok(Some(GlyphWidth { scalable, device }))
}

impl Glyph {
    /// Reads one glyph: its line `STARTCHAR`, which must be the next line,
    /// its header and its bitmap.
    pub fn parse(lines: &mut Lines, metadata: &Metadata) -> (r: Result<Self, ParserError>)
        requires
            old(lines).remaining().len() > 0,
            old(lines).remaining()[0].keyword == "STARTCHAR"@,
        ensures
            !final(lines).has_backtrack(),
            final(lines).remaining() == parse_glyph(
                old(lines).remaining(),
                metadata.point_size,
                metadata.resolution,
            ).rest,
            match r {
                Ok(glyph) => parse_glyph(
                    old(lines).remaining(),
                    metadata.point_size,
                    metadata.resolution,
                ).result == Ok::<_, ParserErrorView>(glyph@),
                Err(e) => parse_glyph(
                    old(lines).remaining(),
                    metadata.point_size,
                    metadata.resolution,
                ).result == Err::<GlyphView, _>(e@),
            },
    {
        let start = lines.next().unwrap();
        let state = match read_glyph_header(lines) {
            Ok(state) => state,
            Err(e) => {
                return Err(e);
            },
        };
        let bitmap = match read_glyph_bitmap(lines) {
            Ok(bitmap) => bitmap,
            Err(e) => {
                return Err(e);
            },
        };
        let width_horizontal = match make_width(
            state.swidth,
            state.dwidth,
            "missing \"DWIDTH\"",
            &start,
            metadata,
        ) {
            Ok(width) => width,
            Err(e) => {
                return Err(e);
            },
        };
        let width_vertical = match make_width(
            state.swidth1,
            state.dwidth1,
            "missing \"DWIDTH1\"",
            &start,
            metadata,
        ) {
            Ok(width) => width,
            Err(e) => {
                return Err(e);
            },
        };
        Ok(
            Glyph {
                name: start.parameters,
                encoding: state.encoding,
                width_horizontal,
                width_vertical,
                bounding_box: state.bounding_box,
                bitmap,
                origin_offset: state.vvector,
            },
        )
    }

    /// Returns a pixel from the bitmap.
    ///
    /// This method doesn't use the BDF coordinate system. The coordinates are relative to the
    /// top left corner of the bounding box and don't take the offset into account. Y coordinates
    /// increase downwards.
    ///
    /// Returns `None` if the coordinates are outside the bitmap. The width of
    /// the bounding box must not be negative.
    pub fn pixel(&self, x: usize, y: usize) -> (r: Option<bool>)
        requires
            self.bounding_box.size.x >= 0,
        ensures
            r == self@.pixel(x as int, y as int),
    {
        let width: usize = self.bounding_box.size.x as usize;
        if x >= width {
            return None;
        }
        let bytes_per_row: usize = (width + 7) / 8;
        let byte_offset: usize = x / 8;
        let len: usize = self.bitmap.len();
        assert(bytes_per_row * y >= y && bytes_per_row * y <= 0x1000_0000 * y) by (nonlinear_arith)
            requires
                1 <= bytes_per_row <= 0x1000_0000,
                0 <= y,
        ;
        if y >= len {
            return None;
        }
        let index: u128 = byte_offset as u128 + bytes_per_row as u128 * y as u128;
        if index >= len as u128 {
            return None;
        }
        Some(self.bitmap[index as usize] & (0x80u8 >> ((x % 8) as u8)) != 0)
    }

    /// Tests whether the bitmap holds every pixel of the bounding box.
    pub fn has_all_pixels(&self) -> (b: bool)
        ensures
            b == self@.has_all_pixels(),
    {
        if self.bounding_box.size.x < 0 || self.bounding_box.size.y < 0 {
            return false;
        }
        let width: u128 = self.bounding_box.size.x as u128;
        let height: u128 = self.bounding_box.size.y as u128;
        assert(((width + 7) / 8) * height <= 0x1000_0000 * 0x8000_0000) by (nonlinear_arith)
            requires
                0 <= width < 0x8000_0000,
                0 <= height < 0x8000_0000,
        ;
        width == 0 || height == 0 || ((width + 7) / 8) * height <= self.bitmap.len() as u128
    }

    /// Tests whether the bitmap holds every pixel of the bounding box and
    /// their number is one that [`Glyph::pixels`] can return.
    pub fn is_complete(&self) -> (b: bool)
        ensures
            b == (self@.has_all_pixels() && self@.width() * self@.height() <= usize::MAX),
    {
        if self.bounding_box.size.x < 0 || self.bounding_box.size.y < 0 {
            return false;
        }
        let width: u128 = self.bounding_box.size.x as u128;
        let height: u128 = self.bounding_box.size.y as u128;
        assert(width * height <= 0x8000_0000 * 0x8000_0000 && ((width + 7) / 8) * height
            <= 0x1000_0000 * 0x8000_0000) by (nonlinear_arith)
            requires
                0 <= width < 0x8000_0000,
                0 <= height < 0x8000_0000,
        ;
        if width * height > usize::MAX as u128 {
            return false;
        }
        if width == 0 || height == 0 {
            return true;
        }
        ((width + 7) / 8) * height <= self.bitmap.len() as u128
    }

    /// Returns the pixels in the glyph bitmap.
    ///
    /// The sequence starts at the top left corner of the bounding box and ends at the bottom
    /// right corner. The bitmap must hold every pixel of the bounding box.
    pub fn pixels(&self) -> (r: Vec<bool>)
        requires
            self@.has_all_pixels(),
            self@.width() * self@.height() <= usize::MAX,
        ensures
            r@ == self@.pixels(),
    {
        let width: usize = self.bounding_box.size.x as usize;
        let height: usize = self.bounding_box.size.y as usize;
        let mut pixels: Vec<bool> = Vec::new();
        let mut y: usize = 0;
        while y < height
            invariant
                y <= height,
                width == self@.width(),
                height == self@.height(),
                self@.has_all_pixels(),
                width * height <= usize::MAX,
                pixels@.len() == y * width,
                forall|i: int|
                    0 <= i < pixels@.len() ==> self@.pixel(i % (width as int), i / (width as int))
                        == Some(#[trigger] pixels@[i]),
            decreases height - y,
        {
            let mut x: usize = 0;
            while x < width
                invariant
                    x <= width,
                    y < height,
                    width == self@.width(),
                    height == self@.height(),
                    self@.has_all_pixels(),
                    width * height <= usize::MAX,
                    pixels@.len() == y * width + x,
                    forall|i: int|
                        0 <= i < pixels@.len() ==> self@.pixel(
                            i % (width as int),
                            i / (width as int),
                        ) == Some(#[trigger] pixels@[i]),
                decreases width - x,
            {
                proof {
                    lemma_pixel_position(x as int, y as int, width as int, height as int);
                    lemma_complete_pixel(self@, x as int, y as int);
                }
                let pixel = self.pixel(x, y).unwrap();
                pixels.push(pixel);
                x += 1;
            }
            assert((y + 1) * width == y * width + width) by (nonlinear_arith);
            y += 1;
        }
        assert(height * width == width * height) by (nonlinear_arith);
        assert(pixels@ =~= self@.pixels());
        pixels
    }
}

/// Column `x` of row `y` is at position `y * width + x` of the rows laid end
/// to end.
pub proof fn lemma_pixel_position(x: int, y: int, width: int, height: int)
    requires
        0 <= x < width,
        0 <= y < height,
    ensures
        0 <= y * width + x < width * height,
        (y * width + x) % width == x,
        (y * width + x) / width == y,
{
    assert(0 <= y * width + x < width * height) by (nonlinear_arith)
        requires
            0 <= x < width,
            0 <= y < height,
    ;
    vstd::arithmetic::div_mod::lemma_fundamental_div_mod_converse(y * width + x, width, y, x);
}

/// A glyph whose bitmap holds every pixel of its bounding box has a
/// pixel at each position of the box.
pub proof fn lemma_complete_pixel(glyph: GlyphView, x: int, y: int)
    requires
        glyph.has_all_pixels(),
        0 <= x < glyph.width(),
        0 <= y < glyph.height(),
    ensures
        glyph.pixel(x, y).is_some(),
{
    let rows = glyph.bytes_per_row();
    assert(x / 8 < rows);
    assert(rows * y + rows <= rows * glyph.height()) by (nonlinear_arith)
        requires
            0 <= y < glyph.height(),
            0 <= rows,
    ;
}

/// Outside the width of the bounding box, and in rows behind the end of the
/// bitmap, a glyph has no pixel; everywhere else it has one.
pub proof fn lemma_pixel_bounds(glyph: GlyphView, x: int, y: int)
    requires
        glyph.width() >= 0,
        0 <= x,
        0 <= y,
    ensures
        x >= glyph.width() ==> glyph.pixel(x, y).is_none(),
        glyph.bytes_per_row() * y >= glyph.bitmap.len() ==> glyph.pixel(x, y).is_none(),
        x < glyph.width() && glyph.bytes_per_row() * (y + 1) <= glyph.bitmap.len()
            ==> glyph.pixel(x, y).is_some(),
{
    let rows = glyph.bytes_per_row();
    if x < glyph.width() {
        assert(x / 8 < rows);
        assert(rows * (y + 1) == rows * y + rows) by (nonlinear_arith);
    }
}

/// Glyphs collection.
#[derive(Debug, Clone, PartialEq)]
pub struct Glyphs {
    glyphs: Vec<Glyph>,
}

/// The mathematical values of a list of glyphs.
pub open spec fn glyph_views(glyphs: Seq<Glyph>) -> Seq<GlyphView> {
    glyphs.map_values(|g: Glyph| g@)
}

impl View for Glyphs {
    type V = Seq<GlyphView>;

    closed spec fn view(&self) -> Seq<GlyphView> {
        glyph_views(self.glyphs@)
    }
}

impl Glyphs {
    /// Creates a collection of the given glyphs, in their order.
    pub fn new(glyphs: Vec<Glyph>) -> (r: Self)
        ensures
            r@ == glyph_views(glyphs@),
    {
        Self { glyphs }
    }

    /// Reads the glyphs of a font: all lines up to the line `ENDFONT` or up
    /// to the end of the input.
    pub fn parse(lines: &mut Lines, metadata: &Metadata) -> (r: Result<Self, ParserError>)
        ensures
            final(lines).remaining() == glyph_list(
                old(lines).remaining(),
                Seq::empty(),
                metadata.point_size,
                metadata.resolution,
            ).rest,
            match r {
                Ok(glyphs) => glyph_list(
                    old(lines).remaining(),
                    Seq::empty(),
                    metadata.point_size,
                    metadata.resolution,
                ).result == Ok::<_, ParserErrorView>(glyphs@),
                Err(e) => glyph_list(
                    old(lines).remaining(),
                    Seq::empty(),
                    metadata.point_size,
                    metadata.resolution,
                ).result == Err::<Seq<GlyphView>, _>(e@),
            },
    {
        let mut glyphs: Vec<Glyph> = Vec::new();
        proof {
            assert(glyph_views(glyphs@) =~= Seq::<GlyphView>::empty());
        }
        loop
            invariant
                glyph_list(
                    lines.remaining(),
                    glyph_views(glyphs@),
                    metadata.point_size,
                    metadata.resolution,
                ) == glyph_list(
                    old(lines).remaining(),
                    Seq::empty(),
                    metadata.point_size,
                    metadata.resolution,
                ),
            decreases lines.remaining().len(),
        {
            let ghost before = lines.remaining();
            let line = match lines.next() {
                Some(line) => line,
                None => {
                    proof {
                        assert(lines.remaining() =~= before);
                    }
                    return Ok(Self { glyphs });
                },
            };
            if line.keyword.as_str().eq("CHARS") {
            } else if line.keyword.as_str().eq("STARTCHAR") {
                lines.backtrack(line);
                proof {
                    assert(lines.remaining() == before);
                    lemma_parse_glyph_rest(before, metadata.point_size, metadata.resolution);
                }
                match Glyph::parse(lines, metadata) {
                    Ok(glyph) => {
                        proof {
                            assert(glyph_views(glyphs@.push(glyph)) =~= glyph_views(glyphs@).push(
                                glyph@,
                            ));
                        }
                        glyphs.push(glyph);
                    },
                    Err(e) => {
                        return Err(e);
                    },
                }
            } else if line.keyword.as_str().eq("ENDFONT") {
                return Ok(Self { glyphs });
            } else {
                let message = quote_keyword("unknown keyword: \"", line.keyword.as_str());
                return Err(ParserError::with_line(message.as_str(), &line));
            }
        }
    }

    /// Gets a glyph by the encoding: the first glyph whose standard
    /// encoding is the code point of the character.
    pub fn get(&self, c: char) -> (r: Option<&Glyph>)
        ensures
            ({
                let i = first_with_encoding(self@, Encoding::Standard(c as u32), 0);
                match r {
                    Some(glyph) => i < self@.len() && glyph@ == self@[i],
                    None => i == self@.len(),
                }
            }),
    {
        let encoding = Encoding::Standard(c as u32);
        let mut i: usize = 0;
        while i < self.glyphs.len()
            invariant
                i <= self.glyphs.len(),
                encoding == Encoding::Standard(c as u32),
                first_with_encoding(self@, encoding, i as int) == first_with_encoding(
                    self@,
                    encoding,
                    0,
                ),
            decreases self.glyphs.len() - i,
        {
            if self.glyphs[i].encoding == encoding {
                return Some(&self.glyphs[i]);
            }
            i += 1;
        }
        None
    }

    /// Returns `true` if the collection contains the given character.
    pub fn contains(&self, c: char) -> (b: bool)
        ensures
            b == (first_with_encoding(self@, Encoding::Standard(c as u32), 0) < self@.len()),
    {
        self.get(c).is_some()
    }

    /// Returns all glyphs in the order of the file.
    pub fn iter(&self) -> (r: &Vec<Glyph>)
        ensures
            glyph_views(r@) == self@,
    {
        &self.glyphs
    }

    /// Returns the number of glyphs.
    pub fn len(&self) -> (n: usize)
        ensures
            n == self@.len(),
    {
        self.glyphs.len()
    }
}

} // verus!
