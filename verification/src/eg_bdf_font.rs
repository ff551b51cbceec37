//! Conversion of a font into one stream of bits: the pixels of all glyphs
//! end to end, and for each glyph the index at which its pixels begin.

use crate::bitbuf::{
    bit_at, bit_buffer_as_raw_slice, bit_buffer_extend, bit_buffer_len, bit_buffer_new,
    buffer_bits, lemma_read_packed_bit, max_bits, pack_bits, BitBuffer,
};
use crate::eg_bdf::glyph_pixel;
use crate::glyph::{lemma_complete_pixel, lemma_pixel_position};
use crate::chars::is_scalar;
use crate::converter::{ConvertError, ConvertErrorView, ConvertedFont, ConvertedFontView};
use crate::geometry::BoundingBox;
use crate::glyph::{glyph_views, Encoding, Glyph, GlyphView};
use vstd::prelude::*;

verus! {

/// A point of a drawing surface, whose vertical axis points downwards.
#[derive(Debug, Default, Clone, Copy, PartialEq, Eq, Structural, PartialOrd, Ord, Hash)]
pub struct Point {
    /// Horizontal coordinate.
    pub x: i32,
    /// Vertical coordinate.
    pub y: i32,
}

/// The size of an area of a drawing surface.
#[derive(Debug, Default, Clone, Copy, PartialEq, Eq, Structural, PartialOrd, Ord, Hash)]
pub struct Size {
    /// Width in pixels.
    pub width: u32,
    /// Height in pixels.
    pub height: u32,
}

/// A rectangle of a drawing surface.
#[derive(Debug, Default, Clone, Copy, PartialEq, Eq, Structural, PartialOrd, Ord, Hash)]
pub struct Rectangle {
    /// Top left corner.
    pub top_left: Point,
    /// Size.
    pub size: Size,
}

/// The bounding box can be drawn: its size is not negative and its top row
/// has a coordinate on a surface whose vertical axis points downwards.
pub open spec fn rectangle_fits(bounding_box: BoundingBox) -> bool {
    &&& bounding_box.has_size()
    &&& i32::MIN <= -bounding_box.offset.y - (bounding_box.size.y - 1) <= i32::MAX
}

/// The rectangle that a bounding box covers on a drawing surface whose
/// vertical axis points downwards.
pub open spec fn rectangle_of(bounding_box: BoundingBox) -> Rectangle {
    Rectangle {
        top_left: Point {
            x: bounding_box.offset.x,
            y: (-bounding_box.offset.y - (bounding_box.size.y - 1)) as i32,
        },
        size: Size { width: bounding_box.size.x as u32, height: bounding_box.size.y as u32 },
    }
}

/// Tests whether a bounding box can be drawn.
pub fn fits_rectangle(bounding_box: &BoundingBox) -> (b: bool)
    ensures
        b == rectangle_fits(*bounding_box),
{
    if bounding_box.size.x < 0 || bounding_box.size.y < 0 {
        return false;
    }
    let top: i64 = -(bounding_box.offset.y as i64) - (bounding_box.size.y as i64 - 1);
    -0x8000_0000 <= top && top <= 0x7fff_ffff
}

/// Converts a BDF bounding box into a rectangle of a drawing surface.
///
/// The bounding box must be one that can be drawn, which
/// [`fits_rectangle`] tests.
pub fn bounding_box_to_rectangle(bounding_box: &BoundingBox) -> (r: Rectangle)
    requires
        rectangle_fits(*bounding_box),
    ensures
        r == rectangle_of(*bounding_box),
{
    let top: i64 = -(bounding_box.offset.y as i64) - (bounding_box.size.y as i64 - 1);
    Rectangle {
        top_left: Point { x: bounding_box.offset.x, y: top as i32 },
        size: Size { width: bounding_box.size.x as u32, height: bounding_box.size.y as u32 },
    }
}

/// BDF glyph information.
#[derive(Debug, Clone, Copy, PartialEq, Eq, Structural, PartialOrd, Ord, Hash)]
pub struct BdfGlyph {
    /// The corresponding character.
    pub character: char,
    /// The glyph bounding box.
    pub bounding_box: Rectangle,
    /// The horizontal distance to the start point of the next glyph.
    pub device_width: u32,
    /// The start index in the bitmap data.
    pub start_index: usize,
}

/// The glyphs that have been packed, and their pixels end to end.
pub struct PackedGlyphs {
    pub glyphs: Seq<BdfGlyph>,
    pub bits: Seq<bool>,
}

/// What is packed after one more glyph. A glyph without a standard encoding
/// is passed over. Any other glyph must have a character as its encoding, a
/// bounding box that can be drawn, a horizontal device width that is not
/// negative, and all pixels of its bounding box; its pixels are appended.
pub open spec fn pack_glyph(packed: PackedGlyphs, glyph: GlyphView) -> Result<
    PackedGlyphs,
    ConvertErrorView,
> {
    match glyph.encoding {
        Encoding::Standard(index) => {
            let c = index as char;
            if !is_scalar(index as int) {
                Err(ConvertErrorView::InvalidCodePoint(index))
            } else if !rectangle_fits(glyph.bounding_box) {
                Err(ConvertErrorView::InvalidBoundingBox(Some(c)))
            } else if glyph.width_horizontal.is_none() || glyph.width_horizontal.unwrap().device.x
                < 0 {
                Err(ConvertErrorView::InvalidWidth(c))
            } else if !glyph.has_all_pixels() {
                Err(ConvertErrorView::IncompleteBitmap(c))
            } else if packed.bits.len() + glyph.width() * glyph.height() > max_bits() {
                Err(ConvertErrorView::TooLarge)
            } else {
                Ok(
                    PackedGlyphs {
                        glyphs: packed.glyphs.push(
                            BdfGlyph {
                                character: c,
                                bounding_box: rectangle_of(glyph.bounding_box),
                                device_width: glyph.width_horizontal.unwrap().device.x as u32,
                                start_index: packed.bits.len() as usize,
                            },
                        ),
                        bits: packed.bits + glyph.pixels(),
                    },
                )
            }
        },
        _ => Ok(packed),
    }
}

/// What is packed after a list of glyphs, or the error of the first glyph
/// that cannot be packed.
pub open spec fn pack_glyphs(glyphs: Seq<GlyphView>) -> Result<PackedGlyphs, ConvertErrorView>
    decreases glyphs.len(),
{
    if glyphs.len() == 0 {
        Ok(PackedGlyphs { glyphs: Seq::empty(), bits: Seq::empty() })
    } else {
        match pack_glyphs(glyphs.drop_last()) {
            Err(e) => Err(e),
            Ok(packed) => pack_glyph(packed, glyphs.last()),
        }
    }
}

/// The error for the glyphs up to some point is the error for all glyphs.
pub proof fn lemma_pack_glyphs_error(glyphs: Seq<GlyphView>, n: int)
    requires
        0 <= n <= glyphs.len(),
        pack_glyphs(glyphs.take(n)).is_err(),
    ensures
        pack_glyphs(glyphs) == pack_glyphs(glyphs.take(n)),
    decreases glyphs.len() - n,
{
    if n < glyphs.len() {
        assert(glyphs.take(n + 1).drop_last() == glyphs.take(n));
        lemma_pack_glyphs_error(glyphs, n + 1);
    } else {
        assert(glyphs.take(n) == glyphs);
    }
}

/// Number of the glyphs with a standard encoding among the first `n`
/// glyphs: the index at which the next such glyph stands in the table.
pub open spec fn packed_count(glyphs: Seq<GlyphView>, n: int) -> nat
    decreases n,
{
    if n <= 0 {
        0
    } else {
        packed_count(glyphs, n - 1) + (if glyphs[n - 1].encoding is Standard {
            1nat
        } else {
            0nat
        })
    }
}

/// What is packed after the first `n` glyphs is the beginning of what is
/// packed after all glyphs.
pub proof fn lemma_pack_glyphs_take(glyphs: Seq<GlyphView>, n: int)
    requires
        pack_glyphs(glyphs).is_ok(),
        0 <= n <= glyphs.len(),
    ensures
        pack_glyphs(glyphs.take(n)) matches Ok(p) && (pack_glyphs(glyphs) matches Ok(q) && ({
            &&& p.glyphs.len() == packed_count(glyphs, n)
            &&& p.glyphs.len() <= q.glyphs.len()
            &&& p.bits.len() <= q.bits.len() <= max_bits()
            &&& q.glyphs.take(p.glyphs.len() as int) == p.glyphs
            &&& q.bits.take(p.bits.len() as int) == p.bits
        })),
    decreases glyphs.len() - n,
{
    if n == glyphs.len() {
        assert(glyphs.take(n) == glyphs);
        lemma_pack_glyphs_count(glyphs);
        match pack_glyphs(glyphs) {
            Ok(q) => {
                assert(q.glyphs.take(q.glyphs.len() as int) == q.glyphs);
                assert(q.bits.take(q.bits.len() as int) == q.bits);
            },
            Err(_) => {},
        }
    } else {
        lemma_pack_glyphs_take(glyphs, n + 1);
        assert(glyphs.take(n + 1).drop_last() == glyphs.take(n));
        assert(glyphs.take(n + 1).last() == glyphs[n]);
        match (pack_glyphs(glyphs.take(n)), pack_glyphs(glyphs.take(n + 1)), pack_glyphs(glyphs)) {
            (Ok(p), Ok(longer), Ok(q)) => {
                assert(pack_glyph(p, glyphs[n]) == Ok::<_, ConvertErrorView>(longer));
                assert(q.glyphs.take(p.glyphs.len() as int) =~= p.glyphs) by {
                    assert forall|k: int| 0 <= k < p.glyphs.len() implies q.glyphs[k]
                        == p.glyphs[k] by {
                        assert(q.glyphs.take(longer.glyphs.len() as int)[k] == longer.glyphs[k]);
                    }
                }
                assert(q.bits.take(p.bits.len() as int) =~= p.bits) by {
                    assert forall|k: int| 0 <= k < p.bits.len() implies q.bits[k] == p.bits[k] by {
                        assert(q.bits.take(longer.bits.len() as int)[k] == longer.bits[k]);
                    }
                }
            },
            _ => {},
        }
    }
}

/// The table holds one entry for each glyph with a standard encoding, and
/// the bits are not more than a buffer can hold.
pub proof fn lemma_pack_glyphs_count(glyphs: Seq<GlyphView>)
    requires
        pack_glyphs(glyphs).is_ok(),
    ensures
        pack_glyphs(glyphs) matches Ok(q) && q.glyphs.len() == packed_count(
            glyphs,
            glyphs.len() as int,
        ) && q.bits.len() <= max_bits(),
    decreases glyphs.len(),
{
    if glyphs.len() > 0 {
        lemma_pack_glyphs_count(glyphs.drop_last());
        lemma_packed_count_take(glyphs, glyphs.len() - 1);
    }
}

/// The number of glyphs with a standard encoding among the first `n`
/// glyphs depends on these glyphs only.
proof fn lemma_packed_count_take(glyphs: Seq<GlyphView>, n: int)
    requires
        0 <= n <= glyphs.len(),
    ensures
        packed_count(glyphs.take(n), n) == packed_count(glyphs, n),
        forall|k: int| 0 <= k <= n ==> packed_count(glyphs.take(n), k) == packed_count(glyphs, k),
{
    assert forall|k: int| 0 <= k <= n implies packed_count(glyphs.take(n), k) == packed_count(
        glyphs,
        k,
    ) by {
        lemma_packed_count_same(glyphs.take(n), glyphs, k);
    }
}

/// Two lists that agree in their first `k` glyphs have the same number of
/// glyphs with a standard encoding among them.
proof fn lemma_packed_count_same(a: Seq<GlyphView>, b: Seq<GlyphView>, k: int)
    requires
        0 <= k <= a.len(),
        k <= b.len(),
        forall|i: int| 0 <= i < k ==> a[i] == b[i],
    ensures
        packed_count(a, k) == packed_count(b, k),
    decreases k,
{
    if k > 0 {
        lemma_packed_count_same(a, b, k - 1);
    }
}

/// What a renderer reads is what the glyph holds: a glyph with a standard
/// encoding has an entry in the table, and the bits from the start index of
/// that entry on are the pixels of the glyph, row by row.
pub proof fn lemma_packed_pixels(glyphs: Seq<GlyphView>, i: int, x: int, y: int)
    requires
        pack_glyphs(glyphs).is_ok(),
        0 <= i < glyphs.len(),
        glyphs[i].encoding is Standard,
        0 <= x < glyphs[i].width(),
        0 <= y < glyphs[i].height(),
    ensures
        pack_glyphs(glyphs) matches Ok(q) && ({
            let j = packed_count(glyphs, i) as int;
            &&& j < q.glyphs.len()
            &&& q.glyphs[j].character as u32 == glyphs[i].encoding->Standard_0
            &&& q.glyphs[j].bounding_box == rectangle_of(glyphs[i].bounding_box)
            &&& glyphs[i].pixel(x, y) == Some(
                bit_at(q.bits, q.glyphs[j].start_index + y * glyphs[i].width() + x),
            )
            &&& glyph_pixel(pack_bits(q.bits), q.glyphs[j], x, y) == (glyphs[i].pixel(x, y)
                == Some(true))
        }),
{
    lemma_pack_glyphs_take(glyphs, i);
    lemma_pack_glyphs_take(glyphs, i + 1);
    assert(glyphs.take(i + 1).drop_last() == glyphs.take(i));
    assert(glyphs.take(i + 1).last() == glyphs[i]);
    let glyph = glyphs[i];
    match (pack_glyphs(glyphs.take(i)), pack_glyphs(glyphs.take(i + 1)), pack_glyphs(glyphs)) {
        (Ok(p), Ok(longer), Ok(q)) => {
            assert(pack_glyph(p, glyph) == Ok::<_, ConvertErrorView>(longer));
            let j = p.glyphs.len() as int;
            let start = p.bits.len() as int;
            let k = y * glyph.width() + x;
            lemma_pixel_position(x, y, glyph.width(), glyph.height());
            lemma_complete_pixel(glyph, x, y);
            assert(glyph.encoding->Standard_0 as char as u32 == glyph.encoding->Standard_0) by {
                let u = glyph.encoding->Standard_0;
                assert(is_scalar(u as int));
            }
            assert(q.glyphs[j] == longer.glyphs[j]) by {
                assert(q.glyphs.take(longer.glyphs.len() as int)[j] == q.glyphs[j]);
            }
            assert(q.bits[start + k] == longer.bits[start + k]) by {
                assert(q.bits.take(longer.bits.len() as int)[start + k] == q.bits[start + k]);
            }
            assert(longer.bits[start + k] == glyph.pixels()[k]);
            assert(glyph.pixels()[k] == glyph.pixel(x, y).unwrap());
            lemma_read_packed_bit(q.bits, start + k);
            assert(q.glyphs[j].start_index == start);
            assert(q.glyphs[j].bounding_box.size.width == glyph.width());
            assert(q.glyphs[j].bounding_box.size.height == glyph.height());
        },
        _ => {},
    }
}

/// Font conversion output: a stream of bits and a table of glyphs.
#[derive(Debug)]
pub struct EgBdfOutput {
    font: ConvertedFont,
    data: BitBuffer,
    glyphs: Vec<BdfGlyph>,
    bounding_box: Rectangle,
}

/// Mathematical value of an [`EgBdfOutput`].
pub struct EgBdfView {
    pub font: ConvertedFontView,
    pub bits: Seq<bool>,
    pub glyphs: Seq<BdfGlyph>,
    pub bounding_box: Rectangle,
}

impl View for EgBdfOutput {
    type V = EgBdfView;

    closed spec fn view(&self) -> EgBdfView {
        EgBdfView {
            font: self.font@,
            bits: buffer_bits(self.data),
            glyphs: self.glyphs@,
            bounding_box: self.bounding_box,
        }
    }
}

/// The output for a converted font: the rectangle of the bounding box of
/// the font, which must be one that can be drawn, and its glyphs packed.
pub open spec fn eg_bdf_output(font: ConvertedFontView) -> Result<EgBdfView, ConvertErrorView> {
    if !rectangle_fits(font.bdf.metadata.bounding_box) {
        Err(ConvertErrorView::InvalidBoundingBox(None))
    } else {
        match pack_glyphs(font.glyphs) {
            Err(e) => Err(e),
            Ok(packed) => Ok(
                EgBdfView {
                    font,
                    bits: packed.bits,
                    glyphs: packed.glyphs,
                    bounding_box: rectangle_of(font.bdf.metadata.bounding_box),
                },
            ),
        }
    }
}

impl EgBdfOutput {
    /// Packs the pixels of the glyphs of a converted font.
    pub fn new(font: ConvertedFont) -> (r: Result<Self, ConvertError>)
        ensures
            match r {
                Ok(output) => eg_bdf_output(font@) == Ok::<_, ConvertErrorView>(output@),
                Err(e) => eg_bdf_output(font@) == Err::<EgBdfView, _>(e@),
            },
    {
        if !fits_rectangle(&font.bdf.metadata.bounding_box) {
            return Err(ConvertError::InvalidBoundingBox(None));
        }
        let bounding_box = bounding_box_to_rectangle(&font.bdf.metadata.bounding_box);
        let mut data = bit_buffer_new();
        let mut glyphs: Vec<BdfGlyph> = Vec::new();
        let limit: usize = usize::MAX / 8;
        let mut i: usize = 0;
        proof {
            assert(glyph_views(font.glyphs@).take(0) =~= Seq::<GlyphView>::empty());
        }
        while i < font.glyphs.len()
            invariant
                i <= font.glyphs.len(),
                limit == max_bits(),
                rectangle_fits(font.bdf.metadata.bounding_box),
                buffer_bits(data).len() <= max_bits(),
                pack_glyphs(glyph_views(font.glyphs@).take(i as int)) == Ok::<_, ConvertErrorView>(
                    PackedGlyphs { glyphs: glyphs@, bits: buffer_bits(data) },
                ),
            decreases font.glyphs.len() - i,
        {
            let glyph = &font.glyphs[i];
            let ghost all = glyph_views(font.glyphs@);
            proof {
                assert(all.take(i + 1).drop_last() == all.take(i as int));
                assert(all.take(i + 1).last() == glyph@);
            }
            match pack(glyph, &mut data, &mut glyphs) {
                Ok(_) => {},
                Err(e) => {
                    proof {
                        assert(pack_glyphs(all.take(i + 1)) == Err::<PackedGlyphs, _>(e@));
                        lemma_pack_glyphs_error(all, i + 1);
                    }
                    return Err(e);
                },
            }
            i += 1;
        }
        proof {
            assert(glyph_views(font.glyphs@).take(font.glyphs.len() as int) == glyph_views(
                font.glyphs@,
            ));
        }
        Ok(Self { font, data, glyphs, bounding_box })
    }

    /// Returns the font that was converted.
    pub fn font(&self) -> (r: &ConvertedFont)
        ensures
            r@ == self@.font,
    {
        &self.font
    }

    /// Gives the font that was converted back.
    pub fn into_font(self) -> (r: ConvertedFont)
        ensures
            r@ == self@.font,
    {
        self.font
    }

    /// Returns the font bounding box.
    pub fn bounding_box(&self) -> (r: Rectangle)
        ensures
            r == self@.bounding_box,
    {
        self.bounding_box
    }

    /// Returns the bitmap data: the bits of all glyphs, eight to a byte.
    pub fn data(&self) -> (r: &[u8])
        ensures
            r@ == pack_bits(self@.bits),
    {
        bit_buffer_as_raw_slice(&self.data)
    }

    /// Returns the converted font in the form in which it is drawn.
    pub fn as_font(&self) -> (r: crate::eg_bdf::BdfFont<'_>)
        ensures
            r.replacement_character == self@.font.replacement_character,
            r.ascent == self@.font.ascent,
            r.descent == self@.font.descent,
            r.glyphs@ == self@.glyphs,
            r.data@ == pack_bits(self@.bits),
    {
        crate::eg_bdf::BdfFont {
            replacement_character: self.font.replacement_character,
            ascent: self.font.ascent,
            descent: self.font.descent,
            glyphs: self.glyphs.as_slice(),
            data: self.data(),
        }
    }

    /// Returns the table of the glyphs.
    pub fn glyphs(&self) -> (r: &Vec<BdfGlyph>)
        ensures
            r@ == self@.glyphs,
    {
        &self.glyphs
    }

    /// Returns the number of bits of the bitmap data.
    pub fn bit_len(&self) -> (n: usize)
        ensures
            n == self@.bits.len(),
    {
        bit_buffer_len(&self.data)
    }
}

/// Packs one glyph.
fn pack(glyph: &Glyph, data: &mut BitBuffer, glyphs: &mut Vec<BdfGlyph>) -> (r: Result<
    (),
    ConvertError,
>)
    requires
        buffer_bits(*old(data)).len() <= max_bits(),
    ensures
        ({
            let before = PackedGlyphs { glyphs: old(glyphs)@, bits: buffer_bits(*old(data)) };
            match r {
                Ok(_) => pack_glyph(before, glyph@) == Ok::<_, ConvertErrorView>(
                    PackedGlyphs { glyphs: final(glyphs)@, bits: buffer_bits(*final(data)) },
                ) && buffer_bits(*final(data)).len() <= max_bits(),
                Err(e) => pack_glyph(before, glyph@) == Err::<PackedGlyphs, _>(e@),
            }
        }),
{
    let index = match glyph.encoding {
        Encoding::Standard(index) => index,
        _ => {
            return Ok(());
        },
    };
    let character = match char::from_u32(index) {
        Some(c) => c,
        None => {
            return Err(ConvertError::InvalidCodePoint(index));
        },
    };
    proof {
        vstd::utf8::char_u32_cast(character, index);
    }
    if !fits_rectangle(&glyph.bounding_box) {
        return Err(ConvertError::InvalidBoundingBox(Some(character)));
    }
    let bounding_box = bounding_box_to_rectangle(&glyph.bounding_box);
    let device_width: u32 = match glyph.width_horizontal {
        Some(width) => {
            if width.device.x < 0 {
                return Err(ConvertError::InvalidWidth(character));
            }
            width.device.x as u32
        },
        None => {
            return Err(ConvertError::InvalidWidth(character));
        },
    };
    if !glyph.has_all_pixels() {
        return Err(ConvertError::IncompleteBitmap(character));
    }
    if !glyph.is_complete() {
        return Err(ConvertError::TooLarge);
    }
    let pixels = glyph.pixels();
    let start_index = bit_buffer_len(data);
    if pixels.len() > usize::MAX / 8 - start_index {
        return Err(ConvertError::TooLarge);
    }
    glyphs.push(BdfGlyph { character, bounding_box, device_width, start_index });
    bit_buffer_extend(data, &pixels);
    Ok(())
}

} // verus!
