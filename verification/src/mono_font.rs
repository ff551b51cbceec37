//! Conversion of a font into a grid of cells of one size: one image that
//! holds a glyph in each cell.

use crate::bitbuf::{bit_at, bits_to_bytes, lemma_packed_bit, pack_bits};
use crate::converter::{
    convert_spec, select_from, select_glyphs, ConvertError, ConvertErrorView, ConvertedFont,
    ConvertedFontView, FontConverter,
};
use crate::eg_bdf_font::{eg_bdf_output, EgBdfOutput, EgBdfView, Size};
use crate::font::BdfFont;
use crate::geometry::{BoundingBox, Coord};
use crate::glyph::{glyph_views, Glyph, GlyphView};
use crate::mapping::{
    all_mappings, chars_of_glyphs, chars_to_mapping, first_mapping, glyph_chars, mapping_chars,
    preset_chars, Mapping,
};
use vstd::prelude::*;

verus! {

/// Number of cells in one row of the grid.
pub const GLYPHS_PER_ROW: usize = 16;

/// Offset and height of a line that decorates text.
#[derive(Debug, Default, Clone, Copy, PartialEq, Eq, Structural, PartialOrd, Ord, Hash)]
pub struct DecorationDimensions {
    /// Offset of the line below the top of a line of text.
    pub offset: u32,
    /// Height of the line.
    pub height: u32,
}

/// The glyphs in the order of their cells: that of the mapping, where the
/// characters of the glyphs are those of a mapping, else their own order.
pub open spec fn ordered_glyphs(glyphs: Seq<GlyphView>, mapping: Option<Mapping>) -> Result<
    Seq<GlyphView>,
    ConvertErrorView,
> {
    match mapping {
        Some(m) => select_glyphs(glyphs, mapping_chars(m), None),
        None => Ok(glyphs),
    }
}

/// The smallest bounding box that surrounds the bounding boxes of all
/// glyphs, where their sizes are not negative and it can be represented.
pub open spec fn cell_box(glyphs: Seq<GlyphView>) -> Option<BoundingBox>
    decreases glyphs.len(),
{
    if glyphs.len() == 0 {
        Some(BoundingBox { offset: Coord { x: 0, y: 0 }, size: Coord { x: 0, y: 0 } })
    } else {
        match cell_box(glyphs.drop_last()) {
            None => None,
            Some(cell) => if cell.has_size() && glyphs.last().bounding_box.has_size()
                && cell.union_fits(&glyphs.last().bounding_box) {
                Some(cell.union_spec(&glyphs.last().bounding_box))
            } else {
                None
            },
        }
    }
}

/// There is no cell for the glyphs up to some point, so there is none for
/// all glyphs.
pub proof fn lemma_cell_box_none(glyphs: Seq<GlyphView>, n: int)
    requires
        0 <= n <= glyphs.len(),
        cell_box(glyphs.take(n)).is_none(),
    ensures
        cell_box(glyphs).is_none(),
    decreases glyphs.len() - n,
{
    if n < glyphs.len() {
        assert(glyphs.take(n + 1).drop_last() == glyphs.take(n));
        lemma_cell_box_none(glyphs, n + 1);
    } else {
        assert(glyphs.take(n) == glyphs);
    }
}

/// The pixel in column `x` of row `y` of the image. The cell at that place
/// belongs to the glyph whose index is the number of the cell, counted row by
/// row. In its cell each glyph lies where its bounding box lies in the
/// bounding box of all glyphs.
pub open spec fn atlas_pixel(glyphs: Seq<GlyphView>, cell: BoundingBox, x: int, y: int) -> bool {
    let index = (y / (cell.size.y as int)) * GLYPHS_PER_ROW + x / (cell.size.x as int);
    if cell.size.x > 0 && cell.size.y > 0 && 0 <= x && 0 <= y && index < glyphs.len() {
        let glyph = glyphs[index];
        let left = glyph.bounding_box.offset.x - cell.offset.x;
        let down = cell.top() - glyph.bounding_box.top();
        glyph.pixel(x % (cell.size.x as int) - left, y % (cell.size.y as int) - down) == Some(
            true,
        )
    } else {
        false
    }
}

/// One row of the image.
pub open spec fn atlas_row(glyphs: Seq<GlyphView>, cell: BoundingBox, width: int, y: int) -> Seq<
    bool,
> {
    Seq::new(width as nat, |x: int| atlas_pixel(glyphs, cell, x, y))
}

/// The bytes of the first `height` rows of the image: each row is packed
/// into bytes, the first pixel in the most significant place.
pub open spec fn atlas_rows(glyphs: Seq<GlyphView>, cell: BoundingBox, width: int, height: int)
    -> Seq<u8>
    decreases height,
{
    if height <= 0 {
        Seq::empty()
    } else {
        atlas_rows(glyphs, cell, width, height - 1) + pack_bits(
            atlas_row(glyphs, cell, width, height - 1),
        )
    }
}

/// Font conversion output for fonts whose glyphs all have the same size.
#[derive(Debug)]
pub struct MonoFontOutput {
    font: ConvertedFont,
    glyphs: Vec<Glyph>,
    data: Vec<u8>,
    cell: BoundingBox,
    image_width: u32,
    image_height: u32,
    character_size: Size,
    character_spacing: u32,
    baseline: u32,
    underline: DecorationDimensions,
    strikethrough: DecorationDimensions,
    mapping: Option<Mapping>,
}

/// Mathematical value of a [`MonoFontOutput`].
pub struct MonoFontView {
    pub font: ConvertedFontView,
    /// The glyphs in the order of their cells.
    pub glyphs: Seq<GlyphView>,
    pub data: Seq<u8>,
    /// The bounding box of all glyphs, which is the cell of each glyph.
    pub cell: BoundingBox,
    pub image_width: u32,
    pub image_height: u32,
    pub character_size: Size,
    pub character_spacing: u32,
    pub baseline: u32,
    pub underline: DecorationDimensions,
    pub strikethrough: DecorationDimensions,
    pub mapping: Option<Mapping>,
}

impl View for MonoFontOutput {
    type V = MonoFontView;

    closed spec fn view(&self) -> MonoFontView {
        MonoFontView {
            font: self.font@,
            glyphs: glyph_views(self.glyphs@),
            data: self.data@,
            cell: self.cell,
            image_width: self.image_width,
            image_height: self.image_height,
            character_size: self.character_size,
            character_spacing: self.character_spacing,
            baseline: self.baseline,
            underline: self.underline,
            strikethrough: self.strikethrough,
            mapping: self.mapping,
        }
    }
}

/// The image and the metrics for given glyphs in the order of their cells.
pub open spec fn mono_font_image(
    font: ConvertedFontView,
    mapping: Option<Mapping>,
    glyphs: Seq<GlyphView>,
) -> Result<MonoFontView, ConvertErrorView> {
    match cell_box(glyphs) {
        None => Err(ConvertErrorView::InvalidBoundingBox(None)),
        Some(cell) => {
            let rows = (glyphs.len() + GLYPHS_PER_ROW - 1) / (GLYPHS_PER_ROW as int);
            let width = cell.size.x * GLYPHS_PER_ROW;
            let height = cell.size.y * rows;
            if width > u32::MAX || height > u32::MAX {
                Err(ConvertErrorView::TooLarge)
            } else {
                Ok(
                    MonoFontView {
                        font,
                        glyphs,
                        data: atlas_rows(glyphs, cell, width, height),
                        cell,
                        image_width: width as u32,
                        image_height: height as u32,
                        character_size: Size {
                            width: cell.size.x as u32,
                            height: cell.size.y as u32,
                        },
                        character_spacing: 0,
                        baseline: if font.ascent >= 1 {
                            (font.ascent - 1) as u32
                        } else {
                            0
                        },
                        underline: DecorationDimensions {
                            offset: font.underline_position,
                            height: font.underline_thickness,
                        },
                        strikethrough: DecorationDimensions {
                            offset: font.strikethrough_position,
                            height: font.strikethrough_thickness,
                        },
                        mapping,
                    },
                )
            }
        },
    }
}

/// The output for a converted font. Every glyph must stand for a character.
/// Where the characters are those of a mapping, the glyphs are put in its
/// order.
pub open spec fn mono_font_output(font: ConvertedFontView) -> Result<
    MonoFontView,
    ConvertErrorView,
> {
    match glyph_chars(font.glyphs) {
        Err(e) => Err(e),
        Ok(chars) => {
            let mapping = first_mapping(chars, all_mappings(), 0);
            match ordered_glyphs(font.glyphs, mapping) {
                Err(e) => Err(e),
                Ok(glyphs) => mono_font_image(font, mapping, glyphs),
            }
        },
    }
}

/// Finds the bounding box of all glyphs.
pub fn find_cell_box(glyphs: &Vec<Glyph>) -> (r: Option<BoundingBox>)
    ensures
        r == cell_box(glyph_views(glyphs@)),
{
    let mut cell = BoundingBox { offset: Coord::new(0, 0), size: Coord::new(0, 0) };
    let ghost all = glyph_views(glyphs@);
    let mut i: usize = 0;
    proof {
        assert(all.take(0) =~= Seq::<GlyphView>::empty());
    }
    while i < glyphs.len()
        invariant
            i <= glyphs.len(),
            all == glyph_views(glyphs@),
            cell_box(all.take(i as int)) == Some(cell),
        decreases glyphs.len() - i,
    {
        proof {
            assert(all.take(i + 1).drop_last() == all.take(i as int));
            assert(all.take(i + 1).last() == glyphs@[i as int]@);
        }
        match cell.try_union(&glyphs[i].bounding_box) {
            Some(union) => {
                cell = union;
            },
            None => {
                proof {
                    lemma_cell_box_none(all, i + 1);
                }
                return None;
            },
        }
        i += 1;
    }
    proof {
        assert(all.take(glyphs.len() as int) == all);
    }
    Some(cell)
}

/// Reads one pixel of the image from the glyphs.
pub fn image_pixel(glyphs: &Vec<Glyph>, cell: &BoundingBox, x: usize, y: usize) -> (b: bool)
    ensures
        b == atlas_pixel(glyph_views(glyphs@), *cell, x as int, y as int),
{
    if cell.size.x <= 0 || cell.size.y <= 0 {
        return false;
    }
    let cell_width: u64 = cell.size.x as u64;
    let cell_height: u64 = cell.size.y as u64;
    let column: u64 = x as u64 / cell_width;
    let row: u64 = y as u64 / cell_height;
    let index: u128 = row as u128 * 16 + column as u128;
    if index >= glyphs.len() as u128 {
        return false;
    }
    let glyph = &glyphs[index as usize];
    proof {
        assert(glyph_views(glyphs@)[index as int] == glyph@);
    }
    let left: i64 = glyph.bounding_box.offset.x as i64 - cell.offset.x as i64;
    let down: i64 = (cell.offset.y as i64 + cell.size.y as i64) - (glyph.bounding_box.offset.y as i64
        + glyph.bounding_box.size.y as i64);
    let glyph_x: i64 = (x as u64 % cell_width) as i64 - left;
    let glyph_y: i64 = (y as u64 % cell_height) as i64 - down;
    if glyph_x < 0 || glyph_y < 0 || glyph_x >= glyph.bounding_box.size.x as i64 {
        return false;
    }
    let len: usize = glyph.bitmap.len();
    if glyph_y as u64 > len as u64 {
        proof {
            let rows = glyph@.bytes_per_row();
            assert(rows >= 1);
            assert(rows * glyph_y >= glyph_y) by (nonlinear_arith)
                requires
                    rows >= 1,
                    glyph_y >= 0,
            ;
            assert(glyph@.pixel_index(glyph_x as int, glyph_y as int) >= glyph_y);
        }
        return false;
    }
    match glyph.pixel(glyph_x as usize, glyph_y as usize) {
        Some(pixel) => pixel,
        None => false,
    }
}

/// Renders the image row by row.
pub fn render_image(glyphs: &Vec<Glyph>, cell: &BoundingBox, width: u32, height: u32) -> (data: Vec<
    u8,
>)
    ensures
        data@ == atlas_rows(glyph_views(glyphs@), *cell, width as int, height as int),
{
    let mut data: Vec<u8> = Vec::new();
    let mut y: u32 = 0;
    while y < height
        invariant
            y <= height,
            data@ == atlas_rows(glyph_views(glyphs@), *cell, width as int, y as int),
        decreases height - y,
    {
        let mut row: Vec<bool> = Vec::new();
        let mut x: u32 = 0;
        while x < width
            invariant
                x <= width,
                row@.len() == x,
                forall|k: int|
                    0 <= k < x ==> row@[k] == atlas_pixel(
                        glyph_views(glyphs@),
                        *cell,
                        k,
                        y as int,
                    ),
            decreases width - x,
        {
            row.push(image_pixel(glyphs, cell, x as usize, y as usize));
            x += 1;
        }
        assert(row@ =~= atlas_row(glyph_views(glyphs@), *cell, width as int, y as int));
        let mut bytes = bits_to_bytes(row.as_slice());
        data.append(&mut bytes);
        y += 1;
    }
    data
}

/// The cell of the glyph with index `index` begins in column
/// `(index % 16) * cell width` of row `(index / 16) * cell height` of the
/// image, and holds the glyph where its bounding box lies in the bounding box
/// of all glyphs.
pub proof fn lemma_atlas_cell(
    glyphs: Seq<GlyphView>,
    cell: BoundingBox,
    index: int,
    dx: int,
    dy: int,
)
    requires
        0 <= index < glyphs.len(),
        0 <= dx < cell.size.x,
        0 <= dy < cell.size.y,
    ensures
        atlas_pixel(
            glyphs,
            cell,
            (index % (GLYPHS_PER_ROW as int)) * cell.size.x + dx,
            (index / (GLYPHS_PER_ROW as int)) * cell.size.y + dy,
        ) == (glyphs[index].pixel(
            dx - (glyphs[index].bounding_box.offset.x - cell.offset.x),
            dy - (cell.top() - glyphs[index].bounding_box.top()),
        ) == Some(true)),
{
    let column = index % 16;
    let row = index / 16;
    let width = cell.size.x as int;
    let height = cell.size.y as int;
    assert(0 <= column * width && 0 <= row * height) by (nonlinear_arith)
        requires
            0 <= column,
            0 <= row,
            0 <= width,
            0 <= height,
    ;
    vstd::arithmetic::div_mod::lemma_fundamental_div_mod_converse(
        column * width + dx,
        width,
        column,
        dx,
    );
    vstd::arithmetic::div_mod::lemma_fundamental_div_mod_converse(
        row * height + dy,
        height,
        row,
        dy,
    );
}

/// The bytes of the rows of an image are as many as its rows need.
pub proof fn lemma_atlas_rows_len(
    glyphs: Seq<GlyphView>,
    cell: BoundingBox,
    width: int,
    height: int,
)
    requires
        0 <= width,
        0 <= height,
    ensures
        atlas_rows(glyphs, cell, width, height).len() == ((width + 7) / 8) * height,
    decreases height,
{
    if height > 0 {
        lemma_atlas_rows_len(glyphs, cell, width, height - 1);
        assert(((width + 7) / 8) * (height - 1) + (width + 7) / 8 == ((width + 7) / 8) * height)
            by (nonlinear_arith);
    } else {
        assert(((width + 7) / 8) * height == 0) by (nonlinear_arith)
            requires
                height == 0,
        ;
    }
}

/// Byte `k` of row `y` of an image stands behind the bytes of the rows
/// above it.
pub proof fn lemma_atlas_byte(
    glyphs: Seq<GlyphView>,
    cell: BoundingBox,
    width: int,
    height: int,
    y: int,
    k: int,
)
    requires
        0 <= width,
        0 <= y < height,
        0 <= k < (width + 7) / 8,
    ensures
        0 <= y * ((width + 7) / 8) + k < atlas_rows(glyphs, cell, width, height).len(),
        atlas_rows(glyphs, cell, width, height)[y * ((width + 7) / 8) + k] == pack_bits(
            atlas_row(glyphs, cell, width, y),
        )[k],
    decreases height,
{
    let row_bytes = (width + 7) / 8;
    let above = atlas_rows(glyphs, cell, width, height - 1);
    let last = pack_bits(atlas_row(glyphs, cell, width, height - 1));
    lemma_atlas_rows_len(glyphs, cell, width, height - 1);
    lemma_atlas_rows_len(glyphs, cell, width, height);
    assert(0 <= y * row_bytes && y * row_bytes + row_bytes <= row_bytes * height) by (nonlinear_arith)
        requires
            0 <= y < height,
            0 <= row_bytes,
    ;
    if y == height - 1 {
        assert(y * row_bytes == row_bytes * (height - 1)) by (nonlinear_arith)
            requires
                y == height - 1,
        ;
        assert((above + last)[above.len() + k] == last[k]);
    } else {
        lemma_atlas_byte(glyphs, cell, width, height - 1, y, k);
        assert((above + last)[y * row_bytes + k] == above[y * row_bytes + k]);
    }
}

impl MonoFontOutput {
    #[verifier::type_invariant]
    spec fn holds_image(&self) -> bool {
        self.data@ == atlas_rows(
            glyph_views(self.glyphs@),
            self.cell,
            self.image_width as int,
            self.image_height as int,
        )
    }

    /// Reads one pixel of the image: `None` outside the image.
    pub fn pixel(&self, x: u32, y: u32) -> (r: Option<bool>)
        ensures
            r == if x < self@.image_width && y < self@.image_height {
                Some(atlas_pixel(self@.glyphs, self@.cell, x as int, y as int))
            } else {
                None
            },
    {
        if x >= self.image_width || y >= self.image_height {
            return None;
        }
        proof {
            use_type_invariant(self);
            let row = atlas_row(
                glyph_views(self.glyphs@),
                self.cell,
                self.image_width as int,
                y as int,
            );
            lemma_atlas_byte(
                glyph_views(self.glyphs@),
                self.cell,
                self.image_width as int,
                self.image_height as int,
                y as int,
                x as int / 8,
            );
            assert(pack_bits(row).len() == (self.image_width + 7) / 8);
            lemma_packed_bit(row, x as int);
            assert(bit_at(row, x as int) == row[x as int]);
        }
        let row_bytes: u64 = (self.image_width as u64 + 7) / 8;
        assert(y * row_bytes <= 0xffff_ffff * 0x2000_0000) by (nonlinear_arith)
            requires
                0 <= y <= 0xffff_ffff,
                0 <= row_bytes <= 0x2000_0000,
        ;
        let index: u64 = y as u64 * row_bytes + x as u64 / 8;
        let len: usize = self.data.len();
        Some(self.data[index as usize] & (0x80u8 >> ((x % 8) as u8)) != 0)
    }

    /// Lays the glyphs of a converted font out in a grid.
    pub fn new(bdf: EgBdfOutput) -> (r: Result<Self, ConvertError>)
        ensures
            match r {
                Ok(output) => mono_font_output(bdf@.font) == Ok::<_, ConvertErrorView>(output@),
                Err(e) => mono_font_output(bdf@.font) == Err::<MonoFontView, _>(e@),
            },
    {
        let font = bdf.into_font();
        let chars = match chars_of_glyphs(&font.glyphs) {
            Ok(chars) => chars,
            Err(e) => {
                return Err(e);
            },
        };
        let mapping = chars_to_mapping(&chars);
        // Rearrange the glyphs in the correct order if a mapping is used,
        // because the mappings aren't sorted by the Unicode codepoint.
        let glyphs = match mapping {
            Some(m) => {
                let order = preset_chars(m);
                match select_from(&font.glyphs, &order, None) {
                    Ok(glyphs) => glyphs,
                    Err(e) => {
                        return Err(e);
                    },
                }
            },
            None => crate::converter::clone_glyphs(&font.glyphs),
        };
        Self::with_glyphs(font, mapping, glyphs)
    }

    /// Lays given glyphs out in a grid, in their order.
    pub fn with_glyphs(font: ConvertedFont, mapping: Option<Mapping>, glyphs: Vec<Glyph>) -> (r:
        Result<Self, ConvertError>)
        ensures
            match r {
                Ok(output) => mono_font_image(font@, mapping, glyph_views(glyphs@)) == Ok::<
                    _,
                    ConvertErrorView,
                >(output@),
                Err(e) => mono_font_image(font@, mapping, glyph_views(glyphs@)) == Err::<
                    MonoFontView,
                    _,
                >(e@),
            },
    {
        let cell = match find_cell_box(&glyphs) {
            Some(cell) => cell,
            None => {
                return Err(ConvertError::InvalidBoundingBox(None));
            },
        };
        proof {
            lemma_cell_box_size(glyph_views(glyphs@));
        }
        let count: u128 = glyphs.len() as u128;
        let rows: u128 = (count + 15) / 16;
        let width: u128 = cell.size.x as u128 * 16;
        assert(cell.size.y * rows <= 0x8000_0000 * 0x1_0000_0000_0000_0000) by (nonlinear_arith)
            requires
                0 <= cell.size.y < 0x8000_0000,
                0 <= rows <= 0x1_0000_0000_0000_0000,
        ;
        let height: u128 = cell.size.y as u128 * rows;
        if width > u32::MAX as u128 || height > u32::MAX as u128 {
            return Err(ConvertError::TooLarge);
        }
        let data = render_image(&glyphs, &cell, width as u32, height as u32);
        let baseline: u32 = if font.ascent >= 1 {
            font.ascent - 1
        } else {
            0
        };
        let underline = DecorationDimensions {
            offset: font.underline_position,
            height: font.underline_thickness,
        };
        let strikethrough = DecorationDimensions {
            offset: font.strikethrough_position,
            height: font.strikethrough_thickness,
        };
        Ok(
            Self {
                font,
                glyphs,
                data,
                cell,
                image_width: width as u32,
                image_height: height as u32,
                character_size: Size { width: cell.size.x as u32, height: cell.size.y as u32 },
                character_spacing: 0,
                baseline,
                underline,
                strikethrough,
                mapping,
            },
        )
    }

    /// Returns the bitmap data: the rows of the image, each packed into
    /// bytes.
    pub fn data(&self) -> (r: &[u8])
        ensures
            r@ == self@.data,
    {
        self.data.as_slice()
    }

    /// Returns the BDF file.
    pub fn bdf(&self) -> (r: &BdfFont)
        ensures
            r@ == self@.font.bdf,
    {
        &self.font.bdf
    }

    /// Returns the converted font.
    pub fn font(&self) -> (r: &ConvertedFont)
        ensures
            r@ == self@.font,
    {
        &self.font
    }

    /// Returns the glyphs in the order of their cells.
    pub fn glyphs(&self) -> (r: &Vec<Glyph>)
        ensures
            glyph_views(r@) == self@.glyphs,
    {
        &self.glyphs
    }

    /// Returns the width of the image in pixels.
    pub fn image_width(&self) -> (r: u32)
        ensures
            r == self@.image_width,
    {
        self.image_width
    }

    /// Returns the height of the image in pixels.
    pub fn image_height(&self) -> (r: u32)
        ensures
            r == self@.image_height,
    {
        self.image_height
    }

    /// Returns the size of a cell.
    pub fn character_size(&self) -> (r: Size)
        ensures
            r == self@.character_size,
    {
        self.character_size
    }

    /// Returns the space between two characters.
    pub fn character_spacing(&self) -> (r: u32)
        ensures
            r == self@.character_spacing,
    {
        self.character_spacing
    }

    /// Returns the offset of the baseline below the top of a cell.
    pub fn baseline(&self) -> (r: u32)
        ensures
            r == self@.baseline,
    {
        self.baseline
    }

    /// Returns the dimensions of the underline.
    pub fn underline(&self) -> (r: DecorationDimensions)
        ensures
            r == self@.underline,
    {
        self.underline
    }

    /// Returns the dimensions of the strikethrough.
    pub fn strikethrough(&self) -> (r: DecorationDimensions)
        ensures
            r == self@.strikethrough,
    {
        self.strikethrough
    }

    /// Returns the mapping whose characters are those of the glyphs, if
    /// there is one.
    pub fn mapping(&self) -> (r: Option<Mapping>)
        ensures
            r == self@.mapping,
    {
        self.mapping
    }
}

/// The bit stream that a converter makes of its font.
pub open spec fn convert_eg_bdf_spec(config: crate::converter::ConverterView) -> Result<
    EgBdfView,
    ConvertErrorView,
> {
    match convert_spec(config) {
        Err(e) => Err(e),
        Ok(font) => eg_bdf_output(font),
    }
}

/// The grid of cells that a converter makes of its font.
pub open spec fn convert_mono_font_spec(config: crate::converter::ConverterView) -> Result<
    MonoFontView,
    ConvertErrorView,
> {
    match convert_eg_bdf_spec(config) {
        Err(e) => Err(e),
        Ok(output) => mono_font_output(output.font),
    }
}

impl FontConverter {
    /// Converts the font into a stream of bits and a table of glyphs, for
    /// fonts whose glyphs differ in size.
    pub fn convert_eg_bdf(&self) -> (r: Result<EgBdfOutput, ConvertError>)
        ensures
            match r {
                Ok(output) => convert_eg_bdf_spec(self@) == Ok::<_, ConvertErrorView>(output@),
                Err(e) => convert_eg_bdf_spec(self@) == Err::<EgBdfView, _>(e@),
            },
    {
        match self.convert() {
            Ok(font) => EgBdfOutput::new(font),
            Err(e) => Err(e),
        }
    }

    /// Converts the font into a grid of cells of one size.
    pub fn convert_mono_font(&self) -> (r: Result<MonoFontOutput, ConvertError>)
        ensures
            match r {
                Ok(output) => convert_mono_font_spec(self@) == Ok::<_, ConvertErrorView>(output@),
                Err(e) => convert_mono_font_spec(self@) == Err::<MonoFontView, _>(e@),
            },
    {
        match self.convert_eg_bdf() {
            Ok(output) => MonoFontOutput::new(output),
            Err(e) => Err(e),
        }
    }
}

/// The bounding box of all glyphs has no negative size.
pub proof fn lemma_cell_box_size(glyphs: Seq<GlyphView>)
    ensures
        cell_box(glyphs) matches Some(cell) ==> cell.has_size(),
    decreases glyphs.len(),
{
    if glyphs.len() > 0 {
        lemma_cell_box_size(glyphs.drop_last());
    }
}

} // verus!
