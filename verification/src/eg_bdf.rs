//! Reading a font that was converted into one stream of bits: finding the
//! glyph of a character and the pixels of a glyph.

use crate::bitbuf::packed_bit;
use crate::eg_bdf_font::BdfGlyph;
use vstd::prelude::*;

verus! {

/// BDF font.
#[derive(Debug, Clone, Copy, PartialEq, Eq, PartialOrd, Ord, Hash)]
pub struct BdfFont<'a> {
    /// The index of the replacement character.
    pub replacement_character: usize,
    /// The ascent in pixels.
    pub ascent: u32,
    /// The descent in pixels.
    pub descent: u32,
    /// The glyph information.
    pub glyphs: &'a [BdfGlyph],
    /// The bitmap data.
    pub data: &'a [u8],
}

/// The line of a row of text by which the text is placed.
#[derive(Debug, Clone, Copy, PartialEq, Eq, Structural, PartialOrd, Ord, Hash)]
pub enum Baseline {
    /// The top of the line.
    Top,
    /// The bottom of the line.
    Bottom,
    /// The middle between the top and the bottom.
    Middle,
    /// The line on which the letters stand.
    Alphabetic,
}

/// Index of the first glyph at or behind `from` that stands for the
/// character, or the number of glyphs.
pub open spec fn glyph_position(glyphs: Seq<BdfGlyph>, c: char, from: int) -> int
    decreases glyphs.len() - from,
{
    if 0 <= from < glyphs.len() && glyphs[from].character != c {
        glyph_position(glyphs, c, from + 1)
    } else {
        from
    }
}

/// The pixel in column `x` of row `y` of a glyph, as the stream of bits
/// holds it: the pixels of a glyph follow each other row by row from the
/// start index of the glyph on.
pub open spec fn glyph_pixel(data: Seq<u8>, glyph: BdfGlyph, x: int, y: int) -> bool {
    &&& 0 <= x < glyph.bounding_box.size.width
    &&& 0 <= y < glyph.bounding_box.size.height
    &&& packed_bit(data, glyph.start_index + y * glyph.bounding_box.size.width + x)
}

/// The vertical offset of the line on which the letters stand from a line
/// by which text is placed.
pub open spec fn baseline_offset_of(ascent: u32, descent: u32, baseline: Baseline) -> int {
    match baseline {
        Baseline::Top => if ascent >= 1 {
            ascent - 1
        } else {
            0
        },
        Baseline::Bottom => -descent,
        Baseline::Middle => crate::glyph::truncating_div(ascent - descent, 2),
        Baseline::Alphabetic => 0,
    }
}

impl<'a> BdfFont<'a> {
    /// Finds the glyph of a character.
    pub fn find_glyph(&self, c: char) -> (r: Option<&'a BdfGlyph>)
        ensures
            match r {
                Some(glyph) => glyph_position(self.glyphs@, c, 0) < self.glyphs@.len() && *glyph
                    == self.glyphs@[glyph_position(self.glyphs@, c, 0)],
                None => glyph_position(self.glyphs@, c, 0) == self.glyphs@.len(),
            },
    {
        let mut i: usize = 0;
        while i < self.glyphs.len()
            invariant
                i <= self.glyphs.len(),
                glyph_position(self.glyphs@, c, i as int) == glyph_position(self.glyphs@, c, 0),
            decreases self.glyphs.len() - i,
        {
            if self.glyphs[i].character == c {
                return Some(&self.glyphs[i]);
            }
            i += 1;
        }
        None
    }

    /// Returns the glyph of a character, or the replacement glyph where the
    /// font has no glyph of the character.
    ///
    /// The index of the replacement character must be that of a glyph.
    pub fn get_glyph(&self, c: char) -> (r: &'a BdfGlyph)
        requires
            self.replacement_character < self.glyphs@.len(),
        ensures
            *r == if glyph_position(self.glyphs@, c, 0) < self.glyphs@.len() {
                self.glyphs@[glyph_position(self.glyphs@, c, 0)]
            } else {
                self.glyphs@[self.replacement_character as int]
            },
    {
        match self.find_glyph(c) {
            Some(glyph) => glyph,
            None => &self.glyphs[self.replacement_character],
        }
    }

    /// Reads one pixel of a glyph from the bitmap data. Outside the
    /// bounding box of the glyph and behind the end of the data no pixel is
    /// set.
    pub fn pixel(&self, glyph: &BdfGlyph, x: u32, y: u32) -> (b: bool)
        ensures
            b == glyph_pixel(self.data@, *glyph, x as int, y as int),
    {
        if x >= glyph.bounding_box.size.width || y >= glyph.bounding_box.size.height {
            return false;
        }
        assert(y * glyph.bounding_box.size.width <= 0xffff_ffff * 0xffff_ffff) by (nonlinear_arith)
            requires
                0 <= y <= 0xffff_ffff,
                0 <= glyph.bounding_box.size.width <= 0xffff_ffff,
        ;
        let index: u128 = glyph.start_index as u128 + y as u128
            * glyph.bounding_box.size.width as u128 + x as u128;
        let byte: u128 = index / 8;
        if byte >= self.data.len() as u128 {
            return false;
        }
        self.data[byte as usize] & (0x80u8 >> ((index % 8) as u8)) != 0
    }

    /// Returns the height of a line of text.
    pub fn line_height(&self) -> (r: u32)
        requires
            self.ascent + self.descent <= u32::MAX,
        ensures
            r == self.ascent + self.descent,
    {
        self.ascent + self.descent
    }

    /// Returns the vertical offset of the line on which the letters stand
    /// from the line by which text is placed.
    pub fn baseline_offset(&self, baseline: Baseline) -> (r: i32)
        requires
            self.ascent <= i32::MAX,
            self.descent <= i32::MAX,
        ensures
            r == baseline_offset_of(self.ascent, self.descent, baseline),
    {
        match baseline {
            Baseline::Top => if self.ascent >= 1 {
                (self.ascent - 1) as i32
            } else {
                0
            },
            Baseline::Bottom => -(self.descent as i32),
            Baseline::Middle => {
                let difference: i64 = self.ascent as i64 - self.descent as i64;
                if difference < 0 {
                    (-(((-difference) as u64 / 2) as i64)) as i32
                } else {
                    (difference as u64 / 2) as i32
                }
            },
            Baseline::Alphabetic => 0,
        }
    }
}

} // verus!
