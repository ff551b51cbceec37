//! Parsing of Glyph Bitmap Distribution Format fonts and their conversion
//! into packed renderer formats, with machine-checked contracts.

pub mod bitbuf;
pub mod chars;
pub mod converter;
pub mod eg_bdf;
pub mod eg_bdf_font;
pub mod endfont;
pub mod font;
pub mod geometry;
pub mod glyph;
pub mod helpers;
pub mod line_endings;
pub mod mapping;
pub mod metadata;
pub mod mono_font;
pub mod parser;
pub mod properties;
pub mod suite;
pub mod text;

pub use converter::{ConvertError, ConvertedFont, FontConverter, GlyphRange, Visibility};
pub use eg_bdf_font::{bounding_box_to_rectangle, BdfGlyph, EgBdfOutput, Point, Rectangle, Size};
pub use font::BdfFont;
pub use geometry::{BoundingBox, Coord};
pub use glyph::{Encoding, Glyph, GlyphWidth, Glyphs};
pub use mapping::Mapping;
pub use metadata::{Metadata, MetricsSet};
pub use mono_font::MonoFontOutput;
pub use parser::{Line, Lines, ParserError};
pub use properties::{Properties, Property, PropertyType, PropertyTypeError, PropertyValue};
