//! Selection of the glyphs of a font and derivation of its metrics, as the
//! first step of every conversion.

use crate::chars::{
    char_is_ascii_alphabetic, char_is_ascii_alphanumeric, chars_between, collect_chars,
    inclusive_end, inclusive_is_empty, inclusive_start, insert_ascending, is_ascending,
    is_ascii_alphabetic, is_ascii_alphanumeric, ascii_lowercase, to_ascii_lowercase,
};
use crate::font::{parse_font, BdfFont, FontView};
use crate::glyph::{first_with_encoding, glyph_views, Encoding, Glyph, GlyphView};
use crate::parser::{tokenize, ParserError, ParserErrorView};
use crate::properties::{Property, PropertyValueView};
use crate::text::to_chars;
use vstd::prelude::*;

verus! {

/// Constant visibility.
#[derive(Debug, PartialEq, Eq, PartialOrd, Ord, Hash)]
pub enum Visibility {
    /// No explicit visibility.
    Private,
    /// `pub` visibility.
    Pub,
    /// `pub(crate)` visibility.
    PubCrate,
    /// `pub(self)` visibility.
    PubSelf,
    /// `pub(super)` visibility.
    PubSuper,
    /// `pub(in path)` visibility.
    PubIn(String),
}

/// Mathematical value of a [`Visibility`].
pub enum VisibilityView {
    Private,
    Pub,
    PubCrate,
    PubSelf,
    PubSuper,
    PubIn(Seq<char>),
}

impl View for Visibility {
    type V = VisibilityView;

    open spec fn view(&self) -> VisibilityView {
        match self {
            Visibility::Private => VisibilityView::Private,
            Visibility::Pub => VisibilityView::Pub,
            Visibility::PubCrate => VisibilityView::PubCrate,
            Visibility::PubSelf => VisibilityView::PubSelf,
            Visibility::PubSuper => VisibilityView::PubSuper,
            Visibility::PubIn(path) => VisibilityView::PubIn(path@),
        }
    }
}

impl Clone for Visibility {
    fn clone(&self) -> (r: Self)
        ensures
            r@ == self@,
    {
        match self {
            Visibility::Private => Visibility::Private,
            Visibility::Pub => Visibility::Pub,
            Visibility::PubCrate => Visibility::PubCrate,
            Visibility::PubSelf => Visibility::PubSelf,
            Visibility::PubSuper => Visibility::PubSuper,
            Visibility::PubIn(path) => Visibility::PubIn(path.clone()),
        }
    }
}

impl VisibilityView {
    /// The visibility as it is written in Rust source text.
    pub open spec fn rust(self) -> Seq<char> {
        match self {
            VisibilityView::Private => ""@,
            VisibilityView::Pub => "pub"@,
            VisibilityView::PubCrate => "pub(crate)"@,
            VisibilityView::PubSelf => "pub(self)"@,
            VisibilityView::PubSuper => "pub(super)"@,
            VisibilityView::PubIn(path) => "pub(in "@ + path + ")"@,
        }
    }
}

impl Visibility {
    /// Returns the visibility as it is written in Rust source text.
    pub fn to_rust(&self) -> (r: String)
        ensures
            r@ == self@.rust(),
    {
        match self {
            Visibility::Private => String::from_str(""),
            Visibility::Pub => String::from_str("pub"),
            Visibility::PubCrate => String::from_str("pub(crate)"),
            Visibility::PubSelf => String::from_str("pub(self)"),
            Visibility::PubSuper => String::from_str("pub(super)"),
            Visibility::PubIn(path) => {
                let mut r = String::from_str("pub(in ");
                r.append(path.as_str());
                r.append(")");
                r
            },
        }
    }
}

/// A name that can stand for a constant in Rust source text: an ASCII letter
/// followed by ASCII letters, digits and underscores.
pub open spec fn is_identifier(s: Seq<char>) -> bool {
    &&& s.len() > 0
    &&& is_ascii_alphabetic(s[0])
    &&& forall|i: int| 0 <= i < s.len() ==> is_ascii_alphanumeric(#[trigger] s[i]) || s[i] == '_'
}

/// Tests whether a name can stand for a constant in Rust source text.
pub fn is_valid_identifier(ident: &str) -> (b: bool)
    ensures
        b == is_identifier(ident@),
{
    let chars = to_chars(ident);
    if chars.len() == 0 || !char_is_ascii_alphabetic(chars[0]) {
        return false;
    }
    let mut i: usize = 0;
    while i < chars.len()
        invariant
            i <= chars.len(),
            chars@ == ident@,
            forall|j: int|
                0 <= j < i ==> is_ascii_alphanumeric(#[trigger] chars@[j]) || chars@[j] == '_',
        decreases chars.len() - i,
    {
        if !char_is_ascii_alphanumeric(chars[i]) && chars[i] != '_' {
            assert(!(is_ascii_alphanumeric(ident@[i as int]) || ident@[i as int] == '_'));
            return false;
        }
        i += 1;
    }
    true
}

/// Glyph range.
///
/// See [`FontConverter::glyphs`] for more information.
pub trait GlyphRange: Sized {
    /// The characters in this range.
    spec fn chars(&self) -> Seq<char>;

    /// Returns all glyphs in this range.
    fn glyphs(self) -> (r: Vec<char>)
        ensures
            r@ == self.chars(),
    ;
}

impl GlyphRange for char {
    open spec fn chars(&self) -> Seq<char> {
        seq![*self]
    }

    fn glyphs(self) -> (r: Vec<char>) {
        let mut r: Vec<char> = Vec::new();
        r.push(self);
        r
    }
}

impl<'a> GlyphRange for &'a [char] {
    open spec fn chars(&self) -> Seq<char> {
        self@
    }

    fn glyphs(self) -> (r: Vec<char>) {
        let mut r: Vec<char> = Vec::new();
        let mut i: usize = 0;
        while i < self.len()
            invariant
                i <= self.len(),
                r@ == self@.take(i as int),
            decreases self.len() - i,
        {
            r.push(self[i]);
            proof {
                assert(self@.take(i + 1) == self@.take(i as int).push(self@[i as int]));
            }
            i += 1;
        }
        proof {
            assert(self@.take(self.len() as int) == self@);
        }
        r
    }
}

impl GlyphRange for core::ops::RangeInclusive<char> {
    open spec fn chars(&self) -> Seq<char> {
        if self@.exhausted || self@.start as u32 > self@.end as u32 {
            Seq::empty()
        } else {
            chars_between(self@.start as u32 as int, self@.end as u32 + 1)
        }
    }

    fn glyphs(self) -> (r: Vec<char>) {
        if inclusive_is_empty(&self) {
            Vec::new()
        } else {
            collect_chars(inclusive_start(&self) as u32, inclusive_end(&self) as u32 + 1)
        }
    }
}

impl GlyphRange for core::ops::Range<char> {
    open spec fn chars(&self) -> Seq<char> {
        chars_between(self.start as u32 as int, self.end as u32 as int)
    }

    fn glyphs(self) -> (r: Vec<char>) {
        collect_chars(self.start as u32, self.end as u32)
    }
}

impl<'a> GlyphRange for &'a str {
    open spec fn chars(&self) -> Seq<char> {
        self@
    }

    fn glyphs(self) -> (r: Vec<char>) {
        to_chars(self)
    }
}

/// Where the text of a BDF file comes from.
#[derive(Debug)]
pub enum BdfSource {
    /// A file, by its path. The library reads no files: its text has to be
    /// handed over before the font can be converted.
    File(String),
    /// The text itself.
    Text(String),
}

/// Mathematical value of a [`BdfSource`].
pub enum BdfSourceView {
    File(Seq<char>),
    Text(Seq<char>),
}

impl View for BdfSource {
    type V = BdfSourceView;

    open spec fn view(&self) -> BdfSourceView {
        match self {
            BdfSource::File(path) => BdfSourceView::File(path@),
            BdfSource::Text(text) => BdfSourceView::Text(text@),
        }
    }
}

/// Conversion error.
#[derive(Debug, Clone, PartialEq, Eq)]
pub enum ConvertError {
    /// The name of the constant is not a valid Rust identifier.
    InvalidName(String),
    /// The text of the BDF file with the given path has not been read.
    UnreadFile(String),
    /// The BDF file could not be parsed.
    Parse(ParserError),
    /// A glyph that was asked for is not contained in the BDF font.
    MissingGlyph(char),
    /// The replacement character is not included in the glyphs.
    MissingReplacement(char),
    /// The encoding of a glyph is not a code point of a character.
    InvalidCodePoint(u32),
    /// The glyph of a character has no width in the horizontal writing
    /// direction, or a negative one.
    InvalidWidth(char),
    /// The bounding box of the glyph of a character, or else that of the
    /// font or of all glyphs together, cannot be used: its size is negative,
    /// or it reaches beyond the coordinates.
    InvalidBoundingBox(Option<char>),
    /// The bitmap of the glyph of a character does not hold all pixels of
    /// its bounding box.
    IncompleteBitmap(char),
    /// A glyph has no standard encoding.
    InvalidEncoding,
    /// The converted font is too large for this machine.
    TooLarge,
}

/// Mathematical value of a [`ConvertError`].
pub enum ConvertErrorView {
    InvalidName(Seq<char>),
    UnreadFile(Seq<char>),
    Parse(ParserErrorView),
    MissingGlyph(char),
    MissingReplacement(char),
    InvalidCodePoint(u32),
    InvalidWidth(char),
    InvalidBoundingBox(Option<char>),
    IncompleteBitmap(char),
    InvalidEncoding,
    TooLarge,
}

impl View for ConvertError {
    type V = ConvertErrorView;

    open spec fn view(&self) -> ConvertErrorView {
        match self {
            ConvertError::InvalidName(name) => ConvertErrorView::InvalidName(name@),
            ConvertError::UnreadFile(path) => ConvertErrorView::UnreadFile(path@),
            ConvertError::Parse(e) => ConvertErrorView::Parse(e@),
            ConvertError::MissingGlyph(c) => ConvertErrorView::MissingGlyph(*c),
            ConvertError::MissingReplacement(c) => ConvertErrorView::MissingReplacement(*c),
            ConvertError::InvalidCodePoint(u) => ConvertErrorView::InvalidCodePoint(*u),
            ConvertError::InvalidWidth(c) => ConvertErrorView::InvalidWidth(*c),
            ConvertError::InvalidBoundingBox(c) => ConvertErrorView::InvalidBoundingBox(*c),
            ConvertError::IncompleteBitmap(c) => ConvertErrorView::IncompleteBitmap(*c),
            ConvertError::InvalidEncoding => ConvertErrorView::InvalidEncoding,
            ConvertError::TooLarge => ConvertErrorView::TooLarge,
        }
    }
}

/// Font converter.
#[derive(Debug)]
pub struct FontConverter {
    bdf: BdfSource,
    name: String,
    file_stem: String,
    replacement_character: Option<char>,
    constant_visibility: Visibility,
    embedded_graphics_crate_path: String,
    data_file_extension: String,
    data_file_path: Option<String>,
    comments: Vec<String>,
    glyphs: Vec<char>,
    missing_glyph_substitute: Option<char>,
}

/// Mathematical value of a [`FontConverter`].
pub struct ConverterView {
    pub bdf: BdfSourceView,
    pub name: Seq<char>,
    pub file_stem: Seq<char>,
    pub replacement_character: Option<char>,
    pub constant_visibility: VisibilityView,
    pub embedded_graphics_crate_path: Seq<char>,
    pub data_file_extension: Seq<char>,
    pub data_file_path: Option<Seq<char>>,
    pub comments: Seq<Seq<char>>,
    /// The characters whose glyphs are converted, in ascending order.
    pub glyphs: Seq<char>,
    pub missing_glyph_substitute: Option<char>,
}

/// The mathematical values of a list of strings.
pub open spec fn string_views(strings: Seq<String>) -> Seq<Seq<char>> {
    strings.map_values(|s: String| s@)
}

/// The mathematical value of a string that may be missing.
pub open spec fn optional_view(s: Option<String>) -> Option<Seq<char>> {
    match s {
        Some(s) => Some(s@),
        None => None,
    }
}

impl View for FontConverter {
    type V = ConverterView;

    closed spec fn view(&self) -> ConverterView {
        ConverterView {
            bdf: self.bdf@,
            name: self.name@,
            file_stem: self.file_stem@,
            replacement_character: self.replacement_character,
            constant_visibility: self.constant_visibility@,
            embedded_graphics_crate_path: self.embedded_graphics_crate_path@,
            data_file_extension: self.data_file_extension@,
            data_file_path: optional_view(self.data_file_path),
            comments: string_views(self.comments@),
            glyphs: self.glyphs@,
            missing_glyph_substitute: self.missing_glyph_substitute,
        }
    }
}

/// The converter for a font from a given source under a given name, before
/// any option is set.
pub open spec fn new_converter(bdf: BdfSourceView, name: Seq<char>) -> ConverterView {
    ConverterView {
        bdf,
        name,
        file_stem: name.map_values(|c: char| ascii_lowercase(c)),
        replacement_character: None,
        constant_visibility: VisibilityView::Pub,
        embedded_graphics_crate_path: "embedded_graphics"@,
        data_file_extension: "data"@,
        data_file_path: None,
        comments: Seq::empty(),
        glyphs: Seq::empty(),
        missing_glyph_substitute: None,
    }
}

impl FontConverter {
    #[verifier::type_invariant]
    spec fn well_formed(&self) -> bool {
        is_ascending(self.glyphs@)
    }

    /// Creates a font converter from a BDF file.
    ///
    /// The library reads no files. Hand the text of the file over with
    /// [`FontConverter::with_text`] before the font is converted.
    pub fn with_file(bdf_file: &str, name: &str) -> (r: Self)
        ensures
            r@ == new_converter(BdfSourceView::File(bdf_file@), name@),
    {
        Self::new(BdfSource::File(String::from_str(bdf_file)), name)
    }

    /// Creates a font converter from BDF data.
    pub fn with_string(bdf: &str, name: &str) -> (r: Self)
        ensures
            r@ == new_converter(BdfSourceView::Text(bdf@), name@),
    {
        Self::new(BdfSource::Text(String::from_str(bdf)), name)
    }

    /// Creates a font converter for a given source.
    pub fn new(file_or_data: BdfSource, name: &str) -> (r: Self)
        ensures
            r@ == new_converter(file_or_data@, name@),
    {
        let r = Self {
            bdf: file_or_data,
            name: String::from_str(name),
            file_stem: to_ascii_lowercase(name),
            replacement_character: None,
            constant_visibility: Visibility::Pub,
            embedded_graphics_crate_path: String::from_str("embedded_graphics"),
            data_file_extension: String::from_str("data"),
            data_file_path: None,
            comments: Vec::new(),
            glyphs: Vec::new(),
            missing_glyph_substitute: None,
        };
        proof {
            assert(string_views(r.comments@) =~= Seq::<Seq<char>>::empty());
            assert(r.glyphs@ =~= Seq::<char>::empty());
        }
        r
    }

    /// Sets the text of the BDF file, in place of a path or of another text.
    pub fn with_text(self, bdf: &str) -> (r: Self)
        ensures
            r@ == (ConverterView { bdf: BdfSourceView::Text(bdf@), ..self@ }),
    {
        proof {
            use_type_invariant(&self);
        }
        let mut r = self;
        r.bdf = BdfSource::Text(String::from_str(bdf));
        r
    }

    /// Returns the path of the BDF file whose text has not been handed over.
    pub fn bdf_file(&self) -> (r: Option<&String>)
        ensures
            match r {
                Some(path) => self@.bdf == BdfSourceView::File(path@),
                None => self@.bdf is Text,
            },
    {
        match &self.bdf {
            BdfSource::File(path) => Some(path),
            BdfSource::Text(_) => None,
        }
    }

    /// Adds glyphs to the generated font.
    ///
    /// If no specific glyph ranges are provided, all glyphs in the source
    /// BDF data are converted.
    ///
    /// To add a specific subset of glyphs this method can be called with
    /// different argument types: a character, a range of characters, a slice
    /// of characters, a string or a [`Mapping`](crate::mapping::Mapping).
    pub fn glyphs<G: GlyphRange>(self, glyphs: G) -> (r: Self)
        ensures
            is_ascending(r@.glyphs),
            r@.glyphs.to_set() == self@.glyphs.to_set().union(glyphs.chars().to_set()),
            r@ == (ConverterView { glyphs: r@.glyphs, ..self@ }),
    {
        proof {
            use_type_invariant(&self);
        }
        let added = glyphs.glyphs();
        let mut r = self;
        let mut list: Vec<char> = Vec::new();
        core::mem::swap(&mut list, &mut r.glyphs);
        let mut i: usize = 0;
        proof {
            assert(added@.take(0).to_set() =~= Set::<char>::empty());
            assert(list@.to_set() =~= self@.glyphs.to_set().union(added@.take(0).to_set()));
        }
        while i < added.len()
            invariant
                i <= added.len(),
                is_ascending(list@),
                list@.to_set() == self@.glyphs.to_set().union(added@.take(i as int).to_set()),
            decreases added.len() - i,
        {
            let ghost before = list@;
            insert_ascending(&mut list, added[i]);
            proof {
                assert(added@.take(i + 1) == added@.take(i as int).push(added@[i as int]));
                assert(added@.take(i + 1).to_set() =~= added@.take(i as int).to_set().insert(
                    added@[i as int],
                )) by {
                    let longer = added@.take(i + 1);
                    let shorter = added@.take(i as int);
                    assert forall|x: char| longer.to_set().contains(x) <==> shorter.to_set().insert(
                        added@[i as int],
                    ).contains(x) by {
                        if longer.contains(x) {
                            let k = choose|k: int| 0 <= k < longer.len() && longer[k] == x;
                            if k < i {
                                assert(shorter[k] == x);
                                assert(shorter.contains(x));
                            }
                        }
                        if shorter.contains(x) {
                            let k = choose|k: int| 0 <= k < shorter.len() && shorter[k] == x;
                            assert(longer[k] == x);
                            assert(longer.contains(x));
                        }
                        if x == added@[i as int] {
                            assert(longer[i as int] == x);
                            assert(longer.contains(x));
                        }
                    }
                }
                assert(list@.to_set() =~= self@.glyphs.to_set().union(
                    added@.take(i + 1).to_set(),
                ));
            }
            i += 1;
        }
        proof {
            assert(added@.take(added.len() as int) == added@);
        }
        r.glyphs = list;
        r
    }

    /// Returns the characters whose glyphs are converted, in ascending
    /// order. Where there is none, all glyphs of the font are converted.
    pub fn selected_glyphs(&self) -> (r: &Vec<char>)
        ensures
            r@ == self@.glyphs,
            is_ascending(r@),
    {
        proof {
            use_type_invariant(self);
        }
        &self.glyphs
    }

    /// Sets a substitution glyph for missing glyphs.
    ///
    /// If a substitution glyph is set the converter will replace missing glyphs
    /// in the BDF font by the specified glyph instead of failing with an error.
    pub fn missing_glyph_substitute(self, substitute: char) -> (r: Self)
        ensures
            r@ == (ConverterView { missing_glyph_substitute: Some(substitute), ..self@ }),
    {
        proof {
            use_type_invariant(&self);
        }
        let mut r = self;
        r.missing_glyph_substitute = Some(substitute);
        r
    }

    /// Sets the replacement character.
    ///
    /// This character will be drawn if the generated font doesn't include a glyph for a character.
    ///
    /// When the character isn't specified by calling this method it will be set
    /// to the first available character of the following fallbacks:
    /// 1. The unicode replacement character (U+FFFD)
    /// 2. A question mark: `?`
    /// 3. The first glyph in the converted font
    pub fn replacement_character(self, replacement_character: char) -> (r: Self)
        ensures
            r@ == (ConverterView { replacement_character: Some(replacement_character), ..self@ }),
    {
        proof {
            use_type_invariant(&self);
        }
        let mut r = self;
        r.replacement_character = Some(replacement_character);
        r
    }

    /// Set the visibility of the generated constant.
    ///
    /// Defaults to `pub` ([`Visibility::Pub`]) visibility.
    pub fn constant_visibility(self, visibility: Visibility) -> (r: Self)
        ensures
            r@ == (ConverterView { constant_visibility: visibility@, ..self@ }),
    {
        proof {
            use_type_invariant(&self);
        }
        let mut r = self;
        r.constant_visibility = visibility;
        r
    }

    /// Sets the type path to the embedded graphics crate.
    ///
    /// The type path is used to import `embedded_graphics` types in generated Rust code. It can be
    /// changed in case the `embedded_graphics` crate is renamed in `Cargo.toml` or the code will be
    /// used inside the `embedded_graphics` crate.
    ///
    /// Defaults to `embedded_graphics`.
    pub fn embedded_graphics_crate_path(self, path: &str) -> (r: Self)
        ensures
            r@ == (ConverterView { embedded_graphics_crate_path: path@, ..self@ }),
    {
        proof {
            use_type_invariant(&self);
        }
        let mut r = self;
        r.embedded_graphics_crate_path = String::from_str(path);
        r
    }

    /// Sets the file extension for the generated data file.
    ///
    /// Defaults to `data`.
    pub fn data_file_extension(self, extension: &str) -> (r: Self)
        ensures
            r@ == (ConverterView { data_file_extension: extension@, ..self@ }),
    {
        proof {
            use_type_invariant(&self);
        }
        let mut r = self;
        r.data_file_extension = String::from_str(extension);
        r
    }

    /// Sets the path to the data file.
    ///
    /// The data file path is prepended to the filename in `include_bytes` statements in the
    /// generated Rust code.
    ///
    /// By default the data files are expected to be stored in the same directory as the Rust files.
    pub fn data_file_path(self, path: &str) -> (r: Self)
        ensures
            r@ == (ConverterView { data_file_path: Some(path@), ..self@ }),
    {
        proof {
            use_type_invariant(&self);
        }
        let mut r = self;
        r.data_file_path = Some(String::from_str(path));
        r
    }

    /// Adds a documentation comments to the generated Rust code.
    pub fn comment(self, comment: &str) -> (r: Self)
        ensures
            r@ == (ConverterView { comments: self@.comments.push(comment@), ..self@ }),
    {
        proof {
            use_type_invariant(&self);
        }
        let mut r = self;
        let mut comments: Vec<String> = Vec::new();
        core::mem::swap(&mut comments, &mut r.comments);
        let ghost before = comments@;
        comments.push(String::from_str(comment));
        proof {
            assert(string_views(comments@) =~= string_views(before).push(comment@));
        }
        r.comments = comments;
        r
    }
}

/// A font after the selection of its glyphs.
#[derive(Debug, PartialEq)]
pub struct ConvertedFont {
    /// The font that was parsed.
    pub bdf: BdfFont,
    /// Name of the constant.
    pub name: String,
    /// Name of the generated files, without their extensions.
    pub file_stem: String,
    /// Visibility of the constant.
    pub constant_visibility: Visibility,
    /// Type path to the embedded graphics crate.
    pub embedded_graphics_crate_path: String,
    /// Extension of the data file.
    pub data_file_extension: String,
    /// Path that is put in front of the name of the data file.
    pub data_file_path: Option<String>,
    /// Documentation comments.
    pub comments: Vec<String>,
    /// The glyphs that were selected.
    pub glyphs: Vec<Glyph>,
    /// Index of the glyph that is drawn for characters without a glyph.
    pub replacement_character: usize,
    /// Ascent in pixels.
    pub ascent: u32,
    /// Descent in pixels.
    pub descent: u32,
    /// Offset of the underline below the top of a line.
    pub underline_position: u32,
    /// Height of the underline.
    pub underline_thickness: u32,
    /// Offset of the strikethrough below the top of a line.
    pub strikethrough_position: u32,
    /// Height of the strikethrough.
    pub strikethrough_thickness: u32,
}

/// Mathematical value of a [`ConvertedFont`].
pub struct ConvertedFontView {
    pub bdf: FontView,
    pub name: Seq<char>,
    pub file_stem: Seq<char>,
    pub constant_visibility: VisibilityView,
    pub embedded_graphics_crate_path: Seq<char>,
    pub data_file_extension: Seq<char>,
    pub data_file_path: Option<Seq<char>>,
    pub comments: Seq<Seq<char>>,
    pub glyphs: Seq<GlyphView>,
    pub replacement_character: nat,
    pub ascent: u32,
    pub descent: u32,
    pub underline_position: u32,
    pub underline_thickness: u32,
    pub strikethrough_position: u32,
    pub strikethrough_thickness: u32,
}

impl View for ConvertedFont {
    type V = ConvertedFontView;

    open spec fn view(&self) -> ConvertedFontView {
        ConvertedFontView {
            bdf: self.bdf@,
            name: self.name@,
            file_stem: self.file_stem@,
            constant_visibility: self.constant_visibility@,
            embedded_graphics_crate_path: self.embedded_graphics_crate_path@,
            data_file_extension: self.data_file_extension@,
            data_file_path: optional_view(self.data_file_path),
            comments: string_views(self.comments@),
            glyphs: glyph_views(self.glyphs@),
            replacement_character: self.replacement_character as nat,
            ascent: self.ascent,
            descent: self.descent,
            underline_position: self.underline_position,
            underline_thickness: self.underline_thickness,
            strikethrough_position: self.strikethrough_position,
            strikethrough_thickness: self.strikethrough_thickness,
        }
    }
}

/// Index of the first glyph that answers for a character.
pub open spec fn glyph_index_of(glyphs: Seq<GlyphView>, c: char) -> Option<nat> {
    let i = first_with_encoding(glyphs, Encoding::Standard(c as u32), 0);
    if 0 <= i < glyphs.len() {
        Some(i as nat)
    } else {
        None
    }
}

/// The glyph that is converted for a character: its own glyph or, where the
/// font has none and a substitute is set, the glyph of the substitute, which
/// then answers for the character.
pub open spec fn select_glyph(font: Seq<GlyphView>, c: char, substitute: Option<char>) -> Result<
    GlyphView,
    ConvertErrorView,
> {
    let glyph_c = if glyph_index_of(font, c).is_none() && substitute.is_some() {
        substitute.unwrap()
    } else {
        c
    };
    match glyph_index_of(font, glyph_c) {
        Some(i) => Ok(GlyphView { encoding: Encoding::Standard(c as u32), ..font[i as int] }),
        None => Err(ConvertErrorView::MissingGlyph(glyph_c)),
    }
}

/// The glyphs that are converted for a list of characters, or the error for
/// the first character without a glyph.
pub open spec fn select_glyphs(font: Seq<GlyphView>, chars: Seq<char>, substitute: Option<char>)
    -> Result<Seq<GlyphView>, ConvertErrorView>
    decreases chars.len(),
{
    if chars.len() == 0 {
        Ok(Seq::empty())
    } else {
        match select_glyphs(font, chars.drop_last(), substitute) {
            Err(e) => Err(e),
            Ok(glyphs) => match select_glyph(font, chars.last(), substitute) {
                Err(e) => Err(e),
                Ok(glyph) => Ok(glyphs.push(glyph)),
            },
        }
    }
}

/// A metric of the font that is read from an integer property: zero where
/// the property is missing, is no integer or is negative.
pub open spec fn metric(properties: Map<Seq<char>, PropertyValueView>, name: Seq<char>) -> u32 {
    if properties.contains_key(name) {
        match properties[name] {
            PropertyValueView::Int(value) => if value >= 0 {
                value as u32
            } else {
                0
            },
            PropertyValueView::Text(_) => 0,
        }
    } else {
        0
    }
}

/// Index of the glyph that is drawn for characters without a glyph: that of
/// the configured character, which must be among the glyphs; else that of
/// the Unicode replacement character, of the question mark, or the first
/// glyph.
pub open spec fn replacement_index(glyphs: Seq<GlyphView>, configured: Option<char>) -> Result<
    nat,
    ConvertErrorView,
> {
    match configured {
        Some(c) => match glyph_index_of(glyphs, c) {
            Some(i) => Ok(i),
            None => Err(ConvertErrorView::MissingReplacement(c)),
        },
        None => match glyph_index_of(glyphs, '\u{FFFD}') {
            Some(i) => Ok(i),
            None => match glyph_index_of(glyphs, '?') {
                Some(i) => Ok(i),
                None => Ok(0),
            },
        },
    }
}

/// The converted font for a parsed font and the options of a converter.
pub open spec fn convert_font(config: ConverterView, font: FontView) -> Result<
    ConvertedFontView,
    ConvertErrorView,
> {
    let selected = if config.glyphs.len() == 0 {
        Ok(font.glyphs)
    } else {
        select_glyphs(font.glyphs, config.glyphs, config.missing_glyph_substitute)
    };
    match selected {
        Err(e) => Err(e),
        Ok(glyphs) => match replacement_index(glyphs, config.replacement_character) {
            Err(e) => Err(e),
            Ok(replacement_character) => {
                let ascent = metric(font.metadata.properties, "FONT_ASCENT"@);
                let descent = metric(font.metadata.properties, "FONT_DESCENT"@);
                Ok(
                    ConvertedFontView {
                        bdf: font,
                        name: config.name,
                        file_stem: config.file_stem,
                        constant_visibility: config.constant_visibility,
                        embedded_graphics_crate_path: config.embedded_graphics_crate_path,
                        data_file_extension: config.data_file_extension,
                        data_file_path: config.data_file_path,
                        comments: config.comments,
                        glyphs,
                        replacement_character,
                        ascent,
                        descent,
                        underline_position: (ascent + 1) as u32,
                        underline_thickness: 1,
                        strikethrough_position: ((ascent + descent) / 2) as u32,
                        strikethrough_thickness: 1,
                    },
                )
            },
        },
    }
}

/// The result of a conversion. The name must be an identifier and the text
/// of the BDF file must be at hand and hold a font; then the glyphs are
/// selected.
pub open spec fn convert_spec(config: ConverterView) -> Result<
    ConvertedFontView,
    ConvertErrorView,
> {
    if !is_identifier(config.name) {
        Err(ConvertErrorView::InvalidName(config.name))
    } else {
        match config.bdf {
            BdfSourceView::File(path) => Err(ConvertErrorView::UnreadFile(path)),
            BdfSourceView::Text(text) => match parse_font(tokenize(text)) {
                Err(e) => Err(ConvertErrorView::Parse(e)),
                Ok(font) => convert_font(config, font),
            },
        }
    }
}

/// Copies a list of strings.
fn clone_strings(strings: &Vec<String>) -> (r: Vec<String>)
    ensures
        string_views(r@) == string_views(strings@),
{
    let mut r: Vec<String> = Vec::new();
    let mut i: usize = 0;
    while i < strings.len()
        invariant
            i <= strings.len(),
            string_views(r@) == string_views(strings@.take(i as int)),
        decreases strings.len() - i,
    {
        let ghost before = r@;
        let copy = strings[i].clone();
        r.push(copy);
        proof {
            assert(strings@.take(i + 1) == strings@.take(i as int).push(strings@[i as int]));
            assert(string_views(before.push(copy)) =~= string_views(before).push(copy@));
            assert(string_views(strings@.take(i + 1)) =~= string_views(
                strings@.take(i as int),
            ).push(strings@[i as int]@));
        }
        i += 1;
    }
    proof {
        assert(strings@.take(strings.len() as int) == strings@);
    }
    r
}

/// Copies a list of glyphs.
pub fn clone_glyphs(glyphs: &Vec<Glyph>) -> (r: Vec<Glyph>)
    ensures
        glyph_views(r@) == glyph_views(glyphs@),
{
    let mut r: Vec<Glyph> = Vec::new();
    let mut i: usize = 0;
    while i < glyphs.len()
        invariant
            i <= glyphs.len(),
            glyph_views(r@) == glyph_views(glyphs@.take(i as int)),
        decreases glyphs.len() - i,
    {
        let ghost before = r@;
        let copy = glyphs[i].clone();
        r.push(copy);
        proof {
            assert(glyphs@.take(i + 1) == glyphs@.take(i as int).push(glyphs@[i as int]));
            assert(glyph_views(before.push(copy)) =~= glyph_views(before).push(copy@));
            assert(glyph_views(glyphs@.take(i + 1)) =~= glyph_views(glyphs@.take(i as int)).push(
                glyphs@[i as int]@,
            ));
        }
        i += 1;
    }
    proof {
        assert(glyphs@.take(glyphs.len() as int) == glyphs@);
    }
    r
}

/// Finds the first glyph that answers for a character.
pub fn find_glyph(glyphs: &Vec<Glyph>, c: char) -> (r: Option<usize>)
    ensures
        match r {
            Some(i) => glyph_index_of(glyph_views(glyphs@), c) == Some(i as nat),
            None => glyph_index_of(glyph_views(glyphs@), c).is_none(),
        },
{
    let encoding = Encoding::Standard(c as u32);
    let mut i: usize = 0;
    while i < glyphs.len()
        invariant
            i <= glyphs.len(),
            encoding == Encoding::Standard(c as u32),
            first_with_encoding(glyph_views(glyphs@), encoding, i as int) == first_with_encoding(
                glyph_views(glyphs@),
                encoding,
                0,
            ),
        decreases glyphs.len() - i,
    {
        if glyphs[i].encoding == encoding {
            return Some(i);
        }
        i += 1;
    }
    None
}

/// Selects the glyphs for a list of characters from a list of glyphs.
pub fn select_from(all: &Vec<Glyph>, chars: &Vec<char>, substitute: Option<char>) -> (r: Result<
    Vec<Glyph>,
    ConvertError,
>)
    ensures
        match r {
            Ok(glyphs) => select_glyphs(glyph_views(all@), chars@, substitute) == Ok::<
                _,
                ConvertErrorView,
            >(glyph_views(glyphs@)),
            Err(e) => select_glyphs(glyph_views(all@), chars@, substitute) == Err::<
                Seq<GlyphView>,
                _,
            >(e@),
        },
{
    let mut glyphs: Vec<Glyph> = Vec::new();
    let mut i: usize = 0;
    proof {
        assert(glyph_views(glyphs@) =~= Seq::<GlyphView>::empty());
    }
    while i < chars.len()
        invariant
            i <= chars.len(),
            select_glyphs(glyph_views(all@), chars@.take(i as int), substitute) == Ok::<
                _,
                ConvertErrorView,
            >(glyph_views(glyphs@)),
        decreases chars.len() - i,
    {
        let c = chars[i];
        proof {
            assert(chars@.take(i + 1).drop_last() == chars@.take(i as int));
        }
        let glyph_c = if find_glyph(all, c).is_none() && substitute.is_some() {
            substitute.unwrap()
        } else {
            c
        };
        match find_glyph(all, glyph_c) {
            Some(index) => {
                let mut glyph = all[index].clone();
                // replace glyph encoding for substitutes
                glyph.encoding = Encoding::Standard(c as u32);
                proof {
                    assert(glyph_views(glyphs@.push(glyph)) =~= glyph_views(glyphs@).push(glyph@));
                }
                glyphs.push(glyph);
            },
            None => {
                proof {
                    lemma_select_glyphs_error(glyph_views(all@), chars@, substitute, i + 1);
                }
                return Err(ConvertError::MissingGlyph(glyph_c));
            },
        }
        i += 1;
    }
    proof {
        assert(chars@.take(chars.len() as int) == chars@);
    }
    Ok(glyphs)
}

/// The error for the characters up to some point is the error for all
/// characters.
pub proof fn lemma_select_glyphs_error(
    font: Seq<GlyphView>,
    chars: Seq<char>,
    substitute: Option<char>,
    n: int,
)
    requires
        0 <= n <= chars.len(),
        select_glyphs(font, chars.take(n), substitute).is_err(),
    ensures
        select_glyphs(font, chars, substitute) == select_glyphs(font, chars.take(n), substitute),
    decreases chars.len() - n,
{
    if n < chars.len() {
        assert(chars.take(n + 1).drop_last() == chars.take(n));
        lemma_select_glyphs_error(font, chars, substitute, n + 1);
    } else {
        assert(chars.take(n) == chars);
    }
}

impl ConvertedFont {
    /// Returns the index of the first glyph that answers for a character.
    pub fn glyph_index(&self, c: char) -> (r: Option<usize>)
        ensures
            match r {
                Some(i) => glyph_index_of(self@.glyphs, c) == Some(i as nat),
                None => glyph_index_of(self@.glyphs, c).is_none(),
            },
    {
        find_glyph(&self.glyphs, c)
    }

    /// Maps a character to the index of its glyph; a character without a
    /// glyph to the first glyph.
    pub fn index(&self, c: char) -> (r: usize)
        ensures
            r == match glyph_index_of(self@.glyphs, c) {
                Some(i) => i,
                None => 0,
            },
    {
        match find_glyph(&self.glyphs, c) {
            Some(i) => i,
            None => 0,
        }
    }
}

/// Reads a metric of the font from an integer property.
fn read_metric(font: &BdfFont, property: Property) -> (r: u32)
    ensures
        r == metric(font@.metadata.properties, property.name()),
{
    match font.metadata.properties.try_get::<i32>(property) {
        Ok(Some(value)) => {
            if value >= 0 {
                value as u32
            } else {
                0
            }
        },
        _ => 0,
    }
}

impl FontConverter {
    /// Selects the glyphs of a parsed font and derives its metrics.
    pub fn convert_parsed(&self, font: BdfFont) -> (r: Result<ConvertedFont, ConvertError>)
        ensures
            match r {
                Ok(converted) => convert_font(self@, font@) == Ok::<_, ConvertErrorView>(
                    converted@,
                ),
                Err(e) => convert_font(self@, font@) == Err::<ConvertedFontView, _>(e@),
            },
    {
        let glyphs = if self.glyphs.len() == 0 {
            clone_glyphs(font.glyphs.iter())
        } else {
            match select_from(font.glyphs.iter(), &self.glyphs, self.missing_glyph_substitute) {
                Ok(glyphs) => glyphs,
                Err(e) => {
                    return Err(e);
                },
            }
        };
        let ascent = read_metric(&font, Property::FontAscent);
        let descent = read_metric(&font, Property::FontDescent);
        let underline_position: u32 = ascent + 1;
        let underline_thickness: u32 = 1;
        let strikethrough_position: u32 = ((ascent as u64 + descent as u64) / 2) as u32;
        let strikethrough_thickness: u32 = 1;
        let replacement_character = match self.replacement_character {
            Some(c) => match find_glyph(&glyphs, c) {
                Some(index) => index,
                None => {
                    return Err(ConvertError::MissingReplacement(c));
                },
            },
            None => match find_glyph(&glyphs, '\u{FFFD}') {
                Some(index) => index,
                None => match find_glyph(&glyphs, '?') {
                    Some(index) => index,
                    None => 0,
                },
            },
        };
        Ok(
            ConvertedFont {
                bdf: font,
                name: self.name.clone(),
                file_stem: self.file_stem.clone(),
                glyphs,
                replacement_character,
                constant_visibility: self.constant_visibility.clone(),
                embedded_graphics_crate_path: self.embedded_graphics_crate_path.clone(),
                data_file_extension: self.data_file_extension.clone(),
                data_file_path: match &self.data_file_path {
                    Some(path) => Some(path.clone()),
                    None => None,
                },
                comments: clone_strings(&self.comments),
                ascent,
                descent,
                underline_position,
                underline_thickness,
                strikethrough_position,
                strikethrough_thickness,
            },
        )
    }

    /// Parses the font and selects its glyphs.
    pub fn convert(&self) -> (r: Result<ConvertedFont, ConvertError>)
        ensures
            match r {
                Ok(converted) => convert_spec(self@) == Ok::<_, ConvertErrorView>(converted@),
                Err(e) => convert_spec(self@) == Err::<ConvertedFontView, _>(e@),
            },
    {
        if !is_valid_identifier(self.name.as_str()) {
            return Err(ConvertError::InvalidName(self.name.clone()));
        }
        let font = match &self.bdf {
            BdfSource::File(path) => {
                return Err(ConvertError::UnreadFile(path.clone()));
            },
            BdfSource::Text(text) => match BdfFont::parse(text.as_str()) {
                Ok(font) => font,
                Err(e) => {
                    return Err(ConvertError::Parse(e));
                },
            },
        };
        self.convert_parsed(font)
    }
}

} // verus!
