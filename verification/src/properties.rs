//! The properties block of a BDF file: a map from names to texts and
//! integers.

use crate::parser::{LineView, Lines, ParserError, ParserErrorView};
use crate::text::{parse_i32, parse_i32_chars, parse_usize, parse_usize_chars, to_chars};
use vstd::prelude::*;

verus! {

/// BDF file property.
///
/// The names are those of the X Logical Font Description.
#[derive(Debug, PartialEq, Copy, Clone, Eq, PartialOrd, Ord)]
pub enum Property {
    /// ADD_STYLE_NAME
    AddStyleName,
    /// AVERAGE_WIDTH
    AverageWidth,
    /// AVG_CAPITAL_WIDTH
    AvgCapitalWidth,
    /// AVG_LOWERCASE_WIDTH
    AvgLowercaseWidth,
    /// AXIS_LIMITS
    AxisLimits,
    /// AXIS_NAMES
    AxisNames,
    /// AXIS_TYPES
    AxisTypes,
    /// CAP_HEIGHT
    CapHeight,
    /// CHARSET_ENCODING
    CharsetEncoding,
    /// CHARSET_REGISTRY
    CharsetRegistry,
    /// COPYRIGHT
    Copyright,
    /// DEFAULT_CHAR
    DefaultChar,
    /// DESTINATION
    Destination,
    /// END_SPACE
    EndSpace,
    /// FACE_NAME
    FaceName,
    /// FAMILY_NAME
    FamilyName,
    /// FIGURE_WIDTH
    FigureWidth,
    /// FONT
    Font,
    /// FONT_ASCENT
    FontAscent,
    /// FONT_DESCENT
    FontDescent,
    /// FONT_TYPE
    FontType,
    /// FONT_VERSION
    FontVersion,
    /// FOUNDRY
    Foundry,
    /// FULL_NAME
    FullName,
    /// ITALIC_ANGLE
    ItalicAngle,
    /// MAX_SPACE
    MaxSpace,
    /// MIN_SPACE
    MinSpace,
    /// NORM_SPACE
    NormSpace,
    /// NOTICE
    Notice,
    /// PIXEL_SIZE
    PixelSize,
    /// POINT_SIZE
    PointSize,
    /// QUAD_WIDTH
    QuadWidth,
    /// RASTERIZER_NAME
    RasterizerName,
    /// RASTERIZER_VERSION
    RasterizerVersion,
    /// RAW_ASCENT
    RawAscent,
    /// RAW_DESCENT
    RawDescent,
    /// RELATIVE_SETWIDTH
    RelativeSetwidth,
    /// RELATIVE_WEIGHT
    RelativeWeight,
    /// RESOLUTION
    Resolution,
    /// RESOLUTION_X
    ResolutionX,
    /// RESOLUTION_Y
    ResolutionY,
    /// SETWIDTH_NAME
    SetwidthName,
    /// SLANT
    Slant,
    /// SMALL_CAP_SIZE
    SmallCapSize,
    /// SPACING
    Spacing,
    /// STRIKEOUT_ASCENT
    StrikeoutAscent,
    /// STRIKEOUT_DESCENT
    StrikeoutDescent,
    /// SUBSCRIPT_SIZE
    SubscriptSize,
    /// SUBSCRIPT_X
    SubscriptX,
    /// SUBSCRIPT_Y
    SubscriptY,
    /// SUPERSCRIPT_SIZE
    SuperscriptSize,
    /// SUPERSCRIPT_X
    SuperscriptX,
    /// SUPERSCRIPT_Y
    SuperscriptY,
    /// UNDERLINE_POSITION
    UnderlinePosition,
    /// UNDERLINE_THICKNESS
    UnderlineThickness,
    /// WEIGHT
    Weight,
    /// WEIGHT_NAME
    WeightName,
    /// X_HEIGHT
    XHeight,
}

impl Property {
    /// The name under which the property stands in a BDF file.
    pub open spec fn name(self) -> Seq<char> {
        match self {
            Property::AddStyleName => "ADD_STYLE_NAME"@,
            Property::AverageWidth => "AVERAGE_WIDTH"@,
            Property::AvgCapitalWidth => "AVG_CAPITAL_WIDTH"@,
            Property::AvgLowercaseWidth => "AVG_LOWERCASE_WIDTH"@,
            Property::AxisLimits => "AXIS_LIMITS"@,
            Property::AxisNames => "AXIS_NAMES"@,
            Property::AxisTypes => "AXIS_TYPES"@,
            Property::CapHeight => "CAP_HEIGHT"@,
            Property::CharsetEncoding => "CHARSET_ENCODING"@,
            Property::CharsetRegistry => "CHARSET_REGISTRY"@,
            Property::Copyright => "COPYRIGHT"@,
            Property::DefaultChar => "DEFAULT_CHAR"@,
            Property::Destination => "DESTINATION"@,
            Property::EndSpace => "END_SPACE"@,
            Property::FaceName => "FACE_NAME"@,
            Property::FamilyName => "FAMILY_NAME"@,
            Property::FigureWidth => "FIGURE_WIDTH"@,
            Property::Font => "FONT"@,
            Property::FontAscent => "FONT_ASCENT"@,
            Property::FontDescent => "FONT_DESCENT"@,
            Property::FontType => "FONT_TYPE"@,
            Property::FontVersion => "FONT_VERSION"@,
            Property::Foundry => "FOUNDRY"@,
            Property::FullName => "FULL_NAME"@,
            Property::ItalicAngle => "ITALIC_ANGLE"@,
            Property::MaxSpace => "MAX_SPACE"@,
            Property::MinSpace => "MIN_SPACE"@,
            Property::NormSpace => "NORM_SPACE"@,
            Property::Notice => "NOTICE"@,
            Property::PixelSize => "PIXEL_SIZE"@,
            Property::PointSize => "POINT_SIZE"@,
            Property::QuadWidth => "QUAD_WIDTH"@,
            Property::RasterizerName => "RASTERIZER_NAME"@,
            Property::RasterizerVersion => "RASTERIZER_VERSION"@,
            Property::RawAscent => "RAW_ASCENT"@,
            Property::RawDescent => "RAW_DESCENT"@,
            Property::RelativeSetwidth => "RELATIVE_SETWIDTH"@,
            Property::RelativeWeight => "RELATIVE_WEIGHT"@,
            Property::Resolution => "RESOLUTION"@,
            Property::ResolutionX => "RESOLUTION_X"@,
            Property::ResolutionY => "RESOLUTION_Y"@,
            Property::SetwidthName => "SETWIDTH_NAME"@,
            Property::Slant => "SLANT"@,
            Property::SmallCapSize => "SMALL_CAP_SIZE"@,
            Property::Spacing => "SPACING"@,
            Property::StrikeoutAscent => "STRIKEOUT_ASCENT"@,
            Property::StrikeoutDescent => "STRIKEOUT_DESCENT"@,
            Property::SubscriptSize => "SUBSCRIPT_SIZE"@,
            Property::SubscriptX => "SUBSCRIPT_X"@,
            Property::SubscriptY => "SUBSCRIPT_Y"@,
            Property::SuperscriptSize => "SUPERSCRIPT_SIZE"@,
            Property::SuperscriptX => "SUPERSCRIPT_X"@,
            Property::SuperscriptY => "SUPERSCRIPT_Y"@,
            Property::UnderlinePosition => "UNDERLINE_POSITION"@,
            Property::UnderlineThickness => "UNDERLINE_THICKNESS"@,
            Property::Weight => "WEIGHT"@,
            Property::WeightName => "WEIGHT_NAME"@,
            Property::XHeight => "X_HEIGHT"@,
        }
    }

    /// Returns the name under which the property stands in a BDF file.
    pub fn to_string(&self) -> (s: String)
        ensures
            s@ == self.name(),
    {
        let name: &str = match self {
            Property::AddStyleName => "ADD_STYLE_NAME",
            Property::AverageWidth => "AVERAGE_WIDTH",
            Property::AvgCapitalWidth => "AVG_CAPITAL_WIDTH",
            Property::AvgLowercaseWidth => "AVG_LOWERCASE_WIDTH",
            Property::AxisLimits => "AXIS_LIMITS",
            Property::AxisNames => "AXIS_NAMES",
            Property::AxisTypes => "AXIS_TYPES",
            Property::CapHeight => "CAP_HEIGHT",
            Property::CharsetEncoding => "CHARSET_ENCODING",
            Property::CharsetRegistry => "CHARSET_REGISTRY",
            Property::Copyright => "COPYRIGHT",
            Property::DefaultChar => "DEFAULT_CHAR",
            Property::Destination => "DESTINATION",
            Property::EndSpace => "END_SPACE",
            Property::FaceName => "FACE_NAME",
            Property::FamilyName => "FAMILY_NAME",
            Property::FigureWidth => "FIGURE_WIDTH",
            Property::Font => "FONT",
            Property::FontAscent => "FONT_ASCENT",
            Property::FontDescent => "FONT_DESCENT",
            Property::FontType => "FONT_TYPE",
            Property::FontVersion => "FONT_VERSION",
            Property::Foundry => "FOUNDRY",
            Property::FullName => "FULL_NAME",
            Property::ItalicAngle => "ITALIC_ANGLE",
            Property::MaxSpace => "MAX_SPACE",
            Property::MinSpace => "MIN_SPACE",
            Property::NormSpace => "NORM_SPACE",
            Property::Notice => "NOTICE",
            Property::PixelSize => "PIXEL_SIZE",
            Property::PointSize => "POINT_SIZE",
            Property::QuadWidth => "QUAD_WIDTH",
            Property::RasterizerName => "RASTERIZER_NAME",
            Property::RasterizerVersion => "RASTERIZER_VERSION",
            Property::RawAscent => "RAW_ASCENT",
            Property::RawDescent => "RAW_DESCENT",
            Property::RelativeSetwidth => "RELATIVE_SETWIDTH",
            Property::RelativeWeight => "RELATIVE_WEIGHT",
            Property::Resolution => "RESOLUTION",
            Property::ResolutionX => "RESOLUTION_X",
            Property::ResolutionY => "RESOLUTION_Y",
            Property::SetwidthName => "SETWIDTH_NAME",
            Property::Slant => "SLANT",
            Property::SmallCapSize => "SMALL_CAP_SIZE",
            Property::Spacing => "SPACING",
            Property::StrikeoutAscent => "STRIKEOUT_ASCENT",
            Property::StrikeoutDescent => "STRIKEOUT_DESCENT",
            Property::SubscriptSize => "SUBSCRIPT_SIZE",
            Property::SubscriptX => "SUBSCRIPT_X",
            Property::SubscriptY => "SUBSCRIPT_Y",
            Property::SuperscriptSize => "SUPERSCRIPT_SIZE",
            Property::SuperscriptX => "SUPERSCRIPT_X",
            Property::SuperscriptY => "SUPERSCRIPT_Y",
            Property::UnderlinePosition => "UNDERLINE_POSITION",
            Property::UnderlineThickness => "UNDERLINE_THICKNESS",
            Property::Weight => "WEIGHT",
            Property::WeightName => "WEIGHT_NAME",
            Property::XHeight => "X_HEIGHT",
        };
        String::from_str(name)
    }
}

/// Property value.
#[derive(Debug, Clone, PartialEq, Eq)]
pub enum PropertyValue {
    /// A text, without the quotes that surround it in the file.
    Text(String),
    /// An integer.
    Int(i32),
}

/// Mathematical value of a [`PropertyValue`].
pub enum PropertyValueView {
    Text(Seq<char>),
    Int(i32),
}

impl View for PropertyValue {
    type V = PropertyValueView;

    open spec fn view(&self) -> PropertyValueView {
        match self {
            PropertyValue::Text(text) => PropertyValueView::Text(text@),
            PropertyValue::Int(number) => PropertyValueView::Int(*number),
        }
    }
}

/// Invalid property type error.
#[derive(Debug, Clone, Copy, PartialEq, Eq, PartialOrd, Ord)]
pub struct PropertyTypeError;

/// Types as which a property value can be read.
pub trait PropertyType: Sized {
    /// The value can be read as this type.
    spec fn readable(value: PropertyValueView) -> bool;

    /// `out` is what the value reads as.
    spec fn reads_as(value: PropertyValueView, out: Self) -> bool;

    /// Reads a property value as this type.
    fn from_value(value: &PropertyValue) -> (r: Result<Self, PropertyTypeError>)
        ensures
            match r {
                Ok(out) => Self::readable(value@) && Self::reads_as(value@, out),
                Err(_) => !Self::readable(value@),
            },
    ;
}

impl PropertyType for String {
    open spec fn readable(value: PropertyValueView) -> bool {
        value is Text
    }

    open spec fn reads_as(value: PropertyValueView, out: Self) -> bool {
        value == PropertyValueView::Text(out@)
    }

    fn from_value(value: &PropertyValue) -> (r: Result<Self, PropertyTypeError>) {
        match value {
            PropertyValue::Text(text) => Ok(text.clone()),
            _ => Err(PropertyTypeError),
        }
    }
}

impl PropertyType for i32 {
    open spec fn readable(value: PropertyValueView) -> bool {
        value is Int
    }

    open spec fn reads_as(value: PropertyValueView, out: Self) -> bool {
        value == PropertyValueView::Int(out)
    }

    fn from_value(value: &PropertyValue) -> (r: Result<Self, PropertyTypeError>) {
        match value {
            PropertyValue::Int(number) => Ok(*number),
            _ => Err(PropertyTypeError),
        }
    }
}

impl PropertyType for u32 {
    open spec fn readable(value: PropertyValueView) -> bool {
        value matches PropertyValueView::Int(number) && number >= 0
    }

    open spec fn reads_as(value: PropertyValueView, out: Self) -> bool {
        value matches PropertyValueView::Int(number) && number == out
    }

    fn from_value(value: &PropertyValue) -> (r: Result<Self, PropertyTypeError>) {
        match value {
            PropertyValue::Int(number) => {
                if *number >= 0 {
                    Ok(*number as u32)
                } else {
                    Err(PropertyTypeError)
                }
            },
            _ => Err(PropertyTypeError),
        }
    }
}

/// The text between the quotes of a property, where two quotes in a row
/// stand for one.
pub open spec fn unescape_quotes(s: Seq<char>) -> Seq<char>
    decreases s.len(),
{
    if s.len() == 0 {
        Seq::empty()
    } else if s.len() >= 2 && s[0] == '"' && s[1] == '"' {
        seq!['"'] + unescape_quotes(s.skip(2))
    } else {
        seq![s[0]] + unescape_quotes(s.skip(1))
    }
}

/// The value that the parameters of a property line denote: an integer, or
/// a text in double quotes.
pub open spec fn property_value(parameters: Seq<char>) -> Option<PropertyValueView> {
    match parse_i32(parameters) {
        Some(number) => Some(PropertyValueView::Int(number)),
        None => if parameters.len() >= 2 && parameters[0] == '"' && parameters.last() == '"' {
            Some(
                PropertyValueView::Text(
                    unescape_quotes(parameters.subrange(1, parameters.len() - 1)),
                ),
            )
        } else {
            None
        },
    }
}

/// What a parser has read from a sequence of lines: its result, and the
/// lines that it has left.
pub struct Parsed<T> {
    pub result: Result<T, ParserErrorView>,
    pub rest: Seq<LineView>,
}

/// The properties that the lines up to `ENDPROPERTIES`, or up to the end of
/// the input, add to `found`. A later value of a name replaces an earlier
/// one.
pub open spec fn property_lines(
    lines: Seq<LineView>,
    found: Map<Seq<char>, PropertyValueView>,
) -> Parsed<Map<Seq<char>, PropertyValueView>>
    decreases lines.len(),
{
    if lines.len() == 0 {
        Parsed { result: Ok(found), rest: lines }
    } else if lines[0].keyword == "ENDPROPERTIES"@ {
        Parsed { result: Ok(found), rest: lines.skip(1) }
    } else {
        match property_value(lines[0].parameters) {
            Some(value) => property_lines(lines.skip(1), found.insert(lines[0].keyword, value)),
            None => Parsed {
                result: Err(
                    ParserErrorView {
                        message: "invalid property"@,
                        line_number: Some(lines[0].line_number),
                    },
                ),
                rest: lines.skip(1),
            },
        }
    }
}

/// The properties block that starts with the first of the lines. The number
/// on its first line must be an unsigned integer; it is not compared with the
/// number of properties that follow.
pub open spec fn properties_block(lines: Seq<LineView>) -> Parsed<
    Map<Seq<char>, PropertyValueView>,
> {
    if parse_usize(lines[0].parameters).is_none() {
        Parsed {
            result: Err(
                ParserErrorView {
                    message: "invalid \"STARTPROPERTIES\""@,
                    line_number: Some(lines[0].line_number),
                },
            ),
            rest: lines.skip(1),
        }
    } else {
        property_lines(lines.skip(1), Map::empty())
    }
}

/// The map that a list of entries stands for: a later entry replaces an
/// earlier one of the same name.
pub open spec fn entries_map(entries: Seq<(String, PropertyValue)>) -> Map<
    Seq<char>,
    PropertyValueView,
>
    decreases entries.len(),
{
    if entries.len() == 0 {
        Map::empty()
    } else {
        entries_map(entries.drop_last()).insert(entries.last().0@, entries.last().1@)
    }
}

/// Reads the value of a property from the parameters of its line.
pub fn parse_property_value(parameters: &str) -> (r: Option<PropertyValue>)
    ensures
        match r {
            Some(value) => property_value(parameters@) == Some(value@),
            None => property_value(parameters@).is_none(),
        },
{
    let chars = to_chars(parameters);
    let n = chars.len();
    proof {
        assert(chars@.subrange(0, n as int) == chars@);
    }
    match parse_i32_chars(&chars, 0, n) {
        Some(number) => Some(PropertyValue::Int(number)),
        None => {
            if n >= 2 && chars[0] == '"' && chars[n - 1] == '"' {
                let ghost inner = chars@.subrange(1, n - 1);
                let mut text = String::new();
                let mut i: usize = 1;
                proof {
                    assert(inner.skip(0) == inner);
                    assert(text@ + unescape_quotes(inner) == unescape_quotes(inner));
                }
                while i < n - 1
                    invariant
                        1 <= i <= n - 1,
                        n == chars.len(),
                        inner == chars@.subrange(1, n - 1),
                        text@ + unescape_quotes(inner.skip(i - 1)) == unescape_quotes(inner),
                    decreases n - i,
                {
                    let ghost tail = inner.skip(i - 1);
                    assert(tail[0] == chars[i as int]);
                    if i + 1 < n - 1 && chars[i] == '"' && chars[i + 1] == '"' {
                        proof {
                            assert(tail[1] == chars[i + 1]);
                            assert(tail.skip(2) == inner.skip(i + 1));
                            assert(text@.push('"') + unescape_quotes(tail.skip(2)) == text@ + (
                            seq!['"'] + unescape_quotes(tail.skip(2))));
                        }
                        text.push('"');
                        i += 2;
                    } else {
                        proof {
                            assert(tail.skip(1) == inner.skip(i as int));
                            assert(text@.push(chars[i as int]) + unescape_quotes(tail.skip(1))
                                == text@ + (seq![tail[0]] + unescape_quotes(tail.skip(1))));
                        }
                        text.push(chars[i]);
                        i += 1;
                    }
                }
                proof {
                    assert(inner.skip(n - 2).len() == 0);
                    assert(text@ + Seq::<char>::empty() == text@);
                }
                Some(PropertyValue::Text(text))
            } else {
                None
            }
        },
    }
}

/// BDF file properties.
///
/// Two values are equal if they hold the same properties with the same
/// values, in whatever order they were set.
#[derive(Debug, Default, Clone, Eq)]
pub struct Properties {
    entries: Vec<(String, PropertyValue)>,
}

impl PartialEq for Properties {
    fn eq(&self, other: &Self) -> (r: bool) {
        let r = self.is_part_of(other) && other.is_part_of(self);
        proof {
            if r {
                assert(self@ =~= other@);
            }
        }
        r
    }
}

impl vstd::std_specs::cmp::PartialEqSpecImpl for Properties {
    open spec fn obeys_eq_spec() -> bool {
        true
    }

    open spec fn eq_spec(&self, other: &Self) -> bool {
        self@ == other@
    }
}

/// The name of every entry is a name of the map.
pub proof fn lemma_entry_is_in_map(entries: Seq<(String, PropertyValue)>, i: int)
    requires
        0 <= i < entries.len(),
    ensures
        entries_map(entries).contains_key(entries[i].0@),
    decreases entries.len(),
{
    if i < entries.len() - 1 {
        lemma_entry_is_in_map(entries.drop_last(), i);
    }
}

/// Every name of the map is the name of an entry.
pub proof fn lemma_map_name_is_entry(entries: Seq<(String, PropertyValue)>, name: Seq<char>)
    requires
        entries_map(entries).contains_key(name),
    ensures
        exists|i: int| 0 <= i < entries.len() && (#[trigger] entries[i]).0@ == name,
    decreases entries.len(),
{
    if entries.len() > 0 {
        if entries.last().0@ == name {
            assert(entries[entries.len() - 1].0@ == name);
        } else {
            lemma_map_name_is_entry(entries.drop_last(), name);
            let i = choose|i: int|
                0 <= i < entries.drop_last().len() && (#[trigger] entries.drop_last()[i]).0@
                    == name;
            assert(entries[i].0@ == name);
        }
    }
}

/// Tests whether two property values are equal.
pub fn values_equal(a: &PropertyValue, b: &PropertyValue) -> (r: bool)
    ensures
        r == (a@ == b@),
{
    match (a, b) {
        (PropertyValue::Text(x), PropertyValue::Text(y)) => x.as_str().eq(y.as_str()),
        (PropertyValue::Int(x), PropertyValue::Int(y)) => *x == *y,
        _ => false,
    }
}

impl View for Properties {
    type V = Map<Seq<char>, PropertyValueView>;

    closed spec fn view(&self) -> Map<Seq<char>, PropertyValueView> {
        entries_map(self.entries@)
    }
}

impl Properties {
    /// Creates properties from a list of names and values. Where a name
    /// occurs twice, its last value counts.
    pub fn new(entries: Vec<(String, PropertyValue)>) -> (p: Self)
        ensures
            p@ == entries_map(entries@),
    {
        Self { entries }
    }

    /// Sets the value of a property.
    pub fn insert(&mut self, name: String, value: PropertyValue)
        ensures
            final(self)@ == old(self)@.insert(name@, value@),
    {
        let ghost before = self.entries@;
        self.entries.push((name, value));
        proof {
            assert(self.entries@.drop_last() == before);
        }
    }

    /// Reads a properties block: the line `STARTPROPERTIES` and all lines
    /// up to `ENDPROPERTIES`.
    pub fn parse(lines: &mut Lines) -> (r: Result<Self, ParserError>)
        requires
            old(lines).remaining().len() > 0,
            old(lines).remaining()[0].keyword == "STARTPROPERTIES"@,
        ensures
            final(lines).remaining() == properties_block(old(lines).remaining()).rest,
            !final(lines).has_backtrack(),
            match r {
                Ok(properties) => properties_block(old(lines).remaining()).result == Ok::<
                    _,
                    ParserErrorView,
                >(properties@),
                Err(e) => properties_block(old(lines).remaining()).result == Err::<
                    Map<Seq<char>, PropertyValueView>,
                    _,
                >(e@),
            },
    {
        let start = lines.next().unwrap();
        let start_chars = to_chars(start.parameters.as_str());
        proof {
            assert(start_chars@.subrange(0, start_chars.len() as int) == start_chars@);
        }
        if parse_usize_chars(&start_chars, 0, start_chars.len()).is_none() {
            return Err(ParserError::with_line("invalid \"STARTPROPERTIES\"", &start));
        }
        let mut properties = Properties { entries: Vec::new() };
        loop
            invariant
                !lines.has_backtrack(),
                property_lines(lines.remaining(), properties@) == properties_block(
                    old(lines).remaining(),
                ),
            decreases lines.remaining().len(),
        {
            let line = match lines.next() {
                Some(line) => line,
                None => {
                    return Ok(properties);
                },
            };
            if line.keyword.as_str().eq("ENDPROPERTIES") {
                return Ok(properties);
            }
            match parse_property_value(line.parameters.as_str()) {
                Some(value) => {
                    properties.insert(line.keyword, value);
                },
                None => {
                    return Err(ParserError::with_line("invalid property", &line));
                },
            }
        }
    }

    /// Tries to get a property by name.
    ///
    /// Returns `None` if the property doesn't exist and an error if the value has the wrong type.
    pub fn try_get_by_name<T: PropertyType>(&self, name: &str) -> (r: Result<
        Option<T>,
        PropertyTypeError,
    >)
        ensures
            match r {
                Ok(None) => !self@.contains_key(name@),
                Ok(Some(out)) => self@.contains_key(name@) && T::readable(self@[name@])
                    && T::reads_as(self@[name@], out),
                Err(_) => self@.contains_key(name@) && !T::readable(self@[name@]),
            },
    {
        match self.get(name) {
            Some(value) => match T::from_value(value) {
                Ok(out) => Ok(Some(out)),
                Err(e) => Err(e),
            },
            None => Ok(None),
        }
    }

    /// Tests whether every property of `self` is a property of `other`
    /// with the same value.
    pub fn is_part_of(&self, other: &Properties) -> (b: bool)
        ensures
            b == (forall|name: Seq<char>| #[trigger]
                self@.contains_key(name) ==> other@.contains_key(name) && other@[name]
                    == self@[name]),
    {
        let mut i: usize = 0;
        while i < self.entries.len()
            invariant
                i <= self.entries.len(),
                forall|j: int|
                    0 <= j < i ==> other@.contains_key((#[trigger] self.entries@[j]).0@)
                        && other@[self.entries@[j].0@] == self@[self.entries@[j].0@],
            decreases self.entries.len() - i,
        {
            let name = self.entries[i].0.as_str();
            proof {
                lemma_entry_is_in_map(self.entries@, i as int);
            }
            let same = match (self.get(name), other.get(name)) {
                (Some(a), Some(b)) => values_equal(a, b),
                _ => false,
            };
            if !same {
                return false;
            }
            i += 1;
        }
        proof {
            assert forall|name: Seq<char>| #[trigger] self@.contains_key(name) implies other@.contains_key(
                name,
            ) && other@[name] == self@[name] by {
                lemma_map_name_is_entry(self.entries@, name);
            }
        }
        true
    }

    /// Gets the value of a property by name.
    pub fn get(&self, name: &str) -> (r: Option<&PropertyValue>)
        ensures
            match r {
                Some(value) => self@.contains_key(name@) && self@[name@] == value@,
                None => !self@.contains_key(name@),
            },
    {
        let mut i: usize = self.entries.len();
        proof {
            assert(self.entries@.take(i as int) == self.entries@);
        }
        while i > 0
            invariant
                i <= self.entries.len(),
                self@.contains_key(name@) == entries_map(self.entries@.take(i as int)).contains_key(
                    name@,
                ),
                self@.contains_key(name@) ==> self@[name@] == entries_map(
                    self.entries@.take(i as int),
                )[name@],
            decreases i,
        {
            proof {
                assert(self.entries@.take(i as int).drop_last() == self.entries@.take(i - 1));
            }
            i -= 1;
            if self.entries[i].0.as_str().eq(name) {
                return Some(&self.entries[i].1);
            }
        }
        None
    }

    /// Tries to get a property.
    ///
    /// Returns `None` if the property doesn't exist and an error if the value has the wrong type.
    pub fn try_get<T: PropertyType>(&self, property: Property) -> (r: Result<
        Option<T>,
        PropertyTypeError,
    >)
        ensures
            match r {
                Ok(None) => !self@.contains_key(property.name()),
                Ok(Some(out)) => self@.contains_key(property.name()) && T::readable(
                    self@[property.name()],
                ) && T::reads_as(self@[property.name()], out),
                Err(_) => self@.contains_key(property.name()) && !T::readable(
                    self@[property.name()],
                ),
            },
    {
        let name = property.to_string();
        self.try_get_by_name(name.as_str())
    }

    /// Returns `true` if no properties exist.
    pub fn is_empty(&self) -> (b: bool)
        ensures
            b == (self@ == Map::<Seq<char>, PropertyValueView>::empty()),
    {
        proof {
            if self.entries.len() > 0 {
                assert(self@.contains_key(self.entries@.last().0@));
            }
        }
        self.entries.is_empty()
    }
}

} // verus!
