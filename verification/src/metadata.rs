//! The header of a BDF file: name, size, bounding box, metrics set and
//! properties.

use crate::geometry::{BoundingBox, Coord};
use crate::parser::{Line, LineView, Lines, ParserError, ParserErrorView};
use crate::properties::{
    properties_block, property_lines, property_value, Parsed, Properties, PropertyValueView,
};
use vstd::prelude::*;

verus! {

/// Metrics set.
///
/// The metrics set specifies for which writing directions the font includes metrics.
#[derive(Debug, Default, Clone, Copy, PartialEq, Eq, Structural)]
pub enum MetricsSet {
    /// Horizontal writing direction.
    ///
    /// `METRICSSET 0`
    #[default]
    Horizontal,
    /// Vertical writing direction.
    ///
    /// `METRICSSET 1`
    Vertical,
    /// Both writing directions.
    ///
    /// `METRICSSET 2`
    Both,
}

/// BDF file metadata.
#[derive(Debug, Clone, PartialEq, Eq)]
pub struct Metadata {
    /// Font name.
    pub name: String,
    /// Point size.
    pub point_size: i32,
    /// X and Y resolution in DPI.
    pub resolution: Coord,
    /// Font bounding box.
    pub bounding_box: BoundingBox,
    /// Metrics set.
    pub metrics_set: MetricsSet,
    /// Properties.
    pub properties: Properties,
}

/// Mathematical value of a [`Metadata`].
pub struct MetadataView {
    pub name: Seq<char>,
    pub point_size: i32,
    pub resolution: Coord,
    pub bounding_box: BoundingBox,
    pub metrics_set: MetricsSet,
    pub properties: Map<Seq<char>, PropertyValueView>,
}

impl View for Metadata {
    type V = MetadataView;

    open spec fn view(&self) -> MetadataView {
        MetadataView {
            name: self.name@,
            point_size: self.point_size,
            resolution: self.resolution,
            bounding_box: self.bounding_box,
            metrics_set: self.metrics_set,
            properties: self.properties@,
        }
    }
}

/// What has been read of the metadata so far.
pub struct MetadataState {
    pub name: Option<Seq<char>>,
    pub bounding_box: Option<BoundingBox>,
    pub point_size: Option<i32>,
    pub resolution: Coord,
    pub metrics_set: MetricsSet,
    pub properties: Option<Map<Seq<char>, PropertyValueView>>,
}

/// The state before the first line of the metadata.
pub open spec fn metadata_start() -> MetadataState {
    MetadataState {
        name: None,
        bounding_box: None,
        point_size: None,
        resolution: Coord { x: 0, y: 0 },
        metrics_set: MetricsSet::Horizontal,
        properties: None,
    }
}

/// An error in the given line.
pub open spec fn error_in(message: Seq<char>, line: LineView) -> ParserErrorView {
    ParserErrorView { message, line_number: Some(line.line_number) }
}

/// The metrics set with the given number.
pub open spec fn metrics_set_of(index: i32) -> Option<MetricsSet> {
    if index == 0 {
        Some(MetricsSet::Horizontal)
    } else if index == 1 {
        Some(MetricsSet::Vertical)
    } else if index == 2 {
        Some(MetricsSet::Both)
    } else {
        None
    }
}

/// The state after a line that sets one field of the metadata, or the error
/// for a line that is malformed or has another keyword.
pub open spec fn metadata_field(state: MetadataState, line: LineView) -> Result<
    MetadataState,
    ParserErrorView,
> {
    if line.keyword == "FONT"@ {
        Ok(
            MetadataState {
                name: Some(line.parameters),
                bounding_box: state.bounding_box,
                point_size: state.point_size,
                resolution: state.resolution,
                metrics_set: state.metrics_set,
                properties: state.properties,
            },
        )
    } else if line.keyword == "FONTBOUNDINGBOX"@ {
        match BoundingBox::parse_spec(line) {
            Some(bounding_box) => Ok(
                MetadataState {
                    name: state.name,
                    bounding_box: Some(bounding_box),
                    point_size: state.point_size,
                    resolution: state.resolution,
                    metrics_set: state.metrics_set,
                    properties: state.properties,
                },
            ),
            None => Err(error_in("invalid \"FONTBOUNDINGBOX\""@, line)),
        }
    } else if line.keyword == "SIZE"@ {
        match line.integer_parameters(3) {
            Some(v) => Ok(
                MetadataState {
                    name: state.name,
                    bounding_box: state.bounding_box,
                    point_size: Some(v[0]),
                    resolution: Coord { x: v[1], y: v[2] },
                    metrics_set: state.metrics_set,
                    properties: state.properties,
                },
            ),
            None => Err(error_in("invalid \"SIZE\""@, line)),
        }
    } else if line.keyword == "METRICSSET"@ {
        match line.integer_parameters(1) {
            Some(v) => match metrics_set_of(v[0]) {
                Some(metrics_set) => Ok(
                    MetadataState {
                        name: state.name,
                        bounding_box: state.bounding_box,
                        point_size: state.point_size,
                        resolution: state.resolution,
                        metrics_set,
                        properties: state.properties,
                    },
                ),
                None => Err(error_in("invalid \"METRICSSET\""@, line)),
            },
            None => Err(error_in("invalid \"METRICSSET\""@, line)),
        }
    } else {
        Err(error_in("unknown keyword in metadata: \""@ + line.keyword + "\""@, line))
    }
}

/// The state after the lines of the metadata. They end before the first
/// line `CHARS` or `STARTCHAR`, which is left unread, or at the end of the
/// input. A line `STARTPROPERTIES` opens a properties block.
pub open spec fn metadata_lines(lines: Seq<LineView>, state: MetadataState) -> Parsed<
    MetadataState,
>
    decreases lines.len(),
{
    if lines.len() == 0 {
        Parsed { result: Ok(state), rest: lines }
    } else if lines[0].keyword == "STARTPROPERTIES"@ {
        let block = properties_block(lines);
        match block.result {
            Ok(properties) => if block.rest.len() < lines.len() {
                metadata_lines(
                    block.rest,
                    MetadataState {
                        name: state.name,
                        bounding_box: state.bounding_box,
                        point_size: state.point_size,
                        resolution: state.resolution,
                        metrics_set: state.metrics_set,
                        properties: Some(properties),
                    },
                )
            } else {
                Parsed { result: Ok(state), rest: block.rest }
            },
            Err(e) => Parsed { result: Err(e), rest: block.rest },
        }
    } else if lines[0].keyword == "CHARS"@ || lines[0].keyword == "STARTCHAR"@ {
        Parsed { result: Ok(state), rest: lines }
    } else {
        match metadata_field(state, lines[0]) {
            Ok(next) => metadata_lines(lines.skip(1), next),
            Err(e) => Parsed { result: Err(e), rest: lines.skip(1) },
        }
    }
}

/// The metadata that a final state stands for, or the error that names the
/// first of the required fields `FONT`, `FONTBOUNDINGBOX` and `SIZE` that is
/// missing.
pub open spec fn metadata_finish(state: MetadataState) -> Result<MetadataView, ParserErrorView> {
    if state.name.is_none() {
        Err(ParserErrorView { message: "missing \"FONT\""@, line_number: None })
    } else if state.bounding_box.is_none() {
        Err(ParserErrorView { message: "missing \"FONTBOUNDINGBOX\""@, line_number: None })
    } else if state.point_size.is_none() {
        Err(ParserErrorView { message: "missing \"SIZE\""@, line_number: None })
    } else {
        Ok(
            MetadataView {
                name: state.name.unwrap(),
                point_size: state.point_size.unwrap(),
                resolution: state.resolution,
                bounding_box: state.bounding_box.unwrap(),
                metrics_set: state.metrics_set,
                properties: match state.properties {
                    Some(properties) => properties,
                    None => Map::empty(),
                },
            },
        )
    }
}

/// The metadata that the lines hold, and the lines behind it.
pub open spec fn parse_metadata(lines: Seq<LineView>) -> Parsed<MetadataView> {
    let read = metadata_lines(lines, metadata_start());
    Parsed {
        result: match read.result {
            Ok(state) => metadata_finish(state),
            Err(e) => Err(e),
        },
        rest: read.rest,
    }
}

/// The lines of a properties block take at least as many lines as they
/// leave.
pub proof fn lemma_property_lines_rest(
    lines: Seq<LineView>,
    found: Map<Seq<char>, PropertyValueView>,
)
    ensures
        property_lines(lines, found).rest.len() <= lines.len(),
    decreases lines.len(),
{
    if lines.len() > 0 && lines[0].keyword != "ENDPROPERTIES"@ {
        match property_value(lines[0].parameters) {
            Some(value) => {
                lemma_property_lines_rest(lines.skip(1), found.insert(lines[0].keyword, value));
            },
            None => {},
        }
    }
}

/// A properties block takes at least its first line.
pub proof fn lemma_properties_block_rest(lines: Seq<LineView>)
    requires
        lines.len() > 0,
    ensures
        properties_block(lines).rest.len() < lines.len(),
{
    lemma_property_lines_rest(lines.skip(1), Map::empty());
}

/// The fields of the metadata while they are read.
struct MetadataFields {
    name: Option<String>,
    bounding_box: Option<BoundingBox>,
    point_size: Option<i32>,
    resolution: Coord,
    metrics_set: MetricsSet,
    properties: Option<Properties>,
}

impl View for MetadataFields {
    type V = MetadataState;

    closed spec fn view(&self) -> MetadataState {
        MetadataState {
            name: match self.name {
                Some(name) => Some(name@),
                None => None,
            },
            bounding_box: self.bounding_box,
            point_size: self.point_size,
            resolution: self.resolution,
            metrics_set: self.metrics_set,
            properties: match self.properties {
                Some(properties) => Some(properties@),
                None => None,
            },
        }
    }
}

/// The message that quotes a keyword behind a prefix.
pub fn quote_keyword(prefix: &str, keyword: &str) -> (message: String)
    ensures
        message@ == prefix@ + keyword@ + "\""@,
{
    let mut message = String::from_str(prefix);
    message.append(keyword);
    message.append("\"");
    message
}

/// Applies a line that sets one field of the metadata.
fn read_metadata_field(state: MetadataFields, line: &Line) -> (r: Result<
    MetadataFields,
    ParserError,
>)
    ensures
        match r {
            Ok(next) => metadata_field(state@, line@) == Ok::<_, ParserErrorView>(next@),
            Err(e) => metadata_field(state@, line@) == Err::<MetadataState, _>(e@),
        },
{
    let mut state = state;
    if line.keyword.as_str().eq("FONT") {
        state.name = Some(line.parameters.clone());
        Ok(state)
    } else if line.keyword.as_str().eq("FONTBOUNDINGBOX") {
        match BoundingBox::parse(line) {
            Some(bounding_box) => {
                state.bounding_box = Some(bounding_box);
                Ok(state)
            },
            None => Err(ParserError::with_line("invalid \"FONTBOUNDINGBOX\"", line)),
        }
    } else if line.keyword.as_str().eq("SIZE") {
        match line.parse_integer_parameters::<3>() {
            Some(v) => {
                state.point_size = Some(v[0]);
                state.resolution = Coord::new(v[1], v[2]);
                Ok(state)
            },
            None => Err(ParserError::with_line("invalid \"SIZE\"", line)),
        }
    } else if line.keyword.as_str().eq("METRICSSET") {
        match line.parse_integer_parameters::<1>() {
            Some(v) => {
                if v[0] == 0 {
                    state.metrics_set = MetricsSet::Horizontal;
                    Ok(state)
                } else if v[0] == 1 {
                    state.metrics_set = MetricsSet::Vertical;
                    Ok(state)
                } else if v[0] == 2 {
                    state.metrics_set = MetricsSet::Both;
                    Ok(state)
                } else {
                    Err(ParserError::with_line("invalid \"METRICSSET\"", line))
                }
            },
            None => Err(ParserError::with_line("invalid \"METRICSSET\"", line)),
        }
    } else {
        let message = quote_keyword("unknown keyword in metadata: \"", line.keyword.as_str());
        Err(ParserError::with_line(message.as_str(), line))
    }
}

impl Metadata {
    /// Reads the metadata: the lines up to the first line `CHARS` or
    /// `STARTCHAR`, which is left unread, or up to the end of the input.
    pub fn parse(lines: &mut Lines) -> (r: Result<Self, ParserError>)
        ensures
            final(lines).remaining() == parse_metadata(old(lines).remaining()).rest,
            match r {
                Ok(metadata) => parse_metadata(old(lines).remaining()).result == Ok::<
                    _,
                    ParserErrorView,
                >(metadata@),
                Err(e) => parse_metadata(old(lines).remaining()).result == Err::<MetadataView, _>(
                    e@,
                ),
            },
    {
        let mut state = MetadataFields {
            name: None,
            bounding_box: None,
            point_size: None,
            resolution: Coord::new(0, 0),
            metrics_set: MetricsSet::Horizontal,
            properties: None,
        };
        loop
            invariant
                metadata_lines(lines.remaining(), state@) == metadata_lines(
                    old(lines).remaining(),
                    metadata_start(),
                ),
            ensures
                metadata_lines(old(lines).remaining(), metadata_start()) == (Parsed {
                    result: Ok::<_, ParserErrorView>(state@),
                    rest: lines.remaining(),
                }),
            decreases lines.remaining().len(),
        {
            let ghost before = lines.remaining();
            let line = match lines.next() {
                Some(line) => line,
                None => {
                    proof {
                        assert(lines.remaining() =~= before);
                    }
                    break ;
                },
            };
            if line.keyword.as_str().eq("STARTPROPERTIES") {
                lines.backtrack(line);
                proof {
                    assert(lines.remaining() == before);
                    lemma_properties_block_rest(before);
                }
                match Properties::parse(lines) {
                    Ok(properties) => {
                        state.properties = Some(properties);
                    },
                    Err(e) => {
                        return Err(e);
                    },
                }
            } else if line.keyword.as_str().eq("CHARS") || line.keyword.as_str().eq("STARTCHAR") {
                lines.backtrack(line);
                proof {
                    assert(lines.remaining() == before);
                }
                break ;
            } else {
                match read_metadata_field(state, &line) {
                    Ok(next) => {
                        state = next;
                    },
                    Err(e) => {
                        return Err(e);
                    },
                }
            }
        }
        if state.name.is_none() {
            return Err(ParserError::new("missing \"FONT\""));
        }
        if state.bounding_box.is_none() {
            return Err(ParserError::new("missing \"FONTBOUNDINGBOX\""));
        }
        if state.point_size.is_none() {
            return Err(ParserError::new("missing \"SIZE\""));
        }
        Ok(
            Metadata {
                name: state.name.unwrap(),
                point_size: state.point_size.unwrap(),
                resolution: state.resolution,
                bounding_box: state.bounding_box.unwrap(),
                metrics_set: state.metrics_set,
                properties: match state.properties {
                    Some(properties) => properties,
                    None => Properties::new(Vec::new()),
                },
            },
        )
    }
}

} // verus!
