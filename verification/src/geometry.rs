//! Integer coordinates and bounding boxes.

use crate::parser::{Line, LineView};
use crate::text::{lemma_integers_rendered, push_integer, render_integer, render_integers};
use vstd::prelude::*;

verus! {

/// Coordinate.
///
/// BDF files use a cartesian coordinate system, where the positive half-axis points upwards.
#[derive(Debug, Default, Copy, Clone, Ord, PartialOrd, Eq, PartialEq, Structural, Hash)]
pub struct Coord {
    /// X coordinate.
    pub x: i32,
    /// Y coordinate.
    pub y: i32,
}

impl Coord {
    /// Creates a new coord.
    pub fn new(x: i32, y: i32) -> (c: Self)
        ensures
            c.x == x,
            c.y == y,
    {
        Self { x, y }
    }

    /// The coordinate that a line with two integer parameters holds.
    pub open spec fn parse_spec(line: LineView) -> Option<Coord> {
        match line.integer_parameters(2) {
            Some(v) => Some(Coord { x: v[0], y: v[1] }),
            None => None,
        }
    }

    /// Reads a coordinate from the two integer parameters of a line.
    pub fn parse(line: &Line) -> (r: Option<Self>)
        ensures
            r == Self::parse_spec(line@),
    {
        match line.parse_integer_parameters::<2>() {
            Some(v) => Some(Self { x: v[0], y: v[1] }),
            None => None,
        }
    }

    /// The parameters of a line that holds the coordinate: the two integers
    /// in decimal notation with a space between them.
    pub open spec fn parameters(self) -> Seq<char> {
        render_integers(seq![self.x, self.y])
    }

    /// Writes the coordinate as the parameters of a line.
    pub fn to_parameters(&self) -> (r: String)
        ensures
            r@ == self.parameters(),
    {
        let mut r = String::new();
        push_integer(&mut r, self.x);
        r.push(' ');
        push_integer(&mut r, self.y);
        proof {
            reveal_with_fuel(render_integers, 3);
            let values = seq![self.x, self.y];
            assert(values.drop_last() =~= seq![self.x]);
            assert(r@ =~= render_integer(self.x as int) + seq![' '] + render_integer(
                self.y as int,
            ));
        }
        r
    }
}

/// The smaller of two integers.
pub open spec fn int_min(a: int, b: int) -> int {
    if a <= b {
        a
    } else {
        b
    }
}

/// The larger of two integers.
pub open spec fn int_max(a: int, b: int) -> int {
    if a >= b {
        a
    } else {
        b
    }
}

/// Bounding box.
#[derive(Debug, Default, Copy, Clone, Ord, PartialOrd, Eq, PartialEq, Structural, Hash)]
pub struct BoundingBox {
    /// Offset to the lower left corner of the bounding box.
    pub offset: Coord,
    /// Size of the bounding box.
    pub size: Coord,
}

impl BoundingBox {
    /// Neither dimension is negative.
    pub open spec fn has_size(&self) -> bool {
        self.size.x >= 0 && self.size.y >= 0
    }

    /// The box covers no pixel.
    pub open spec fn is_empty(&self) -> bool {
        self.size.x == 0 || self.size.y == 0
    }

    /// First column to the right of the box.
    pub open spec fn right(&self) -> int {
        self.offset.x + self.size.x
    }

    /// First row above the box.
    pub open spec fn top(&self) -> int {
        self.offset.y + self.size.y
    }

    /// Width of the smallest box around two boxes that both cover a pixel.
    pub open spec fn hull_width(&self, other: &Self) -> int {
        int_max(self.right(), other.right()) - int_min(self.offset.x as int, other.offset.x as int)
    }

    /// Height of the smallest box around two boxes that both cover a pixel.
    pub open spec fn hull_height(&self, other: &Self) -> int {
        int_max(self.top(), other.top()) - int_min(self.offset.y as int, other.offset.y as int)
    }

    /// The union of the two boxes can be held in a box.
    pub open spec fn union_fits(&self, other: &Self) -> bool {
        self.is_empty() || other.is_empty() || (self.hull_width(other) <= i32::MAX
            && self.hull_height(other) <= i32::MAX)
    }

    /// The smallest bounding box that surrounds two bounding boxes, where a
    /// box that covers no pixel leaves the other one unchanged.
    pub open spec fn union_spec(&self, other: &Self) -> Self {
        if other.is_empty() {
            *self
        } else if self.is_empty() {
            *other
        } else {
            BoundingBox {
                offset: Coord {
                    x: int_min(self.offset.x as int, other.offset.x as int) as i32,
                    y: int_min(self.offset.y as int, other.offset.y as int) as i32,
                },
                size: Coord {
                    x: self.hull_width(other) as i32,
                    y: self.hull_height(other) as i32,
                },
            }
        }
    }

    /// The box that a line with four integer parameters holds: width,
    /// height, horizontal and vertical offset.
    pub open spec fn parse_spec(line: LineView) -> Option<BoundingBox> {
        match line.integer_parameters(4) {
            Some(v) => Some(
                BoundingBox { offset: Coord { x: v[2], y: v[3] }, size: Coord { x: v[0], y: v[1] } },
            ),
            None => None,
        }
    }

    /// Reads a bounding box from the four integer parameters of a line.
    pub fn parse(line: &Line) -> (r: Option<Self>)
        ensures
            r == Self::parse_spec(line@),
    {
        match line.parse_integer_parameters::<4>() {
            Some(v) => Some(
                Self { offset: Coord::new(v[2], v[3]), size: Coord::new(v[0], v[1]) },
            ),
            None => None,
        }
    }

    /// The parameters of a line that holds the box: width, height,
    /// horizontal and vertical offset in decimal notation.
    pub open spec fn parameters(self) -> Seq<char> {
        render_integers(seq![self.size.x, self.size.y, self.offset.x, self.offset.y])
    }

    /// Writes the box as the parameters of a line.
    pub fn to_parameters(&self) -> (r: String)
        ensures
            r@ == self.parameters(),
    {
        let mut r = String::new();
        push_integer(&mut r, self.size.x);
        r.push(' ');
        push_integer(&mut r, self.size.y);
        r.push(' ');
        push_integer(&mut r, self.offset.x);
        r.push(' ');
        push_integer(&mut r, self.offset.y);
        proof {
            reveal_with_fuel(render_integers, 5);
            let values = seq![self.size.x, self.size.y, self.offset.x, self.offset.y];
            assert(values.drop_last() =~= seq![self.size.x, self.size.y, self.offset.x]);
            assert(values.drop_last().drop_last() =~= seq![self.size.x, self.size.y]);
            assert(values.drop_last().drop_last().drop_last() =~= seq![self.size.x]);
            assert(r@ =~= render_integer(self.size.x as int) + seq![' '] + render_integer(
                self.size.y as int,
            ) + seq![' '] + render_integer(self.offset.x as int) + seq![' '] + render_integer(
                self.offset.y as int,
            ));
        }
        r
    }

    /// Upper right corner of a box that covers a pixel.
    pub fn upper_right(&self) -> (c: Coord)
        requires
            i32::MIN <= self.right() - 1 <= i32::MAX,
            i32::MIN <= self.top() - 1 <= i32::MAX,
        ensures
            c.x == self.right() - 1,
            c.y == self.top() - 1,
    {
        let x: i64 = self.offset.x as i64 + self.size.x as i64 - 1;
        let y: i64 = self.offset.y as i64 + self.size.y as i64 - 1;
        Coord::new(x as i32, y as i32)
    }

    /// Calculates the smallest bounding box that surrounds two bounding boxes.
    ///
    /// No bounding box may have a negative size, and the result must be
    /// representable; [`BoundingBox::try_union`] tests both.
    pub fn union(&self, other: &Self) -> (r: Self)
        requires
            self.has_size(),
            other.has_size(),
            self.union_fits(other),
        ensures
            r == self.union_spec(other),
    {
        if other.size.x == 0 || other.size.y == 0 {
            *self
        } else if self.size.x == 0 || self.size.y == 0 {
            *other
        } else {
            let x_min: i32 = if self.offset.x <= other.offset.x {
                self.offset.x
            } else {
                other.offset.x
            };
            let y_min: i32 = if self.offset.y <= other.offset.y {
                self.offset.y
            } else {
                other.offset.y
            };
            let self_right: i64 = self.offset.x as i64 + self.size.x as i64;
            let other_right: i64 = other.offset.x as i64 + other.size.x as i64;
            let self_top: i64 = self.offset.y as i64 + self.size.y as i64;
            let other_top: i64 = other.offset.y as i64 + other.size.y as i64;
            let right: i64 = if self_right >= other_right {
                self_right
            } else {
                other_right
            };
            let top: i64 = if self_top >= other_top {
                self_top
            } else {
                other_top
            };
            Self {
                offset: Coord::new(x_min, y_min),
                size: Coord::new((right - x_min as i64) as i32, (top - y_min as i64) as i32),
            }
        }
    }

    /// Calculates the union of two bounding boxes, or `None` where a size is
    /// negative or the union is too large to be represented.
    pub fn try_union(&self, other: &Self) -> (r: Option<Self>)
        ensures
            r.is_some() == (self.has_size() && other.has_size() && self.union_fits(other)),
            r.is_some() ==> r.unwrap() == self.union_spec(other),
    {
        if self.size.x < 0 || self.size.y < 0 || other.size.x < 0 || other.size.y < 0 {
            return None;
        }
        if self.size.x != 0 && self.size.y != 0 && other.size.x != 0 && other.size.y != 0 {
            let x_min: i64 = if self.offset.x <= other.offset.x {
                self.offset.x as i64
            } else {
                other.offset.x as i64
            };
            let y_min: i64 = if self.offset.y <= other.offset.y {
                self.offset.y as i64
            } else {
                other.offset.y as i64
            };
            let self_right: i64 = self.offset.x as i64 + self.size.x as i64;
            let other_right: i64 = other.offset.x as i64 + other.size.x as i64;
            let self_top: i64 = self.offset.y as i64 + self.size.y as i64;
            let other_top: i64 = other.offset.y as i64 + other.size.y as i64;
            let right: i64 = if self_right >= other_right {
                self_right
            } else {
                other_right
            };
            let top: i64 = if self_top >= other_top {
                self_top
            } else {
                other_top
            };
            if right - x_min > i32::MAX as i64 || top - y_min > i32::MAX as i64 {
                return None;
            }
        }
        Some(self.union(other))
    }
}

/// A coordinate that is written as the parameters of a line and read again
/// is the same coordinate, whatever the keyword and the number of the line.
pub proof fn lemma_coord_round_trip(c: Coord, keyword: Seq<char>, line_number: nat)
    ensures
        Coord::parse_spec(LineView { keyword, parameters: c.parameters(), line_number }) == Some(c),
{
    lemma_integers_rendered(seq![c.x, c.y]);
}

/// A line that holds a coordinate holds the same coordinate after its
/// parameters have been written anew from the coordinate.
pub proof fn lemma_coord_line_round_trip(line: LineView)
    requires
        Coord::parse_spec(line).is_some(),
    ensures
        Coord::parse_spec(
            LineView { parameters: Coord::parse_spec(line).unwrap().parameters(), ..line },
        ) == Coord::parse_spec(line),
{
    lemma_coord_round_trip(Coord::parse_spec(line).unwrap(), line.keyword, line.line_number);
}

/// A bounding box that is written as the parameters of a line and read
/// again is the same bounding box.
pub proof fn lemma_bounding_box_round_trip(b: BoundingBox, keyword: Seq<char>, line_number: nat)
    ensures
        BoundingBox::parse_spec(LineView { keyword, parameters: b.parameters(), line_number })
            == Some(b),
{
    lemma_integers_rendered(seq![b.size.x, b.size.y, b.offset.x, b.offset.y]);
}

/// Taking the union is commutative, unless both boxes cover no pixel and
/// differ: then each call returns its receiver.
pub proof fn lemma_union_commutative(a: BoundingBox, b: BoundingBox)
    requires
        a.has_size(),
        b.has_size(),
        a.is_empty() && b.is_empty() ==> a == b,
    ensures
        a.union_spec(&b) == b.union_spec(&a),
{
}

/// A box that covers no pixel is a right identity of the union.
pub proof fn lemma_union_empty_identity(a: BoundingBox, empty: BoundingBox)
    requires
        empty.is_empty(),
    ensures
        a.union_spec(&empty) == a,
{
}

/// A box that covers no pixel is a left identity of the union with a box that
/// covers one.
pub proof fn lemma_union_empty_left_identity(a: BoundingBox, empty: BoundingBox)
    requires
        empty.is_empty(),
        !a.is_empty(),
    ensures
        empty.union_spec(&a) == a,
{
}

/// The union of two boxes that cover a pixel contains both of them and
/// touches the outermost edge of one of them on every side.
pub proof fn lemma_union_encloses(a: BoundingBox, b: BoundingBox)
    requires
        a.has_size(),
        b.has_size(),
        !a.is_empty(),
        !b.is_empty(),
        a.union_fits(&b),
    ensures
        ({
            let u = a.union_spec(&b);
            &&& u.offset.x <= a.offset.x && u.offset.x <= b.offset.x
            &&& u.offset.y <= a.offset.y && u.offset.y <= b.offset.y
            &&& u.right() >= a.right() && u.right() >= b.right()
            &&& u.top() >= a.top() && u.top() >= b.top()
            &&& u.offset.x == a.offset.x || u.offset.x == b.offset.x
            &&& u.offset.y == a.offset.y || u.offset.y == b.offset.y
            &&& u.right() == a.right() || u.right() == b.right()
            &&& u.top() == a.top() || u.top() == b.top()
        }),
{
}

} // verus!
