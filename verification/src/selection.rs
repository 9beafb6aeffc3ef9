//! The text selection: its range, and the shape of its corners.

use vstd::prelude::*;

verus! {

/// What a drag selects.
#[derive(Copy, Clone, Debug, PartialEq, Eq, Structural)]
pub enum SelectionMode {
    Cell,
    Word,
    Line,
}

/// A corner of a selected strip against the strip in the row next to it.
#[derive(Copy, Clone, Debug, PartialEq, Eq, Structural)]
pub enum CornerType {
    /// Rounded outward.
    Convex,
    /// On an edge that goes on.
    Straight,
    /// An inner step.
    Concave,
}

/// A side of a strip.
#[derive(Copy, Clone, Debug, PartialEq, Eq, Structural)]
pub enum HorizSide {
    Left,
    Right,
}

/// The kind of a corner. Next to nothing, or to a strip that does not reach its
/// column, it is convex; where the strip goes on past it, it is concave.
pub open spec fn corner_of(
    col: usize,
    neighbor: Option<(usize, usize)>,
    side: HorizSide,
) -> CornerType {
    match neighbor {
        None => CornerType::Convex,
        Some((from, to)) => if !(from <= col <= to) {
            CornerType::Convex
        } else if match side {
            HorizSide::Left => from < col,
            HorizSide::Right => to > col,
        } {
            CornerType::Concave
        } else {
            CornerType::Straight
        },
    }
}

/// The kind of the corner at `col`, given the first and last column of the
/// strip in the next row.
pub fn classify_corner_with_neighbor(
    col: usize,
    neighbor: Option<(usize, usize)>,
    side: HorizSide,
) -> (corner: CornerType)
    ensures
        corner == corner_of(col, neighbor, side),
{
    match neighbor {
        None => CornerType::Convex,
        Some((from, to)) => {
            let covers_at = from <= col && col <= to;
            let covers_outer = match side {
                HorizSide::Left => from < col,
                HorizSide::Right => to > col,
            };
            if covers_outer && covers_at {
                CornerType::Concave
            } else if covers_at {
                CornerType::Straight
            } else {
                CornerType::Convex
            }
        },
    }
}

/// A selection in absolute lines and columns, in the direction of the drag.
#[derive(Copy, Clone, Debug)]
pub struct Selection {
    pub anchor: (isize, usize),
    pub head: (isize, usize),
}

/// Whether a cell comes before another in reading order, or is the same.
pub open spec fn reads_before(a: (isize, usize), b: (isize, usize)) -> bool {
    let (a_line, a_col) = a;
    let (b_line, b_col) = b;
    a_line < b_line || (a_line == b_line && a_col <= b_col)
}

/// The ends of a selection in reading order.
pub open spec fn ordered(s: Selection) -> ((isize, usize), (isize, usize)) {
    if reads_before(s.anchor, s.head) {
        (s.anchor, s.head)
    } else {
        (s.head, s.anchor)
    }
}

impl Selection {
    /// The first and the last cell in reading order, both selected.
    pub fn range(&self) -> (ends: ((isize, usize), (isize, usize)))
        ensures
            ends == ordered(*self),
            reads_before(ends.0, ends.1),
    {
        let before = self.anchor.0 < self.head.0 || (self.anchor.0 == self.head.0 && self.anchor.1
            <= self.head.1);
        if before {
            (self.anchor, self.head)
        } else {
            (self.head, self.anchor)
        }
    }
}

/// Whether a cell with this character shows nothing.
pub fn is_blank_cell(ch: char) -> (b: bool)
    ensures
        b == (ch == ' ' || ch == '\0'),
{
    ch == ' ' || ch == '\0'
}

/// The direction of a drag does not change what it selects.
pub proof fn direction_does_not_matter(a: (isize, usize), b: (isize, usize))
    ensures
        ordered(Selection { anchor: a, head: b }) == ordered(Selection { anchor: b, head: a }),
{
}

/// The sides are mirror images: a corner on the left is what the mirrored
/// corner on the right is.
pub proof fn sides_are_mirror_images(col: usize, from: usize, to: usize, width: usize)
    requires
        col <= width,
        from <= width,
        to <= width,
    ensures
        corner_of(col, Some((from, to)), HorizSide::Left) == corner_of(
            (width - col) as usize,
            Some(((width - to) as usize, (width - from) as usize)),
            HorizSide::Right,
        ),
{
}

/// A corner is convex where the strip in the next row does not reach its column;
/// where it does, a left corner is concave when that strip starts further left, a
/// right one when it ends further right, and straight otherwise.
pub proof fn corner_shows_how_the_next_strip_lies(
    col: usize,
    from: usize,
    to: usize,
    left: CornerType,
    right: CornerType,
    alone: CornerType,
    side: HorizSide,
)
    requires
        call_ensures(
            classify_corner_with_neighbor,
            (col, Some((from, to)), HorizSide::Left),
            left,
        ),
        call_ensures(
            classify_corner_with_neighbor,
            (col, Some((from, to)), HorizSide::Right),
            right,
        ),
        call_ensures(classify_corner_with_neighbor, (col, None, side), alone),
    ensures
        alone is Convex,
        left is Convex <==> (col < from || col > to),
        right is Convex <==> (col < from || col > to),
        left is Concave <==> (from < col && col <= to),
        right is Concave <==> (from <= col && col < to),
{
}

/// The range of a selection holds its two ends, the one that is read first in
/// front.
pub proof fn range_is_in_reading_order(
    s: &Selection,
    ends: ((isize, usize), (isize, usize)),
)
    requires
        call_ensures(Selection::range, (s,), ends),
    ensures
        s.anchor.0 < s.head.0 ==> ends == (s.anchor, s.head),
        s.anchor.0 > s.head.0 ==> ends == (s.head, s.anchor),
        s.anchor.0 == s.head.0 && s.anchor.1 <= s.head.1 ==> ends == (s.anchor, s.head),
        s.anchor.0 == s.head.0 && s.anchor.1 >= s.head.1 ==> ends == (s.head, s.anchor),
{
}

} // verus!
