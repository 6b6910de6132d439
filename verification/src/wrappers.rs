//! Coordinate types shared by the tree model and the editor-facing results.
//!
//! `Point` is the tree-side coordinate (row and column of a character,
//! both zero-based); `Position` and `Range` are the editor-side
//! coordinates carried by completion and rename results. A `Range` is
//! half-open over the text: it covers everything from `start` up to but
//! not including `end`.

use vstd::prelude::*;

verus! {

/// Tree-side coordinate: zero-based row and column, counted in characters.
#[derive(Clone, Copy, Debug, PartialEq, Eq, Structural)]
pub struct Point {
    pub row: usize,
    pub column: usize,
}

/// Editor-side coordinate: zero-based line and character offset.
#[derive(Clone, Copy, Debug, PartialEq, Eq, Structural)]
pub struct Position {
    pub line: usize,
    pub character: usize,
}

/// Half-open editor-side range from `start` (inclusive) to `end` (exclusive).
#[derive(Clone, Copy, Debug, PartialEq, Eq, Structural)]
pub struct Range {
    pub start: Position,
    pub end: Position,
}

impl From<Position> for Point {
    fn from(pos: Position) -> (r: Point) {
        Point { row: pos.line, column: pos.character }
    }
}

impl vstd::std_specs::convert::FromSpecImpl<Position> for Point {
    open spec fn obeys_from_spec() -> bool {
        true
    }

    open spec fn from_spec(pos: Position) -> Point {
        Point { row: pos.line, column: pos.character }
    }
}

impl From<(Point, Point)> for Range {
    fn from(points: (Point, Point)) -> (r: Range) {
        Range {
            start: Position { line: points.0.row, character: points.0.column },
            end: Position { line: points.1.row, character: points.1.column },
        }
    }
}

impl vstd::std_specs::convert::FromSpecImpl<(Point, Point)> for Range {
    open spec fn obeys_from_spec() -> bool {
        true
    }

    open spec fn from_spec(points: (Point, Point)) -> Range {
        Range {
            start: Position { line: points.0.row, character: points.0.column },
            end: Position { line: points.1.row, character: points.1.column },
        }
    }
}

impl Point {
    /// The first column of this point's row.
    pub fn column_start(&self) -> (r: Point)
        ensures
            r == (Point { row: self.row, column: 0 }),
    {
        Point { row: self.row, column: 0 }
    }

    /// The same column one row up; the first row has no row above it.
    pub fn line_above(&self) -> (r: Point)
        requires
            self.row >= 1,
        ensures
            r == (Point { row: (self.row - 1) as usize, column: self.column }),
    {
        Point { row: self.row - 1, column: self.column }
    }
}

/// `a` comes no later than `b` in reading order.
pub open spec fn point_le(a: Point, b: Point) -> bool {
    a.row < b.row || (a.row == b.row && a.column <= b.column)
}

/// `a` comes strictly before `b` in reading order.
pub open spec fn point_lt(a: Point, b: Point) -> bool {
    a.row < b.row || (a.row == b.row && a.column < b.column)
}

/// Executable reading-order comparison, non-strict.
pub fn point_le_exec(a: Point, b: Point) -> (r: bool)
    ensures
        r == point_le(a, b),
{
    a.row < b.row || (a.row == b.row && a.column <= b.column)
}

/// Executable reading-order comparison, strict.
pub fn point_lt_exec(a: Point, b: Point) -> (r: bool)
    ensures
        r == point_lt(a, b),
{
    a.row < b.row || (a.row == b.row && a.column < b.column)
}

} // verus!
