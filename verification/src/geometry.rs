//! The shape primitives the renderer paints: points, axis-aligned
//! rectangles, aspect-corrected circles and dialog-box descriptors. All
//! coordinates are cell-grid coordinates; distances are carried squared so
//! the geometry stays in exact integer arithmetic.

use vstd::prelude::*;

use crate::color::Color;

verus! {

/// A point or extent in cell-grid coordinates.
#[derive(Clone, Copy, Debug, PartialEq, Eq, Structural)]
pub struct Vector2 {
    pub x: i32,
    pub y: i32,
}

impl Vector2 {
    pub fn new(x: i32, y: i32) -> (v: Vector2)
        ensures
            v == (Vector2 { x, y }),
    {
        Vector2 { x, y }
    }

    /// Squared Euclidean distance between two points.
    pub open spec fn distance_sq_spec(self, other: Vector2) -> int {
        (self.x - other.x) * (self.x - other.x) + (self.y - other.y) * (self.y - other.y)
    }

    /// Squared Euclidean distance between two points. Comparing it against a
    /// squared threshold compares the Euclidean distance against that
    /// threshold.
    pub fn distance_sq(self, other: Vector2) -> (d: u128)
        ensures
            d == self.distance_sq_spec(other),
    {
        let dx: i128 = self.x as i128 - other.x as i128;
        let dy: i128 = self.y as i128 - other.y as i128;
        proof {
            lemma_square_range(dx as int, 5_000_000_000);
            lemma_square_range(dy as int, 5_000_000_000);
        }
        (dx * dx + dy * dy) as u128
    }
}

/// An axis-aligned rectangle: a position (top-left corner) and a size.
#[derive(Clone, Copy, Debug, PartialEq, Eq, Structural)]
pub struct Rectangle {
    pub position: Vector2,
    pub size: Vector2,
}

impl Rectangle {
    pub fn new(position: Vector2, size: Vector2) -> (r: Rectangle)
        ensures
            r == (Rectangle { position, size }),
    {
        Rectangle { position, size }
    }

    pub fn raw(x: i32, y: i32, width: i32, height: i32) -> (r: Rectangle)
        ensures
            r == (Rectangle {
                position: Vector2 { x, y },
                size: Vector2 { x: width, y: height },
            }),
    {
        Rectangle::new(Vector2::new(x, y), Vector2::new(width, height))
    }
}

/// A circle in a coordinate space where the x axis is halved, compensating
/// for terminal cells being roughly twice as tall as wide.
#[derive(Clone, Copy, Debug, PartialEq, Eq, Structural)]
pub struct Circle {
    pub x: i32,
    pub y: i32,
    pub radius: i32,
}

impl Circle {
    pub fn new(x: i32, y: i32, radius: i32) -> (c: Circle)
        ensures
            c == (Circle { x, y, radius }),
    {
        Circle { x, y, radius }
    }

    /// Whether the grid cell at `(x, y)` lies within the circle: the
    /// Euclidean distance from the center, with the x-axis distance halved,
    /// is at most the radius. Scaling by four keeps the test integral.
    pub open spec fn covers_spec(self, x: int, y: int) -> bool {
        &&& self.radius >= 0
        &&& (x - self.x) * (x - self.x) + 4 * ((y - self.y) * (y - self.y)) <= 4 * (self.radius
            * self.radius)
    }

    /// Whether the grid cell at `(x, y)` lies within the circle.
    pub fn covers(&self, x: usize, y: usize) -> (r: bool)
        requires
            x <= 0xFFFF,
            y <= 0xFFFF,
        ensures
            r == self.covers_spec(x as int, y as int),
    {
        if self.radius < 0 {
            return false;
        }
        let dx: i128 = x as i128 - self.x as i128;
        let dy: i128 = y as i128 - self.y as i128;
        let rr: i128 = self.radius as i128;
        proof {
            lemma_square_range(dx as int, 5_000_000_000);
            lemma_square_range(dy as int, 5_000_000_000);
            lemma_square_range(rr as int, 5_000_000_000);
        }
        dx * dx + 4 * (dy * dy) <= 4 * (rr * rr)
    }
}

/// A centered, bordered text panel: interior size, top row, padding and the
/// color of the laid text. Horizontal placement is always centered in the
/// canvas that draws it.
#[derive(Clone, Debug)]
pub struct DialogBox {
    pub text: Vec<char>,
    pub width: i32,
    pub height: i32,
    pub position: i32,
    pub x_pad: i32,
    pub y_pad: i32,
    pub text_color: Color,
}

impl DialogBox {
    /// A dialog box with the default padding of one cell on each axis and
    /// white text.
    pub fn new(text: Vec<char>, width: i32, height: i32, position: i32) -> (d: DialogBox)
        ensures
            d.text == text,
            d.width == width,
            d.height == height,
            d.position == position,
            d.x_pad == 1,
            d.y_pad == 1,
            d.text_color == Color::white_spec(),
    {
        DialogBox {
            text,
            width,
            height,
            position,
            x_pad: 1,
            y_pad: 1,
            text_color: Color::white(),
        }
    }
}

/// Circle coverage is symmetric through the center: a cell is covered
/// exactly when its mirror image through the center (on both axes) is
/// covered, the x-halving aspect correction notwithstanding.
pub proof fn lemma_circle_mirror(c: Circle, x: int, y: int)
    ensures
        c.covers_spec(x, y) == c.covers_spec(2 * c.x - x, 2 * c.y - y),
{
    let cx = c.x as int;
    let cy = c.y as int;
    assert((x - cx) * (x - cx) == ((2 * cx - x) - cx) * ((2 * cx - x) - cx)) by (nonlinear_arith);
    assert((y - cy) * (y - cy) == ((2 * cy - y) - cy) * ((2 * cy - y) - cy)) by (nonlinear_arith);
}

proof fn lemma_square_range(d: int, m: int)
    requires
        0 <= m,
        -m <= d <= m,
    ensures
        0 <= d * d <= m * m,
{
    assert(0 <= d * d <= m * m) by (nonlinear_arith)
        requires
            0 <= m && -m <= d <= m,
    ;
}

} // verus!
