//! Integer geometry: points, translations and axis-aligned rectangles in one
//! coordinate space.
use vstd::prelude::*;

verus! {

/// A position in the plane.
#[derive(Clone, Copy, Debug, PartialEq, Eq, Structural)]
pub struct Point {
    pub x: i32,
    pub y: i32,
}

/// A translation of the plane, such as the scroll offset of a container.
#[derive(Clone, Copy, Debug, PartialEq, Eq, Structural)]
pub struct Vector {
    pub x: i32,
    pub y: i32,
}

/// An axis-aligned box: its upper left corner and its extent.
#[derive(Clone, Copy, Debug, PartialEq, Eq, Structural)]
pub struct Rectangle {
    pub x: i32,
    pub y: i32,
    pub width: u32,
    pub height: u32,
}

/// The larger of two integers.
pub open spec fn max_int(a: int, b: int) -> int {
    if a >= b {
        a
    } else {
        b
    }
}

/// The smaller of two integers.
pub open spec fn min_int(a: int, b: int) -> int {
    if a <= b {
        a
    } else {
        b
    }
}

/// Whether every coordinate `x - dx` and `y - dy` is one that a rectangle can hold.
pub open spec fn shift_fits(x: int, y: int, dx: int, dy: int) -> bool {
    &&& i32::MIN <= x - dx <= i32::MAX
    &&& i32::MIN <= y - dy <= i32::MAX
}

/// Whether the sum of two translations is one that a `Vector` can hold.
pub open spec fn sum_fits(a: Vector, b: Vector) -> bool {
    &&& i32::MIN <= a.x + b.x <= i32::MAX
    &&& i32::MIN <= a.y + b.y <= i32::MAX
}

impl Vector {
    /// The translation that moves nothing.
    pub open spec fn spec_zero() -> Vector {
        Vector { x: 0, y: 0 }
    }

    /// The translation that moves nothing.
    pub fn zero() -> (v: Vector)
        ensures
            v == Vector::spec_zero(),
    {
        Vector { x: 0, y: 0 }
    }

    /// The composition of two translations, componentwise.
    pub open spec fn spec_plus(self, other: Vector) -> Vector
        recommends
            sum_fits(self, other),
    {
        Vector { x: (self.x + other.x) as i32, y: (self.y + other.y) as i32 }
    }

    /// Whether `plus` can compose the two translations without leaving the
    /// coordinate range.
    pub fn can_plus(&self, other: &Vector) -> (ok: bool)
        ensures
            ok == sum_fits(*self, *other),
    {
        self.x.checked_add(other.x).is_some() && self.y.checked_add(other.y).is_some()
    }

    /// Composes two translations.
    pub fn plus(&self, other: &Vector) -> (sum: Vector)
        requires
            sum_fits(*self, *other),
        ensures
            sum == self.spec_plus(*other),
            sum.x == self.x + other.x,
            sum.y == self.y + other.y,
    {
        Vector { x: self.x + other.x, y: self.y + other.y }
    }
}

impl Rectangle {
    /// The coordinate just right of the rectangle.
    pub open spec fn right(self) -> int {
        self.x + self.width
    }

    /// The coordinate just below the rectangle.
    pub open spec fn bottom(self) -> int {
        self.y + self.height
    }

    /// The number of unit cells the rectangle covers.
    pub open spec fn spec_area(self) -> nat {
        (self.width * self.height) as nat
    }

    /// Whether the point lies inside the rectangle; the right and bottom edges
    /// are outside.
    pub open spec fn spec_contains(self, point: Point) -> bool {
        &&& self.x <= point.x < self.right()
        &&& self.y <= point.y < self.bottom()
    }

    /// The width of the strip of columns that both rectangles cover, zero if none.
    pub open spec fn overlap_width(self, other: Rectangle) -> nat {
        max_int(0, min_int(self.right(), other.right()) - max_int(self.x as int, other.x as int))
            as nat
    }

    /// The height of the strip of rows that both rectangles cover, zero if none.
    pub open spec fn overlap_height(self, other: Rectangle) -> nat {
        max_int(0, min_int(self.bottom(), other.bottom()) - max_int(self.y as int, other.y as int))
            as nat
    }

    /// Whether the two rectangles share a cell.
    pub open spec fn spec_intersects(self, other: Rectangle) -> bool {
        self.overlap_width(other) > 0 && self.overlap_height(other) > 0
    }

    /// The common part of two rectangles; where they share no cell, the
    /// rectangle of no extent at the origin.
    pub open spec fn spec_intersection(self, other: Rectangle) -> Rectangle {
        if self.spec_intersects(other) {
            Rectangle {
                x: max_int(self.x as int, other.x as int) as i32,
                y: max_int(self.y as int, other.y as int) as i32,
                width: self.overlap_width(other) as u32,
                height: self.overlap_height(other) as u32,
            }
        } else {
            Rectangle { x: 0, y: 0, width: 0, height: 0 }
        }
    }

    /// The number of cells that both rectangles cover.
    pub open spec fn spec_overlap_area(self, other: Rectangle) -> nat {
        self.spec_intersection(other).spec_area()
    }

    /// The rectangle moved against the translation: a widget laid out inside
    /// scrolled content appears moved back by the scroll offset.
    pub open spec fn spec_minus(self, offset: Vector) -> Rectangle
        recommends
            shift_fits(self.x as int, self.y as int, offset.x as int, offset.y as int),
    {
        Rectangle {
            x: (self.x - offset.x) as i32,
            y: (self.y - offset.y) as i32,
            width: self.width,
            height: self.height,
        }
    }

    /// The rectangle of no extent at the origin.
    pub fn empty() -> (r: Rectangle)
        ensures
            r == (Rectangle { x: 0, y: 0, width: 0, height: 0 }),
    {
        Rectangle { x: 0, y: 0, width: 0, height: 0 }
    }

    /// The area of the rectangle.
    pub fn area(&self) -> (a: u64)
        ensures
            a == self.spec_area(),
    {
        let w: u64 = self.width as u64;
        let h: u64 = self.height as u64;
        assert(w * h <= 0xffff_ffff * 0xffff_ffff) by (nonlinear_arith)
            requires
                w <= 0xffff_ffff,
                h <= 0xffff_ffff,
        ;
        w * h
    }

    /// Whether the point lies inside the rectangle.
    pub fn contains(&self, point: Point) -> (inside: bool)
        ensures
            inside == self.spec_contains(point),
    {
        let px: i64 = point.x as i64;
        let py: i64 = point.y as i64;
        let left: i64 = self.x as i64;
        let top: i64 = self.y as i64;
        left <= px && px < left + self.width as i64 && top <= py && py < top + self.height as i64
    }

    /// The common part of two rectangles, the rectangle of no extent where
    /// they share no cell.
    pub fn intersection(&self, other: &Rectangle) -> (common: Rectangle)
        ensures
            common == self.spec_intersection(*other),
    {
        let x: i32 = if self.x >= other.x {
            self.x
        } else {
            other.x
        };
        let y: i32 = if self.y >= other.y {
            self.y
        } else {
            other.y
        };
        let r1: i64 = self.x as i64 + self.width as i64;
        let r2: i64 = other.x as i64 + other.width as i64;
        let b1: i64 = self.y as i64 + self.height as i64;
        let b2: i64 = other.y as i64 + other.height as i64;
        let right: i64 = if r1 <= r2 {
            r1
        } else {
            r2
        };
        let bottom: i64 = if b1 <= b2 {
            b1
        } else {
            b2
        };
        let width: i64 = right - x as i64;
        let height: i64 = bottom - y as i64;
        if width > 0 && height > 0 {
            Rectangle { x, y, width: width as u32, height: height as u32 }
        } else {
            Rectangle::empty()
        }
    }

    /// Whether the two rectangles share a cell.
    pub fn intersects(&self, other: &Rectangle) -> (overlap: bool)
        ensures
            overlap == self.spec_intersects(*other),
    {
        let common = self.intersection(other);
        common.width > 0 && common.height > 0
    }

    /// The number of cells that both rectangles cover.
    pub fn overlap_area(&self, other: &Rectangle) -> (a: u64)
        ensures
            a == self.spec_overlap_area(*other),
    {
        self.intersection(other).area()
    }

    /// Whether `minus` can move the rectangle against `offset` without leaving
    /// the coordinate range.
    pub fn can_minus(&self, offset: &Vector) -> (ok: bool)
        ensures
            ok == shift_fits(self.x as int, self.y as int, offset.x as int, offset.y as int),
    {
        self.x.checked_sub(offset.x).is_some() && self.y.checked_sub(offset.y).is_some()
    }

    /// The rectangle moved against the translation.
    pub fn minus(&self, offset: &Vector) -> (moved: Rectangle)
        requires
            shift_fits(self.x as int, self.y as int, offset.x as int, offset.y as int),
        ensures
            moved == self.spec_minus(*offset),
            moved.x == self.x - offset.x,
            moved.y == self.y - offset.y,
            moved.width == self.width,
            moved.height == self.height,
    {
        Rectangle {
            x: self.x - offset.x,
            y: self.y - offset.y,
            width: self.width,
            height: self.height,
        }
    }
}

} // verus!
