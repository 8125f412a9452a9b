//! Geometry in logical axes: `i` runs along a line, `b` stacks lines.
use app_units::Au;
use vstd::prelude::*;

use crate::units::{au_add, au_clamp};

verus! {

/// A width and a height.
#[derive(Clone, Copy, Debug, Default, PartialEq, Eq)]
pub struct Size<T> {
    pub width: T,
    pub height: T,
}

/// A position: `i` along the inline axis, `b` along the block axis.
#[derive(Clone, Copy, Debug, Default, PartialEq, Eq)]
pub struct Point<T> {
    pub i: T,
    pub b: T,
}

/// An origin and a size.
#[derive(Clone, Copy, Debug, Default, PartialEq, Eq)]
pub struct Rect<T> {
    pub origin: Point<T>,
    pub size: Size<T>,
}

/// One value for each side of a box.
#[derive(Clone, Copy, Debug, Default, PartialEq, Eq)]
pub struct Sides<T> {
    pub left: T,
    pub right: T,
    pub top: T,
    pub bottom: T,
}

/// The space a layout may fill.
#[derive(Clone, Copy, Debug)]
pub struct Constraint {
    pub size: Size<Au>,
}

impl<T> Point<T> {
    pub fn new(i: T, b: T) -> (r: Self)
        ensures
            r.i == i,
            r.b == b,
    {
        Point { i, b }
    }
}

/// The component-wise sum of two points, each component as `Au` adds it.
pub open spec fn point_sum(p: Point<Au>, q: Point<Au>) -> Point<Au> {
    Point { i: Au(au_clamp(p.i.0 + q.i.0) as i32), b: Au(au_clamp(p.b.0 + q.b.0) as i32) }
}

/// `r` moved by `p`, its size kept.
pub open spec fn rect_translated(r: Rect<Au>, p: Point<Au>) -> Rect<Au> {
    Rect { origin: point_sum(r.origin, p), size: r.size }
}

impl Point<Au> {
    /// The component-wise sum of `self` and `other`.
    pub fn add(self, other: Point<Au>) -> (r: Point<Au>)
        ensures
            r == point_sum(self, other),
    {
        Point { i: au_add(self.i, other.i), b: au_add(self.b, other.b) }
    }
}

impl Rect<Au> {
    /// This rectangle moved by `point`, with the same size.
    pub fn translate(&self, point: Point<Au>) -> (r: Self)
        ensures
            r == rect_translated(*self, point),
    {
        Rect { origin: self.origin.add(point), size: self.size }
    }
}

impl Sides<Au> {
    /// Zero on every side.
    pub fn zero() -> (r: Sides<Au>)
        ensures
            r.left.0 == 0 && r.right.0 == 0 && r.top.0 == 0 && r.bottom.0 == 0,
    {
        Sides { left: Au(0), right: Au(0), top: Au(0), bottom: Au(0) }
    }
}

impl Constraint {
    pub fn new(size: Size<Au>) -> (r: Self)
        ensures
            r.size == size,
    {
        Constraint { size }
    }
}

} // verus!
