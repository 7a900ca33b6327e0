//! Points, sizes and rectangles, each carrying the unit it is measured in.
//!
//! Generic over the unit so that a rectangle in points and a rectangle in
//! device pixels are different types. Mixing them is the mistake this crate is
//! shaped to prevent, and it is worth the type parameter to make it a compile
//! error rather than a thing you notice in a screenshot.
//!
//! What these say about a unit's arithmetic and order is what the unit's own
//! `Add`, `Sub` and `PartialOrd` say, for units that keep to their
//! specification.

use core::cmp::Ordering;
use core::ops::{Add, Sub};
use vstd::prelude::*;
use vstd::std_specs::cmp::PartialOrdSpec;
use vstd::std_specs::ops::{AddSpec, SubSpec};

verus! {

#[derive(Debug, Clone, Copy, PartialEq, Default)]
pub struct Point<U> {
    pub x: U,
    pub y: U,
}

#[derive(Debug, Clone, Copy, PartialEq, Default)]
pub struct Size<U> {
    pub width: U,
    pub height: U,
}

/// A rectangle, by its top-left corner and its size.
///
/// Top-left and downwards, which is what every drawing API in this library
/// uses. Converting from a platform that counts upwards from the bottom of a
/// display is the platform layer's job and happens once, at the edge.
#[derive(Debug, Clone, Copy, PartialEq, Default)]
pub struct Rect<U> {
    pub origin: Point<U>,
    pub size: Size<U>,
}

/// `a` is ordered before `b`.
pub open spec fn precedes<U: PartialOrd>(a: U, b: U) -> bool {
    a.partial_cmp_spec(&b) == Some(Ordering::Less)
}

/// `a` is ordered after or equal to `b`.
pub open spec fn reaches<U: PartialOrd>(a: U, b: U) -> bool {
    a.partial_cmp_spec(&b) matches Some(Ordering::Greater | Ordering::Equal)
}

impl<U: Copy> Point<U> {
    pub fn new(x: U, y: U) -> (point: Self)
        ensures
            point == (Point { x, y }),
    {
        Point { x, y }
    }
}

impl<U: Copy> Size<U> {
    pub fn new(width: U, height: U) -> (size: Self)
        ensures
            size == (Size { width, height }),
    {
        Size { width, height }
    }
}

impl<U: Copy> Rect<U> {
    pub fn new(origin: Point<U>, size: Size<U>) -> (rect: Self)
        ensures
            rect == (Rect { origin, size }),
    {
        Rect { origin, size }
    }
}

impl<U: Copy + Sub<Output = U>> Rect<U> {
    /// Defined once for every unit rather than per unit, so that
    /// `Rect::from_edges(..)` is not ambiguous at the call site.
    pub fn from_edges(left: U, top: U, right: U, bottom: U) -> (rect: Self)
        requires
            right.sub_req(left),
            bottom.sub_req(top),
        ensures
            rect.origin == (Point { x: left, y: top }),
            U::obeys_sub_spec() ==> rect.size == (Size {
                width: right.sub_spec(left),
                height: bottom.sub_spec(top),
            }),
    {
        Rect { origin: Point::new(left, top), size: Size::new(right - left, bottom - top) }
    }
}

impl<U: Copy + Add<Output = U>> Rect<U> {
    /// Where the right edge is: the origin and the width, added as the unit
    /// adds.
    pub open spec fn right_edge(self) -> U {
        self.origin.x.add_spec(self.size.width)
    }

    /// Where the bottom edge is.
    pub open spec fn bottom_edge(self) -> U {
        self.origin.y.add_spec(self.size.height)
    }

    /// The unit can add both far edges.
    pub open spec fn edges_addable(self) -> bool {
        self.origin.x.add_req(self.size.width) && self.origin.y.add_req(self.size.height)
    }

    pub fn left(&self) -> (left: U)
        ensures
            left == self.origin.x,
    {
        self.origin.x
    }

    pub fn top(&self) -> (top: U)
        ensures
            top == self.origin.y,
    {
        self.origin.y
    }

    pub fn right(&self) -> (right: U)
        requires
            self.origin.x.add_req(self.size.width),
        ensures
            U::obeys_add_spec() ==> right == self.right_edge(),
    {
        self.origin.x + self.size.width
    }

    pub fn bottom(&self) -> (bottom: U)
        requires
            self.origin.y.add_req(self.size.height),
        ensures
            U::obeys_add_spec() ==> bottom == self.bottom_edge(),
    {
        self.origin.y + self.size.height
    }
}

/// The larger of two values by the unit's order, the first when neither is
/// larger.
pub open spec fn larger<U: PartialOrd>(a: U, b: U) -> U {
    if precedes(a, b) { b } else { a }
}

/// The smaller of two values by the unit's order, the first when neither is
/// smaller.
pub open spec fn smaller<U: PartialOrd>(a: U, b: U) -> U {
    if precedes(b, a) { b } else { a }
}

fn larger_of<U: Copy + PartialOrd>(a: U, b: U) -> (out: U)
    ensures
        U::obeys_partial_cmp_spec() ==> out == larger(a, b),
{
    if a < b { b } else { a }
}

fn smaller_of<U: Copy + PartialOrd>(a: U, b: U) -> (out: U)
    ensures
        U::obeys_partial_cmp_spec() ==> out == smaller(a, b),
{
    if b < a { b } else { a }
}

impl<U: Copy + Add<Output = U> + Sub<Output = U> + PartialOrd> Rect<U> {
    /// Whether `point` is inside, by the spec of the unit's order.
    ///
    /// Half-open on the right and bottom, so two rectangles laid edge to edge
    /// do not both claim the line between them.
    pub open spec fn holds(self, point: Point<U>) -> bool {
        &&& reaches(point.x, self.origin.x)
        &&& precedes(point.x, self.right_edge())
        &&& reaches(point.y, self.origin.y)
        &&& precedes(point.y, self.bottom_edge())
    }

    /// Whether two rectangles share any area.
    pub open spec fn overlaps(self, other: Self) -> bool {
        &&& precedes(self.origin.x, other.right_edge())
        &&& precedes(other.origin.x, self.right_edge())
        &&& precedes(self.origin.y, other.bottom_edge())
        &&& precedes(other.origin.y, self.bottom_edge())
    }

    /// Half-open on the right and bottom, so two rectangles laid edge to edge
    /// do not both claim the line between them.
    pub fn contains(&self, point: Point<U>) -> (inside: bool)
        requires
            self.edges_addable(),
        ensures
            U::obeys_add_spec() && U::obeys_partial_cmp_spec() ==> inside == self.holds(point),
    {
        point.x >= self.left() && point.x < self.right() && point.y >= self.top() && point.y
            < self.bottom()
    }

    pub fn intersects(&self, other: &Self) -> (overlap: bool)
        requires
            self.edges_addable(),
            other.edges_addable(),
        ensures
            U::obeys_add_spec() && U::obeys_partial_cmp_spec() ==> overlap == self.overlaps(*other),
    {
        self.left() < other.right() && other.left() < self.right() && self.top() < other.bottom()
            && other.top() < self.bottom()
    }

    /// The overlap, or `None` when there is not one.
    ///
    /// `None` rather than an empty rectangle: an empty rectangle invites being
    /// drawn, and a zero-sized draw call is a waste that looks like work.
    pub fn intersection(&self, other: &Self) -> (overlap: Option<Self>)
        requires
            self.edges_addable(),
            other.edges_addable(),
            U::obeys_add_spec() && U::obeys_partial_cmp_spec() ==> (self.overlaps(*other) ==> {
                &&& smaller(self.right_edge(), other.right_edge()).sub_req(
                    larger(self.origin.x, other.origin.x),
                )
                &&& smaller(self.bottom_edge(), other.bottom_edge()).sub_req(
                    larger(self.origin.y, other.origin.y),
                )
            }),
            !(U::obeys_add_spec() && U::obeys_partial_cmp_spec()) ==> forall|a: U, b: U| #[trigger]
                a.sub_req(b),
        ensures
            U::obeys_add_spec() && U::obeys_sub_spec() && U::obeys_partial_cmp_spec() ==> match overlap {
                None => !self.overlaps(*other),
                Some(r) => self.overlaps(*other) && r.origin == (Point {
                    x: larger(self.origin.x, other.origin.x),
                    y: larger(self.origin.y, other.origin.y),
                }) && r.size == (Size {
                    width: smaller(self.right_edge(), other.right_edge()).sub_spec(
                        larger(self.origin.x, other.origin.x),
                    ),
                    height: smaller(self.bottom_edge(), other.bottom_edge()).sub_spec(
                        larger(self.origin.y, other.origin.y),
                    ),
                }),
            },
    {
        if self.intersects(other) {
            Some(
                Self::from_edges(
                    larger_of(self.left(), other.left()),
                    larger_of(self.top(), other.top()),
                    smaller_of(self.right(), other.right()),
                    smaller_of(self.bottom(), other.bottom()),
                ),
            )
        } else {
            None
        }
    }
}

/// Two rectangles laid edge to edge, in whole units: a point on the line
/// between them belongs to the one on the right and not to the one on the
/// left, and the two do not overlap.
pub proof fn the_shared_edge_belongs_to_exactly_one(left: Rect<i64>, right: Rect<i64>, point: Point<i64>)
    requires
        left.right_edge() == right.origin.x,
        left.origin.y == right.origin.y,
        left.size.height == right.size.height,
        left.edges_addable(),
        right.edges_addable(),
        right.size.width > 0,
        point.x == right.origin.x,
        right.origin.y <= point.y < right.bottom_edge(),
    ensures
        !left.holds(point),
        right.holds(point),
        !left.overlaps(right),
{
}

} // verus!
