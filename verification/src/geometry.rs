//! Integer geometry in app units.
//!
//! An app unit (`Au`) is a fixed-point length of 1/60 CSS pixel, stored as an
//! `i32`. Every rectangle this crate works with keeps its coordinates inside
//! [`MIN_AU`, `MAX_AU`] with a non-negative size, so that sums such as
//! `origin + size` never leave `i32` range; [`Rect::wf`] states that range.
//! The all-encompassing rectangle [`max_rect`] is the largest well-formed
//! rectangle.

use vstd::prelude::*;

verus! {

/// A length in app units: 1/60 of a CSS pixel.
pub type Au = i32;

/// Smallest coordinate a well-formed rectangle may touch.
pub const MIN_AU: i32 = -0x4000_0000;

/// Largest coordinate a well-formed rectangle may touch.
pub const MAX_AU: i32 = 0x3FFF_FFFF;

/// A point in app units.
#[derive(Clone, Copy, PartialEq, Eq, Structural, Debug)]
pub struct Point2D {
    pub x: Au,
    pub y: Au,
}

/// A size in app units.
#[derive(Clone, Copy, PartialEq, Eq, Structural, Debug)]
pub struct Size2D {
    pub width: Au,
    pub height: Au,
}

/// An axis-aligned rectangle: an origin (top-left corner) and a size.
#[derive(Clone, Copy, PartialEq, Eq, Structural, Debug)]
pub struct Rect {
    pub origin: Point2D,
    pub size: Size2D,
}

/// Per-side lengths, used for border widths.
#[derive(Clone, Copy, PartialEq, Eq, Structural, Debug)]
pub struct SideOffsets2D {
    pub top: Au,
    pub right: Au,
    pub bottom: Au,
    pub left: Au,
}

impl Point2D {
    pub fn new(x: Au, y: Au) -> (r: Point2D)
        ensures
            r == (Point2D { x, y }),
    {
        Point2D { x, y }
    }

    pub fn zero() -> (r: Point2D)
        ensures
            r == (Point2D { x: 0, y: 0 }),
    {
        Point2D { x: 0, y: 0 }
    }
}

impl Size2D {
    pub fn new(width: Au, height: Au) -> (r: Size2D)
        ensures
            r == (Size2D { width, height }),
    {
        Size2D { width, height }
    }

    pub fn zero() -> (r: Size2D)
        ensures
            r == (Size2D { width: 0, height: 0 }),
    {
        Size2D { width: 0, height: 0 }
    }
}

impl Rect {
    /// Right edge as a mathematical integer (no overflow in spec).
    pub open spec fn right(self) -> int {
        self.origin.x + self.size.width
    }

    /// Bottom edge as a mathematical integer.
    pub open spec fn bottom(self) -> int {
        self.origin.y + self.size.height
    }

    /// Well-formed: non-negative size, all edges inside [`MIN_AU`, `MAX_AU`].
    pub open spec fn wf(self) -> bool {
        &&& 0 <= self.size.width
        &&& 0 <= self.size.height
        &&& MIN_AU <= self.origin.x
        &&& MIN_AU <= self.origin.y
        &&& self.right() <= MAX_AU
        &&& self.bottom() <= MAX_AU
    }

    /// A rectangle counts as empty when either side has zero length.
    pub open spec fn is_empty_spec(self) -> bool {
        self.size.width == 0 || self.size.height == 0
    }

    /// Half-open containment: the right and bottom edges are outside.
    pub open spec fn contains_spec(self, p: Point2D) -> bool {
        &&& self.origin.x <= p.x < self.right()
        &&& self.origin.y <= p.y < self.bottom()
    }

    /// Open-interval overlap: touching edges do not intersect, and an empty
    /// rectangle intersects nothing.
    pub open spec fn intersects_spec(self, other: Rect) -> bool {
        &&& self.origin.x < other.right()
        &&& other.origin.x < self.right()
        &&& self.origin.y < other.bottom()
        &&& other.origin.y < self.bottom()
    }

    pub fn new(origin: Point2D, size: Size2D) -> (r: Rect)
        ensures
            r == (Rect { origin, size }),
    {
        Rect { origin, size }
    }

    pub fn zero() -> (r: Rect)
        ensures
            r == zero_rect(),
    {
        Rect { origin: Point2D { x: 0, y: 0 }, size: Size2D { width: 0, height: 0 } }
    }

    pub fn is_empty(&self) -> (b: bool)
        ensures
            b == self.is_empty_spec(),
    {
        self.size.width == 0 || self.size.height == 0
    }

    pub fn contains(&self, p: &Point2D) -> (b: bool)
        requires
            self.wf(),
        ensures
            b == self.contains_spec(*p),
    {
        self.origin.x <= p.x && p.x < self.origin.x + self.size.width && self.origin.y <= p.y
            && p.y < self.origin.y + self.size.height
    }

    pub fn intersects(&self, other: &Rect) -> (b: bool)
        requires
            self.wf(),
            other.wf(),
        ensures
            b == self.intersects_spec(*other),
    {
        self.origin.x < other.origin.x + other.size.width && other.origin.x < self.origin.x
            + self.size.width && self.origin.y < other.origin.y + other.size.height
            && other.origin.y < self.origin.y + self.size.height
    }

    /// Bottom-right corner.
    pub fn bottom_right(&self) -> (p: Point2D)
        requires
            self.wf(),
        ensures
            p.x == self.right(),
            p.y == self.bottom(),
    {
        Point2D { x: self.origin.x + self.size.width, y: self.origin.y + self.size.height }
    }

    /// The overlap of two rectangles, or `None` when they do not intersect.
    pub fn intersection(&self, other: &Rect) -> (r: Option<Rect>)
        requires
            self.wf(),
            other.wf(),
        ensures
            r == intersection_spec(*self, *other),
            r is Some ==> r->Some_0.wf(),
    {
        if !self.intersects(other) {
            return None;
        }
        let x0: i32 = if self.origin.x >= other.origin.x {
            self.origin.x
        } else {
            other.origin.x
        };
        let y0: i32 = if self.origin.y >= other.origin.y {
            self.origin.y
        } else {
            other.origin.y
        };
        let sr: i32 = self.origin.x + self.size.width;
        let or: i32 = other.origin.x + other.size.width;
        let x1: i32 = if sr <= or {
            sr
        } else {
            or
        };
        let sb: i32 = self.origin.y + self.size.height;
        let ob: i32 = other.origin.y + other.size.height;
        let y1: i32 = if sb <= ob {
            sb
        } else {
            ob
        };
        Some(
            Rect {
                origin: Point2D { x: x0, y: y0 },
                size: Size2D { width: x1 - x0, height: y1 - y0 },
            },
        )
    }

    /// The smallest rectangle covering both operands; a rectangle of exactly
    /// zero size is ignored and the other operand returned.
    pub fn union(&self, other: &Rect) -> (r: Rect)
        requires
            self.wf(),
            other.wf(),
        ensures
            r == union_spec(*self, *other),
            r.wf(),
    {
        if self.size.width == 0 && self.size.height == 0 {
            return *other;
        }
        if other.size.width == 0 && other.size.height == 0 {
            return *self;
        }
        let x0: i32 = if self.origin.x <= other.origin.x {
            self.origin.x
        } else {
            other.origin.x
        };
        let y0: i32 = if self.origin.y <= other.origin.y {
            self.origin.y
        } else {
            other.origin.y
        };
        let sr: i32 = self.origin.x + self.size.width;
        let or: i32 = other.origin.x + other.size.width;
        let x1: i32 = if sr >= or {
            sr
        } else {
            or
        };
        let sb: i32 = self.origin.y + self.size.height;
        let ob: i32 = other.origin.y + other.size.height;
        let y1: i32 = if sb >= ob {
            sb
        } else {
            ob
        };
        Rect {
            origin: Point2D { x: x0, y: y0 },
            size: Size2D { width: x1 - x0, height: y1 - y0 },
        }
    }

    /// Moves the rectangle by `delta`; the caller keeps it in range.
    pub fn translate(&self, delta: &Point2D) -> (r: Rect)
        requires
            self.wf(),
            MIN_AU <= self.origin.x + delta.x,
            MIN_AU <= self.origin.y + delta.y,
            self.right() + delta.x <= MAX_AU,
            self.bottom() + delta.y <= MAX_AU,
        ensures
            r == translate_spec(*self, *delta),
            r.wf(),
    {
        Rect {
            origin: Point2D { x: self.origin.x + delta.x, y: self.origin.y + delta.y },
            size: self.size,
        }
    }
}

/// The rectangle with zero origin and zero size.
pub open spec fn zero_rect() -> Rect {
    Rect { origin: Point2D { x: 0, y: 0 }, size: Size2D { width: 0, height: 0 } }
}

pub open spec fn intersection_spec(a: Rect, b: Rect) -> Option<Rect> {
    if !a.intersects_spec(b) {
        None
    } else {
        let x0 = if a.origin.x >= b.origin.x {
            a.origin.x
        } else {
            b.origin.x
        };
        let y0 = if a.origin.y >= b.origin.y {
            a.origin.y
        } else {
            b.origin.y
        };
        let x1 = if a.right() <= b.right() {
            a.right()
        } else {
            b.right()
        };
        let y1 = if a.bottom() <= b.bottom() {
            a.bottom()
        } else {
            b.bottom()
        };
        Some(
            Rect {
                origin: Point2D { x: x0 as i32, y: y0 as i32 },
                size: Size2D { width: (x1 - x0) as i32, height: (y1 - y0) as i32 },
            },
        )
    }
}

pub open spec fn union_spec(a: Rect, b: Rect) -> Rect {
    if a.size.width == 0 && a.size.height == 0 {
        b
    } else if b.size.width == 0 && b.size.height == 0 {
        a
    } else {
        let x0 = if a.origin.x <= b.origin.x {
            a.origin.x
        } else {
            b.origin.x
        };
        let y0 = if a.origin.y <= b.origin.y {
            a.origin.y
        } else {
            b.origin.y
        };
        let x1 = if a.right() >= b.right() {
            a.right()
        } else {
            b.right()
        };
        let y1 = if a.bottom() >= b.bottom() {
            a.bottom()
        } else {
            b.bottom()
        };
        Rect {
            origin: Point2D { x: x0, y: y0 },
            size: Size2D { width: (x1 - x0) as i32, height: (y1 - y0) as i32 },
        }
    }
}

pub open spec fn translate_spec(r: Rect, delta: Point2D) -> Rect {
    Rect {
        origin: Point2D {
            x: (r.origin.x + delta.x) as i32,
            y: (r.origin.y + delta.y) as i32,
        },
        size: r.size,
    }
}

/// The all-encompassing rectangle: every well-formed rectangle lies inside it.
pub fn max_rect() -> (r: Rect)
    ensures
        r == max_rect_spec(),
        r.wf(),
{
    Rect {
        origin: Point2D { x: MIN_AU, y: MIN_AU },
        size: Size2D { width: 0x7FFF_FFFF, height: 0x7FFF_FFFF },
    }
}

pub open spec fn max_rect_spec() -> Rect {
    Rect {
        origin: Point2D { x: MIN_AU, y: MIN_AU },
        size: Size2D { width: 0x7FFF_FFFF, height: 0x7FFF_FFFF },
    }
}

} // verus!
