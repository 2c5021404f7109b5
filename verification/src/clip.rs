//! Clipping regions: a main rectangle intersected with any number of
//! rounded rectangles. The effective clip is the intersection of all of
//! them; the predicates here are deliberately conservative (they may keep a
//! clip that could be dropped, never the other way round).

use vstd::prelude::*;
use crate::geometry::{
    intersection_spec, max_rect, max_rect_spec, translate_spec, zero_rect, Au, Point2D, Rect,
    Size2D, MAX_AU, MIN_AU,
};

verus! {

/// Radii of the four corners of a rounded rectangle; each corner has a
/// horizontal (`width`) and a vertical (`height`) radius.
#[derive(Clone, Copy, PartialEq, Eq, Structural, Debug)]
pub struct BorderRadii {
    pub top_left: Size2D,
    pub top_right: Size2D,
    pub bottom_right: Size2D,
    pub bottom_left: Size2D,
}

impl BorderRadii {
    /// All radii non-negative and in coordinate range.
    pub open spec fn wf(self) -> bool {
        &&& 0 <= self.top_left.width <= MAX_AU
        &&& 0 <= self.top_left.height <= MAX_AU
        &&& 0 <= self.top_right.width <= MAX_AU
        &&& 0 <= self.top_right.height <= MAX_AU
        &&& 0 <= self.bottom_right.width <= MAX_AU
        &&& 0 <= self.bottom_right.height <= MAX_AU
        &&& 0 <= self.bottom_left.width <= MAX_AU
        &&& 0 <= self.bottom_left.height <= MAX_AU
    }

    pub open spec fn is_square_spec(self) -> bool {
        &&& self.top_left == (Size2D { width: 0, height: 0 })
        &&& self.top_right == (Size2D { width: 0, height: 0 })
        &&& self.bottom_right == (Size2D { width: 0, height: 0 })
        &&& self.bottom_left == (Size2D { width: 0, height: 0 })
    }

    /// True exactly when all four corner sizes are zero.
    pub fn is_square(&self) -> (b: bool)
        ensures
            b == self.is_square_spec(),
    {
        let zero = Size2D { width: 0, height: 0 };
        self.top_left == zero && self.top_right == zero && self.bottom_right == zero
            && self.bottom_left == zero
    }

    /// Radii that all share one value on both axes.
    pub fn all_same(value: Au) -> (r: BorderRadii)
        ensures
            r.top_left == (Size2D { width: value, height: value }),
            r.top_right == (Size2D { width: value, height: value }),
            r.bottom_right == (Size2D { width: value, height: value }),
            r.bottom_left == (Size2D { width: value, height: value }),
    {
        let corner = Size2D { width: value, height: value };
        BorderRadii {
            top_left: corner,
            top_right: corner,
            bottom_right: corner,
            bottom_left: corner,
        }
    }
}

impl Default for BorderRadii {
    /// Square corners: every radius zero.
    fn default() -> (r: BorderRadii)
        ensures
            r.is_square_spec(),
    {
        BorderRadii {
            top_left: Size2D { width: 0, height: 0 },
            top_right: Size2D { width: 0, height: 0 },
            bottom_right: Size2D { width: 0, height: 0 },
            bottom_left: Size2D { width: 0, height: 0 },
        }
    }
}

/// A rounded-rectangle clip entry.
#[derive(Clone, Copy, PartialEq, Eq, Structural, Debug)]
pub struct ComplexClippingRegion {
    pub rect: Rect,
    pub radii: BorderRadii,
}

impl ComplexClippingRegion {
    pub open spec fn wf(self) -> bool {
        self.rect.wf() && self.radii.wf()
    }

    /// The interior rectangle certainly inside the rounded rect: the outer
    /// rect inset on each edge by the larger of the two adjoining radii.
    /// Enclosure holds when that interior covers the other rect. The test
    /// ignores the other region's radii, which is conservative: it may miss
    /// an enclosure but never claims a false one.
    pub open spec fn completely_encloses_spec(self, other: ComplexClippingRegion) -> bool {
        let left = max2(self.radii.top_left.width as int, self.radii.bottom_left.width as int);
        let top = max2(self.radii.top_left.height as int, self.radii.top_right.height as int);
        let right = max2(
            self.radii.top_right.width as int,
            self.radii.bottom_right.width as int,
        );
        let bottom = max2(
            self.radii.bottom_left.height as int,
            self.radii.bottom_right.height as int,
        );
        &&& self.rect.origin.x + left <= other.rect.origin.x
        &&& self.rect.origin.y + top <= other.rect.origin.y
        &&& self.rect.right() - right >= other.rect.right()
        &&& self.rect.bottom() - bottom >= other.rect.bottom()
    }

    pub fn completely_encloses(&self, other: &ComplexClippingRegion) -> (b: bool)
        requires
            self.wf(),
            other.wf(),
        ensures
            b == self.completely_encloses_spec(*other),
    {
        let left = max_au(self.radii.top_left.width, self.radii.bottom_left.width);
        let top = max_au(self.radii.top_left.height, self.radii.top_right.height);
        let right = max_au(self.radii.top_right.width, self.radii.bottom_right.width);
        let bottom = max_au(self.radii.bottom_left.height, self.radii.bottom_right.height);
        self.rect.origin.x + left <= other.rect.origin.x && self.rect.origin.y + top
            <= other.rect.origin.y && self.rect.origin.x + self.rect.size.width - right
            >= other.rect.origin.x + other.rect.size.width && self.rect.origin.y
            + self.rect.size.height - bottom >= other.rect.origin.y + other.rect.size.height
    }
}

pub open spec fn max2(a: int, b: int) -> int {
    if a >= b {
        a
    } else {
        b
    }
}

fn max_au(a: Au, b: Au) -> (r: Au)
    ensures
        r == max2(a as int, b as int),
{
    if a >= b {
        a
    } else {
        b
    }
}

/// A clipping region: pixels survive when they are inside `main` and inside
/// every entry of `complex`.
#[derive(Clone, Debug)]
pub struct ClippingRegion {
    /// The main rectangular region, without corners.
    pub main: Rect,
    /// Any rounded-rectangle regions, all intersected.
    pub complex: Vec<ComplexClippingRegion>,
}

impl PartialEq for ClippingRegion {
    fn eq(&self, other: &ClippingRegion) -> (r: bool) {
        if !(self.main == other.main) {
            return false;
        }
        if self.complex.len() != other.complex.len() {
            return false;
        }
        let n = self.complex.len();
        let mut i: usize = 0;
        while i < n
            invariant
                0 <= i <= n,
                n == self.complex.len(),
                n == other.complex.len(),
                forall|j: int| 0 <= j < i ==> self.complex@[j] == other.complex@[j],
            decreases n - i,
        {
            if !(self.complex[i] == other.complex[i]) {
                return false;
            }
            i += 1;
        }
        proof {
            assert(self.complex@ =~= other.complex@);
        }
        true
    }
}

impl vstd::std_specs::cmp::PartialEqSpecImpl for ClippingRegion {
    open spec fn obeys_eq_spec() -> bool {
        true
    }

    open spec fn eq_spec(&self, other: &ClippingRegion) -> bool {
        self.main == other.main && self.complex@ == other.complex@
    }
}

impl ClippingRegion {
    pub open spec fn wf(self) -> bool {
        &&& self.main.wf()
        &&& forall|i: int| 0 <= i < self.complex@.len() ==> self.complex@[i].wf()
    }

    /// The region clips nothing: main is the all-encompassing rectangle and
    /// there are no rounded entries.
    pub open spec fn is_max_spec(self) -> bool {
        self.main == max_rect_spec() && self.complex@.len() == 0
    }

    /// The region might contain the point: it is in `main` and in the rect
    /// of every rounded entry (radii ignored, hence possible false
    /// positives).
    pub open spec fn might_intersect_point_spec(self, p: Point2D) -> bool {
        &&& self.main.contains_spec(p)
        &&& forall|i: int|
            0 <= i < self.complex@.len() ==> self.complex@[i].rect.contains_spec(p)
    }

    /// The region might overlap the rectangle.
    pub open spec fn might_intersect_rect_spec(self, r: Rect) -> bool {
        &&& self.main.intersects_spec(r)
        &&& forall|i: int|
            0 <= i < self.complex@.len() ==> self.complex@[i].rect.intersects_spec(r)
    }

    /// The region certainly does not cut anything off the rectangle: both
    /// its corners are inside `main` and inside every rounded entry's rect
    /// (radii ignored, conservative toward "does clip").
    pub open spec fn does_not_clip_rect_spec(self, r: Rect) -> bool {
        &&& self.main.contains_spec(r.origin)
        &&& self.main.contains_spec(corner_spec(r))
        &&& forall|i: int|
            0 <= i < self.complex@.len() ==> #[trigger] self.complex@[i].rect.contains_spec(
                r.origin,
            ) && self.complex@[i].rect.contains_spec(corner_spec(r))
    }

    /// An empty region: nothing is visible under it.
    pub fn empty() -> (r: ClippingRegion)
        ensures
            r.main == zero_rect(),
            r.complex@.len() == 0,
            r.wf(),
    {
        ClippingRegion { main: Rect::zero(), complex: Vec::new() }
    }

    /// The all-encompassing region: it clips no pixels out.
    pub fn max() -> (r: ClippingRegion)
        ensures
            r.is_max_spec(),
            r.wf(),
    {
        ClippingRegion { main: max_rect(), complex: Vec::new() }
    }

    /// The region that is exactly the given rectangle.
    pub fn from_rect(rect: &Rect) -> (r: ClippingRegion)
        requires
            rect.wf(),
        ensures
            r.main == *rect,
            r.complex@.len() == 0,
            r.wf(),
    {
        ClippingRegion { main: *rect, complex: Vec::new() }
    }

    /// Shrinks `main` to its overlap with `rect`; a disjoint `rect` leaves
    /// the zero rectangle, so the region becomes empty.
    pub fn intersect_rect(&mut self, rect: &Rect)
        requires
            old(self).wf(),
            rect.wf(),
        ensures
            final(self).main == clipped_main(old(self).main, *rect),
            final(self).complex@ == old(self).complex@,
            final(self).wf(),
    {
        self.main = match self.main.intersection(rect) {
            Some(r) => r,
            None => Rect::zero(),
        };
    }

    /// The region might keep some pixels: `main` has positive area.
    pub fn might_be_nonempty(&self) -> (b: bool)
        ensures
            b == !self.main.is_empty_spec(),
    {
        !self.main.is_empty()
    }

    pub fn might_intersect_point(&self, point: &Point2D) -> (b: bool)
        requires
            self.wf(),
        ensures
            b == self.might_intersect_point_spec(*point),
    {
        if !self.main.contains(point) {
            return false;
        }
        let n = self.complex.len();
        let mut i: usize = 0;
        while i < n
            invariant
                0 <= i <= n,
                n == self.complex.len(),
                self.wf(),
                self.main.contains_spec(*point),
                forall|j: int| 0 <= j < i ==> self.complex@[j].rect.contains_spec(*point),
            decreases n - i,
        {
            if !self.complex[i].rect.contains(point) {
                return false;
            }
            i += 1;
        }
        true
    }

    pub fn might_intersect_rect(&self, rect: &Rect) -> (b: bool)
        requires
            self.wf(),
            rect.wf(),
        ensures
            b == self.might_intersect_rect_spec(*rect),
    {
        if !self.main.intersects(rect) {
            return false;
        }
        let n = self.complex.len();
        let mut i: usize = 0;
        while i < n
            invariant
                0 <= i <= n,
                n == self.complex.len(),
                self.wf(),
                rect.wf(),
                self.main.intersects_spec(*rect),
                forall|j: int| 0 <= j < i ==> self.complex@[j].rect.intersects_spec(*rect),
            decreases n - i,
        {
            if !self.complex[i].rect.intersects(rect) {
                return false;
            }
            i += 1;
        }
        true
    }

    pub fn does_not_clip_rect(&self, rect: &Rect) -> (b: bool)
        requires
            self.wf(),
            rect.wf(),
        ensures
            b == self.does_not_clip_rect_spec(*rect),
    {
        let far = rect.bottom_right();
        if !self.main.contains(&rect.origin) || !self.main.contains(&far) {
            return false;
        }
        let n = self.complex.len();
        let mut i: usize = 0;
        while i < n
            invariant
                0 <= i <= n,
                n == self.complex.len(),
                self.wf(),
                rect.wf(),
                far == corner_spec(*rect),
                self.main.contains_spec(rect.origin),
                self.main.contains_spec(corner_spec(*rect)),
                forall|j: int|
                    0 <= j < i ==> #[trigger] self.complex@[j].rect.contains_spec(rect.origin)
                        && self.complex@[j].rect.contains_spec(corner_spec(*rect)),
            decreases n - i,
        {
            if !self.complex[i].rect.contains(&rect.origin) || !self.complex[i].rect.contains(
                &far,
            ) {
                return false;
            }
            i += 1;
        }
        true
    }

    /// A rectangle covering the whole region: `main` unioned with every
    /// rounded entry's rect.
    pub fn bounding_rect(&self) -> (r: Rect)
        requires
            self.wf(),
        ensures
            r == bounding_rect_spec(self.main, self.complex@, self.complex@.len() as int),
            r.wf(),
    {
        let mut rect = self.main;
        let n = self.complex.len();
        let mut i: usize = 0;
        while i < n
            invariant
                0 <= i <= n,
                n == self.complex.len(),
                self.wf(),
                rect == bounding_rect_spec(self.main, self.complex@, i as int),
                rect.wf(),
            decreases n - i,
        {
            rect = rect.union(&self.complex[i].rect);
            i += 1;
        }
        rect
    }

    /// Intersects the region with a rounded rectangle. Scanning the existing
    /// entries: the first entry that completely encloses the new one is
    /// replaced by it; if instead the new one completely encloses some
    /// entry, the addition is discarded; otherwise the new entry is
    /// appended.
    pub fn intersect_with_rounded_rect(&mut self, rect: &Rect, radii: &BorderRadii)
        requires
            old(self).wf(),
            rect.wf(),
            radii.wf(),
        ensures
            final(self).main == old(self).main,
            final(self).complex@ == add_rounded(
                old(self).complex@,
                ComplexClippingRegion { rect: *rect, radii: *radii },
                0,
            ),
            final(self).wf(),
    {
        let new_region = ComplexClippingRegion { rect: *rect, radii: *radii };
        let n = self.complex.len();
        let mut i: usize = 0;
        while i < n
            invariant
                0 <= i <= n,
                n == self.complex.len(),
                self == old(self),
                self.wf(),
                new_region == (ComplexClippingRegion { rect: *rect, radii: *radii }),
                new_region.wf(),
                scan_clear(self.complex@, new_region, i as int),
            decreases n - i,
        {
            if self.complex[i].completely_encloses(&new_region) {
                self.complex.set(i, new_region);
                proof {
                    lemma_add_rounded_prefix(old(self).complex@, new_region, i as int);
                }
                return ;
            }
            if new_region.completely_encloses(&self.complex[i]) {
                proof {
                    lemma_add_rounded_prefix(old(self).complex@, new_region, i as int);
                }
                return ;
            }
            proof {
                lemma_scan_clear_step(self.complex@, new_region, i as int);
            }
            i += 1;
        }
        self.complex.push(new_region);
        proof {
            lemma_add_rounded_prefix(old(self).complex@, new_region, n as int);
        }
    }

    /// The region moved by `delta`: `main` and every entry's rect translate;
    /// radii are untouched.
    pub fn translate(&self, delta: &Point2D) -> (r: ClippingRegion)
        requires
            self.wf(),
            self.can_translate(*delta),
        ensures
            r.main == translate_spec(self.main, *delta),
            r.complex@.len() == self.complex@.len(),
            forall|i: int|
                0 <= i < self.complex@.len() ==> r.complex@[i] == (ComplexClippingRegion {
                    rect: translate_spec(self.complex@[i].rect, *delta),
                    radii: self.complex@[i].radii,
                }),
            r.wf(),
    {
        let main = self.main.translate(delta);
        let n = self.complex.len();
        let mut complex: Vec<ComplexClippingRegion> = Vec::new();
        let mut i: usize = 0;
        while i < n
            invariant
                0 <= i <= n,
                n == self.complex.len(),
                self.wf(),
                self.can_translate(*delta),
                complex@.len() == i,
                forall|j: int|
                    0 <= j < i ==> complex@[j] == (ComplexClippingRegion {
                        rect: translate_spec(self.complex@[j].rect, *delta),
                        radii: self.complex@[j].radii,
                    }),
                forall|j: int| 0 <= j < i ==> complex@[j].wf(),
            decreases n - i,
        {
            let entry = &self.complex[i];
            complex.push(
                ComplexClippingRegion { rect: entry.rect.translate(delta), radii: entry.radii },
            );
            i += 1;
        }
        ClippingRegion { main, complex }
    }

    /// Every rectangle of the region stays in coordinate range when moved
    /// by `delta`.
    pub open spec fn can_translate(self, delta: Point2D) -> bool {
        &&& MIN_AU <= self.main.origin.x + delta.x
        &&& MIN_AU <= self.main.origin.y + delta.y
        &&& self.main.right() + delta.x <= MAX_AU
        &&& self.main.bottom() + delta.y <= MAX_AU
        &&& forall|i: int|
            0 <= i < self.complex@.len() ==> {
                let r = #[trigger] self.complex@[i].rect;
                &&& MIN_AU <= r.origin.x + delta.x
                &&& MIN_AU <= r.origin.y + delta.y
                &&& r.right() + delta.x <= MAX_AU
                &&& r.bottom() + delta.y <= MAX_AU
            }
    }

    /// A copy with the same main rectangle and the same rounded entries.
    pub fn duplicate(&self) -> (r: ClippingRegion)
        ensures
            r.main == self.main,
            r.complex@ == self.complex@,
    {
        let n = self.complex.len();
        let mut complex: Vec<ComplexClippingRegion> = Vec::new();
        let mut i: usize = 0;
        while i < n
            invariant
                0 <= i <= n,
                n == self.complex@.len(),
                complex@ =~= self.complex@.subrange(0, i as int),
            decreases n - i,
        {
            complex.push(self.complex[i]);
            proof {
                assert(complex@ =~= self.complex@.subrange(0, i as int + 1));
            }
            i += 1;
        }
        proof {
            assert(self.complex@.subrange(0, n as int) =~= self.complex@);
        }
        ClippingRegion { main: self.main, complex }
    }

    pub fn is_max(&self) -> (b: bool)
        ensures
            b == self.is_max_spec(),
    {
        let m = max_rect();
        self.main == m && self.complex.len() == 0
    }
}

/// Bottom-right corner of a rectangle as a point.
pub open spec fn corner_spec(r: Rect) -> Point2D {
    Point2D { x: r.right() as i32, y: r.bottom() as i32 }
}

/// What `main` becomes when intersected with a rectangle: the overlap, or
/// the zero rectangle when there is none.
pub open spec fn clipped_main(main: Rect, rect: Rect) -> Rect {
    match intersection_spec(main, rect) {
        Some(r) => r,
        None => zero_rect(),
    }
}

/// Bounding rectangle of `main` and the first `i` rounded entries.
pub open spec fn bounding_rect_spec(main: Rect, complex: Seq<ComplexClippingRegion>, i: int)
    -> Rect
    decreases i,
{
    if i <= 0 {
        main
    } else {
        crate::geometry::union_spec(bounding_rect_spec(main, complex, i - 1), complex[i - 1].rect)
    }
}

/// The rounded-entry list after intersecting with `new`, scanning from
/// index `i`: replace the first entry that encloses `new`, drop `new` if it
/// encloses an entry, append it otherwise.
pub open spec fn add_rounded(
    complex: Seq<ComplexClippingRegion>,
    new: ComplexClippingRegion,
    i: int,
) -> Seq<ComplexClippingRegion>
    decreases complex.len() - i,
{
    if i < 0 || i >= complex.len() {
        complex.push(new)
    } else if complex[i].completely_encloses_spec(new) {
        complex.update(i, new)
    } else if new.completely_encloses_spec(complex[i]) {
        complex
    } else {
        add_rounded(complex, new, i + 1)
    }
}

/// No enclosure in either direction among the first `i` entries.
pub open spec fn scan_clear(
    complex: Seq<ComplexClippingRegion>,
    new: ComplexClippingRegion,
    i: int,
) -> bool {
    forall|j: int| #![trigger complex[j]]
        0 <= j < i ==> !complex[j].completely_encloses_spec(new)
            && !new.completely_encloses_spec(complex[j])
}

proof fn lemma_scan_clear_step(
    complex: Seq<ComplexClippingRegion>,
    new: ComplexClippingRegion,
    i: int,
)
    requires
        0 <= i < complex.len(),
        scan_clear(complex, new, i),
        !complex[i].completely_encloses_spec(new),
        !new.completely_encloses_spec(complex[i]),
    ensures
        scan_clear(complex, new, i + 1),
{
    assert forall|j: int| #![trigger complex[j]]
        0 <= j < i + 1 implies !complex[j].completely_encloses_spec(new)
        && !new.completely_encloses_spec(complex[j]) by {
        if j < i {
            assert(!complex[j].completely_encloses_spec(new)
                && !new.completely_encloses_spec(complex[j]));
        }
    }
}

/// Scanning never triggers before `i`, so starting the scan at 0 and at `i`
/// agree.
proof fn lemma_add_rounded_prefix(
    complex: Seq<ComplexClippingRegion>,
    new: ComplexClippingRegion,
    i: int,
)
    requires
        0 <= i <= complex.len(),
        scan_clear(complex, new, i),
    ensures
        add_rounded(complex, new, 0) == add_rounded(complex, new, i),
    decreases i,
{
    if i > 0 {
        lemma_add_rounded_step(complex, new, i - 1);
        lemma_add_rounded_prefix(complex, new, i - 1);
    }
}

proof fn lemma_add_rounded_step(
    complex: Seq<ComplexClippingRegion>,
    new: ComplexClippingRegion,
    j: int,
)
    requires
        0 <= j < complex.len(),
        !complex[j].completely_encloses_spec(new),
        !new.completely_encloses_spec(complex[j]),
    ensures
        add_rounded(complex, new, j) == add_rounded(complex, new, j + 1),
{
}

/// Law: the all-encompassing region is a fixed point of intersecting with
/// the all-encompassing rectangle — `max` stays `max`.
pub proof fn law_max_intersect_rect_idempotent(c: ClippingRegion)
    requires
        c.is_max_spec(),
    ensures
        clipped_main(c.main, max_rect_spec()) == c.main,
{
    let m = max_rect_spec();
    assert(m.intersects_spec(m));
    assert(clipped_main(m, m) == m);
}

} // verus!
