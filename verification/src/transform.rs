//! 4x4 transforms in 16.16 fixed point.
//!
//! Entries are row-major `m11..m44`, stored as `i64` scaled by [`FX_ONE`]
//! (65536). Points are row vectors, so composing `a` then `b` is the matrix
//! product `a x b`. The translation row `m41, m42, m43` is measured in app
//! units (also scaled by [`FX_ONE`]). Every entry of a well-formed matrix
//! stays within [`FX_BOUND`], which keeps each product and four-term dot
//! product inside `i128`; products saturate back into that range, and mapped
//! coordinates clamp into the well-formed app-unit range, so every operation
//! here is total.

use vstd::prelude::*;
use vstd::arithmetic::div_mod::{
    lemma_fundamental_div_mod, lemma_fundamental_div_mod_converse,
};
use crate::geometry::{Au, Point2D, Rect, Size2D, MAX_AU, MIN_AU};

verus! {

/// The fixed-point scale: this value stands for 1.0.
pub const FX_ONE: i64 = 65536;

/// Largest magnitude a matrix entry may reach (2^46): translations up to the
/// full app-unit coordinate range, linear factors up to 2^30.
pub const FX_BOUND: i64 = 0x4000_0000_0000;

/// A 4x4 transform; entries are 16.16 fixed point, row-major.
#[derive(Clone, Copy, PartialEq, Eq, Structural, Debug)]
pub struct Matrix4D {
    pub m11: i64,
    pub m12: i64,
    pub m13: i64,
    pub m14: i64,
    pub m21: i64,
    pub m22: i64,
    pub m23: i64,
    pub m24: i64,
    pub m31: i64,
    pub m32: i64,
    pub m33: i64,
    pub m34: i64,
    pub m41: i64,
    pub m42: i64,
    pub m43: i64,
    pub m44: i64,
}

/// Detection of transforms that move content without distorting it.
pub trait SimpleMatrixDetection {
    spec fn is_identity_or_simple_translation_spec(&self) -> bool;

    /// True when the matrix is the identity except possibly for translation.
    fn is_identity_or_simple_translation(&self) -> (r: bool)
        ensures
            r == self.is_identity_or_simple_translation_spec(),
    ;
}

impl SimpleMatrixDetection for Matrix4D {
    open spec fn is_identity_or_simple_translation_spec(&self) -> bool {
        &&& self.m11 == FX_ONE
        &&& self.m12 == 0
        &&& self.m13 == 0
        &&& self.m14 == 0
        &&& self.m21 == 0
        &&& self.m22 == FX_ONE
        &&& self.m23 == 0
        &&& self.m24 == 0
        &&& self.m31 == 0
        &&& self.m32 == 0
        &&& self.m33 == FX_ONE
        &&& self.m34 == 0
        &&& self.m44 == FX_ONE
    }

    fn is_identity_or_simple_translation(&self) -> (r: bool) {
        self.m11 == FX_ONE && self.m12 == 0 && self.m13 == 0 && self.m14 == 0 && self.m21 == 0
            && self.m22 == FX_ONE && self.m23 == 0 && self.m24 == 0 && self.m31 == 0 && self.m32
            == 0 && self.m33 == FX_ONE && self.m34 == 0 && self.m44 == FX_ONE
    }
}

/// Clamps a scaled value into the entry range.
pub open spec fn clamp_fx(v: int) -> int {
    if v < -FX_BOUND {
        -FX_BOUND as int
    } else if v > FX_BOUND {
        FX_BOUND as int
    } else {
        v
    }
}

/// Clamps a coordinate into the well-formed app-unit range.
pub open spec fn clamp_au(v: int) -> int {
    if v < MIN_AU {
        MIN_AU as int
    } else if v > MAX_AU {
        MAX_AU as int
    } else {
        v
    }
}

/// One saturating fixed-point dot product of four entry pairs.
pub open spec fn fx_dot(a1: int, b1: int, a2: int, b2: int, a3: int, b3: int, a4: int, b4: int)
    -> int {
    clamp_fx((a1 * b1 + a2 * b2 + a3 * b3 + a4 * b4) / (FX_ONE as int))
}

/// Sign-matching truncated division, used for the inverse mapping.
pub open spec fn trunc_div(n: int, d: int) -> int
    recommends
        d != 0,
{
    let q = abs_int(n) / abs_int(d);
    if (n < 0) == (d < 0) {
        q
    } else {
        -q
    }
}

pub open spec fn abs_int(v: int) -> int {
    if v < 0 {
        -v
    } else {
        v
    }
}

impl Matrix4D {
    /// Every entry within the fixed-point bound.
    pub open spec fn wf(self) -> bool {
        &&& -FX_BOUND <= self.m11 <= FX_BOUND
        &&& -FX_BOUND <= self.m12 <= FX_BOUND
        &&& -FX_BOUND <= self.m13 <= FX_BOUND
        &&& -FX_BOUND <= self.m14 <= FX_BOUND
        &&& -FX_BOUND <= self.m21 <= FX_BOUND
        &&& -FX_BOUND <= self.m22 <= FX_BOUND
        &&& -FX_BOUND <= self.m23 <= FX_BOUND
        &&& -FX_BOUND <= self.m24 <= FX_BOUND
        &&& -FX_BOUND <= self.m31 <= FX_BOUND
        &&& -FX_BOUND <= self.m32 <= FX_BOUND
        &&& -FX_BOUND <= self.m33 <= FX_BOUND
        &&& -FX_BOUND <= self.m34 <= FX_BOUND
        &&& -FX_BOUND <= self.m41 <= FX_BOUND
        &&& -FX_BOUND <= self.m42 <= FX_BOUND
        &&& -FX_BOUND <= self.m43 <= FX_BOUND
        &&& -FX_BOUND <= self.m44 <= FX_BOUND
    }

    /// Determinant of the 2D projection (scaled by `FX_ONE` squared).
    pub open spec fn det_2d(self) -> int {
        self.m11 * self.m22 - self.m12 * self.m21
    }

    /// The 2D projection of the transform is invertible.
    pub open spec fn invertible_2d(self) -> bool {
        self.det_2d() != 0
    }

    pub fn identity() -> (r: Matrix4D)
        ensures
            r == identity_spec(),
            r.wf(),
    {
        Matrix4D {
            m11: FX_ONE,
            m12: 0,
            m13: 0,
            m14: 0,
            m21: 0,
            m22: FX_ONE,
            m23: 0,
            m24: 0,
            m31: 0,
            m32: 0,
            m33: FX_ONE,
            m34: 0,
            m41: 0,
            m42: 0,
            m43: 0,
            m44: FX_ONE,
        }
    }

    /// A pure translation by `(x, y)` app units.
    pub fn create_translation(x: Au, y: Au) -> (r: Matrix4D)
        requires
            MIN_AU <= x <= MAX_AU,
            MIN_AU <= y <= MAX_AU,
        ensures
            r == translation_spec(x as int, y as int),
            r.wf(),
    {
        Matrix4D {
            m11: FX_ONE,
            m12: 0,
            m13: 0,
            m14: 0,
            m21: 0,
            m22: FX_ONE,
            m23: 0,
            m24: 0,
            m31: 0,
            m32: 0,
            m33: FX_ONE,
            m34: 0,
            m41: (x as i64) * FX_ONE,
            m42: (y as i64) * FX_ONE,
            m43: 0,
            m44: FX_ONE,
        }
    }

    /// The matrix that applies `other` first and then `self`.
    pub fn pre_mul(&self, other: &Matrix4D) -> (r: Matrix4D)
        requires
            self.wf(),
            other.wf(),
        ensures
            r == product_spec(*other, *self),
            r.wf(),
    {
        matrix_product(other, self)
    }

    /// The matrix that translates by `(x, y)` first and then applies `self`.
    pub fn pre_translated(&self, x: Au, y: Au) -> (r: Matrix4D)
        requires
            self.wf(),
            MIN_AU <= x <= MAX_AU,
            MIN_AU <= y <= MAX_AU,
        ensures
            r == product_spec(translation_spec(x as int, y as int), *self),
            r.wf(),
    {
        let t = Matrix4D::create_translation(x, y);
        matrix_product(&t, self)
    }

    pub fn is_invertible_2d(&self) -> (r: bool)
        requires
            self.wf(),
        ensures
            r == self.invertible_2d(),
    {
        proof {
            lemma_mul_bound(self.m11 as int, self.m22 as int, FX_BOUND as int);
            lemma_mul_bound(self.m12 as int, self.m21 as int, FX_BOUND as int);
        }
        let d: i128 = (self.m11 as i128) * (self.m22 as i128) - (self.m12 as i128) * (
        self.m21 as i128);
        d != 0
    }

    /// Maps a point through the 2D projection of the transform.
    pub fn transform_point(&self, p: &Point2D) -> (r: Point2D)
        requires
            self.wf(),
        ensures
            r == self.transform_point_spec(*p),
            MIN_AU <= r.x <= MAX_AU,
            MIN_AU <= r.y <= MAX_AU,
    {
        proof {
            lemma_mul_bound(p.x as int, self.m11 as int, FX_BOUND as int);
            lemma_mul_bound(p.y as int, self.m21 as int, FX_BOUND as int);
            lemma_mul_bound(p.x as int, self.m12 as int, FX_BOUND as int);
            lemma_mul_bound(p.y as int, self.m22 as int, FX_BOUND as int);
        }
        let xs: i128 = (p.x as i128) * (self.m11 as i128) + (p.y as i128) * (self.m21 as i128)
            + (self.m41 as i128);
        let ys: i128 = (p.x as i128) * (self.m12 as i128) + (p.y as i128) * (self.m22 as i128)
            + (self.m42 as i128);
        Point2D { x: unscale_to_au(xs), y: unscale_to_au(ys) }
    }

    /// Where the 2D projection sends a point, as a specification.
    pub open spec fn transform_point_spec(self, p: Point2D) -> Point2D {
        Point2D {
            x: clamp_au(
                (p.x * self.m11 + p.y * self.m21 + self.m41) / (FX_ONE as int),
            ) as i32,
            y: clamp_au(
                (p.x * self.m12 + p.y * self.m22 + self.m42) / (FX_ONE as int),
            ) as i32,
        }
    }

    /// Maps a rectangle through the 2D projection: transforms the four
    /// corners and returns their bounding box.
    pub fn transform_rect(&self, r: &Rect) -> (out: Rect)
        requires
            self.wf(),
            r.wf(),
        ensures
            out == self.transform_rect_spec(*r),
            out.wf(),
    {
        let tl = self.transform_point(&r.origin);
        let tr = self.transform_point(&Point2D { x: r.origin.x + r.size.width, y: r.origin.y });
        let bl = self.transform_point(&Point2D { x: r.origin.x, y: r.origin.y + r.size.height });
        let br = self.transform_point(
            &Point2D { x: r.origin.x + r.size.width, y: r.origin.y + r.size.height },
        );
        let x0 = min4(tl.x, tr.x, bl.x, br.x);
        let y0 = min4(tl.y, tr.y, bl.y, br.y);
        let x1 = max4(tl.x, tr.x, bl.x, br.x);
        let y1 = max4(tl.y, tr.y, bl.y, br.y);
        Rect { origin: Point2D { x: x0, y: y0 }, size: Size2D { width: x1 - x0, height: y1 - y0 } }
    }

    pub open spec fn transform_rect_spec(self, r: Rect) -> Rect {
        let tl = self.transform_point_spec(r.origin);
        let tr = self.transform_point_spec(
            Point2D { x: (r.origin.x + r.size.width) as i32, y: r.origin.y },
        );
        let bl = self.transform_point_spec(
            Point2D { x: r.origin.x, y: (r.origin.y + r.size.height) as i32 },
        );
        let br = self.transform_point_spec(
            Point2D {
                x: (r.origin.x + r.size.width) as i32,
                y: (r.origin.y + r.size.height) as i32,
            },
        );
        let x0 = min4_spec(tl.x as int, tr.x as int, bl.x as int, br.x as int);
        let y0 = min4_spec(tl.y as int, tr.y as int, bl.y as int, br.y as int);
        let x1 = max4_spec(tl.x as int, tr.x as int, bl.x as int, br.x as int);
        let y1 = max4_spec(tl.y as int, tr.y as int, bl.y as int, br.y as int);
        Rect {
            origin: Point2D { x: x0 as i32, y: y0 as i32 },
            size: Size2D { width: (x1 - x0) as i32, height: (y1 - y0) as i32 },
        }
    }

    /// Maps a point through the inverse of the 2D projection, or `None`
    /// when that projection is singular.
    pub fn inverse_transform_point(&self, p: &Point2D) -> (r: Option<Point2D>)
        requires
            self.wf(),
        ensures
            r == self.inverse_transform_point_spec(*p),
            r is Some <==> self.invertible_2d(),
            r is Some ==> MIN_AU <= r->Some_0.x <= MAX_AU && MIN_AU <= r->Some_0.y <= MAX_AU,
    {
        proof {
            lemma_mul_bound(self.m11 as int, self.m22 as int, FX_BOUND as int);
            lemma_mul_bound(self.m12 as int, self.m21 as int, FX_BOUND as int);
        }
        let d: i128 = (self.m11 as i128) * (self.m22 as i128) - (self.m12 as i128) * (
        self.m21 as i128);
        if d == 0 {
            return None;
        }
        proof {
            lemma_mul_bound(p.x as int, FX_ONE as int, 0x8000_0000 as int);
            lemma_mul_bound(p.y as int, FX_ONE as int, 0x8000_0000 as int);
        }
        let u: i128 = (p.x as i128) * (FX_ONE as i128) - (self.m41 as i128);
        let v: i128 = (p.y as i128) * (FX_ONE as i128) - (self.m42 as i128);
        proof {
            lemma_mul_bound(u as int, self.m22 as int, 0x1_0000_0000_0000 as int);
            lemma_mul_bound(v as int, self.m21 as int, 0x1_0000_0000_0000 as int);
            lemma_mul_bound(v as int, self.m11 as int, 0x1_0000_0000_0000 as int);
            lemma_mul_bound(u as int, self.m12 as int, 0x1_0000_0000_0000 as int);
        }
        let xn: i128 = u * (self.m22 as i128) - v * (self.m21 as i128);
        let yn: i128 = v * (self.m11 as i128) - u * (self.m12 as i128);
        let x = clamp_i128_to_au(trunc_div_exec(xn, d));
        let y = clamp_i128_to_au(trunc_div_exec(yn, d));
        Some(Point2D { x, y })
    }

    /// Maps a rectangle through the inverse of the 2D projection: the
    /// bounding box of the four inverse-mapped corners, or `None` when the
    /// projection is singular.
    pub fn inverse_transform_rect(&self, r: &Rect) -> (out: Option<Rect>)
        requires
            self.wf(),
            r.wf(),
        ensures
            out == self.inverse_transform_rect_spec(*r),
            out is Some <==> self.invertible_2d(),
            out is Some ==> out->Some_0.wf(),
    {
        let tl = match self.inverse_transform_point(&r.origin) {
            Some(p) => p,
            None => { return None },
        };
        let tr = match self.inverse_transform_point(
            &Point2D { x: r.origin.x + r.size.width, y: r.origin.y },
        ) {
            Some(p) => p,
            None => { return None },
        };
        let bl = match self.inverse_transform_point(
            &Point2D { x: r.origin.x, y: r.origin.y + r.size.height },
        ) {
            Some(p) => p,
            None => { return None },
        };
        let br = match self.inverse_transform_point(
            &Point2D { x: r.origin.x + r.size.width, y: r.origin.y + r.size.height },
        ) {
            Some(p) => p,
            None => { return None },
        };
        let x0 = min4(tl.x, tr.x, bl.x, br.x);
        let y0 = min4(tl.y, tr.y, bl.y, br.y);
        let x1 = max4(tl.x, tr.x, bl.x, br.x);
        let y1 = max4(tl.y, tr.y, bl.y, br.y);
        Some(
            Rect {
                origin: Point2D { x: x0, y: y0 },
                size: Size2D { width: x1 - x0, height: y1 - y0 },
            },
        )
    }

    pub open spec fn inverse_transform_rect_spec(self, r: Rect) -> Option<Rect> {
        if !self.invertible_2d() {
            None
        } else {
            let tl = self.inverse_transform_point_spec(r.origin)->0;
            let tr = self.inverse_transform_point_spec(
                Point2D { x: (r.origin.x + r.size.width) as i32, y: r.origin.y },
            )->0;
            let bl = self.inverse_transform_point_spec(
                Point2D { x: r.origin.x, y: (r.origin.y + r.size.height) as i32 },
            )->0;
            let br = self.inverse_transform_point_spec(
                Point2D {
                    x: (r.origin.x + r.size.width) as i32,
                    y: (r.origin.y + r.size.height) as i32,
                },
            )->0;
            let x0 = min4_spec(tl.x as int, tr.x as int, bl.x as int, br.x as int);
            let y0 = min4_spec(tl.y as int, tr.y as int, bl.y as int, br.y as int);
            let x1 = max4_spec(tl.x as int, tr.x as int, bl.x as int, br.x as int);
            let y1 = max4_spec(tl.y as int, tr.y as int, bl.y as int, br.y as int);
            Some(
                Rect {
                    origin: Point2D { x: x0 as i32, y: y0 as i32 },
                    size: Size2D { width: (x1 - x0) as i32, height: (y1 - y0) as i32 },
                },
            )
        }
    }

    pub open spec fn inverse_transform_point_spec(self, p: Point2D) -> Option<Point2D> {
        if !self.invertible_2d() {
            None
        } else {
            let u = p.x * FX_ONE - self.m41;
            let v = p.y * FX_ONE - self.m42;
            let xn = u * self.m22 - v * self.m21;
            let yn = v * self.m11 - u * self.m12;
            Some(
                Point2D {
                    x: clamp_au(trunc_div(xn, self.det_2d())) as i32,
                    y: clamp_au(trunc_div(yn, self.det_2d())) as i32,
                },
            )
        }
    }
}

pub open spec fn identity_spec() -> Matrix4D {
    Matrix4D {
        m11: FX_ONE,
        m12: 0,
        m13: 0,
        m14: 0,
        m21: 0,
        m22: FX_ONE,
        m23: 0,
        m24: 0,
        m31: 0,
        m32: 0,
        m33: FX_ONE,
        m34: 0,
        m41: 0,
        m42: 0,
        m43: 0,
        m44: FX_ONE,
    }
}

pub open spec fn translation_spec(x: int, y: int) -> Matrix4D {
    Matrix4D {
        m11: FX_ONE,
        m12: 0,
        m13: 0,
        m14: 0,
        m21: 0,
        m22: FX_ONE,
        m23: 0,
        m24: 0,
        m31: 0,
        m32: 0,
        m33: FX_ONE,
        m34: 0,
        m41: (x * FX_ONE) as i64,
        m42: (y * FX_ONE) as i64,
        m43: 0,
        m44: FX_ONE,
    }
}

/// The standard product `a x b`, entrywise saturating fixed point: applied
/// to a row vector it performs `a` first, then `b`.
pub open spec fn product_spec(a: Matrix4D, b: Matrix4D) -> Matrix4D {
    Matrix4D {
        m11: fx_dot(a.m11 as int, b.m11 as int, a.m12 as int, b.m21 as int, a.m13 as int,
            b.m31 as int, a.m14 as int, b.m41 as int) as i64,
        m12: fx_dot(a.m11 as int, b.m12 as int, a.m12 as int, b.m22 as int, a.m13 as int,
            b.m32 as int, a.m14 as int, b.m42 as int) as i64,
        m13: fx_dot(a.m11 as int, b.m13 as int, a.m12 as int, b.m23 as int, a.m13 as int,
            b.m33 as int, a.m14 as int, b.m43 as int) as i64,
        m14: fx_dot(a.m11 as int, b.m14 as int, a.m12 as int, b.m24 as int, a.m13 as int,
            b.m34 as int, a.m14 as int, b.m44 as int) as i64,
        m21: fx_dot(a.m21 as int, b.m11 as int, a.m22 as int, b.m21 as int, a.m23 as int,
            b.m31 as int, a.m24 as int, b.m41 as int) as i64,
        m22: fx_dot(a.m21 as int, b.m12 as int, a.m22 as int, b.m22 as int, a.m23 as int,
            b.m32 as int, a.m24 as int, b.m42 as int) as i64,
        m23: fx_dot(a.m21 as int, b.m13 as int, a.m22 as int, b.m23 as int, a.m23 as int,
            b.m33 as int, a.m24 as int, b.m43 as int) as i64,
        m24: fx_dot(a.m21 as int, b.m14 as int, a.m22 as int, b.m24 as int, a.m23 as int,
            b.m34 as int, a.m24 as int, b.m44 as int) as i64,
        m31: fx_dot(a.m31 as int, b.m11 as int, a.m32 as int, b.m21 as int, a.m33 as int,
            b.m31 as int, a.m34 as int, b.m41 as int) as i64,
        m32: fx_dot(a.m31 as int, b.m12 as int, a.m32 as int, b.m22 as int, a.m33 as int,
            b.m32 as int, a.m34 as int, b.m42 as int) as i64,
        m33: fx_dot(a.m31 as int, b.m13 as int, a.m32 as int, b.m23 as int, a.m33 as int,
            b.m33 as int, a.m34 as int, b.m43 as int) as i64,
        m34: fx_dot(a.m31 as int, b.m14 as int, a.m32 as int, b.m24 as int, a.m33 as int,
            b.m34 as int, a.m34 as int, b.m44 as int) as i64,
        m41: fx_dot(a.m41 as int, b.m11 as int, a.m42 as int, b.m21 as int, a.m43 as int,
            b.m31 as int, a.m44 as int, b.m41 as int) as i64,
        m42: fx_dot(a.m41 as int, b.m12 as int, a.m42 as int, b.m22 as int, a.m43 as int,
            b.m32 as int, a.m44 as int, b.m42 as int) as i64,
        m43: fx_dot(a.m41 as int, b.m13 as int, a.m42 as int, b.m23 as int, a.m43 as int,
            b.m33 as int, a.m44 as int, b.m43 as int) as i64,
        m44: fx_dot(a.m41 as int, b.m14 as int, a.m42 as int, b.m24 as int, a.m43 as int,
            b.m34 as int, a.m44 as int, b.m44 as int) as i64,
    }
}

fn matrix_product(a: &Matrix4D, b: &Matrix4D) -> (r: Matrix4D)
    requires
        a.wf(),
        b.wf(),
    ensures
        r == product_spec(*a, *b),
        r.wf(),
{
    Matrix4D {
        m11: fx_dot_exec(a.m11, b.m11, a.m12, b.m21, a.m13, b.m31, a.m14, b.m41),
        m12: fx_dot_exec(a.m11, b.m12, a.m12, b.m22, a.m13, b.m32, a.m14, b.m42),
        m13: fx_dot_exec(a.m11, b.m13, a.m12, b.m23, a.m13, b.m33, a.m14, b.m43),
        m14: fx_dot_exec(a.m11, b.m14, a.m12, b.m24, a.m13, b.m34, a.m14, b.m44),
        m21: fx_dot_exec(a.m21, b.m11, a.m22, b.m21, a.m23, b.m31, a.m24, b.m41),
        m22: fx_dot_exec(a.m21, b.m12, a.m22, b.m22, a.m23, b.m32, a.m24, b.m42),
        m23: fx_dot_exec(a.m21, b.m13, a.m22, b.m23, a.m23, b.m33, a.m24, b.m43),
        m24: fx_dot_exec(a.m21, b.m14, a.m22, b.m24, a.m23, b.m34, a.m24, b.m44),
        m31: fx_dot_exec(a.m31, b.m11, a.m32, b.m21, a.m33, b.m31, a.m34, b.m41),
        m32: fx_dot_exec(a.m31, b.m12, a.m32, b.m22, a.m33, b.m32, a.m34, b.m42),
        m33: fx_dot_exec(a.m31, b.m13, a.m32, b.m23, a.m33, b.m33, a.m34, b.m43),
        m34: fx_dot_exec(a.m31, b.m14, a.m32, b.m24, a.m33, b.m34, a.m34, b.m44),
        m41: fx_dot_exec(a.m41, b.m11, a.m42, b.m21, a.m43, b.m31, a.m44, b.m41),
        m42: fx_dot_exec(a.m41, b.m12, a.m42, b.m22, a.m43, b.m32, a.m44, b.m42),
        m43: fx_dot_exec(a.m41, b.m13, a.m42, b.m23, a.m43, b.m33, a.m44, b.m43),
        m44: fx_dot_exec(a.m41, b.m14, a.m42, b.m24, a.m43, b.m34, a.m44, b.m44),
    }
}

fn fx_dot_exec(a1: i64, b1: i64, a2: i64, b2: i64, a3: i64, b3: i64, a4: i64, b4: i64) -> (r:
    i64)
    requires
        -FX_BOUND <= a1 <= FX_BOUND,
        -FX_BOUND <= b1 <= FX_BOUND,
        -FX_BOUND <= a2 <= FX_BOUND,
        -FX_BOUND <= b2 <= FX_BOUND,
        -FX_BOUND <= a3 <= FX_BOUND,
        -FX_BOUND <= b3 <= FX_BOUND,
        -FX_BOUND <= a4 <= FX_BOUND,
        -FX_BOUND <= b4 <= FX_BOUND,
    ensures
        r == fx_dot(a1 as int, b1 as int, a2 as int, b2 as int, a3 as int, b3 as int, a4 as int,
            b4 as int),
        -FX_BOUND <= r <= FX_BOUND,
{
    proof {
        lemma_mul_bound(a1 as int, b1 as int, FX_BOUND as int);
        lemma_mul_bound(a2 as int, b2 as int, FX_BOUND as int);
        lemma_mul_bound(a3 as int, b3 as int, FX_BOUND as int);
        lemma_mul_bound(a4 as int, b4 as int, FX_BOUND as int);
    }
    let s: i128 = (a1 as i128) * (b1 as i128) + (a2 as i128) * (b2 as i128) + (a3 as i128) * (
    b3 as i128) + (a4 as i128) * (b4 as i128);
    let q = floor_div_fx(s);
    if q < -FX_BOUND as i128 {
        -FX_BOUND
    } else if q > FX_BOUND as i128 {
        FX_BOUND
    } else {
        q as i64
    }
}

/// Floor division of a scaled value by `FX_ONE`.
fn floor_div_fx(s: i128) -> (q: i128)
    requires
        -0x8000_0000_0000_0000_0000_0000 <= s <= 0x8000_0000_0000_0000_0000_0000,
    ensures
        q == s as int / (FX_ONE as int),
{
    if s >= 0 {
        let q = ((s as u128) / (FX_ONE as u128)) as i128;
        proof {
            lemma_fundamental_div_mod(s as int, FX_ONE as int);
        }
        q
    } else {
        let neg = (-s) as u128;
        let q = ((neg + (FX_ONE as u128) - 1) / (FX_ONE as u128)) as i128;
        proof {
            lemma_floor_div_neg(s as int, FX_ONE as int);
        }
        -q
    }
}

/// For `s < 0` and `d > 0`: floor(s / d) equals the negated rounded-up
/// quotient of the magnitudes.
proof fn lemma_floor_div_neg(s: int, d: int)
    requires
        s < 0,
        d > 0,
    ensures
        -((-s + d - 1) / d) == s / d,
{
    let q = s / d;
    let r = s % d;
    lemma_fundamental_div_mod(s, d);
    assert(s == q * d + r);
    assert(0 <= r < d);
    assert(-s + d - 1 == (-q) * d + (d - 1 - r)) by {
        assert(-s == (-q) * d - r) by {
            assert((-q) * d == -(q * d)) by (nonlinear_arith);
        }
    }
    lemma_fundamental_div_mod_converse(-s + d - 1, d, -q, d - 1 - r);
}

/// `|a| <= m` and `|b| <= m` bound the product by `m * m`.
proof fn lemma_mul_bound(a: int, b: int, m: int)
    requires
        -m <= a <= m,
        -m <= b <= m,
        0 <= m,
    ensures
        -(m * m) <= a * b <= m * m,
{
    assert(-(m * m) <= a * b <= m * m) by (nonlinear_arith)
        requires
            -m <= a <= m,
            -m <= b <= m,
            0 <= m,
    ;
}

/// Scales an app-unit value down by `FX_ONE` (floor) and clamps it.
fn unscale_to_au(s: i128) -> (r: Au)
    requires
        -0x8000_0000_0000_0000_0000_0000 <= s <= 0x8000_0000_0000_0000_0000_0000,
    ensures
        r == clamp_au(s as int / (FX_ONE as int)),
{
    let q = floor_div_fx(s);
    if q < MIN_AU as i128 {
        MIN_AU
    } else if q > MAX_AU as i128 {
        MAX_AU
    } else {
        q as i32
    }
}

/// Truncated (toward zero) division, over magnitudes.
fn trunc_div_exec(n: i128, d: i128) -> (q: i128)
    requires
        d != 0,
        -0x8000_0000_0000_0000_0000_0000_0000_0000 < n,
        -0x8000_0000_0000_0000_0000_0000_0000_0000 < d,
    ensures
        q == trunc_div(n as int, d as int),
{
    let na: u128 = if n >= 0 {
        n as u128
    } else {
        (-n) as u128
    };
    let da: u128 = if d >= 0 {
        d as u128
    } else {
        (-d) as u128
    };
    let qa = na / da;
    if (n < 0) == (d < 0) {
        qa as i128
    } else {
        -(qa as i128)
    }
}

fn clamp_i128_to_au(v: i128) -> (r: Au)
    ensures
        r == clamp_au(v as int),
{
    if v < MIN_AU as i128 {
        MIN_AU
    } else if v > MAX_AU as i128 {
        MAX_AU
    } else {
        v as i32
    }
}

fn min4(a: i32, b: i32, c: i32, d: i32) -> (r: i32)
    ensures
        r == min4_spec(a as int, b as int, c as int, d as int),
{
    let x = if a <= b {
        a
    } else {
        b
    };
    let y = if c <= d {
        c
    } else {
        d
    };
    if x <= y {
        x
    } else {
        y
    }
}

fn max4(a: i32, b: i32, c: i32, d: i32) -> (r: i32)
    ensures
        r == max4_spec(a as int, b as int, c as int, d as int),
{
    let x = if a >= b {
        a
    } else {
        b
    };
    let y = if c >= d {
        c
    } else {
        d
    };
    if x >= y {
        x
    } else {
        y
    }
}

pub open spec fn min4_spec(a: int, b: int, c: int, d: int) -> int {
    let x = if a <= b {
        a
    } else {
        b
    };
    let y = if c <= d {
        c
    } else {
        d
    };
    if x <= y {
        x
    } else {
        y
    }
}

pub open spec fn max4_spec(a: int, b: int, c: int, d: int) -> int {
    let x = if a >= b {
        a
    } else {
        b
    };
    let y = if c >= d {
        c
    } else {
        d
    };
    if x >= y {
        x
    } else {
        y
    }
}

} // verus!
