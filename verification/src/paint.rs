//! The paint driver: replays a display list against a painting backend.
//!
//! The backend itself draws pixels and is not modelled here; every call the
//! driver makes to it is recorded in order as a [`PaintOp`], so the whole
//! replay — transform stack, clip stack, transient clips, tile culling and
//! the skipping of subtrees under non-invertible transforms — is verified,
//! and an embedder performs the recorded calls against a real rasterizer.

use vstd::prelude::*;
use crate::clip::{ClippingRegion, ComplexClippingRegion, BorderRadii};
use crate::geometry::{Au, Point2D, Rect, SideOffsets2D, Size2D, MAX_AU, MIN_AU};
use crate::ids::{ImageDataHandle, TextRunHandle};
use crate::item::{
    BoxShadowClipMode, DisplayItem, ImageRendering, TextOrientation, WebRenderImageInfo,
};
use crate::list::DisplayList;
use crate::stacking::{StackingContext, StackingContextType};
use crate::style::{BorderStyle, Color, Filter, GradientStop, MixBlendMode};
use crate::transform::{Matrix4D, SimpleMatrixDetection};
use crate::traversal::DisplayListTraversal;

verus! {

/// One call into the painting backend, in the order the driver makes them.
pub enum PaintOp {
    /// Set the 2D transform for what follows.
    SetTransform(Matrix4D),
    /// Set the transform back to what it was before the preceding
    /// `SetTransform` of the same scope.
    RestoreTransform,
    /// Obtain a draw target for a subtree with these filters and blend
    /// mode; the backend decides whether an offscreen is needed.
    GetTemporaryDrawTarget(Vec<Filter>, MixBlendMode),
    /// Composite that target back with the filters and blend mode.
    DrawTemporaryDrawTarget(Vec<Filter>, MixBlendMode),
    /// Push the stacking context's overflow rect as a clip.
    PushClip(Rect),
    /// Pop the clip pushed for the stacking context, if one was.
    PopClip,
    /// Establish the given region as the transient clip for single items.
    PushTransientClip(ClippingRegion),
    /// Drop any transient clip at a stacking context boundary.
    RemoveTransientClip,
    /// Fill the rectangle with the color.
    DrawSolidColor(Rect, Color),
    /// Draw a byte range of a text run: run, range begin and length, color,
    /// baseline origin, orientation, blur radius.
    DrawText(TextRunHandle, u32, u32, Color, Point2D, TextOrientation, Au),
    /// Tile an image over the bounds: bounds, stretch size, tile spacing,
    /// image info, pixel data, stretching algorithm.
    DrawImage(Rect, Size2D, Size2D, WebRenderImageInfo, ImageDataHandle, ImageRendering),
    /// Draw four border edges: bounds, widths, radii, colors and styles in
    /// top/right/bottom/left order.
    DrawBorder(
        Rect,
        SideOffsets2D,
        BorderRadii,
        Color,
        Color,
        Color,
        Color,
        BorderStyle,
        BorderStyle,
        BorderStyle,
        BorderStyle,
    ),
    /// Draw a linear gradient in the bounds between the two points with
    /// the stops.
    DrawGradient(Rect, Point2D, Point2D, Vec<GradientStop>),
    /// Draw a line segment in the bounds with the color and style.
    DrawLine(Rect, Color, BorderStyle),
    /// Draw a box shadow: box bounds, offset, color, blur, spread, clip
    /// mode.
    DrawBoxShadow(Rect, Point2D, Color, Au, Au, BoxShadowClipMode),
}

/// The specification shadow of [`PaintOp`]: identical except that list
/// payloads appear as sequences, so op sequences can be pinned in
/// contracts.
pub ghost enum OpV {
    SetTransform(Matrix4D),
    RestoreTransform,
    GetTemporaryDrawTarget(Seq<Filter>, MixBlendMode),
    DrawTemporaryDrawTarget(Seq<Filter>, MixBlendMode),
    PushClip(Rect),
    PopClip,
    PushTransientClip(Rect, Seq<ComplexClippingRegion>),
    RemoveTransientClip,
    DrawSolidColor(Rect, Color),
    DrawText(TextRunHandle, u32, u32, Color, Point2D, TextOrientation, Au),
    DrawImage(Rect, Size2D, Size2D, WebRenderImageInfo, ImageDataHandle, ImageRendering),
    DrawBorder(
        Rect,
        SideOffsets2D,
        BorderRadii,
        Color,
        Color,
        Color,
        Color,
        BorderStyle,
        BorderStyle,
        BorderStyle,
        BorderStyle,
    ),
    DrawGradient(Rect, Point2D, Point2D, Seq<GradientStop>),
    DrawLine(Rect, Color, BorderStyle),
    DrawBoxShadow(Rect, Point2D, Color, Au, Au, BoxShadowClipMode),
}

pub open spec fn op_view(op: PaintOp) -> OpV {
    match op {
        PaintOp::SetTransform(m) => OpV::SetTransform(m),
        PaintOp::RestoreTransform => OpV::RestoreTransform,
        PaintOp::GetTemporaryDrawTarget(f, b) => OpV::GetTemporaryDrawTarget(f@, b),
        PaintOp::DrawTemporaryDrawTarget(f, b) => OpV::DrawTemporaryDrawTarget(f@, b),
        PaintOp::PushClip(r) => OpV::PushClip(r),
        PaintOp::PopClip => OpV::PopClip,
        PaintOp::PushTransientClip(c) => OpV::PushTransientClip(c.main, c.complex@),
        PaintOp::RemoveTransientClip => OpV::RemoveTransientClip,
        PaintOp::DrawSolidColor(r, c) => OpV::DrawSolidColor(r, c),
        PaintOp::DrawText(h, b, l, c, o, t, a) => OpV::DrawText(h, b, l, c, o, t, a),
        PaintOp::DrawImage(r, s, t, w, d, a) => OpV::DrawImage(r, s, t, w, d, a),
        PaintOp::DrawBorder(r, w, rad, c1, c2, c3, c4, s1, s2, s3, s4) => OpV::DrawBorder(
            r,
            w,
            rad,
            c1,
            c2,
            c3,
            c4,
            s1,
            s2,
            s3,
            s4,
        ),
        PaintOp::DrawGradient(r, a, b, st) => OpV::DrawGradient(r, a, b, st@),
        PaintOp::DrawLine(r, c, s) => OpV::DrawLine(r, c, s),
        PaintOp::DrawBoxShadow(r, o, c, bl, sp, m) => OpV::DrawBoxShadow(r, o, c, bl, sp, m),
    }
}

pub open spec fn ops_view(s: Seq<PaintOp>) -> Seq<OpV> {
    s.map_values(|op: PaintOp| op_view(op))
}

/// The view of a possibly-set transient clip.
pub open spec fn transient_view(t: Option<ClippingRegion>) -> Option<(
    Rect,
    Seq<ComplexClippingRegion>,
)> {
    match t {
        Some(c) => Some((c.main, c.complex@)),
        None => None,
    }
}

/// The paint backend handle: the recorded calls plus what the driver reads
/// of the backend, all fixed for one replay.
pub struct PaintContext {
    /// The backend calls made so far, in order.
    pub ops: Vec<PaintOp>,
    /// Width of the tile being painted, in device pixels.
    pub screen_width: i32,
    /// Height of the tile being painted, in device pixels.
    pub screen_height: i32,
    /// Device pixels per CSS pixel, in 16.16 fixed point.
    pub pixels_per_px: i64,
}

impl PaintContext {
    /// The tile size stays small enough that device pixels convert to app
    /// units, and the scale is positive.
    pub open spec fn wf(self) -> bool {
        &&& 0 <= self.screen_width <= MAX_AU / 60
        &&& 0 < self.pixels_per_px <= 0x1000_0000
        &&& 0 <= self.screen_height <= MAX_AU / 60
    }
}

/// An item the backend of this driver can paint: WebGL is only for the
/// renderer-side backend, and an image must carry its pixels.
pub open spec fn paintable(item: DisplayItem) -> bool {
    match item {
        DisplayItem::WebGL(_) => false,
        DisplayItem::Image(b) => b.image_data is Some,
        _ => true,
    }
}

/// Every item of the list is paintable here.
pub open spec fn list_paintable(s: Seq<DisplayItem>) -> bool {
    forall|i: int| 0 <= i < s.len() ==> paintable(#[trigger] s[i])
}

/// The backend draw call for one item, if any: a fully transparent solid
/// color is skipped, iframes and the bracket markers draw nothing.
pub open spec fn item_draw_ops(item: DisplayItem) -> Seq<OpV> {
    match item {
        DisplayItem::SolidColor(b) => if b.color.a == 0 {
            Seq::empty()
        } else {
            seq![OpV::DrawSolidColor(b.base.bounds, b.color)]
        },
        DisplayItem::Text(b) => seq![
            OpV::DrawText(
                b.text_run,
                b.range_begin,
                b.range_length,
                b.text_color,
                b.baseline_origin,
                b.orientation,
                b.blur_radius,
            ),
        ],
        DisplayItem::Image(b) => seq![
            OpV::DrawImage(
                b.base.bounds,
                b.stretch_size,
                b.tile_spacing,
                b.webrender_image,
                b.image_data->0,
                b.image_rendering,
            ),
        ],
        DisplayItem::WebGL(_) => Seq::empty(),
        DisplayItem::Border(b) => seq![
            OpV::DrawBorder(
                b.base.bounds,
                b.border_widths,
                b.radius,
                b.color_top,
                b.color_right,
                b.color_bottom,
                b.color_left,
                b.style_top,
                b.style_right,
                b.style_bottom,
                b.style_left,
            ),
        ],
        DisplayItem::Gradient(b) => seq![
            OpV::DrawGradient(b.base.bounds, b.start_point, b.end_point, b.stops@),
        ],
        DisplayItem::Line(b) => seq![OpV::DrawLine(b.base.bounds, b.color, b.style)],
        DisplayItem::BoxShadow(b) => seq![
            OpV::DrawBoxShadow(
                b.box_bounds,
                b.offset,
                b.color,
                b.blur_radius,
                b.spread_radius,
                b.clip_mode,
            ),
        ],
        DisplayItem::Iframe(_) => Seq::empty(),
        DisplayItem::PushStackingContext(_) => Seq::empty(),
        DisplayItem::PopStackingContext(_) => Seq::empty(),
    }
}

/// The calls for painting one item: a transient clip is pushed first
/// unless the active one is already this item's clip, then the draw call.
pub open spec fn item_paint_ops(
    item: DisplayItem,
    transient: Option<(Rect, Seq<ComplexClippingRegion>)>,
) -> Seq<OpV> {
    let clip = item.base_spec().clip;
    if transient == Some((clip.main, clip.complex@)) {
        item_draw_ops(item)
    } else {
        seq![OpV::PushTransientClip(clip.main, clip.complex@)] + item_draw_ops(item)
    }
}

/// The transient clip after painting the item: always this item's clip.
pub open spec fn transient_after(item: DisplayItem) -> Option<(
    Rect,
    Seq<ComplexClippingRegion>,
)> {
    Some((item.base_spec().clip.main, item.base_spec().clip.complex@))
}

fn copy_filters(filters: &Vec<Filter>) -> (r: Vec<Filter>)
    ensures
        r@ == filters@,
{
    let n = filters.len();
    let mut out: Vec<Filter> = Vec::new();
    let mut i: usize = 0;
    while i < n
        invariant
            0 <= i <= n,
            n == filters@.len(),
            out@ =~= filters@.subrange(0, i as int),
        decreases n - i,
    {
        out.push(filters[i]);
        proof {
            assert(out@ =~= filters@.subrange(0, i as int + 1));
        }
        i += 1;
    }
    proof {
        assert(filters@.subrange(0, n as int) =~= filters@);
    }
    out
}

fn copy_stops(stops: &Vec<GradientStop>) -> (r: Vec<GradientStop>)
    ensures
        r@ == stops@,
{
    let n = stops.len();
    let mut out: Vec<GradientStop> = Vec::new();
    let mut i: usize = 0;
    while i < n
        invariant
            0 <= i <= n,
            n == stops@.len(),
            out@ =~= stops@.subrange(0, i as int),
        decreases n - i,
    {
        out.push(stops[i]);
        proof {
            assert(out@ =~= stops@.subrange(0, i as int + 1));
        }
        i += 1;
    }
    proof {
        assert(stops@.subrange(0, n as int) =~= stops@);
    }
    out
}

impl DisplayItem {
    /// Paints this item: reuses or replaces the transient clip, then makes
    /// the one backend call the item stands for.
    fn draw_into_context(
        &self,
        paint_context: &mut PaintContext,
        transient_clip: &mut Option<ClippingRegion>,
    )
        requires
            paintable(*self),
        ensures
            ops_view(final(paint_context).ops@) == ops_view(old(paint_context).ops@)
                + item_paint_ops(*self, transient_view(*old(transient_clip))),
            final(paint_context).ops@.len() >= old(paint_context).ops@.len(),
            final(paint_context).ops@.subrange(0, old(paint_context).ops@.len() as int) == old(
                paint_context,
            ).ops@,
            transient_view(*final(transient_clip)) == transient_after(*self),
            final(paint_context).screen_width == old(paint_context).screen_width,
            final(paint_context).screen_height == old(paint_context).screen_height,
            final(paint_context).pixels_per_px == old(paint_context).pixels_per_px,
    {
        let ghost ops0 = paint_context.ops@;
        let this_clip = self.base();
        let reuse = match transient_clip {
            Some(t) => *t == this_clip.clip,
            None => false,
        };
        if !reuse {
            let copy = this_clip.clip.duplicate();
            let copy2 = this_clip.clip.duplicate();
            paint_context.ops.push(PaintOp::PushTransientClip(copy));
            *transient_clip = Some(copy2);
            proof {
                assert(ops_view(paint_context.ops@) =~= ops_view(ops0) + seq![
                    OpV::PushTransientClip(
                        self.base_spec().clip.main,
                        self.base_spec().clip.complex@,
                    ),
                ]);
            }
        } else {
            *transient_clip = Some(this_clip.clip.duplicate());
        }
        let ghost ops1 = paint_context.ops@;
        match self {
            DisplayItem::SolidColor(solid_color) => {
                if solid_color.color.a != 0 {
                    paint_context.ops.push(
                        PaintOp::DrawSolidColor(solid_color.base.bounds, solid_color.color),
                    );
                }
            },
            DisplayItem::Text(text) => {
                paint_context.ops.push(
                    PaintOp::DrawText(
                        text.text_run,
                        text.range_begin,
                        text.range_length,
                        text.text_color,
                        text.baseline_origin,
                        text.orientation,
                        text.blur_radius,
                    ),
                );
            },
            DisplayItem::Image(image_item) => {
                let data = match &image_item.image_data {
                    Some(d) => *d,
                    None => { proof { assert(false); } ImageDataHandle(0) },
                };
                paint_context.ops.push(
                    PaintOp::DrawImage(
                        image_item.base.bounds,
                        image_item.stretch_size,
                        image_item.tile_spacing,
                        image_item.webrender_image,
                        data,
                        image_item.image_rendering,
                    ),
                );
            },
            DisplayItem::WebGL(_) => {
                proof {
                    assert(false);
                }
            },
            DisplayItem::Border(border) => {
                paint_context.ops.push(
                    PaintOp::DrawBorder(
                        border.base.bounds,
                        border.border_widths,
                        border.radius,
                        border.color_top,
                        border.color_right,
                        border.color_bottom,
                        border.color_left,
                        border.style_top,
                        border.style_right,
                        border.style_bottom,
                        border.style_left,
                    ),
                );
            },
            DisplayItem::Gradient(gradient) => {
                let stops = copy_stops(&gradient.stops);
                paint_context.ops.push(
                    PaintOp::DrawGradient(
                        gradient.base.bounds,
                        gradient.start_point,
                        gradient.end_point,
                        stops,
                    ),
                );
            },
            DisplayItem::Line(line) => {
                paint_context.ops.push(PaintOp::DrawLine(line.base.bounds, line.color, line.style));
            },
            DisplayItem::BoxShadow(box_shadow) => {
                paint_context.ops.push(
                    PaintOp::DrawBoxShadow(
                        box_shadow.box_bounds,
                        box_shadow.offset,
                        box_shadow.color,
                        box_shadow.blur_radius,
                        box_shadow.spread_radius,
                        box_shadow.clip_mode,
                    ),
                );
            },
            DisplayItem::Iframe(_) => {},
            DisplayItem::PushStackingContext(_) => {},
            DisplayItem::PopStackingContext(_) => {},
        }
        proof {
            assert(ops_view(paint_context.ops@) =~= ops_view(ops1) + item_draw_ops(*self));
            assert(ops_view(paint_context.ops@) =~= ops_view(ops0) + item_paint_ops(
                *self,
                transient_view(*old(transient_clip)),
            ));
            assert(paint_context.ops@.subrange(0, ops0.len() as int) =~= ops0);
        }
    }
}

/// Rounds an app-unit coordinate to the nearest device pixel boundary:
/// the model of sub-pixel snapping before a child transform is composed.
fn snap_to_device_pixel(x: Au, pixels_per_px: i64) -> (r: Au)
    requires
        0 < pixels_per_px <= 0x1000_0000,
    ensures
        r == snap_spec(x as int, pixels_per_px as int),
        MIN_AU <= r <= MAX_AU,
{
    proof {
        assert(-0x1_0000_0000_0000_0000 < (x as int) * (pixels_per_px as int)
            < 0x1_0000_0000_0000_0000) by (nonlinear_arith)
            requires
                -0x8000_0000 <= x <= 0x8000_0000,
                0 < pixels_per_px <= 0x1000_0000,
        ;
    }
    let au_per_device_px: i128 = 60 * 65536;
    let n0: i128 = round_div_exec((x as i128) * (pixels_per_px as i128), au_per_device_px);
    let n: i128 = if n0 < -0x100_0000_0000 {
        -0x100_0000_0000
    } else if n0 > 0x100_0000_0000 {
        0x100_0000_0000
    } else {
        n0
    };
    let s: i128 = round_div_exec(n * au_per_device_px, pixels_per_px as i128);
    if s < MIN_AU as i128 {
        MIN_AU
    } else if s > MAX_AU as i128 {
        MAX_AU
    } else {
        s as i32
    }
}

/// The snapped coordinate: the whole number of device pixels nearest to
/// `x` (rounding half away from zero, the pixel count held to a generous
/// range), converted back to app units the same way and clamped.
pub open spec fn snap_spec(x: int, pixels_per_px: int) -> int {
    let n0 = round_div(x * pixels_per_px, (60 * 65536) as int);
    let n = if n0 < -0x100_0000_0000 {
        -0x100_0000_0000
    } else if n0 > 0x100_0000_0000 {
        0x100_0000_0000
    } else {
        n0
    };
    crate::transform::clamp_au(round_div(n * (60 * 65536), pixels_per_px))
}

/// Division rounding half away from zero.
pub open spec fn round_div(n: int, d: int) -> int
    recommends
        d > 0,
{
    let q = (crate::transform::abs_int(n) + d / 2) / d;
    if n < 0 {
        -q
    } else {
        q
    }
}

fn round_div_exec(n: i128, d: i128) -> (r: i128)
    requires
        0 < d < 0x1_0000_0000_0000_0000_0000,
        -0x1_0000_0000_0000_0000_0000_0000_0000 < n < 0x1_0000_0000_0000_0000_0000_0000_0000,
    ensures
        r == round_div(n as int, d as int),
{
    let na: u128 = if n >= 0 {
        n as u128
    } else {
        (-n) as u128
    };
    let q = ((na + ((d as u128) / 2)) / (d as u128)) as i128;
    if n < 0 {
        -q
    } else {
        q
    }
}

/// The tile rectangle carried back into a stacking context's own space:
/// the screen tile (at the origin, in app units) mapped through the
/// inverse of the context's accumulated transform; `None` when that
/// transform cannot be inverted, in which case the subtree is not
/// displayed.
fn transformed_tile_rect(screen_width: i32, screen_height: i32, transform: &Matrix4D) -> (r:
    Option<Rect>)
    requires
        0 <= screen_width <= MAX_AU / 60,
        0 <= screen_height <= MAX_AU / 60,
        transform.wf(),
    ensures
        r is Some <==> transform.invertible_2d(),
        r is Some ==> r->Some_0.wf(),
        r == transform.inverse_transform_rect_spec(
            Rect {
                origin: Point2D { x: 0, y: 0 },
                size: Size2D { width: (screen_width * 60) as i32, height: (screen_height * 60) as i32 },
            },
        ),
{
    let tile = Rect {
        origin: Point2D { x: 0, y: 0 },
        size: Size2D { width: screen_width * 60, height: screen_height * 60 },
    };
    transform.inverse_transform_rect(&tile)
}

/// The screen tile as a rectangle in app units, placed at the origin.
pub open spec fn tile_rect_spec(screen_width: int, screen_height: int) -> Rect {
    Rect {
        origin: Point2D { x: 0, y: 0 },
        size: Size2D { width: (screen_width * 60) as i32, height: (screen_height * 60) as i32 },
    }
}

/// The transform a non-layered context composes for its subtree: the
/// context's own transform, then the translation to its origin snapped to
/// device pixels, then the inherited transform.
pub open spec fn composed_transform_spec(
    ctx: StackingContext,
    transform: Matrix4D,
    subpixel: Point2D,
    pixels_per_px: int,
) -> Matrix4D {
    let sx = snap_spec(ctx.bounds.origin.x + subpixel.x, pixels_per_px);
    let sy = snap_spec(ctx.bounds.origin.y + subpixel.y, pixels_per_px);
    crate::transform::product_spec(
        ctx.transform,
        crate::transform::product_spec(crate::transform::translation_spec(sx, sy), transform),
    )
}

/// The sub-pixel remainder carried to the children: the unsnapped part of
/// the origin under a pure translation, zero under any other transform.
pub open spec fn child_subpixel_spec(
    ctx: StackingContext,
    composed: Matrix4D,
    subpixel: Point2D,
    pixels_per_px: int,
) -> Point2D {
    if composed.is_identity_or_simple_translation_spec() {
        let sx = snap_spec(ctx.bounds.origin.x + subpixel.x, pixels_per_px);
        let sy = snap_spec(ctx.bounds.origin.y + subpixel.y, pixels_per_px);
        Point2D {
            x: crate::transform::clamp_au(ctx.bounds.origin.x + subpixel.x - sx) as i32,
            y: crate::transform::clamp_au(ctx.bounds.origin.y + subpixel.y - sy) as i32,
        }
    } else {
        Point2D { x: 0, y: 0 }
    }
}

/// Everything entering a context computes: the composed transform (the
/// inherited one unchanged when the compositor positions the layer), the
/// sub-pixel offset handed to the children, and the screen tile carried
/// back into the context's space — `None` when the composed transform
/// cannot be inverted, in which case the subtree is not displayed.
pub open spec fn enter_context_spec(
    ctx: StackingContext,
    transform: Matrix4D,
    subpixel: Point2D,
    screen_width: int,
    screen_height: int,
    pixels_per_px: int,
) -> (Matrix4D, Point2D, Option<Rect>) {
    let (t, sub) = if ctx.layer_info is Some {
        (transform, subpixel)
    } else {
        let composed = composed_transform_spec(ctx, transform, subpixel, pixels_per_px);
        (composed, child_subpixel_spec(ctx, composed, subpixel, pixels_per_px))
    };
    (t, sub, t.inverse_transform_rect_spec(tile_rect_spec(screen_width, screen_height)))
}

/// Where the cursor stands after skipping a subtree: on the far side of
/// the matching pop marker (or wherever the scan ended, when the pop lies
/// outside the slice).
pub open spec fn skip_past_spec(
    s: Seq<DisplayItem>,
    id: crate::ids::StackingContextId,
    from: int,
    last: int,
) -> int {
    let m = crate::traversal::matching_pop_index(s, id, from);
    let m2 = if m < from {
        from
    } else {
        m
    };
    if m2 < last {
        m2 + 1
    } else {
        m2
    }
}

/// The state of one replay level.
pub ghost struct ReplayState {
    pub transform: Matrix4D,
    pub subpixel: Point2D,
    pub tile: Option<Rect>,
    pub transient: Option<(Rect, Seq<ComplexClippingRegion>)>,
}

/// A suspended outer level: the state to restore and the filters and blend
/// mode the entered context composites back with.
pub ghost struct ReplayFrame {
    pub saved: ReplayState,
    pub filters: Seq<Filter>,
    pub blend: MixBlendMode,
}

/// The calls that close one entered context: drop the transient clip, pop
/// the context's clip, restore the transform, composite the temporary
/// target back.
pub open spec fn exit_ops(f: ReplayFrame) -> Seq<OpV> {
    seq![
        OpV::RemoveTransientClip,
        OpV::PopClip,
        OpV::RestoreTransform,
        OpV::DrawTemporaryDrawTarget(f.filters, f.blend),
    ]
}

/// Closing every open level, innermost first, as the drain does when the
/// traversal runs out.
pub open spec fn unwind_ops(stack: Seq<ReplayFrame>) -> Seq<OpV>
    decreases stack.len(),
{
    if stack.len() == 0 {
        Seq::empty()
    } else {
        exit_ops(stack.last()) + unwind_ops(stack.drop_last())
    }
}

/// The state of the outermost level, whose transient clip the drain hands
/// back to its caller.
pub open spec fn bottom_state(cur: ReplayState, stack: Seq<ReplayFrame>) -> ReplayState {
    if stack.len() == 0 {
        cur
    } else {
        stack[0].saved
    }
}

/// The traversal owes this index: it is inside the slice, or it is a
/// bracket marker replayed to re-establish context.
pub open spec fn owned_index(s: Seq<DisplayItem>, first: int, i: int) -> bool {
    i >= first || s[i].is_bracket()
}

/// The whole replay of `s[i..last)` (indices before `first` contributing
/// only their brackets), mirroring the paint driver exactly: the backend
/// calls made, the index the cursor ends on, and the final state of the
/// outermost level. Ordinary items are culled against the tile and painted
/// under the transient-clip rule; a push marker either skips its whole
/// subtree (when culled, or when its own or the composed transform cannot
/// be inverted — the target request alone is made in the last case) or
/// opens a level with the composed transform, the context's overflow as
/// clip, and a fresh transient; a pop marker closes the innermost level,
/// or ends the replay when none is open.
pub open spec fn replay_measure(last: int, i: int) -> int {
    if i < last {
        last - i
    } else {
        0
    }
}

pub open spec fn replay(
    s: Seq<DisplayItem>,
    first: int,
    last: int,
    i: int,
    cur: ReplayState,
    stack: Seq<ReplayFrame>,
    screen_width: int,
    screen_height: int,
    pixels_per_px: int,
) -> (Seq<OpV>, int, ReplayState)
    decreases replay_measure(last, i),
{
    if i < 0 || i >= last || last > s.len() {
        (unwind_ops(stack), i, bottom_state(cur, stack))
    } else {
        match s[i] {
            DisplayItem::PopStackingContext(_) => {
                if !owned_index(s, first, i) {
                    // unreachable: pop markers are always owned
                    replay(s, first, last, i + 1, cur, stack, screen_width, screen_height,
                        pixels_per_px)
                } else if stack.len() == 0 {
                    (Seq::empty(), i + 1, cur)
                } else {
                    let f = stack.last();
                    let rest = replay(s, first, last, i + 1, f.saved, stack.drop_last(),
                        screen_width, screen_height, pixels_per_px);
                    (exit_ops(f) + rest.0, rest.1, rest.2)
                }
            },
            DisplayItem::PushStackingContext(p) => {
                let ctx = p.stacking_context;
                if !ctx.intersects_rect_in_parent_context_spec(cur.tile)
                    || !ctx.transform.invertible_2d() {
                    replay(s, first, last, skip_past_spec(s, ctx.id, i + 1, last), cur, stack,
                        screen_width, screen_height, pixels_per_px)
                } else {
                    let e = enter_context_spec(ctx, cur.transform, cur.subpixel, screen_width,
                        screen_height, pixels_per_px);
                    match e.2 {
                        None => {
                            let rest = replay(s, first, last, skip_past_spec(
                                s,
                                ctx.id,
                                i + 1,
                                last,
                            ), cur, stack, screen_width, screen_height, pixels_per_px);
                            (seq![OpV::GetTemporaryDrawTarget(ctx.filters@, ctx.blend_mode)]
                                + rest.0, rest.1, rest.2)
                        },
                        Some(tile) => {
                            let entry = seq![
                                OpV::GetTemporaryDrawTarget(ctx.filters@, ctx.blend_mode),
                                OpV::SetTransform(e.0),
                                OpV::PushClip(ctx.overflow),
                            ];
                            let newcur = ReplayState {
                                transform: e.0,
                                subpixel: e.1,
                                tile: Some(tile),
                                transient: None,
                            };
                            let frame = ReplayFrame {
                                saved: cur,
                                filters: ctx.filters@,
                                blend: ctx.blend_mode,
                            };
                            let rest = replay(s, first, last, i + 1, newcur, stack.push(frame),
                                screen_width, screen_height, pixels_per_px);
                            (entry + rest.0, rest.1, rest.2)
                        },
                    }
                }
            },
            _ => {
                if !owned_index(s, first, i) {
                    replay(s, first, last, i + 1, cur, stack, screen_width, screen_height,
                        pixels_per_px)
                } else if s[i].intersects_rect_in_parent_context_spec(cur.tile) {
                    let newcur = ReplayState { transient: transient_after(s[i]), ..cur };
                    let rest = replay(s, first, last, i + 1, newcur, stack, screen_width,
                        screen_height, pixels_per_px);
                    (item_paint_ops(s[i], cur.transient) + rest.0, rest.1, rest.2)
                } else {
                    replay(s, first, last, i + 1, cur, stack, screen_width, screen_height,
                        pixels_per_px)
                }
            },
        }
    }
}

/// Indices the traversal will not return change nothing in the replay.
proof fn lemma_replay_skips_unowned(
    s: Seq<DisplayItem>,
    first: int,
    last: int,
    i: int,
    h: int,
    cur: ReplayState,
    stack: Seq<ReplayFrame>,
    sw: int,
    sh: int,
    ppx: int,
)
    requires
        0 <= i <= h <= last,
        last <= s.len(),
        forall|j: int| i <= j < h ==> !owned_index(s, first, j),
    ensures
        replay(s, first, last, i, cur, stack, sw, sh, ppx) == replay(s, first, last, h, cur,
            stack, sw, sh, ppx),
    decreases h - i,
{
    if i < h {
        assert(!owned_index(s, first, i));
        assert(!s[i].is_bracket());
        lemma_replay_skips_unowned(s, first, last, i + 1, h, cur, stack, sw, sh, ppx);
    }
}

/// What the head of a traversal's emission says of the indices before it.
proof fn lemma_emitted_head(s: Seq<DisplayItem>, first: int, last: int, c: int)
    requires
        0 <= c,
        last <= s.len(),
        crate::traversal::emitted_indices(s, first, last, c).len() > 0,
    ensures
        ({
            let h = crate::traversal::emitted_indices(s, first, last, c)[0];
            &&& c <= h < last
            &&& owned_index(s, first, h)
            &&& forall|j: int| c <= j < h ==> !owned_index(s, first, j)
        }),
    decreases last - c,
{
    if c < last {
        if c >= first || s[c].is_bracket() {
        } else {
            lemma_emitted_head(s, first, last, c + 1);
        }
    }
}

/// An empty emission means nothing owned remains.
proof fn lemma_emitted_empty(s: Seq<DisplayItem>, first: int, last: int, c: int)
    requires
        0 <= c,
        last <= s.len(),
        crate::traversal::emitted_indices(s, first, last, c).len() == 0,
    ensures
        forall|j: int| c <= j < last ==> !owned_index(s, first, j),
    decreases last - c,
{
    if c < last {
        assert(!(c >= first || s[c].is_bracket()));
        lemma_emitted_empty(s, first, last, c + 1);
    }
}

/// A found pop scan really lands on the matching pop marker.
proof fn lemma_matching_pop_found(
    s: Seq<DisplayItem>,
    id: crate::ids::StackingContextId,
    from: int,
)
    requires
        0 <= from,
        crate::traversal::matching_pop_index(s, id, from) < s.len(),
    ensures
        crate::traversal::is_pop_of(
            s[crate::traversal::matching_pop_index(s, id, from)],
            id,
        ),
    decreases s.len() - from,
{
    if from < s.len() && !crate::traversal::is_pop_of(s[from], id) {
        lemma_matching_pop_found(s, id, from + 1);
    }
}

/// Skips the rest of a subtree: advances past the matching pop marker (or
/// to wherever the scan ended when the pop lies outside the slice).
fn skip_subtree<'a>(
    traversal: &mut DisplayListTraversal<'a>,
    id: crate::ids::StackingContextId,
)
    requires
        old(traversal).wf(),
    ensures
        final(traversal).wf(),
        final(traversal).display_list == old(traversal).display_list,
        final(traversal).first_item_index == old(traversal).first_item_index,
        final(traversal).last_item_index == old(traversal).last_item_index,
        final(traversal).next_item_index == skip_past_spec(
            old(traversal).display_list.list@,
            id,
            old(traversal).next_item_index as int,
            old(traversal).last_item_index as int,
        ),
        final(traversal).next_item_index >= old(traversal).next_item_index,
{
    let ghost s = traversal.display_list.list@;
    let ghost pre = traversal.next_item_index as int;
    let ghost last = traversal.last_item_index as int;
    traversal.skip_to_end_of_stacking_context(id);
    proof {
        crate::traversal::lemma_matching_pop_range(s, id, pre);
        let m = crate::traversal::matching_pop_index(s, id, pre);
        if m < last {
            lemma_matching_pop_found(s, id, pre);
            assert(s[m].is_bracket());
            assert(crate::traversal::emitted_indices(
                s,
                traversal.first_item_index as int,
                last,
                m,
            ) == seq![m] + crate::traversal::emitted_indices(
                s,
                traversal.first_item_index as int,
                last,
                m + 1,
            ));
        }
    }
    let _ = traversal.next();
}

/// The drain's working state: the current level and the suspended ones.
struct DrainState {
    transform: Matrix4D,
    subpixel: Point2D,
    tile: Option<Rect>,
    transient: Option<ClippingRegion>,
    frames: Vec<PaintFrame>,
}

spec fn ds_cur(d: DrainState) -> ReplayState {
    ReplayState {
        transform: d.transform,
        subpixel: d.subpixel,
        tile: d.tile,
        transient: transient_view(d.transient),
    }
}

spec fn ds_frames(d: DrainState) -> Seq<ReplayFrame> {
    frames_view(d.frames@)
}

/// Everything the drain keeps in range: the current and every saved level.
spec fn ds_wf(d: DrainState) -> bool {
    &&& d.transform.wf()
    &&& MIN_AU <= d.subpixel.x <= MAX_AU
    &&& MIN_AU <= d.subpixel.y <= MAX_AU
    &&& d.tile is Some ==> d.tile->0.wf()
    &&& forall|k: int|
        0 <= k < d.frames@.len() ==> (#[trigger] d.frames@[k]).transform.wf() && MIN_AU
            <= d.frames@[k].subpixel.x <= MAX_AU && MIN_AU <= d.frames@[k].subpixel.y <= MAX_AU
            && (d.frames@[k].tile is Some ==> d.frames@[k].tile->0.wf())
}

/// One saved replay level at the executable level.
struct PaintFrame {
    transform: Matrix4D,
    subpixel: Point2D,
    tile: Option<Rect>,
    transient: Option<ClippingRegion>,
    filters: Vec<Filter>,
    blend: MixBlendMode,
}

spec fn frame_view(f: PaintFrame) -> ReplayFrame {
    ReplayFrame {
        saved: ReplayState {
            transform: f.transform,
            subpixel: f.subpixel,
            tile: f.tile,
            transient: transient_view(f.transient),
        },
        filters: f.filters@,
        blend: f.blend,
    }
}

spec fn frames_view(v: Seq<PaintFrame>) -> Seq<ReplayFrame> {
    v.map_values(|f: PaintFrame| frame_view(f))
}

impl DisplayList {
    /// Every item is paintable by this backend.
    pub open spec fn paintable_all(self) -> bool {
        list_paintable(self.list@)
    }

    /// Replays the slice `[start, end]` of the list (with its enclosing
    /// brackets) into the backend: the calls recorded are exactly the
    /// [`replay`] of the slice under the given transform.
    pub fn draw_into_context(
        &self,
        paint_context: &mut PaintContext,
        transform: &Matrix4D,
        stacking_context_id: crate::ids::StackingContextId,
        start: usize,
        end: usize,
    )
        requires
            old(paint_context).wf(),
            transform.wf(),
            self.items_wf(),
            self.paintable_all(),
            start <= end,
            end < self.list@.len(),
        ensures
            final(paint_context).screen_width == old(paint_context).screen_width,
            final(paint_context).screen_height == old(paint_context).screen_height,
            final(paint_context).pixels_per_px == old(paint_context).pixels_per_px,
            ops_view(final(paint_context).ops@) == ops_view(old(paint_context).ops@) + replay(
                self.list@,
                start as int,
                end + 1,
                crate::traversal::enclosing_push_start(
                    self.list@,
                    stacking_context_id,
                    start as int,
                ),
                ReplayState {
                    transform: *transform,
                    subpixel: Point2D { x: 0, y: 0 },
                    tile: None,
                    transient: None,
                },
                Seq::empty(),
                old(paint_context).screen_width as int,
                old(paint_context).screen_height as int,
                old(paint_context).pixels_per_px as int,
            ).0,
    {
        let mut traversal = DisplayListTraversal::new_partial(
            self,
            stacking_context_id,
            start,
            end,
        );
        let mut transient: Option<ClippingRegion> = None;
        self.draw_with_state(
            &mut traversal,
            paint_context,
            transform,
            &Point2D { x: 0, y: 0 },
            None,
            &mut transient,
        );
    }

    /// Replays one item at the given index under the given transform.
    pub fn draw_item_at_index_into_context(
        &self,
        paint_context: &mut PaintContext,
        transform: &Matrix4D,
        index: usize,
    )
        requires
            index < self.list@.len(),
            self.items_wf(),
            self.paintable_all(),
        ensures
            ops_view(final(paint_context).ops@) == ops_view(old(paint_context).ops@) + seq![
                OpV::SetTransform(*transform),
            ] + item_paint_ops(self.list@[index as int], None) + seq![OpV::RestoreTransform],
            final(paint_context).screen_width == old(paint_context).screen_width,
            final(paint_context).screen_height == old(paint_context).screen_height,
            final(paint_context).pixels_per_px == old(paint_context).pixels_per_px,
    {
        let ghost ops0 = paint_context.ops@;
        paint_context.ops.push(PaintOp::SetTransform(*transform));
        proof {
            assert(ops_view(paint_context.ops@) =~= ops_view(ops0) + seq![
                OpV::SetTransform(*transform),
            ]);
            assert(paintable(self.list@[index as int]));
        }
        let mut transient: Option<ClippingRegion> = None;
        let item = &self.list[index];
        item.draw_into_context(paint_context, &mut transient);
        let ghost ops2 = paint_context.ops@;
        paint_context.ops.push(PaintOp::RestoreTransform);
        proof {
            assert(ops_view(paint_context.ops@) =~= ops_view(ops2) + seq![OpV::RestoreTransform]);
            assert(ops_view(paint_context.ops@) =~= ops_view(ops0) + seq![
                OpV::SetTransform(*transform),
            ] + item_paint_ops(self.list@[index as int], None) + seq![OpV::RestoreTransform]);
        }
    }

    /// Drains the traversal: exactly the [`replay`] of its remaining slice
    /// is recorded, the cursor ends where the replay says, and the
    /// transient clip handed back is the outermost level's.
    fn draw_with_state<'a>(
        &self,
        traversal: &mut DisplayListTraversal<'a>,
        paint_context: &mut PaintContext,
        transform: &Matrix4D,
        subpixel_offset: &Point2D,
        tile_rect: Option<Rect>,
        transient_clip: &mut Option<ClippingRegion>,
    )
        requires
            old(traversal).wf(),
            old(traversal).display_list == self,
            old(paint_context).wf(),
            transform.wf(),
            MIN_AU <= subpixel_offset.x <= MAX_AU,
            MIN_AU <= subpixel_offset.y <= MAX_AU,
            tile_rect is Some ==> tile_rect->0.wf(),
            self.items_wf(),
            self.paintable_all(),
        ensures
            final(traversal).wf(),
            final(traversal).display_list == self,
            final(traversal).first_item_index == old(traversal).first_item_index,
            final(traversal).last_item_index == old(traversal).last_item_index,
            final(paint_context).screen_width == old(paint_context).screen_width,
            final(paint_context).screen_height == old(paint_context).screen_height,
            final(paint_context).pixels_per_px == old(paint_context).pixels_per_px,
            ({
                let r = replay(
                    self.list@,
                    old(traversal).first_item_index as int,
                    old(traversal).last_item_index as int,
                    old(traversal).next_item_index as int,
                    ReplayState {
                        transform: *transform,
                        subpixel: *subpixel_offset,
                        tile: tile_rect,
                        transient: transient_view(*old(transient_clip)),
                    },
                    Seq::empty(),
                    old(paint_context).screen_width as int,
                    old(paint_context).screen_height as int,
                    old(paint_context).pixels_per_px as int,
                );
                &&& ops_view(final(paint_context).ops@) == ops_view(old(paint_context).ops@)
                    + r.0
                &&& final(traversal).next_item_index == r.1
                &&& transient_view(*final(transient_clip)) == r.2.transient
            }),
    {
        let ghost s = self.list@;
        let ghost first = old(traversal).first_item_index as int;
        let ghost last = old(traversal).last_item_index as int;
        let ghost sw = paint_context.screen_width as int;
        let ghost sh = paint_context.screen_height as int;
        let ghost ppx = paint_context.pixels_per_px as int;
        let ghost ops0 = paint_context.ops@;
        let cur_transient: Option<ClippingRegion> = match transient_clip {
            Some(c) => Some(c.duplicate()),
            None => None,
        };
        let mut st = DrainState {
            transform: *transform,
            subpixel: *subpixel_offset,
            tile: tile_rect,
            transient: cur_transient,
            frames: Vec::new(),
        };
        let ghost expected = replay(
            s,
            first,
            last,
            old(traversal).next_item_index as int,
            ds_cur(st),
            ds_frames(st),
            sw,
            sh,
            ppx,
        );
        proof {
            assert(ds_frames(st) =~= Seq::<ReplayFrame>::empty());
            assert(ds_cur(st) == ReplayState {
                transform: *transform,
                subpixel: *subpixel_offset,
                tile: tile_rect,
                transient: transient_view(*old(transient_clip)),
            });
        }
        loop
            invariant
                traversal.wf(),
                traversal.display_list == self,
                traversal.first_item_index as int == first,
                traversal.last_item_index as int == last,
                first == old(traversal).first_item_index as int,
                last == old(traversal).last_item_index as int,
                s == self.list@,
                self.items_wf(),
                self.paintable_all(),
                ds_wf(st),
                paint_context.wf(),
                paint_context.screen_width as int == sw,
                paint_context.screen_height as int == sh,
                paint_context.pixels_per_px as int == ppx,
                sw == old(paint_context).screen_width as int,
                sh == old(paint_context).screen_height as int,
                ppx == old(paint_context).pixels_per_px as int,
                ops0 == old(paint_context).ops@,
                expected == replay(
                    s,
                    first,
                    last,
                    old(traversal).next_item_index as int,
                    ReplayState {
                        transform: *transform,
                        subpixel: *subpixel_offset,
                        tile: tile_rect,
                        transient: transient_view(*old(transient_clip)),
                    },
                    Seq::empty(),
                    sw,
                    sh,
                    ppx,
                ),
                ops_view(paint_context.ops@).len() >= ops_view(ops0).len(),
                ops_view(paint_context.ops@).subrange(0, ops_view(ops0).len() as int)
                    == ops_view(ops0),
                ({
                    let r = replay(s, first, last, traversal.next_item_index as int, ds_cur(st),
                        ds_frames(st), sw, sh, ppx);
                    &&& expected.0 == ops_view(paint_context.ops@).skip(
                        ops_view(ops0).len() as int,
                    ) + r.0
                    &&& expected.1 == r.1
                    &&& expected.2 == r.2
                }),
            decreases remaining(*traversal),
        {
            let ghost pre_ops = paint_context.ops@;
            let done = self.drain_step(traversal, paint_context, &mut st);
            proof {
                assert(ops_view(paint_context.ops@).subrange(0, ops_view(ops0).len() as int)
                    =~= ops_view(ops0));
                assert(ops_view(paint_context.ops@).skip(ops_view(ops0).len() as int)
                    =~= ops_view(pre_ops).skip(ops_view(ops0).len() as int) + ops_view(
                    paint_context.ops@,
                ).skip(ops_view(pre_ops).len() as int));
            }
            if done {
                let DrainState { transient, .. } = st;
                *transient_clip = transient;
                proof {
                    assert(ops_view(ops0) + ops_view(paint_context.ops@).skip(
                        ops_view(ops0).len() as int,
                    ) =~= ops_view(paint_context.ops@));
                }
                return ;
            }
        }
    }

    /// One step of the drain: consumes the next owed index (or finishes
    /// the drain) and performs exactly what [`replay`] says for it.
    #[verifier::rlimit(100)]
    fn drain_step<'a>(
        &self,
        traversal: &mut DisplayListTraversal<'a>,
        paint_context: &mut PaintContext,
        st: &mut DrainState,
    ) -> (done: bool)
        requires
            old(traversal).wf(),
            old(traversal).display_list == self,
            old(paint_context).wf(),
            ds_wf(*old(st)),
            self.items_wf(),
            self.paintable_all(),
        ensures
            final(traversal).wf(),
            final(traversal).display_list == self,
            final(traversal).first_item_index == old(traversal).first_item_index,
            final(traversal).last_item_index == old(traversal).last_item_index,
            final(paint_context).screen_width == old(paint_context).screen_width,
            final(paint_context).screen_height == old(paint_context).screen_height,
            final(paint_context).pixels_per_px == old(paint_context).pixels_per_px,
            ops_view(final(paint_context).ops@).len() >= ops_view(old(paint_context).ops@).len(),
            ops_view(final(paint_context).ops@).subrange(
                0,
                ops_view(old(paint_context).ops@).len() as int,
            ) == ops_view(old(paint_context).ops@),
            ds_wf(*final(st)),
            ({
                let pre = replay(
                    self.list@,
                    old(traversal).first_item_index as int,
                    old(traversal).last_item_index as int,
                    old(traversal).next_item_index as int,
                    ds_cur(*old(st)),
                    ds_frames(*old(st)),
                    old(paint_context).screen_width as int,
                    old(paint_context).screen_height as int,
                    old(paint_context).pixels_per_px as int,
                );
                if done {
                    &&& ops_view(final(paint_context).ops@) == ops_view(
                        old(paint_context).ops@,
                    ) + pre.0
                    &&& final(traversal).next_item_index == pre.1
                    &&& transient_view(final(st).transient) == pre.2.transient
                    &&& ds_frames(*final(st)).len() == 0
                } else {
                    let post = replay(
                        self.list@,
                        old(traversal).first_item_index as int,
                        old(traversal).last_item_index as int,
                        final(traversal).next_item_index as int,
                        ds_cur(*final(st)),
                        ds_frames(*final(st)),
                        old(paint_context).screen_width as int,
                        old(paint_context).screen_height as int,
                        old(paint_context).pixels_per_px as int,
                    );
                    &&& pre.0 == ops_view(final(paint_context).ops@).skip(
                        ops_view(old(paint_context).ops@).len() as int,
                    ) + post.0
                    &&& pre.1 == post.1
                    &&& pre.2 == post.2
                    &&& remaining(*final(traversal)) < remaining(*old(traversal))
                }
            }),
    {
        let ghost s = self.list@;
        let ghost first = old(traversal).first_item_index as int;
        let ghost last = old(traversal).last_item_index as int;
        let ghost sw = paint_context.screen_width as int;
        let ghost sh = paint_context.screen_height as int;
        let ghost ppx = paint_context.pixels_per_px as int;
        let ghost ops0 = paint_context.ops@;
        let ghost pre_next = traversal.next_item_index as int;
        let ghost pre_state = ds_cur(*st);
        let ghost pre_frames = ds_frames(*st);
        let item = match traversal.next() {
            Some(item) => item,
            None => {
                proof {
                    lemma_emitted_empty(s, first, last, pre_next);
                    if pre_next <= last {
                        lemma_replay_skips_unowned(s, first, last, pre_next, last, pre_state,
                            pre_frames, sw, sh, ppx);
                    }
                }
                // The traversal is exhausted: close every open level.
                while st.frames.len() > 0
                    invariant
                        paint_context.screen_width as int == sw,
                        paint_context.screen_height as int == sh,
                        paint_context.pixels_per_px as int == ppx,
                        sw == old(paint_context).screen_width as int,
                        sh == old(paint_context).screen_height as int,
                        ppx == old(paint_context).pixels_per_px as int,
                        ops0 == old(paint_context).ops@,
                        ds_wf(*st),
                        ops_view(ops0) + replay(s, first, last, pre_next, pre_state, pre_frames,
                            sw, sh, ppx).0 =~= ops_view(paint_context.ops@) + unwind_ops(
                            ds_frames(*st),
                        ),
                        replay(s, first, last, pre_next, pre_state, pre_frames, sw, sh, ppx).2
                            == bottom_state(ds_cur(*st), ds_frames(*st)),
                        ops_view(paint_context.ops@).len() >= ops_view(ops0).len(),
                        ops_view(paint_context.ops@).subrange(0, ops_view(ops0).len() as int)
                            == ops_view(ops0),
                    decreases st.frames.len(),
                {
                    let ghost fv = ds_frames(*st);
                    let f = st.frames.remove(st.frames.len() - 1);
                    proof {
                        assert(ds_frames(*st) =~= fv.drop_last());
                        assert(frame_view(f) == fv.last());
                    }
                    paint_context.ops.push(PaintOp::RemoveTransientClip);
                    paint_context.ops.push(PaintOp::PopClip);
                    paint_context.ops.push(PaintOp::RestoreTransform);
                    let ghost opsb = paint_context.ops@;
                    paint_context.ops.push(PaintOp::DrawTemporaryDrawTarget(f.filters, f.blend));
                    st.transform = f.transform;
                    st.subpixel = f.subpixel;
                    st.tile = f.tile;
                    st.transient = f.transient;
                    proof {
                        assert(ops_view(paint_context.ops@) =~= ops_view(opsb) + seq![
                            OpV::DrawTemporaryDrawTarget(frame_view(f).filters, f.blend),
                        ]);
                        assert(unwind_ops(fv) =~= exit_ops(fv.last()) + unwind_ops(
                            fv.drop_last(),
                        ));
                        assert(ops_view(paint_context.ops@).subrange(
                            0,
                            ops_view(ops0).len() as int,
                        ) =~= ops_view(ops0));
                        if fv.drop_last().len() > 0 {
                            assert(fv.drop_last()[0] == fv[0]);
                        }
                    }
                }
                proof {
                    assert(unwind_ops(ds_frames(*st)) == Seq::<OpV>::empty());
                    assert(ops_view(ops0) + replay(s, first, last, pre_next, pre_state,
                        pre_frames, sw, sh, ppx).0 =~= ops_view(paint_context.ops@) + Seq::<
                        OpV,
                    >::empty());
                    assert(ops_view(paint_context.ops@) + Seq::<OpV>::empty() =~= ops_view(
                        paint_context.ops@,
                    ));
                }
                return true;
            },
        };
        let ghost here = traversal.next_item_index - 1;
        proof {
            lemma_emitted_head(s, first, last, pre_next);
            assert(here == crate::traversal::emitted_indices(s, first, last, pre_next)[0]);
            lemma_replay_skips_unowned(s, first, last, pre_next, here, pre_state, pre_frames,
                sw, sh, ppx);
            assert(*item == s[here]);
            assert(s[here].wf());
            assert(paintable(s[here]));
        }
        match item {
            DisplayItem::PushStackingContext(push_item) => {
                let context = &push_item.stacking_context;
                if !context.intersects_rect_in_parent_context(st.tile) {
                    skip_subtree(traversal, context.id);
                } else {
                    match self.draw_stacking_context(
                        traversal,
                        context,
                        paint_context,
                        &st.transform,
                        &st.subpixel,
                    ) {
                        Some(entered) => {
                            let (new_transform, new_subpixel, new_tile) = entered;
                            let saved_transient: Option<ClippingRegion> = match &st.transient {
                                Some(c) => Some(c.duplicate()),
                                None => None,
                            };
                            st.frames.push(
                                PaintFrame {
                                    transform: st.transform,
                                    subpixel: st.subpixel,
                                    tile: st.tile,
                                    transient: saved_transient,
                                    filters: copy_filters(&context.filters),
                                    blend: context.blend_mode,
                                },
                            );
                            st.transform = new_transform;
                            st.subpixel = new_subpixel;
                            st.tile = Some(new_tile);
                            st.transient = None;
                            proof {
                                assert(frame_view(st.frames@.last()).saved.transient
                                    == pre_state.transient);
                                assert(ds_frames(*st) =~= pre_frames.push(
                                    frame_view(st.frames@.last()),
                                ));
                            }
                        },
                        None => {},
                    }
                }
            },
            DisplayItem::PopStackingContext(_) => {
                if st.frames.len() == 0 {
                    proof {
                        assert(ds_frames(*st) =~= Seq::<ReplayFrame>::empty());
                        assert(ops_view(paint_context.ops@) =~= ops_view(ops0) + Seq::<
                            OpV,
                        >::empty());
                    }
                    return true;
                }
                let ghost fv = ds_frames(*st);
                let f = st.frames.remove(st.frames.len() - 1);
                proof {
                    assert(ds_frames(*st) =~= fv.drop_last());
                    assert(frame_view(f) == fv.last());
                }
                paint_context.ops.push(PaintOp::RemoveTransientClip);
                paint_context.ops.push(PaintOp::PopClip);
                paint_context.ops.push(PaintOp::RestoreTransform);
                let ghost opsb = paint_context.ops@;
                paint_context.ops.push(PaintOp::DrawTemporaryDrawTarget(f.filters, f.blend));
                st.transform = f.transform;
                st.subpixel = f.subpixel;
                st.tile = f.tile;
                st.transient = f.transient;
                proof {
                    assert(ops_view(paint_context.ops@) =~= ops_view(opsb) + seq![
                        OpV::DrawTemporaryDrawTarget(frame_view(f).filters, f.blend),
                    ]);
                }
            },
            _ => {
                if item.intersects_rect_in_parent_context(st.tile) {
                    item.draw_into_context(paint_context, &mut st.transient);
                }
            },
        }
        proof {
            assert(ops_view(paint_context.ops@).subrange(0, ops_view(ops0).len() as int)
                =~= ops_view(ops0));
            assert(ops_view(paint_context.ops@).skip(ops_view(ops0).len() as int)
                =~= ops_view(paint_context.ops@).subrange(
                ops_view(ops0).len() as int,
                ops_view(paint_context.ops@).len() as int,
            ));
        }
        false
    }

    /// Enters one Real stacking context: requests the temporary draw
    /// target, composes the transform (snapping the origin to device
    /// pixels and carrying the sub-pixel remainder only under pure
    /// translations), and either hands back the entered state together
    /// with the back-transformed tile, or — when the context's own or the
    /// composed transform cannot be inverted — skips the whole subtree,
    /// leaving the cursor past its matching pop marker. A context whose
    /// own transform is singular is skipped without a single backend call.
    fn draw_stacking_context<'a>(
        &self,
        traversal: &mut DisplayListTraversal<'a>,
        stacking_context: &StackingContext,
        paint_context: &mut PaintContext,
        transform: &Matrix4D,
        subpixel_offset: &Point2D,
    ) -> (entered: Option<(Matrix4D, Point2D, Rect)>)
        requires
            old(traversal).wf(),
            old(traversal).display_list == self,
            old(paint_context).wf(),
            transform.wf(),
            stacking_context.wf(),
            MIN_AU <= subpixel_offset.x <= MAX_AU,
            MIN_AU <= subpixel_offset.y <= MAX_AU,
        ensures
            final(traversal).wf(),
            final(traversal).display_list == self,
            final(traversal).first_item_index == old(traversal).first_item_index,
            final(traversal).last_item_index == old(traversal).last_item_index,
            final(paint_context).screen_width == old(paint_context).screen_width,
            final(paint_context).screen_height == old(paint_context).screen_height,
            final(paint_context).pixels_per_px == old(paint_context).pixels_per_px,
            ({
                let e = enter_context_spec(
                    *stacking_context,
                    *transform,
                    *subpixel_offset,
                    old(paint_context).screen_width as int,
                    old(paint_context).screen_height as int,
                    old(paint_context).pixels_per_px as int,
                );
                if !stacking_context.transform.invertible_2d() {
                    &&& final(paint_context).ops@ == old(paint_context).ops@
                    &&& final(traversal).next_item_index == skip_past_spec(
                        self.list@,
                        stacking_context.id,
                        old(traversal).next_item_index as int,
                        old(traversal).last_item_index as int,
                    )
                    &&& entered is None
                } else {
                    match e.2 {
                        None => {
                            &&& ops_view(final(paint_context).ops@) == ops_view(
                                old(paint_context).ops@,
                            ) + seq![
                                OpV::GetTemporaryDrawTarget(
                                    stacking_context.filters@,
                                    stacking_context.blend_mode,
                                ),
                            ]
                            &&& final(traversal).next_item_index == skip_past_spec(
                                self.list@,
                                stacking_context.id,
                                old(traversal).next_item_index as int,
                                old(traversal).last_item_index as int,
                            )
                            &&& entered is None
                        },
                        Some(tile) => {
                            &&& ops_view(final(paint_context).ops@) == ops_view(
                                old(paint_context).ops@,
                            ) + seq![
                                OpV::GetTemporaryDrawTarget(
                                    stacking_context.filters@,
                                    stacking_context.blend_mode,
                                ),
                                OpV::SetTransform(e.0),
                                OpV::PushClip(stacking_context.overflow),
                            ]
                            &&& final(traversal).next_item_index == old(
                                traversal,
                            ).next_item_index
                            &&& entered == Some((e.0, e.1, tile))
                            &&& e.0.wf()
                            &&& tile.wf()
                        },
                    }
                }
            }),
    {
        let ghost s = self.list@;
        let ghost last = old(traversal).last_item_index as int;
        if !stacking_context.transform.is_invertible_2d() {
            // A non-invertible transform means the context and its whole
            // subtree are not displayed; not even a target is requested.
            skip_subtree(traversal, stacking_context.id);
            return None;
        }
        let ghost ops0 = paint_context.ops@;
        let filters_for_target = copy_filters(&stacking_context.filters);
        paint_context.ops.push(
            PaintOp::GetTemporaryDrawTarget(filters_for_target, stacking_context.blend_mode),
        );
        proof {
            assert(ops_view(paint_context.ops@) =~= ops_view(ops0) + seq![
                OpV::GetTemporaryDrawTarget(
                    stacking_context.filters@,
                    stacking_context.blend_mode,
                ),
            ]);
        }
        let ppx = paint_context.pixels_per_px;
        let ghost ghost_e = enter_context_spec(
            *stacking_context,
            *transform,
            *subpixel_offset,
            paint_context.screen_width as int,
            paint_context.screen_height as int,
            ppx as int,
        );
        let (new_transform, new_subpixel) = match stacking_context.layer_info {
            Some(_) => (*transform, *subpixel_offset),
            None => {
                let ox = stacking_context.bounds.origin.x + subpixel_offset.x;
                let oy = stacking_context.bounds.origin.y + subpixel_offset.y;
                let sx = snap_to_device_pixel(ox, ppx);
                let sy = snap_to_device_pixel(oy, ppx);
                let composed = transform.pre_translated(sx, sy).pre_mul(
                    &stacking_context.transform,
                );
                if composed.is_identity_or_simple_translation() {
                    let fx: i64 = (ox as i64) - (sx as i64);
                    let fy: i64 = (oy as i64) - (sy as i64);
                    (composed, Point2D { x: paint_clamp_au(fx), y: paint_clamp_au(fy) })
                } else {
                    (composed, Point2D { x: 0, y: 0 })
                }
            },
        };
        proof {
            assert(new_transform == ghost_e.0);
            assert(new_subpixel == ghost_e.1);
        }
        let tile = match transformed_tile_rect(
            paint_context.screen_width,
            paint_context.screen_height,
            &new_transform,
        ) {
            Some(tile) => tile,
            None => {
                // The composed transform cannot be inverted: the subtree
                // is not displayed.
                skip_subtree(traversal, stacking_context.id);
                proof {
                    assert(Option::<Rect>::None == ghost_e.2);
                }
                return None;
            },
        };
        proof {
            assert(tile_rect_spec(
                paint_context.screen_width as int,
                paint_context.screen_height as int,
            ) == Rect {
                origin: Point2D { x: 0, y: 0 },
                size: Size2D {
                    width: (paint_context.screen_width * 60) as i32,
                    height: (paint_context.screen_height * 60) as i32,
                },
            });
            assert(Some(tile) == ghost_e.2);
        }
        paint_context.ops.push(PaintOp::SetTransform(new_transform));
        paint_context.ops.push(PaintOp::PushClip(stacking_context.overflow));
        proof {
            assert(ops_view(paint_context.ops@) =~= ops_view(ops0) + seq![
                OpV::GetTemporaryDrawTarget(
                    stacking_context.filters@,
                    stacking_context.blend_mode,
                ),
                OpV::SetTransform(new_transform),
                OpV::PushClip(stacking_context.overflow),
            ]);
        }
        Some((new_transform, new_subpixel, tile))
    }
}

/// What a traversal has left, as the drain's measure.
pub open spec fn remaining(t: DisplayListTraversal<'_>) -> int {
    if t.next_item_index <= t.last_item_index {
        t.last_item_index - t.next_item_index
    } else {
        0
    }
}

fn paint_clamp_au(v: i64) -> (r: Au)
    ensures
        r == crate::transform::clamp_au(v as int),
{
    if v < MIN_AU as i64 {
        MIN_AU
    } else if v > MAX_AU as i64 {
        MAX_AU
    } else {
        v as i32
    }
}

} // verus!
