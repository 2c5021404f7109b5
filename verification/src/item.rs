//! Display items: the retained paint commands. Each variant carries a
//! shared [`BaseDisplayItem`] (bounds, clip, metadata, ordering keys) plus
//! its own payload; two marker variants bracket stacking contexts in the
//! flat list.

use vstd::prelude::*;
use crate::clip::{BorderRadii, ClippingRegion};
use crate::geometry::{Au, Point2D, Rect, SideOffsets2D, Size2D, MAX_AU};
use crate::ids::{
    ImageDataHandle, ImageKey, OpaqueNode, PipelineId, StackingContextId, TextRunHandle,
    WebGLContextId,
};
use crate::stacking::StackingContext;
use crate::style::{BorderStyle, Color, Cursor, GradientStop, PixelFormat};

verus! {

/// The Appendix E bucket an item belongs to; the paint order of buckets is
/// the declaration order here.
#[derive(Clone, Copy, PartialEq, Eq, Structural, Debug)]
pub enum DisplayListSection {
    BackgroundAndBorders,
    BlockBackgroundsAndBorders,
    Content,
    Outlines,
}

impl DisplayListSection {
    /// Position of this section in the paint order, 0 first.
    pub open spec fn rank_spec(self) -> int {
        match self {
            DisplayListSection::BackgroundAndBorders => 0,
            DisplayListSection::BlockBackgroundsAndBorders => 1,
            DisplayListSection::Content => 2,
            DisplayListSection::Outlines => 3,
        }
    }

    pub fn rank(self) -> (r: u8)
        ensures
            r == self.rank_spec(),
    {
        match self {
            DisplayListSection::BackgroundAndBorders => 0,
            DisplayListSection::BlockBackgroundsAndBorders => 1,
            DisplayListSection::Content => 2,
            DisplayListSection::Outlines => 3,
        }
    }
}

/// How the text of a run is oriented.
#[derive(Clone, Copy, PartialEq, Eq, Structural, Debug)]
pub enum TextOrientation {
    Upright,
    SidewaysLeft,
    SidewaysRight,
}

/// How a box shadow is clipped against the box it shadows.
#[derive(Clone, Copy, PartialEq, Eq, Structural, Debug)]
pub enum BoxShadowClipMode {
    /// No special clipping; used for shadowed text decorations.
    NoClipping,
    /// Clip out the area inside the box bounds (ordinary `box-shadow`).
    Outset,
    /// Clip out the area outside the box bounds (`inset` shadows).
    Inset,
}

/// Metadata attached to each display item for hit testing: the originating
/// DOM node and the cursor shown over it. A `pointing` of `None` means the
/// item is ineligible for pointer events.
#[derive(Clone, Copy, PartialEq, Eq, Structural, Debug)]
pub struct DisplayItemMetadata {
    pub node: OpaqueNode,
    pub pointing: Option<Cursor>,
}

/// Fields common to all display items.
#[derive(Clone, Debug)]
pub struct BaseDisplayItem {
    /// The boundaries of the item, in layer coordinates.
    pub bounds: Rect,
    /// Metadata attached to this item.
    pub metadata: DisplayItemMetadata,
    /// The region to clip to.
    pub clip: ClippingRegion,
    /// The section of the display list this item belongs to.
    pub section: DisplayListSection,
    /// The id of the stacking context this item belongs to.
    pub stacking_context_id: StackingContextId,
}

impl BaseDisplayItem {
    pub open spec fn wf(self) -> bool {
        self.bounds.wf() && self.clip.wf()
    }

    /// Builds the shared fields, canonicalizing a clip that visibly does
    /// not cut anything off the bounds to the all-encompassing clip, so
    /// that backends can skip it.
    pub fn new(
        bounds: &Rect,
        metadata: DisplayItemMetadata,
        clip: ClippingRegion,
        section: DisplayListSection,
        stacking_context_id: StackingContextId,
    ) -> (r: BaseDisplayItem)
        requires
            bounds.wf(),
            clip.wf(),
        ensures
            r.bounds == *bounds,
            r.metadata == metadata,
            r.section == section,
            r.stacking_context_id == stacking_context_id,
            clip.does_not_clip_rect_spec(*bounds) ==> r.clip.is_max_spec(),
            !clip.does_not_clip_rect_spec(*bounds) ==> r.clip.main == clip.main
                && r.clip.complex@ == clip.complex@,
            r.wf(),
    {
        BaseDisplayItem {
            bounds: *bounds,
            metadata,
            clip: if clip.does_not_clip_rect(bounds) {
                ClippingRegion::max()
            } else {
                clip
            },
            section,
            stacking_context_id,
        }
    }

    /// The base carried by the bracket markers: zero bounds, no pointer
    /// eligibility, the all-encompassing clip, content section, root id.
    pub fn empty() -> (r: BaseDisplayItem)
        ensures
            r.bounds == crate::geometry::zero_rect(),
            r.metadata == (DisplayItemMetadata { node: OpaqueNode(0), pointing: None }),
            r.clip.is_max_spec(),
            r.section == DisplayListSection::Content,
            r.stacking_context_id == crate::ids::root_stacking_context_id(),
            r.wf(),
    {
        BaseDisplayItem {
            bounds: Rect::zero(),
            metadata: DisplayItemMetadata { node: OpaqueNode(0), pointing: None },
            clip: ClippingRegion::max(),
            section: DisplayListSection::Content,
            stacking_context_id: StackingContextId::root(),
        }
    }
}

/// Paints a solid color.
#[derive(Clone, Debug)]
pub struct SolidColorDisplayItem {
    pub base: BaseDisplayItem,
    pub color: Color,
}

/// Paints a byte range of a shaped text run.
#[derive(Clone, Debug)]
pub struct TextDisplayItem {
    pub base: BaseDisplayItem,
    /// The shaped run, held by the font subsystem.
    pub text_run: TextRunHandle,
    /// First byte of the range within the run.
    pub range_begin: u32,
    /// Length in bytes of the range within the run.
    pub range_length: u32,
    pub text_color: Color,
    /// Start of the baseline of this text.
    pub baseline_origin: Point2D,
    pub orientation: TextOrientation,
    /// Blur radius; zero paints the text sharp.
    pub blur_radius: Au,
}

/// Sizing information about an image held by the renderer.
#[derive(Clone, Copy, PartialEq, Eq, Structural, Debug)]
pub struct WebRenderImageInfo {
    pub width: u32,
    pub height: u32,
    pub format: PixelFormat,
    pub key: Option<ImageKey>,
}

/// Tiles an image over the item bounds.
#[derive(Clone, Debug)]
pub struct ImageDisplayItem {
    pub base: BaseDisplayItem,
    pub webrender_image: WebRenderImageInfo,
    /// The decoded pixels, when painted in-process; brackets and renderer
    /// paths may carry none.
    pub image_data: Option<ImageDataHandle>,
    /// The size each copy of the image is stretched to; smaller than the
    /// bounds means the image repeats to tile them.
    pub stretch_size: Size2D,
    /// Extra space after each tile, when tiling.
    pub tile_spacing: Size2D,
    /// The CSS image-rendering algorithm used when stretching, expressed as
    /// its keyword index.
    pub image_rendering: ImageRendering,
}

/// The CSS image-rendering keyword.
#[derive(Clone, Copy, PartialEq, Eq, Structural, Debug)]
pub enum ImageRendering {
    Auto,
    CrispEdges,
    Pixelated,
}

/// Marks the area a WebGL context renders into; only meaningful to the
/// renderer-side backend.
#[derive(Clone, Debug)]
pub struct WebGLDisplayItem {
    pub base: BaseDisplayItem,
    pub context_id: WebGLContextId,
}

/// Marks the area of a subframe; painted by the compositor, not here.
#[derive(Clone, Debug)]
pub struct IframeDisplayItem {
    pub base: BaseDisplayItem,
    pub iframe: PipelineId,
}

/// Paints a linear gradient.
#[derive(Clone, Debug)]
pub struct GradientDisplayItem {
    pub base: BaseDisplayItem,
    pub start_point: Point2D,
    pub end_point: Point2D,
    pub stops: Vec<GradientStop>,
}

/// Paints a border around the item bounds.
#[derive(Clone, Debug)]
pub struct BorderDisplayItem {
    pub base: BaseDisplayItem,
    pub border_widths: SideOffsets2D,
    /// One color per edge: top, right, bottom, left.
    pub color_top: Color,
    pub color_right: Color,
    pub color_bottom: Color,
    pub color_left: Color,
    /// One style per edge: top, right, bottom, left.
    pub style_top: BorderStyle,
    pub style_right: BorderStyle,
    pub style_bottom: BorderStyle,
    pub style_left: BorderStyle,
    pub radius: BorderRadii,
}

/// Paints a line segment.
#[derive(Clone, Debug)]
pub struct LineDisplayItem {
    pub base: BaseDisplayItem,
    pub color: Color,
    pub style: BorderStyle,
}

/// Paints a box shadow.
#[derive(Clone, Debug)]
pub struct BoxShadowDisplayItem {
    pub base: BaseDisplayItem,
    /// The box the shadow is cast around.
    pub box_bounds: Rect,
    /// Offset of the shadow from the box.
    pub offset: Point2D,
    pub color: Color,
    pub blur_radius: Au,
    pub spread_radius: Au,
    /// Corner radius of the shadow.
    pub border_radius: Au,
    pub clip_mode: BoxShadowClipMode,
}

/// Opens a stacking context in the flat list.
#[derive(Debug)]
pub struct PushStackingContextItem {
    pub base: BaseDisplayItem,
    pub stacking_context: StackingContext,
}

/// Closes a stacking context in the flat list.
#[derive(Clone, Debug)]
pub struct PopStackingContextItem {
    pub base: BaseDisplayItem,
    pub stacking_context_id: StackingContextId,
}

/// One drawing command in the list.
#[derive(Debug)]
pub enum DisplayItem {
    SolidColor(Box<SolidColorDisplayItem>),
    Text(Box<TextDisplayItem>),
    Image(Box<ImageDisplayItem>),
    WebGL(Box<WebGLDisplayItem>),
    Border(Box<BorderDisplayItem>),
    Gradient(Box<GradientDisplayItem>),
    Line(Box<LineDisplayItem>),
    BoxShadow(Box<BoxShadowDisplayItem>),
    Iframe(Box<IframeDisplayItem>),
    PushStackingContext(Box<PushStackingContextItem>),
    PopStackingContext(Box<PopStackingContextItem>),
}

impl DisplayItem {
    /// The shared fields of any variant, as a specification.
    pub open spec fn base_spec(self) -> BaseDisplayItem {
        match self {
            DisplayItem::SolidColor(b) => b.base,
            DisplayItem::Text(b) => b.base,
            DisplayItem::Image(b) => b.base,
            DisplayItem::WebGL(b) => b.base,
            DisplayItem::Border(b) => b.base,
            DisplayItem::Gradient(b) => b.base,
            DisplayItem::Line(b) => b.base,
            DisplayItem::BoxShadow(b) => b.base,
            DisplayItem::Iframe(b) => b.base,
            DisplayItem::PushStackingContext(b) => b.base,
            DisplayItem::PopStackingContext(b) => b.base,
        }
    }

    pub open spec fn is_push(self) -> bool {
        self is PushStackingContext
    }

    pub open spec fn is_pop(self) -> bool {
        self is PopStackingContext
    }

    /// Bracket markers re-establish stacking context state; everything else
    /// paints.
    pub open spec fn is_bracket(self) -> bool {
        self.is_push() || self.is_pop()
    }

    /// Geometry of the item (and of an opened context) in range.
    pub open spec fn wf(self) -> bool {
        &&& self.base_spec().wf()
        &&& match self {
            DisplayItem::Border(b) => {
                &&& 0 <= b.border_widths.top <= MAX_AU
                &&& 0 <= b.border_widths.right <= MAX_AU
                &&& 0 <= b.border_widths.bottom <= MAX_AU
                &&& 0 <= b.border_widths.left <= MAX_AU
                &&& b.radius.wf()
            },
            DisplayItem::PushStackingContext(b) => b.stacking_context.wf(),
            _ => true,
        }
    }

    pub fn base(&self) -> (r: &BaseDisplayItem)
        ensures
            *r == self.base_spec(),
    {
        match self {
            DisplayItem::SolidColor(b) => &b.base,
            DisplayItem::Text(b) => &b.base,
            DisplayItem::Image(b) => &b.base,
            DisplayItem::WebGL(b) => &b.base,
            DisplayItem::Border(b) => &b.base,
            DisplayItem::Gradient(b) => &b.base,
            DisplayItem::Line(b) => &b.base,
            DisplayItem::BoxShadow(b) => &b.base,
            DisplayItem::Iframe(b) => &b.base,
            DisplayItem::PushStackingContext(b) => &b.base,
            DisplayItem::PopStackingContext(b) => &b.base,
        }
    }

    pub fn stacking_context_id(&self) -> (r: StackingContextId)
        ensures
            r == self.base_spec().stacking_context_id,
    {
        self.base().stacking_context_id
    }

    pub fn section(&self) -> (r: DisplayListSection)
        ensures
            r == self.base_spec().section,
    {
        self.base().section
    }

    pub fn bounds(&self) -> (r: Rect)
        ensures
            r == self.base_spec().bounds,
    {
        self.base().bounds
    }

    /// Whether the item might touch the rectangle (`None` stands for an
    /// unbounded rectangle): its bounds overlap it and its clip does not
    /// certainly exclude it.
    pub open spec fn intersects_rect_in_parent_context_spec(self, rect: Option<Rect>) -> bool {
        match rect {
            Option::None => true,
            Option::Some(r) => r.intersects_spec(self.base_spec().bounds)
                && self.base_spec().clip.might_intersect_rect_spec(r),
        }
    }

    pub fn intersects_rect_in_parent_context(&self, rect: Option<Rect>) -> (b: bool)
        requires
            self.wf(),
            rect is Some ==> rect->Some_0.wf(),
        ensures
            b == self.intersects_rect_in_parent_context_spec(rect),
    {
        let r = match rect {
            Some(r) => r,
            None => { return true },
        };
        if !r.intersects(&self.bounds()) {
            return false;
        }
        self.base().clip.might_intersect_rect(&r)
    }

    /// What a hit test of this single item at `point` yields: the metadata,
    /// unless the point is clipped out, outside the bounds, the item opted
    /// out of pointer events, the item is a box shadow (those never hit),
    /// or the point lies strictly inside a border's interior hole.
    pub open spec fn hit_test_spec(self, point: Point2D) -> Option<DisplayItemMetadata> {
        let base = self.base_spec();
        if !base.clip.might_intersect_point_spec(point) {
            None
        } else if !base.bounds.contains_spec(point) {
            None
        } else if base.metadata.pointing is None {
            None
        } else {
            match self {
                DisplayItem::Border(b) => {
                    if border_interior_contains(*b, point) {
                        None
                    } else {
                        Some(base.metadata)
                    }
                },
                DisplayItem::BoxShadow(_) => None,
                _ => Some(base.metadata),
            }
        }
    }

    pub fn hit_test(&self, point: Point2D) -> (r: Option<DisplayItemMetadata>)
        requires
            self.wf(),
        ensures
            r == self.hit_test_spec(point),
    {
        let base_item = self.base();
        if !base_item.clip.might_intersect_point(&point) {
            return None;
        }
        if !self.bounds().contains(&point) {
            return None;
        }
        if base_item.metadata.pointing.is_none() {
            return None;
        }
        match self {
            DisplayItem::Border(border) => {
                // A point inside the interior hole did not hit the border.
                let b = &border.base.bounds;
                let w = &border.border_widths;
                if b.origin.x + w.left <= point.x && point.x < b.origin.x + b.size.width - w.right
                    && b.origin.y + w.top <= point.y && point.y < b.origin.y + b.size.height
                    - w.bottom {
                    return None;
                }
            },
            DisplayItem::BoxShadow(_) => {
                return None;
            },
            _ => {},
        }
        Some(base_item.metadata)
    }
}

/// The point lies strictly inside the rectangle left when the border widths
/// are inset from the bounds.
pub open spec fn border_interior_contains(b: BorderDisplayItem, point: Point2D) -> bool {
    let r = b.base.bounds;
    let w = b.border_widths;
    &&& r.origin.x + w.left <= point.x
    &&& point.x < r.origin.x + r.size.width - w.right
    &&& r.origin.y + w.top <= point.y
    &&& point.y < r.origin.y + r.size.height - w.bottom
}

} // verus!
