use display_list::clip::{BorderRadii, ClippingRegion};
use display_list::geometry::{Point2D, Rect, SideOffsets2D, Size2D};
use display_list::ids::{
    ImageDataHandle, OpaqueNode, PipelineId, StackingContextId, TextRunHandle,
};
use display_list::item::{
    BaseDisplayItem, BorderDisplayItem, DisplayItem, DisplayItemMetadata, DisplayListSection,
    GradientDisplayItem, IframeDisplayItem, ImageDisplayItem, ImageRendering, LineDisplayItem,
    SolidColorDisplayItem, TextDisplayItem, TextOrientation, WebRenderImageInfo,
};
use display_list::list::DisplayList;
use display_list::stacking::{StackingContext, StackingContextType};
use display_list::style::{BorderStyle, Color, Cursor, Filter, GradientStop, MixBlendMode};
use display_list::transform::Matrix4D;

fn rect(x: i32, y: i32, w: i32, h: i32) -> Rect {
    Rect { origin: Point2D { x, y }, size: Size2D { width: w, height: h } }
}

fn meta(node: u64) -> DisplayItemMetadata {
    DisplayItemMetadata { node: OpaqueNode(node), pointing: Some(Cursor::TextCursor) }
}

fn base(node: u64) -> BaseDisplayItem {
    let mut clip = ClippingRegion::from_rect(&rect(1, 2, 30, 40));
    clip.intersect_with_rounded_rect(&rect(2, 3, 10, 10), &BorderRadii::all_same(2));
    BaseDisplayItem::new(
        &rect(0, 0, 500, 500),
        meta(node),
        clip,
        DisplayListSection::Content,
        StackingContextId(3),
    )
}

fn rich_list() -> DisplayList {
    let mut root = StackingContext::new(
        StackingContextId(0),
        StackingContextType::Real,
        &rect(0, 0, 6000, 6000),
        &rect(0, 0, 6000, 6000),
        0,
        vec![Filter::Opacity(500), Filter::Blur(30)],
        MixBlendMode::Multiply,
        Matrix4D::identity(),
        Matrix4D::identity(),
        true,
        None,
        Some(StackingContextId(12)),
    );
    let child = StackingContext::new(
        StackingContextId(3),
        StackingContextType::Real,
        &rect(5, 6, 600, 600),
        &rect(0, 0, 600, 600),
        2,
        Vec::new(),
        MixBlendMode::Normal,
        Matrix4D::identity(),
        Matrix4D::identity(),
        false,
        None,
        None,
    );
    root.add_child(child);
    let items = vec![
        DisplayItem::SolidColor(Box::new(SolidColorDisplayItem {
            base: base(1),
            color: Color { r: 9, g: 8, b: 7, a: 6 },
        })),
        DisplayItem::Text(Box::new(TextDisplayItem {
            base: base(2),
            text_run: TextRunHandle(77),
            range_begin: 3,
            range_length: 9,
            text_color: Color { r: 1, g: 2, b: 3, a: 4 },
            baseline_origin: Point2D { x: 11, y: 22 },
            orientation: TextOrientation::SidewaysLeft,
            blur_radius: -5,
        })),
        DisplayItem::Image(Box::new(ImageDisplayItem {
            base: base(3),
            webrender_image: WebRenderImageInfo {
                width: 320,
                height: 200,
                format: display_list::style::PixelFormat::RGBA8,
                key: Some(display_list::ids::ImageKey(4, 5)),
            },
            image_data: Some(ImageDataHandle(123)),
            stretch_size: Size2D { width: 10, height: 20 },
            tile_spacing: Size2D { width: 1, height: 2 },
            image_rendering: ImageRendering::Pixelated,
        })),
        DisplayItem::Border(Box::new(BorderDisplayItem {
            base: base(4),
            border_widths: SideOffsets2D { top: 1, right: 2, bottom: 3, left: 4 },
            color_top: Color { r: 1, g: 0, b: 0, a: 255 },
            color_right: Color { r: 0, g: 1, b: 0, a: 255 },
            color_bottom: Color { r: 0, g: 0, b: 1, a: 255 },
            color_left: Color { r: 1, g: 1, b: 0, a: 255 },
            style_top: BorderStyle::Solid,
            style_right: BorderStyle::Dashed,
            style_bottom: BorderStyle::Dotted,
            style_left: BorderStyle::Groove,
            radius: BorderRadii::all_same(7),
        })),
        DisplayItem::Gradient(Box::new(GradientDisplayItem {
            base: base(5),
            start_point: Point2D { x: 0, y: 0 },
            end_point: Point2D { x: 100, y: 100 },
            stops: vec![
                GradientStop { offset: 0, color: Color { r: 0, g: 0, b: 0, a: 255 } },
                GradientStop { offset: 1000, color: Color { r: 255, g: 255, b: 255, a: 255 } },
            ],
        })),
        DisplayItem::Line(Box::new(LineDisplayItem {
            base: base(6),
            color: Color { r: 5, g: 5, b: 5, a: 255 },
            style: BorderStyle::Double,
        })),
        DisplayItem::Iframe(Box::new(IframeDisplayItem {
            base: base(7),
            iframe: PipelineId(8, 9),
        })),
    ];
    DisplayList::new(root, items)
}

#[test]
fn serialize_then_deserialize_round_trips() {
    let list = rich_list();
    let bytes = list.serialize();
    assert_eq!(bytes.len() % 8, 0);
    let decoded = DisplayList::deserialize(&bytes).expect("decoding an encoded list succeeds");
    assert_eq!(decoded.list.len(), list.list.len());
    // Re-encoding the decoded list gives back the identical bytes.
    let bytes2 = decoded.serialize();
    assert_eq!(bytes, bytes2);
    // Spot-check fields survive, including nested payloads.
    match (&list.list[3], &decoded.list[3]) {
        (DisplayItem::Text(a), DisplayItem::Text(b)) => {
            assert_eq!(a.text_run, b.text_run);
            assert_eq!(a.range_begin, b.range_begin);
            assert_eq!(a.range_length, b.range_length);
            assert_eq!(a.blur_radius, b.blur_radius);
            assert_eq!(a.baseline_origin, b.baseline_origin);
            assert_eq!(a.base.bounds, b.base.bounds);
            assert_eq!(a.base.clip.main, b.base.clip.main);
            assert_eq!(a.base.clip.complex.len(), b.base.clip.complex.len());
            assert_eq!(a.base.metadata, b.base.metadata);
        }
        other => panic!("expected text items, got {:?}", other),
    }
    match (&list.list[0], &decoded.list[0]) {
        (DisplayItem::PushStackingContext(a), DisplayItem::PushStackingContext(b)) => {
            assert_eq!(a.stacking_context.id, b.stacking_context.id);
            assert_eq!(a.stacking_context.bounds, b.stacking_context.bounds);
            assert_eq!(a.stacking_context.z_index, b.stacking_context.z_index);
            assert_eq!(a.stacking_context.filters, b.stacking_context.filters);
            assert_eq!(a.stacking_context.blend_mode, b.stacking_context.blend_mode);
            assert_eq!(a.stacking_context.transform, b.stacking_context.transform);
            assert_eq!(
                a.stacking_context.overflow_scroll_id,
                b.stacking_context.overflow_scroll_id
            );
        }
        other => panic!("expected push markers, got {:?}", other),
    }
}

#[test]
fn truncated_bytes_fail_to_deserialize() {
    let list = rich_list();
    let mut bytes = list.serialize();
    bytes.pop();
    assert!(DisplayList::deserialize(&bytes).is_none());
}

#[test]
fn trailing_bytes_fail_to_deserialize() {
    let list = rich_list();
    let mut bytes = list.serialize();
    for _ in 0..8 {
        bytes.push(0);
    }
    assert!(DisplayList::deserialize(&bytes).is_none());
}

#[test]
fn empty_list_round_trips() {
    let root = StackingContext::new(
        StackingContextId(0),
        StackingContextType::PseudoPositioned,
        &rect(0, 0, 10, 10),
        &rect(0, 0, 10, 10),
        0,
        Vec::new(),
        MixBlendMode::Normal,
        Matrix4D::identity(),
        Matrix4D::identity(),
        false,
        None,
        None,
    );
    let list = DisplayList::new(root, Vec::new());
    assert_eq!(list.list.len(), 0);
    let bytes = list.serialize();
    let decoded = DisplayList::deserialize(&bytes).expect("empty list decodes");
    assert_eq!(decoded.list.len(), 0);
}
