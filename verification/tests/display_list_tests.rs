use display_list::clip::{BorderRadii, ClippingRegion};
use display_list::geometry::{max_rect, Point2D, Rect, SideOffsets2D, Size2D};
use display_list::hit_test::ScrollOffsetMap;
use display_list::ids::{LayerId, OpaqueNode, ScrollPolicy, StackingContextId};
use display_list::item::{
    BaseDisplayItem, BoxShadowClipMode, DisplayItem, DisplayItemMetadata, DisplayListSection,
    SolidColorDisplayItem, BoxShadowDisplayItem, BorderDisplayItem,
};
use display_list::list::DisplayList;
use display_list::paint::{PaintContext, PaintOp};
use display_list::stacking::{LayerInfo, StackingContext, StackingContextType};
use display_list::style::{BorderStyle, Color, Cursor, Filter, MixBlendMode};
use display_list::transform::{Matrix4D, SimpleMatrixDetection, FX_ONE};
use display_list::traversal::DisplayListTraversal;

fn rect(x: i32, y: i32, w: i32, h: i32) -> Rect {
    Rect { origin: Point2D { x, y }, size: Size2D { width: w, height: h } }
}

fn meta(node: u64) -> DisplayItemMetadata {
    DisplayItemMetadata { node: OpaqueNode(node), pointing: Some(Cursor::DefaultCursor) }
}

fn solid(node: u64, bounds: Rect, section: DisplayListSection, id: StackingContextId, alpha: u8)
    -> DisplayItem {
    DisplayItem::SolidColor(Box::new(SolidColorDisplayItem {
        base: BaseDisplayItem::new(&bounds, meta(node), ClippingRegion::max(), section, id),
        color: Color { r: 10, g: 20, b: 30, a: alpha },
    }))
}

fn context(
    id: u64,
    kind: StackingContextType,
    bounds: Rect,
    overflow: Rect,
    z_index: i32,
    transform: Matrix4D,
) -> StackingContext {
    StackingContext::new(
        StackingContextId(id),
        kind,
        &bounds,
        &overflow,
        z_index,
        Vec::<Filter>::new(),
        MixBlendMode::Normal,
        transform,
        Matrix4D::identity(),
        false,
        None,
        None,
    )
}

fn node_of(item: &DisplayItem) -> u64 {
    item.base().metadata.node.0
}

fn kinds(list: &DisplayList) -> Vec<String> {
    list.list
        .iter()
        .map(|it| match it {
            DisplayItem::PushStackingContext(p) => {
                format!("push{}", p.stacking_context.id.0)
            }
            DisplayItem::PopStackingContext(p) => format!("pop{}", p.stacking_context_id.0),
            other => format!("item{}", node_of(other)),
        })
        .collect()
}

fn zero_scale() -> Matrix4D {
    let mut m = Matrix4D::identity();
    m.m11 = 0;
    m.m22 = 0;
    m
}

#[test]
fn ordering_basics() {
    // Root with two Content items and one BackgroundAndBorders item:
    // backgrounds paint first, content keeps input order.
    let root = context(
        0,
        StackingContextType::Real,
        rect(0, 0, 6000, 6000),
        rect(0, 0, 6000, 6000),
        0,
        Matrix4D::identity(),
    );
    let a = solid(1, rect(0, 0, 100, 100), DisplayListSection::Content, StackingContextId(0), 255);
    let b = solid(2, rect(0, 0, 100, 100), DisplayListSection::Content, StackingContextId(0), 255);
    let c = solid(
        3,
        rect(0, 0, 100, 100),
        DisplayListSection::BackgroundAndBorders,
        StackingContextId(0),
        255,
    );
    let list = DisplayList::new(root, vec![a, b, c]);
    assert_eq!(kinds(&list), vec!["push0", "item3", "item1", "item2", "pop0"]);
}

#[test]
fn negative_z_index_child_paints_first() {
    let mut root = context(
        0,
        StackingContextType::Real,
        rect(0, 0, 6000, 6000),
        rect(0, 0, 6000, 6000),
        0,
        Matrix4D::identity(),
    );
    let x = context(
        7,
        StackingContextType::Real,
        rect(0, 0, 600, 600),
        rect(0, 0, 600, 600),
        -1,
        Matrix4D::identity(),
    );
    root.add_child(x);
    let a = solid(1, rect(0, 0, 100, 100), DisplayListSection::Content, StackingContextId(0), 255);
    let b = solid(2, rect(0, 0, 100, 100), DisplayListSection::Content, StackingContextId(7), 255);
    let list = DisplayList::new(root, vec![a, b]);
    assert_eq!(
        kinds(&list),
        vec!["push0", "push7", "item2", "pop7", "item1", "pop0"]
    );
}

#[test]
fn pseudo_float_child_between_blocks_and_content() {
    let mut root = context(
        0,
        StackingContextType::Real,
        rect(0, 0, 6000, 6000),
        rect(0, 0, 6000, 6000),
        0,
        Matrix4D::identity(),
    );
    let f = context(
        9,
        StackingContextType::PseudoFloat,
        rect(0, 0, 600, 600),
        rect(0, 0, 600, 600),
        0,
        Matrix4D::identity(),
    );
    root.add_child(f);
    let b = solid(
        1,
        rect(0, 0, 100, 100),
        DisplayListSection::BlockBackgroundsAndBorders,
        StackingContextId(0),
        255,
    );
    let g = solid(2, rect(0, 0, 100, 100), DisplayListSection::Content, StackingContextId(9), 255);
    let h = solid(3, rect(0, 0, 100, 100), DisplayListSection::Content, StackingContextId(0), 255);
    let list = DisplayList::new(root, vec![b, g, h]);
    // No brackets for the pseudo context: G slots between B and H.
    assert_eq!(kinds(&list), vec!["push0", "item1", "item2", "item3", "pop0"]);
}

#[test]
fn items_of_unknown_context_are_dropped() {
    let root = context(
        0,
        StackingContextType::Real,
        rect(0, 0, 6000, 6000),
        rect(0, 0, 6000, 6000),
        0,
        Matrix4D::identity(),
    );
    let a = solid(1, rect(0, 0, 100, 100), DisplayListSection::Content, StackingContextId(0), 255);
    let stray = solid(
        2,
        rect(0, 0, 100, 100),
        DisplayListSection::Content,
        StackingContextId(42),
        255,
    );
    let list = DisplayList::new(root, vec![a, stray]);
    assert_eq!(kinds(&list), vec!["push0", "item1", "pop0"]);
}

#[test]
fn equal_section_items_keep_input_order() {
    let root = context(
        0,
        StackingContextType::Real,
        rect(0, 0, 6000, 6000),
        rect(0, 0, 6000, 6000),
        0,
        Matrix4D::identity(),
    );
    let items: Vec<DisplayItem> = (1..=5)
        .map(|n| {
            solid(n, rect(0, 0, 10, 10), DisplayListSection::Outlines, StackingContextId(0), 255)
        })
        .collect();
    let list = DisplayList::new(root, items);
    assert_eq!(
        kinds(&list),
        vec!["push0", "item1", "item2", "item3", "item4", "item5", "pop0"]
    );
}

#[test]
fn clip_canonicalized_to_max_when_it_does_not_clip() {
    let bounds = rect(10, 10, 50, 50);
    let wide = ClippingRegion::from_rect(&rect(0, 0, 1000, 1000));
    let base = BaseDisplayItem::new(
        &bounds,
        meta(1),
        wide,
        DisplayListSection::Content,
        StackingContextId(0),
    );
    assert!(base.clip.is_max());

    let tight = ClippingRegion::from_rect(&rect(0, 0, 20, 20));
    let base2 = BaseDisplayItem::new(
        &bounds,
        meta(1),
        tight,
        DisplayListSection::Content,
        StackingContextId(0),
    );
    assert!(!base2.clip.is_max());
    assert_eq!(base2.clip.main, rect(0, 0, 20, 20));
}

#[test]
fn clipping_region_max_is_idempotent_under_max_rect() {
    let mut region = ClippingRegion::max();
    let m = max_rect();
    region.intersect_rect(&m);
    assert!(region.is_max());
}

#[test]
fn intersect_rect_with_disjoint_rect_empties_the_region() {
    let mut region = ClippingRegion::from_rect(&rect(0, 0, 10, 10));
    region.intersect_rect(&rect(100, 100, 10, 10));
    assert!(!region.might_be_nonempty());
}

#[test]
fn rounded_rect_enclosure_replaces_and_discards() {
    let mut region = ClippingRegion::max();
    // A large rounded region, then a smaller one it completely encloses:
    // the large one is replaced.
    region.intersect_with_rounded_rect(&rect(0, 0, 1000, 1000), &BorderRadii::all_same(10));
    region.intersect_with_rounded_rect(&rect(400, 400, 100, 100), &BorderRadii::all_same(10));
    assert_eq!(region.complex.len(), 1);
    assert_eq!(region.complex[0].rect, rect(400, 400, 100, 100));
    // A new region enclosing the stored one is discarded.
    region.intersect_with_rounded_rect(&rect(0, 0, 1000, 1000), &BorderRadii::all_same(10));
    assert_eq!(region.complex.len(), 1);
    assert_eq!(region.complex[0].rect, rect(400, 400, 100, 100));
    // A disjoint region is appended.
    region.intersect_with_rounded_rect(&rect(2000, 2000, 50, 50), &BorderRadii::all_same(5));
    assert_eq!(region.complex.len(), 2);
}

#[test]
fn border_radii_square_iff_all_zero() {
    assert!(BorderRadii::default().is_square());
    let mut radii = BorderRadii::default();
    radii.top_left.width = 1;
    assert!(!radii.is_square());
    assert!(!BorderRadii::all_same(3).is_square());
    assert!(BorderRadii::all_same(0).is_square());
}

#[test]
fn layer_info_companion_id_is_distinct() {
    let info = LayerInfo::new(
        LayerId(11, 0),
        ScrollPolicy::Scrollable,
        None,
        Color { r: 0, g: 0, b: 0, a: 0 },
    );
    assert_ne!(info.next_layer_id, info.layer_id);
    assert_eq!(info.next_layer_id.0, 11);
}

#[test]
fn identity_matrix_is_simple_translation() {
    let mut m = Matrix4D::identity();
    assert!(m.is_identity_or_simple_translation());
    m.m41 = 100 * FX_ONE;
    assert!(m.is_identity_or_simple_translation());
    m.m12 = 5;
    assert!(!m.is_identity_or_simple_translation());
}

#[test]
fn overflow_grows_to_cover_real_children() {
    let mut parent = context(
        0,
        StackingContextType::Real,
        rect(0, 0, 100, 100),
        rect(0, 0, 100, 100),
        0,
        Matrix4D::identity(),
    );
    let mut child = context(
        1,
        StackingContextType::Real,
        rect(0, 0, 100, 100),
        rect(0, 0, 100, 100),
        0,
        Matrix4D::identity(),
    );
    let grandchild = context(
        2,
        StackingContextType::Real,
        rect(500, 500, 100, 100),
        rect(0, 0, 100, 100),
        0,
        Matrix4D::identity(),
    );
    child.add_child(grandchild);
    parent.add_child(child);
    let attached = &parent.children[0];
    // The child's overflow covers the grandchild's rect, translated to
    // (500, 500).
    assert_eq!(attached.overflow, rect(0, 0, 600, 600));
}

fn draw_call_count(ops: &[PaintOp]) -> usize {
    ops.iter()
        .filter(|op| {
            matches!(
                op,
                PaintOp::DrawSolidColor(..)
                    | PaintOp::DrawText(..)
                    | PaintOp::DrawImage(..)
                    | PaintOp::DrawBorder(..)
                    | PaintOp::DrawGradient(..)
                    | PaintOp::DrawLine(..)
                    | PaintOp::DrawBoxShadow(..)
            )
        })
        .count()
}

fn paint(list: &DisplayList, width: i32, height: i32) -> Vec<PaintOp> {
    let mut pc = PaintContext {
        ops: Vec::new(),
        screen_width: width,
        screen_height: height,
        pixels_per_px: FX_ONE,
    };
    let end = list.list.len() - 1;
    list.draw_into_context(&mut pc, &Matrix4D::identity(), StackingContextId(0), 0, end);
    pc.ops
}

#[test]
fn culling_skips_offscreen_subtree() {
    // Tile of 10x10 app units (smaller than one pixel); the child's
    // overflow sits far outside at (6000, 6000).
    let mut root = context(
        0,
        StackingContextType::Real,
        rect(0, 0, 600, 600),
        rect(0, 0, 600, 600),
        0,
        Matrix4D::identity(),
    );
    let child = context(
        1,
        StackingContextType::Real,
        rect(6000, 6000, 600, 600),
        rect(0, 0, 600, 600),
        0,
        Matrix4D::identity(),
    );
    root.add_child(child);
    let inside = solid(
        5,
        rect(0, 0, 100, 100),
        DisplayListSection::Content,
        StackingContextId(1),
        255,
    );
    let list = DisplayList::new(root, vec![inside]);
    // One device pixel of tile: 60x60 app units after conversion, but the
    // culling rect for the child subtree is its overflow at (6000, 6000).
    let ops = paint(&list, 1, 1);
    assert_eq!(draw_call_count(&ops), 0);

    // A tile large enough to reach the child paints it.
    let ops_large = paint(&list, 200, 200);
    assert_eq!(draw_call_count(&ops_large), 1);
}

#[test]
fn non_invertible_transform_paints_nothing_in_subtree() {
    let mut root = context(
        0,
        StackingContextType::Real,
        rect(0, 0, 6000, 6000),
        rect(0, 0, 6000, 6000),
        0,
        Matrix4D::identity(),
    );
    let child = context(
        1,
        StackingContextType::Real,
        rect(0, 0, 600, 600),
        rect(0, 0, 600, 600),
        0,
        zero_scale(),
    );
    root.add_child(child);
    let inside = solid(
        5,
        rect(0, 0, 100, 100),
        DisplayListSection::Content,
        StackingContextId(1),
        255,
    );
    let outside = solid(
        6,
        rect(0, 0, 100, 100),
        DisplayListSection::Content,
        StackingContextId(0),
        255,
    );
    let list = DisplayList::new(root, vec![inside, outside]);
    let ops = paint(&list, 200, 200);
    // Only the root-level item paints.
    assert_eq!(draw_call_count(&ops), 1);
}

#[test]
fn non_invertible_transform_hits_nothing_in_subtree() {
    let mut root = context(
        0,
        StackingContextType::Real,
        rect(0, 0, 6000, 6000),
        rect(0, 0, 6000, 6000),
        0,
        Matrix4D::identity(),
    );
    let child = context(
        1,
        StackingContextType::Real,
        rect(0, 0, 600, 600),
        rect(0, 0, 600, 600),
        0,
        zero_scale(),
    );
    root.add_child(child);
    let inside = solid(
        5,
        rect(0, 0, 600, 600),
        DisplayListSection::Content,
        StackingContextId(1),
        255,
    );
    let list = DisplayList::new(root, vec![inside]);
    let point = Point2D { x: 50, y: 50 };
    let hits = list.hit_test(&point, &point, &ScrollOffsetMap::new());
    assert_eq!(hits.len(), 0);
}

#[test]
fn solid_item_hit_in_paint_order() {
    let root = context(
        0,
        StackingContextType::Real,
        rect(0, 0, 6000, 6000),
        rect(0, 0, 6000, 6000),
        0,
        Matrix4D::identity(),
    );
    let under = solid(
        1,
        rect(0, 0, 100, 100),
        DisplayListSection::BackgroundAndBorders,
        StackingContextId(0),
        255,
    );
    let over = solid(2, rect(0, 0, 100, 100), DisplayListSection::Content, StackingContextId(0), 255);
    let list = DisplayList::new(root, vec![over, under]);
    let point = Point2D { x: 50, y: 50 };
    let hits = list.hit_test(&point, &point, &ScrollOffsetMap::new());
    // Bottommost first; callers take the last as topmost.
    assert_eq!(hits.len(), 2);
    assert_eq!(hits[0].node.0, 1);
    assert_eq!(hits[1].node.0, 2);
    // A point outside everything hits nothing.
    let away = Point2D { x: 5000, y: 5000 };
    assert_eq!(list.hit_test(&away, &away, &ScrollOffsetMap::new()).len(), 0);
}

fn border_item(pointing: Option<Cursor>) -> DisplayItem {
    DisplayItem::Border(Box::new(BorderDisplayItem {
        base: BaseDisplayItem::new(
            &rect(0, 0, 100, 100),
            DisplayItemMetadata { node: OpaqueNode(8), pointing },
            ClippingRegion::max(),
            DisplayListSection::Content,
            StackingContextId(0),
        ),
        border_widths: SideOffsets2D { top: 10, right: 10, bottom: 10, left: 10 },
        color_top: Color { r: 0, g: 0, b: 0, a: 255 },
        color_right: Color { r: 0, g: 0, b: 0, a: 255 },
        color_bottom: Color { r: 0, g: 0, b: 0, a: 255 },
        color_left: Color { r: 0, g: 0, b: 0, a: 255 },
        style_top: BorderStyle::Solid,
        style_right: BorderStyle::Solid,
        style_bottom: BorderStyle::Solid,
        style_left: BorderStyle::Solid,
        radius: BorderRadii::default(),
    }))
}

#[test]
fn border_hit_only_on_the_border_band() {
    let item = border_item(Some(Cursor::PointerCursor));
    // Strictly inside the interior hole: no hit.
    assert!(item.hit_test(Point2D { x: 50, y: 50 }).is_none());
    // On the left band: hit.
    assert!(item.hit_test(Point2D { x: 5, y: 50 }).is_some());
    // In the corner band: hit.
    assert!(item.hit_test(Point2D { x: 5, y: 5 }).is_some());
    // Outside the bounds entirely: no hit.
    assert!(item.hit_test(Point2D { x: 200, y: 50 }).is_none());
}

#[test]
fn pointer_events_none_never_hits() {
    let item = border_item(None);
    assert!(item.hit_test(Point2D { x: 5, y: 5 }).is_none());
}

#[test]
fn box_shadow_never_hits() {
    let item = DisplayItem::BoxShadow(Box::new(BoxShadowDisplayItem {
        base: BaseDisplayItem::new(
            &rect(0, 0, 100, 100),
            meta(9),
            ClippingRegion::max(),
            DisplayListSection::Content,
            StackingContextId(0),
        ),
        box_bounds: rect(0, 0, 100, 100),
        offset: Point2D { x: 0, y: 0 },
        color: Color { r: 0, g: 0, b: 0, a: 255 },
        blur_radius: 5,
        spread_radius: 5,
        border_radius: 0,
        clip_mode: BoxShadowClipMode::Outset,
    }));
    assert!(item.hit_test(Point2D { x: 50, y: 50 }).is_none());
    assert!(item.hit_test(Point2D { x: 1, y: 1 }).is_none());
}

#[test]
fn transparent_solid_color_is_not_drawn() {
    let root = context(
        0,
        StackingContextType::Real,
        rect(0, 0, 6000, 6000),
        rect(0, 0, 6000, 6000),
        0,
        Matrix4D::identity(),
    );
    let invisible = solid(
        1,
        rect(0, 0, 100, 100),
        DisplayListSection::Content,
        StackingContextId(0),
        0,
    );
    let list = DisplayList::new(root, vec![invisible]);
    let ops = paint(&list, 200, 200);
    assert_eq!(draw_call_count(&ops), 0);
}

#[test]
fn partial_traversals_cover_the_full_list() {
    let mut root = context(
        0,
        StackingContextType::Real,
        rect(0, 0, 6000, 6000),
        rect(0, 0, 6000, 6000),
        0,
        Matrix4D::identity(),
    );
    let child = context(
        1,
        StackingContextType::Real,
        rect(0, 0, 600, 600),
        rect(0, 0, 600, 600),
        0,
        Matrix4D::identity(),
    );
    root.add_child(child);
    let items: Vec<DisplayItem> = vec![
        solid(1, rect(0, 0, 10, 10), DisplayListSection::Content, StackingContextId(0), 255),
        solid(2, rect(0, 0, 10, 10), DisplayListSection::Content, StackingContextId(1), 255),
        solid(3, rect(0, 0, 10, 10), DisplayListSection::Outlines, StackingContextId(0), 255),
    ];
    let list = DisplayList::new(root, items);
    let len = list.list.len();
    let k = 4;

    let collect = |t: &mut DisplayListTraversal| {
        let mut out: Vec<u64> = Vec::new();
        while let Some(item) = t.next() {
            if !matches!(
                item,
                DisplayItem::PushStackingContext(_) | DisplayItem::PopStackingContext(_)
            ) {
                out.push(node_of(item));
            }
        }
        out
    };

    let mut full = DisplayListTraversal::new(&list);
    let full_items = collect(&mut full);

    let mut first = DisplayListTraversal::new_partial(&list, StackingContextId(0), 0, k - 1);
    let mut second = DisplayListTraversal::new_partial(&list, StackingContextId(0), k, len - 1);
    let mut split_items = collect(&mut first);
    split_items.extend(collect(&mut second));

    assert_eq!(split_items, full_items);
}

#[test]
fn skip_to_end_lands_on_the_matching_pop() {
    let mut root = context(
        0,
        StackingContextType::Real,
        rect(0, 0, 6000, 6000),
        rect(0, 0, 6000, 6000),
        0,
        Matrix4D::identity(),
    );
    let child = context(
        1,
        StackingContextType::Real,
        rect(0, 0, 600, 600),
        rect(0, 0, 600, 600),
        0,
        Matrix4D::identity(),
    );
    root.add_child(child);
    let inside = solid(
        5,
        rect(0, 0, 10, 10),
        DisplayListSection::Content,
        StackingContextId(1),
        255,
    );
    let list = DisplayList::new(root, vec![inside]);
    // Layout: push0, push1, item5, pop1, pop0.
    let mut t = DisplayListTraversal::new(&list);
    let first = t.next().unwrap();
    assert!(matches!(first, DisplayItem::PushStackingContext(_)));
    t.skip_to_end_of_stacking_context(StackingContextId(1));
    let next = t.next().unwrap();
    match next {
        DisplayItem::PopStackingContext(p) => assert_eq!(p.stacking_context_id.0, 1),
        _ => panic!("expected the pop marker for the skipped context"),
    }
}

#[test]
fn scroll_offsets_shift_hit_testing() {
    let mut root = context(
        0,
        StackingContextType::Real,
        rect(0, 0, 6000, 6000),
        rect(0, 0, 6000, 6000),
        0,
        Matrix4D::identity(),
    );
    let child = context(
        1,
        StackingContextType::Real,
        rect(0, 0, 600, 600),
        rect(0, 0, 600, 600),
        0,
        Matrix4D::identity(),
    );
    root.add_child(child);
    let inside = solid(
        5,
        rect(0, 0, 100, 100),
        DisplayListSection::Content,
        StackingContextId(1),
        255,
    );
    let list = DisplayList::new(root, vec![inside]);
    let point = Point2D { x: 150, y: 150 };
    // Unscrolled, (150, 150) misses the 100x100 item.
    assert_eq!(list.hit_test(&point, &point, &ScrollOffsetMap::new()).len(), 0);
    // Scrolled down by 100, the same point lands inside it.
    let mut offsets = ScrollOffsetMap::new();
    offsets.insert(StackingContextId(1), Point2D { x: 100, y: 100 });
    let hits = list.hit_test(&point, &point, &offsets);
    assert_eq!(hits.len(), 1);
    assert_eq!(hits[0].node.0, 5);
}

#[test]
fn culled_subtree_does_not_end_the_parent_drain() {
    // A culled child is skipped whole; its siblings and the items after it
    // still paint.
    let mut root = context(
        0,
        StackingContextType::Real,
        rect(0, 0, 600, 600),
        rect(0, 0, 600, 600),
        0,
        Matrix4D::identity(),
    );
    let far_child = context(
        1,
        StackingContextType::Real,
        rect(6000, 6000, 600, 600),
        rect(0, 0, 600, 600),
        0,
        Matrix4D::identity(),
    );
    let near_child = context(
        2,
        StackingContextType::Real,
        rect(0, 0, 600, 600),
        rect(0, 0, 600, 600),
        0,
        Matrix4D::identity(),
    );
    root.add_child(far_child);
    root.add_child(near_child);
    let items = vec![
        solid(1, rect(0, 0, 100, 100), DisplayListSection::Content, StackingContextId(1), 255),
        solid(2, rect(0, 0, 100, 100), DisplayListSection::Content, StackingContextId(2), 255),
        solid(3, rect(0, 0, 100, 100), DisplayListSection::Outlines, StackingContextId(0), 255),
    ];
    let list = DisplayList::new(root, items);
    let ops = paint(&list, 5, 5);
    // The culled child's item is not drawn; the sibling's item and the
    // root's outline item after it are.
    assert_eq!(draw_call_count(&ops), 2);
}

#[test]
fn layer_info_companion_is_the_incremented_id() {
    let info = LayerInfo::new(
        LayerId(4, 7),
        ScrollPolicy::FixedPosition,
        None,
        Color { r: 0, g: 0, b: 0, a: 0 },
    );
    assert_eq!(info.next_layer_id, LayerId(4, 8));
}

#[test]
fn child_at_mut_edits_one_child_in_place() {
    let mut parent = context(
        0,
        StackingContextType::Real,
        rect(0, 0, 600, 600),
        rect(0, 0, 600, 600),
        0,
        Matrix4D::identity(),
    );
    let child = context(
        1,
        StackingContextType::Real,
        rect(0, 0, 60, 60),
        rect(0, 0, 60, 60),
        0,
        Matrix4D::identity(),
    );
    parent.add_child(child);
    parent.child_at_mut(0).z_index = 5;
    assert_eq!(parent.children()[0].z_index, 5);
    assert_eq!(parent.children()[0].id, StackingContextId(1));
}

#[test]
fn scroll_offset_insert_overwrites_for_lookup() {
    let mut offsets = display_list::hit_test::ScrollOffsetMap::new();
    offsets.insert(StackingContextId(3), Point2D { x: 10, y: 10 });
    offsets.insert(StackingContextId(3), Point2D { x: 99, y: 98 });
    assert_eq!(offsets.get(StackingContextId(3)), Some(Point2D { x: 99, y: 98 }));
    assert_eq!(offsets.get(StackingContextId(4)), None);
}

#[test]
fn traversal_next_ends_on_the_last_index() {
    let root = context(
        0,
        StackingContextType::Real,
        rect(0, 0, 600, 600),
        rect(0, 0, 600, 600),
        0,
        Matrix4D::identity(),
    );
    let a = solid(1, rect(0, 0, 10, 10), DisplayListSection::Content, StackingContextId(0), 255);
    let list = DisplayList::new(root, vec![a]);
    let mut t = DisplayListTraversal::new(&list);
    while t.next().is_some() {}
    assert_eq!(t.next_item_index, list.list.len());
}
