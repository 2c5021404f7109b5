//! Stacking contexts: the tree nodes that group display items, carry
//! transforms, clips, filters and compositor-layer metadata, and define the
//! CSS paint order of their children.

use vstd::prelude::*;
use crate::geometry::{union_spec, Rect};
use crate::ids::{LayerId, PipelineId, ScrollPolicy, StackingContextId};
use crate::style::{Color, Filter, MixBlendMode};
use crate::transform::{product_spec, translation_spec, Matrix4D};

verus! {

/// The kind of a stacking context. Only `Real` contexts contribute
/// coordinate, clip and filter frames at paint time; the two pseudo kinds
/// exist solely to influence paint order.
#[derive(Clone, Copy, PartialEq, Eq, Structural, Debug)]
pub enum StackingContextType {
    Real,
    PseudoPositioned,
    PseudoFloat,
}

/// Compositor-layer metadata carried by a stacking context that becomes its
/// own layer. Created alongside the context and immutable thereafter.
#[derive(Clone, Copy, PartialEq, Eq, Structural, Debug)]
pub struct LayerInfo {
    /// The base id of this layer.
    pub layer_id: LayerId,
    /// How the compositor may scroll this layer.
    pub scroll_policy: ScrollPolicy,
    /// The subpage this layer represents, if any.
    pub subpage_pipeline_id: Option<PipelineId>,
    /// The id for a synthesized layer holding content that must paint above
    /// this one.
    pub next_layer_id: LayerId,
    /// The color shown where the layer holds no painted content.
    pub background_color: Color,
}

impl LayerInfo {
    /// Builds the metadata and derives the companion id, which is always
    /// distinct from the base id.
    pub fn new(
        id: LayerId,
        scroll_policy: ScrollPolicy,
        subpage_pipeline_id: Option<PipelineId>,
        background_color: Color,
    ) -> (r: LayerInfo)
        requires
            id.1 < u32::MAX,
        ensures
            r.layer_id == id,
            r.scroll_policy == scroll_policy,
            r.subpage_pipeline_id == subpage_pipeline_id,
            r.background_color == background_color,
            r.next_layer_id == LayerId(id.0, (id.1 + 1) as u32),
            r.next_layer_id != id,
    {
        LayerInfo {
            layer_id: id,
            scroll_policy,
            subpage_pipeline_id,
            next_layer_id: id.companion_layer_id(),
            background_color,
        }
    }
}

/// One CSS stacking context.
#[derive(Debug)]
pub struct StackingContext {
    /// Unique identity of this context.
    pub id: StackingContextId,
    /// The kind of context, used for collecting and sorting.
    pub context_type: StackingContextType,
    /// Position and size, in the parent context's space.
    pub bounds: Rect,
    /// The overflow rect, in this context's own space; grown on insertion to
    /// cover the transformed overflow of Real children.
    pub overflow: Rect,
    /// The CSS z-index.
    pub z_index: i32,
    /// Filters applied when compositing this context, including opacity.
    pub filters: Vec<Filter>,
    /// How this context blends with its backdrop.
    pub blend_mode: MixBlendMode,
    /// The transform applied to this context.
    pub transform: Matrix4D,
    /// The perspective applied to descendants.
    pub perspective: Matrix4D,
    /// Whether this context establishes a new 3d rendering context.
    pub establishes_3d_context: bool,
    /// Layer metadata, when this context gets its own compositor layer.
    pub layer_info: Option<LayerInfo>,
    /// The children, in insertion order until assembly sorts them.
    pub children: Vec<StackingContext>,
    /// When the context scrolls its overflow area, the id to look scroll
    /// offsets up under.
    pub overflow_scroll_id: Option<StackingContextId>,
}

impl PartialEq for StackingContext {
    /// Contexts are compared by identity alone.
    fn eq(&self, other: &StackingContext) -> bool {
        self.id == other.id
    }
}

impl vstd::std_specs::cmp::PartialEqSpecImpl for StackingContext {
    open spec fn obeys_eq_spec() -> bool {
        true
    }

    open spec fn eq_spec(&self, other: &StackingContext) -> bool {
        self.id == other.id
    }
}

/// The paint order of siblings: a non-zero z-index dominates, ascending;
/// among z-index zero, pseudo-float contexts come first; everything else
/// ties, and assembly keeps tied siblings in input order (the sort is
/// stable).
pub open spec fn paint_order_le(a: StackingContext, b: StackingContext) -> bool {
    if a.z_index != 0 || b.z_index != 0 {
        a.z_index <= b.z_index
    } else {
        !(a.context_type != StackingContextType::PseudoFloat && b.context_type
            == StackingContextType::PseudoFloat)
    }
}

impl StackingContext {
    /// Geometry and transforms in range, recursively.
    pub open spec fn wf(self) -> bool
        decreases self,
    {
        &&& self.bounds.wf()
        &&& self.overflow.wf()
        &&& self.transform.wf()
        &&& self.perspective.wf()
        &&& forall|i: int| #![trigger self.children@[i]]
            0 <= i < self.children@.len() ==> self.children@[i].wf()
    }

    /// Creates a stacking context with no children yet.
    pub fn new(
        id: StackingContextId,
        context_type: StackingContextType,
        bounds: &Rect,
        overflow: &Rect,
        z_index: i32,
        filters: Vec<Filter>,
        blend_mode: MixBlendMode,
        transform: Matrix4D,
        perspective: Matrix4D,
        establishes_3d_context: bool,
        layer_info: Option<LayerInfo>,
        scroll_id: Option<StackingContextId>,
    ) -> (r: StackingContext)
        ensures
            r.id == id,
            r.context_type == context_type,
            r.bounds == *bounds,
            r.overflow == *overflow,
            r.z_index == z_index,
            r.filters@ == filters@,
            r.blend_mode == blend_mode,
            r.transform == transform,
            r.perspective == perspective,
            r.establishes_3d_context == establishes_3d_context,
            r.layer_info == layer_info,
            r.children@.len() == 0,
            r.overflow_scroll_id == scroll_id,
    {
        StackingContext {
            id,
            context_type,
            bounds: *bounds,
            overflow: *overflow,
            z_index,
            filters,
            blend_mode,
            transform,
            perspective,
            establishes_3d_context,
            layer_info,
            children: Vec::new(),
            overflow_scroll_id: scroll_id,
        }
    }

    /// The overflow rect carried into the parent's space: the overflow
    /// mapped through this context's transform followed by the translation
    /// to its position. Perspective is intentionally ignored here.
    pub open spec fn overflow_rect_in_parent_space_spec(self) -> Rect {
        product_spec(
            self.transform,
            translation_spec(self.bounds.origin.x as int, self.bounds.origin.y as int),
        ).transform_rect_spec(self.overflow)
    }

    pub fn overflow_rect_in_parent_space(&self) -> (r: Rect)
        requires
            self.bounds.wf(),
            self.overflow.wf(),
            self.transform.wf(),
        ensures
            r == self.overflow_rect_in_parent_space_spec(),
            r.wf(),
    {
        let t = Matrix4D::create_translation(self.bounds.origin.x, self.bounds.origin.y);
        let m = t.pre_mul(&self.transform);
        m.transform_rect(&self.overflow)
    }

    /// Whether any of this context might fall inside the rectangle (`None`
    /// stands for an unbounded rectangle). Pseudo contexts have no
    /// authoritative geometry and always pass.
    pub open spec fn intersects_rect_in_parent_context_spec(self, rect: Option<Rect>) -> bool {
        if self.context_type != StackingContextType::Real {
            true
        } else {
            match rect {
                Option::None => true,
                Option::Some(r) => self.overflow_rect_in_parent_space_spec().intersects_spec(r),
            }
        }
    }

    pub fn intersects_rect_in_parent_context(&self, rect: Option<Rect>) -> (b: bool)
        requires
            self.bounds.wf(),
            self.overflow.wf(),
            self.transform.wf(),
            rect is Some ==> rect->Some_0.wf(),
        ensures
            b == self.intersects_rect_in_parent_context_spec(rect),
    {
        if !(self.context_type == StackingContextType::Real) {
            return true;
        }
        let r = match rect {
            Some(r) => r,
            None => { return true },
        };
        self.overflow_rect_in_parent_space().intersects(&r)
    }

    /// The children in their current order.
    pub fn children(&self) -> (r: &Vec<StackingContext>)
        ensures
            r == &self.children,
    {
        &self.children
    }

    /// A mutable handle on the child at `index`.
    pub fn child_at_mut(&mut self, index: usize) -> (r: &mut StackingContext)
        requires
            index < old(self).children@.len(),
        ensures
            *r == old(self).children@[index as int],
            final(self).children@ == old(self).children@.update(index as int, *final(r)),
            final(self).id == old(self).id,
            final(self).context_type == old(self).context_type,
            final(self).bounds == old(self).bounds,
            final(self).overflow == old(self).overflow,
            final(self).z_index == old(self).z_index,
            final(self).filters == old(self).filters,
            final(self).blend_mode == old(self).blend_mode,
            final(self).transform == old(self).transform,
            final(self).perspective == old(self).perspective,
            final(self).layer_info == old(self).layer_info,
            final(self).overflow_scroll_id == old(self).overflow_scroll_id,
    {
        &mut self.children[index]
    }

    /// Appends a child, after first growing the child's own overflow to
    /// cover the transformed overflow of its Real children.
    pub fn add_child(&mut self, child: StackingContext)
        requires
            old(self).wf(),
            child.wf(),
        ensures
            final(self).children@.len() == old(self).children@.len() + 1,
            forall|i: int|
                0 <= i < old(self).children@.len() ==> final(self).children@[i] == old(
                    self,
                ).children@[i],
            final(self).children@.last() == grown_child_spec(child),
            final(self).id == old(self).id,
            final(self).context_type == old(self).context_type,
            final(self).bounds == old(self).bounds,
            final(self).overflow == old(self).overflow,
            final(self).z_index == old(self).z_index,
            final(self).filters == old(self).filters,
            final(self).blend_mode == old(self).blend_mode,
            final(self).transform == old(self).transform,
            final(self).perspective == old(self).perspective,
            final(self).layer_info == old(self).layer_info,
            final(self).overflow_scroll_id == old(self).overflow_scroll_id,
            final(self).wf(),
            law_overflow_holds(grown_child_spec(child)),
    {
        let mut child = child;
        child.update_overflow_for_all_children();
        self.children.push(child);
    }

    /// Grows `self.overflow` by the union of the transformed overflow of
    /// every Real child (only when this context is itself Real).
    fn update_overflow_for_all_children(&mut self)
        requires
            old(self).wf(),
        ensures
            *final(self) == grown_child_spec(*old(self)),
            final(self).wf(),
            law_overflow_holds(*final(self)),
    {
        let ghost orig = *self;
        let n = self.children.len();
        let mut i: usize = 0;
        while i < n
            invariant
                0 <= i <= n,
                orig.wf(),
                n == orig.children@.len(),
                *self == (StackingContext { overflow: self.overflow, ..orig }),
                self.overflow == grown_overflow_spec(orig, i as int),
                self.overflow.wf(),
                forall|j: int|
                    0 <= j < i && orig.context_type == StackingContextType::Real
                        && orig.children@[j].context_type == StackingContextType::Real
                        ==> covers(
                        self.overflow,
                        #[trigger] orig.children@[j].overflow_rect_in_parent_space_spec(),
                    ),
            decreases n - i,
        {
            if self.context_type == StackingContextType::Real && self.children[i].context_type
                == StackingContextType::Real {
                proof {
                    assert(orig.children@[i as int].wf());
                }
                let overflow = self.children[i].overflow_rect_in_parent_space();
                let grown = self.overflow.union(&overflow);
                proof {
                    lemma_union_preserves_covers(self.overflow, overflow, orig, i as int);
                }
                self.overflow = grown;
            }
            i += 1;
        }
    }
}

/// A child as it stands after attachment: its overflow grown over all of
/// its Real children.
pub open spec fn grown_child_spec(child: StackingContext) -> StackingContext {
    StackingContext {
        overflow: grown_overflow_spec(child, child.children@.len() as int),
        ..child
    }
}

/// The overflow after folding in the first `i` children.
pub open spec fn grown_overflow_spec(ctx: StackingContext, i: int) -> Rect
    decreases i,
{
    if i <= 0 {
        ctx.overflow
    } else if ctx.context_type == StackingContextType::Real && ctx.children@[i
        - 1].context_type == StackingContextType::Real {
        union_spec(
            grown_overflow_spec(ctx, i - 1),
            ctx.children@[i - 1].overflow_rect_in_parent_space_spec(),
        )
    } else {
        grown_overflow_spec(ctx, i - 1)
    }
}

/// `a` covers `b`: every point of `b` lies in `a` (an empty `b` is covered
/// trivially).
pub open spec fn covers(a: Rect, b: Rect) -> bool {
    b.size.width == 0 || b.size.height == 0 || (a.origin.x <= b.origin.x && a.origin.y
        <= b.origin.y && b.right() <= a.right() && b.bottom() <= a.bottom())
}

/// The tree invariant on overflow: a Real context's overflow covers the
/// transformed overflow of each of its Real children.
pub open spec fn law_overflow_holds(ctx: StackingContext) -> bool {
    forall|i: int|
        0 <= i < ctx.children@.len() && ctx.context_type == StackingContextType::Real
            && ctx.children@[i].context_type == StackingContextType::Real ==> covers(
            ctx.overflow,
            #[trigger] ctx.children@[i].overflow_rect_in_parent_space_spec(),
        )
}

proof fn lemma_union_preserves_covers(acc: Rect, extra: Rect, orig: StackingContext, i: int)
    requires
        acc.wf(),
        extra.wf(),
        forall|j: int|
            0 <= j < i && orig.context_type == StackingContextType::Real
                && orig.children@[j].context_type == StackingContextType::Real ==> covers(
                acc,
                #[trigger] orig.children@[j].overflow_rect_in_parent_space_spec(),
            ),
    ensures
        covers(union_spec(acc, extra), extra),
        forall|j: int|
            0 <= j < i && orig.context_type == StackingContextType::Real
                && orig.children@[j].context_type == StackingContextType::Real ==> covers(
                union_spec(acc, extra),
                #[trigger] orig.children@[j].overflow_rect_in_parent_space_spec(),
            ),
{
    assert(covers(union_spec(acc, extra), extra));
    assert forall|j: int|
        0 <= j < i && orig.context_type == StackingContextType::Real
            && orig.children@[j].context_type == StackingContextType::Real implies covers(
        union_spec(acc, extra),
        #[trigger] orig.children@[j].overflow_rect_in_parent_space_spec(),
    ) by {
        assert(covers(acc, orig.children@[j].overflow_rect_in_parent_space_spec()));
    }
}

} // verus!
