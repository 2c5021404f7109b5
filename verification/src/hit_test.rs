//! Hit testing: mapping a screen point to the metadata of every item whose
//! painted area covers it, in paint order (callers treat the last entry as
//! topmost). Entering a stacking context transforms the point into the
//! context's own space; a context whose transform cannot be inverted makes
//! its whole subtree unreachable, and a fixed-position context restarts
//! from the untransformed client point.

use vstd::prelude::*;
use crate::geometry::{Point2D, MAX_AU, MIN_AU};
use crate::ids::{root_stacking_context_id, ScrollPolicy, StackingContextId};
use crate::item::{DisplayItem, DisplayItemMetadata};
use crate::list::DisplayList;
use crate::stacking::StackingContext;
use crate::traversal::DisplayListTraversal;

verus! {

/// Scroll offsets by stacking context id, in app units; ids not present
/// count as unscrolled. Supplied by the compositor.
pub struct ScrollOffsetMap {
    /// The offsets, first entry per id authoritative.
    pub entries: Vec<(StackingContextId, Point2D)>,
}

/// The offset recorded for `id`, if any: the first matching entry.
pub open spec fn offset_of(
    entries: Seq<(StackingContextId, Point2D)>,
    id: StackingContextId,
) -> Option<Point2D>
    decreases entries.len(),
{
    if entries.len() == 0 {
        None
    } else if entries[0].0 == id {
        Some(entries[0].1)
    } else {
        offset_of(entries.drop_first(), id)
    }
}

impl ScrollOffsetMap {
    pub fn new() -> (r: ScrollOffsetMap)
        ensures
            r.entries@.len() == 0,
    {
        ScrollOffsetMap { entries: Vec::new() }
    }

    /// Records an offset for an id; the newest entry for an id is the one
    /// [`Self::get`] sees, so inserting again overwrites the visible value.
    pub fn insert(&mut self, id: StackingContextId, offset: Point2D)
        ensures
            final(self).entries@ == seq![(id, offset)] + old(self).entries@,
            offset_of(final(self).entries@, id) == Some(offset),
    {
        self.entries.insert(0, (id, offset));
        proof {
            assert(self.entries@ =~= seq![(id, offset)] + old(self).entries@);
            assert(self.entries@[0] == (id, offset));
        }
    }

    pub fn get(&self, id: StackingContextId) -> (r: Option<Point2D>)
        ensures
            r == offset_of(self.entries@, id),
    {
        let n = self.entries.len();
        proof {
            assert(self.entries@.skip(0) =~= self.entries@);
        }
        let mut i: usize = 0;
        while i < n
            invariant
                0 <= i <= n,
                n == self.entries@.len(),
                offset_of(self.entries@, id) == offset_of(self.entries@.skip(i as int), id),
            decreases n - i,
        {
            proof {
                assert(self.entries@.skip(i as int)[0] == self.entries@[i as int]);
                assert(self.entries@.skip(i as int).drop_first() =~= self.entries@.skip(
                    i as int + 1,
                ));
            }
            if self.entries[i].0 == id {
                return Some(self.entries[i].1);
            }
            i += 1;
        }
        proof {
            assert(self.entries@.skip(n as int) =~= Seq::<(StackingContextId, Point2D)>::empty());
        }
        None
    }
}

/// A stacking context pins its layer to the viewport.
pub open spec fn is_fixed_spec(sc: StackingContext) -> bool {
    match sc.layer_info {
        Some(info) => info.scroll_policy == ScrollPolicy::FixedPosition,
        None => false,
    }
}

/// The hit-test point inside a stacking context, given the point in the
/// parent's space (`None` when the parent is already unreachable). A fixed
/// context restarts from the client point; otherwise the parent point is
/// moved to the context's origin and taken through the inverse transform —
/// a non-invertible transform makes the subtree unreachable — and then,
/// off the root, the scroll offset is subtracted.
pub open spec fn enter_point_spec(
    sc: StackingContext,
    parent: Option<Point2D>,
    client_point: Point2D,
    offsets: Seq<(StackingContextId, Point2D)>,
) -> Option<Point2D> {
    match parent {
        None => None,
        Some(p) => {
            if is_fixed_spec(sc) {
                Some(client_point)
            } else {
                let shifted = Point2D {
                    x: (p.x - sc.bounds.origin.x) as i32,
                    y: (p.y - sc.bounds.origin.y) as i32,
                };
                match sc.transform.inverse_transform_point_spec(shifted) {
                    None => None,
                    Some(local) => {
                        if sc.id != root_stacking_context_id() {
                            match offset_of(offsets, sc.id) {
                                Some(off) => Some(
                                    Point2D {
                                        x: crate::transform::clamp_au(local.x - off.x) as i32,
                                        y: crate::transform::clamp_au(local.y - off.y) as i32,
                                    },
                                ),
                                None => Some(local),
                            }
                        } else {
                            Some(local)
                        }
                    },
                }
            }
        },
    }
}

/// Conditions under which entering a context cannot overflow: the parent
/// point and offsets stay inside twice the coordinate range.
pub open spec fn point_in_range(p: Point2D) -> bool {
    MIN_AU <= p.x <= MAX_AU && MIN_AU <= p.y <= MAX_AU
}

/// Everything the hit walk reads of the map is in coordinate range.
pub open spec fn offsets_in_range(entries: Seq<(StackingContextId, Point2D)>) -> bool {
    forall|i: int| 0 <= i < entries.len() ==> point_in_range((#[trigger] entries[i]).1)
}

/// What a hit test of `s[i..last)` collects, walking with a stack of
/// per-context points (`None` marks an unreachable level): push markers
/// push the entered point, pop markers drop a level and end the walk when
/// the stack empties, and an ordinary item at a reachable point appends
/// its metadata when the single-item test succeeds.
pub open spec fn hit_iter(
    s: Seq<DisplayItem>,
    i: int,
    last: int,
    stack: Seq<Option<Point2D>>,
    client_point: Point2D,
    offsets: Seq<(StackingContextId, Point2D)>,
) -> Seq<DisplayItemMetadata>
    decreases last - i,
{
    if i < 0 || i >= last || last > s.len() || stack.len() == 0 {
        Seq::empty()
    } else {
        match s[i] {
            DisplayItem::PushStackingContext(p) => hit_iter(
                s,
                i + 1,
                last,
                stack.push(
                    enter_point_spec(p.stacking_context, stack.last(), client_point, offsets),
                ),
                client_point,
                offsets,
            ),
            DisplayItem::PopStackingContext(_) => hit_iter(
                s,
                i + 1,
                last,
                stack.drop_last(),
                client_point,
                offsets,
            ),
            _ => (match stack.last() {
                Some(pt) => match s[i].hit_test_spec(pt) {
                    Some(m) => seq![m],
                    None => Seq::empty(),
                },
                None => Seq::empty(),
            }) + hit_iter(s, i + 1, last, stack, client_point, offsets),
        }
    }
}

/// Law: an unreachable walk collects nothing. Once every level of the
/// stack is unreachable — as after entering a stacking context whose
/// transform has no inverse, see [`enter_point_spec`] — no item of the
/// remaining walk can match, however deep the nesting goes.
pub proof fn law_unreachable_subtree_yields_no_hits(
    s: Seq<DisplayItem>,
    i: int,
    last: int,
    stack: Seq<Option<Point2D>>,
    client_point: Point2D,
    offsets: Seq<(StackingContextId, Point2D)>,
)
    requires
        forall|k: int| 0 <= k < stack.len() ==> (#[trigger] stack[k]) is None,
    ensures
        hit_iter(s, i, last, stack, client_point, offsets) == Seq::<DisplayItemMetadata>::empty(),
    decreases last - i,
{
    if !(i < 0 || i >= last || last > s.len() || stack.len() == 0) {
        match s[i] {
            DisplayItem::PushStackingContext(p) => {
                assert(stack.last() is None);
                let stack2 = stack.push(
                    enter_point_spec(p.stacking_context, stack.last(), client_point, offsets),
                );
                assert(forall|k: int| 0 <= k < stack2.len() ==> (#[trigger] stack2[k]) is None);
                law_unreachable_subtree_yields_no_hits(
                    s,
                    i + 1,
                    last,
                    stack2,
                    client_point,
                    offsets,
                );
            },
            DisplayItem::PopStackingContext(_) => {
                assert(forall|k: int|
                    0 <= k < stack.drop_last().len() ==> (#[trigger] stack.drop_last()[k])
                        is None);
                law_unreachable_subtree_yields_no_hits(
                    s,
                    i + 1,
                    last,
                    stack.drop_last(),
                    client_point,
                    offsets,
                );
            },
            _ => {
                assert(stack.last() is None);
                law_unreachable_subtree_yields_no_hits(s, i + 1, last, stack, client_point,
                    offsets);
            },
        }
    }
}

/// Computes the point for a context about to be entered.
fn enter_stacking_context(
    sc: &StackingContext,
    parent: Option<Point2D>,
    client_point: &Point2D,
    scroll_offsets: &ScrollOffsetMap,
) -> (r: Option<Point2D>)
    requires
        sc.bounds.wf(),
        sc.transform.wf(),
        parent is Some ==> point_in_range(parent->0),
        offsets_in_range(scroll_offsets.entries@),
        point_in_range(*client_point),
    ensures
        r == enter_point_spec(*sc, parent, *client_point, scroll_offsets.entries@),
        r is Some ==> point_in_range(r->0),
    {
        let p = match parent {
            Some(p) => p,
            None => { return None },
        };
        let is_fixed = match sc.layer_info {
            Some(info) => matches!(info.scroll_policy, ScrollPolicy::FixedPosition),
            None => false,
        };
        if is_fixed {
            return Some(*client_point);
        }
        let shifted = Point2D {
            x: p.x - sc.bounds.origin.x,
            y: p.y - sc.bounds.origin.y,
        };
        let local = match sc.transform.inverse_transform_point(&shifted) {
            Some(local) => local,
            None => { return None },
        };
        if !(sc.id == StackingContextId::root()) {
            match scroll_offsets.get(sc.id) {
                Some(off) => {
                    proof {
                        let entries = scroll_offsets.entries@;
                        assert(offset_of(entries, sc.id) == Some(off));
                        lemma_offset_in_range(entries, sc.id);
                    }
                    let sx: i64 = (local.x as i64) - (off.x as i64);
                    let sy: i64 = (local.y as i64) - (off.y as i64);
                    Some(Point2D { x: clamp_i64_to_au(sx), y: clamp_i64_to_au(sy) })
                },
                None => Some(local),
            }
        } else {
            Some(local)
        }
    }

/// Clamps a coordinate into the well-formed app-unit range.
fn clamp_i64_to_au(v: i64) -> (r: i32)
    ensures
        r == crate::transform::clamp_au(v as int),
{
    if v < MIN_AU as i64 {
        MIN_AU
    } else if v > MAX_AU as i64 {
        MAX_AU
    } else {
        v as i32
    }
}

/// A recorded offset inherits the map's range bound.
proof fn lemma_offset_in_range(
    entries: Seq<(StackingContextId, Point2D)>,
    id: StackingContextId,
)
    requires
        offsets_in_range(entries),
        offset_of(entries, id) is Some,
    ensures
        point_in_range(offset_of(entries, id)->0),
    decreases entries.len(),
{
    if entries.len() > 0 && entries[0].0 != id {
        assert(forall|i: int|
            0 <= i < entries.drop_first().len() ==> point_in_range(
                (#[trigger] entries.drop_first()[i]).1,
            ));
        lemma_offset_in_range(entries.drop_first(), id);
    }
}

impl DisplayList {
    /// Geometry of every item in range, as hit testing and painting need.
    pub open spec fn items_wf(self) -> bool {
        forall|i: int| 0 <= i < self.list@.len() ==> (#[trigger] self.list@[i]).wf()
    }

    /// Returns the metadata of all items containing the point, bottommost
    /// first, respecting `pointer-events`, clips, transforms and scroll
    /// offsets.
    pub fn hit_test(
        &self,
        translated_point: &Point2D,
        client_point: &Point2D,
        scroll_offsets: &ScrollOffsetMap,
    ) -> (result: Vec<DisplayItemMetadata>)
        requires
            self.items_wf(),
            point_in_range(*translated_point),
            point_in_range(*client_point),
            offsets_in_range(scroll_offsets.entries@),
        ensures
            result@ == hit_iter(
                self.list@,
                0,
                self.list@.len() as int,
                seq![Some(*translated_point)],
                *client_point,
                scroll_offsets.entries@,
            ),
    {
        let mut result = Vec::new();
        let mut traversal = DisplayListTraversal::new(self);
        self.hit_test_contents(
            &mut traversal,
            translated_point,
            client_point,
            scroll_offsets,
            &mut result,
        );
        result
    }

    /// Walks the remaining traversal, collecting hits for the point until
    /// the walk leaves the enclosing stacking context (its unmatched pop
    /// marker) or the traversal ends.
    pub fn hit_test_contents<'a>(
        &self,
        traversal: &mut DisplayListTraversal<'a>,
        translated_point: &Point2D,
        client_point: &Point2D,
        scroll_offsets: &ScrollOffsetMap,
        result: &mut Vec<DisplayItemMetadata>,
    )
        requires
            old(traversal).wf(),
            old(traversal).display_list == self,
            old(traversal).first_item_index == 0,
            self.items_wf(),
            point_in_range(*translated_point),
            point_in_range(*client_point),
            offsets_in_range(scroll_offsets.entries@),
        ensures
            final(traversal).wf(),
            final(traversal).display_list == self,
            final(result)@ == old(result)@ + hit_iter(
                self.list@,
                old(traversal).next_item_index as int,
                old(traversal).last_item_index as int,
                seq![Some(*translated_point)],
                *client_point,
                scroll_offsets.entries@,
            ),
    {
        let ghost s = self.list@;
        let ghost last = old(traversal).last_item_index as int;
        let ghost result0 = old(result)@;
        let ghost expected = hit_iter(
            s,
            old(traversal).next_item_index as int,
            last,
            seq![Some(*translated_point)],
            *client_point,
            scroll_offsets.entries@,
        );
        let mut stack: Vec<Option<Point2D>> = Vec::new();
        stack.push(Some(*translated_point));
        loop
            invariant
                traversal.wf(),
                traversal.display_list == self,
                traversal.first_item_index == 0,
                traversal.last_item_index == old(traversal).last_item_index,
                s == self.list@,
                last == old(traversal).last_item_index as int,
                self.items_wf(),
                point_in_range(*client_point),
                offsets_in_range(scroll_offsets.entries@),
                forall|k: int|
                    0 <= k < stack@.len() && (#[trigger] stack@[k]) is Some ==> point_in_range(
                        stack@[k]->0,
                    ),
                result0 + expected == result@ + hit_iter(
                    s,
                    traversal.next_item_index as int,
                    last,
                    stack@,
                    *client_point,
                    scroll_offsets.entries@,
                ),
                result@.subrange(0, result0.len() as int) == result0,
                result@.len() >= result0.len(),
            ensures
                result0 + expected == result@,
            decreases (if traversal.next_item_index <= traversal.last_item_index {
                traversal.last_item_index - traversal.next_item_index
            } else {
                0int
            }),
        {
            if stack.len() == 0 {
                proof {
                    assert(hit_iter(s, traversal.next_item_index as int, last, stack@,
                        *client_point, scroll_offsets.entries@) =~= Seq::<
                        DisplayItemMetadata,
                    >::empty());
                    assert(result0 + expected =~= result@);
                }
                break ;
            }
            let ghost pre_next = traversal.next_item_index as int;
            let item = match traversal.next() {
                Some(item) => item,
                None => {
                    proof {
                        if pre_next < last {
                            assert(crate::traversal::emitted_indices(s, 0, last, pre_next)
                                == seq![pre_next] + crate::traversal::emitted_indices(
                                s,
                                0,
                                last,
                                pre_next + 1,
                            ));
                            assert(false);
                        }
                        assert(hit_iter(s, pre_next, last, stack@, *client_point,
                            scroll_offsets.entries@) == Seq::<DisplayItemMetadata>::empty());
                        assert(result0 + expected =~= result@);
                    }
                    break ;
                },
            };
            let ghost here = traversal.next_item_index - 1;
            proof {
                assert(*item == s[here]);
                assert(here < last);
            }
            match item {
                DisplayItem::PushStackingContext(push_item) => {
                    let top = stack[stack.len() - 1];
                    let entered = enter_stacking_context(
                        &push_item.stacking_context,
                        top,
                        client_point,
                        scroll_offsets,
                    );
                    proof {
                        assert(stack@.last() == top);
                        assert(push_item.stacking_context.wf());
                    }
                    stack.push(entered);
                },
                DisplayItem::PopStackingContext(_) => {
                    let _ = stack.pop();
                },
                _ => {
                    let top = stack[stack.len() - 1];
                    proof {
                        assert(stack@.last() == top);
                    }
                    proof {
                        assert(s[here].wf());
                    }
                    match top {
                        Some(pt) => {
                            match item.hit_test(pt) {
                                Some(meta) => {
                                    let ghost rest = hit_iter(s, here + 1, last, stack@,
                                        *client_point, scroll_offsets.entries@);
                                    let ghost rold = result@;
                                    result.push(meta);
                                    proof {
                                        assert(rold + (seq![meta] + rest) =~= (rold + seq![
                                            meta,
                                        ]) + rest);
                                        assert(result@.subrange(
                                            0,
                                            result0.len() as int,
                                        ) =~= result0);
                                    }
                                },
                                None => {},
                            }
                        },
                        None => {},
                    }
                },
            }
        }
    }
}

} // verus!
