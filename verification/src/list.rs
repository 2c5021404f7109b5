//! Assembly of the flat display list.
//!
//! Layout hands over the root stacking context (owning its subtree) and an
//! unordered pool of display items keyed by stacking context id. Assembly
//! buckets the pool, then walks the tree in CSS 2.1 Appendix E order:
//! per context, background items, negative z-index children, block
//! background items, pseudo-float children, content items, the remaining
//! children, and finally outline items, bracketed by push/pop markers when
//! the context is Real. The relation [`builds`] pins the whole output down
//! (markers are fresh values, so it speaks of their fields); the laws about
//! bracket balance, item conservation and emission order are proved from
//! it.

use vstd::prelude::*;
use crate::item::{
    BaseDisplayItem, DisplayItem, DisplayItemMetadata, DisplayListSection,
    PopStackingContextItem, PushStackingContextItem,
};
use crate::ids::{root_stacking_context_id, OpaqueNode, StackingContextId};
use crate::sort::{stable_sorted_ctx, stable_sorted_items, sorted_insert_ctx};
use crate::stacking::{StackingContext, StackingContextType};

verus! {

/// A bucketed item pool at the specification level: association pairs of
/// context id and the items belonging to it, in first-seen order.
pub type PoolS = Seq<(StackingContextId, Seq<DisplayItem>)>;

/// Number of nodes in the stacking context tree rooted here; the measure
/// that assembly's recursion decreases.
pub open spec fn ctx_size(ctx: StackingContext) -> nat
    decreases ctx, 1int, 0int,
{
    1 + ctx_kids_size(ctx, 0)
}

/// Total size of the subtrees of `ctx.children` from index `i` on.
pub open spec fn ctx_kids_size(ctx: StackingContext, i: int) -> nat
    decreases ctx, 0int, ctx.children@.len() - i,
{
    if i < 0 || i >= ctx.children@.len() {
        0
    } else {
        ctx_size(ctx.children@[i]) + ctx_kids_size(ctx, i + 1)
    }
}

/// Total size of the subtrees in a sequence of contexts.
pub open spec fn seq_size(s: Seq<StackingContext>) -> nat
    decreases s.len(),
{
    if s.len() == 0 {
        0
    } else {
        ctx_size(s[0]) + seq_size(s.drop_first())
    }
}

proof fn lemma_seq_size_concat(a: Seq<StackingContext>, b: Seq<StackingContext>)
    ensures
        seq_size(a + b) == seq_size(a) + seq_size(b),
    decreases a.len(),
{
    if a.len() == 0 {
        assert(a + b =~= b);
    } else {
        assert((a + b).drop_first() =~= a.drop_first() + b);
        lemma_seq_size_concat(a.drop_first(), b);
    }
}

proof fn lemma_seq_size_singleton(x: StackingContext)
    ensures
        seq_size(seq![x]) == ctx_size(x),
{
    assert(seq![x].drop_first() =~= Seq::<StackingContext>::empty());
    assert(seq![x][0] == x);
    assert(seq_size(Seq::<StackingContext>::empty()) == 0);
}

proof fn lemma_seq_size_insert(s: Seq<StackingContext>, x: StackingContext)
    ensures
        seq_size(sorted_insert_ctx(s, x)) == ctx_size(x) + seq_size(s),
    decreases s.len(),
{
    lemma_seq_size_singleton(x);
    if s.len() == 0 {
        assert(sorted_insert_ctx(s, x) =~= seq![x]);
    } else if crate::stacking::paint_order_le(s[0], x) {
        lemma_seq_size_insert(s.drop_first(), x);
        lemma_seq_size_singleton(s[0]);
        lemma_seq_size_concat(seq![s[0]], sorted_insert_ctx(s.drop_first(), x));
        assert(seq_size(s) == ctx_size(s[0]) + seq_size(s.drop_first()));
    } else {
        lemma_seq_size_concat(seq![x], s);
    }
}

/// Sorting does not change the total size.
proof fn lemma_seq_size_sorted(s: Seq<StackingContext>)
    ensures
        seq_size(stable_sorted_ctx(s)) == seq_size(s),
    decreases s.len(),
{
    if s.len() > 0 {
        lemma_seq_size_sorted(s.drop_last());
        lemma_seq_size_insert(stable_sorted_ctx(s.drop_last()), s.last());
        assert(s =~= s.drop_last() + seq![s.last()]);
        lemma_seq_size_concat(s.drop_last(), seq![s.last()]);
        lemma_seq_size_singleton(s.last());
    }
}

/// The per-context sum agrees with the sequence sum over the children.
proof fn lemma_ctx_kids_size(ctx: StackingContext, i: int)
    requires
        0 <= i <= ctx.children@.len(),
    ensures
        ctx_kids_size(ctx, i) == seq_size(ctx.children@.skip(i)),
    decreases ctx.children@.len() - i,
{
    if i == ctx.children@.len() {
        assert(ctx.children@.skip(i) =~= Seq::<StackingContext>::empty());
    } else {
        lemma_ctx_kids_size(ctx, i + 1);
        assert(ctx.children@.skip(i).drop_first() =~= ctx.children@.skip(i + 1));
        assert(ctx.children@.skip(i)[0] == ctx.children@[i]);
    }
}

/// Any contiguous part weighs at most the whole.
proof fn lemma_seq_size_subrange(s: Seq<StackingContext>, lo: int, hi: int)
    requires
        0 <= lo <= hi <= s.len(),
    ensures
        seq_size(s.subrange(lo, hi)) <= seq_size(s),
{
    assert(s =~= s.subrange(0, lo) + s.subrange(lo, hi) + s.subrange(hi, s.len() as int));
    lemma_seq_size_concat(s.subrange(0, lo) + s.subrange(lo, hi), s.subrange(hi, s.len() as int));
    lemma_seq_size_concat(s.subrange(0, lo), s.subrange(lo, hi));
}

/// A sorted child list weighs strictly less than its tree.
proof fn lemma_sorted_kids_lt(ctx: StackingContext)
    ensures
        seq_size(stable_sorted_ctx(ctx.children@)) < ctx_size(ctx),
{
    lemma_seq_size_sorted(ctx.children@);
    lemma_ctx_kids_size(ctx, 0);
    assert(ctx.children@.skip(0) =~= ctx.children@);
}

/// First index at or after `i` whose entry is keyed `id`, or the length.
pub open spec fn pool_find(pool: PoolS, id: StackingContextId, i: int) -> int
    decreases pool.len() - i,
{
    if i < 0 || i >= pool.len() {
        pool.len() as int
    } else if pool[i].0 == id {
        i
    } else {
        pool_find(pool, id, i + 1)
    }
}

/// The scan index stays within bounds.
pub proof fn lemma_pool_find_range(pool: PoolS, id: StackingContextId, i: int)
    requires
        0 <= i <= pool.len(),
    ensures
        i <= pool_find(pool, id, i) <= pool.len(),
    decreases pool.len() - i,
{
    if i < pool.len() && pool[i].0 != id {
        lemma_pool_find_range(pool, id, i + 1);
    }
}

/// The phase boundary stays within bounds.
pub proof fn lemma_rank_prefix_end_range(s: Seq<DisplayItem>, r: int)
    ensures
        0 <= rank_prefix_end(s, r) <= s.len(),
    decreases s.len(),
{
    if s.len() > 0 && s[0].base_spec().section.rank_spec() <= r {
        lemma_rank_prefix_end_range(s.drop_first(), r);
    }
}

/// A looser rank bound only lengthens the prefix.
pub proof fn lemma_rank_prefix_end_mono(s: Seq<DisplayItem>, r1: int, r2: int)
    requires
        r1 <= r2,
    ensures
        rank_prefix_end(s, r1) <= rank_prefix_end(s, r2),
    decreases s.len(),
{
    lemma_rank_prefix_end_range(s, r1);
    lemma_rank_prefix_end_range(s, r2);
    if s.len() > 0 && s[0].base_spec().section.rank_spec() <= r1 {
        lemma_rank_prefix_end_mono(s.drop_first(), r1, r2);
    }
}

/// A successful scan lands on an entry with the key.
pub proof fn lemma_pool_find_hit(pool: PoolS, id: StackingContextId, i: int)
    requires
        0 <= i,
        pool_find(pool, id, i) < pool.len(),
    ensures
        pool[pool_find(pool, id, i)].0 == id,
    decreases pool.len() - i,
{
    if i < pool.len() && pool[i].0 != id {
        lemma_pool_find_hit(pool, id, i + 1);
    }
}

/// A failed scan really found nothing.
pub proof fn lemma_pool_find_miss(pool: PoolS, id: StackingContextId, i: int, j: int)
    requires
        0 <= i <= j < pool.len(),
        pool_find(pool, id, i) == pool.len(),
    ensures
        pool[j].0 != id,
    decreases pool.len() - i,
{
    if i < j {
        lemma_pool_find_miss(pool, id, i + 1, j);
    }
}

/// The bucket of items for `id`; empty when the pool has none.
pub open spec fn pool_bucket(pool: PoolS, id: StackingContextId) -> Seq<DisplayItem> {
    let j = pool_find(pool, id, 0);
    if j < pool.len() {
        pool[j].1
    } else {
        Seq::empty()
    }
}

/// The pool with the entry for `id` removed, if it was there.
pub open spec fn pool_without(pool: PoolS, id: StackingContextId) -> PoolS {
    let j = pool_find(pool, id, 0);
    if j < pool.len() {
        pool.remove(j)
    } else {
        pool
    }
}

/// The pool grown by one item: appended to its id's bucket, or opening a
/// new bucket at the end.
pub open spec fn add_to_pool(pool: PoolS, it: DisplayItem) -> PoolS {
    let id = it.base_spec().stacking_context_id;
    let j = pool_find(pool, id, 0);
    if j < pool.len() {
        pool.update(j, (id, pool[j].1.push(it)))
    } else {
        pool.push((id, seq![it]))
    }
}

/// The items bucketed by stacking context id, in input order.
pub open spec fn grouped(items: Seq<DisplayItem>) -> PoolS
    decreases items.len(),
{
    if items.len() == 0 {
        Seq::empty()
    } else {
        add_to_pool(grouped(items.drop_last()), items.last())
    }
}

/// Length of the maximal prefix whose section rank is at most `r`.
pub open spec fn rank_prefix_end(s: Seq<DisplayItem>, r: int) -> int
    decreases s.len(),
{
    if s.len() == 0 {
        0
    } else if s[0].base_spec().section.rank_spec() <= r {
        1 + rank_prefix_end(s.drop_first(), r)
    } else {
        0
    }
}

/// End of the run of negative z-index children starting at `i`.
pub open spec fn neg_z_end(s: Seq<StackingContext>, i: int) -> int
    decreases s.len() - i,
{
    if i < 0 || i >= s.len() {
        s.len() as int
    } else if s[i].z_index < 0 {
        neg_z_end(s, i + 1)
    } else {
        i
    }
}

/// End of the run of pseudo-float children starting at `i`.
pub open spec fn float_end(s: Seq<StackingContext>, i: int) -> int
    decreases s.len() - i,
{
    if i < 0 || i >= s.len() {
        s.len() as int
    } else if s[i].context_type == StackingContextType::PseudoFloat {
        float_end(s, i + 1)
    } else {
        i
    }
}

/// The base all markers carry: zero bounds, pointer-ineligible, the
/// all-encompassing clip, content section, the root id.
pub open spec fn is_empty_base(b: BaseDisplayItem) -> bool {
    &&& b.bounds == crate::geometry::zero_rect()
    &&& b.metadata == (DisplayItemMetadata { node: OpaqueNode(0), pointing: None })
    &&& b.clip.is_max_spec()
    &&& b.section == DisplayListSection::Content
    &&& b.stacking_context_id == root_stacking_context_id()
}

/// The context stored in a push marker: `ctx` with its children moved out.
pub open spec fn cleared_matches(sc: StackingContext, ctx: StackingContext) -> bool {
    &&& sc.id == ctx.id
    &&& sc.context_type == ctx.context_type
    &&& sc.bounds == ctx.bounds
    &&& sc.overflow == ctx.overflow
    &&& sc.z_index == ctx.z_index
    &&& sc.filters@ == ctx.filters@
    &&& sc.blend_mode == ctx.blend_mode
    &&& sc.transform == ctx.transform
    &&& sc.perspective == ctx.perspective
    &&& sc.establishes_3d_context == ctx.establishes_3d_context
    &&& sc.layer_info == ctx.layer_info
    &&& sc.children@.len() == 0
    &&& sc.overflow_scroll_id == ctx.overflow_scroll_id
}

/// The item that opens `ctx` in the flat list.
pub open spec fn is_push_marker_for(item: DisplayItem, ctx: StackingContext) -> bool {
    match item {
        DisplayItem::PushStackingContext(p) => is_empty_base(p.base) && cleared_matches(
            p.stacking_context,
            ctx,
        ),
        _ => false,
    }
}

/// The item that closes the context with this id.
pub open spec fn is_pop_marker_for(item: DisplayItem, id: StackingContextId) -> bool {
    match item {
        DisplayItem::PopStackingContext(p) => is_empty_base(p.base) && p.stacking_context_id
            == id,
        _ => false,
    }
}

/// The flattening relation with its intermediate pieces named: `s1`, `s2`,
/// `s3` are the child segments of the three recursion phases and `p2`,
/// `p3` the pools between them. Holds exactly when `out` is the Appendix E
/// interleaving of the context's sorted bucket with its sorted children,
/// bracketed when the context is Real, and `pool_out` is the pool with
/// every bucket of the subtree consumed.
pub open spec fn builds_parts(
    ctx: StackingContext,
    pool: PoolS,
    out: Seq<DisplayItem>,
    pool_out: PoolS,
    s1: Seq<DisplayItem>,
    p2: PoolS,
    s2: Seq<DisplayItem>,
    p3: PoolS,
    s3: Seq<DisplayItem>,
) -> bool
    decreases ctx_size(ctx), 2int,
    via builds_parts_dec
{
    let kids = stable_sorted_ctx(ctx.children@);
    let bucket = pool_bucket(pool, ctx.id);
    let pool1 = pool_without(pool, ctx.id);
    let items = stable_sorted_items(bucket);
    let j0 = rank_prefix_end(items, 0);
    let j1 = rank_prefix_end(items, 1);
    let j2 = rank_prefix_end(items, 2);
    let k0 = neg_z_end(kids, 0);
    let k1 = float_end(kids, k0);
    let body = items.subrange(0, j0) + s1 + items.subrange(j0, j1) + s2 + items.subrange(j1, j2)
        + s3 + items.subrange(j2, items.len() as int);
    &&& builds_kids(kids, 0, k0, pool1, s1, p2)
    &&& builds_kids(kids, k0, k1, p2, s2, p3)
    &&& builds_kids(kids, k1, kids.len() as int, p3, s3, pool_out)
    &&& if ctx.context_type == StackingContextType::Real {
        &&& out.len() == body.len() + 2
        &&& is_push_marker_for(out[0], ctx)
        &&& out.subrange(1, out.len() - 1) == body
        &&& is_pop_marker_for(out[out.len() - 1], ctx.id)
    } else {
        out == body
    }
}

#[via_fn]
proof fn builds_parts_dec(
    ctx: StackingContext,
    pool: PoolS,
    out: Seq<DisplayItem>,
    pool_out: PoolS,
    s1: Seq<DisplayItem>,
    p2: PoolS,
    s2: Seq<DisplayItem>,
    p3: PoolS,
    s3: Seq<DisplayItem>,
) {
    let kids = stable_sorted_ctx(ctx.children@);
    lemma_sorted_kids_lt(ctx);
    lemma_seq_size_subrange(kids, 0, clamp_idx(neg_z_end(kids, 0), kids.len() as int));
    lemma_neg_z_end_range(kids, 0);
    lemma_float_end_range(kids, neg_z_end(kids, 0));
    lemma_seq_size_subrange(kids, neg_z_end(kids, 0), float_end(kids, neg_z_end(kids, 0)));
    lemma_seq_size_subrange(kids, float_end(kids, neg_z_end(kids, 0)), kids.len() as int);
    lemma_seq_size_subrange(kids, 0, neg_z_end(kids, 0));
}

pub open spec fn clamp_idx(i: int, len: int) -> int {
    if i < 0 {
        0
    } else if i > len {
        len
    } else {
        i
    }
}

pub proof fn lemma_neg_z_end_range(s: Seq<StackingContext>, i: int)
    requires
        0 <= i <= s.len(),
    ensures
        i <= neg_z_end(s, i) <= s.len(),
    decreases s.len() - i,
{
    if i < s.len() && s[i].z_index < 0 {
        lemma_neg_z_end_range(s, i + 1);
    }
}

pub proof fn lemma_float_end_range(s: Seq<StackingContext>, i: int)
    requires
        0 <= i <= s.len(),
    ensures
        i <= float_end(s, i) <= s.len(),
    decreases s.len() - i,
{
    if i < s.len() && s[i].context_type == StackingContextType::PseudoFloat {
        lemma_float_end_range(s, i + 1);
    }
}

/// Trigger anchor for the decomposition of a flattened sibling run; always
/// true, it only names the pieces a quantifier ranges over.
pub open spec fn seg_witness(s1: Seq<DisplayItem>, p1: PoolS, s2: Seq<DisplayItem>) -> bool {
    true
}

/// Trigger anchor for a leftover pool.
pub open spec fn pool_witness(p: PoolS) -> bool {
    true
}

/// Trigger anchor for the pieces of a flattened context.
pub open spec fn parts_witness(
    s1: Seq<DisplayItem>,
    p2: PoolS,
    s2: Seq<DisplayItem>,
    p3: PoolS,
    s3: Seq<DisplayItem>,
) -> bool {
    true
}

/// `out` flattens the contexts `kids[lo..hi]` in order, threading the pool
/// left to right.
pub open spec fn builds_kids(
    kids: Seq<StackingContext>,
    lo: int,
    hi: int,
    pool: PoolS,
    out: Seq<DisplayItem>,
    pool_out: PoolS,
) -> bool
    decreases seq_size(kids.subrange(clamp_idx(lo, kids.len() as int), clamp_idx(hi, kids.len() as int))), 4int,
    via builds_kids_dec
{
    if !(0 <= lo <= hi <= kids.len()) {
        out == Seq::<DisplayItem>::empty() && pool_out == pool
    } else if lo == hi {
        out == Seq::<DisplayItem>::empty() && pool_out == pool
    } else {
        exists|s1: Seq<DisplayItem>, p1: PoolS, s2: Seq<DisplayItem>|
            {
                &&& #[trigger] seg_witness(s1, p1, s2)
                &&& builds(kids[lo], pool, s1, p1)
                &&& builds_kids(kids, lo + 1, hi, p1, s2, pool_out)
                &&& out == s1 + s2
            }
    }
}

#[via_fn]
proof fn builds_kids_dec(
    kids: Seq<StackingContext>,
    lo: int,
    hi: int,
    pool: PoolS,
    out: Seq<DisplayItem>,
    pool_out: PoolS,
) {
    if 0 <= lo && lo < hi && hi <= kids.len() {
        let whole = kids.subrange(lo, hi);
        let rest = kids.subrange(lo + 1, hi);
        assert(whole =~= seq![kids[lo]] + rest);
        lemma_seq_size_concat(seq![kids[lo]], rest);
        lemma_seq_size_singleton(kids[lo]);
        assert(1 <= ctx_size(kids[lo]));
    }
}

/// The top of the flattening relation: some choice of child segments and
/// intermediate pools satisfies [`builds_parts`].
pub open spec fn builds(
    ctx: StackingContext,
    pool: PoolS,
    out: Seq<DisplayItem>,
    pool_out: PoolS,
) -> bool
    decreases ctx_size(ctx), 3int,
{
    exists|s1: Seq<DisplayItem>, p2: PoolS, s2: Seq<DisplayItem>, p3: PoolS, s3: Seq<DisplayItem>|
        #[trigger] parts_witness(s1, p2, s2, p3, s3) && builds_parts(
            ctx,
            pool,
            out,
            pool_out,
            s1,
            p2,
            s2,
            p3,
            s3,
        )
}


/// A sorted child weighs strictly less than its parent: the measure fact
/// that lets proofs recurse along assembly's own recursion.
pub proof fn lemma_kid_size_lt(parent: StackingContext, kids: Seq<StackingContext>, lo: int)
    requires
        kids == stable_sorted_ctx(parent.children@),
        0 <= lo < kids.len(),
    ensures
        ctx_size(kids[lo]) < ctx_size(parent),
{
    lemma_seq_size_elem(kids, lo);
    lemma_sorted_kids_lt(parent);
}

/// The pool as the specification sees it: each bucket by its view.
pub open spec fn pool_view(p: Vec<(StackingContextId, Vec<DisplayItem>)>) -> PoolS {
    p@.map_values(|e: (StackingContextId, Vec<DisplayItem>)| (e.0, e.1@))
}

proof fn lemma_pool_find_prefix(pool: PoolS, id: StackingContextId, i: int)
    requires
        0 <= i <= pool.len(),
        forall|j: int| 0 <= j < i ==> (#[trigger] pool[j]).0 != id,
    ensures
        pool_find(pool, id, 0) == pool_find(pool, id, i),
    decreases i,
{
    if i > 0 {
        lemma_pool_find_prefix(pool, id, i - 1);
    }
}

/// Removes and returns the bucket for `id`, or an empty one.
fn pool_take(pool: &mut Vec<(StackingContextId, Vec<DisplayItem>)>, id: StackingContextId) -> (r:
    Vec<DisplayItem>)
    ensures
        r@ == pool_bucket(pool_view(*old(pool)), id),
        pool_view(*final(pool)) == pool_without(pool_view(*old(pool)), id),
{
    let ghost pv = pool_view(*old(pool));
    let n = pool.len();
    let mut i: usize = 0;
    while i < n
        invariant
            0 <= i <= n,
            *pool == *old(pool),
            n == pool@.len(),
            pv == pool_view(*pool),
            forall|j: int| 0 <= j < i ==> (#[trigger] pv[j]).0 != id,
        decreases n - i,
    {
        if pool[i].0 == id {
            proof {
                assert(pv[i as int].0 == id);
                lemma_pool_find_prefix(pv, id, i as int);
                assert(pool_find(pv, id, 0) == i);
            }
            let entry = pool.remove(i);
            proof {
                assert(pool_view(*pool) =~= pv.remove(i as int));
            }
            return entry.1;
        }
        proof {
            assert(pv[i as int].0 == pool@[i as int].0);
        }
        i += 1;
    }
    proof {
        lemma_pool_find_prefix(pv, id, pv.len() as int);
        assert(pool_find(pv, id, 0) == pv.len());
    }
    Vec::new()
}

/// Ranks never go down in a stably sorted item sequence.
pub open spec fn items_sorted(s: Seq<DisplayItem>) -> bool {
    forall|i: int, j: int|
        0 <= i <= j < s.len() ==> crate::sort::item_le(#[trigger] s[i], #[trigger] s[j])
}

pub proof fn lemma_sorted_insert_item_sorted(s: Seq<DisplayItem>, x: DisplayItem)
    requires
        items_sorted(s),
    ensures
        items_sorted(crate::sort::sorted_insert_item(s, x)),
    decreases s.len(),
{
    let out = crate::sort::sorted_insert_item(s, x);
    if s.len() == 0 {
        assert(out =~= seq![x]);
    } else if crate::sort::item_le(s[0], x) {
        assert(items_sorted(s.drop_first()));
        lemma_sorted_insert_item_sorted(s.drop_first(), x);
        let rest = crate::sort::sorted_insert_item(s.drop_first(), x);
        assert(out =~= seq![s[0]] + rest);
        assert forall|i: int, j: int| 0 <= i <= j < out.len() implies crate::sort::item_le(
            #[trigger] out[i],
            #[trigger] out[j],
        ) by {
            if i == 0 && j > 0 {
                lemma_insert_item_origin(s.drop_first(), x, j - 1);
                assert(out[j] == rest[j - 1]);
                if rest[j - 1] == x {
                } else {
                    let jj = choose|jj: int|
                        0 <= jj < s.drop_first().len() && rest[j - 1] == #[trigger] s.drop_first(
                        )[jj];
                    assert(s.drop_first()[jj] == s[jj + 1]);
                    assert(crate::sort::item_le(s[0], s[jj + 1]));
                }
            } else if i > 0 {
                assert(out[i] == rest[i - 1] && out[j] == rest[j - 1]);
            }
        }
    } else {
        assert(out =~= seq![x] + s);
        assert forall|i: int, j: int| 0 <= i <= j < out.len() implies crate::sort::item_le(
            #[trigger] out[i],
            #[trigger] out[j],
        ) by {
            if i == 0 && j > 0 {
                assert(out[j] == s[j - 1]);
                assert(crate::sort::item_le(s[0], s[j - 1]));
            }
        }
    }
}

/// Every element of an insertion result is the inserted element or one of
/// the originals.
proof fn lemma_insert_item_origin(s: Seq<DisplayItem>, x: DisplayItem, k: int)
    requires
        0 <= k < crate::sort::sorted_insert_item(s, x).len(),
    ensures
        crate::sort::sorted_insert_item(s, x)[k] == x || exists|j: int|
            0 <= j < s.len() && crate::sort::sorted_insert_item(s, x)[k] == #[trigger] s[j],
    decreases s.len(),
{
    let out = crate::sort::sorted_insert_item(s, x);
    if s.len() == 0 {
        assert(out =~= seq![x]);
    } else if crate::sort::item_le(s[0], x) {
        let rest = crate::sort::sorted_insert_item(s.drop_first(), x);
        assert(out =~= seq![s[0]] + rest);
        if k == 0 {
            assert(out[0] == s[0]);
        } else {
            lemma_insert_item_origin(s.drop_first(), x, k - 1);
            if rest[k - 1] == x {
            } else {
                let j = choose|j: int|
                    0 <= j < s.drop_first().len() && rest[k - 1] == #[trigger] s.drop_first()[j];
                assert(out[k] == s[j + 1]);
            }
        }
    } else {
        assert(out =~= seq![x] + s);
        if k > 0 {
            assert(out[k] == s[k - 1]);
        }
    }
}

/// The stable sort of items is sorted.
pub proof fn lemma_stable_sorted_items_sorted(s: Seq<DisplayItem>)
    ensures
        items_sorted(crate::sort::stable_sorted_items(s)),
    decreases s.len(),
{
    if s.len() > 0 {
        lemma_stable_sorted_items_sorted(s.drop_last());
        lemma_sorted_insert_item_sorted(crate::sort::stable_sorted_items(s.drop_last()), s.last());
    }
}

/// Forward-scanning characterization of the section phase boundaries.
proof fn lemma_rank_prefix_end_char(s: Seq<DisplayItem>, r: int, i: int)
    requires
        0 <= i <= s.len(),
        forall|j: int| 0 <= j < i ==> (#[trigger] s[j]).base_spec().section.rank_spec() <= r,
        i < s.len() ==> s[i].base_spec().section.rank_spec() > r,
    ensures
        rank_prefix_end(s, r) == i,
    decreases i,
{
    if i == 0 {
        if s.len() > 0 {
        }
    } else {
        assert(s[0].base_spec().section.rank_spec() <= r);
        lemma_rank_prefix_end_char(s.drop_first(), r, i - 1);
        assert forall|j: int| 0 <= j < i - 1 implies (#[trigger] s.drop_first()[j]).base_spec(
        ).section.rank_spec() <= r by {
            assert(s.drop_first()[j] == s[j + 1]);
        }
    }
}

/// Forward-scanning characterization of the negative z-index boundary.
proof fn lemma_neg_z_end_char(s: Seq<StackingContext>, lo: int, i: int)
    requires
        0 <= lo <= i <= s.len(),
        forall|j: int| lo <= j < i ==> (#[trigger] s[j]).z_index < 0,
        i < s.len() ==> s[i].z_index >= 0,
    ensures
        neg_z_end(s, lo) == i,
    decreases i - lo,
{
    if lo < i {
        lemma_neg_z_end_char(s, lo + 1, i);
    }
}

/// Forward-scanning characterization of the pseudo-float boundary.
proof fn lemma_float_end_char(s: Seq<StackingContext>, lo: int, i: int)
    requires
        0 <= lo <= i <= s.len(),
        forall|j: int|
            lo <= j < i ==> (#[trigger] s[j]).context_type == StackingContextType::PseudoFloat,
        i < s.len() ==> s[i].context_type != StackingContextType::PseudoFloat,
    ensures
        float_end(s, lo) == i,
    decreases i - lo,
{
    if lo < i {
        lemma_float_end_char(s, lo + 1, i);
    }
}

/// One element weighs at most the sequence.
proof fn lemma_seq_size_elem(s: Seq<StackingContext>, i: int)
    requires
        0 <= i < s.len(),
    ensures
        ctx_size(s[i]) <= seq_size(s),
{
    lemma_seq_size_subrange(s, i, i + 1);
    assert(s.subrange(i, i + 1) =~= seq![s[i]]);
    lemma_seq_size_singleton(s[i]);
}

/// Folding one flattened sibling onto a flattened run.
proof fn lemma_builds_kids_cons(
    kids: Seq<StackingContext>,
    lo: int,
    hi: int,
    pool: PoolS,
    s1: Seq<DisplayItem>,
    p1: PoolS,
    s2: Seq<DisplayItem>,
    pool_out: PoolS,
    out: Seq<DisplayItem>,
)
    requires
        0 <= lo < hi <= kids.len(),
        builds(kids[lo], pool, s1, p1),
        builds_kids(kids, lo + 1, hi, p1, s2, pool_out),
        out == s1 + s2,
    ensures
        builds_kids(kids, lo, hi, pool, out, pool_out),
{
    assert(seg_witness(s1, p1, s2));
    assert(builds_kids(kids, lo, hi, pool, out, pool_out));
}

/// Unfolding a non-empty flattened run into its first segment and rest.
proof fn lemma_builds_kids_uncons(
    kids: Seq<StackingContext>,
    lo: int,
    hi: int,
    pool: PoolS,
    out: Seq<DisplayItem>,
    pool_out: PoolS,
)
    requires
        0 <= lo < hi <= kids.len(),
        builds_kids(kids, lo, hi, pool, out, pool_out),
    ensures
        exists|s1: Seq<DisplayItem>, p1: PoolS, s2: Seq<DisplayItem>|
            #[trigger] seg_witness(s1, p1, s2) && builds(kids[lo], pool, s1, p1) && builds_kids(
                kids,
                lo + 1,
                hi,
                p1,
                s2,
                pool_out,
            ) && out == s1 + s2,
{
}

/// Extending a run of flattened siblings by one more sibling.
proof fn lemma_builds_kids_snoc(
    kids: Seq<StackingContext>,
    lo: int,
    m: int,
    p0: PoolS,
    out: Seq<DisplayItem>,
    p1: PoolS,
    s: Seq<DisplayItem>,
    p2: PoolS,
)
    requires
        0 <= lo <= m < kids.len(),
        builds_kids(kids, lo, m, p0, out, p1),
        builds(kids[m], p1, s, p2),
    ensures
        builds_kids(kids, lo, m + 1, p0, out + s, p2),
    decreases m - lo,
{
    if lo == m {
        assert(out =~= Seq::<DisplayItem>::empty());
        assert(p1 == p0);
        assert(builds(kids[lo], p0, s, p2));
        assert(builds_kids(kids, lo + 1, m + 1, p2, Seq::<DisplayItem>::empty(), p2));
        assert(out + s =~= s + Seq::<DisplayItem>::empty());
        lemma_builds_kids_cons(
            kids,
            lo,
            m + 1,
            p0,
            s,
            p2,
            Seq::<DisplayItem>::empty(),
            p2,
            out + s,
        );
    } else {
        lemma_builds_kids_uncons(kids, lo, m, p0, out, p1);
        let (s1, p1x, s2) = choose|s1: Seq<DisplayItem>, p1x: PoolS, s2: Seq<DisplayItem>|
            #[trigger] seg_witness(s1, p1x, s2) && builds(kids[lo], p0, s1, p1x) && builds_kids(
                kids,
                lo + 1,
                m,
                p1x,
                s2,
                p1,
            ) && out == s1 + s2;
        lemma_builds_kids_snoc(kids, lo + 1, m, p1x, s2, p1, s, p2);
        assert(out + s =~= s1 + (s2 + s));
        lemma_builds_kids_cons(kids, lo, m + 1, p0, s1, p1x, s2 + s, p2, out + s);
    }
}

/// Length of the leading run of items in the given section (`None` takes
/// the whole sequence).
pub open spec fn sec_run_end(s: Seq<DisplayItem>, sec: Option<DisplayListSection>) -> int
    decreases s.len(),
{
    if s.len() == 0 {
        0
    } else if sec is None || s[0].base_spec().section == sec->0 {
        1 + sec_run_end(s.drop_first(), sec)
    } else {
        0
    }
}

proof fn lemma_sec_run_end_char(s: Seq<DisplayItem>, sec: Option<DisplayListSection>, i: int)
    requires
        0 <= i <= s.len(),
        forall|j: int|
            0 <= j < i ==> sec is None || (#[trigger] s[j]).base_spec().section == sec->0,
        i < s.len() ==> !(sec is None || s[i].base_spec().section == sec->0),
    ensures
        sec_run_end(s, sec) == i,
    decreases i,
{
    if i > 0 {
        lemma_sec_run_end_char(s.drop_first(), sec, i - 1);
        assert forall|j: int|
            0 <= j < i - 1 implies sec is None || (#[trigger] s.drop_first()[j]).base_spec(
        ).section == sec->0 by {
            assert(s.drop_first()[j] == s[j + 1]);
        }
    }
}

/// Moves the leading run of items in `section` from `items` to `list`
/// (all remaining items when `section` is `None`).
fn emit_section_run(
    list: &mut Vec<DisplayItem>,
    items: &mut Vec<DisplayItem>,
    section: Option<DisplayListSection>,
) -> (ghost_n: Ghost<int>)
    ensures
        ghost_n@ == sec_run_end(old(items)@, section),
        final(items)@ == old(items)@.skip(ghost_n@),
        final(list)@ == old(list)@ + old(items)@.subrange(0, ghost_n@),
{
    let ghost items0 = items@;
    let ghost list0 = list@;
    let ghost mut ia: int = 0;
    loop
        invariant
            0 <= ia <= items0.len(),
            items@ == items0.skip(ia),
            list@ == list0 + items0.subrange(0, ia),
            forall|j: int|
                0 <= j < ia ==> section is None || (#[trigger] items0[j]).base_spec().section
                    == section->0,
        ensures
            ia == items0.len() || !(section is None || items0[ia].base_spec().section
                == section->0),
        decreases items@.len(),
    {
        if items.len() == 0 {
            break ;
        }
        proof {
            assert(items0.skip(ia)[0] == items0[ia]);
        }
        let go = match section {
            Some(sec) => items[0].section() == sec,
            None => true,
        };
        if !go {
            break ;
        }
        let it = items.remove(0);
        proof {
            assert(it == items0[ia]);
        }
        list.push(it);
        proof {
            assert(items@ =~= items0.skip(ia + 1));
            assert(list0 + items0.subrange(0, ia) + seq![items0[ia]] =~= list0 + items0.subrange(
                0,
                ia + 1,
            ));
            ia = ia + 1;
        }
    }
    proof {
        lemma_sec_run_end_char(items0, section, ia);
    }
    Ghost(ia)
}

/// The assembled, immutable display list: a flat sequence of items in
/// paint order with balanced push/pop markers around each Real stacking
/// context.
#[derive(Debug)]
pub struct DisplayList {
    /// The items in paint order.
    pub list: Vec<DisplayItem>,
}

impl DisplayList {
    /// Flattens a stacking context tree and an unordered item pool into a
    /// display list in CSS 2.1 Appendix E order.
    pub fn new(root_stacking_context: StackingContext, all_items: Vec<DisplayItem>) -> (r:
        DisplayList)
        ensures
            exists|pool_out: PoolS|
                #[trigger] pool_witness(pool_out) && builds(
                    root_stacking_context,
                    grouped(all_items@),
                    r.list@,
                    pool_out,
                ),
    {
        let ghost items0 = all_items@;
        let mut all_items = all_items;
        let mut mapped_items: Vec<(StackingContextId, Vec<DisplayItem>)> = Vec::new();
        let ghost mut done: int = 0;
        loop
            invariant
                0 <= done <= items0.len(),
                all_items@ == items0.skip(done),
                pool_view(mapped_items) == grouped(items0.subrange(0, done)),
            ensures
                done == items0.len(),
                pool_view(mapped_items) == grouped(items0.subrange(0, done)),
            decreases all_items@.len(),
        {
            if all_items.len() == 0 {
                break ;
            }
            let it = all_items.remove(0);
            proof {
                assert(it == items0[done]);
                assert(all_items@ =~= items0.skip(done + 1));
            }
            let id = it.stacking_context_id();
            let ghost pv = pool_view(mapped_items);
            let n = mapped_items.len();
            let mut i: usize = 0;
            let mut found = false;
            while i < n && !found
                invariant
                    0 <= i <= n,
                    n == mapped_items@.len(),
                    pv == pool_view(mapped_items),
                    forall|j: int| 0 <= j < i ==> (#[trigger] pv[j]).0 != id,
                    found ==> i < n && pv[i as int].0 == id,
                decreases n - i + (if found { 0int } else { 1int }),
            {
                if mapped_items[i].0 == id {
                    found = true;
                    proof {
                        assert(pv[i as int].0 == id);
                    }
                } else {
                    proof {
                        assert(pv[i as int].0 == mapped_items@[i as int].0);
                    }
                    i += 1;
                }
            }
            if found {
                proof {
                    lemma_pool_find_prefix(pv, id, i as int);
                }
                let mut entry = mapped_items.remove(i);
                entry.1.push(it);
                mapped_items.insert(i, entry);
                proof {
                    assert(pool_view(mapped_items) =~= pv.update(
                        i as int,
                        (id, pv[i as int].1.push(items0[done])),
                    ));
                }
            } else {
                proof {
                    lemma_pool_find_prefix(pv, id, pv.len() as int);
                }
                let mut fresh_bucket: Vec<DisplayItem> = Vec::new();
                fresh_bucket.push(it);
                mapped_items.push((id, fresh_bucket));
                proof {
                    assert(pool_view(mapped_items) =~= pv.push((id, seq![items0[done]])));
                }
            }
            proof {
                assert(items0.subrange(0, done + 1).drop_last() =~= items0.subrange(0, done));
                assert(items0.subrange(0, done + 1).last() == items0[done]);
                done = done + 1;
            }
        }
        proof {
            assert(items0.subrange(0, items0.len() as int) =~= items0);
        }

        let ghost grouped_pool = pool_view(mapped_items);
        proof {
            assert(grouped_pool == grouped(items0));
        }
        let mut list: Vec<DisplayItem> = Vec::new();
        DisplayList::generate_display_list(&mut list, &mut mapped_items, root_stacking_context);
        proof {
            assert(list@.skip(0) =~= list@);
            assert(builds(root_stacking_context, grouped(items0), list@, pool_view(
                mapped_items,
            )));
            assert(pool_witness(pool_view(mapped_items)));
        }
        DisplayList { list }
    }

    /// One recursion step of assembly: flattens `stacking_context` and its
    /// subtree onto `list`, consuming the subtree's buckets from `pool`.
    #[verifier::rlimit(100)]
    fn generate_display_list(
        list: &mut Vec<DisplayItem>,
        pool: &mut Vec<(StackingContextId, Vec<DisplayItem>)>,
        stacking_context: StackingContext,
    )
        ensures
            final(list)@.len() >= old(list)@.len(),
            final(list)@.subrange(0, old(list)@.len() as int) == old(list)@,
            builds(
                stacking_context,
                pool_view(*old(pool)),
                final(list)@.skip(old(list)@.len() as int),
                pool_view(*final(pool)),
            ),
        decreases ctx_size(stacking_context),
    {
        let ghost ctx0 = stacking_context;
        let ghost pool0 = pool_view(*pool);
        let ghost list0 = list@;

        let StackingContext {
            id,
            context_type,
            bounds,
            overflow,
            z_index,
            filters,
            blend_mode,
            transform,
            perspective,
            establishes_3d_context,
            layer_info,
            children,
            overflow_scroll_id,
        } = stacking_context;

        let mut kids = crate::sort::sort_contexts(children);
        let ghost kidsv = kids@;
        let bucket = pool_take(pool, id);
        let ghost pool1 = pool_view(*pool);
        let ghost bucketv = bucket@;
        let mut items = crate::sort::sort_items(bucket);
        let ghost itemsv = items@;
        proof {
            lemma_stable_sorted_items_sorted(bucketv);
            assert(kidsv == stable_sorted_ctx(ctx0.children@));
            assert(itemsv == stable_sorted_items(pool_bucket(pool0, ctx0.id)));
        }

        let is_real = context_type == StackingContextType::Real;
        if is_real {
            list.push(
                DisplayItem::PushStackingContext(
                    Box::new(
                        PushStackingContextItem {
                            base: BaseDisplayItem::empty(),
                            stacking_context: StackingContext {
                                id,
                                context_type,
                                bounds,
                                overflow,
                                z_index,
                                filters,
                                blend_mode,
                                transform,
                                perspective,
                                establishes_3d_context,
                                layer_info,
                                children: Vec::new(),
                                overflow_scroll_id,
                            },
                        },
                    ),
                ),
            );
            proof {
                assert(is_push_marker_for(list@.last(), ctx0));
            }
        }
        let ghost snap_push = list@;

        // Steps 1 and 2: backgrounds and borders of this context.
        let Ghost(na) = emit_section_run(
            list,
            &mut items,
            Some(DisplayListSection::BackgroundAndBorders),
        );
        let ghost snap_a = list@;
        let ghost seg_a = itemsv.subrange(0, na);

        // Step 3: children with negative z-index.
        let ghost mut kc: int = 0;
        proof {
            assert(list@.skip(snap_a.len() as int) =~= Seq::<DisplayItem>::empty());
            assert(builds_kids(kidsv, 0, 0, pool1, Seq::<DisplayItem>::empty(), pool1));
        }
        loop
            invariant
                0 <= kc <= kidsv.len(),
                ctx0 == stacking_context,
                kids@ == kidsv.skip(kc),
                kidsv == stable_sorted_ctx(ctx0.children@),
                forall|j: int| 0 <= j < kc ==> (#[trigger] kidsv[j]).z_index < 0,
                snap_a.len() <= list@.len(),
                list@.subrange(0, snap_a.len() as int) == snap_a,
                builds_kids(kidsv, 0, kc, pool1, list@.skip(snap_a.len() as int), pool_view(
                    *pool,
                )),
            ensures
                kc == kidsv.len() || kidsv[kc].z_index >= 0,
            decreases kids@.len(),
        {
            if kids.len() == 0 {
                break ;
            }
            proof {
                assert(kidsv.skip(kc)[0] == kidsv[kc]);
            }
            if !(kids[0].z_index < 0) {
                break ;
            }
            let k = kids.remove(0);
            proof {
                assert(k == kidsv[kc]);
                assert(kids@ =~= kidsv.skip(kc + 1));
                lemma_seq_size_elem(kidsv, kc);
                lemma_sorted_kids_lt(ctx0);
            }
            let ghost pool_pre = pool_view(*pool);
            let ghost len_pre = list@.len();
            let ghost seg_pre = list@.skip(snap_a.len() as int);
            DisplayList::generate_display_list(list, pool, k);
            proof {
                let seg_new = list@.skip(len_pre as int);
                lemma_builds_kids_snoc(kidsv, 0, kc, pool1, seg_pre, pool_pre, seg_new, pool_view(
                    *pool,
                ));
                assert(list@.skip(snap_a.len() as int) =~= seg_pre + seg_new);
                assert(list@.subrange(0, snap_a.len() as int) =~= snap_a);
                kc = kc + 1;
            }
        }
        proof {
            lemma_neg_z_end_char(kidsv, 0, kc);
        }
        let ghost k0 = kc;
        let ghost s1 = list@.skip(snap_a.len() as int);
        let ghost p2v = pool_view(*pool);
        let ghost snap_1 = list@;

        // Step 4: block backgrounds and borders.
        let Ghost(nb) = emit_section_run(
            list,
            &mut items,
            Some(DisplayListSection::BlockBackgroundsAndBorders),
        );
        let ghost snap_b = list@;
        let ghost seg_b = itemsv.subrange(na, na + nb);
        proof {
            lemma_sec_run_in_range(itemsv, Some(DisplayListSection::BackgroundAndBorders));
            lemma_sec_run_in_range(
                itemsv.skip(na),
                Some(DisplayListSection::BlockBackgroundsAndBorders),
            );
            assert(itemsv.skip(na).subrange(0, nb) =~= seg_b);
            assert(itemsv.skip(na).skip(nb) =~= itemsv.skip(na + nb));
        }

        // Step 5: floats.
        proof {
            assert(list@.skip(snap_b.len() as int) =~= Seq::<DisplayItem>::empty());
            assert(builds_kids(kidsv, k0, k0, p2v, Seq::<DisplayItem>::empty(), p2v));
        }
        loop
            invariant
                k0 <= kc <= kidsv.len(),
                0 <= k0,
                ctx0 == stacking_context,
                kids@ == kidsv.skip(kc),
                kidsv == stable_sorted_ctx(ctx0.children@),
                forall|j: int|
                    k0 <= j < kc ==> (#[trigger] kidsv[j]).context_type
                        == StackingContextType::PseudoFloat,
                snap_b.len() <= list@.len(),
                list@.subrange(0, snap_b.len() as int) == snap_b,
                builds_kids(kidsv, k0, kc, p2v, list@.skip(snap_b.len() as int), pool_view(
                    *pool,
                )),
            ensures
                kc == kidsv.len() || kidsv[kc].context_type != StackingContextType::PseudoFloat,
            decreases kids@.len(),
        {
            if kids.len() == 0 {
                break ;
            }
            proof {
                assert(kidsv.skip(kc)[0] == kidsv[kc]);
            }
            if !(kids[0].context_type == StackingContextType::PseudoFloat) {
                break ;
            }
            let k = kids.remove(0);
            proof {
                assert(k == kidsv[kc]);
                assert(kids@ =~= kidsv.skip(kc + 1));
                lemma_seq_size_elem(kidsv, kc);
                lemma_sorted_kids_lt(ctx0);
            }
            let ghost pool_pre = pool_view(*pool);
            let ghost len_pre = list@.len();
            let ghost seg_pre = list@.skip(snap_b.len() as int);
            DisplayList::generate_display_list(list, pool, k);
            proof {
                let seg_new = list@.skip(len_pre as int);
                lemma_builds_kids_snoc(kidsv, k0, kc, p2v, seg_pre, pool_pre, seg_new, pool_view(
                    *pool,
                ));
                assert(list@.skip(snap_b.len() as int) =~= seg_pre + seg_new);
                assert(list@.subrange(0, snap_b.len() as int) =~= snap_b);
                kc = kc + 1;
            }
        }
        proof {
            lemma_float_end_char(kidsv, k0, kc);
        }
        let ghost k1 = kc;
        let ghost s2 = list@.skip(snap_b.len() as int);
        let ghost p3v = pool_view(*pool);
        let ghost snap_2 = list@;

        // Steps 6 and 7: content.
        let Ghost(nc) = emit_section_run(list, &mut items, Some(DisplayListSection::Content));
        let ghost snap_c = list@;
        let ghost seg_c = itemsv.subrange(na + nb, na + nb + nc);
        proof {
            lemma_sec_run_in_range(itemsv.skip(na + nb), Some(DisplayListSection::Content));
            assert(itemsv.skip(na + nb).subrange(0, nc) =~= seg_c);
            assert(itemsv.skip(na + nb).skip(nc) =~= itemsv.skip(na + nb + nc));
        }

        // Steps 8 and 9: the remaining children.
        proof {
            assert(list@.skip(snap_c.len() as int) =~= Seq::<DisplayItem>::empty());
            assert(builds_kids(kidsv, k1, k1, p3v, Seq::<DisplayItem>::empty(), p3v));
        }
        loop
            invariant
                k1 <= kc <= kidsv.len(),
                0 <= k1,
                ctx0 == stacking_context,
                kids@ == kidsv.skip(kc),
                kidsv == stable_sorted_ctx(ctx0.children@),
                snap_c.len() <= list@.len(),
                list@.subrange(0, snap_c.len() as int) == snap_c,
                builds_kids(kidsv, k1, kc, p3v, list@.skip(snap_c.len() as int), pool_view(
                    *pool,
                )),
            ensures
                kc == kidsv.len(),
            decreases kids@.len(),
        {
            if kids.len() == 0 {
                break ;
            }
            let k = kids.remove(0);
            proof {
                assert(k == kidsv[kc]);
                assert(kids@ =~= kidsv.skip(kc + 1));
                lemma_seq_size_elem(kidsv, kc);
                lemma_sorted_kids_lt(ctx0);
            }
            let ghost pool_pre = pool_view(*pool);
            let ghost len_pre = list@.len();
            let ghost seg_pre = list@.skip(snap_c.len() as int);
            DisplayList::generate_display_list(list, pool, k);
            proof {
                let seg_new = list@.skip(len_pre as int);
                lemma_builds_kids_snoc(kidsv, k1, kc, p3v, seg_pre, pool_pre, seg_new, pool_view(
                    *pool,
                ));
                assert(list@.skip(snap_c.len() as int) =~= seg_pre + seg_new);
                assert(list@.subrange(0, snap_c.len() as int) =~= snap_c);
                kc = kc + 1;
            }
        }
        proof {
            assert(kc == kidsv.len());
        }
        let ghost s3 = list@.skip(snap_c.len() as int);
        let ghost p4v = pool_view(*pool);
        let ghost snap_3 = list@;

        // Step 10: outlines.
        let Ghost(nd) = emit_section_run(list, &mut items, None);
        let ghost snap_d = list@;
        let ghost seg_d = itemsv.subrange(na + nb + nc, itemsv.len() as int);
        proof {
            lemma_sec_run_in_range(itemsv.skip(na + nb + nc), None);
            lemma_sec_run_members(itemsv.skip(na + nb + nc), None);
            assert(nd == itemsv.skip(na + nb + nc).len());
            assert(itemsv.skip(na + nb + nc).subrange(0, nd) =~= seg_d);
        }

        if is_real {
            list.push(
                DisplayItem::PopStackingContext(
                    Box::new(
                        PopStackingContextItem {
                            base: BaseDisplayItem::empty(),
                            stacking_context_id: id,
                        },
                    ),
                ),
            );
            proof {
                assert(is_pop_marker_for(list@.last(), ctx0.id));
            }
        }

        proof {
            let items2 = stable_sorted_items(pool_bucket(pool0, ctx0.id));
            let j0 = rank_prefix_end(items2, 0);
            let j1 = rank_prefix_end(items2, 1);
            let j2 = rank_prefix_end(items2, 2);
            lemma_phase_boundaries(itemsv, na, nb, nc);
            assert(j0 == na && j1 == na + nb && j2 == na + nb + nc);
            let body = items2.subrange(0, j0) + s1 + items2.subrange(j0, j1) + s2
                + items2.subrange(j1, j2) + s3 + items2.subrange(j2, items2.len() as int);
            let delta = list@.skip(list0.len() as int);
            if is_real {
                assert(snap_push.len() == list0.len() + 1 && snap_push.subrange(
                    0,
                    list0.len() as int,
                ) =~= list0);
                assert(list@.len() == snap_d.len() + 1 && list@.subrange(
                    0,
                    snap_d.len() as int,
                ) =~= snap_d);
            }
            assert(snap_1 =~= snap_a + s1);
            assert(snap_2 =~= snap_b + s2);
            assert(snap_3 =~= snap_c + s3);
            lemma_delta_shape(
                list0,
                snap_push,
                snap_a,
                snap_1,
                snap_b,
                snap_2,
                snap_c,
                snap_3,
                snap_d,
                list@,
                seg_a,
                s1,
                seg_b,
                s2,
                seg_c,
                s3,
                seg_d,
                is_real,
            );
            assert(seg_a == items2.subrange(0, j0));
            assert(seg_b == items2.subrange(j0, j1));
            assert(seg_c == items2.subrange(j1, j2));
            assert(seg_d == items2.subrange(j2, items2.len() as int));
            assert(builds_parts(ctx0, pool0, delta, p4v, s1, p2v, s2, p3v, s3));
            assert(parts_witness(s1, p2v, s2, p3v, s3));
            assert(builds(ctx0, pool0, delta, p4v));
        }
    }
}


/// Stitches the phase snapshots together: the items appended after the
/// entry prefix are the optional push marker, the seven body segments in
/// order, and the optional pop marker.
#[verifier::rlimit(50)]
proof fn lemma_delta_shape(
    list0: Seq<DisplayItem>,
    snap_push: Seq<DisplayItem>,
    snap_a: Seq<DisplayItem>,
    snap_1: Seq<DisplayItem>,
    snap_b: Seq<DisplayItem>,
    snap_2: Seq<DisplayItem>,
    snap_c: Seq<DisplayItem>,
    snap_3: Seq<DisplayItem>,
    snap_d: Seq<DisplayItem>,
    lfinal: Seq<DisplayItem>,
    seg_a: Seq<DisplayItem>,
    s1: Seq<DisplayItem>,
    seg_b: Seq<DisplayItem>,
    s2: Seq<DisplayItem>,
    seg_c: Seq<DisplayItem>,
    s3: Seq<DisplayItem>,
    seg_d: Seq<DisplayItem>,
    is_real: bool,
)
    requires
        snap_a == snap_push + seg_a,
        snap_1 == snap_a + s1,
        snap_b == snap_1 + seg_b,
        snap_2 == snap_b + s2,
        snap_c == snap_2 + seg_c,
        snap_3 == snap_c + s3,
        snap_d == snap_3 + seg_d,
        is_real ==> snap_push.len() == list0.len() + 1 && snap_push.subrange(
            0,
            list0.len() as int,
        ) == list0 && lfinal.len() == snap_d.len() + 1 && lfinal.subrange(
            0,
            snap_d.len() as int,
        ) == snap_d,
        !is_real ==> snap_push == list0 && lfinal == snap_d,
    ensures
        lfinal.len() >= list0.len(),
        lfinal.subrange(0, list0.len() as int) == list0,
        ({
            let body = seg_a + s1 + seg_b + s2 + seg_c + s3 + seg_d;
            let delta = lfinal.skip(list0.len() as int);
            if is_real {
                &&& delta.len() == body.len() + 2
                &&& delta[0] == snap_push.last()
                &&& delta.subrange(1, delta.len() - 1) == body
                &&& delta[delta.len() - 1] == lfinal.last()
            } else {
                delta == body
            }
        }),
{
    let body = seg_a + s1 + seg_b + s2 + seg_c + s3 + seg_d;
    let delta = lfinal.skip(list0.len() as int);
    if is_real {
        assert(snap_push =~= list0 + seq![snap_push.last()]);
        assert(lfinal =~= snap_d + seq![lfinal.last()]);
        assert(snap_d =~= snap_push + body);
        assert(lfinal =~= list0 + (seq![snap_push.last()] + body + seq![lfinal.last()]));
        assert(delta =~= seq![snap_push.last()] + body + seq![lfinal.last()]);
        assert(delta.subrange(1, delta.len() - 1) =~= body);
        assert(lfinal.subrange(0, list0.len() as int) =~= list0);
    } else {
        assert(snap_d =~= list0 + body);
        assert(delta =~= body);
        assert(lfinal.subrange(0, list0.len() as int) =~= list0);
    }
}

/// After the three conditional item phases the consumed counts land on the
/// rank boundaries of the sorted bucket.
proof fn lemma_phase_boundaries(itemsv: Seq<DisplayItem>, na: int, nb: int, nc: int)
    requires
        items_sorted(itemsv),
        na == sec_run_end(itemsv, Some(DisplayListSection::BackgroundAndBorders)),
        nb == sec_run_end(itemsv.skip(na), Some(DisplayListSection::BlockBackgroundsAndBorders)),
        nc == sec_run_end(itemsv.skip(na + nb), Some(DisplayListSection::Content)),
    ensures
        rank_prefix_end(itemsv, 0) == na,
        rank_prefix_end(itemsv, 1) == na + nb,
        rank_prefix_end(itemsv, 2) == na + nb + nc,
        0 <= na,
        na + nb + nc <= itemsv.len(),
{
    lemma_sec_run_in_range(itemsv, Some(DisplayListSection::BackgroundAndBorders));
    lemma_sec_run_in_range(itemsv.skip(na), Some(DisplayListSection::BlockBackgroundsAndBorders));
    lemma_sec_run_in_range(itemsv.skip(na + nb), Some(DisplayListSection::Content));
    lemma_sec_run_members(itemsv, Some(DisplayListSection::BackgroundAndBorders));
    lemma_sec_run_members(itemsv.skip(na), Some(DisplayListSection::BlockBackgroundsAndBorders));
    lemma_sec_run_members(itemsv.skip(na + nb), Some(DisplayListSection::Content));
    assert forall|j: int| 0 <= j < na implies (#[trigger] itemsv[j]).base_spec(
    ).section.rank_spec() <= 0 by {
        assert(itemsv[j].base_spec().section == DisplayListSection::BackgroundAndBorders);
    }
    if na < itemsv.len() {
        assert(itemsv[na].base_spec().section != DisplayListSection::BackgroundAndBorders);
        assert(itemsv.skip(na)[0] == itemsv[na]);
    }
    lemma_rank_prefix_end_char(itemsv, 0, na);
    assert forall|j: int| 0 <= j < na + nb implies (#[trigger] itemsv[j]).base_spec(
    ).section.rank_spec() <= 1 by {
        if j >= na {
            assert(itemsv.skip(na)[j - na] == itemsv[j]);
        }
    }
    if na + nb < itemsv.len() {
        assert(itemsv.skip(na)[nb] == itemsv[na + nb]);
        assert(itemsv[na + nb].base_spec().section != DisplayListSection::BlockBackgroundsAndBorders);
        if nb > 0 {
            assert(itemsv.skip(na)[nb - 1] == itemsv[na + nb - 1]);
            assert(itemsv[na + nb - 1].base_spec().section
                == DisplayListSection::BlockBackgroundsAndBorders);
            assert(crate::sort::item_le(itemsv[na + nb - 1], itemsv[na + nb]));
        } else {
            if na > 0 {
            }
            assert(itemsv[na + nb].base_spec().section.rank_spec() >= 1);
        }
        assert(itemsv[na + nb].base_spec().section.rank_spec() > 1);
    }
    lemma_rank_prefix_end_char(itemsv, 1, na + nb);
    assert forall|j: int| 0 <= j < na + nb + nc implies (#[trigger] itemsv[j]).base_spec(
    ).section.rank_spec() <= 2 by {
        if j >= na + nb {
            assert(itemsv.skip(na + nb)[j - na - nb] == itemsv[j]);
        }
    }
    if na + nb + nc < itemsv.len() {
        assert(itemsv.skip(na + nb)[nc] == itemsv[na + nb + nc]);
        assert(itemsv[na + nb + nc].base_spec().section != DisplayListSection::Content);
        if nc > 0 {
            assert(itemsv.skip(na + nb)[nc - 1] == itemsv[na + nb + nc - 1]);
            assert(crate::sort::item_le(itemsv[na + nb + nc - 1], itemsv[na + nb + nc]));
        } else {
            assert(itemsv[na + nb + nc].base_spec().section.rank_spec() >= 2);
        }
        assert(itemsv[na + nb + nc].base_spec().section.rank_spec() > 2);
    }
    lemma_rank_prefix_end_char(itemsv, 2, na + nb + nc);
}

proof fn lemma_sec_run_in_range(s: Seq<DisplayItem>, sec: Option<DisplayListSection>)
    ensures
        0 <= sec_run_end(s, sec) <= s.len(),
    decreases s.len(),
{
    if s.len() > 0 && (sec is None || s[0].base_spec().section == sec->0) {
        lemma_sec_run_in_range(s.drop_first(), sec);
    }
}

/// Every item inside the run carries the section; the item just past it
/// does not.
proof fn lemma_sec_run_members(s: Seq<DisplayItem>, sec: Option<DisplayListSection>)
    ensures
        forall|j: int|
            0 <= j < sec_run_end(s, sec) ==> sec is None || (#[trigger] s[j]).base_spec().section
                == sec->0,
        sec_run_end(s, sec) < s.len() ==> !(sec is None || s[sec_run_end(s, sec)].base_spec(
        ).section == sec->0),
    decreases s.len(),
{
    lemma_sec_run_in_range(s, sec);
    if s.len() > 0 && (sec is None || s[0].base_spec().section == sec->0) {
        lemma_sec_run_members(s.drop_first(), sec);
        lemma_sec_run_in_range(s.drop_first(), sec);
        let e = sec_run_end(s, sec);
        assert forall|j: int|
            0 <= j < e implies sec is None || (#[trigger] s[j]).base_spec().section == sec->0 by {
            if j > 0 {
                assert(s.drop_first()[j - 1] == s[j]);
            }
        }
        if e < s.len() {
            assert(s.drop_first()[e - 1] == s[e]);
        }
    }
}

} // verus!
