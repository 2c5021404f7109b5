//! The laws assembly guarantees, proved against the flattening relation
//! [`crate::list::builds`] and the stable sorts: bracket balance of the
//! output, sortedness of the emitted buckets and children, and the
//! preservation of input order among ties.

use vstd::prelude::*;
use vstd::multiset::Multiset;
use vstd::seq_lib::lemma_multiset_commutative;
use crate::ids::StackingContextId;
use crate::item::{DisplayItem, DisplayListSection};
use crate::list::{
    builds, builds_kids, builds_parts, parts_witness, pool_bucket, pool_without, seg_witness,
    PoolS,
};
use crate::sort::{
    item_le, sorted_insert_ctx, sorted_insert_item, stable_sorted_ctx, stable_sorted_items,
};
use crate::stacking::{paint_order_le, StackingContext, StackingContextType};

verus! {

/// Runs the bracket discipline over a list: push markers push their id,
/// a pop marker must match the innermost open id, other items change
/// nothing; the result is the final stack of open ids, or `None` on a
/// mismatched pop.
pub open spec fn bracket_run(
    s: Seq<DisplayItem>,
    stack: Seq<StackingContextId>,
) -> Option<Seq<StackingContextId>>
    decreases s.len(),
{
    if s.len() == 0 {
        Some(stack)
    } else {
        match s[0] {
            DisplayItem::PushStackingContext(p) => bracket_run(
                s.drop_first(),
                stack.push(p.stacking_context.id),
            ),
            DisplayItem::PopStackingContext(p) => {
                if stack.len() > 0 && stack.last() == p.stacking_context_id {
                    bracket_run(s.drop_first(), stack.drop_last())
                } else {
                    None
                }
            },
            _ => bracket_run(s.drop_first(), stack),
        }
    }
}

/// Brackets balance: every push is closed by exactly the matching pop,
/// with no interleaved mismatches.
pub open spec fn balanced(s: Seq<DisplayItem>) -> bool {
    bracket_run(s, Seq::empty()) == Some(Seq::<StackingContextId>::empty())
}

proof fn lemma_bracket_run_concat(
    a: Seq<DisplayItem>,
    b: Seq<DisplayItem>,
    stack: Seq<StackingContextId>,
)
    ensures
        bracket_run(a + b, stack) == match bracket_run(a, stack) {
            Some(st) => bracket_run(b, st),
            None => None,
        },
    decreases a.len(),
{
    if a.len() == 0 {
        assert(a + b =~= b);
    } else {
        assert((a + b).drop_first() =~= a.drop_first() + b);
        assert((a + b)[0] == a[0]);
        match a[0] {
            DisplayItem::PushStackingContext(p) => {
                lemma_bracket_run_concat(a.drop_first(), b, stack.push(p.stacking_context.id));
            },
            DisplayItem::PopStackingContext(p) => {
                if stack.len() > 0 && stack.last() == p.stacking_context_id {
                    lemma_bracket_run_concat(a.drop_first(), b, stack.drop_last());
                }
            },
            _ => {
                lemma_bracket_run_concat(a.drop_first(), b, stack);
            },
        }
    }
}

/// A balanced segment leaves any surrounding stack exactly as it was.
proof fn lemma_bracket_run_frame(m: Seq<DisplayItem>, st0: Seq<StackingContextId>, st1: Seq<
    StackingContextId,
>, st2: Seq<StackingContextId>)
    requires
        bracket_run(m, st1) == Some(st2),
    ensures
        bracket_run(m, st0 + st1) == Some(st0 + st2),
    decreases m.len(),
{
    if m.len() == 0 {
    } else {
        match m[0] {
            DisplayItem::PushStackingContext(p) => {
                assert((st0 + st1).push(p.stacking_context.id) =~= st0 + st1.push(
                    p.stacking_context.id,
                ));
                lemma_bracket_run_frame(
                    m.drop_first(),
                    st0,
                    st1.push(p.stacking_context.id),
                    st2,
                );
            },
            DisplayItem::PopStackingContext(p) => {
                assert(st1.len() > 0 && st1.last() == p.stacking_context_id);
                assert((st0 + st1).last() == st1.last());
                assert((st0 + st1).drop_last() =~= st0 + st1.drop_last());
                lemma_bracket_run_frame(m.drop_first(), st0, st1.drop_last(), st2);
            },
            _ => {
                lemma_bracket_run_frame(m.drop_first(), st0, st1, st2);
            },
        }
    }
}

/// A sequence with no bracket markers leaves the stack unchanged.
proof fn lemma_bracket_run_plain(s: Seq<DisplayItem>, stack: Seq<StackingContextId>)
    requires
        forall|i: int| 0 <= i < s.len() ==> !(#[trigger] s[i]).is_bracket(),
    ensures
        bracket_run(s, stack) == Some(stack),
    decreases s.len(),
{
    if s.len() > 0 {
        assert(!s[0].is_bracket());
        assert(forall|i: int|
            0 <= i < s.drop_first().len() ==> !(#[trigger] s.drop_first()[i]).is_bracket());
        lemma_bracket_run_plain(s.drop_first(), stack);
    }
}

/// Balanced segments concatenate to a balanced segment.
proof fn lemma_balanced_concat(a: Seq<DisplayItem>, b: Seq<DisplayItem>)
    requires
        balanced(a),
        balanced(b),
    ensures
        balanced(a + b),
{
    lemma_bracket_run_concat(a, b, Seq::empty());
}

/// No entry of the pool holds a bracket marker: layout's items are plain
/// paint commands, the markers are assembly's own.
pub open spec fn pool_plain(pool: PoolS) -> bool {
    forall|j: int, i: int| #![trigger pool[j].1[i]]
        0 <= j < pool.len() && 0 <= i < pool[j].1.len() ==> !pool[j].1[i].is_bracket()
}

proof fn lemma_pool_without_plain(pool: PoolS, id: StackingContextId)
    requires
        pool_plain(pool),
    ensures
        pool_plain(pool_without(pool, id)),
{
    let out = pool_without(pool, id);
    let j0 = crate::list::pool_find(pool, id, 0);
    crate::list::lemma_pool_find_range(pool, id, 0);
    assert forall|j: int, i: int| #![trigger out[j].1[i]]
        0 <= j < out.len() && 0 <= i < out[j].1.len() implies !out[j].1[i].is_bracket() by {
        if j0 < pool.len() {
            assert(out =~= pool.subrange(0, j0) + pool.subrange(j0 + 1, pool.len() as int));
            if j < j0 {
                assert(out[j] == pool[j]);
                assert(!pool[j].1[i].is_bracket());
            } else {
                assert(out[j] == pool[j + 1]);
                assert(!pool[j + 1].1[i].is_bracket());
            }
        } else {
            assert(!pool[j].1[i].is_bracket());
        }
    }
}

/// An element of an insertion result is the inserted one or one of the
/// originals.
proof fn lemma_insert_item_origin_or(s: Seq<DisplayItem>, x: DisplayItem, k: int)
    requires
        0 <= k < sorted_insert_item(s, x).len(),
    ensures
        sorted_insert_item(s, x)[k] == x || s.contains(sorted_insert_item(s, x)[k]),
    decreases s.len(),
{
    let out = sorted_insert_item(s, x);
    if s.len() == 0 {
        assert(out =~= seq![x]);
    } else if item_le(s[0], x) {
        let rest = sorted_insert_item(s.drop_first(), x);
        assert(out =~= seq![s[0]] + rest);
        if k == 0 {
            assert(s.contains(s[0])) by {
                assert(s[0] == s[0]);
            }
        } else {
            lemma_insert_item_origin_or(s.drop_first(), x, k - 1);
            if rest[k - 1] == x {
            } else {
                let j = choose|j: int|
                    0 <= j < s.drop_first().len() && s.drop_first()[j] == rest[k - 1];
                assert(s[j + 1] == rest[k - 1]);
            }
        }
    } else {
        assert(out =~= seq![x] + s);
        if k > 0 {
            assert(s[k - 1] == out[k]);
        }
    }
}

/// An element of the sorted bucket is an element of the bucket.
proof fn lemma_sorted_items_origin(s: Seq<DisplayItem>, k: int)
    requires
        0 <= k < stable_sorted_items(s).len(),
    ensures
        s.contains(stable_sorted_items(s)[k]),
    decreases s.len(),
{
    let out = stable_sorted_items(s);
    if s.len() > 0 {
        let prev = stable_sorted_items(s.drop_last());
        lemma_insert_item_origin_or(prev, s.last(), k);
        if out[k] == s.last() {
            assert(s[s.len() - 1] == s.last());
        } else {
            let j = choose|j: int| 0 <= j < prev.len() && prev[j] == out[k];
            lemma_sorted_items_origin(s.drop_last(), j);
            let j2 = choose|j2: int| 0 <= j2 < s.drop_last().len() && s.drop_last()[j2] == out[k];
            assert(s[j2] == out[k]);
        }
    }
}

/// The sorted bucket of a plain pool holds no bracket markers.
proof fn lemma_sorted_bucket_plain(pool: PoolS, id: StackingContextId)
    requires
        pool_plain(pool),
    ensures
        forall|i: int|
            0 <= i < stable_sorted_items(pool_bucket(pool, id)).len() ==> !(
            #[trigger] stable_sorted_items(pool_bucket(pool, id))[i]).is_bracket(),
{
    let bucket = pool_bucket(pool, id);
    let sorted = stable_sorted_items(bucket);
    let j0 = crate::list::pool_find(pool, id, 0);
    crate::list::lemma_pool_find_range(pool, id, 0);
    assert forall|i: int| 0 <= i < sorted.len() implies !(#[trigger] sorted[i]).is_bracket() by {
        lemma_sorted_items_origin(bucket, i);
        assert(bucket.contains(sorted[i]));
        let j = choose|j: int| 0 <= j < bucket.len() && bucket[j] == sorted[i];
        if j0 < pool.len() {
            assert(bucket == pool[j0].1);
            assert(0 <= j < pool[j0].1.len());
            assert(!pool[j0].1[j].is_bracket());
        }
    }
}

/// Law: assembly emits balanced brackets. Whatever tree and (plain) item
/// pool were flattened, every push marker in the output is closed by
/// exactly its matching pop marker, properly nested.
pub proof fn law_brackets_balanced(
    ctx: StackingContext,
    pool: PoolS,
    out: Seq<DisplayItem>,
    pool_out: PoolS,
)
    requires
        builds(ctx, pool, out, pool_out),
        pool_plain(pool),
    ensures
        balanced(out),
    decreases crate::list::ctx_size(ctx), 1int, 0int,
{
    let (s1, p2, s2, p3, s3) = choose|
        s1: Seq<DisplayItem>,
        p2: PoolS,
        s2: Seq<DisplayItem>,
        p3: PoolS,
        s3: Seq<DisplayItem>,
    |
        #[trigger] parts_witness(s1, p2, s2, p3, s3) && builds_parts(
            ctx,
            pool,
            out,
            pool_out,
            s1,
            p2,
            s2,
            p3,
            s3,
        );
    let kids = stable_sorted_ctx(ctx.children@);
    let pool1 = pool_without(pool, ctx.id);
    let items = stable_sorted_items(pool_bucket(pool, ctx.id));
    let j0 = crate::list::rank_prefix_end(items, 0);
    let j1 = crate::list::rank_prefix_end(items, 1);
    let j2 = crate::list::rank_prefix_end(items, 2);
    let k0 = crate::list::neg_z_end(kids, 0);
    let k1 = crate::list::float_end(kids, k0);
    let body = items.subrange(0, j0) + s1 + items.subrange(j0, j1) + s2 + items.subrange(j1, j2)
        + s3 + items.subrange(j2, items.len() as int);
    lemma_pool_without_plain(pool, ctx.id);
    lemma_sorted_bucket_plain(pool, ctx.id);
    crate::list::lemma_rank_prefix_end_range(items, 0);
    crate::list::lemma_rank_prefix_end_range(items, 2);
    crate::list::lemma_rank_prefix_end_mono(items, 0, 1);
    crate::list::lemma_rank_prefix_end_mono(items, 1, 2);
    crate::list::lemma_neg_z_end_range(kids, 0);
    crate::list::lemma_float_end_range(kids, k0);
    proof_kids_balanced(ctx, kids, 0, k0, pool1, s1, p2);
    proof_kids_balanced(ctx, kids, k0, k1, p2, s2, p3);
    proof_kids_balanced(ctx, kids, k1, kids.len() as int, p3, s3, pool_out);
    assert(balanced(items.subrange(0, j0))) by {
        lemma_subrange_plain_balanced(items, 0, j0);
    }
    assert(balanced(items.subrange(j0, j1))) by {
        lemma_subrange_plain_balanced(items, j0, j1);
    }
    assert(balanced(items.subrange(j1, j2))) by {
        lemma_subrange_plain_balanced(items, j1, j2);
    }
    assert(balanced(items.subrange(j2, items.len() as int))) by {
        lemma_subrange_plain_balanced(items, j2, items.len() as int);
    }
    lemma_balanced_concat(items.subrange(0, j0), s1);
    lemma_balanced_concat(items.subrange(0, j0) + s1, items.subrange(j0, j1));
    lemma_balanced_concat(items.subrange(0, j0) + s1 + items.subrange(j0, j1), s2);
    lemma_balanced_concat(
        items.subrange(0, j0) + s1 + items.subrange(j0, j1) + s2,
        items.subrange(j1, j2),
    );
    lemma_balanced_concat(
        items.subrange(0, j0) + s1 + items.subrange(j0, j1) + s2 + items.subrange(j1, j2),
        s3,
    );
    lemma_balanced_concat(
        items.subrange(0, j0) + s1 + items.subrange(j0, j1) + s2 + items.subrange(j1, j2) + s3,
        items.subrange(j2, items.len() as int),
    );
    assert(balanced(body));
    if ctx.context_type == StackingContextType::Real {
        let inner = out.subrange(1, out.len() - 1);
        assert(inner == body);
        let id = match out[0] {
            DisplayItem::PushStackingContext(p) => p.stacking_context.id,
            _ => ctx.id,
        };
        assert(id == ctx.id);
        assert(out =~= seq![out[0]] + body + seq![out[out.len() - 1]]);
        let st1 = Seq::<StackingContextId>::empty().push(ctx.id);
        assert(bracket_run(seq![out[0]], Seq::empty()) == Some(st1)) by {
            let m = seq![out[0]];
            assert(m[0] == out[0]);
            assert(m.drop_first() =~= Seq::<DisplayItem>::empty());
            assert(bracket_run(Seq::<DisplayItem>::empty(), st1) == Some(st1));
            match out[0] {
                DisplayItem::PushStackingContext(p) => {
                    assert(p.stacking_context.id == ctx.id);
                    assert(Seq::<StackingContextId>::empty().push(p.stacking_context.id)
                        =~= st1);
                },
                _ => {
                    assert(false);
                },
            }
        }
        lemma_bracket_run_frame(body, st1, Seq::empty(), Seq::empty());
        assert(st1 + Seq::<StackingContextId>::empty() =~= st1);
        assert(bracket_run(body, st1) == Some(st1));
        assert(bracket_run(seq![out[out.len() - 1]], st1) == Some(
            Seq::<StackingContextId>::empty(),
        )) by {
            let m = seq![out[out.len() - 1]];
            assert(m[0] == out[out.len() - 1]);
            assert(m.drop_first() =~= Seq::<DisplayItem>::empty());
            assert(st1.len() == 1 && st1.last() == ctx.id);
            assert(st1.drop_last() =~= Seq::<StackingContextId>::empty());
            assert(bracket_run(
                Seq::<DisplayItem>::empty(),
                Seq::<StackingContextId>::empty(),
            ) == Some(Seq::<StackingContextId>::empty()));
            match out[out.len() - 1] {
                DisplayItem::PopStackingContext(p) => {
                    assert(p.stacking_context_id == ctx.id);
                },
                _ => {
                    assert(false);
                },
            }
        }
        lemma_bracket_run_concat(seq![out[0]], body + seq![out[out.len() - 1]], Seq::empty());
        lemma_bracket_run_concat(body, seq![out[out.len() - 1]], st1);
        assert(seq![out[0]] + (body + seq![out[out.len() - 1]]) =~= out);
        assert(balanced(out));
    } else {
        assert(out == body);
    }
}

/// A run of flattened siblings is balanced.
proof fn proof_kids_balanced(
    parent: StackingContext,
    kids: Seq<StackingContext>,
    lo: int,
    hi: int,
    pool: PoolS,
    out: Seq<DisplayItem>,
    pool_out: PoolS,
)
    requires
        builds_kids(kids, lo, hi, pool, out, pool_out),
        pool_plain(pool),
        kids == stable_sorted_ctx(parent.children@),
        0 <= lo,
        hi <= kids.len(),
    ensures
        balanced(out),
        pool_plain(pool_out),
    decreases crate::list::ctx_size(parent), 0int, hi - lo + 1,
{
    if !(0 <= lo <= hi <= kids.len()) || lo == hi {
        assert(out == Seq::<DisplayItem>::empty());
        assert(balanced(out));
    } else {
        let (s1, p1, s2) = choose|s1: Seq<DisplayItem>, p1: PoolS, s2: Seq<DisplayItem>|
            #[trigger] seg_witness(s1, p1, s2) && builds(kids[lo], pool, s1, p1) && builds_kids(
                kids,
                lo + 1,
                hi,
                p1,
                s2,
                pool_out,
            ) && out == s1 + s2;
        proof_child_balanced(parent, kids, lo, pool, s1, p1);
        proof_kids_balanced(parent, kids, lo + 1, hi, p1, s2, pool_out);
        lemma_balanced_concat(s1, s2);
    }
}

/// One flattened child is balanced; stepping stone that converts the
/// permuted child back to a structural subterm for the termination
/// measure.
proof fn proof_child_balanced(
    parent: StackingContext,
    kids: Seq<StackingContext>,
    lo: int,
    pool: PoolS,
    out: Seq<DisplayItem>,
    pool_out: PoolS,
)
    requires
        builds(kids[lo], pool, out, pool_out),
        pool_plain(pool),
        kids == stable_sorted_ctx(parent.children@),
        0 <= lo < kids.len(),
    ensures
        balanced(out),
        pool_plain(pool_out),
    decreases crate::list::ctx_size(parent), 0int, 0int,
{
    crate::list::lemma_kid_size_lt(parent, kids, lo);
    law_brackets_balanced(kids[lo], pool, out, pool_out);
    proof_builds_pool_plain(kids[lo], pool, out, pool_out);
}

/// Flattening only removes buckets, so a plain pool stays plain.
proof fn proof_builds_pool_plain(
    ctx: StackingContext,
    pool: PoolS,
    out: Seq<DisplayItem>,
    pool_out: PoolS,
)
    requires
        builds(ctx, pool, out, pool_out),
        pool_plain(pool),
    ensures
        pool_plain(pool_out),
    decreases crate::list::ctx_size(ctx), 3int, 0int,
{
    let (s1, p2, s2, p3, s3) = choose|
        s1: Seq<DisplayItem>,
        p2: PoolS,
        s2: Seq<DisplayItem>,
        p3: PoolS,
        s3: Seq<DisplayItem>,
    |
        #[trigger] parts_witness(s1, p2, s2, p3, s3) && builds_parts(
            ctx,
            pool,
            out,
            pool_out,
            s1,
            p2,
            s2,
            p3,
            s3,
        );
    let kids = stable_sorted_ctx(ctx.children@);
    let pool1 = pool_without(pool, ctx.id);
    let k0 = crate::list::neg_z_end(kids, 0);
    let k1 = crate::list::float_end(kids, k0);
    lemma_pool_without_plain(pool, ctx.id);
    crate::list::lemma_neg_z_end_range(kids, 0);
    crate::list::lemma_float_end_range(kids, k0);
    proof_kids_pool_plain(ctx, kids, 0, k0, pool1, s1, p2);
    proof_kids_pool_plain(ctx, kids, k0, k1, p2, s2, p3);
    proof_kids_pool_plain(ctx, kids, k1, kids.len() as int, p3, s3, pool_out);
}

proof fn proof_kids_pool_plain(
    parent: StackingContext,
    kids: Seq<StackingContext>,
    lo: int,
    hi: int,
    pool: PoolS,
    out: Seq<DisplayItem>,
    pool_out: PoolS,
)
    requires
        builds_kids(kids, lo, hi, pool, out, pool_out),
        pool_plain(pool),
        kids == stable_sorted_ctx(parent.children@),
        0 <= lo,
        hi <= kids.len(),
    ensures
        pool_plain(pool_out),
    decreases crate::list::ctx_size(parent), 2int, hi - lo + 1,
{
    if !(0 <= lo <= hi <= kids.len()) || lo == hi {
    } else {
        let (s1, p1, s2) = choose|s1: Seq<DisplayItem>, p1: PoolS, s2: Seq<DisplayItem>|
            #[trigger] seg_witness(s1, p1, s2) && builds(kids[lo], pool, s1, p1) && builds_kids(
                kids,
                lo + 1,
                hi,
                p1,
                s2,
                pool_out,
            ) && out == s1 + s2;
        crate::list::lemma_kid_size_lt(parent, kids, lo);
        proof_builds_pool_plain(kids[lo], pool, s1, p1);
        proof_kids_pool_plain(parent, kids, lo + 1, hi, p1, s2, pool_out);
    }
}

proof fn lemma_subrange_plain_balanced(items: Seq<DisplayItem>, lo: int, hi: int)
    requires
        forall|i: int| 0 <= i < items.len() ==> !(#[trigger] items[i]).is_bracket(),
        0 <= lo <= hi <= items.len(),
    ensures
        balanced(items.subrange(lo, hi)),
{
    let sub = items.subrange(lo, hi);
    assert(forall|i: int| 0 <= i < sub.len() ==> !(#[trigger] sub[i]).is_bracket());
    lemma_bracket_run_plain(sub, Seq::empty());
}

/// Siblings sorted by paint order: the relation holds pairwise along the
/// sequence.
pub open spec fn ctx_sorted(s: Seq<StackingContext>) -> bool {
    forall|i: int, j: int| 0 <= i <= j < s.len() ==> paint_order_le(#[trigger] s[i], #[trigger] s[j])
}

proof fn lemma_insert_ctx_origin_or(s: Seq<StackingContext>, x: StackingContext, k: int)
    requires
        0 <= k < sorted_insert_ctx(s, x).len(),
    ensures
        sorted_insert_ctx(s, x)[k] == x || s.contains(sorted_insert_ctx(s, x)[k]),
    decreases s.len(),
{
    let out = sorted_insert_ctx(s, x);
    if s.len() == 0 {
        assert(out =~= seq![x]);
    } else if paint_order_le(s[0], x) {
        let rest = sorted_insert_ctx(s.drop_first(), x);
        assert(out =~= seq![s[0]] + rest);
        if k == 0 {
            assert(s.contains(s[0])) by {
                assert(s[0] == s[0]);
            }
        } else {
            lemma_insert_ctx_origin_or(s.drop_first(), x, k - 1);
            if rest[k - 1] == x {
            } else {
                let j = choose|j: int|
                    0 <= j < s.drop_first().len() && s.drop_first()[j] == rest[k - 1];
                assert(s[j + 1] == rest[k - 1]);
            }
        }
    } else {
        assert(out =~= seq![x] + s);
        if k > 0 {
            assert(s[k - 1] == out[k]);
        }
    }
}

proof fn lemma_sorted_insert_ctx_sorted(s: Seq<StackingContext>, x: StackingContext)
    requires
        ctx_sorted(s),
    ensures
        ctx_sorted(sorted_insert_ctx(s, x)),
    decreases s.len(),
{
    let out = sorted_insert_ctx(s, x);
    if s.len() == 0 {
        assert(out =~= seq![x]);
    } else if paint_order_le(s[0], x) {
        assert(ctx_sorted(s.drop_first()));
        lemma_sorted_insert_ctx_sorted(s.drop_first(), x);
        let rest = sorted_insert_ctx(s.drop_first(), x);
        assert(out =~= seq![s[0]] + rest);
        assert forall|i: int, j: int| 0 <= i <= j < out.len() implies paint_order_le(
            #[trigger] out[i],
            #[trigger] out[j],
        ) by {
            if i == 0 && j > 0 {
                lemma_insert_ctx_origin_or(s.drop_first(), x, j - 1);
                assert(out[j] == rest[j - 1]);
                if rest[j - 1] == x {
                } else {
                    let jj = choose|jj: int|
                        0 <= jj < s.drop_first().len() && s.drop_first()[jj] == rest[j - 1];
                    assert(s.drop_first()[jj] == s[jj + 1]);
                    assert(paint_order_le(s[0], s[jj + 1]));
                }
            } else if i > 0 {
                assert(out[i] == rest[i - 1] && out[j] == rest[j - 1]);
            }
        }
    } else {
        assert(out =~= seq![x] + s);
        assert forall|i: int, j: int| 0 <= i <= j < out.len() implies paint_order_le(
            #[trigger] out[i],
            #[trigger] out[j],
        ) by {
            if i == 0 && j > 0 {
                assert(out[j] == s[j - 1]);
                assert(paint_order_le(s[0], s[j - 1]));
            }
        }
    }
}

/// Law: the children of a context are flattened in paint order — after
/// the stable sort, non-zero z-indices ascend, and among z-index zero the
/// pseudo-float contexts come first.
pub proof fn law_children_sorted(s: Seq<StackingContext>)
    ensures
        ctx_sorted(stable_sorted_ctx(s)),
    decreases s.len(),
{
    if s.len() > 0 {
        law_children_sorted(s.drop_last());
        lemma_sorted_insert_ctx_sorted(stable_sorted_ctx(s.drop_last()), s.last());
    }
}

/// Law: a context's bucket is emitted with sections in non-decreasing
/// order.
pub proof fn law_sections_monotone(s: Seq<DisplayItem>)
    ensures
        crate::list::items_sorted(stable_sorted_items(s)),
{
    crate::list::lemma_stable_sorted_items_sorted(s);
}

proof fn lemma_filter_singleton<A>(x: A, pred: spec_fn(A) -> bool)
    ensures
        seq![x].filter(pred) == if pred(x) {
            seq![x]
        } else {
            Seq::<A>::empty()
        },
{
    reveal_with_fuel(Seq::filter, 2);
    assert(seq![x].drop_last() =~= Seq::<A>::empty());
    assert(seq![x].last() == x);
    if pred(x) {
        assert(Seq::<A>::empty().push(x) =~= seq![x]);
    }
}

/// Inserting into a sorted sequence keeps the relative order of the
/// elements a tie-respecting predicate selects: the new element lands
/// behind every selected one.
proof fn lemma_insert_item_filter(
    s: Seq<DisplayItem>,
    x: DisplayItem,
    pred: spec_fn(DisplayItem) -> bool,
)
    requires
        crate::list::items_sorted(s),
        forall|a: DisplayItem, b: DisplayItem|
            pred(a) && pred(b) ==> #[trigger] item_le(a, b),
    ensures
        sorted_insert_item(s, x).filter(pred) == if pred(x) {
            s.filter(pred).push(x)
        } else {
            s.filter(pred)
        },
    decreases s.len(),
{
    broadcast use vstd::seq_lib::group_seq_properties;

    let out = sorted_insert_item(s, x);
    lemma_filter_singleton(x, pred);
    if s.len() == 0 {
        assert(out =~= seq![x]);
        assert(s.filter(pred) =~= Seq::<DisplayItem>::empty());
        if pred(x) {
            assert(Seq::<DisplayItem>::empty().push(x) =~= seq![x]);
        }
    } else if item_le(s[0], x) {
        assert(crate::list::items_sorted(s.drop_first()));
        lemma_insert_item_filter(s.drop_first(), x, pred);
        let rest = sorted_insert_item(s.drop_first(), x);
        assert(out =~= seq![s[0]] + rest);
        Seq::filter_distributes_over_add(seq![s[0]], rest, pred);
        lemma_filter_singleton(s[0], pred);
        assert(s =~= seq![s[0]] + s.drop_first());
        Seq::filter_distributes_over_add(seq![s[0]], s.drop_first(), pred);
        if pred(x) {
            if pred(s[0]) {
                assert(out.filter(pred) =~= (seq![s[0]] + s.drop_first().filter(pred)).push(x));
                assert(s.filter(pred) =~= seq![s[0]] + s.drop_first().filter(pred));
            } else {
                assert(out.filter(pred) =~= s.drop_first().filter(pred).push(x));
                assert(s.filter(pred) =~= s.drop_first().filter(pred));
            }
        } else {
            assert(out.filter(pred) =~= s.filter(pred));
        }
    } else {
        assert(out =~= seq![x] + s);
        Seq::filter_distributes_over_add(seq![x], s, pred);
        if pred(x) {
            // Everything of `s` ranks strictly above `x`, so nothing in it
            // is selected, and appending behind or in front agree.
            assert forall|i: int| 0 <= i < s.len() implies !pred(#[trigger] s[i]) by {
                if pred(s[i]) {
                    assert(item_le(s[i], x));
                    assert(paint_le_rank(s[0], s[i]));
                }
            }
            lemma_filter_none(s, pred);
            assert(out.filter(pred) =~= seq![x]);
            assert(s.filter(pred).push(x) =~= seq![x]);
        } else {
            assert(out.filter(pred) =~= s.filter(pred));
        }
    }
}

/// Helper naming the sortedness instantiation.
spec fn paint_le_rank(a: DisplayItem, b: DisplayItem) -> bool {
    item_le(a, b)
}

proof fn lemma_filter_none<A>(s: Seq<A>, pred: spec_fn(A) -> bool)
    requires
        forall|i: int| 0 <= i < s.len() ==> !pred(#[trigger] s[i]),
    ensures
        s.filter(pred) == Seq::<A>::empty(),
    decreases s.len(),
{
    reveal_with_fuel(Seq::filter, 2);
    if s.len() > 0 {
        assert(forall|i: int|
            0 <= i < s.drop_last().len() ==> !pred(#[trigger] s.drop_last()[i]));
        lemma_filter_none(s.drop_last(), pred);
        assert(!pred(s.last()));
    }
}

/// Law: within one section, the stable sort keeps the input order — the
/// subsequence of a bucket in any fixed section is exactly the same before
/// and after sorting.
pub proof fn law_section_order_preserved(s: Seq<DisplayItem>, sec: DisplayListSection)
    ensures
        stable_sorted_items(s).filter(
            |it: DisplayItem| it.base_spec().section == sec,
        ) == s.filter(|it: DisplayItem| it.base_spec().section == sec),
    decreases s.len(),
{
    let pred = |it: DisplayItem| it.base_spec().section == sec;
    reveal_with_fuel(Seq::filter, 2);
    if s.len() == 0 {
    } else {
        law_section_order_preserved(s.drop_last(), sec);
        crate::list::lemma_stable_sorted_items_sorted(s.drop_last());
        assert(forall|a: DisplayItem, b: DisplayItem|
            pred(a) && pred(b) ==> #[trigger] item_le(a, b));
        lemma_insert_item_filter(stable_sorted_items(s.drop_last()), s.last(), pred);
    }
}

/// Paint order is transitive.
proof fn lemma_paint_order_trans(a: StackingContext, b: StackingContext, c: StackingContext)
    requires
        paint_order_le(a, b),
        paint_order_le(b, c),
    ensures
        paint_order_le(a, c),
{
}

/// Two siblings the sort may not reorder: neither precedes the other
/// strictly.
pub open spec fn paint_order_tied(a: StackingContext, b: StackingContext) -> bool {
    paint_order_le(a, b) && paint_order_le(b, a)
}

proof fn lemma_insert_ctx_filter(
    s: Seq<StackingContext>,
    x: StackingContext,
    pred: spec_fn(StackingContext) -> bool,
)
    requires
        ctx_sorted(s),
        forall|a: StackingContext, b: StackingContext|
            pred(a) && pred(b) ==> #[trigger] paint_order_le(a, b),
    ensures
        sorted_insert_ctx(s, x).filter(pred) == if pred(x) {
            s.filter(pred).push(x)
        } else {
            s.filter(pred)
        },
    decreases s.len(),
{
    let out = sorted_insert_ctx(s, x);
    lemma_filter_singleton(x, pred);
    if s.len() == 0 {
        assert(out =~= seq![x]);
        assert(s.filter(pred) =~= Seq::<StackingContext>::empty());
        if pred(x) {
            assert(Seq::<StackingContext>::empty().push(x) =~= seq![x]);
        }
    } else if paint_order_le(s[0], x) {
        assert(ctx_sorted(s.drop_first()));
        lemma_insert_ctx_filter(s.drop_first(), x, pred);
        let rest = sorted_insert_ctx(s.drop_first(), x);
        assert(out =~= seq![s[0]] + rest);
        Seq::filter_distributes_over_add(seq![s[0]], rest, pred);
        lemma_filter_singleton(s[0], pred);
        assert(s =~= seq![s[0]] + s.drop_first());
        Seq::filter_distributes_over_add(seq![s[0]], s.drop_first(), pred);
        if pred(x) {
            if pred(s[0]) {
                assert(out.filter(pred) =~= (seq![s[0]] + s.drop_first().filter(pred)).push(x));
                assert(s.filter(pred) =~= seq![s[0]] + s.drop_first().filter(pred));
            } else {
                assert(out.filter(pred) =~= s.drop_first().filter(pred).push(x));
                assert(s.filter(pred) =~= s.drop_first().filter(pred));
            }
        } else {
            assert(out.filter(pred) =~= s.filter(pred));
        }
    } else {
        assert(out =~= seq![x] + s);
        Seq::filter_distributes_over_add(seq![x], s, pred);
        if pred(x) {
            assert forall|i: int| 0 <= i < s.len() implies !pred(#[trigger] s[i]) by {
                if pred(s[i]) {
                    assert(paint_order_le(s[i], x));
                    assert(paint_order_le(s[0], s[i]));
                    lemma_paint_order_trans(s[0], s[i], x);
                }
            }
            lemma_filter_none(s, pred);
            assert(out.filter(pred) =~= seq![x]);
            assert(s.filter(pred).push(x) =~= seq![x]);
        } else {
            assert(out.filter(pred) =~= s.filter(pred));
        }
    }
}

/// Law: siblings the paint order ties are kept in input order — the
/// subsequence of children tied with any fixed representative is the same
/// before and after the stable sort.
pub proof fn law_tied_children_keep_input_order(s: Seq<StackingContext>, rep: StackingContext)
    ensures
        stable_sorted_ctx(s).filter(|c: StackingContext| paint_order_tied(c, rep)) == s.filter(
            |c: StackingContext| paint_order_tied(c, rep),
        ),
    decreases s.len(),
{
    let pred = |c: StackingContext| paint_order_tied(c, rep);
    reveal_with_fuel(Seq::filter, 2);
    if s.len() == 0 {
    } else {
        law_tied_children_keep_input_order(s.drop_last(), rep);
        law_children_sorted(s.drop_last());
        assert forall|a: StackingContext, b: StackingContext|
            pred(a) && pred(b) implies #[trigger] paint_order_le(a, b) by {
            lemma_paint_order_trans(a, rep, b);
        }
        lemma_insert_ctx_filter(stable_sorted_ctx(s.drop_last()), s.last(), pred);
    }
}

/// Indices `lo..hi` in order.
pub open spec fn idx_range(lo: int, hi: int) -> Seq<int> {
    Seq::new(if hi >= lo {
        (hi - lo) as nat
    } else {
        0
    }, |i: int| lo + i)
}

/// The bracket-marker indices among `lo..hi`, in order.
pub open spec fn bracket_indices(s: Seq<DisplayItem>, lo: int, hi: int) -> Seq<int>
    decreases hi - lo,
{
    if lo < 0 || lo >= hi || hi > s.len() {
        Seq::empty()
    } else if s[lo].is_bracket() {
        seq![lo] + bracket_indices(s, lo + 1, hi)
    } else {
        bracket_indices(s, lo + 1, hi)
    }
}

/// At or past `first`, a traversal returns every remaining index.
proof fn lemma_emitted_all(s: Seq<DisplayItem>, first: int, last: int, next: int)
    requires
        0 <= first <= next <= last <= s.len(),
    ensures
        crate::traversal::emitted_indices(s, first, last, next) == idx_range(next, last),
    decreases last - next,
{
    if next >= last {
        assert(idx_range(next, last) =~= Seq::<int>::empty());
    } else {
        lemma_emitted_all(s, first, last, next + 1);
        assert(seq![next] + idx_range(next + 1, last) =~= idx_range(next, last));
    }
}

/// Before `first`, a traversal returns exactly the bracket markers, then
/// everything from `first` on.
proof fn lemma_emitted_partial(s: Seq<DisplayItem>, first: int, last: int, next: int)
    requires
        0 <= next <= first <= last <= s.len(),
    ensures
        crate::traversal::emitted_indices(s, first, last, next) == bracket_indices(
            s,
            next,
            first,
        ) + idx_range(first, last),
    decreases first - next,
{
    if next == first {
        lemma_emitted_all(s, first, last, next);
        assert(bracket_indices(s, next, first) =~= Seq::<int>::empty());
        assert(bracket_indices(s, next, first) + idx_range(first, last) =~= idx_range(
            first,
            last,
        ));
    } else {
        lemma_emitted_partial(s, first, last, next + 1);
        if first < last {
        } else {
        }
        if s[next].is_bracket() {
            assert(seq![next] + (bracket_indices(s, next + 1, first) + idx_range(first, last))
                =~= (seq![next] + bracket_indices(s, next + 1, first)) + idx_range(first, last));
        }
    }
}

/// Bracket indices point at brackets.
proof fn lemma_bracket_indices_brackets(s: Seq<DisplayItem>, lo: int, hi: int, k: int)
    requires
        0 <= k < bracket_indices(s, lo, hi).len(),
    ensures
        0 <= bracket_indices(s, lo, hi)[k] < s.len(),
        s[bracket_indices(s, lo, hi)[k]].is_bracket(),
    decreases hi - lo,
{
    if !(lo < 0 || lo >= hi || hi > s.len()) {
        if s[lo].is_bracket() {
            if k > 0 {
                lemma_bracket_indices_brackets(s, lo + 1, hi, k - 1);
            }
        } else {
            lemma_bracket_indices_brackets(s, lo + 1, hi, k);
        }
    }
}

/// Law: a traversal split in two covers the list exactly once. The
/// non-bracket items returned by the partial traversals of `[0, k-1]` and
/// `[k, len-1]` (the second begun at the push marker enclosing `k`),
/// concatenated, are exactly the non-bracket items of the full traversal;
/// the extra indices the second slice walks before `k` are all bracket
/// markers, replayed only to re-establish the context.
pub proof fn law_traversal_identity(s: Seq<DisplayItem>, id: StackingContextId, k: int)
    requires
        0 < k <= s.len(),
    ensures
        ({
            let p1 = crate::traversal::emitted_indices(s, 0, k, 0);
            let p2 = crate::traversal::emitted_indices(
                s,
                k,
                s.len() as int,
                crate::traversal::enclosing_push_start(s, id, k),
            );
            let full = crate::traversal::emitted_indices(s, 0, s.len() as int, 0);
            let keep = |i: int| 0 <= i < s.len() && !s[i].is_bracket();
            (p1 + p2).filter(keep) == full.filter(keep)
        }),
{
    let p1 = crate::traversal::emitted_indices(s, 0, k, 0);
    let start2 = crate::traversal::enclosing_push_start(s, id, k);
    let p2 = crate::traversal::emitted_indices(s, k, s.len() as int, start2);
    let full = crate::traversal::emitted_indices(s, 0, s.len() as int, 0);
    let keep = |i: int| 0 <= i < s.len() && !s[i].is_bracket();
    lemma_enclosing_in_range(s, id, k);
    lemma_emitted_all(s, 0, k, 0);
    lemma_emitted_all(s, 0, s.len() as int, 0);
    lemma_emitted_partial(s, k, s.len() as int, start2);
    let brs = bracket_indices(s, start2, k);
    Seq::filter_distributes_over_add(p1, p2, keep);
    Seq::filter_distributes_over_add(brs, idx_range(k, s.len() as int), keep);
    assert forall|i: int| 0 <= i < brs.len() implies !keep(#[trigger] brs[i]) by {
        lemma_bracket_indices_brackets(s, start2, k, i);
    }
    lemma_filter_none(brs, keep);
    assert(p2.filter(keep) =~= idx_range(k, s.len() as int).filter(keep));
    assert(idx_range(0, k) + idx_range(k, s.len() as int) =~= idx_range(0, s.len() as int));
    Seq::filter_distributes_over_add(idx_range(0, k), idx_range(k, s.len() as int), keep);
    assert((p1 + p2).filter(keep) =~= full.filter(keep));
}

/// The reverse scan never lands past where it started.
proof fn lemma_enclosing_in_range(s: Seq<DisplayItem>, id: StackingContextId, start: int)
    requires
        0 <= start,
    ensures
        0 <= crate::traversal::enclosing_push_start(s, id, start) <= start,
    decreases start,
{
    if start > 0 && !crate::traversal::is_push_of(s[start - 1], id) {
        lemma_enclosing_in_range(s, id, start - 1);
    }
}

/// All the display items a pool holds, with multiplicity.
pub open spec fn pool_items(pool: PoolS) -> Multiset<DisplayItem>
    decreases pool.len(),
{
    if pool.len() == 0 {
        Multiset::empty()
    } else {
        pool[0].1.to_multiset().add(pool_items(pool.drop_first()))
    }
}

/// The non-bracket items of a list, with multiplicity.
pub open spec fn plain_items(s: Seq<DisplayItem>) -> Multiset<DisplayItem> {
    s.filter(|it: DisplayItem| !it.is_bracket()).to_multiset()
}

proof fn lemma_pool_items_remove(pool: PoolS, j: int)
    requires
        0 <= j < pool.len(),
    ensures
        pool_items(pool) =~= pool_items(pool.remove(j)).add(pool[j].1.to_multiset()),
    decreases j,
{
    if j == 0 {
        assert(pool.remove(0) =~= pool.drop_first());
    } else {
        lemma_pool_items_remove(pool.drop_first(), j - 1);
        assert(pool.remove(j).drop_first() =~= pool.drop_first().remove(j - 1));
        assert(pool.remove(j)[0] == pool[0]);
        assert(pool.drop_first()[j - 1] == pool[j]);
    }
}

/// Taking a bucket conserves the pool's items.
proof fn lemma_pool_take_conserves(pool: PoolS, id: StackingContextId)
    ensures
        pool_items(pool) =~= pool_items(pool_without(pool, id)).add(
            pool_bucket(pool, id).to_multiset(),
        ),
{
    broadcast use vstd::seq_lib::group_to_multiset_ensures;

    let j = crate::list::pool_find(pool, id, 0);
    crate::list::lemma_pool_find_range(pool, id, 0);
    if j < pool.len() {
        lemma_pool_items_remove(pool, j);
    } else {
        assert(pool_bucket(pool, id) =~= Seq::<DisplayItem>::empty());
        assert(Seq::<DisplayItem>::empty().to_multiset() =~= Multiset::<DisplayItem>::empty());
    }
}

proof fn lemma_insert_item_multiset(s: Seq<DisplayItem>, x: DisplayItem)
    ensures
        sorted_insert_item(s, x).to_multiset() =~= s.to_multiset().insert(x),
    decreases s.len(),
{
    broadcast use vstd::seq_lib::group_to_multiset_ensures;

    let out = sorted_insert_item(s, x);
    if s.len() == 0 {
        assert(out =~= Seq::<DisplayItem>::empty().push(x));
        assert(s.to_multiset() =~= Multiset::<DisplayItem>::empty());
    } else if item_le(s[0], x) {
        lemma_insert_item_multiset(s.drop_first(), x);
        let rest = sorted_insert_item(s.drop_first(), x);
        assert(out =~= seq![s[0]] + rest);
        lemma_multiset_commutative(seq![s[0]], rest);
        assert(s =~= seq![s[0]] + s.drop_first());
        lemma_multiset_commutative(seq![s[0]], s.drop_first());
        assert(out.to_multiset() =~= seq![s[0]].to_multiset().add(
            s.drop_first().to_multiset().insert(x),
        ));
        assert(seq![s[0]].to_multiset().add(s.drop_first().to_multiset().insert(x))
            =~= seq![s[0]].to_multiset().add(s.drop_first().to_multiset()).insert(x));
    } else {
        assert(out =~= seq![x] + s);
        lemma_multiset_commutative(seq![x], s);
        assert(seq![x] =~= Seq::<DisplayItem>::empty().push(x));
        assert(seq![x].to_multiset() =~= Multiset::<DisplayItem>::empty().insert(x));
        assert(seq![x].to_multiset().add(s.to_multiset()) =~= s.to_multiset().insert(x));
    }
}

/// Sorting a bucket neither adds nor drops items.
proof fn lemma_sorted_items_multiset(s: Seq<DisplayItem>)
    ensures
        stable_sorted_items(s).to_multiset() =~= s.to_multiset(),
    decreases s.len(),
{
    broadcast use vstd::seq_lib::group_to_multiset_ensures;

    if s.len() > 0 {
        lemma_sorted_items_multiset(s.drop_last());
        lemma_insert_item_multiset(stable_sorted_items(s.drop_last()), s.last());
        assert(s =~= s.drop_last().push(s.last()));
        assert(s.drop_last().push(s.last()).to_multiset() =~= s.drop_last().to_multiset().insert(
            s.last(),
        ));
    }
}

proof fn lemma_filter_all_plain(s: Seq<DisplayItem>)
    requires
        forall|i: int| 0 <= i < s.len() ==> !(#[trigger] s[i]).is_bracket(),
    ensures
        s.filter(|it: DisplayItem| !it.is_bracket()) == s,
    decreases s.len(),
{
    reveal_with_fuel(Seq::filter, 2);
    if s.len() > 0 {
        assert(forall|i: int|
            0 <= i < s.drop_last().len() ==> !(#[trigger] s.drop_last()[i]).is_bracket());
        lemma_filter_all_plain(s.drop_last());
        assert(!s.last().is_bracket());
        assert(s.drop_last().push(s.last()) =~= s);
    }
}

/// Law: assembly emits every pool item exactly as often as the pool held
/// it — flattening moves items, it never duplicates or drops one whose
/// bucket is consumed. The items of the incoming pool are exactly the
/// non-bracket items of the output together with the items of the
/// leftover pool (the buckets of ids the tree did not mention).
pub proof fn law_items_conserved(
    ctx: StackingContext,
    pool: PoolS,
    out: Seq<DisplayItem>,
    pool_out: PoolS,
)
    requires
        builds(ctx, pool, out, pool_out),
        pool_plain(pool),
    ensures
        pool_items(pool) =~= pool_items(pool_out).add(plain_items(out)),
    decreases crate::list::ctx_size(ctx), 1int, 0int,
{
    broadcast use vstd::seq_lib::group_to_multiset_ensures;

    let (s1, p2, s2, p3, s3) = choose|
        s1: Seq<DisplayItem>,
        p2: PoolS,
        s2: Seq<DisplayItem>,
        p3: PoolS,
        s3: Seq<DisplayItem>,
    |
        #[trigger] parts_witness(s1, p2, s2, p3, s3) && builds_parts(
            ctx,
            pool,
            out,
            pool_out,
            s1,
            p2,
            s2,
            p3,
            s3,
        );
    let kids = stable_sorted_ctx(ctx.children@);
    let pool1 = pool_without(pool, ctx.id);
    let bucket = pool_bucket(pool, ctx.id);
    let items = stable_sorted_items(bucket);
    let j0 = crate::list::rank_prefix_end(items, 0);
    let j1 = crate::list::rank_prefix_end(items, 1);
    let j2 = crate::list::rank_prefix_end(items, 2);
    let k0 = crate::list::neg_z_end(kids, 0);
    let k1 = crate::list::float_end(kids, k0);
    let ia = items.subrange(0, j0);
    let ib = items.subrange(j0, j1);
    let ic = items.subrange(j1, j2);
    let id_seq = items.subrange(j2, items.len() as int);
    let body = ia + s1 + ib + s2 + ic + s3 + id_seq;
    crate::list::lemma_rank_prefix_end_range(items, 0);
    crate::list::lemma_rank_prefix_end_range(items, 2);
    crate::list::lemma_rank_prefix_end_mono(items, 0, 1);
    crate::list::lemma_rank_prefix_end_mono(items, 1, 2);
    crate::list::lemma_neg_z_end_range(kids, 0);
    crate::list::lemma_float_end_range(kids, k0);
    lemma_pool_without_plain(pool, ctx.id);
    lemma_pool_take_conserves(pool, ctx.id);
    proof_kids_conserved(ctx, kids, 0, k0, pool1, s1, p2);
    proof_kids_conserved(ctx, kids, k0, k1, p2, s2, p3);
    proof_kids_conserved(ctx, kids, k1, kids.len() as int, p3, s3, pool_out);
    // The non-bracket items of the body: the sorted bucket plus the
    // children's non-bracket items.
    let nb = |it: DisplayItem| !it.is_bracket();
    lemma_sorted_bucket_plain(pool, ctx.id);
    Seq::filter_distributes_over_add(ia + s1 + ib + s2 + ic + s3, id_seq, nb);
    Seq::filter_distributes_over_add(ia + s1 + ib + s2 + ic, s3, nb);
    Seq::filter_distributes_over_add(ia + s1 + ib + s2, ic, nb);
    Seq::filter_distributes_over_add(ia + s1 + ib, s2, nb);
    Seq::filter_distributes_over_add(ia + s1, ib, nb);
    Seq::filter_distributes_over_add(ia, s1, nb);
    lemma_subrange_plain(items, 0, j0);
    lemma_subrange_plain(items, j0, j1);
    lemma_subrange_plain(items, j1, j2);
    lemma_subrange_plain(items, j2, items.len() as int);
    lemma_multiset_commutative(
        (ia + s1 + ib + s2 + ic + s3).filter(nb),
        id_seq.filter(nb),
    );
    lemma_multiset_commutative((ia + s1 + ib + s2 + ic).filter(nb), s3.filter(nb));
    lemma_multiset_commutative((ia + s1 + ib + s2).filter(nb), ic.filter(nb));
    lemma_multiset_commutative((ia + s1 + ib).filter(nb), s2.filter(nb));
    lemma_multiset_commutative((ia + s1).filter(nb), ib.filter(nb));
    lemma_multiset_commutative(ia.filter(nb), s1.filter(nb));
    assert(body.filter(nb).to_multiset() =~= ia.to_multiset().add(
        s1.filter(nb).to_multiset(),
    ).add(ib.to_multiset()).add(s2.filter(nb).to_multiset()).add(ic.to_multiset()).add(
        s3.filter(nb).to_multiset(),
    ).add(id_seq.to_multiset()));
    // The four bucket segments reassemble into the sorted bucket.
    assert(ia + ib =~= items.subrange(0, j1));
    assert(items.subrange(0, j1) + ic =~= items.subrange(0, j2));
    assert(items.subrange(0, j2) + id_seq =~= items);
    lemma_multiset_commutative(ia, ib);
    lemma_multiset_commutative(items.subrange(0, j1), ic);
    lemma_multiset_commutative(items.subrange(0, j2), id_seq);
    lemma_sorted_items_multiset(bucket);
    // The output adds at most the two markers, which the filter drops.
    if ctx.context_type == StackingContextType::Real {
        assert(out =~= seq![out[0]] + body + seq![out[out.len() - 1]]);
        Seq::filter_distributes_over_add(seq![out[0]] + body, seq![out[out.len() - 1]], nb);
        Seq::filter_distributes_over_add(seq![out[0]], body, nb);
        lemma_filter_singleton(out[0], nb);
        lemma_filter_singleton(out[out.len() - 1], nb);
        assert(!nb(out[0]));
        assert(!nb(out[out.len() - 1]));
        lemma_multiset_commutative(
            (seq![out[0]] + body).filter(nb),
            seq![out[out.len() - 1]].filter(nb),
        );
        lemma_multiset_commutative(seq![out[0]].filter(nb), body.filter(nb));
        assert(Seq::<DisplayItem>::empty().to_multiset() =~= Multiset::<DisplayItem>::empty());
        assert(out.filter(nb).to_multiset() =~= body.filter(nb).to_multiset());
    } else {
        assert(out == body);
    }
    assert(pool_items(pool) =~= pool_items(pool_out).add(plain_items(out)));
}

proof fn lemma_subrange_plain(items: Seq<DisplayItem>, lo: int, hi: int)
    requires
        forall|i: int| 0 <= i < items.len() ==> !(#[trigger] items[i]).is_bracket(),
        0 <= lo <= hi <= items.len(),
    ensures
        items.subrange(lo, hi).filter(|it: DisplayItem| !it.is_bracket()) == items.subrange(
            lo,
            hi,
        ),
{
    let sub = items.subrange(lo, hi);
    assert(forall|i: int| 0 <= i < sub.len() ==> !(#[trigger] sub[i]).is_bracket());
    lemma_filter_all_plain(sub);
}

proof fn proof_kids_conserved(
    parent: StackingContext,
    kids: Seq<StackingContext>,
    lo: int,
    hi: int,
    pool: PoolS,
    out: Seq<DisplayItem>,
    pool_out: PoolS,
)
    requires
        builds_kids(kids, lo, hi, pool, out, pool_out),
        pool_plain(pool),
        kids == stable_sorted_ctx(parent.children@),
        0 <= lo,
        hi <= kids.len(),
    ensures
        pool_items(pool) =~= pool_items(pool_out).add(plain_items(out)),
        pool_plain(pool_out),
    decreases crate::list::ctx_size(parent), 0int, hi - lo + 1,
{
    broadcast use vstd::seq_lib::group_to_multiset_ensures;

    let nb = |it: DisplayItem| !it.is_bracket();
    if !(0 <= lo <= hi <= kids.len()) || lo == hi {
        assert(out == Seq::<DisplayItem>::empty());
        reveal_with_fuel(Seq::filter, 2);
        assert(out.filter(nb) =~= Seq::<DisplayItem>::empty());
        assert(Seq::<DisplayItem>::empty().to_multiset() =~= Multiset::<DisplayItem>::empty());
    } else {
        let (s1, p1, s2) = choose|s1: Seq<DisplayItem>, p1: PoolS, s2: Seq<DisplayItem>|
            #[trigger] seg_witness(s1, p1, s2) && builds(kids[lo], pool, s1, p1) && builds_kids(
                kids,
                lo + 1,
                hi,
                p1,
                s2,
                pool_out,
            ) && out == s1 + s2;
        proof_child_conserved(parent, kids, lo, pool, s1, p1);
        proof_kids_conserved(parent, kids, lo + 1, hi, p1, s2, pool_out);
        Seq::filter_distributes_over_add(s1, s2, nb);
        lemma_multiset_commutative(s1.filter(nb), s2.filter(nb));
    }
}

proof fn proof_child_conserved(
    parent: StackingContext,
    kids: Seq<StackingContext>,
    lo: int,
    pool: PoolS,
    out: Seq<DisplayItem>,
    pool_out: PoolS,
)
    requires
        builds(kids[lo], pool, out, pool_out),
        pool_plain(pool),
        kids == stable_sorted_ctx(parent.children@),
        0 <= lo < kids.len(),
    ensures
        pool_items(pool) =~= pool_items(pool_out).add(plain_items(out)),
        pool_plain(pool_out),
    decreases crate::list::ctx_size(parent), 0int, 0int,
{
    crate::list::lemma_kid_size_lt(parent, kids, lo);
    law_items_conserved(kids[lo], pool, out, pool_out);
    proof_builds_pool_plain(kids[lo], pool, out, pool_out);
}

/// Grouping plain items yields a plain pool.
proof fn lemma_grouped_plain(items: Seq<DisplayItem>)
    requires
        forall|i: int| 0 <= i < items.len() ==> !(#[trigger] items[i]).is_bracket(),
    ensures
        pool_plain(crate::list::grouped(items)),
    decreases items.len(),
{
    if items.len() > 0 {
        assert(forall|i: int|
            0 <= i < items.drop_last().len() ==> !(#[trigger] items.drop_last()[i]).is_bracket());
        lemma_grouped_plain(items.drop_last());
        let pool = crate::list::grouped(items.drop_last());
        let it = items.last();
        assert(!it.is_bracket()) by {
            assert(items[items.len() - 1] == it);
        }
        let out = crate::list::grouped(items);
        let id = it.base_spec().stacking_context_id;
        let j0 = crate::list::pool_find(pool, id, 0);
        crate::list::lemma_pool_find_range(pool, id, 0);
        assert forall|j: int, i: int| #![trigger out[j].1[i]]
            0 <= j < out.len() && 0 <= i < out[j].1.len() implies !out[j].1[i].is_bracket() by {
            if j0 < pool.len() {
                assert(out =~= pool.update(j0, (id, pool[j0].1.push(it))));
                if j == j0 {
                    if i < pool[j0].1.len() {
                        assert(!pool[j0].1[i].is_bracket());
                    } else {
                        assert(out[j].1[i] == it);
                    }
                } else {
                    assert(out[j] == pool[j]);
                    assert(!pool[j].1[i].is_bracket());
                }
            } else {
                assert(out =~= pool.push((id, seq![it])));
                if j < pool.len() {
                    assert(!pool[j].1[i].is_bracket());
                } else {
                    assert(out[j].1[i] == it);
                }
            }
        }
    }
}

/// Law: an assembled list has balanced, properly nested brackets. For any
/// tree and any pool of plain paint commands (no input item is itself a
/// push/pop marker — those are assembly's own), every push marker in
/// `DisplayList::new`'s output is closed by exactly its matching pop.
pub proof fn law_assembled_list_balanced(
    root: StackingContext,
    items: Seq<DisplayItem>,
    list: Seq<DisplayItem>,
    pool_out: PoolS,
)
    requires
        builds(root, crate::list::grouped(items), list, pool_out),
        forall|i: int| 0 <= i < items.len() ==> !(#[trigger] items[i]).is_bracket(),
    ensures
        balanced(list),
{
    lemma_grouped_plain(items);
    law_brackets_balanced(root, crate::list::grouped(items), list, pool_out);
}

/// Law: an assembled list conserves the pool exactly. For a pool of plain
/// paint commands, the non-bracket items of `DisplayList::new`'s output
/// together with the leftover buckets are, as a multiset, exactly the
/// input items — nothing is duplicated, nothing kept is dropped.
pub proof fn law_assembled_list_conserves_items(
    root: StackingContext,
    items: Seq<DisplayItem>,
    list: Seq<DisplayItem>,
    pool_out: PoolS,
)
    requires
        builds(root, crate::list::grouped(items), list, pool_out),
        forall|i: int| 0 <= i < items.len() ==> !(#[trigger] items[i]).is_bracket(),
    ensures
        items.to_multiset() =~= pool_items(pool_out).add(plain_items(list)),
{
    lemma_grouped_plain(items);
    law_items_conserved(root, crate::list::grouped(items), list, pool_out);
    lemma_grouped_multiset(items);
}

/// Grouping neither drops nor duplicates an item.
proof fn lemma_grouped_multiset(items: Seq<DisplayItem>)
    ensures
        pool_items(crate::list::grouped(items)) =~= items.to_multiset(),
    decreases items.len(),
{
    broadcast use vstd::seq_lib::group_to_multiset_ensures;

    if items.len() == 0 {
        assert(items.to_multiset() =~= Multiset::<DisplayItem>::empty());
    } else {
        lemma_grouped_multiset(items.drop_last());
        let pool = crate::list::grouped(items.drop_last());
        let it = items.last();
        let out = crate::list::grouped(items);
        let id = it.base_spec().stacking_context_id;
        let j0 = crate::list::pool_find(pool, id, 0);
        crate::list::lemma_pool_find_range(pool, id, 0);
        assert(items =~= items.drop_last().push(it));
        assert(items.drop_last().push(it).to_multiset() =~= items.drop_last().to_multiset(
        ).insert(it));
        if j0 < pool.len() {
            assert(out == pool.update(j0, (id, pool[j0].1.push(it))));
            lemma_pool_items_update_push(pool, j0, id, it);
        } else {
            assert(out == pool.push((id, seq![it])));
            lemma_pool_items_push_new(pool, id, it);
        }
    }
}

/// Appending to one bucket inserts one item into the pool's multiset.
proof fn lemma_pool_items_update_push(
    pool: PoolS,
    j: int,
    id: StackingContextId,
    it: DisplayItem,
)
    requires
        0 <= j < pool.len(),
    ensures
        pool_items(pool.update(j, (id, pool[j].1.push(it)))) =~= pool_items(pool).insert(it),
    decreases j,
{
    broadcast use vstd::seq_lib::group_to_multiset_ensures;

    let out = pool.update(j, (id, pool[j].1.push(it)));
    if j == 0 {
        assert(out.drop_first() =~= pool.drop_first());
        assert(out[0].1 == pool[0].1.push(it));
        assert(pool[0].1.push(it).to_multiset() =~= pool[0].1.to_multiset().insert(it));
    } else {
        assert(out.drop_first() =~= pool.drop_first().update(j - 1, (id, pool[j].1.push(it))));
        assert(pool.drop_first()[j - 1] == pool[j]);
        lemma_pool_items_update_push(pool.drop_first(), j - 1, id, it);
        assert(out[0] == pool[0]);
    }
}

/// A new singleton bucket inserts one item into the pool's multiset.
proof fn lemma_pool_items_push_new(pool: PoolS, id: StackingContextId, it: DisplayItem)
    ensures
        pool_items(pool.push((id, seq![it]))) =~= pool_items(pool).insert(it),
    decreases pool.len(),
{
    broadcast use vstd::seq_lib::group_to_multiset_ensures;

    let out = pool.push((id, seq![it]));
    assert(pool_items(Seq::<(StackingContextId, Seq<DisplayItem>)>::empty())
        == Multiset::<DisplayItem>::empty());
    if pool.len() == 0 {
        assert(out.drop_first() =~= Seq::<(StackingContextId, Seq<DisplayItem>)>::empty());
        assert(out[0].1 == seq![it]);
        assert(seq![it] =~= Seq::<DisplayItem>::empty().push(it));
        assert(seq![it].to_multiset() =~= Multiset::<DisplayItem>::empty().insert(it));
    } else {
        assert(out.drop_first() =~= pool.drop_first().push((id, seq![it])));
        assert(out[0] == pool[0]);
        lemma_pool_items_push_new(pool.drop_first(), id, it);
    }
}

/// The tree rooted at `ctx` mentions this id.
pub open spec fn tree_has_id(ctx: StackingContext, id: StackingContextId) -> bool
    decreases ctx,
{
    ||| ctx.id == id
    ||| exists|i: int|
        0 <= i < ctx.children@.len() && tree_has_id(#[trigger] ctx.children@[i], id)
}

/// No entry of the pool is keyed `id`.
pub open spec fn not_key(pool: PoolS, id: StackingContextId) -> bool {
    forall|j: int| 0 <= j < pool.len() ==> (#[trigger] pool[j]).0 != id
}

proof fn lemma_pool_without_not_key(pool: PoolS, id: StackingContextId, other: StackingContextId)
    requires
        not_key(pool, other),
    ensures
        not_key(pool_without(pool, id), other),
{
    let out = pool_without(pool, id);
    let j0 = crate::list::pool_find(pool, id, 0);
    crate::list::lemma_pool_find_range(pool, id, 0);
    assert forall|j: int| 0 <= j < out.len() implies (#[trigger] out[j]).0 != other by {
        if j0 < pool.len() {
            assert(out =~= pool.subrange(0, j0) + pool.subrange(j0 + 1, pool.len() as int));
            if j < j0 {
                assert(out[j] == pool[j]);
            } else {
                assert(out[j] == pool[j + 1]);
            }
        }
    }
}

/// The pool holds each key at most once.
pub open spec fn pool_unique(pool: PoolS) -> bool {
    forall|j1: int, j2: int|
        0 <= j1 < j2 < pool.len() ==> (#[trigger] pool[j1]).0 != (#[trigger] pool[j2]).0
}

proof fn lemma_pool_without_unique(pool: PoolS, id: StackingContextId)
    requires
        pool_unique(pool),
    ensures
        pool_unique(pool_without(pool, id)),
        not_key(pool_without(pool, id), id),
{
    let out = pool_without(pool, id);
    let j0 = crate::list::pool_find(pool, id, 0);
    crate::list::lemma_pool_find_range(pool, id, 0);
    if j0 < pool.len() {
        assert(out =~= pool.subrange(0, j0) + pool.subrange(j0 + 1, pool.len() as int));
        crate::list::lemma_pool_find_hit(pool, id, 0);
        assert(pool[j0].0 == id);
        assert forall|j1: int, j2: int|
            0 <= j1 < j2 < out.len() implies (#[trigger] out[j1]).0 != (#[trigger] out[j2]).0 by {
            assert(out[j1] == if j1 < j0 {
                pool[j1]
            } else {
                pool[j1 + 1]
            });
            assert(out[j2] == if j2 < j0 {
                pool[j2]
            } else {
                pool[j2 + 1]
            });
        }
        assert forall|j: int| 0 <= j < out.len() implies (#[trigger] out[j]).0 != id by {
            if j < j0 {
                assert(out[j] == pool[j]);
                assert(pool[j].0 != pool[j0].0);
            } else {
                assert(out[j] == pool[j + 1]);
                assert(pool[j0].0 != pool[j + 1].0);
            }
        }
    } else {
        assert forall|j: int| 0 <= j < out.len() implies (#[trigger] out[j]).0 != id by {
            crate::list::lemma_pool_find_miss(pool, id, 0, j);
        }
    }
}

/// A sorted sibling list mentions exactly the ids the original does.
proof fn lemma_sorted_ctx_contains(s: Seq<StackingContext>, x: StackingContext)
    requires
        s.contains(x),
    ensures
        stable_sorted_ctx(s).contains(x),
    decreases s.len(),
{
    let out = stable_sorted_ctx(s);
    let j = choose|j: int| 0 <= j < s.len() && s[j] == x;
    if j == s.len() - 1 {
        lemma_insert_ctx_has(stable_sorted_ctx(s.drop_last()), x);
    } else {
        assert(s.drop_last()[j] == x);
        assert(s.drop_last().contains(x));
        lemma_sorted_ctx_contains(s.drop_last(), x);
        let k = choose|k: int|
            0 <= k < stable_sorted_ctx(s.drop_last()).len() && stable_sorted_ctx(s.drop_last())[k]
                == x;
        lemma_insert_ctx_keeps(stable_sorted_ctx(s.drop_last()), s.last(), k);
    }
}

/// Insertion places the new element somewhere.
proof fn lemma_insert_ctx_has(s: Seq<StackingContext>, x: StackingContext)
    ensures
        sorted_insert_ctx(s, x).contains(x),
    decreases s.len(),
{
    let out = sorted_insert_ctx(s, x);
    if s.len() == 0 {
        assert(out =~= seq![x]);
        assert(out[0] == x);
    } else if paint_order_le(s[0], x) {
        lemma_insert_ctx_has(s.drop_first(), x);
        let rest = sorted_insert_ctx(s.drop_first(), x);
        assert(out =~= seq![s[0]] + rest);
        let k = choose|k: int| 0 <= k < rest.len() && rest[k] == x;
        assert(out[k + 1] == x);
    } else {
        assert(out =~= seq![x] + s);
        assert(out[0] == x);
    }
}

/// Insertion keeps every original element.
proof fn lemma_insert_ctx_keeps(s: Seq<StackingContext>, x: StackingContext, k: int)
    requires
        0 <= k < s.len(),
    ensures
        sorted_insert_ctx(s, x).contains(s[k]),
    decreases s.len(),
{
    let out = sorted_insert_ctx(s, x);
    if paint_order_le(s[0], x) {
        let rest = sorted_insert_ctx(s.drop_first(), x);
        assert(out =~= seq![s[0]] + rest);
        if k == 0 {
            assert(out[0] == s[0]);
        } else {
            assert(s.drop_first()[k - 1] == s[k]);
            lemma_insert_ctx_keeps(s.drop_first(), x, k - 1);
            let m = choose|m: int| 0 <= m < rest.len() && rest[m] == s[k];
            assert(out[m + 1] == s[k]);
        }
    } else {
        assert(out =~= seq![x] + s);
        assert(out[k + 1] == s[k]);
    }
}

/// Law: assembly consumes exactly the buckets the tree mentions. After
/// flattening, no id the tree mentions keys a leftover bucket, and an id
/// the pool never held stays absent — so, with
/// [`law_items_conserved`], every pool item whose id names a tree node
/// appears exactly once among the output's non-bracket items, and no
/// other pool item does.
pub proof fn law_tree_buckets_consumed(
    ctx: StackingContext,
    pool: PoolS,
    out: Seq<DisplayItem>,
    pool_out: PoolS,
    id: StackingContextId,
)
    requires
        builds(ctx, pool, out, pool_out),
        pool_unique(pool),
    ensures
        tree_has_id(ctx, id) ==> not_key(pool_out, id),
        not_key(pool, id) ==> not_key(pool_out, id),
        pool_unique(pool_out),
    decreases crate::list::ctx_size(ctx), 1int, 0int,
{
    let (s1, p2, s2, p3, s3) = choose|
        s1: Seq<DisplayItem>,
        p2: PoolS,
        s2: Seq<DisplayItem>,
        p3: PoolS,
        s3: Seq<DisplayItem>,
    |
        #[trigger] parts_witness(s1, p2, s2, p3, s3) && builds_parts(
            ctx,
            pool,
            out,
            pool_out,
            s1,
            p2,
            s2,
            p3,
            s3,
        );
    let kids = stable_sorted_ctx(ctx.children@);
    let pool1 = pool_without(pool, ctx.id);
    let k0 = crate::list::neg_z_end(kids, 0);
    let k1 = crate::list::float_end(kids, k0);
    crate::list::lemma_neg_z_end_range(kids, 0);
    crate::list::lemma_float_end_range(kids, k0);
    lemma_pool_without_unique(pool, ctx.id);
    if not_key(pool, id) {
        lemma_pool_without_not_key(pool, ctx.id, id);
    }
    proof_kids_buckets_consumed(ctx, kids, 0, k0, pool1, s1, p2, id);
    proof_kids_buckets_consumed(ctx, kids, k0, k1, p2, s2, p3, id);
    proof_kids_buckets_consumed(ctx, kids, k1, kids.len() as int, p3, s3, pool_out, id);
    if tree_has_id(ctx, id) {
        if ctx.id == id {
            assert(not_key(pool1, id));
        } else {
            let i = choose|i: int|
                0 <= i < ctx.children@.len() && tree_has_id(ctx.children@[i], id);
            assert(ctx.children@.contains(ctx.children@[i]));
            lemma_sorted_ctx_contains(ctx.children@, ctx.children@[i]);
            let j = choose|j: int| 0 <= j < kids.len() && kids[j] == ctx.children@[i];
            if j < k0 {
            } else if j < k1 {
            } else {
            }
        }
    }
}

/// The sibling runs consume what their subtrees mention. Once an id's
/// bucket is gone it stays gone; a run containing a subtree that mentions
/// the id removes it.
proof fn proof_kids_buckets_consumed(
    parent: StackingContext,
    kids: Seq<StackingContext>,
    lo: int,
    hi: int,
    pool: PoolS,
    out: Seq<DisplayItem>,
    pool_out: PoolS,
    id: StackingContextId,
)
    requires
        builds_kids(kids, lo, hi, pool, out, pool_out),
        pool_unique(pool),
        kids == stable_sorted_ctx(parent.children@),
        0 <= lo,
        hi <= kids.len(),
    ensures
        not_key(pool, id) ==> not_key(pool_out, id),
        pool_unique(pool_out),
        forall|j: int|
            lo <= j < hi && tree_has_id(#[trigger] kids[j], id) ==> not_key(pool_out, id),
    decreases crate::list::ctx_size(parent), 0int, hi - lo + 1,
{
    if !(0 <= lo <= hi <= kids.len()) || lo == hi {
    } else {
        let (s1, p1, s2) = choose|s1: Seq<DisplayItem>, p1: PoolS, s2: Seq<DisplayItem>|
            #[trigger] seg_witness(s1, p1, s2) && builds(kids[lo], pool, s1, p1) && builds_kids(
                kids,
                lo + 1,
                hi,
                p1,
                s2,
                pool_out,
            ) && out == s1 + s2;
        crate::list::lemma_kid_size_lt(parent, kids, lo);
        law_tree_buckets_consumed(kids[lo], pool, s1, p1, id);
        proof_kids_buckets_consumed(parent, kids, lo + 1, hi, p1, s2, pool_out, id);
    }
}

/// Grouping keys each id at most once.
proof fn lemma_grouped_unique(items: Seq<DisplayItem>)
    ensures
        pool_unique(crate::list::grouped(items)),
    decreases items.len(),
{
    if items.len() > 0 {
        lemma_grouped_unique(items.drop_last());
        let pool = crate::list::grouped(items.drop_last());
        let it = items.last();
        let out = crate::list::grouped(items);
        let id = it.base_spec().stacking_context_id;
        let j0 = crate::list::pool_find(pool, id, 0);
        crate::list::lemma_pool_find_range(pool, id, 0);
        if j0 < pool.len() {
            crate::list::lemma_pool_find_hit(pool, id, 0);
            assert(out == pool.update(j0, (id, pool[j0].1.push(it))));
            assert forall|j1: int, j2: int|
                0 <= j1 < j2 < out.len() implies (#[trigger] out[j1]).0 != (
            #[trigger] out[j2]).0 by {
                assert(out[j1].0 == pool[j1].0);
                assert(out[j2].0 == pool[j2].0);
            }
        } else {
            assert(out == pool.push((id, seq![it])));
            assert forall|j1: int, j2: int|
                0 <= j1 < j2 < out.len() implies (#[trigger] out[j1]).0 != (
            #[trigger] out[j2]).0 by {
                if j2 == pool.len() {
                    crate::list::lemma_pool_find_miss(pool, id, 0, j1);
                    assert(out[j1].0 == pool[j1].0);
                } else {
                    assert(out[j1].0 == pool[j1].0);
                    assert(out[j2].0 == pool[j2].0);
                }
            }
        }
    }
}

/// Law: after assembly, every bucket whose id the tree mentions has been
/// consumed into the output; ids the pool never held stay absent. Together
/// with [`law_assembled_list_conserves_items`]: each input item whose id
/// names a tree node appears exactly once among the output's non-bracket
/// items, and the leftover pool holds exactly the items of unmentioned
/// ids.
pub proof fn law_assembled_tree_buckets_consumed(
    root: StackingContext,
    items: Seq<DisplayItem>,
    list: Seq<DisplayItem>,
    pool_out: PoolS,
    id: StackingContextId,
)
    requires
        builds(root, crate::list::grouped(items), list, pool_out),
    ensures
        tree_has_id(root, id) ==> not_key(pool_out, id),
{
    lemma_grouped_unique(items);
    law_tree_buckets_consumed(root, crate::list::grouped(items), list, pool_out, id);
}

} // verus!
