//! Stable sorting used by assembly: stacking contexts by paint order and
//! display items by section. Both sorts are insertion sorts whose exact
//! output is pinned by the spec functions here, so the laws about paint
//! order (sortedness, and preservation of input order among ties) can be
//! stated and proved against them.

use vstd::prelude::*;
use crate::item::DisplayItem;
use crate::stacking::{paint_order_le, StackingContext, StackingContextType};

verus! {

/// Items are ordered by their section alone.
pub open spec fn item_le(a: DisplayItem, b: DisplayItem) -> bool {
    a.base_spec().section.rank_spec() <= b.base_spec().section.rank_spec()
}

/// `x` inserted into `s` after every element that is `<=` it; with `s`
/// sorted this keeps it sorted and places `x` behind its ties.
pub open spec fn sorted_insert_ctx(s: Seq<StackingContext>, x: StackingContext) -> Seq<
    StackingContext,
>
    decreases s.len(),
{
    if s.len() == 0 {
        seq![x]
    } else if paint_order_le(s[0], x) {
        seq![s[0]] + sorted_insert_ctx(s.drop_first(), x)
    } else {
        seq![x] + s
    }
}

/// The stable sort of `s` by paint order: inserting each element in turn.
pub open spec fn stable_sorted_ctx(s: Seq<StackingContext>) -> Seq<StackingContext>
    decreases s.len(),
{
    if s.len() == 0 {
        s
    } else {
        sorted_insert_ctx(stable_sorted_ctx(s.drop_last()), s.last())
    }
}

pub open spec fn sorted_insert_item(s: Seq<DisplayItem>, x: DisplayItem) -> Seq<DisplayItem>
    decreases s.len(),
{
    if s.len() == 0 {
        seq![x]
    } else if item_le(s[0], x) {
        seq![s[0]] + sorted_insert_item(s.drop_first(), x)
    } else {
        seq![x] + s
    }
}

/// The stable sort of items ascending by section.
pub open spec fn stable_sorted_items(s: Seq<DisplayItem>) -> Seq<DisplayItem>
    decreases s.len(),
{
    if s.len() == 0 {
        s
    } else {
        sorted_insert_item(stable_sorted_items(s.drop_last()), s.last())
    }
}

fn ctx_le_exec(a: &StackingContext, b: &StackingContext) -> (r: bool)
    ensures
        r == paint_order_le(*a, *b),
{
    if a.z_index != 0 || b.z_index != 0 {
        a.z_index <= b.z_index
    } else {
        !(!(a.context_type == StackingContextType::PseudoFloat) && b.context_type
            == StackingContextType::PseudoFloat)
    }
}

fn item_le_exec(a: &DisplayItem, b: &DisplayItem) -> (r: bool)
    ensures
        r == item_le(*a, *b),
{
    a.section().rank() <= b.section().rank()
}

/// Inserting at the position found by a forward scan equals the spec
/// insertion.
proof fn lemma_insert_position_ctx(s: Seq<StackingContext>, x: StackingContext, p: int)
    requires
        0 <= p <= s.len(),
        forall|j: int| 0 <= j < p ==> paint_order_le(#[trigger] s[j], x),
        p < s.len() ==> !paint_order_le(s[p], x),
    ensures
        sorted_insert_ctx(s, x) =~= s.take(p) + seq![x] + s.skip(p),
    decreases p,
{
    if p == 0 {
        if s.len() == 0 {
            assert(sorted_insert_ctx(s, x) =~= s.take(0) + seq![x] + s.skip(0));
        } else {
            assert(sorted_insert_ctx(s, x) =~= s.take(0) + seq![x] + s.skip(0));
        }
    } else {
        lemma_insert_position_ctx(s.drop_first(), x, p - 1);
        assert(sorted_insert_ctx(s, x) =~= seq![s[0]] + sorted_insert_ctx(s.drop_first(), x));
        assert(seq![s[0]] + (s.drop_first().take(p - 1) + seq![x] + s.drop_first().skip(p - 1))
            =~= s.take(p) + seq![x] + s.skip(p));
    }
}

proof fn lemma_insert_position_item(s: Seq<DisplayItem>, x: DisplayItem, p: int)
    requires
        0 <= p <= s.len(),
        forall|j: int| 0 <= j < p ==> item_le(#[trigger] s[j], x),
        p < s.len() ==> !item_le(s[p], x),
    ensures
        sorted_insert_item(s, x) =~= s.take(p) + seq![x] + s.skip(p),
    decreases p,
{
    if p == 0 {
        if s.len() == 0 {
            assert(sorted_insert_item(s, x) =~= s.take(0) + seq![x] + s.skip(0));
        } else {
            assert(sorted_insert_item(s, x) =~= s.take(0) + seq![x] + s.skip(0));
        }
    } else {
        lemma_insert_position_item(s.drop_first(), x, p - 1);
        assert(sorted_insert_item(s, x) =~= seq![s[0]] + sorted_insert_item(s.drop_first(), x));
        assert(seq![s[0]] + (s.drop_first().take(p - 1) + seq![x] + s.drop_first().skip(p - 1))
            =~= s.take(p) + seq![x] + s.skip(p));
    }
}

/// Stable sort of stacking contexts by paint order.
pub fn sort_contexts(v: Vec<StackingContext>) -> (r: Vec<StackingContext>)
    ensures
        r@ == stable_sorted_ctx(v@),
{
    let mut input = v;
    let ghost orig = input@;
    let n0 = input.len();
    proof {
        assert(orig.len() == n0);
    }
    let mut result: Vec<StackingContext> = Vec::new();
    let mut k: usize = 0;
    while input.len() > 0
        invariant
            0 <= k <= orig.len(),
            orig.len() <= usize::MAX,
            input@ == orig.skip(k as int),
            result@ == stable_sorted_ctx(orig.take(k as int)),
        decreases input.len(),
    {
        let x = input.remove(0);
        proof {
            assert(x == orig[k as int]);
            assert(input@ =~= orig.skip(k as int + 1));
        }
        let mut p: usize = 0;
        while p < result.len() && ctx_le_exec(&result[p], &x)
            invariant
                0 <= p <= result.len(),
                forall|j: int| 0 <= j < p ==> paint_order_le(#[trigger] result@[j], x),
            decreases result.len() - p,
        {
            p += 1;
        }
        proof {
            lemma_insert_position_ctx(result@, x, p as int);
        }
        result.insert(p, x);
        proof {
            assert(result@ =~= old_insert_shape(stable_sorted_ctx(orig.take(k as int)), x,
                p as int));
            assert(orig.take(k as int + 1).drop_last() =~= orig.take(k as int));
            assert(orig.take(k as int + 1).last() == orig[k as int]);
            assert(result@ == stable_sorted_ctx(orig.take(k as int + 1)));
        }
        k += 1;
    }
    proof {
        assert(orig.take(orig.len() as int) =~= orig);
    }
    result
}

/// Stable sort of display items ascending by section.
pub fn sort_items(v: Vec<DisplayItem>) -> (r: Vec<DisplayItem>)
    ensures
        r@ == stable_sorted_items(v@),
{
    let mut input = v;
    let ghost orig = input@;
    let n0 = input.len();
    proof {
        assert(orig.len() == n0);
    }
    let mut result: Vec<DisplayItem> = Vec::new();
    let mut k: usize = 0;
    while input.len() > 0
        invariant
            0 <= k <= orig.len(),
            orig.len() <= usize::MAX,
            input@ == orig.skip(k as int),
            result@ == stable_sorted_items(orig.take(k as int)),
        decreases input.len(),
    {
        let x = input.remove(0);
        proof {
            assert(x == orig[k as int]);
            assert(input@ =~= orig.skip(k as int + 1));
        }
        let mut p: usize = 0;
        while p < result.len() && item_le_exec(&result[p], &x)
            invariant
                0 <= p <= result.len(),
                forall|j: int| 0 <= j < p ==> item_le(#[trigger] result@[j], x),
            decreases result.len() - p,
        {
            p += 1;
        }
        proof {
            lemma_insert_position_item(result@, x, p as int);
        }
        result.insert(p, x);
        proof {
            assert(result@ =~= stable_sorted_items(orig.take(k as int)).take(p as int) + seq![x]
                + stable_sorted_items(orig.take(k as int)).skip(p as int));
            assert(orig.take(k as int + 1).drop_last() =~= orig.take(k as int));
            assert(orig.take(k as int + 1).last() == orig[k as int]);
            assert(result@ == stable_sorted_items(orig.take(k as int + 1)));
        }
        k += 1;
    }
    proof {
        assert(orig.take(orig.len() as int) =~= orig);
    }
    result
}

/// Helper shape for relating an exec insertion to the spec insertion.
pub open spec fn old_insert_shape(s: Seq<StackingContext>, x: StackingContext, p: int) -> Seq<
    StackingContext,
> {
    s.take(p) + seq![x] + s.skip(p)
}

} // verus!
