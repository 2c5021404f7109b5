//! A cursor over a display list with partial-slice semantics: a traversal
//! covers `[first, last)`, but may begin earlier (at the push marker that
//! encloses the slice) and then emits only push/pop markers until it
//! reaches `first`, so a tile worker can re-establish the transform and
//! clip stacks without replaying earlier items.

use vstd::prelude::*;
use crate::ids::StackingContextId;
use crate::item::DisplayItem;
use crate::list::DisplayList;

verus! {

/// Whether the item opens the stacking context with this id.
pub open spec fn is_push_of(item: DisplayItem, id: StackingContextId) -> bool {
    match item {
        DisplayItem::PushStackingContext(p) => p.stacking_context.id == id,
        _ => false,
    }
}

/// Whether the item closes the stacking context with this id.
pub open spec fn is_pop_of(item: DisplayItem, id: StackingContextId) -> bool {
    match item {
        DisplayItem::PopStackingContext(p) => p.stacking_context_id == id,
        _ => false,
    }
}

/// The indices a traversal in state `(first, last, next)` will still
/// return: every index in `[next, last)` that is at or past `first`, and
/// before `first` only the bracket markers.
pub open spec fn emitted_indices(s: Seq<DisplayItem>, first: int, last: int, next: int) -> Seq<
    int,
>
    decreases last - next,
{
    if next < 0 || next >= last || last > s.len() {
        Seq::empty()
    } else if next >= first || s[next].is_bracket() {
        seq![next] + emitted_indices(s, first, last, next + 1)
    } else {
        emitted_indices(s, first, last, next + 1)
    }
}

/// Index of the last push marker for `id` strictly before `start`, or
/// `start` itself when there is none: where a partial traversal must begin
/// so the slice sees its enclosing brackets.
pub open spec fn enclosing_push_start(
    s: Seq<DisplayItem>,
    id: StackingContextId,
    start: int,
) -> int
    decreases start,
{
    if start <= 0 {
        start
    } else if is_push_of(s[start - 1], id) {
        start - 1
    } else {
        let r = enclosing_push_start(s, id, start - 1);
        if r == start - 1 {
            start
        } else {
            r
        }
    }
}

/// First index at or after `from` holding the pop marker for `id`, or the
/// length of the list.
pub open spec fn matching_pop_index(
    s: Seq<DisplayItem>,
    id: StackingContextId,
    from: int,
) -> int
    decreases s.len() - from,
{
    if from < 0 || from >= s.len() {
        s.len() as int
    } else if is_pop_of(s[from], id) {
        from
    } else {
        matching_pop_index(s, id, from + 1)
    }
}

/// The pop scan never moves backwards and stays within the list.
pub proof fn lemma_matching_pop_range(s: Seq<DisplayItem>, id: StackingContextId, from: int)
    requires
        0 <= from <= s.len(),
    ensures
        from <= matching_pop_index(s, id, from) <= s.len(),
    decreases s.len() - from,
{
    if from < s.len() && !is_pop_of(s[from], id) {
        lemma_matching_pop_range(s, id, from + 1);
    }
}

/// A linear cursor over a display list.
pub struct DisplayListTraversal<'a> {
    /// The list being walked.
    pub display_list: &'a DisplayList,
    /// The index the next call will look at.
    pub next_item_index: usize,
    /// The first index the slice owns; earlier indices only contribute
    /// their bracket markers.
    pub first_item_index: usize,
    /// One past the last index the traversal may return.
    pub last_item_index: usize,
}

impl<'a> DisplayListTraversal<'a> {
    pub open spec fn wf(self) -> bool {
        &&& self.last_item_index <= self.display_list.list@.len()
        &&& self.first_item_index <= self.last_item_index
        &&& self.next_item_index <= self.display_list.list@.len()
    }

    /// What this traversal will still return.
    pub open spec fn emits(self) -> Seq<int> {
        emitted_indices(
            self.display_list.list@,
            self.first_item_index as int,
            self.last_item_index as int,
            self.next_item_index as int,
        )
    }

    /// A full traversal: every item of the list, in order.
    pub fn new(display_list: &'a DisplayList) -> (r: DisplayListTraversal<'a>)
        ensures
            r.display_list == display_list,
            r.next_item_index == 0,
            r.first_item_index == 0,
            r.last_item_index == display_list.list@.len(),
            r.wf(),
    {
        DisplayListTraversal {
            display_list,
            next_item_index: 0,
            first_item_index: 0,
            last_item_index: display_list.list.len(),
        }
    }

    /// A partial traversal of `[start, end]`, begun at the nearest push
    /// marker for `stacking_context_id` at or before `start` (found by
    /// reverse scan; `start` itself when none is found), so the slice is
    /// preceded by exactly the brackets that enclose it.
    pub fn new_partial(
        display_list: &'a DisplayList,
        stacking_context_id: StackingContextId,
        start: usize,
        end: usize,
    ) -> (r: DisplayListTraversal<'a>)
        requires
            start <= end,
            end < display_list.list@.len(),
        ensures
            r.display_list == display_list,
            r.first_item_index == start,
            r.last_item_index == end + 1,
            r.next_item_index == enclosing_push_start(
                display_list.list@,
                stacking_context_id,
                start as int,
            ),
            r.next_item_index <= start,
            r.wf(),
    {
        let ghost s = display_list.list@;
        let total = display_list.list.len();
        proof {
            assert(end < total);
        }
        let mut i = start;
        let mut found: Option<usize> = None;
        while i > 0 && found.is_none()
            invariant
                0 <= i <= start,
                start < s.len(),
                s == display_list.list@,
                found is None ==> forall|j: int|
                    i <= j < start ==> !is_push_of(#[trigger] s[j], stacking_context_id),
                found is Some ==> i >= 1 && found->0 == i - 1 && is_push_of(
                    s[i - 1],
                    stacking_context_id,
                ) && (forall|j: int|
                    i <= j < start ==> !is_push_of(#[trigger] s[j], stacking_context_id)),
            decreases i + (if found is None { 1int } else { 0int }),
        {
            let prev = i - 1;
            match &display_list.list[prev] {
                DisplayItem::PushStackingContext(p) => {
                    if p.stacking_context.id == stacking_context_id {
                        found = Some(prev);
                    } else {
                        i = prev;
                    }
                },
                _ => {
                    i = prev;
                },
            }
        }
        proof {
            match found {
                Option::Some(p) => {
                    lemma_enclosing_char(s, stacking_context_id, p as int, start as int);
                },
                Option::None => {
                    lemma_enclosing_char(s, stacking_context_id, -1, start as int);
                },
            }
        }
        let next = match found {
            Some(p) => p,
            None => start,
        };
        DisplayListTraversal {
            display_list,
            next_item_index: next,
            first_item_index: start,
            last_item_index: end + 1,
        }
    }

    /// The index of the item most recently returned.
    pub fn previous_item_id(&self) -> (r: usize)
        requires
            self.next_item_index >= 1,
        ensures
            r == self.next_item_index - 1,
    {
        self.next_item_index - 1
    }

    /// Returns the next item the slice owes: everything in
    /// `[first, last)`, and before `first` only bracket markers (so that a
    /// partial replay can re-establish its context), in index order.
    pub fn next(&mut self) -> (r: Option<&'a DisplayItem>)
        requires
            old(self).wf(),
        ensures
            final(self).display_list == old(self).display_list,
            final(self).first_item_index == old(self).first_item_index,
            final(self).last_item_index == old(self).last_item_index,
            final(self).wf(),
            match r {
                Option::None => old(self).emits() == Seq::<int>::empty() && final(self).emits()
                    == Seq::<int>::empty() && final(self).next_item_index >= old(
                    self,
                ).next_item_index && (old(self).next_item_index <= old(self).last_item_index
                    ==> final(self).next_item_index == old(self).last_item_index) && (old(
                    self,
                ).next_item_index > old(self).last_item_index ==> final(self).next_item_index
                    == old(self).next_item_index),
                Option::Some(item) => {
                    &&& old(self).emits().len() > 0
                    &&& *item == old(self).display_list.list@[old(self).emits()[0]]
                    &&& final(self).next_item_index == old(self).emits()[0] + 1
                    &&& final(self).next_item_index > old(self).next_item_index
                    &&& final(self).emits() == old(self).emits().drop_first()
                },
            },
    {
        let ghost s = self.display_list.list@;
        let ghost emits0 = old(self).emits();
        while self.next_item_index < self.last_item_index
            invariant
                self.display_list == old(self).display_list,
                self.first_item_index == old(self).first_item_index,
                self.last_item_index == old(self).last_item_index,
                self.next_item_index >= old(self).next_item_index,
                old(self).next_item_index <= old(self).last_item_index
                    ==> self.next_item_index <= self.last_item_index,
                old(self).next_item_index > old(self).last_item_index
                    ==> self.next_item_index == old(self).next_item_index,
                self.wf(),
                s == self.display_list.list@,
                emits0 == old(self).emits(),
                emits0 == self.emits(),
            decreases self.last_item_index - self.next_item_index,
        {
            let reached_first_item = self.next_item_index >= self.first_item_index;
            let item = &self.display_list.list[self.next_item_index];
            let ghost here = self.next_item_index as int;
            self.next_item_index = self.next_item_index + 1;
            if reached_first_item {
                proof {
                    assert(emits0 == seq![here] + emitted_indices(
                        s,
                        self.first_item_index as int,
                        self.last_item_index as int,
                        here + 1,
                    ));
                    assert(emits0[0] == here);
                    assert(emits0.drop_first() =~= self.emits());
                }
                return Some(item);
            }
            match item {
                DisplayItem::PushStackingContext(_) | DisplayItem::PopStackingContext(_) => {
                    proof {
                        assert(s[here].is_bracket());
                        assert(emits0 == seq![here] + emitted_indices(
                            s,
                            self.first_item_index as int,
                            self.last_item_index as int,
                            here + 1,
                        ));
                        assert(emits0[0] == here);
                        assert(emits0.drop_first() =~= self.emits());
                    }
                    return Some(item);
                },
                _ => {
                    proof {
                        assert(!s[here].is_bracket());
                    }
                },
            }
        }
        None
    }

    /// Advances the cursor to the pop marker that closes the context with
    /// this id (or to the end of the list), so the following call returns
    /// that pop marker: the cheap way to skip a culled subtree.
    pub fn skip_to_end_of_stacking_context(&mut self, id: StackingContextId)
        requires
            old(self).wf(),
        ensures
            final(self).display_list == old(self).display_list,
            final(self).first_item_index == old(self).first_item_index,
            final(self).last_item_index == old(self).last_item_index,
            final(self).next_item_index == matching_pop_index(
                old(self).display_list.list@,
                id,
                old(self).next_item_index as int,
            ),
            final(self).next_item_index >= old(self).next_item_index,
            final(self).wf(),
    {
        let ghost s = self.display_list.list@;
        let n = self.display_list.list.len();
        let mut i = self.next_item_index;
        while i < n
            invariant
                old(self).next_item_index <= i <= n,
                n == s.len(),
                s == self.display_list.list@,
                *self == *old(self),
                old(self).wf(),
                matching_pop_index(s, id, old(self).next_item_index as int)
                    == matching_pop_index(s, id, i as int),
            decreases n - i,
        {
            match &self.display_list.list[i] {
                DisplayItem::PopStackingContext(p) => {
                    if p.stacking_context_id == id {
                        proof {
                            assert(is_pop_of(s[i as int], id));
                        }
                        self.next_item_index = i;
                        return ;
                    }
                },
                _ => {},
            }
            proof {
                assert(!is_pop_of(s[i as int], id));
            }
            i += 1;
        }
        self.next_item_index = n;
    }
}

/// The reverse scan's answer: with the nearest push for `id` below
/// `start` at `p` (or none when `p` is negative), the enclosing start is
/// `p`, or `start` itself.
proof fn lemma_enclosing_char(s: Seq<DisplayItem>, id: StackingContextId, p: int, start: int)
    requires
        -1 <= p < start,
        0 <= start <= s.len(),
        p >= 0 ==> is_push_of(s[p], id),
        forall|j: int| p < j < start ==> !is_push_of(#[trigger] s[j], id),
    ensures
        enclosing_push_start(s, id, start) == if p >= 0 {
            p
        } else {
            start
        },
    decreases start - p,
{
    if start == p + 1 {
    } else if start > p + 1 {
        if start > 0 {
            assert(!is_push_of(s[start - 1], id));
            lemma_enclosing_char(s, id, p, start - 1);
        }
    }
}

} // verus!
