//! The free list of an instruction memory and the two edits that keep it
//! in step with the table of loaded programs: carving a range out of a free
//! one, and giving a range back, merged with the free ranges it touches.

use crate::memory::{MemoryView, Span};
use crate::relocate::SLOTS;
use vstd::prelude::*;

verus! {

/// Whether `slot` lies in a range of `free`.
pub open spec fn in_free(free: Seq<Span>, slot: int) -> bool {
    exists|k: int| 0 <= k < free.len() && #[trigger] free[k].has(slot)
}

/// Whether the ranges of `free` are not empty, lie in the memory and ascend
/// with a gap between any two of them, so that no two could be merged.
pub open spec fn is_coalesced(free: Seq<Span>) -> bool {
    &&& forall|k: int|
        0 <= k < free.len() ==> 1 <= (#[trigger] free[k]).len && free[k].end() <= SLOTS
    &&& forall|j: int, k: int|
        0 <= j < k < free.len() ==> (#[trigger] free[j]).end() < (#[trigger] free[k]).start
}

/// Whether `free` is the free list of `view`: its ranges are coalesced, and
/// a slot lies in one of them exactly if no loaded program occupies it.
pub open spec fn is_free_list(free: Seq<Span>, view: MemoryView) -> bool {
    &&& is_coalesced(free)
    &&& forall|slot: int|
        #![trigger in_free(free, slot)]
        #![trigger view.occupied(slot)]
        0 <= slot < SLOTS ==> (in_free(free, slot) <==> !view.occupied(slot))
}

/// A slot of a free range is a slot of the memory that nothing occupies.
pub proof fn lemma_span_free(free: Seq<Span>, view: MemoryView, k: int, slot: int)
    requires
        is_free_list(free, view),
        0 <= k < free.len(),
        free[k].has(slot),
    ensures
        0 <= slot < SLOTS,
        !view.occupied(slot),
{
    assert(in_free(free, slot));
}

/// A slot that nothing occupies lies in a free range.
pub proof fn lemma_free_slot(free: Seq<Span>, view: MemoryView, slot: int) -> (k: int)
    requires
        is_free_list(free, view),
        0 <= slot < SLOTS,
        !view.occupied(slot),
    ensures
        0 <= k < free.len(),
        free[k].has(slot),
{
    assert(in_free(free, slot));
    choose|k: int| 0 <= k < free.len() && #[trigger] free[k].has(slot)
}

/// No slot lies in two ranges of a coalesced list.
pub proof fn lemma_one_span(free: Seq<Span>, j: int, k: int, slot: int)
    requires
        is_coalesced(free),
        0 <= j < free.len(),
        0 <= k < free.len(),
        free[j].has(slot),
        free[k].has(slot),
    ensures
        j == k,
{
    if j < k {
        assert(free[j].end() < free[k].start);
    } else if k < j {
        assert(free[k].end() < free[j].start);
    }
}

/// A free range that is not empty lies within one range of the free list.
pub proof fn lemma_free_range_in_span(free: Seq<Span>, view: MemoryView, base: int, len: int) -> (k:
    int)
    requires
        is_free_list(free, view),
        view.range_free(base, len),
        len >= 1,
    ensures
        0 <= k < free.len(),
        free[k].start <= base,
        base + len <= free[k].end(),
{
    assert(!view.occupied(base));
    let k = lemma_free_slot(free, view, base);
    if base + len > free[k].end() {
        let e = free[k].end();
        assert(!view.occupied(e));
        let k2 = lemma_free_slot(free, view, e);
        if k2 < k {
            assert(free[k2].end() < free[k].start);
        } else if k2 > k {
            assert(free[k].end() < free[k2].start);
        }
        assert(false);
    }
    k
}

/// Two free lists of one table agree in their first `k` ranges.
proof fn lemma_same_prefix(f1: Seq<Span>, f2: Seq<Span>, view: MemoryView, k: int)
    requires
        is_free_list(f1, view),
        is_free_list(f2, view),
        0 <= k <= f1.len(),
    ensures
        k <= f2.len(),
        forall|j: int| 0 <= j < k ==> f1[j] == f2[j],
    decreases k,
{
    if k > 0 {
        let i = k - 1;
        lemma_same_prefix(f1, f2, view, i);
        let s = f1[i].start as int;
        assert(f1[i].has(s));
        lemma_span_free(f1, view, i, s);
        let j2 = lemma_free_slot(f2, view, s);
        if j2 < i {
            assert(f1[j2] == f2[j2]);
            lemma_one_span(f1, j2, i, s);
        }
        assert(i < f2.len());
        if j2 > i {
            assert(f2[i].end() < f2[j2].start);
        }
        let t = f2[i].start as int;
        assert(f2[i].has(t));
        lemma_span_free(f2, view, i, t);
        let j1 = lemma_free_slot(f1, view, t);
        if j1 < i {
            assert(f1[j1] == f2[j1]);
            lemma_one_span(f2, j1, i, t);
        }
        if j1 > i {
            assert(f1[i].end() < f1[j1].start);
        }
        assert(s == t);
        let e1 = f1[i].end();
        let e2 = f2[i].end();
        if e1 < e2 {
            assert(f2[i].has(e1));
            lemma_span_free(f2, view, i, e1);
            let j = lemma_free_slot(f1, view, e1);
            if j < i {
                assert(f1[j].end() < f1[i].start);
            } else if j > i {
                assert(f1[i].end() < f1[j].start);
            }
            assert(false);
        }
        if e2 < e1 {
            assert(f1[i].has(e2));
            lemma_span_free(f1, view, i, e2);
            let j = lemma_free_slot(f2, view, e2);
            if j < i {
                assert(f2[j].end() < f2[i].start);
            } else if j > i {
                assert(f2[i].end() < f2[j].start);
            }
            assert(false);
        }
        assert(f1[i] == f2[i]);
    }
}

/// A table has one free list: the free list is a function of what is
/// loaded.
pub proof fn lemma_free_list_unique(f1: Seq<Span>, f2: Seq<Span>, view: MemoryView)
    requires
        is_free_list(f1, view),
        is_free_list(f2, view),
    ensures
        f1 == f2,
{
    lemma_same_prefix(f1, f2, view, f1.len() as int);
    lemma_same_prefix(f2, f1, view, f2.len() as int);
    assert(f1 =~= f2);
}

/// The free list of a table: the free ranges in ascending order, of which no
/// two touch.
pub open spec fn free_list_of(view: MemoryView) -> Seq<Span> {
    choose|free: Seq<Span>| is_free_list(free, view)
}

/// The free list of a table is the one list that is in step with it.
pub proof fn lemma_free_list_of(free: Seq<Span>, view: MemoryView)
    requires
        is_free_list(free, view),
    ensures
        free_list_of(view) == free,
{
    lemma_free_list_unique(free, free_list_of(view), view);
}

/// Putting another range in the place of range `i`, between the same
/// neighbours, gives the list the slots of the new range for those of the
/// old.
proof fn lemma_replace(free: Seq<Span>, i: int, span: Span)
    requires
        is_coalesced(free),
        0 <= i < free.len(),
        1 <= span.len,
        span.end() <= SLOTS,
        i > 0 ==> free[i - 1].end() < span.start,
        i + 1 < free.len() ==> span.end() < free[i + 1].start,
    ensures
        is_coalesced(free.update(i, span)),
        forall|slot: int|
            #![trigger in_free(free.update(i, span), slot)]
            in_free(free.update(i, span), slot) <==> span.has(slot) || (in_free(free, slot)
                && !free[i].has(slot)),
{
    let new = free.update(i, span);
    assert forall|j: int, k: int| 0 <= j < k < new.len() implies (#[trigger] new[j]).end() < (
    #[trigger] new[k]).start by {
        if j == i {
            if k > i + 1 {
                assert(free[i + 1].end() < free[k].start);
            }
        } else if k == i {
            if j < i - 1 {
                assert(free[j].end() < free[i - 1].start);
            }
        }
    }
    assert forall|slot: int| #![trigger in_free(new, slot)] in_free(new, slot) <==> span.has(slot)
        || (in_free(free, slot) && !free[i].has(slot)) by {
        if in_free(new, slot) {
            let k = choose|k: int| 0 <= k < new.len() && #[trigger] new[k].has(slot);
            if k != i {
                assert(free[k].has(slot));
                if free[i].has(slot) {
                    lemma_one_span(free, k, i, slot);
                }
            }
        }
        if span.has(slot) {
            assert(new[i].has(slot));
        }
        if in_free(free, slot) && !free[i].has(slot) {
            let k = choose|k: int| 0 <= k < free.len() && #[trigger] free[k].has(slot);
            assert(new[k].has(slot));
        }
    }
}

/// Taking range `i` out of the list takes its slots out.
proof fn lemma_remove(free: Seq<Span>, i: int)
    requires
        is_coalesced(free),
        0 <= i < free.len(),
    ensures
        is_coalesced(free.remove(i)),
        forall|slot: int|
            #![trigger in_free(free.remove(i), slot)]
            in_free(free.remove(i), slot) <==> in_free(free, slot) && !free[i].has(slot),
{
    let new = free.remove(i);
    assert forall|k: int| 0 <= k < new.len() implies (#[trigger] new[k]) == free[if k < i {
        k
    } else {
        k + 1
    }] by {}
    assert forall|j: int, k: int| 0 <= j < k < new.len() implies (#[trigger] new[j]).end() < (
    #[trigger] new[k]).start by {
        let oj = if j < i {
            j
        } else {
            j + 1
        };
        let ok = if k < i {
            k
        } else {
            k + 1
        };
        assert(free[oj].end() < free[ok].start);
    }
    assert forall|slot: int| #![trigger in_free(new, slot)] in_free(new, slot) <==> in_free(
        free,
        slot,
    ) && !free[i].has(slot) by {
        if in_free(new, slot) {
            let k = choose|k: int| 0 <= k < new.len() && #[trigger] new[k].has(slot);
            let ok = if k < i {
                k
            } else {
                k + 1
            };
            assert(free[ok].has(slot));
            if free[i].has(slot) {
                lemma_one_span(free, ok, i, slot);
            }
        }
        if in_free(free, slot) && !free[i].has(slot) {
            let k = choose|k: int| 0 <= k < free.len() && #[trigger] free[k].has(slot);
            let nk = if k < i {
                k
            } else {
                k - 1
            };
            assert(new[nk].has(slot));
        }
    }
}

/// Putting a range into the list at `at`, with a gap to both neighbours,
/// adds its slots.
proof fn lemma_insert(free: Seq<Span>, at: int, span: Span)
    requires
        is_coalesced(free),
        0 <= at <= free.len(),
        1 <= span.len,
        span.end() <= SLOTS,
        at > 0 ==> free[at - 1].end() < span.start,
        at < free.len() ==> span.end() < free[at].start,
    ensures
        is_coalesced(free.insert(at, span)),
        forall|slot: int|
            #![trigger in_free(free.insert(at, span), slot)]
            in_free(free.insert(at, span), slot) <==> span.has(slot) || in_free(free, slot),
{
    let new = free.insert(at, span);
    assert forall|k: int| 0 <= k < new.len() && k != at implies (#[trigger] new[k]) == free[if k
        < at {
        k
    } else {
        k - 1
    }] by {}
    assert(new[at] == span);
    assert forall|j: int, k: int| 0 <= j < k < new.len() implies (#[trigger] new[j]).end() < (
    #[trigger] new[k]).start by {
        if j == at {
            if k - 1 > at {
                assert(free[at].end() < free[k - 1].start);
            }
        } else if k == at {
            if j < at - 1 {
                assert(free[j].end() < free[at - 1].start);
            }
        } else {
            let oj = if j < at {
                j
            } else {
                j - 1
            };
            let ok = if k < at {
                k
            } else {
                k - 1
            };
            assert(free[oj].end() < free[ok].start);
        }
    }
    assert forall|slot: int| #![trigger in_free(new, slot)] in_free(new, slot) <==> span.has(slot)
        || in_free(free, slot) by {
        if in_free(new, slot) {
            let k = choose|k: int| 0 <= k < new.len() && #[trigger] new[k].has(slot);
            if k != at {
                let ok = if k < at {
                    k
                } else {
                    k - 1
                };
                assert(free[ok].has(slot));
            }
        }
        if span.has(slot) {
            assert(new[at].has(slot));
        }
        if in_free(free, slot) {
            let k = choose|k: int| 0 <= k < free.len() && #[trigger] free[k].has(slot);
            let nk = if k < at {
                k
            } else {
                k + 1
            };
            assert(new[nk].has(slot));
        }
    }
}

/// A free list with the `len` slots from `origin` on taken out of its range
/// `i`. What is left of that range, below and above, stays in the list.
pub open spec fn carve(free: Seq<Span>, i: int, origin: int, len: int) -> Seq<Span> {
    let span = free[i];
    let below = Span { start: span.start, len: (origin - span.start) as u8 };
    let above = Span { start: (origin + len) as u8, len: (span.end() - origin - len) as u8 };
    if below.len == 0 && above.len == 0 {
        free.remove(i)
    } else if below.len == 0 {
        free.update(i, above)
    } else if above.len == 0 {
        free.update(i, below)
    } else {
        free.update(i, below).insert(i + 1, above)
    }
}

/// Carving takes out of the list the slots carved and no other, and leaves
/// it coalesced.
pub proof fn lemma_carve_slots(free: Seq<Span>, i: int, origin: int, len: int)
    requires
        is_coalesced(free),
        0 <= i < free.len(),
        free[i].start <= origin,
        1 <= len,
        origin + len <= free[i].end(),
    ensures
        is_coalesced(carve(free, i, origin, len)),
        forall|slot: int|
            #![trigger in_free(carve(free, i, origin, len), slot)]
            in_free(carve(free, i, origin, len), slot) <==> in_free(free, slot) && !(origin
                <= slot < origin + len),
{
    let new = carve(free, i, origin, len);
    let span = free[i];
    let below = Span { start: span.start, len: (origin - span.start) as u8 };
    let above = Span { start: (origin + len) as u8, len: (span.end() - origin - len) as u8 };
    assert(free[i].has(origin));
    if i > 0 {
        assert(free[i - 1].end() < free[i].start);
    }
    if i + 1 < free.len() {
        assert(free[i].end() < free[i + 1].start);
    }
    if below.len == 0 && above.len == 0 {
        lemma_remove(free, i);
    } else if below.len == 0 {
        lemma_replace(free, i, above);
    } else if above.len == 0 {
        lemma_replace(free, i, below);
    } else {
        let mid = free.update(i, below);
        lemma_replace(free, i, below);
        lemma_insert(mid, i + 1, above);
        assert forall|slot: int| #![trigger in_free(new, slot)] in_free(new, slot) <==> in_free(
            free,
            slot,
        ) && !(origin <= slot < origin + len) by {
            assert(in_free(new, slot) <==> above.has(slot) || in_free(mid, slot));
            assert(in_free(mid, slot) <==> below.has(slot) || (in_free(free, slot)
                && !free[i].has(slot)));
            if free[i].has(slot) {
                assert(in_free(free, slot));
            }
        }
    }
    assert forall|slot: int| #![trigger in_free(new, slot)] in_free(new, slot) <==> in_free(
        free,
        slot,
    ) && !(origin <= slot < origin + len) by {
        if free[i].has(slot) {
            assert(in_free(free, slot));
        }
        if origin <= slot < origin + len {
            assert(free[i].has(slot));
        }
    }
}

/// Carving keeps the free list in step with the table.
pub proof fn lemma_carve(
    free: Seq<Span>,
    view: MemoryView,
    new_view: MemoryView,
    i: int,
    origin: int,
    len: int,
)
    requires
        is_free_list(free, view),
        0 <= i < free.len(),
        free[i].start <= origin,
        1 <= len,
        origin + len <= free[i].end(),
        forall|slot: int|
            #![trigger new_view.occupied(slot)]
            #![trigger view.occupied(slot)]
            new_view.occupied(slot) <==> view.occupied(slot) || origin <= slot < origin + len,
    ensures
        is_free_list(carve(free, i, origin, len), new_view),
{
    lemma_carve_slots(free, i, origin, len);
    let new = carve(free, i, origin, len);
    assert forall|slot: int|
        #![trigger in_free(new, slot)]
        #![trigger new_view.occupied(slot)]
        0 <= slot < SLOTS implies (in_free(new, slot) <==> !new_view.occupied(slot)) by {
        assert(in_free(new, slot) <==> in_free(free, slot) && !(origin <= slot < origin + len));
        assert(in_free(free, slot) <==> !view.occupied(slot));
    }
}

/// A free list with the `len` slots from `origin` on given back. `at` is the
/// number of ranges that lie below `origin`. The new range is merged with
/// the range that ends where it starts and with the range that starts where
/// it ends, so that no two ranges of the list touch.
pub open spec fn merge(free: Seq<Span>, at: int, origin: int, len: int) -> Seq<Span> {
    let below = at > 0 && free[at - 1].end() == origin;
    let above = at < free.len() && free[at].start == origin + len;
    if below && above {
        free.update(
            at - 1,
            Span {
                start: free[at - 1].start,
                len: (free[at - 1].len + len + free[at].len) as u8,
            },
        ).remove(at)
    } else if below {
        free.update(
            at - 1,
            Span { start: free[at - 1].start, len: (free[at - 1].len + len) as u8 },
        )
    } else if above {
        free.update(at, Span { start: origin as u8, len: (len + free[at].len) as u8 })
    } else {
        free.insert(at, Span { start: origin as u8, len: len as u8 })
    }
}

/// Where a range that is occupied lies among the free ranges: those that
/// start below it end at or before its start, the others start at or after
/// its end.
pub proof fn lemma_neighbours(free: Seq<Span>, view: MemoryView, at: int, origin: int, len: int)
    requires
        is_free_list(free, view),
        0 <= at <= free.len(),
        forall|k: int| 0 <= k < at ==> (#[trigger] free[k]).start < origin,
        forall|k: int| at <= k < free.len() ==> (#[trigger] free[k]).start >= origin,
        1 <= len,
        forall|slot: int| origin <= slot < origin + len ==> #[trigger] view.occupied(slot),
    ensures
        forall|k: int| 0 <= k < at ==> (#[trigger] free[k]).end() <= origin,
        forall|k: int| at <= k < free.len() ==> (#[trigger] free[k]).start >= origin + len,
{
    assert forall|k: int| 0 <= k < at implies (#[trigger] free[k]).end() <= origin by {
        if free[k].end() > origin {
            assert(free[k].has(origin));
            lemma_span_free(free, view, k, origin);
            assert(view.occupied(origin));
        }
    }
    assert forall|k: int| at <= k < free.len() implies (#[trigger] free[k]).start >= origin
        + len by {
        let s = free[k].start as int;
        assert(free[k].has(s));
        lemma_span_free(free, view, k, s);
        if s < origin + len {
            assert(view.occupied(s));
        }
    }
}

/// Giving a range back adds its slots to the list and no other, and leaves
/// the list coalesced.
pub proof fn lemma_merge_slots(free: Seq<Span>, at: int, origin: int, len: int)
    requires
        is_coalesced(free),
        0 <= at <= free.len(),
        forall|k: int| 0 <= k < at ==> (#[trigger] free[k]).end() <= origin,
        forall|k: int| at <= k < free.len() ==> (#[trigger] free[k]).start >= origin + len,
        0 <= origin,
        1 <= len,
        origin + len <= SLOTS,
    ensures
        is_coalesced(merge(free, at, origin, len)),
        forall|slot: int|
            #![trigger in_free(merge(free, at, origin, len), slot)]
            in_free(merge(free, at, origin, len), slot) <==> in_free(free, slot) || origin <= slot
                < origin + len,
{
    let new = merge(free, at, origin, len);
    let below = at > 0 && free[at - 1].end() == origin;
    let above = at < free.len() && free[at].start == origin + len;
    if at > 0 {
        assert(free[at - 1].end() <= origin);
    }
    if at < free.len() {
        assert(free[at].start >= origin + len);
    }
    if at > 1 {
        assert(free[at - 2].end() < free[at - 1].start);
    }
    if at + 1 < free.len() {
        assert(free[at].end() < free[at + 1].start);
    }
    if below && above {
        let joined = Span {
            start: free[at - 1].start,
            len: (free[at - 1].len + len + free[at].len) as u8,
        };
        let mid = free.update(at - 1, joined);
        // The joined range takes the place of the range below, for a moment
        // beside the range above, which it contains.
        assert forall|slot: int| #![trigger in_free(new, slot)] in_free(new, slot) <==> in_free(
            free,
            slot,
        ) || origin <= slot < origin + len by {
            if in_free(new, slot) {
                let k = choose|k: int| 0 <= k < new.len() && #[trigger] new[k].has(slot);
                if k < at - 1 {
                    assert(free[k].has(slot));
                } else if k == at - 1 {
                    if slot < origin {
                        assert(free[at - 1].has(slot));
                    } else if slot >= origin + len {
                        assert(free[at].has(slot));
                    }
                } else {
                    assert(free[k + 1].has(slot));
                }
            }
            if origin <= slot < origin + len {
                assert(new[at - 1].has(slot));
            }
            if in_free(free, slot) {
                let k = choose|k: int| 0 <= k < free.len() && #[trigger] free[k].has(slot);
                if k < at - 1 {
                    assert(new[k].has(slot));
                } else if k == at - 1 || k == at {
                    assert(new[at - 1].has(slot));
                } else {
                    assert(new[k - 1].has(slot));
                }
            }
        }
        assert forall|k: int| 0 <= k < new.len() implies 1 <= (#[trigger] new[k]).len
            && new[k].end() <= SLOTS by {
            if k < at - 1 {
                assert(new[k] == free[k]);
            } else if k > at - 1 {
                assert(new[k] == free[k + 1]);
            }
        }
        assert forall|j: int, k: int| 0 <= j < k < new.len() implies (#[trigger] new[j]).end() < (
        #[trigger] new[k]).start by {
            let oj = if j < at {
                j
            } else {
                j + 1
            };
            let ok = if k < at {
                k
            } else {
                k + 1
            };
            if j == at - 1 {
                assert(new[k] == free[ok]);
                assert(free[at].end() < free[ok].start);
            } else if k == at - 1 {
                assert(new[j] == free[j]);
                assert(free[j].end() < free[at - 1].start);
            } else {
                assert(new[j] == free[oj]);
                assert(new[k] == free[ok]);
                assert(free[oj].end() < free[ok].start);
            }
        }
    } else if below {
        let grown = Span { start: free[at - 1].start, len: (free[at - 1].len + len) as u8 };
        lemma_replace(free, at - 1, grown);
        assert forall|slot: int| #![trigger in_free(new, slot)] in_free(new, slot) <==> in_free(
            free,
            slot,
        ) || origin <= slot < origin + len by {
            if free[at - 1].has(slot) {
                assert(in_free(free, slot));
            }
        }
    } else if above {
        let grown = Span { start: origin as u8, len: (len + free[at].len) as u8 };
        lemma_replace(free, at, grown);
        assert forall|slot: int| #![trigger in_free(new, slot)] in_free(new, slot) <==> in_free(
            free,
            slot,
        ) || origin <= slot < origin + len by {
            if free[at].has(slot) {
                assert(in_free(free, slot));
            }
        }
    } else {
        lemma_insert(free, at, Span { start: origin as u8, len: len as u8 });
    }
}

/// Giving a range back keeps the free list in step with the table.
pub proof fn lemma_merge(
    free: Seq<Span>,
    view: MemoryView,
    new_view: MemoryView,
    at: int,
    origin: int,
    len: int,
)
    requires
        is_free_list(free, view),
        0 <= at <= free.len(),
        forall|k: int| 0 <= k < at ==> (#[trigger] free[k]).start < origin,
        forall|k: int| at <= k < free.len() ==> (#[trigger] free[k]).start >= origin,
        0 <= origin,
        1 <= len,
        origin + len <= SLOTS,
        forall|slot: int| origin <= slot < origin + len ==> #[trigger] view.occupied(slot),
        forall|slot: int|
            #![trigger new_view.occupied(slot)]
            #![trigger view.occupied(slot)]
            new_view.occupied(slot) <==> view.occupied(slot) && !(origin <= slot < origin + len),
    ensures
        is_free_list(merge(free, at, origin, len), new_view),
{
    lemma_neighbours(free, view, at, origin, len);
    lemma_merge_slots(free, at, origin, len);
    let new = merge(free, at, origin, len);
    assert forall|slot: int|
        #![trigger in_free(new, slot)]
        #![trigger new_view.occupied(slot)]
        0 <= slot < SLOTS implies (in_free(new, slot) <==> !new_view.occupied(slot)) by {
        assert(in_free(new, slot) <==> in_free(free, slot) || origin <= slot < origin + len);
        assert(in_free(free, slot) <==> !view.occupied(slot));
    }
}

} // verus!
