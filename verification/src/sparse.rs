//! The sparse layout of a cubic grid: the cells that hold something are
//! listed in the order in which the grid is walked, and the slot of such a
//! cell holds its position in the list.

use vstd::prelude::*;
use vstd::set_lib::{
    lemma_int_range, lemma_len_subset, lemma_map_size_bound, set_int_range,
};
use crate::grid::{cube, lemma_visit_visit, visit};
use crate::slot::{SlotRef, index_fits, lemma_decode_encode, lemma_decode_zero};

verus! {

/// Whether the slot of cell `c` refers to the element at position `k`.
pub open spec fn refers(slots: Seq<SlotRef>, shift: u32, c: int, k: int) -> bool {
    &&& 0 <= c < slots.len()
    &&& slots[c].spec_present()
    &&& slots[c].spec_index(shift) == k
}

/// Whether the slot of some cell refers to the element at position `k`.
pub open spec fn has_owner(slots: Seq<SlotRef>, shift: u32, k: int) -> bool {
    exists|c: int| #[trigger] refers(slots, shift, c, k)
}

/// The invariant of the slots of a grid over a list of `len` elements:
/// a slot that refers to an element holds a position inside the list, packed
/// with nothing else, and a slot that does not is zero;
/// no two slots refer to the same element, and every element is referred to.
pub open spec fn slots_wf(slots: Seq<SlotRef>, shift: u32, len: int) -> bool {
    &&& forall|c: int|
        0 <= c < slots.len() && (#[trigger] slots[c]).spec_present() ==> {
            &&& slots[c].spec_index(shift) < len
            &&& slots[c] == SlotRef::spec_encode(slots[c].spec_index(shift), true, shift)
        }
    &&& forall|c: int|
        0 <= c < slots.len() && !(#[trigger] slots[c]).spec_present() ==> slots[c]
            == SlotRef::spec_empty()
    &&& forall|c1: int, c2: int, k: int|
        #![trigger refers(slots, shift, c1, k), refers(slots, shift, c2, k)]
        refers(slots, shift, c1, k) && refers(slots, shift, c2, k) ==> c1 == c2
    &&& forall|k: int| 0 <= k < len ==> #[trigger] has_owner(slots, shift, k)
}

/// Slots that all refer to nothing are the slots of an empty list.
pub proof fn lemma_slots_wf_empty(slots: Seq<SlotRef>, shift: u32)
    requires
        forall|c: int| 0 <= c < slots.len() ==> slots[c] == SlotRef::spec_empty(),
    ensures
        slots_wf(slots, shift, 0),
{
    lemma_decode_zero(shift);
    assert forall|c1: int, c2: int, k: int|
        #![trigger refers(slots, shift, c1, k), refers(slots, shift, c2, k)]
        refers(slots, shift, c1, k) && refers(slots, shift, c2, k) implies c1 == c2 by {}
}

/// While some slot refers to nothing, the list is shorter than the grid has
/// cells: each element has a slot of its own, and none has the free one.
pub proof fn lemma_free_slot_leaves_room(slots: Seq<SlotRef>, shift: u32, len: int, free: int)
    requires
        0 <= len,
        slots_wf(slots, shift, len),
        0 <= free < slots.len(),
        !slots[free].spec_present(),
    ensures
        len < slots.len(),
{
    let n = slots.len() as int;
    let taken = Set::new(|c: int| 0 <= c < n && slots[c].spec_present());
    let position = |c: int| slots[c].spec_index(shift) as int;
    let cells = set_int_range(0, n);
    lemma_int_range(0, n);
    assert(taken.subset_of(cells.remove(free)));
    lemma_len_subset(taken, cells.remove(free));
    let listed = taken.map(position);
    assert forall|k: int| 0 <= k < len implies listed.contains(k) by {
        assert(has_owner(slots, shift, k));
        let c = choose|c: int| refers(slots, shift, c, k);
        assert(taken.contains(c) && position(c) == k);
    }
    assert(listed =~= set_int_range(0, len));
    lemma_map_size_bound(taken, listed, position);
    lemma_int_range(0, len);
}

/// Appending an element and making a free slot refer to it keeps the
/// invariant of the slots, and the position of the new element fits the slot
/// wherever every cell of the grid would.
pub proof fn lemma_slots_wf_add(slots: Seq<SlotRef>, shift: u32, len: int, free: int)
    requires
        0 <= len,
        1 <= shift < 32,
        slots.len() >= 1,
        slots.len() - 1 <= u32::MAX,
        index_fits((slots.len() - 1) as u32, shift),
        slots_wf(slots, shift, len),
        0 <= free < slots.len(),
        !slots[free].spec_present(),
    ensures
        len < slots.len(),
        index_fits(len as u32, shift),
        slots_wf(slots.update(free, SlotRef::spec_encode(len as u32, true, shift)), shift, len + 1),
{
    lemma_free_slot_leaves_room(slots, shift, len, free);
    let last = (slots.len() - 1) as u32;
    assert(index_fits(len as u32, shift)) by {
        assert(len as u32 <= last);
        assert(last <= (0xffff_ffffu32 >> shift));
    }
    lemma_decode_encode(len as u32, shift);
    let after = slots.update(free, SlotRef::spec_encode(len as u32, true, shift));
    assert forall|i: int, j: int| refers(slots, shift, i, j) implies 0 <= j < len by {}
    assert forall|c1: int, c2: int, k: int|
        #![trigger refers(after, shift, c1, k), refers(after, shift, c2, k)]
        refers(after, shift, c1, k) && refers(after, shift, c2, k) implies c1 == c2 by {
        if c1 != free {
            assert(refers(slots, shift, c1, k));
        }
        if c2 != free {
            assert(refers(slots, shift, c2, k));
        }
    }
    assert forall|k: int| 0 <= k < len + 1 implies #[trigger] has_owner(after, shift, k) by {
        if k < len {
            assert(has_owner(slots, shift, k));
            let c = choose|c: int| refers(slots, shift, c, k);
            assert(refers(after, shift, c, k));
        } else {
            assert(refers(after, shift, free, k));
        }
    }
}

/// How many of the cells walked in the first `n` steps are kept.
pub open spec fn kept_count(d: int, keep: spec_fn(int) -> bool, n: int) -> int
    decreases n,
{
    if n <= 0 {
        0
    } else if keep(visit(d, n - 1)) {
        kept_count(d, keep, n - 1) + 1
    } else {
        kept_count(d, keep, n - 1)
    }
}

/// The items of the kept cells among those walked in the first `n` steps, in
/// walking order.
pub open spec fn kept<T>(d: int, keep: spec_fn(int) -> bool, item: spec_fn(int) -> T, n: int) -> Seq<
    T,
>
    decreases n,
{
    if n <= 0 {
        Seq::empty()
    } else if keep(visit(d, n - 1)) {
        kept(d, keep, item, n - 1).push(item(visit(d, n - 1)))
    } else {
        kept(d, keep, item, n - 1)
    }
}

/// The slot of cell `i` once the whole grid is walked: a kept cell refers to
/// the position that equals the number of kept cells walked before it, and
/// any other cell refers to nothing.
pub open spec fn slot_of(d: int, keep: spec_fn(int) -> bool, shift: u32, i: int) -> SlotRef {
    if keep(i) {
        SlotRef::spec_encode(kept_count(d, keep, visit(d, i)) as u32, true, shift)
    } else {
        SlotRef::spec_empty()
    }
}

/// The slots of the grid after the first `n` steps of the walk: the cells
/// not walked yet refer to nothing.
pub open spec fn slots_upto(d: int, keep: spec_fn(int) -> bool, shift: u32, n: int) -> Seq<
    SlotRef,
> {
    Seq::new(
        cube(d) as nat,
        |i: int|
            if visit(d, i) < n {
                slot_of(d, keep, shift, i)
            } else {
                SlotRef::spec_empty()
            },
    )
}

/// The list is as long as the count says, and no longer than the walk.
pub proof fn lemma_kept_len<T>(d: int, keep: spec_fn(int) -> bool, item: spec_fn(int) -> T, n: int)
    requires
        0 <= n,
    ensures
        kept(d, keep, item, n).len() == kept_count(d, keep, n),
        0 <= kept_count(d, keep, n) <= n,
    decreases n,
{
    if n > 0 {
        lemma_kept_len(d, keep, item, n - 1);
    }
}

/// A longer walk keeps at least as many cells, and its list starts with the
/// list of the shorter walk.
pub proof fn lemma_kept_prefix<T>(
    d: int,
    keep: spec_fn(int) -> bool,
    item: spec_fn(int) -> T,
    m: int,
    n: int,
)
    requires
        0 <= m <= n,
    ensures
        kept_count(d, keep, m) <= kept_count(d, keep, n),
        kept(d, keep, item, m).len() <= kept(d, keep, item, n).len(),
        forall|k: int|
            0 <= k < kept(d, keep, item, m).len() ==> kept(d, keep, item, n)[k] == kept(
                d,
                keep,
                item,
                m,
            )[k],
    decreases n - m,
{
    lemma_kept_len(d, keep, item, m);
    lemma_kept_len(d, keep, item, n);
    if m < n {
        lemma_kept_prefix(d, keep, item, m, n - 1);
        lemma_kept_len(d, keep, item, n - 1);
    }
}

/// The item of a kept cell stands in the list at the position that its slot
/// holds.
pub proof fn lemma_kept_index<T>(
    d: int,
    keep: spec_fn(int) -> bool,
    item: spec_fn(int) -> T,
    n: int,
    i: int,
)
    requires
        0 < d,
        0 <= i < cube(d),
        visit(d, i) < n,
        keep(i),
    ensures
        0 <= kept_count(d, keep, visit(d, i)) < kept(d, keep, item, n).len(),
        kept(d, keep, item, n)[kept_count(d, keep, visit(d, i))] == item(i),
{
    let r = visit(d, i);
    lemma_visit_visit(d, i);
    lemma_kept_len(d, keep, item, r);
    lemma_kept_len(d, keep, item, r + 1);
    lemma_kept_prefix(d, keep, item, r + 1, n);
    assert(kept(d, keep, item, r + 1) == kept(d, keep, item, r).push(item(i)));
}

/// What one step of the walk does to the slots and the list: if the cell
/// walked at step `n` is kept, its slot, which referred to nothing, now
/// holds the length of the list, and its item is appended; otherwise nothing
/// changes.
pub proof fn lemma_walk_step<T>(
    d: int,
    keep: spec_fn(int) -> bool,
    item: spec_fn(int) -> T,
    shift: u32,
    n: int,
)
    requires
        0 < d,
        0 <= n < cube(d),
    ensures
        0 <= visit(d, n) < cube(d),
        !slots_upto(d, keep, shift, n)[visit(d, n)].spec_present(),
        0 <= kept(d, keep, item, n).len() <= n,
        keep(visit(d, n)) ==> slots_upto(d, keep, shift, n + 1) == slots_upto(
            d,
            keep,
            shift,
            n,
        ).update(
            visit(d, n),
            SlotRef::spec_encode(kept(d, keep, item, n).len() as u32, true, shift),
        ) && kept(d, keep, item, n + 1) == kept(d, keep, item, n).push(item(visit(d, n))),
        !keep(visit(d, n)) ==> slots_upto(d, keep, shift, n + 1) == slots_upto(d, keep, shift, n)
            && kept(d, keep, item, n + 1) == kept(d, keep, item, n),
{
    let i = visit(d, n);
    lemma_visit_visit(d, n);
    lemma_kept_len(d, keep, item, n);
    lemma_decode_zero(shift);
    let before = slots_upto(d, keep, shift, n);
    let after = slots_upto(d, keep, shift, n + 1);
    assert forall|j: int| 0 <= j < cube(d) && j != i implies before[j] == after[j] by {
        lemma_visit_visit(d, j);
    }
    if keep(i) {
        assert(after =~= before.update(
            i,
            SlotRef::spec_encode(kept(d, keep, item, n).len() as u32, true, shift),
        ));
    } else {
        assert(after =~= before);
    }
}

/// Before the walk no cell refers to anything and the list is empty.
pub proof fn lemma_walk_start<T>(
    d: int,
    keep: spec_fn(int) -> bool,
    item: spec_fn(int) -> T,
    shift: u32,
)
    requires
        0 < d,
    ensures
        slots_upto(d, keep, shift, 0) == Seq::new(cube(d) as nat, |i: int| SlotRef::spec_empty()),
        kept(d, keep, item, 0) == Seq::<T>::empty(),
{
    assert forall|i: int| 0 <= i < cube(d) implies visit(d, i) >= 0 by {
        lemma_visit_visit(d, i);
    }
    assert(slots_upto(d, keep, shift, 0) =~= Seq::new(
        cube(d) as nat,
        |i: int| SlotRef::spec_empty(),
    ));
}

/// After the whole walk the slot of a cell is there exactly if the cell is
/// kept, and then it holds the position of the item of that cell in the list.
pub proof fn lemma_walk_lookup<T>(
    d: int,
    keep: spec_fn(int) -> bool,
    item: spec_fn(int) -> T,
    shift: u32,
    i: int,
)
    requires
        0 < d,
        0 <= i < cube(d),
        1 <= shift < 32,
        cube(d) <= u32::MAX,
        index_fits((cube(d) - 1) as u32, shift),
    ensures
        slots_upto(d, keep, shift, cube(d))[i] == slot_of(d, keep, shift, i),
        slot_of(d, keep, shift, i).spec_present() == keep(i),
        keep(i) ==> slot_of(d, keep, shift, i).spec_index(shift) == kept_count(
            d,
            keep,
            visit(d, i),
        ) && 0 <= kept_count(d, keep, visit(d, i)) < kept(d, keep, item, cube(d)).len() && kept(
            d,
            keep,
            item,
            cube(d),
        )[kept_count(d, keep, visit(d, i))] == item(i),
{
    lemma_visit_visit(d, i);
    lemma_decode_zero(shift);
    if keep(i) {
        let r = visit(d, i);
        lemma_kept_len(d, keep, item, r);
        lemma_kept_index(d, keep, item, cube(d), i);
        let k = kept_count(d, keep, r) as u32;
        let top = (cube(d) - 1) as u32;
        assert(index_fits(k, shift)) by {
            assert(k <= top);
            assert(top <= (0xffff_ffffu32 >> shift));
        }
        lemma_decode_encode(k, shift);
    }
}

} // verus!
