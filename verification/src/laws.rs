//! Laws of probing and assignment: what holds of every table, content and
//! starting slot.
use vstd::prelude::*;
use vstd::set_lib::lemma_len_subset;
use crate::order::{lemma_equal_to_itself, total_order};
use crate::probe::{
    halts, landing, lemma_lap_never_halts, lemma_stands_onward, lemma_stands_stuck,
    lemma_walk_lands, onward, passes, placed, stands_at, walk,
};

verus! {

/// A probe that ends at `slot` still ends there, within the same fuel, once
/// `content` has been placed at `slot`.
proof fn lemma_walk_after_placing<C: Ord>(
    slots: Map<int, C>,
    content: C,
    from: int,
    slot: int,
    top: int,
    fuel: nat,
)
    requires
        total_order::<C>(),
        walk(slots, content, from, top, fuel) == Some(slot),
    ensures
        walk(placed(slots, slot, content), content, from, top, fuel) == Some(slot),
    decreases fuel,
{
    lemma_equal_to_itself(content);
    if passes(slots, content, from) {
        lemma_walk_after_placing(
            slots,
            content,
            onward(slots, content, from, top),
            slot,
            top,
            (fuel - 1) as nat,
        );
    }
}

/// Assignment is idempotent: assigning the same content a second time from
/// the same starting slot ends at the same identifier and leaves the slots as
/// the first assignment left them. The two assignments together occupy at
/// most one slot more than was occupied before.
pub proof fn lemma_assign_idempotent<C: Ord>(slots: Map<int, C>, content: C, start: int, top: int)
    requires
        total_order::<C>(),
        slots.dom().finite(),
        halts(slots, content, start, top),
    ensures
        ({
            let id = landing(slots, content, start, top);
            let once = placed(slots, id, content);
            &&& halts(once, content, start, top)
            &&& landing(once, content, start, top) == id
            &&& placed(once, id, content) == once
            &&& once.dom().finite()
            &&& once.dom().len() <= slots.dom().len() + 1
        }),
{
    let fuel = choose|fuel: nat| walk(slots, content, start, top, fuel).is_some();
    lemma_walk_lands(slots, content, start, top, fuel);
    let id = landing(slots, content, start, top);
    lemma_walk_after_placing(slots, content, start, id, top, fuel);
    lemma_walk_lands(placed(slots, id, content), content, start, top, fuel);
}

/// In a table with no room for `content`, a probe for it runs out of any
/// fuel.
proof fn lemma_saturated_exhausts<C: Ord>(
    slots: Map<int, C>,
    content: C,
    from: int,
    top: int,
    fuel: nat,
)
    requires
        0 <= from <= top,
        forall|slot: int| 0 <= slot <= top ==> passes(slots, content, slot),
    ensures
        walk(slots, content, from, top, fuel).is_none(),
    decreases fuel,
{
    assert(passes(slots, content, from));
    if fuel > 0 {
        lemma_saturated_exhausts(
            slots,
            content,
            onward(slots, content, from, top),
            top,
            (fuel - 1) as nat,
        );
    }
}

/// Saturation is fatal: where every slot of the identifier range is taken by
/// content other than `content`, the probe for it never ends, wherever it
/// starts.
pub proof fn lemma_saturated_never_halts<C: Ord>(slots: Map<int, C>, content: C, start: int, top: int)
    requires
        0 <= start <= top,
        forall|slot: int| 0 <= slot <= top ==> passes(slots, content, slot),
    ensures
        !halts(slots, content, start, top),
{
    assert forall|fuel: nat| walk(slots, content, start, top, fuel).is_none() by {
        lemma_saturated_exhausts(slots, content, start, top, fuel);
    }
}

/// The slot at which the probe from `start` stands after `taken` steps,
/// where it moves on that often.
spec fn trail<C: Ord>(slots: Map<int, C>, content: C, start: int, top: int, taken: nat) -> int
    decreases taken,
{
    if taken == 0 {
        start
    } else {
        onward(slots, content, trail(slots, content, start, top, (taken - 1) as nat), top)
    }
}

/// The slots that the probe from `start` moves on from in its first `taken`
/// steps.
spec fn passed<C: Ord>(slots: Map<int, C>, content: C, start: int, top: int, taken: nat) -> Set<int>
    decreases taken,
{
    if taken == 0 {
        Set::empty()
    } else {
        passed(slots, content, start, top, (taken - 1) as nat).insert(
            trail(slots, content, start, top, (taken - 1) as nat),
        )
    }
}

/// A probe that runs out of `fuel` moved on from every slot of its trail up
/// to there, and stood at each after as many steps as the trail counts.
proof fn lemma_trail_passes<C: Ord>(
    slots: Map<int, C>,
    content: C,
    start: int,
    top: int,
    fuel: nat,
    taken: nat,
)
    requires
        walk(slots, content, start, top, fuel).is_none(),
        taken <= fuel,
    ensures
        stands_at(slots, content, start, trail(slots, content, start, top, taken), top, taken),
        passes(slots, content, trail(slots, content, start, top, taken)),
    decreases taken,
{
    if taken > 0 {
        let before = (taken - 1) as nat;
        lemma_trail_passes(slots, content, start, top, fuel, before);
        lemma_stands_onward(
            slots,
            content,
            start,
            trail(slots, content, start, top, before),
            top,
            before,
        );
    }
    let here = trail(slots, content, start, top, taken);
    assert(walk(slots, content, start, top, fuel) == walk(
        slots,
        content,
        here,
        top,
        (fuel - taken) as nat,
    ));
}

/// A probe that ends stands at no slot twice.
proof fn lemma_trail_distinct<C: Ord>(
    slots: Map<int, C>,
    content: C,
    start: int,
    top: int,
    fuel: nat,
    early: nat,
    late: nat,
)
    requires
        halts(slots, content, start, top),
        walk(slots, content, start, top, fuel).is_none(),
        early < late <= fuel,
    ensures
        trail(slots, content, start, top, early) != trail(slots, content, start, top, late),
{
    let here = trail(slots, content, start, top, early);
    lemma_trail_passes(slots, content, start, top, fuel, early);
    lemma_trail_passes(slots, content, start, top, fuel, late);
    if here == trail(slots, content, start, top, late) {
        let lap = (late - early) as nat;
        assert forall|left: nat| #[trigger]
            walk(slots, content, here, top, left) == (if left >= lap {
                walk(slots, content, here, top, (left - lap) as nat)
            } else {
                None
            }) by {
            assert(walk(slots, content, start, top, early + left) == walk(
                slots,
                content,
                here,
                top,
                left,
            ));
        }
        lemma_lap_never_halts(slots, content, here, top, lap);
        lemma_stands_stuck(slots, content, start, here, top, early);
    }
}

/// The slots that a probe that ends moves on from before it runs out of
/// `fuel` are all taken, and there are as many of them as steps.
proof fn lemma_passed_counts<C: Ord>(
    slots: Map<int, C>,
    content: C,
    start: int,
    top: int,
    fuel: nat,
    taken: nat,
)
    requires
        halts(slots, content, start, top),
        walk(slots, content, start, top, fuel).is_none(),
        taken <= fuel + 1,
    ensures
        passed(slots, content, start, top, taken).finite(),
        passed(slots, content, start, top, taken).len() == taken,
        passed(slots, content, start, top, taken).subset_of(slots.dom()),
        forall|slot: int| #[trigger]
            passed(slots, content, start, top, taken).contains(slot) ==> exists|at: nat|
                at < taken && trail(slots, content, start, top, at) == slot,
    decreases taken,
{
    if taken > 0 {
        let before = (taken - 1) as nat;
        let last = trail(slots, content, start, top, before);
        lemma_passed_counts(slots, content, start, top, fuel, before);
        lemma_trail_passes(slots, content, start, top, fuel, before);
        if passed(slots, content, start, top, before).contains(last) {
            let at = choose|at: nat| at < before && trail(slots, content, start, top, at) == last;
            lemma_trail_distinct(slots, content, start, top, fuel, at, before);
        }
    }
}

/// A probe is as short as the table is sparse: one that ends moves on from
/// taken slots only and from none twice, so it ends within as many steps as
/// there are taken slots.
pub proof fn lemma_halts_within_occupancy<C: Ord>(slots: Map<int, C>, content: C, start: int, top: int)
    requires
        slots.dom().finite(),
        halts(slots, content, start, top),
    ensures
        walk(slots, content, start, top, slots.dom().len()) == Some(
            landing(slots, content, start, top),
        ),
{
    let occupied = slots.dom().len();
    if walk(slots, content, start, top, occupied).is_none() {
        lemma_passed_counts(slots, content, start, top, occupied, occupied + 1);
        lemma_len_subset(passed(slots, content, start, top, occupied + 1), slots.dom());
    }
    lemma_walk_lands(slots, content, start, top, occupied);
}

} // verus!
