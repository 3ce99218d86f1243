//! The mathematical model of directional linear probing.
use vstd::prelude::*;
use crate::order::{direction, Step};
use crate::width::{above, below};

verus! {

/// Whether the probe for `content` moves on from `slot`: the slot is taken
/// by something other than the content.
pub open spec fn passes<C: Ord>(slots: Map<int, C>, content: C, slot: int) -> bool {
    slots.contains_key(slot) && direction(content, slots[slot]) != Step::Rest
}

/// The slot after `slot` on the probe for `content`, where the probe moves
/// on from `slot`: one slot up when the content orders above the occupant,
/// one slot down when it orders below, wrapping at both ends of `0..=top`.
pub open spec fn onward<C: Ord>(slots: Map<int, C>, content: C, slot: int, top: int) -> int {
    if direction(content, slots[slot]) == Step::Advance {
        above(slot, top)
    } else {
        below(slot, top)
    }
}

/// Follows the probe for `content` from `slot` for at most `fuel` steps.
///
/// The probe ends at the first slot that is free or whose occupant equals
/// the content, and moves on from any other. The result is `None` when the
/// fuel runs out first.
pub open spec fn walk<C: Ord>(
    slots: Map<int, C>,
    content: C,
    slot: int,
    top: int,
    fuel: nat,
) -> Option<int>
    decreases fuel,
{
    if !passes(slots, content, slot) {
        Some(slot)
    } else if fuel == 0 {
        None
    } else {
        walk(slots, content, onward(slots, content, slot, top), top, (fuel - 1) as nat)
    }
}

/// Whether the probe for `content` from `start` ever ends.
pub open spec fn halts<C: Ord>(slots: Map<int, C>, content: C, start: int, top: int) -> bool {
    exists|fuel: nat| walk(slots, content, start, top, fuel).is_some()
}

/// The slot at which the probe for `content` from `start` ends, where it
/// ends at all.
pub open spec fn landing<C: Ord>(slots: Map<int, C>, content: C, start: int, top: int) -> int {
    let fuel = choose|fuel: nat| walk(slots, content, start, top, fuel).is_some();
    walk(slots, content, start, top, fuel).unwrap()
}

/// The slots after content is placed at `slot`: the content is stored there
/// if the slot was free, and nothing changes if it was taken.
pub open spec fn placed<C>(slots: Map<int, C>, slot: int, content: C) -> Map<int, C> {
    if slots.contains_key(slot) {
        slots
    } else {
        slots.insert(slot, content)
    }
}

/// A probe that ends within some fuel ends at the same slot with any more.
pub proof fn lemma_walk_more_fuel<C: Ord>(
    slots: Map<int, C>,
    content: C,
    slot: int,
    top: int,
    fuel: nat,
    more: nat,
)
    requires
        walk(slots, content, slot, top, fuel).is_some(),
        fuel <= more,
    ensures
        walk(slots, content, slot, top, more) == walk(slots, content, slot, top, fuel),
    decreases fuel,
{
    if passes(slots, content, slot) {
        lemma_walk_more_fuel(
            slots,
            content,
            onward(slots, content, slot, top),
            top,
            (fuel - 1) as nat,
            (more - 1) as nat,
        );
    }
}

/// Whatever fuel a probe ends within, it ends at its landing slot.
pub proof fn lemma_walk_lands<C: Ord>(
    slots: Map<int, C>,
    content: C,
    start: int,
    top: int,
    fuel: nat,
)
    requires
        walk(slots, content, start, top, fuel).is_some(),
    ensures
        halts(slots, content, start, top),
        walk(slots, content, start, top, fuel) == Some(landing(slots, content, start, top)),
{
    let chosen = choose|f: nat| walk(slots, content, start, top, f).is_some();
    if chosen <= fuel {
        lemma_walk_more_fuel(slots, content, start, top, chosen, fuel);
    } else {
        lemma_walk_more_fuel(slots, content, start, top, fuel, chosen);
    }
}

/// Whether the probe from `start` stands at `slot` after exactly `taken`
/// steps.
pub open spec fn stands_at<C: Ord>(
    slots: Map<int, C>,
    content: C,
    start: int,
    slot: int,
    top: int,
    taken: nat,
) -> bool {
    forall|fuel: nat| #[trigger]
        walk(slots, content, start, top, fuel) == (if fuel >= taken {
            walk(slots, content, slot, top, (fuel - taken) as nat)
        } else {
            None
        })
}

/// A probe that starts on a slot that is free, or taken by content equal to
/// its own, ends there: a free slot is never probed past.
pub proof fn lemma_lands_at_start<C: Ord>(slots: Map<int, C>, content: C, start: int, top: int)
    requires
        !passes(slots, content, start),
    ensures
        halts(slots, content, start, top),
        landing(slots, content, start, top) == start,
{
    assert(walk(slots, content, start, top, 0) == Some(start));
    lemma_walk_lands(slots, content, start, top, 0);
}

/// A probe that stands at a slot it moves on from stands at the next slot
/// one step later.
pub proof fn lemma_stands_onward<C: Ord>(
    slots: Map<int, C>,
    content: C,
    start: int,
    slot: int,
    top: int,
    taken: nat,
)
    requires
        stands_at(slots, content, start, slot, top, taken),
        passes(slots, content, slot),
    ensures
        stands_at(slots, content, start, onward(slots, content, slot, top), top, taken + 1),
{
    let next = onward(slots, content, slot, top);
    assert forall|fuel: nat| #[trigger]
        walk(slots, content, start, top, fuel) == (if fuel >= taken + 1 {
            walk(slots, content, next, top, (fuel - (taken + 1)) as nat)
        } else {
            None
        }) by {
        if fuel >= taken {
            let left = (fuel - taken) as nat;
            assert(walk(slots, content, slot, top, left) == (if left == 0 {
                None
            } else {
                walk(slots, content, next, top, (left - 1) as nat)
            }));
        }
    }
}

/// A probe that stands at a slot where it ends halts, and lands there.
pub proof fn lemma_stands_lands<C: Ord>(
    slots: Map<int, C>,
    content: C,
    start: int,
    slot: int,
    top: int,
    taken: nat,
)
    requires
        stands_at(slots, content, start, slot, top, taken),
        !passes(slots, content, slot),
    ensures
        halts(slots, content, start, top),
        landing(slots, content, start, top) == slot,
{
    assert(walk(slots, content, slot, top, 0) == Some(slot));
    assert(walk(slots, content, start, top, taken) == Some(slot));
    lemma_walk_lands(slots, content, start, top, taken);
}

/// A probe that comes to stand at a slot from which no probe ends does not
/// end either.
pub proof fn lemma_stands_stuck<C: Ord>(
    slots: Map<int, C>,
    content: C,
    start: int,
    slot: int,
    top: int,
    taken: nat,
)
    requires
        stands_at(slots, content, start, slot, top, taken),
        !halts(slots, content, slot, top),
    ensures
        !halts(slots, content, start, top),
{
    assert forall|fuel: nat| walk(slots, content, start, top, fuel).is_none() by {
        if fuel >= taken {
            assert(walk(slots, content, slot, top, (fuel - taken) as nat).is_none());
        }
    }
}

/// A probe that returns to a slot it has left runs out of any fuel.
proof fn lemma_lap_exhausts<C: Ord>(
    slots: Map<int, C>,
    content: C,
    slot: int,
    top: int,
    lap: nat,
    fuel: nat,
)
    requires
        stands_at(slots, content, slot, slot, top, lap),
        lap >= 1,
    ensures
        walk(slots, content, slot, top, fuel).is_none(),
    decreases fuel,
{
    if fuel >= lap {
        lemma_lap_exhausts(slots, content, slot, top, lap, (fuel - lap) as nat);
    }
}

/// A probe that returns to a slot it has left never ends.
pub proof fn lemma_lap_never_halts<C: Ord>(
    slots: Map<int, C>,
    content: C,
    slot: int,
    top: int,
    lap: nat,
)
    requires
        stands_at(slots, content, slot, slot, top, lap),
        lap >= 1,
    ensures
        !halts(slots, content, slot, top),
{
    assert forall|fuel: nat| walk(slots, content, slot, top, fuel).is_none() by {
        lemma_lap_exhausts(slots, content, slot, top, lap, fuel);
    }
}

/// A probe that is sent from one slot to a neighbour and from there straight
/// back never ends.
pub proof fn lemma_turn_never_halts<C: Ord>(slots: Map<int, C>, content: C, slot: int, top: int)
    requires
        0 <= slot <= top,
        passes(slots, content, slot),
        passes(slots, content, onward(slots, content, slot, top)),
        direction(content, slots[onward(slots, content, slot, top)]) != direction(
            content,
            slots[slot],
        ),
    ensures
        !halts(slots, content, slot, top),
{
    let next = onward(slots, content, slot, top);
    assert(stands_at(slots, content, slot, slot, top, 0));
    lemma_stands_onward(slots, content, slot, slot, top, 0);
    lemma_stands_onward(slots, content, slot, next, top, 1);
    assert(onward(slots, content, next, top) == slot);
    lemma_lap_never_halts(slots, content, slot, top, 2);
}

} // verus!
