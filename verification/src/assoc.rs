//! The associative table: identifiers for content, each with a payload.
use vstd::prelude::*;
use vstd::set_lib::{lemma_int_range, lemma_len_subset, set_int_range};
use std::collections::hash_map::DefaultHasher;
use std::hash::{Hash, Hasher};
use std::marker::PhantomData;
use std::ops::Index;
use nohash_hasher::IntMap;
use crate::id::Id;
use crate::order::{compare, direction, ordered, Step};
use crate::probe::{
    halts, landing, lemma_lap_never_halts, lemma_stands_lands, lemma_stands_onward,
    lemma_stands_stuck, lemma_turn_never_halts, lemma_walk_lands, onward, passes, placed,
    stands_at, walk,
};
use crate::slots::{digest, feed, slot_get, slot_get_mut, slot_insert, slot_remove, with_room};
use crate::width::Width;

verus! {

/// Whether `modify` may be called to merge `data` into the payload at
/// `slot`, where that slot is taken.
pub open spec fn mergeable<C, T, F: FnOnce(&mut T, &T)>(
    entries: Map<int, (C, T)>,
    slot: int,
    data: T,
    modify: F,
) -> bool {
    entries.contains_key(slot) ==> forall|payload: &mut T|
        *payload == entries[slot].1 ==> #[trigger] call_requires(modify, (payload, &data))
}

/// The entries after the payload at the taken slot `slot` is replaced by
/// `merged`. The content there stays the occupant.
pub open spec fn remade<C, T>(entries: Map<int, (C, T)>, slot: int, merged: T) -> Map<
    int,
    (C, T),
> {
    entries.insert(slot, (entries[slot].0, merged))
}

/// How many more steps a probe that set out from `start` and now stands at
/// `slot` can take in `heading` before it is back at `start`.
spec fn steps_left(heading: Step, start: int, slot: int, top: int) -> int {
    match heading {
        Step::Rest => top + 1,
        Step::Advance => if slot <= start {
            start - slot
        } else {
            top + 1 - slot + start
        },
        Step::Retreat => if slot >= start {
            slot - start
        } else {
            slot + top + 1 - start
        },
    }
}

/// A table that assigns identifiers of width `W` to content of type `C`,
/// hashed by `H`, and keeps a payload of type `T` beside each content.
pub struct AssociativeIdentifierTable<C, H, T, W: Width> {
    // Key is the identifier's slot.
    alloted: IntMap<u64, (C, T)>,
    hasher: H,
    width: PhantomData<W>,
}

/// An associative table with identifiers of 8 bits.
pub type PerfectHashMap8<C, H, T> = AssociativeIdentifierTable<C, H, T, u8>;

/// An associative table with identifiers of 16 bits.
pub type PerfectHashMap16<C, H, T> = AssociativeIdentifierTable<C, H, T, u16>;

/// An associative table with identifiers of 32 bits.
pub type PerfectHashMap32<C, H, T> = AssociativeIdentifierTable<C, H, T, u32>;

/// An associative table with identifiers of 64 bits.
pub type PerfectHashMap64<C, H, T> = AssociativeIdentifierTable<C, H, T, u64>;

/// An associative table with identifiers of the machine's word size.
pub type PerfectHashMap<C, H, T> = AssociativeIdentifierTable<C, H, T, usize>;

impl<C, H, T, W: Width> AssociativeIdentifierTable<C, H, T, W> {
    /// The occupied slots, each with the content and payload it holds.
    pub closed spec fn entries(&self) -> Map<int, (C, T)> {
        Map::new(
            |slot: int| 0 <= slot <= W::top() && self.alloted@.contains_key(slot as u64),
            |slot: int| self.alloted@[slot as u64],
        )
    }

    /// The occupied slots, each with the content it holds.
    pub open spec fn slots(&self) -> Map<int, C> {
        self.entries().map_values(|entry: (C, T)| entry.0)
    }

    /// The occupied slots, each with the payload it holds.
    pub open spec fn payloads(&self) -> Map<int, T> {
        self.entries().map_values(|entry: (C, T)| entry.1)
    }

    /// Only slots of the table's width are ever occupied, so there are
    /// finitely many of them.
    pub proof fn lemma_entries_bounded(&self)
        ensures
            forall|slot: int| self.entries().contains_key(slot) ==> 0 <= slot <= W::top(),
            self.entries().dom().finite(),
            self.entries().dom().len() <= W::top() + 1,
    {
        W::lemma_top_fits();
        let range = set_int_range(0, W::top() + 1);
        assert(self.entries().dom().subset_of(range));
        lemma_int_range(0, W::top() + 1);
        lemma_len_subset(self.entries().dom(), range);
    }

    /// An empty table that hashes with `hasher`.
    pub fn with_hasher(hasher: H) -> (table: Self)
        ensures
            table.entries() == Map::<int, (C, T)>::empty(),
    {
        let table = AssociativeIdentifierTable {
            alloted: IntMap::default(),
            hasher,
            width: PhantomData,
        };
        assert(table.entries() =~= Map::<int, (C, T)>::empty());
        table
    }

    /// An empty table that hashes with `hasher`, with room for `capacity`
    /// entries set aside.
    pub fn with_capacity_and_hasher(capacity: W, hasher: H) -> (table: Self)
        ensures
            table.entries() == Map::<int, (C, T)>::empty(),
    {
        let room = #[verifier::truncate]
        (capacity.key() as usize);
        let table = AssociativeIdentifierTable {
            alloted: with_room(room),
            hasher,
            width: PhantomData,
        };
        assert(table.entries() =~= Map::<int, (C, T)>::empty());
        table
    }

    /// The entry at `id`, or `None` where the slot is free.
    pub fn get(&self, id: W) -> (found: Option<&(C, T)>)
        ensures
            found == (if self.entries().contains_key(id.slot()) {
                Some(&self.entries()[id.slot()])
            } else {
                None
            }),
    {
        proof {
            W::lemma_top_fits();
            id.lemma_in_range();
        }
        slot_get(&self.alloted, id.key())
    }

    /// The content at `id` and its payload for update in place, or `None`
    /// where the slot is free.
    pub fn get_mut(&mut self, id: W) -> (found: Option<(&C, &mut T)>)
        ensures
            found.is_some() == old(self).entries().contains_key(id.slot()),
            found.is_none() ==> final(self).entries() == old(self).entries(),
            found.is_some() ==> *found.unwrap().0 == old(self).entries()[id.slot()].0,
            found.is_some() ==> *found.unwrap().1 == old(self).entries()[id.slot()].1,
            found.is_some() ==> final(self).entries() == remade(
                old(self).entries(),
                id.slot(),
                *final(found.unwrap().1),
            ),
    {
        proof {
            W::lemma_top_fits();
            id.lemma_in_range();
        }
        match slot_get_mut(&mut self.alloted, id.key()) {
            Some(entry) => Some((&entry.0, &mut entry.1)),
            None => None,
        }
    }

    /// The content at `id` and its payload for update in place. The slot
    /// must be taken.
    pub fn index_mut(&mut self, id: Id<W>) -> (found: (&C, &mut T))
        requires
            old(self).entries().contains_key(id@.slot()),
        ensures
            *found.0 == old(self).entries()[id@.slot()].0,
            *found.1 == old(self).entries()[id@.slot()].1,
            final(self).entries() == remade(old(self).entries(), id@.slot(), *final(found.1)),
    {
        self.get_mut(id.raw()).unwrap()
    }

    /// Frees the slot at `id`. Every other slot stays as it is.
    pub fn dissociate(&mut self, id: Id<W>)
        ensures
            final(self).entries() == old(self).entries().remove(id@.slot()),
    {
        proof {
            W::lemma_top_fits();
            id@.lemma_in_range();
        }
        slot_remove(&mut self.alloted, id.raw().key());
        assert(self.entries() =~= old(self).entries().remove(id@.slot()));
    }
}

impl<C, T, W: Width> AssociativeIdentifierTable<C, DefaultHasher, T, W> {
    /// An empty table that hashes with the standard library's default
    /// hasher, which resists crafted collisions at some cost in speed.
    pub fn new() -> (table: Self)
        ensures
            table.entries() == Map::<int, (C, T)>::empty(),
    {
        Self::with_hasher(DefaultHasher::new())
    }
}

impl<C, H, T, W: Width> Default for AssociativeIdentifierTable<C, H, T, W> where
    H: Hasher + Default,
    C: Hash + Ord,
 {
    /// An empty table that hashes with the hasher's default.
    fn default() -> (table: Self)
        ensures
            table.entries() == Map::<int, (C, T)>::empty(),
    {
        Self::with_hasher(H::default())
    }
}

impl<C, H, T, W: Width> Index<Id<W>> for AssociativeIdentifierTable<C, H, T, W> {
    type Output = (C, T);

    /// The entry at `id`, whose slot must be taken.
    fn index(&self, id: Id<W>) -> (entry: &(C, T))
        ensures
            *entry == self.entries()[id@.slot()],
    {
        self.get(id.raw()).unwrap()
    }
}

impl<C, H, T, W: Width> vstd::std_specs::core::IndexSpecImpl<Id<W>> for AssociativeIdentifierTable<C, H, T, W> {
    open spec fn index_req(&self, id: &Id<W>) -> bool {
        self.entries().contains_key(id@.slot())
    }
}

impl<C: Hash + Ord, H: Hasher, T, W: Width> AssociativeIdentifierTable<C, H, T, W> {
    /// An empty table that hashes with the standard library's default
    /// hasher, with room for `capacity` entries set aside.
    pub fn with_capacity(capacity: W) -> (table: AssociativeIdentifierTable<C, DefaultHasher, T, W>)
        ensures
            table.entries() == Map::<int, (C, T)>::empty(),
    {
        AssociativeIdentifierTable::with_capacity_and_hasher(capacity, DefaultHasher::new())
    }

    /// Feeds `content` to the table's hasher and reads off the slot that
    /// the digest names. The hasher is not reset: the digest may depend on
    /// all that was fed before.
    fn start_for(&mut self, content: &C) -> (start: W)
        ensures
            final(self).entries() == old(self).entries(),
    {
        feed(content, &mut self.hasher);
        W::truncated(digest(&self.hasher))
    }

    /// Follows the probe for `content` from `start` to the slot where it
    /// ends.
    fn seek(&self, start: W, content: &C) -> (end: W)
        requires
            ordered::<C>(),
            halts(self.slots(), *content, start.slot(), W::top()),
        ensures
            end.slot() == landing(self.slots(), *content, start.slot(), W::top()),
            !passes(self.slots(), *content, end.slot()),
    {
        let mut here = start;
        let ghost mut fuel: nat = choose|fuel: nat|
            walk(self.slots(), *content, start.slot(), W::top(), fuel).is_some();
        proof {
            lemma_walk_lands(self.slots(), *content, start.slot(), W::top(), fuel);
        }
        loop
            invariant
                ordered::<C>(),
                walk(self.slots(), *content, here.slot(), W::top(), fuel) == Some(
                    landing(self.slots(), *content, start.slot(), W::top()),
                ),
            decreases fuel,
        {
            proof {
                W::lemma_top_fits();
                here.lemma_in_range();
            }
            match slot_get(&self.alloted, here.key()) {
                None => {
                    return here;
                },
                Some(entry) => {
                    match compare(content, &entry.0) {
                        Step::Rest => {
                            return here;
                        },
                        Step::Advance => {
                            here = here.step_up();
                        },
                        Step::Retreat => {
                            here = here.step_down();
                        },
                    }
                    proof {
                        fuel = (fuel - 1) as nat;
                    }
                },
            }
        }
    }

    /// Follows the probe for `content` from `start` and reports the slot
    /// where it ends, or `None` where it never ends: where it is sent
    /// straight back to a slot it came from, or comes round to `start` again.
    pub fn probe(&self, start: W, content: &C) -> (found: Option<W>)
        requires
            ordered::<C>(),
        ensures
            found.is_some() == halts(self.slots(), *content, start.slot(), W::top()),
            found.is_some() ==> found.unwrap().slot() == landing(
                self.slots(),
                *content,
                start.slot(),
                W::top(),
            ),
            found.is_some() ==> !passes(self.slots(), *content, found.unwrap().slot()),
    {
        let mut here = start;
        let mut heading = Step::Rest;
        let ghost mut taken: nat = 0;
        let ghost mut previous: int = start.slot();
        assert(stands_at(self.slots(), *content, start.slot(), start.slot(), W::top(), 0));
        loop
            invariant
                ordered::<C>(),
                stands_at(self.slots(), *content, start.slot(), here.slot(), W::top(), taken),
                heading == Step::Rest ==> here.slot() == start.slot(),
                heading != Step::Rest ==> {
                    &&& here.slot() != start.slot()
                    &&& 0 <= previous <= W::top()
                    &&& passes(self.slots(), *content, previous)
                    &&& direction(*content, self.slots()[previous]) == heading
                    &&& onward(self.slots(), *content, previous, W::top()) == here.slot()
                },
            decreases steps_left(heading, start.slot(), here.slot(), W::top()),
        {
            proof {
                W::lemma_top_fits();
                here.lemma_in_range();
                start.lemma_in_range();
            }
            let step = match slot_get(&self.alloted, here.key()) {
                None => Step::Rest,
                Some(entry) => compare(content, &entry.0),
            };
            if step == Step::Rest {
                proof {
                    lemma_stands_lands(
                        self.slots(),
                        *content,
                        start.slot(),
                        here.slot(),
                        W::top(),
                        taken,
                    );
                }
                return Some(here);
            }
            if heading != Step::Rest && step != heading {
                proof {
                    lemma_turn_never_halts(self.slots(), *content, here.slot(), W::top());
                    lemma_stands_stuck(
                        self.slots(),
                        *content,
                        start.slot(),
                        here.slot(),
                        W::top(),
                        taken,
                    );
                }
                return None;
            }
            let next = if step == Step::Advance {
                here.step_up()
            } else {
                here.step_down()
            };
            proof {
                lemma_stands_onward(
                    self.slots(),
                    *content,
                    start.slot(),
                    here.slot(),
                    W::top(),
                    taken,
                );
            }
            if next.key() == start.key() {
                proof {
                    lemma_lap_never_halts(self.slots(), *content, start.slot(), W::top(), taken + 1);
                }
                return None;
            }
            proof {
                previous = here.slot();
                taken = taken + 1;
            }
            here = next;
            heading = step;
        }
    }

    /// Installs `content` and `data` at `at`: stored as they are where the
    /// slot is free, `data` merged into the payload where it is taken.
    fn install<F: FnOnce(&mut T, &T)>(&mut self, at: W, content: C, data: T, modify: F) -> (id: Id<
        W,
    >)
        requires
            mergeable(old(self).entries(), at.slot(), data, modify),
        ensures
            id@ == at,
            final(self).slots() == placed(old(self).slots(), at.slot(), content),
            !old(self).entries().contains_key(at.slot()) ==> final(self).entries() == old(
                self,
            ).entries().insert(at.slot(), (content, data)),
            old(self).entries().contains_key(at.slot()) ==> exists|payload: &mut T|
                {
                    &&& *payload == old(self).entries()[at.slot()].1
                    &&& #[trigger] call_ensures(modify, (payload, &data), ())
                    &&& final(self).entries() == remade(
                        old(self).entries(),
                        at.slot(),
                        *final(payload),
                    )
                },
            final(self).entries().dom().len() <= old(self).entries().dom().len() + 1,
    {
        proof {
            W::lemma_top_fits();
            at.lemma_in_range();
        }
        match slot_get_mut(&mut self.alloted, at.key()) {
            Some(entry) => {
                modify(&mut entry.1, &data);
            },
            None => {
                slot_insert(&mut self.alloted, at.key(), (content, data));
            },
        }
        proof {
            old(self).lemma_entries_bounded();
            if !old(self).entries().contains_key(at.slot()) {
                assert(self.entries() =~= old(self).entries().insert(at.slot(), (content, data)));
            }
            assert(self.entries().dom() =~= old(self).entries().dom().insert(at.slot()));
            assert(self.slots() =~= placed(old(self).slots(), at.slot(), content));
        }
        Id::new(at)
    }

    /// Assigns an identifier to `content`, probing from `start`.
    ///
    /// Where the probe lands on a free slot, `content` and `data` are stored
    /// there. Where it lands on content equal to `content`, that content
    /// stays, and `modify` merges `data` into its payload.
    ///
    /// The probe must end: on other inputs this function does not return.
    pub fn unique_id_at<F: FnOnce(&mut T, &T)>(
        &mut self,
        start: W,
        content: C,
        data: T,
        modify: F,
    ) -> (id: Id<W>)
        requires
            ordered::<C>(),
            halts(old(self).slots(), content, start.slot(), W::top()),
            mergeable(
                old(self).entries(),
                landing(old(self).slots(), content, start.slot(), W::top()),
                data,
                modify,
            ),
        ensures
            id@.slot() == landing(old(self).slots(), content, start.slot(), W::top()),
            !passes(old(self).slots(), content, id@.slot()),
            final(self).slots() == placed(old(self).slots(), id@.slot(), content),
            !old(self).entries().contains_key(id@.slot()) ==> final(self).entries() == old(
                self,
            ).entries().insert(id@.slot(), (content, data)),
            old(self).entries().contains_key(id@.slot()) ==> exists|payload: &mut T|
                {
                    &&& *payload == old(self).entries()[id@.slot()].1
                    &&& #[trigger] call_ensures(modify, (payload, &data), ())
                    &&& final(self).entries() == remade(
                        old(self).entries(),
                        id@.slot(),
                        *final(payload),
                    )
                },
            final(self).entries().dom().len() <= old(self).entries().dom().len() + 1,
    {
        let end = self.seek(start, &content);
        self.install(end, content, data, modify)
    }

    /// Assigns an identifier to `content`, probing from the slot that the
    /// table's hasher names for it.
    ///
    /// The hasher keeps what it was fed by earlier calls, so the starting
    /// slot may be any slot of the table's width. The probe must end
    /// wherever it starts: on other inputs this function may not return.
    pub fn unique_id<F: FnOnce(&mut T, &T)>(&mut self, content: C, data: T, modify: F) -> (id: Id<
        W,
    >)
        requires
            ordered::<C>(),
            forall|start: int|
                0 <= start <= W::top() ==> #[trigger] halts(
                    old(self).slots(),
                    content,
                    start,
                    W::top(),
                ),
            forall|start: int|
                0 <= start <= W::top() ==> mergeable(
                    old(self).entries(),
                    #[trigger] landing(old(self).slots(), content, start, W::top()),
                    data,
                    modify,
                ),
        ensures
            exists|start: int|
                0 <= start <= W::top() && id@.slot() == #[trigger] landing(
                    old(self).slots(),
                    content,
                    start,
                    W::top(),
                ),
            !passes(old(self).slots(), content, id@.slot()),
            final(self).slots() == placed(old(self).slots(), id@.slot(), content),
            !old(self).entries().contains_key(id@.slot()) ==> final(self).entries() == old(
                self,
            ).entries().insert(id@.slot(), (content, data)),
            old(self).entries().contains_key(id@.slot()) ==> exists|payload: &mut T|
                {
                    &&& *payload == old(self).entries()[id@.slot()].1
                    &&& #[trigger] call_ensures(modify, (payload, &data), ())
                    &&& final(self).entries() == remade(
                        old(self).entries(),
                        id@.slot(),
                        *final(payload),
                    )
                },
            final(self).entries().dom().len() <= old(self).entries().dom().len() + 1,
    {
        let start = self.start_for(&content);
        proof {
            start.lemma_in_range();
            // Hashing left the slots as they were on entry.
            assert(halts(old(self).slots(), content, start.slot(), W::top()));
        }
        self.unique_id_at(start, content, data, modify)
    }

    /// Assigns an identifier to `content` as `unique_id` does, where the
    /// probe from the slot that the hasher names ends. Where it never ends,
    /// the result is `None` and the entries stay as they are.
    pub fn try_unique_id<F: FnOnce(&mut T, &T)>(&mut self, content: C, data: T, modify: F) -> (found:
        Option<Id<W>>)
        requires
            ordered::<C>(),
            forall|start: int|
                0 <= start <= W::top() && halts(old(self).slots(), content, start, W::top())
                    ==> mergeable(
                    old(self).entries(),
                    #[trigger] landing(old(self).slots(), content, start, W::top()),
                    data,
                    modify,
                ),
        ensures
            exists|start: int|
                {
                    &&& 0 <= start <= W::top()
                    &&& found.is_some() == #[trigger] halts(
                        old(self).slots(),
                        content,
                        start,
                        W::top(),
                    )
                    &&& found.is_some() ==> found.unwrap()@.slot() == landing(
                        old(self).slots(),
                        content,
                        start,
                        W::top(),
                    )
                },
            found.is_none() ==> final(self).entries() == old(self).entries(),
            found.is_some() ==> !passes(old(self).slots(), content, found.unwrap()@.slot()),
            found.is_some() ==> final(self).slots() == placed(
                old(self).slots(),
                found.unwrap()@.slot(),
                content,
            ),
            found.is_some() && !old(self).entries().contains_key(found.unwrap()@.slot())
                ==> final(self).entries() == old(self).entries().insert(
                found.unwrap()@.slot(),
                (content, data),
            ),
            found.is_some() && old(self).entries().contains_key(found.unwrap()@.slot())
                ==> exists|payload: &mut T|
                {
                    &&& *payload == old(self).entries()[found.unwrap()@.slot()].1
                    &&& #[trigger] call_ensures(modify, (payload, &data), ())
                    &&& final(self).entries() == remade(
                        old(self).entries(),
                        found.unwrap()@.slot(),
                        *final(payload),
                    )
                },
            final(self).entries().dom().len() <= old(self).entries().dom().len() + 1,
    {
        let start = self.start_for(&content);
        let landed = self.probe(start, &content);
        proof {
            start.lemma_in_range();
            // Hashing left the slots as they were on entry.
            assert(landed.is_some() == halts(old(self).slots(), content, start.slot(), W::top()));
        }
        match landed {
            Some(end) => Some(self.install(end, content, data, modify)),
            None => None,
        }
    }
}

} // verus!
