//! The plain table: identifiers for content.
use vstd::prelude::*;
use std::collections::hash_map::DefaultHasher;
use std::hash::{Hash, Hasher};
use std::ops::Index;
use crate::assoc::AssociativeIdentifierTable;
use crate::id::Id;
use crate::order::ordered;
use crate::probe::{halts, landing, passes, placed};
use crate::width::Width;

verus! {

/// The content at the slot that `id` names, if the slot is taken.
pub open spec fn content_at<C, W: Width>(slots: Map<int, C>, id: Id<W>) -> Option<C> {
    if slots.contains_key(id@.slot()) {
        Some(slots[id@.slot()])
    } else {
        None
    }
}

/// The content found under `ids`, in their order. An identifier whose slot
/// is free contributes nothing.
pub open spec fn projected<C, W: Width>(slots: Map<int, C>, ids: Seq<Id<W>>) -> Seq<C> {
    ids.filter_map(|id: Id<W>| content_at(slots, id))
}

/// Projecting one identifier more appends its content, if its slot is taken.
proof fn lemma_projected_next<C, W: Width>(slots: Map<int, C>, ids: Seq<Id<W>>, at: int)
    requires
        0 <= at < ids.len(),
    ensures
        projected(slots, ids.take(at + 1)) == projected(slots, ids.take(at)) + (match content_at(
            slots,
            ids[at],
        ) {
            Some(content) => seq![content],
            None => seq![],
        }),
{
    ids.lemma_filter_map_take_succ(|id: Id<W>| content_at(slots, id), at);
}

/// A table that assigns identifiers of width `W` to content of type `C`,
/// hashed by `H`. Equal content gets the identifier of the content that is
/// already there.
pub struct IdentifierTable<C, H, W: Width> {
    inner: AssociativeIdentifierTable<C, H, (), W>,
}

/// A table with identifiers of 8 bits.
pub type PerfectHasher8<C, H> = IdentifierTable<C, H, u8>;

/// A table with identifiers of 16 bits.
pub type PerfectHasher16<C, H> = IdentifierTable<C, H, u16>;

/// A table with identifiers of 32 bits.
pub type PerfectHasher32<C, H> = IdentifierTable<C, H, u32>;

/// A table with identifiers of 64 bits.
pub type PerfectHasher64<C, H> = IdentifierTable<C, H, u64>;

/// A table with identifiers of the machine's word size.
pub type PerfectHasher<C, H> = IdentifierTable<C, H, usize>;

impl<C, H, W: Width> IdentifierTable<C, H, W> {
    /// The occupied slots, each with the content it holds.
    pub closed spec fn slots(&self) -> Map<int, C> {
        self.inner.slots()
    }

    /// Only slots of the table's width are ever occupied, so there are
    /// finitely many of them.
    pub proof fn lemma_slots_bounded(&self)
        ensures
            forall|slot: int| self.slots().contains_key(slot) ==> 0 <= slot <= W::top(),
            self.slots().dom().finite(),
            self.slots().dom().len() <= W::top() + 1,
    {
        self.inner.lemma_entries_bounded();
        assert(self.slots().dom() =~= self.inner.entries().dom());
    }

    /// An empty table that hashes with `hasher`.
    pub fn with_hasher(hasher: H) -> (table: Self)
        ensures
            table.slots() == Map::<int, C>::empty(),
    {
        let table = IdentifierTable { inner: AssociativeIdentifierTable::with_hasher(hasher) };
        assert(table.slots() =~= Map::<int, C>::empty());
        table
    }

    /// An empty table that hashes with `hasher`, with room for `capacity`
    /// entries set aside.
    pub fn with_capacity_and_hasher(capacity: W, hasher: H) -> (table: Self)
        ensures
            table.slots() == Map::<int, C>::empty(),
    {
        let table = IdentifierTable {
            inner: AssociativeIdentifierTable::with_capacity_and_hasher(capacity, hasher),
        };
        assert(table.slots() =~= Map::<int, C>::empty());
        table
    }

    /// The content at `id`, or `None` where the slot is free.
    pub fn get(&self, id: W) -> (found: Option<&C>)
        ensures
            found == (if self.slots().contains_key(id.slot()) {
                Some(&self.slots()[id.slot()])
            } else {
                None
            }),
    {
        match self.inner.get(id) {
            Some(entry) => Some(&entry.0),
            None => None,
        }
    }

    /// Frees the slot at `id`. Every other slot stays as it is.
    pub fn dissociate(&mut self, id: Id<W>)
        ensures
            final(self).slots() == old(self).slots().remove(id@.slot()),
    {
        self.inner.dissociate(id);
        assert(self.slots() =~= old(self).slots().remove(id@.slot()));
    }

    /// The content under each of `ids`, in their order. An identifier whose
    /// slot has been freed is passed over.
    pub fn contents<'a>(&'a self, ids: &[Id<W>]) -> (found: Vec<&'a C>)
        ensures
            found@.map_values(|content: &C| *content) == projected(self.slots(), ids@),
    {
        let mut found: Vec<&'a C> = Vec::new();
        let mut at: usize = 0;
        while at < ids.len()
            invariant
                at <= ids.len(),
                found@.map_values(|content: &C| *content) == projected(
                    self.slots(),
                    ids@.take(at as int),
                ),
            decreases ids.len() - at,
        {
            proof {
                lemma_projected_next(self.slots(), ids@, at as int);
            }
            match self.get(ids[at].raw()) {
                Some(content) => {
                    found.push(content);
                },
                None => {},
            }
            at = at + 1;
        }
        assert(ids@.take(at as int) =~= ids@);
        found
    }
}

impl<C, W: Width> IdentifierTable<C, DefaultHasher, W> {
    /// An empty table that hashes with the standard library's default
    /// hasher, which resists crafted collisions at some cost in speed.
    pub fn new() -> (table: Self)
        ensures
            table.slots() == Map::<int, C>::empty(),
    {
        Self::with_hasher(DefaultHasher::new())
    }
}

impl<C, H, W: Width> Default for IdentifierTable<C, H, W> where H: Hasher + Default, C: Hash + Ord {
    /// An empty table that hashes with the hasher's default.
    fn default() -> (table: Self)
        ensures
            table.slots() == Map::<int, C>::empty(),
    {
        Self::with_hasher(H::default())
    }
}

impl<C, H, W: Width> Index<Id<W>> for IdentifierTable<C, H, W> {
    type Output = C;

    /// The content at `id`, whose slot must be taken.
    fn index(&self, id: Id<W>) -> (content: &C)
        ensures
            *content == self.slots()[id@.slot()],
    {
        self.get(id.raw()).unwrap()
    }
}

impl<C, H, W: Width> vstd::std_specs::core::IndexSpecImpl<Id<W>> for IdentifierTable<C, H, W> {
    open spec fn index_req(&self, id: &Id<W>) -> bool {
        self.slots().contains_key(id@.slot())
    }
}

impl<C: Hash + Ord, H: Hasher, W: Width> IdentifierTable<C, H, W> {
    /// An empty table that hashes with the standard library's default
    /// hasher, with room for `capacity` entries set aside.
    pub fn with_capacity(capacity: W) -> (table: IdentifierTable<C, DefaultHasher, W>)
        ensures
            table.slots() == Map::<int, C>::empty(),
    {
        IdentifierTable::with_capacity_and_hasher(capacity, DefaultHasher::new())
    }

    /// Follows the probe for `content` from `start` and reports the slot
    /// where it ends, or `None` where it never ends.
    pub fn probe(&self, start: W, content: &C) -> (found: Option<W>)
        requires
            ordered::<C>(),
        ensures
            found.is_some() == halts(self.slots(), *content, start.slot(), W::top()),
            found.is_some() ==> found.unwrap().slot() == landing(
                self.slots(),
                *content,
                start.slot(),
                W::top(),
            ),
            found.is_some() ==> !passes(self.slots(), *content, found.unwrap().slot()),
    {
        self.inner.probe(start, content)
    }

    /// Assigns an identifier to `content`, probing from `start`. Where the
    /// probe lands on a free slot, `content` is stored there. Where it lands
    /// on content equal to `content`, nothing changes.
    ///
    /// The probe must end: on other inputs this function does not return.
    pub fn unique_id_at(&mut self, start: W, content: C) -> (id: Id<W>)
        requires
            ordered::<C>(),
            halts(old(self).slots(), content, start.slot(), W::top()),
        ensures
            id@.slot() == landing(old(self).slots(), content, start.slot(), W::top()),
            !passes(old(self).slots(), content, id@.slot()),
            final(self).slots() == placed(old(self).slots(), id@.slot(), content),
            final(self).slots().dom().len() <= old(self).slots().dom().len() + 1,
    {
        proof {
            old(self).lemma_dom();
        }
        let id = self.inner.unique_id_at(start, content, (), |_payload: &mut (), _data: &()| {});
        proof {
            self.lemma_dom();
        }
        id
    }

    /// Assigns an identifier to `content`, probing from the slot that the
    /// table's hasher names for it.
    ///
    /// The hasher keeps what it was fed by earlier calls, so the starting
    /// slot may be any slot of the table's width. The probe must end
    /// wherever it starts: on other inputs this function may not return.
    pub fn unique_id(&mut self, content: C) -> (id: Id<W>)
        requires
            ordered::<C>(),
            forall|start: int|
                0 <= start <= W::top() ==> #[trigger] halts(
                    old(self).slots(),
                    content,
                    start,
                    W::top(),
                ),
        ensures
            exists|start: int|
                0 <= start <= W::top() && id@.slot() == #[trigger] landing(
                    old(self).slots(),
                    content,
                    start,
                    W::top(),
                ),
            !passes(old(self).slots(), content, id@.slot()),
            final(self).slots() == placed(old(self).slots(), id@.slot(), content),
            final(self).slots().dom().len() <= old(self).slots().dom().len() + 1,
    {
        proof {
            old(self).lemma_dom();
        }
        let id = self.inner.unique_id(content, (), |_payload: &mut (), _data: &()| {});
        proof {
            self.lemma_dom();
        }
        id
    }

    /// Assigns an identifier to `content` as `unique_id` does, where the
    /// probe from the slot that the hasher names ends. Where it never ends,
    /// the result is `None` and the slots stay as they are.
    pub fn try_unique_id(&mut self, content: C) -> (found: Option<Id<W>>)
        requires
            ordered::<C>(),
        ensures
            exists|start: int|
                {
                    &&& 0 <= start <= W::top()
                    &&& found.is_some() == #[trigger] halts(
                        old(self).slots(),
                        content,
                        start,
                        W::top(),
                    )
                    &&& found.is_some() ==> found.unwrap()@.slot() == landing(
                        old(self).slots(),
                        content,
                        start,
                        W::top(),
                    )
                },
            found.is_none() ==> final(self).slots() == old(self).slots(),
            found.is_some() ==> !passes(old(self).slots(), content, found.unwrap()@.slot()),
            found.is_some() ==> final(self).slots() == placed(
                old(self).slots(),
                found.unwrap()@.slot(),
                content,
            ),
            final(self).slots().dom().len() <= old(self).slots().dom().len() + 1,
    {
        proof {
            old(self).lemma_dom();
        }
        let found = self.inner.try_unique_id(content, (), |_payload: &mut (), _data: &()| {});
        proof {
            self.lemma_dom();
        }
        found
    }
}

impl<C, H, W: Width> IdentifierTable<C, H, W> {
    /// The plain table's slots are those of the table it is built on.
    proof fn lemma_dom(&self)
        ensures
            self.slots().dom() == self.inner.entries().dom(),
    {
        assert(self.slots().dom() =~= self.inner.entries().dom());
    }
}

} // verus!
