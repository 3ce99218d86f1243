//! The order on content, read as a probe direction.
use vstd::prelude::*;
use std::cmp::Ordering;
use vstd::laws_cmp::{obeys_cmp, obeys_cmp_ord, obeys_partial_cmp_spec_properties};
use vstd::std_specs::cmp::{OrdSpec, PartialOrdSpec};

verus! {

/// What a probe does at an occupied slot.
#[derive(Debug, Copy, Clone, PartialEq, Eq, Structural)]
pub enum Step {
    /// The occupant equals the content: the probe ends here.
    Rest,
    /// The content orders above the occupant: go one slot up.
    Advance,
    /// The content orders below the occupant: go one slot down.
    Retreat,
}

/// Whether executable comparisons of `C` agree with the order that
/// contracts speak of.
pub open spec fn ordered<C: Ord>() -> bool {
    C::obeys_cmp_spec()
}

/// Whether the order on `C` is a total order, and executable comparisons
/// agree with it.
pub open spec fn total_order<C: Ord>() -> bool {
    obeys_cmp::<C>()
}

/// The step a probe for `content` takes on meeting `occupant`.
pub open spec fn direction<C: Ord>(content: C, occupant: C) -> Step {
    match content.cmp_spec(&occupant) {
        Ordering::Equal => Step::Rest,
        Ordering::Greater => Step::Advance,
        Ordering::Less => Step::Retreat,
    }
}

/// Compares `content` with `occupant` and reports the probe's next step.
pub fn compare<C: Ord>(content: &C, occupant: &C) -> (step: Step)
    ensures
        ordered::<C>() ==> step == direction(*content, *occupant),
{
    match content.cmp(occupant) {
        Ordering::Equal => Step::Rest,
        Ordering::Greater => Step::Advance,
        Ordering::Less => Step::Retreat,
    }
}

/// Under a total order, comparisons are as contracts say.
pub proof fn lemma_total_order_ordered<C: Ord>()
    requires
        total_order::<C>(),
    ensures
        ordered::<C>(),
{
    reveal(obeys_cmp_ord);
}

/// Under a total order, content equals itself: a probe that meets the very
/// content it carries ends there.
pub proof fn lemma_equal_to_itself<C: Ord>(content: C)
    requires
        total_order::<C>(),
    ensures
        direction(content, content) == Step::Rest,
{
    reveal(obeys_cmp_ord);
    reveal(obeys_partial_cmp_spec_properties);
    assert(content.partial_cmp_spec(&content) == Some(content.cmp_spec(&content)));
}

} // verus!
