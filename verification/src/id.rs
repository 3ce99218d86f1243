//! The typed identifier handle.
use vstd::prelude::*;

verus! {

/// An identifier minted by a table: a thin handle over the raw integer that
/// names the slot holding the content.
#[derive(Debug, Copy, Clone, PartialEq, Eq, PartialOrd, Ord)]
pub struct Id<T> {
    key: T,
}

impl<T> View for Id<T> {
    type V = T;

    /// The raw integer under the handle.
    closed spec fn view(&self) -> T {
        self.key
    }
}

impl<T> Id<T> {
    /// Wraps a raw integer. Tables mint their identifiers with it; an
    /// identifier made by hand names its slot like any other, taken or free.
    pub fn new(key: T) -> (id: Id<T>)
        ensures
            id@ == key,
    {
        Id { key }
    }
}

impl<T: Copy> Id<T> {
    /// The raw integer under the handle.
    pub fn raw(&self) -> (key: T)
        ensures
            key == self@,
    {
        self.key
    }
}

impl Into<u8> for Id<u8> {
    /// The raw integer under the handle.
    fn into(self) -> (key: u8) {
        self.key
    }
}

impl vstd::std_specs::convert::IntoSpecImpl<u8> for Id<u8> {
    open spec fn obeys_into_spec() -> bool {
        true
    }

    open spec fn into_spec(self) -> u8 {
        self@
    }
}

impl Into<u8> for &Id<u8> {
    /// The raw integer under the handle.
    fn into(self) -> (key: u8) {
        self.key
    }
}

impl vstd::std_specs::convert::IntoSpecImpl<u8> for &Id<u8> {
    open spec fn obeys_into_spec() -> bool {
        true
    }

    open spec fn into_spec(self) -> u8 {
        self@
    }
}

impl Into<u16> for Id<u16> {
    /// The raw integer under the handle.
    fn into(self) -> (key: u16) {
        self.key
    }
}

impl vstd::std_specs::convert::IntoSpecImpl<u16> for Id<u16> {
    open spec fn obeys_into_spec() -> bool {
        true
    }

    open spec fn into_spec(self) -> u16 {
        self@
    }
}

impl Into<u16> for &Id<u16> {
    /// The raw integer under the handle.
    fn into(self) -> (key: u16) {
        self.key
    }
}

impl vstd::std_specs::convert::IntoSpecImpl<u16> for &Id<u16> {
    open spec fn obeys_into_spec() -> bool {
        true
    }

    open spec fn into_spec(self) -> u16 {
        self@
    }
}

impl Into<u32> for Id<u32> {
    /// The raw integer under the handle.
    fn into(self) -> (key: u32) {
        self.key
    }
}

impl vstd::std_specs::convert::IntoSpecImpl<u32> for Id<u32> {
    open spec fn obeys_into_spec() -> bool {
        true
    }

    open spec fn into_spec(self) -> u32 {
        self@
    }
}

impl Into<u32> for &Id<u32> {
    /// The raw integer under the handle.
    fn into(self) -> (key: u32) {
        self.key
    }
}

impl vstd::std_specs::convert::IntoSpecImpl<u32> for &Id<u32> {
    open spec fn obeys_into_spec() -> bool {
        true
    }

    open spec fn into_spec(self) -> u32 {
        self@
    }
}

impl Into<u64> for Id<u64> {
    /// The raw integer under the handle.
    fn into(self) -> (key: u64) {
        self.key
    }
}

impl vstd::std_specs::convert::IntoSpecImpl<u64> for Id<u64> {
    open spec fn obeys_into_spec() -> bool {
        true
    }

    open spec fn into_spec(self) -> u64 {
        self@
    }
}

impl Into<u64> for &Id<u64> {
    /// The raw integer under the handle.
    fn into(self) -> (key: u64) {
        self.key
    }
}

impl vstd::std_specs::convert::IntoSpecImpl<u64> for &Id<u64> {
    open spec fn obeys_into_spec() -> bool {
        true
    }

    open spec fn into_spec(self) -> u64 {
        self@
    }
}

impl Into<usize> for Id<usize> {
    /// The raw integer under the handle.
    fn into(self) -> (key: usize) {
        self.key
    }
}

impl vstd::std_specs::convert::IntoSpecImpl<usize> for Id<usize> {
    open spec fn obeys_into_spec() -> bool {
        true
    }

    open spec fn into_spec(self) -> usize {
        self@
    }
}

impl Into<usize> for &Id<usize> {
    /// The raw integer under the handle.
    fn into(self) -> (key: usize) {
        self.key
    }
}

impl vstd::std_specs::convert::IntoSpecImpl<usize> for &Id<usize> {
    open spec fn obeys_into_spec() -> bool {
        true
    }

    open spec fn into_spec(self) -> usize {
        self@
    }
}

} // verus!
