//! Identifier widths: the unsigned integer types a table can mint
//! identifiers from.
use vstd::prelude::*;

verus! {

/// The slot reached by advancing one step from `slot`, wrapping from `top`
/// back to zero.
pub open spec fn above(slot: int, top: int) -> int {
    if slot == top {
        0
    } else {
        slot + 1
    }
}

/// The slot reached by retreating one step from `slot`, wrapping from zero
/// back to `top`.
pub open spec fn below(slot: int, top: int) -> int {
    if slot == 0 {
        top
    } else {
        slot - 1
    }
}

/// The slot a digest names in an identifier range whose largest slot is
/// `top`: the digest's low bits.
pub open spec fn start_slot(digest: u64, top: int) -> int {
    digest as int % (top + 1)
}

/// An unsigned integer type used as the raw value of an identifier:
/// `u8`, `u16`, `u32`, `u64` or `usize`.
///
/// The slots of a table of this width are the integers `0..=Self::top()`.
pub trait Width: Copy {
    /// The slot this value names.
    spec fn slot(self) -> int;

    /// The largest slot of this width.
    spec fn top() -> int;

    /// The range is not empty, and every slot of it fits in 64 bits.
    proof fn lemma_top_fits()
        ensures
            0 <= Self::top() <= u64::MAX,
    ;

    /// Every value names a slot of the range.
    proof fn lemma_in_range(self)
        ensures
            0 <= self.slot() <= Self::top(),
    ;

    /// Keeps the low bits of a digest.
    fn truncated(digest: u64) -> (w: Self)
        ensures
            w.slot() == start_slot(digest, Self::top()),
    ;

    /// The next slot up, wrapping at the top of the range.
    fn step_up(self) -> (w: Self)
        ensures
            w.slot() == above(self.slot(), Self::top()),
    ;

    /// The next slot down, wrapping at zero.
    fn step_down(self) -> (w: Self)
        ensures
            w.slot() == below(self.slot(), Self::top()),
    ;

    /// The slot as a 64-bit key.
    fn key(self) -> (k: u64)
        ensures
            k == self.slot(),
    ;
}

impl Width for u8 {
    open spec fn slot(self) -> int {
        self as int
    }

    open spec fn top() -> int {
        0xff
    }

    proof fn lemma_top_fits() {
    }

    proof fn lemma_in_range(self) {
    }

    fn truncated(digest: u64) -> (w: Self) {
        assert(digest as u8 == digest % 0x100) by (bit_vector);
        #[verifier::truncate]
        (digest as u8)
    }

    fn step_up(self) -> (w: Self) {
        self.wrapping_add(1)
    }

    fn step_down(self) -> (w: Self) {
        self.wrapping_sub(1)
    }

    fn key(self) -> (k: u64) {
        self as u64
    }
}

impl Width for u16 {
    open spec fn slot(self) -> int {
        self as int
    }

    open spec fn top() -> int {
        0xffff
    }

    proof fn lemma_top_fits() {
    }

    proof fn lemma_in_range(self) {
    }

    fn truncated(digest: u64) -> (w: Self) {
        assert(digest as u16 == digest % 0x1_0000) by (bit_vector);
        #[verifier::truncate]
        (digest as u16)
    }

    fn step_up(self) -> (w: Self) {
        self.wrapping_add(1)
    }

    fn step_down(self) -> (w: Self) {
        self.wrapping_sub(1)
    }

    fn key(self) -> (k: u64) {
        self as u64
    }
}

impl Width for u32 {
    open spec fn slot(self) -> int {
        self as int
    }

    open spec fn top() -> int {
        0xffff_ffff
    }

    proof fn lemma_top_fits() {
    }

    proof fn lemma_in_range(self) {
    }

    fn truncated(digest: u64) -> (w: Self) {
        assert(digest as u32 == digest % 0x1_0000_0000) by (bit_vector);
        #[verifier::truncate]
        (digest as u32)
    }

    fn step_up(self) -> (w: Self) {
        self.wrapping_add(1)
    }

    fn step_down(self) -> (w: Self) {
        self.wrapping_sub(1)
    }

    fn key(self) -> (k: u64) {
        self as u64
    }
}

impl Width for u64 {
    open spec fn slot(self) -> int {
        self as int
    }

    open spec fn top() -> int {
        0xffff_ffff_ffff_ffff
    }

    proof fn lemma_top_fits() {
    }

    proof fn lemma_in_range(self) {
    }

    fn truncated(digest: u64) -> (w: Self) {
        assert(digest as int % 0x1_0000_0000_0000_0000 == digest as int);
        digest
    }

    fn step_up(self) -> (w: Self) {
        self.wrapping_add(1)
    }

    fn step_down(self) -> (w: Self) {
        self.wrapping_sub(1)
    }

    fn key(self) -> (k: u64) {
        self
    }
}

impl Width for usize {
    open spec fn slot(self) -> int {
        self as int
    }

    open spec fn top() -> int {
        usize::MAX as int
    }

    proof fn lemma_top_fits() {
    }

    proof fn lemma_in_range(self) {
    }

    fn truncated(digest: u64) -> (w: Self) {
        proof {
            vstd::layout::unsigned_int_max_values();
            vstd::layout::usize_size_pow2();
            if usize::BITS == 32 {
                vstd::arithmetic::power2::lemma2_to64();
                assert(digest as usize == digest % 0x1_0000_0000) by (bit_vector)
                    requires
                        usize::BITS == 32,
                ;
                assert(usize::MAX as int + 1 == 0x1_0000_0000);
            } else {
                vstd::arithmetic::power2::lemma2_to64_rest();
                assert(digest as usize == digest) by (bit_vector)
                    requires
                        usize::BITS == 64,
                ;
                assert(usize::MAX as int + 1 == 0x1_0000_0000_0000_0000);
            }
        }
        #[verifier::truncate]
        (digest as usize)
    }

    fn step_up(self) -> (w: Self) {
        self.wrapping_add(1)
    }

    fn step_down(self) -> (w: Self) {
        self.wrapping_sub(1)
    }

    fn key(self) -> (k: u64) {
        self as u64
    }
}

} // verus!
