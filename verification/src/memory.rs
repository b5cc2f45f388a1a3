//! A model of a span of executable memory.
//!
//! The engine patches instructions in place, so all of its reasoning is about
//! the bytes that sit at a given address at a given instant. `Memory` holds
//! those bytes explicitly: a contiguous image starting at `base`, read and
//! written one byte at a time.

use vstd::prelude::*;

verus! {

/// Replaces the bytes of `bytes` at offsets `i .. i + patch.len()` with
/// `patch`, leaving every other offset unchanged.
pub open spec fn store_bytes(bytes: Seq<u8>, i: int, patch: Seq<u8>) -> Seq<u8> {
    Seq::new(bytes.len(), |j: int| if i <= j < i + patch.len() {
        patch[j - i]
    } else {
        bytes[j]
    })
}

/// A contiguous span of executable memory starting at address `base`.
///
/// The view of a `Memory` is its byte contents; the byte at address `a` is
/// `self@[a - self.base()]`.
pub struct Memory {
    base: u32,
    bytes: Vec<u8>,
}

impl View for Memory {
    type V = Seq<u8>;

    closed spec fn view(&self) -> Seq<u8> {
        self.bytes@
    }
}

impl Memory {
    /// The lowest address of the span.
    pub closed spec fn spec_base(&self) -> u32 {
        self.base
    }

    /// True when the `n` bytes at addresses `addr .. addr + n` lie inside the
    /// span.
    pub open spec fn contains_range(self, addr: u32, n: int) -> bool {
        &&& self.spec_base() <= addr
        &&& addr - self.spec_base() + n <= self@.len()
    }

    pub fn new(base: u32, bytes: Vec<u8>) -> (r: Memory)
        ensures
            r.spec_base() == base,
            r@ == bytes@,
    {
        Memory { base, bytes }
    }

    /// The lowest address of the span.
    #[verifier::when_used_as_spec(spec_base)]
    pub fn base(&self) -> (r: u32)
        ensures
            r == self.spec_base(),
    {
        self.base
    }

    /// The byte at offset `i` from `base`.
    pub fn byte_at(&self, i: usize) -> (r: u8)
        requires
            i < self@.len(),
        ensures
            r == self@[i as int],
    {
        self.bytes[i]
    }

    /// Overwrites the byte at offset `i` from `base`.
    pub fn set_byte(&mut self, i: usize, b: u8)
        requires
            i < old(self)@.len(),
        ensures
            final(self).spec_base() == old(self).spec_base(),
            final(self)@ == old(self)@.update(i as int, b),
    {
        self.bytes[i] = b;
    }

    pub fn len(&self) -> (r: usize)
        ensures
            r == self@.len(),
    {
        self.bytes.len()
    }
}

} // verus!
