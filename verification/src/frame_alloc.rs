//! A frame-scoped bump allocator backed by `bumpalo`: everything allocated
//! during a frame is released at once by a reset at the start of the next.
use bumpalo::Bump;
use vstd::prelude::*;

verus! {

#[verifier::external_type_specification]
#[verifier::external_body]
pub struct ExBump<const MIN_ALIGN: usize>(Bump<MIN_ALIGN>);

/// `bumpalo::Bump::new`: an empty arena. Nothing about its memory is stated.
#[verifier::external_body]
fn bump_new() -> (r: Bump) {
    Bump::new()
}

/// `bumpalo::Bump::reset`: releases every allocation, keeps the current
/// chunk for reuse and returns the older chunks to the global allocator.
/// Nothing about the arena's memory is stated.
#[verifier::external_body]
fn bump_reset(bump: &mut Bump) {
    bump.reset()
}

/// `bumpalo::Bump::alloc`: moves `value` into the arena and gives a
/// reference to it.
#[verifier::external_body]
fn bump_alloc<'a, T>(bump: &'a Bump, value: T) -> (r: &'a mut T)
    ensures
        *r == value,
{
    bump.alloc(value)
}

/// `bumpalo::Bump::alloc_str`: copies `src` into the arena.
#[verifier::external_body]
fn bump_alloc_str<'a>(bump: &'a Bump, src: &str) -> (r: &'a mut str)
    ensures
        r@ == src@,
{
    bump.alloc_str(src)
}

/// `bumpalo::Bump::allocated_bytes`: the capacity of the arena's chunks.
/// It depends on the allocator's growth policy and is not stated.
#[verifier::external_body]
fn bump_allocated_bytes(bump: &Bump) -> (r: usize) {
    bump.allocated_bytes()
}

/// A frame-scoped bump allocator. Individual allocations are never freed;
/// `reset` reclaims them all. The arena's chunks, byte counts and limit sit
/// behind `Cell`s that `&self` methods change, so they are not part of what
/// the contracts state.
pub struct FrameAllocator {
    bump: Bump,
}

impl FrameAllocator {
    /// The arena behind the allocator.
    pub closed spec fn arena(&self) -> Bump {
        self.bump
    }

    /// An empty allocator.
    pub fn new() -> (r: FrameAllocator) {
        FrameAllocator { bump: bump_new() }
    }

    /// Releases every allocation made so far, keeping the current chunk for
    /// reuse.
    pub fn reset(&mut self) {
        bump_reset(&mut self.bump);
    }

    /// The underlying arena, for `bumpalo` collections.
    pub fn bump(&self) -> (r: &Bump)
        ensures
            *r == self.arena(),
    {
        &self.bump
    }

    /// Moves `value` into the arena; it lives until the next reset.
    pub fn alloc_value<T>(&self, value: T) -> (r: &mut T)
        ensures
            *r == value,
    {
        bump_alloc(&self.bump, value)
    }

    /// Copies `src` into the arena; the copy lives until the next reset.
    pub fn alloc_str_copy(&self, src: &str) -> (r: &mut str)
        ensures
            r@ == src@,
    {
        bump_alloc_str(&self.bump, src)
    }

    /// Bytes held by the arena's chunks: an upper bound on the memory in use.
    pub fn allocated_bytes(&self) -> (r: usize) {
        bump_allocated_bytes(&self.bump)
    }
}

impl Default for FrameAllocator {
    fn default() -> (r: FrameAllocator) {
        FrameAllocator::new()
    }
}

} // verus!
