//! Shared hashing utilities: the double-hashing kernel that produces a pair
//! of 64-bit digests for an element, and the derivation of many index
//! positions in `[0, m)` from that pair without re-hashing the element.

use vstd::prelude::*;

verus! {

use std::collections::hash_map::DefaultHasher;
use std::collections::hash_map::RandomState;
use std::hash::BuildHasher;
use std::hash::Hasher;
use vstd::std_specs::hash::DefaultHasherAdditionalSpecFns;

/// Digest of `element` under the hash function described by `seed`: a fresh
/// unkeyed hasher is fed the seed bytes, then the element bytes, and finished.
pub open spec fn spec_digest(seed: Seq<u8>, element: Seq<u8>) -> u64 {
    DefaultHasher::spec_finish(seq![seed, element])
}

/// The `k`-th derived position for an element whose digests are `h1` and
/// `h2`: the sums wrap around the 64-bit space, then reduce modulo `m`.
pub open spec fn spec_index(m: u64, h1: u64, h2: u64, k: u32) -> int {
    (h1.wrapping_add((k as u64).wrapping_add(h2)) as int) % (m as int)
}

/// A structure that accumulates elements of type `T`.
pub trait Insertable<T> {
    /// Whether the structure is in a state in which an insert is allowed.
    spec fn ready(&self) -> bool;

    fn insert(&mut self, element: T)
        requires
            old(self).ready(),
    ;
}

/// A structure that accumulates elements of type `T` and answers
/// (approximate) membership queries over them.
pub trait SetLike<T> {
    /// Whether the structure is in a state in which its operations are allowed.
    spec fn ready(&self) -> bool;

    fn contains(&self, element: T) -> bool
        requires
            self.ready(),
    ;

    fn insert(&mut self, element: T)
        requires
            old(self).ready(),
    ;
}

/// Feeds `element` to both hashers and finishes each, yielding the pair of
/// digests from which index positions are derived.
pub fn hash_kernel(h1: &mut DefaultHasher, h2: &mut DefaultHasher, element: &[u8]) -> (r: (u64,
    u64))
    ensures
        final(h1)@ == old(h1)@.push(element@),
        final(h2)@ == old(h2)@.push(element@),
        r.0 == DefaultHasher::spec_finish(old(h1)@.push(element@)),
        r.1 == DefaultHasher::spec_finish(old(h2)@.push(element@)),
{
    h1.write(element);
    h2.write(element);
    let d1 = (*h1).finish();
    let d2 = (*h2).finish();
    (d1, d2)
}

/// Relies on std's RandomState::new: a hasher factory keyed with fresh
/// random material; nothing is promised of the keys it drew.
#[verifier::external_body]
fn new_random_state() -> RandomState {
    RandomState::new()
}

/// Relies on std's RandomState::build_hasher: a hasher whose initial state
/// comes from the factory's random keys; nothing is promised of that state.
#[verifier::external_body]
fn random_hasher(s: &RandomState) -> DefaultHasher {
    s.build_hasher()
}

/// Eight seed bytes drawn from a randomly keyed hasher's digest; each call
/// may return different bytes.
pub fn fresh_seed() -> (r: Vec<u8>)
    ensures
        r@.len() == 8,
{
    let st = new_random_state();
    let h = random_hasher(&st);
    let x = h.finish();
    vstd::bytes::u64_to_le_bytes(x)
}

/// The `k`-th of several positions in `[0, m)` derived from the digest pair
/// `(h1, h2)`; the additions intentionally wrap in 64-bit space.
pub fn get_index(m: u64, h1: u64, h2: u64, k: u32) -> (r: usize)
    requires
        m > 0,
        m <= usize::MAX as u64,
    ensures
        r == spec_index(m, h1, h2, k),
        r < m,
{
    (h1.wrapping_add((k as u64).wrapping_add(h2)) % m) as usize
}

} // verus!
