//! Bloom filter: a bit array of length `m` and `k` derived positions per
//! element. An insert sets the element's `k` bits; a membership query holds
//! iff all `k` bits are set. Queries may report false positives, never false
//! negatives, and a bit once set is never cleared.

use vstd::prelude::*;

verus! {

use std::collections::hash_map::DefaultHasher;
use std::hash::Hasher;
use bit_vec::BitVec;
use crate::utils;
use crate::utils::SetLike;
use crate::utils::spec_digest;
use crate::utils::spec_index;

#[verifier::external_type_specification]
#[verifier::external_body]
#[verifier::reject_recursive_types(B)]
pub struct ExBitVec<B>(BitVec<B>);

/// The bits a `BitVec` holds, as a sequence of booleans.
pub uninterp spec fn bit_vec_bits(v: BitVec) -> Seq<bool>;

/// Relies on bit_vec::BitVec::from_elem: a vector of `len` bits, each set
/// to `bit`.
#[verifier::external_body]
fn bits_from_elem(len: usize, bit: bool) -> (r: BitVec)
    ensures
        bit_vec_bits(r) == Seq::new(len as nat, |j: int| bit),
{
    BitVec::from_elem(len, bit)
}

/// Relies on bit_vec::BitVec::get: `Some` of the `i`-th bit, or `None` past
/// the end.
#[verifier::external_body]
fn bits_get(v: &BitVec, i: usize) -> (r: Option<bool>)
    ensures
        r == (if i < bit_vec_bits(*v).len() {
            Some(bit_vec_bits(*v)[i as int])
        } else {
            None::<bool>
        }),
{
    v.get(i)
}

/// Relies on bit_vec::BitVec::set: writes the `i`-th bit; it panics past the
/// end, which the precondition rules out.
#[verifier::external_body]
fn bits_set(v: &mut BitVec, i: usize, x: bool)
    requires
        i < bit_vec_bits(*old(v)).len(),
    ensures
        bit_vec_bits(*final(v)) == bit_vec_bits(*old(v)).update(i as int, x),
{
    v.set(i, x)
}

/// Whether position `j` is among the `k` positions derived from the digest
/// pair `(d1, d2)` over a bit array of length `m`.
pub open spec fn bloom_hits(m: u64, d1: u64, d2: u64, k: u32, j: int) -> bool {
    exists|i: u32| i < k && j == spec_index(m, d1, d2, i)
}

/// The bit array `v` after setting the `k` positions derived from `(d1, d2)`.
pub open spec fn bloom_inserted(v: Seq<bool>, m: u64, d1: u64, d2: u64, k: u32) -> Seq<bool> {
    Seq::new(v.len(), |j: int| v[j] || bloom_hits(m, d1, d2, k, j))
}

/// Whether all `k` positions derived from `(d1, d2)` are set in `v`.
pub open spec fn bloom_contains(v: Seq<bool>, m: u64, d1: u64, d2: u64, k: u32) -> bool {
    forall|i: u32| i < k ==> v[spec_index(m, d1, d2, i)]
}

/// The bit array `v` after inserting every digest pair in `ops`, in order.
pub open spec fn bloom_apply(v: Seq<bool>, m: u64, k: u32, ops: Seq<(u64, u64)>) -> Seq<bool>
    decreases ops.len(),
{
    if ops.len() == 0 {
        v
    } else {
        bloom_inserted(bloom_apply(v, m, k, ops.drop_last()), m, ops.last().0, ops.last().1, k)
    }
}

pub struct BloomFilter {
    /// Length of the bit array.
    pub m: u64,
    /// Number of derived positions per element.
    pub k: u32,
    /// The bit array itself.
    pub bits: BitVec,
    /// Seed bytes of the first hash function.
    pub h1_seed: Vec<u8>,
    /// Seed bytes of the second hash function.
    pub h2_seed: Vec<u8>,
}

impl View for BloomFilter {
    type V = Seq<bool>;

    open spec fn view(&self) -> Seq<bool> {
        bit_vec_bits(self.bits)
    }
}

impl BloomFilter {
    /// The bit array matches the configured length (and that length fits an
    /// index); fixed for the structure's lifetime.
    pub open spec fn wf(&self) -> bool {
        &&& self@.len() == self.m
        &&& self.m <= usize::MAX as u64
    }

    /// The bit array after inserting `element`.
    pub open spec fn spec_insert(&self, element: Seq<u8>) -> Seq<bool> {
        bloom_inserted(
            self@,
            self.m,
            spec_digest(self.h1_seed@, element),
            spec_digest(self.h2_seed@, element),
            self.k,
        )
    }

    /// Whether all of `element`'s derived positions are set.
    pub open spec fn spec_contains(&self, element: Seq<u8>) -> bool {
        bloom_contains(
            self@,
            self.m,
            spec_digest(self.h1_seed@, element),
            spec_digest(self.h2_seed@, element),
            self.k,
        )
    }

    /// Creates a filter with a zeroed bit array of length `m`, `k` hash
    /// rounds, and two freshly seeded hash functions. `m == 0` is accepted
    /// here; the filter is then unusable (operations require `m > 0`).
    pub fn new(m: u64, k: u32) -> (r: Self)
        requires
            m <= usize::MAX as u64,
        ensures
            r.wf(),
            r.m == m,
            r.k == k,
            r@ == Seq::new(m as nat, |j: int| false),
    {
        BloomFilter {
            m,
            k,
            bits: bits_from_elem(m as usize, false),
            h1_seed: utils::fresh_seed(),
            h2_seed: utils::fresh_seed(),
        }
    }

    /// Both digests of `element`, each from a fresh copy of the seeded hash
    /// function's state.
    fn hash_kernel(&self, element: &[u8]) -> (r: (u64, u64))
        ensures
            r.0 == spec_digest(self.h1_seed@, element@),
            r.1 == spec_digest(self.h2_seed@, element@),
    {
        let mut h1 = DefaultHasher::new();
        h1.write(self.h1_seed.as_slice());
        let mut h2 = DefaultHasher::new();
        h2.write(self.h2_seed.as_slice());
        let r = utils::hash_kernel(&mut h1, &mut h2, element);
        proof {
            assert(Seq::<Seq<u8>>::empty().push(self.h1_seed@).push(element@) =~= seq![
                self.h1_seed@,
                element@,
            ]);
            assert(Seq::<Seq<u8>>::empty().push(self.h2_seed@).push(element@) =~= seq![
                self.h2_seed@,
                element@,
            ]);
        }
        r
    }
}

impl SetLike<&[u8]> for BloomFilter {
    open spec fn ready(&self) -> bool {
        self.wf() && self.m > 0
    }

    /// True iff every one of the `k` positions derived for `element` is set.
    fn contains(&self, element: &[u8]) -> (r: bool)
        ensures
            r == self.spec_contains(element@),
    {
        let (d1, d2) = self.hash_kernel(element);
        let mut i: u32 = 0;
        while i < self.k
            invariant
                self.wf(),
                self.m > 0,
                i <= self.k,
                d1 == spec_digest(self.h1_seed@, element@),
                d2 == spec_digest(self.h2_seed@, element@),
                forall|t: u32| t < i ==> self@[spec_index(self.m, d1, d2, t)],
            decreases self.k - i,
        {
            let at = utils::get_index(self.m, d1, d2, i);
            let b = bits_get(&self.bits, at);
            if !b.unwrap() {
                assert(!bloom_contains(self@, self.m, d1, d2, self.k));
                return false;
            }
            i = i + 1;
        }
        true
    }

    /// Sets the `k` positions derived for `element`; every other bit is left
    /// as it was, and no bit is ever cleared.
    fn insert(&mut self, element: &[u8])
        ensures
            final(self).m == old(self).m,
            final(self).k == old(self).k,
            final(self).h1_seed == old(self).h1_seed,
            final(self).h2_seed == old(self).h2_seed,
            final(self)@ == old(self).spec_insert(element@),
            final(self).wf(),
    {
        let (d1, d2) = self.hash_kernel(element);
        let mut i: u32 = 0;
        while i < self.k
            invariant
                self.m == old(self).m,
                self.k == old(self).k,
                self.h1_seed == old(self).h1_seed,
                self.h2_seed == old(self).h2_seed,
                self.wf(),
                self.m > 0,
                i <= self.k,
                d1 == spec_digest(self.h1_seed@, element@),
                d2 == spec_digest(self.h2_seed@, element@),
                self@.len() == old(self)@.len(),
                forall|j: int|
                    0 <= j < self@.len() ==> self@[j] == (old(self)@[j] || exists|t: u32|
                        t < i && j == spec_index(self.m, d1, d2, t)),
            decreases self.k - i,
        {
            let at = utils::get_index(self.m, d1, d2, i);
            bits_set(&mut self.bits, at, true);
            i = i + 1;
        }
        proof {
            assert(self@ =~= old(self).spec_insert(element@));
        }
    }
}

/// No false negatives: once an element's `k` positions are set, a query for
/// the same digest pair succeeds, whatever the bit array held before. For an
/// element, `d1` and `d2` are its two digests.
pub proof fn lemma_no_false_negative(v: Seq<bool>, m: u64, d1: u64, d2: u64, k: u32)
    requires
        m > 0,
        v.len() == m,
    ensures
        bloom_contains(bloom_inserted(v, m, d1, d2, k), m, d1, d2, k),
{
    assert forall|i: u32| i < k implies bloom_inserted(v, m, d1, d2, k)[spec_index(
        m,
        d1,
        d2,
        i,
    )] by {
        let j = spec_index(m, d1, d2, i);
        assert(0 <= j < m);
        assert(bloom_hits(m, d1, d2, k, j));
    }
}

/// A membership that holds is permanent: inserting any further digest pair
/// never clears it.
pub proof fn lemma_contains_preserved(
    v: Seq<bool>,
    m: u64,
    d1: u64,
    d2: u64,
    e1: u64,
    e2: u64,
    k: u32,
)
    requires
        m > 0,
        v.len() == m,
        bloom_contains(v, m, d1, d2, k),
    ensures
        bloom_contains(bloom_inserted(v, m, e1, e2, k), m, d1, d2, k),
{
    assert forall|i: u32| i < k implies bloom_inserted(v, m, e1, e2, k)[spec_index(
        m,
        d1,
        d2,
        i,
    )] by {
        let j = spec_index(m, d1, d2, i);
        assert(0 <= j < m);
        assert(v[j]);
    }
}

/// Inserting a digest pair keeps the bit array's length.
pub proof fn lemma_apply_len(v: Seq<bool>, m: u64, k: u32, ops: Seq<(u64, u64)>)
    ensures
        bloom_apply(v, m, k, ops).len() == v.len(),
    decreases ops.len(),
{
    if ops.len() > 0 {
        lemma_apply_len(v, m, k, ops.drop_last());
    }
}

/// No false negatives, permanently: after an element's digest pair is
/// inserted, a query for it succeeds no matter which digest pairs are
/// inserted afterwards.
pub proof fn lemma_no_false_negative_forever(
    v: Seq<bool>,
    m: u64,
    d1: u64,
    d2: u64,
    k: u32,
    later: Seq<(u64, u64)>,
)
    requires
        m > 0,
        v.len() == m,
    ensures
        bloom_contains(
            bloom_apply(bloom_inserted(v, m, d1, d2, k), m, k, later),
            m,
            d1,
            d2,
            k,
        ),
    decreases later.len(),
{
    lemma_no_false_negative(v, m, d1, d2, k);
    if later.len() > 0 {
        lemma_no_false_negative_forever(v, m, d1, d2, k, later.drop_last());
        let prev = bloom_apply(bloom_inserted(v, m, d1, d2, k), m, k, later.drop_last());
        lemma_apply_len(bloom_inserted(v, m, d1, d2, k), m, k, later.drop_last());
        lemma_contains_preserved(prev, m, d1, d2, later.last().0, later.last().1, k);
    }
}

/// Inserting the same digest pair twice leaves the bit array exactly as one
/// insert does: for an element, inserting it twice equals inserting it once.
pub proof fn lemma_insert_idempotent(v: Seq<bool>, m: u64, d1: u64, d2: u64, k: u32)
    ensures
        bloom_inserted(bloom_inserted(v, m, d1, d2, k), m, d1, d2, k) == bloom_inserted(
            v,
            m,
            d1,
            d2,
            k,
        ),
{
    assert(bloom_inserted(bloom_inserted(v, m, d1, d2, k), m, d1, d2, k) =~= bloom_inserted(
        v,
        m,
        d1,
        d2,
        k,
    ));
}

} // verus!
