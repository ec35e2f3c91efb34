//! HyperLogLog: an array of `m = 2^b` byte-sized registers. An element's
//! hash selects a group by its low `b` bits; the remaining bits' leading-zero
//! run (plus one) is the element's rank, and each register keeps the maximum
//! rank seen for its group. The cardinality estimate derived from the
//! registers is a floating-point computation and lives outside this crate's
//! verified core; the register state machine and the estimator-selection
//! rule live here.

use vstd::prelude::*;

verus! {

use std::collections::hash_map::DefaultHasher;
use std::hash::Hasher;
use crate::utils;
use crate::utils::Insertable;
use crate::utils::spec_digest;
use vstd::std_specs::bits::u64_leading_zeros;
use vstd::std_specs::bits::axiom_u64_leading_zeros;

/// The group an element's hash value selects: its low bits under `mask`.
pub open spec fn spec_group_id(element: u64, mask: usize) -> int {
    ((element as usize) & mask) as int
}

/// The rank of an element's hash value once the group-selector bits are
/// chomped away: the leading-zero count of the remaining `64 - chomp` bits,
/// plus one. If nothing remains set, the rank is the full remaining
/// bit-width plus one.
pub open spec fn spec_rank(element: u64, chomp: u8) -> int {
    u64_leading_zeros(element >> (chomp as u64)) + 1 - chomp
}

/// The shifted-away low bits cannot contribute a leading one: the
/// leading-zero count of `element >> chomp` is at least `chomp`, so the rank
/// lies in `[1, 64 - chomp + 1]`.
pub proof fn lemma_rank_in_range(element: u64, chomp: u8)
    requires
        chomp < 64,
    ensures
        chomp <= u64_leading_zeros(element >> (chomp as u64)) <= 64,
        1 <= spec_rank(element, chomp) <= 65 - chomp,
{
    let w = element >> (chomp as u64);
    axiom_u64_leading_zeros(w);
    let lzv = u64_leading_zeros(w);
    if lzv < chomp {
        let s: u64 = (63 - lzv) as u64;
        let cu: u64 = chomp as u64;
        assert((w >> s) & 1u64 != 0u64);
        assert(((element >> cu) >> s) & 1u64 == 0u64) by (bit_vector)
            requires
                cu < 64,
                s < 64,
                s + cu >= 64,
        ;
    }
}

/// How many groups still hold a zero register.
pub open spec fn count_zeros(s: Seq<u8>) -> nat
    decreases s.len(),
{
    if s.len() == 0 {
        0
    } else {
        count_zeros(s.drop_last()) + (if s.last() == 0 {
            1nat
        } else {
            0nat
        })
    }
}

/// The register array after inserting the hash value `element`: the selected
/// group's register rises to the element's rank if that rank is larger, and
/// nothing else changes.
pub open spec fn spec_register_insert(groups: Seq<u8>, mask: usize, chomp: u8, element: u64) -> Seq<
    u8,
> {
    let gid = spec_group_id(element, mask);
    let rank = spec_rank(element, chomp);
    if groups[gid] < rank {
        groups.update(gid, rank as u8)
    } else {
        groups
    }
}

/// The register array: one maximum-rank byte per group.
pub struct Register {
    /// Per-group maximum rank seen so far.
    pub groups: Vec<u8>,
    /// Low-bit mask selecting a group from a hash value.
    pub mask: usize,
    /// How many low bits to discard before the rank is measured.
    pub chomp: u8,
}

impl Register {
    /// Every value under `mask` is a valid group index, and `chomp` leaves a
    /// non-empty remainder to measure.
    pub open spec fn wf(&self) -> bool {
        &&& self.mask < self.groups@.len()
        &&& self.chomp < 64
    }

    /// Creates `m` zeroed registers with the given group mask and chomp width.
    pub fn new(m: usize, mask: usize, chomp: u8) -> (r: Self)
        ensures
            r.groups@ == Seq::new(m as nat, |j: int| 0u8),
            r.mask == mask,
            r.chomp == chomp,
    {
        let mut groups: Vec<u8> = Vec::new();
        let mut i: usize = 0;
        while i < m
            invariant
                i <= m,
                groups@ == Seq::new(i as nat, |j: int| 0u8),
            decreases m - i,
        {
            groups.push(0);
            proof {
                assert(groups@ =~= Seq::new((i + 1) as nat, |j: int| 0u8));
            }
            i = i + 1;
        }
        Register { groups, mask, chomp }
    }

    /// How many groups still hold `0b000...000`.
    pub fn count_group_with_zero(&self) -> (r: usize)
        ensures
            r == count_zeros(self.groups@),
    {
        let mut n: usize = 0;
        let mut i: usize = 0;
        while i < self.groups.len()
            invariant
                i <= self.groups@.len(),
                n <= i,
                n == count_zeros(self.groups@.take(i as int)),
            decreases self.groups@.len() - i,
        {
            if self.groups[i] == 0 {
                n = n + 1;
            }
            i = i + 1;
            proof {
                assert(self.groups@.take(i as int).drop_last() =~= self.groups@.take(i as int - 1));
            }
        }
        proof {
            assert(self.groups@.take(self.groups@.len() as int) =~= self.groups@);
        }
        n
    }
}

impl Insertable<u64> for Register {
    open spec fn ready(&self) -> bool {
        self.wf()
    }

    /// `element` is a hash value: its low bits select a group, and that
    /// group's register rises to the rank of the remaining bits if larger.
    fn insert(&mut self, element: u64)
        ensures
            final(self).mask == old(self).mask,
            final(self).chomp == old(self).chomp,
            final(self).groups@ == spec_register_insert(
                old(self).groups@,
                old(self).mask,
                old(self).chomp,
                element,
            ),
    {
        let eu = element as usize;
        let mask = self.mask;
        proof {
            assert(eu & mask <= mask) by (bit_vector);
        }
        let group_id: usize = eu & mask;
        let w: u64 = element >> (self.chomp as u32);
        proof {
            lemma_rank_in_range(element, self.chomp);
        }
        let first_non_zero_occurence = (w.leading_zeros() + 1 - self.chomp as u32) as u8;
        let cur = self.groups[group_id];
        if cur < first_non_zero_occurence {
            self.groups[group_id] = first_non_zero_occurence;
        }
    }
}

/// Registers only increase: an insert never lowers any group's register, and
/// every group but the selected one is untouched.
pub proof fn lemma_register_monotonic(groups: Seq<u8>, mask: usize, chomp: u8, element: u64)
    requires
        mask < groups.len(),
        chomp < 64,
    ensures
        spec_register_insert(groups, mask, chomp, element).len() == groups.len(),
        forall|g: int|
            0 <= g < groups.len() ==> #[trigger] spec_register_insert(
                groups,
                mask,
                chomp,
                element,
            )[g] >= groups[g],
        forall|g: int|
            0 <= g < groups.len() && g != spec_group_id(element, mask)
                ==> #[trigger] spec_register_insert(groups, mask, chomp, element)[g] == groups[g],
{
    let eu = element as usize;
    assert(eu & mask <= mask) by (bit_vector);
    lemma_rank_in_range(element, chomp);
}

/// The register array after inserting every hash value in `ops`, in order.
pub open spec fn register_apply(groups: Seq<u8>, mask: usize, chomp: u8, ops: Seq<u64>) -> Seq<u8>
    decreases ops.len(),
{
    if ops.len() == 0 {
        groups
    } else {
        spec_register_insert(
            register_apply(groups, mask, chomp, ops.drop_last()),
            mask,
            chomp,
            ops.last(),
        )
    }
}

/// Each register holds the maximum rank among the hash values routed to its
/// group: after any run of inserts it is at least what it held before, at
/// least the rank of every value routed to it, and it is nothing but one of
/// those (or its starting value).
pub proof fn lemma_register_holds_max(
    groups: Seq<u8>,
    mask: usize,
    chomp: u8,
    ops: Seq<u64>,
    g: int,
)
    requires
        mask < groups.len(),
        chomp < 64,
        0 <= g < groups.len(),
    ensures
        register_apply(groups, mask, chomp, ops).len() == groups.len(),
        register_apply(groups, mask, chomp, ops)[g] >= groups[g],
        forall|idx: int|
            0 <= idx < ops.len() && spec_group_id(ops[idx], mask) == g ==> register_apply(
                groups,
                mask,
                chomp,
                ops,
            )[g] >= spec_rank(ops[idx], chomp),
        register_apply(groups, mask, chomp, ops)[g] == groups[g] || exists|idx: int|
            0 <= idx < ops.len() && spec_group_id(ops[idx], mask) == g && register_apply(
                groups,
                mask,
                chomp,
                ops,
            )[g] == spec_rank(ops[idx], chomp),
    decreases ops.len(),
{
    if ops.len() > 0 {
        let prev = register_apply(groups, mask, chomp, ops.drop_last());
        let e = ops.last();
        lemma_register_holds_max(groups, mask, chomp, ops.drop_last(), g);
        lemma_register_monotonic(prev, mask, chomp, e);
        lemma_rank_in_range(e, chomp);
        let cur = register_apply(groups, mask, chomp, ops);
        assert forall|idx: int|
            0 <= idx < ops.len() && spec_group_id(ops[idx], mask) == g implies cur[g] >= spec_rank(
            ops[idx],
            chomp,
        ) by {
            if idx < ops.len() - 1 {
                assert(ops.drop_last()[idx] == ops[idx]);
                assert(prev[g] >= spec_rank(ops[idx], chomp));
            }
        }
        if cur[g] != prev[g] {
            assert(spec_group_id(e, mask) == g && cur[g] == spec_rank(e, chomp));
            assert(0 <= ops.len() - 1 < ops.len() && spec_group_id(ops[ops.len() - 1], mask) == g
                && cur[g] == spec_rank(ops[ops.len() - 1], chomp));
        } else {
            if prev[g] != groups[g] {
                let w = choose|idx: int|
                    0 <= idx < ops.drop_last().len() && spec_group_id(
                        ops.drop_last()[idx],
                        mask,
                    ) == g && prev[g] == spec_rank(ops.drop_last()[idx], chomp);
                assert(ops.drop_last()[w] == ops[w]);
                assert(0 <= w < ops.len() && spec_group_id(ops[w], mask) == g && cur[g]
                    == spec_rank(ops[w], chomp));
            }
        }
    }
}

/// The HyperLogLog accumulator: the register array, the group count
/// `m = 2^b`, and the seed of its single hash function. The bias-correction
/// constant and the floating-point estimate are derived outside the verified
/// core from `register` and `group_size`.
pub struct HyperLogLog {
    /// Register state, with `mask == group_size - 1` and `chomp == b`.
    pub register: Register,
    /// Number of groups, `2^b`.
    pub group_size: usize,
    /// Seed bytes of the hash function applied to elements.
    pub seed: Vec<u8>,
}

impl HyperLogLog {
    /// The register array matches the group count, and the mask selects
    /// exactly the group-index bits.
    pub open spec fn wf(&self) -> bool {
        &&& self.register.wf()
        &&& self.register.groups@.len() == self.group_size
        &&& self.register.mask as int == self.group_size - 1
        &&& self.group_size > 0
    }

    /// Creates an accumulator with `2^b` zeroed registers and a freshly
    /// seeded hash function. `b` is meaningful in `[4, 16]`; any width that
    /// fits the machine is accepted, with degraded accuracy outside that
    /// range.
    pub fn new(b: u8) -> (r: Self)
        requires
            b < 64,
            (1u64 << (b as u64)) <= usize::MAX as u64,
        ensures
            r.wf(),
            r.group_size as u64 == 1u64 << (b as u64),
            r.register.chomp == b,
            r.register.mask as u64 == (1u64 << (b as u64)) - 1,
            r.register.groups@ == Seq::new((1u64 << (b as u64)) as nat, |j: int| 0u8),
    {
        let bb = b;
        proof {
            assert(1u64 << (bb as u64) >= 1u64) by (bit_vector)
                requires
                    bb < 64,
            ;
        }
        let m64: u64 = 1u64 << (b as u32);
        let m: usize = m64 as usize;
        let mask: usize = m - 1;
        let register = Register::new(m, mask, b);
        HyperLogLog { register, group_size: m, seed: utils::fresh_seed() }
    }

    /// The digest of `element` under a fresh copy of the seeded hash
    /// function's state.
    fn get_hash(&self, element: &[u8]) -> (r: u64)
        ensures
            r == spec_digest(self.seed@, element@),
    {
        let mut h = DefaultHasher::new();
        h.write(self.seed.as_slice());
        h.write(element);
        let d = h.finish();
        proof {
            assert(Seq::<Seq<u8>>::empty().push(self.seed@).push(element@) =~= seq![
                self.seed@,
                element@,
            ]);
        }
        d
    }
}

impl Insertable<&[u8]> for HyperLogLog {
    open spec fn ready(&self) -> bool {
        self.wf()
    }

    /// Hashes `element` and folds the hash value into the registers.
    fn insert(&mut self, element: &[u8])
        ensures
            final(self).group_size == old(self).group_size,
            final(self).seed == old(self).seed,
            final(self).register.mask == old(self).register.mask,
            final(self).register.chomp == old(self).register.chomp,
            final(self).register.groups@ == spec_register_insert(
                old(self).register.groups@,
                old(self).register.mask,
                old(self).register.chomp,
                spec_digest(old(self).seed@, element@),
            ),
            final(self).wf(),
    {
        let x = self.get_hash(element);
        self.register.insert(x);
        proof {
            lemma_register_monotonic(
                old(self).register.groups@,
                old(self).register.mask,
                old(self).register.chomp,
                spec_digest(old(self).seed@, element@),
            );
        }
    }
}

/// Which cardinality estimator the two-regime rule selects: the
/// linear-counting fallback exactly when the raw estimate fell below the
/// small-range threshold and some group is still zero.
#[derive(Clone, Copy, Debug, PartialEq, Eq, Structural)]
pub enum Estimator {
    HyperLoglog,
    LinearCounting,
}

/// The estimator the two-regime rule selects, given whether the raw estimate
/// fell below the small-range threshold and how many groups are still zero.
pub fn select_estimator(raw_estimate_is_small: bool, zero_groups: usize) -> (r: Estimator)
    ensures
        r == (if raw_estimate_is_small && zero_groups > 0 {
            Estimator::LinearCounting
        } else {
            Estimator::HyperLoglog
        }),
{
    if raw_estimate_is_small && zero_groups > 0 {
        Estimator::LinearCounting
    } else {
        Estimator::HyperLoglog
    }
}

} // verus!
