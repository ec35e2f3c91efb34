//! Count-Min Sketch: `k` independent counter rows of width `m`. An insert
//! increments one counter per row at the element's derived position; the
//! frequency estimate is the minimum of those counters, so it never
//! undercounts the element's true insertion count.

use vstd::prelude::*;

verus! {

use std::collections::hash_map::DefaultHasher;
use std::hash::Hasher;
use crate::utils;
use crate::utils::Insertable;
use crate::utils::spec_digest;
use crate::utils::spec_index;

/// The counter table after one insert of an element with digest pair
/// `(d1, d2)`: in each row `i`, the counter at the derived position grows by
/// one and every other counter is untouched.
pub open spec fn cms_bumped(t: Seq<Seq<nat>>, m: u64, d1: u64, d2: u64) -> Seq<Seq<nat>> {
    Seq::new(
        t.len(),
        |i: int|
            Seq::new(
                t[i].len(),
                |j: int|
                    if j == spec_index(m, d1, d2, i as u32) {
                        (t[i][j] + 1) as nat
                    } else {
                        t[i][j]
                    },
            ),
    )
}

/// The frequency estimate for a digest pair: the minimum, over the first `k`
/// rows, of the counter at the derived position.
pub open spec fn cms_query(t: Seq<Seq<nat>>, m: u64, d1: u64, d2: u64, k: u32) -> nat
    decreases k,
{
    if k == 0 {
        0
    } else {
        let c = t[k - 1][spec_index(m, d1, d2, (k - 1) as u32)];
        if k == 1 {
            c
        } else {
            let rest = cms_query(t, m, d1, d2, (k - 1) as u32);
            if c < rest {
                c
            } else {
                rest
            }
        }
    }
}

/// The counter table after inserting every digest pair in `ops`, in order.
pub open spec fn cms_apply(t: Seq<Seq<nat>>, m: u64, ops: Seq<(u64, u64)>) -> Seq<Seq<nat>>
    decreases ops.len(),
{
    if ops.len() == 0 {
        t
    } else {
        cms_bumped(cms_apply(t, m, ops.drop_last()), m, ops.last().0, ops.last().1)
    }
}

/// How many entries of `ops` equal the digest pair `(d1, d2)`.
pub open spec fn count_matches(ops: Seq<(u64, u64)>, d1: u64, d2: u64) -> nat
    decreases ops.len(),
{
    if ops.len() == 0 {
        0
    } else {
        count_matches(ops.drop_last(), d1, d2) + (if ops.last().0 == d1 && ops.last().1 == d2 {
            1nat
        } else {
            0nat
        })
    }
}

/// The table has at least `k` rows and each of the first `k` is `m` wide.
pub open spec fn cms_covers(t: Seq<Seq<nat>>, k: u32, m: u64) -> bool {
    &&& k <= t.len()
    &&& forall|i: int| 0 <= i < k ==> (#[trigger] t[i]).len() == m
}

pub struct CountMinSketch {
    /// Number of counter rows (hash rounds).
    pub k: u32,
    /// Width of each row.
    pub m: u64,
    /// Seed bytes of the first hash function.
    pub h1_seed: Vec<u8>,
    /// Seed bytes of the second hash function.
    pub h2_seed: Vec<u8>,
    /// The `k` rows of `m` counters.
    pub table: Vec<Vec<u32>>,
}

impl CountMinSketch {
    /// The counter table as a sequence of rows of mathematical counts.
    pub open spec fn counts(&self) -> Seq<Seq<nat>> {
        Seq::new(
            self.table@.len(),
            |i: int| Seq::new(self.table@[i]@.len(), |j: int| self.table@[i]@[j] as nat),
        )
    }

    /// The table has `k` rows of `m` counters (and the width fits an index);
    /// fixed for the structure's lifetime.
    pub open spec fn wf(&self) -> bool {
        &&& self.table@.len() == self.k
        &&& forall|i: int| 0 <= i < self.table@.len() ==> (#[trigger] self.table@[i])@.len()
            == self.m
        &&& self.m <= usize::MAX as u64
    }

    /// No counter has yet reached the largest representable count, so an
    /// insert cannot overflow one.
    pub open spec fn room_left(&self) -> bool {
        forall|i: int, j: int|
            0 <= i < self.table@.len() && 0 <= j < self.table@[i]@.len()
                ==> (#[trigger] self.table@[i]@[j]) < u32::MAX
    }

    /// Creates a sketch with `k` rows of `m` zero counters and two freshly
    /// seeded hash functions. `m == 0` is accepted here; the sketch is then
    /// unusable (operations require `m > 0`).
    pub fn new(k: u32, m: u64) -> (r: Self)
        requires
            m <= usize::MAX as u64,
        ensures
            r.wf(),
            r.room_left(),
            r.k == k,
            r.m == m,
            r.counts() == Seq::new(k as nat, |i: int| Seq::new(m as nat, |j: int| 0nat)),
    {
        let mut table: Vec<Vec<u32>> = Vec::new();
        let mut i: u32 = 0;
        while i < k
            invariant
                i <= k,
                table@.len() == i,
                forall|p: int| 0 <= p < i ==> (#[trigger] table@[p])@ == Seq::new(
                    m as nat,
                    |j: int| 0u32,
                ),
            decreases k - i,
        {
            let mut row: Vec<u32> = Vec::new();
            let mut j: u64 = 0;
            while j < m
                invariant
                    j <= m,
                    row@ == Seq::new(j as nat, |q: int| 0u32),
                decreases m - j,
            {
                row.push(0);
                proof {
                    assert(row@ =~= Seq::new((j + 1) as nat, |q: int| 0u32));
                }
                j = j + 1;
            }
            table.push(row);
            i = i + 1;
        }
        let r = CountMinSketch { k, m, h1_seed: utils::fresh_seed(), h2_seed: utils::fresh_seed(), table };
        proof {
            assert(r.counts() =~~= Seq::new(k as nat, |i: int| Seq::new(m as nat, |j: int| 0nat)));
        }
        r
    }

    /// Both digests of `element`, each from a fresh copy of the seeded hash
    /// function's state.
    pub fn hash_kernel(&self, element: &[u8]) -> (r: (u64, u64))
        ensures
            r.0 == spec_digest(self.h1_seed@, element@),
            r.1 == spec_digest(self.h2_seed@, element@),
    {
        let mut h1 = DefaultHasher::new();
        h1.write(self.h1_seed.as_slice());
        let mut h2 = DefaultHasher::new();
        h2.write(self.h2_seed.as_slice());
        let r = utils::hash_kernel(&mut h1, &mut h2, element);
        proof {
            assert(Seq::<Seq<u8>>::empty().push(self.h1_seed@).push(element@) =~= seq![
                self.h1_seed@,
                element@,
            ]);
            assert(Seq::<Seq<u8>>::empty().push(self.h2_seed@).push(element@) =~= seq![
                self.h2_seed@,
                element@,
            ]);
        }
        r
    }

    /// The minimum, across the `k` rows, of the counter at `element`'s
    /// derived position: at least the number of times `element` was
    /// inserted. With no rows at all, there is no counter to bound the
    /// estimate and the largest representable value is returned.
    pub fn get_count(&self, element: &[u8]) -> (r: usize)
        requires
            self.wf(),
            self.m > 0,
        ensures
            self.k > 0 ==> r == cms_query(
                self.counts(),
                self.m,
                spec_digest(self.h1_seed@, element@),
                spec_digest(self.h2_seed@, element@),
                self.k,
            ),
            self.k == 0 ==> r == usize::MAX,
    {
        let (d1, d2) = self.hash_kernel(element);
        let mut acc: usize = usize::MAX;
        let mut i: u32 = 0;
        while i < self.k
            invariant
                self.wf(),
                self.m > 0,
                i <= self.k,
                d1 == spec_digest(self.h1_seed@, element@),
                d2 == spec_digest(self.h2_seed@, element@),
                i == 0 ==> acc == usize::MAX,
                i > 0 ==> acc == cms_query(self.counts(), self.m, d1, d2, i),
            decreases self.k - i,
        {
            let at = utils::get_index(self.m, d1, d2, i);
            let cell = self.table[i as usize][at];
            let cell_us = cell as usize;
            if cell_us < acc {
                acc = cell_us;
            }
            i = i + 1;
        }
        acc
    }
}

impl Insertable<&[u8]> for CountMinSketch {
    open spec fn ready(&self) -> bool {
        self.wf() && self.m > 0 && self.room_left()
    }

    /// In every row, increments the counter at `element`'s derived position
    /// by one; no counter anywhere is decremented.
    fn insert(&mut self, element: &[u8])
        ensures
            final(self).k == old(self).k,
            final(self).m == old(self).m,
            final(self).h1_seed == old(self).h1_seed,
            final(self).h2_seed == old(self).h2_seed,
            final(self).wf(),
            final(self).counts() == cms_bumped(
                old(self).counts(),
                old(self).m,
                spec_digest(old(self).h1_seed@, element@),
                spec_digest(old(self).h2_seed@, element@),
            ),
    {
        let (d1, d2) = self.hash_kernel(element);
        let mut i: u32 = 0;
        while i < self.k
            invariant
                self.k == old(self).k,
                self.m == old(self).m,
                self.h1_seed == old(self).h1_seed,
                self.h2_seed == old(self).h2_seed,
                self.wf(),
                self.m > 0,
                i <= self.k,
                d1 == spec_digest(self.h1_seed@, element@),
                d2 == spec_digest(self.h2_seed@, element@),
                self.table@.len() == old(self).table@.len(),
                old(self).room_left(),
                forall|p: int|
                    i <= p < self.table@.len() ==> #[trigger] self.table@[p] == old(self).table@[p],
                forall|p: int|
                    0 <= p < i ==> #[trigger] self.table@[p]@ == old(self).table@[p]@.update(
                        spec_index(self.m, d1, d2, p as u32),
                        (old(self).table@[p]@[spec_index(self.m, d1, d2, p as u32)] + 1) as u32,
                    ),
            decreases self.k - i,
        {
            let at = utils::get_index(self.m, d1, d2, i);
            let iu = i as usize;
            proof {
                assert(self.table@[iu as int] == old(self).table@[iu as int]);
                assert(old(self).table@[iu as int]@[at as int] < u32::MAX);
            }
            let cell = self.table[iu][at];
            self.table[iu][at] = cell + 1;
            i = i + 1;
        }
        proof {
            let oc = old(self).counts();
            let tgt = cms_bumped(oc, old(self).m, d1, d2);
            assert forall|p: int|
                0 <= p < self.counts().len() implies self.counts()[p] =~= tgt[p] by {
                let jdx = spec_index(old(self).m, d1, d2, p as u32);
                assert(0 <= jdx < old(self).m);
                assert(self.table@[p]@ == old(self).table@[p]@.update(
                    jdx,
                    (old(self).table@[p]@[jdx] + 1) as u32,
                ));
                assert forall|j: int|
                    0 <= j < self.counts()[p].len() implies self.counts()[p][j] == tgt[p][j] by {
                    if j == jdx {
                        assert(old(self).table@[p]@[jdx] < u32::MAX);
                    }
                }
            }
            assert(self.counts() =~~= tgt);
        }
    }
}

/// Counters never shrink: one insert leaves every counter at least as large
/// as it was, whatever digest pair was inserted.
pub proof fn lemma_bump_monotonic(t: Seq<Seq<nat>>, m: u64, e1: u64, e2: u64)
    ensures
        cms_bumped(t, m, e1, e2).len() == t.len(),
        forall|i: int| 0 <= i < t.len() ==> (#[trigger] cms_bumped(t, m, e1, e2)[i]).len()
            == t[i].len(),
        forall|i: int, j: int|
            0 <= i < t.len() && 0 <= j < t[i].len() ==> (#[trigger] cms_bumped(t, m, e1, e2)[i][j])
                >= t[i][j],
{
}

/// The estimate is the least of the selected counters: it is no larger than
/// each of them, and it equals one of them.
pub proof fn lemma_query_is_min(t: Seq<Seq<nat>>, m: u64, d1: u64, d2: u64, k: u32)
    requires
        k > 0,
        m > 0,
        cms_covers(t, k, m),
    ensures
        forall|i: u32| i < k ==> cms_query(t, m, d1, d2, k) <= t[i as int][spec_index(
            m,
            d1,
            d2,
            i,
        )],
        exists|i: u32| i < k && cms_query(t, m, d1, d2, k) == t[i as int][spec_index(m, d1, d2, i)],
    decreases k,
{
    let q = cms_query(t, m, d1, d2, k);
    let c = t[k - 1][spec_index(m, d1, d2, (k - 1) as u32)];
    let w = (k - 1) as u32;
    if k == 1 {
        assert(q == c);
        assert(w < k && q == t[w as int][spec_index(m, d1, d2, w)]);
    } else {
        lemma_query_is_min(t, m, d1, d2, (k - 1) as u32);
        let rest = cms_query(t, m, d1, d2, (k - 1) as u32);
        assert forall|i: u32| i < k implies q <= t[i as int][spec_index(m, d1, d2, i)] by {
            if i < k - 1 {
                assert(rest <= t[i as int][spec_index(m, d1, d2, i)]);
            }
        }
        if c < rest {
            assert(w < k && q == t[w as int][spec_index(m, d1, d2, w)]);
        } else {
            let i0 = choose|i: u32| i < w && rest == t[i as int][spec_index(m, d1, d2, i)];
            assert(i0 < k && q == t[i0 as int][spec_index(m, d1, d2, i0)]);
        }
    }
}

/// Monotonic counts: a query never shrinks when any digest pair is inserted,
/// whether it is the queried element's own pair or another one.
pub proof fn lemma_query_monotonic(
    t: Seq<Seq<nat>>,
    m: u64,
    d1: u64,
    d2: u64,
    e1: u64,
    e2: u64,
    k: u32,
)
    requires
        m > 0,
        cms_covers(t, k, m),
    ensures
        cms_query(cms_bumped(t, m, e1, e2), m, d1, d2, k) >= cms_query(t, m, d1, d2, k),
    decreases k,
{
    if k > 0 {
        let j = spec_index(m, d1, d2, (k - 1) as u32);
        assert(0 <= j < m);
        assert(t[k - 1].len() == m);
        assert(cms_bumped(t, m, e1, e2)[k - 1][j] >= t[k - 1][j]);
        if k > 1 {
            lemma_query_monotonic(t, m, d1, d2, e1, e2, (k - 1) as u32);
        }
    }
}

/// Inserting the queried pair itself raises its estimate by at least one.
pub proof fn lemma_query_bumped_same(t: Seq<Seq<nat>>, m: u64, d1: u64, d2: u64, k: u32)
    requires
        m > 0,
        cms_covers(t, k, m),
    ensures
        k > 0 ==> cms_query(cms_bumped(t, m, d1, d2), m, d1, d2, k) >= cms_query(t, m, d1, d2, k)
            + 1,
    decreases k,
{
    if k > 0 {
        let j = spec_index(m, d1, d2, (k - 1) as u32);
        assert(0 <= j < m);
        assert(t[k - 1].len() == m);
        assert(cms_bumped(t, m, d1, d2)[k - 1][j] == t[k - 1][j] + 1);
        if k > 1 {
            lemma_query_bumped_same(t, m, d1, d2, (k - 1) as u32);
        }
    }
}

/// No undercount: starting from any table, after a run of inserts the
/// estimate for a digest pair is at least the number of times that pair was
/// inserted (on a fresh table the starting estimate is zero). Collisions can
/// only raise it further.
pub proof fn lemma_no_undercount(
    t: Seq<Seq<nat>>,
    m: u64,
    ops: Seq<(u64, u64)>,
    d1: u64,
    d2: u64,
    k: u32,
)
    requires
        k > 0,
        m > 0,
        cms_covers(t, k, m),
    ensures
        cms_query(cms_apply(t, m, ops), m, d1, d2, k) >= cms_query(t, m, d1, d2, k)
            + count_matches(ops, d1, d2),
    decreases ops.len(),
{
    if ops.len() > 0 {
        let prev = cms_apply(t, m, ops.drop_last());
        lemma_no_undercount(t, m, ops.drop_last(), d1, d2, k);
        lemma_apply_covers(t, m, ops.drop_last(), k);
        if ops.last().0 == d1 && ops.last().1 == d2 {
            lemma_query_bumped_same(prev, m, d1, d2, k);
        } else {
            lemma_query_monotonic(prev, m, d1, d2, ops.last().0, ops.last().1, k);
        }
    }
}

/// Monotonic counts: across any sequence of inserts, of the queried element
/// or of anything else, its estimate never decreases.
pub proof fn lemma_query_monotonic_apply(
    t: Seq<Seq<nat>>,
    m: u64,
    ops: Seq<(u64, u64)>,
    d1: u64,
    d2: u64,
    k: u32,
)
    requires
        m > 0,
        cms_covers(t, k, m),
    ensures
        cms_query(cms_apply(t, m, ops), m, d1, d2, k) >= cms_query(t, m, d1, d2, k),
    decreases ops.len(),
{
    if ops.len() > 0 {
        lemma_query_monotonic_apply(t, m, ops.drop_last(), d1, d2, k);
        lemma_apply_covers(t, m, ops.drop_last(), k);
        lemma_query_monotonic(
            cms_apply(t, m, ops.drop_last()),
            m,
            d1,
            d2,
            ops.last().0,
            ops.last().1,
            k,
        );
    }
}

/// Inserting keeps the table's shape.
pub proof fn lemma_apply_covers(t: Seq<Seq<nat>>, m: u64, ops: Seq<(u64, u64)>, k: u32)
    requires
        cms_covers(t, k, m),
    ensures
        cms_covers(cms_apply(t, m, ops), k, m),
    decreases ops.len(),
{
    if ops.len() > 0 {
        lemma_apply_covers(t, m, ops.drop_last(), k);
    }
}

} // verus!
