use vstd::prelude::*;

use bit_set::BitSet;
use std::ops::Range;

use crate::codec::{read_u32_le, u32_le};
use crate::support::{bit_set_insert, bits_of, fill_random, new_bit_set};

verus! {

/// Candidates drawn per refill.
pub const IDS_POOL_SIZE: usize = 1024;

/// The `i`-th 4-byte word of `b`, as a signed 32-bit integer.
pub open spec fn word_i32(b: Seq<u8>, i: int) -> int {
    let u = u32_le(b, 4 * i);
    if u >= 0x8000_0000 {
        u - 0x1_0000_0000
    } else {
        u
    }
}

/// Absolute value, with the least `i32` mapped to the greatest.
pub open spec fn saturating_abs(n: int) -> int {
    if n == -0x8000_0000 {
        0x7fff_ffff
    } else if n < 0 {
        -n
    } else {
        n
    }
}

/// The candidate id that the `i`-th random word maps to.
pub open spec fn candidate(b: Seq<u8>, i: int, start: i32, end: i32) -> i32 {
    (start + saturating_abs(word_i32(b, i)) % (end - start)) as i32
}

/// Known ids and pool after considering the first `n` candidates of `b`: a
/// candidate that is not known yet becomes known and joins the pool.
pub open spec fn refill_spec(
    known: Set<i32>,
    pool: Seq<i32>,
    b: Seq<u8>,
    n: int,
    start: i32,
    end: i32,
) -> (Set<i32>, Seq<i32>)
    decreases n,
{
    if n <= 0 {
        (known, pool)
    } else {
        let (k, p) = refill_spec(known, pool, b, n - 1, start, end);
        let c = candidate(b, n - 1, start, end);
        if k.contains(c) {
            (k, p)
        } else {
            (k.insert(c), p.push(c))
        }
    }
}

/// Streams unique ids from a range, never one that was seeded as in use.
pub struct IdsGenerator {
    ids: Vec<i32>,
    used_ids: BitSet,
    range: Range<i32>,
    seeded: Ghost<Set<i32>>,
    issued: Ghost<Set<i32>>,
}

fn candidate_at(b: &Vec<u8>, i: usize, start: i32, end: i32) -> (r: i32)
    requires
        4 * i + 4 <= b.len(),
        0 <= start < end,
    ensures
        r == candidate(b@, i as int, start, end),
        start <= r < end,
{
    let at = 4 * i;
    let u = read_u32_le(b.as_slice(), at);
    let abs: u32 = if u >= 0x8000_0000 {
        if u == 0x8000_0000 {
            0x7fff_ffff
        } else {
            ((0x1_0000_0000u64 - u as u64) as u32)
        }
    } else {
        u
    };
    let width = (end - start) as u32;
    let r = start + (abs % width) as i32;
    r
}

impl IdsGenerator {
    pub closed spec fn start(&self) -> i32 {
        self.range.start
    }

    pub closed spec fn end(&self) -> i32 {
        self.range.end
    }

    /// The non-negative ids seeded as in use (a negative one can never be drawn).
    pub closed spec fn seeded(&self) -> Set<i32> {
        self.seeded@
    }

    /// The ids handed out so far.
    pub closed spec fn issued(&self) -> Set<i32> {
        self.issued@
    }

    /// The ids ready to be handed out, last first.
    pub closed spec fn pool(&self) -> Seq<i32> {
        self.ids@
    }

    /// The ids the generator will never draw again.
    pub closed spec fn known(&self) -> Set<i32> {
        Set::new(|x: i32| 0 <= x && bits_of(self.used_ids).contains(x as usize))
    }

    pub open spec fn in_range(&self, x: i32) -> bool {
        self.start() <= x < self.end()
    }

    pub open spec fn wf(&self) -> bool {
        &&& 0 <= self.start() < self.end()
        &&& self.pool().no_duplicates()
        &&& forall|i: int| 0 <= i < self.pool().len() ==> self.in_range(#[trigger] self.pool()[i])
        &&& forall|i: int|
            0 <= i < self.pool().len() ==> !self.issued().contains(#[trigger] self.pool()[i])
                && !self.seeded().contains(self.pool()[i])
        &&& forall|x: i32|
            #![trigger self.issued().contains(x)]
            self.issued().contains(x) ==> self.in_range(x) && !self.seeded().contains(x)
        &&& forall|x: i32| #![trigger self.seeded().contains(x)] self.seeded().contains(x) ==> 0 <= x
        &&& forall|x: i32|
            #![trigger self.known().contains(x)]
            self.known().contains(x) <==> (self.seeded().contains(x) || self.issued().contains(x)
                || self.pool().contains(x))
    }

    /// A generator over `range` that never yields an id of `in_use_ids`; the pool
    /// is filled once from the system's random generator.
    pub fn new(range: Range<i32>, in_use_ids: Vec<i32>) -> (r: IdsGenerator)
        requires
            0 <= range.start < range.end,
        ensures
            r.wf(),
            r.start() == range.start,
            r.end() == range.end,
            r.seeded() == Set::new(|x: i32| 0 <= x && in_use_ids@.contains(x)),
            forall|x: i32| 0 <= x && in_use_ids@.contains(x) ==> #[trigger] r.known().contains(x),
            r.issued() == Set::<i32>::empty(),
    {
        let mut used_ids = new_bit_set();
        let ghost seeded = Set::new(
            |x: i32| 0 <= x && in_use_ids@.contains(x),
        );
        let mut i: usize = 0;
        while i < in_use_ids.len()
            invariant
                0 <= range.start < range.end,
                i <= in_use_ids@.len(),
                forall|u: usize|
                    #[trigger] bits_of(used_ids).contains(u) <==> (u < 0x8000_0000
                        && in_use_ids@.subrange(0, i as int).contains(u as i32)),
            decreases in_use_ids@.len() - i,
        {
            let id = in_use_ids[i];
            let ghost before = bits_of(used_ids);
            let inside = 0 <= id;
            if inside {
                bit_set_insert(&mut used_ids, id as usize);
            }
            i = i + 1;
            proof {
                let sub = in_use_ids@.subrange(0, i as int);
                let prev = in_use_ids@.subrange(0, i - 1);
                assert forall|x: i32| sub.contains(x) == (prev.contains(x) || x == id) by {
                    if x == id {
                        assert(sub[i - 1] == id);
                    }
                    if prev.contains(x) {
                        let k = choose|k: int| 0 <= k < prev.len() && #[trigger] prev[k] == x;
                        assert(sub[k] == x);
                    }
                    if sub.contains(x) && x != id {
                        let k = choose|k: int| 0 <= k < sub.len() && #[trigger] sub[k] == x;
                        assert(prev[k] == x);
                    }
                }
                assert forall|u: usize| #[trigger] bits_of(used_ids).contains(u) <==> (u
                    < 0x8000_0000 && sub.contains(u as i32)) by {
                    assert(before.contains(u) <==> (u < 0x8000_0000 && prev.contains(u as i32)));
                    if inside {
                        assert(bits_of(used_ids) == before.insert(id as usize));
                    } else {
                        assert(bits_of(used_ids) == before);
                    }
                }
            }
        }
        assert(in_use_ids@.subrange(0, in_use_ids@.len() as int) =~= in_use_ids@);
        let ghost bits = bits_of(used_ids);
        let mut generator = IdsGenerator {
            ids: Vec::with_capacity(IDS_POOL_SIZE),
            used_ids,
            range,
            seeded: Ghost(seeded),
            issued: Ghost(Set::empty()),
        };
        proof {
            assert(generator.pool() =~= Seq::<i32>::empty());
            assert forall|x: i32| #![trigger generator.known().contains(x)]
                generator.known().contains(x) <==> (generator.seeded().contains(x)
                    || generator.issued().contains(x) || generator.pool().contains(x)) by {
                if 0 <= x {
                    let u = x as usize;
                    assert(bits.contains(u) <==> (u < 0x8000_0000 && in_use_ids@.contains(u as i32)));
                }
                assert(!generator.pool().contains(x));
            }
        }
        generator.refill();
        generator
    }

    /// Considers each 4-byte word of `random` in turn: its candidate id joins the
    /// pool unless it is already known.
    pub fn refill_from(&mut self, random: &Vec<u8>)
        requires
            old(self).wf(),
        ensures
            final(self).wf(),
            final(self).start() == old(self).start(),
            final(self).end() == old(self).end(),
            final(self).seeded() == old(self).seeded(),
            final(self).issued() == old(self).issued(),
            (final(self).known(), final(self).pool()) == refill_spec(
                old(self).known(),
                old(self).pool(),
                random@,
                (random@.len() / 4) as int,
                old(self).start(),
                old(self).end(),
            ),
    {
        let ghost k0 = self.known();
        let ghost p0 = self.pool();
        let start = self.range.start;
        let end = self.range.end;
        let n = random.len() / 4;
        let mut i: usize = 0;
        while i < n
            invariant
                self.wf(),
                n == random@.len() / 4,
                i <= n,
                self.start() == start,
                self.end() == end,
                self.seeded() == old(self).seeded(),
                self.issued() == old(self).issued(),
                old(self).start() == start,
                old(self).end() == end,
                k0 == old(self).known(),
                p0 == old(self).pool(),
                (self.known(), self.pool()) == refill_spec(k0, p0, random@, i as int, start, end),
            decreases n - i,
        {
            let c = candidate_at(random, i, start, end);
            let ghost before_known = self.known();
            let ghost before_pool = self.pool();
            let fresh = bit_set_insert(&mut self.used_ids, c as usize);
            proof {
                assert(fresh == !before_known.contains(c));
                assert(self.known() =~= before_known.insert(c)) by {
                    assert forall|x: i32| self.known().contains(x) == before_known.insert(
                        c,
                    ).contains(x) by {
                        if 0 <= x && x != c {
                            assert((x as usize) != (c as usize));
                        }
                    }
                }
            }
            if fresh {
                self.ids.push(c);
                proof {
                    assert(self.pool() == before_pool.push(c));
                    assert forall|x: i32| self.pool().contains(x) == (before_pool.contains(x) || x
                        == c) by {
                        if x == c {
                            assert(self.pool()[before_pool.len() as int] == c);
                        }
                        if before_pool.contains(x) {
                            let k = choose|k: int|
                                0 <= k < before_pool.len() && #[trigger] before_pool[k] == x;
                            assert(self.pool()[k] == x);
                        }
                        if self.pool().contains(x) && x != c {
                            let k = choose|k: int|
                                0 <= k < self.pool().len() && #[trigger] self.pool()[k] == x;
                            assert(before_pool[k] == x);
                        }
                    }
                    assert(!before_pool.contains(c));
                    assert(!self.seeded().contains(c));
                    assert(!self.issued().contains(c));
                }
            } else {
                proof {
                    assert(self.known() =~= before_known);
                }
            }
            i = i + 1;
        }
    }

    /// Draws one block of random words from the system and refills the pool from it.
    pub fn refill(&mut self)
        requires
            old(self).wf(),
        ensures
            final(self).wf(),
            final(self).start() == old(self).start(),
            final(self).end() == old(self).end(),
            final(self).seeded() == old(self).seeded(),
            final(self).issued() == old(self).issued(),
            old(self).known().subset_of(final(self).known()),
            old(self).pool().len() <= final(self).pool().len(),
            final(self).pool().subrange(0, old(self).pool().len() as int) == old(self).pool(),
    {
        let mut random: Vec<u8> = vec![0u8; 4 * IDS_POOL_SIZE];
        if fill_random(&mut random) {
            let ghost k0 = self.known();
            let ghost p0 = self.pool();
            self.refill_from(&random);
            proof {
                lemma_refill_grows(k0, p0, random@, (random@.len() / 4) as int, self.start(), self.end());
            }
        } else {
            assert(self.pool().subrange(0, self.pool().len() as int) =~= self.pool());
        }
    }

    /// The next unique id; the pool is refilled when empty. `None` only when even
    /// a fresh block of random words gave no new id (the range is exhausted).
    pub fn next(&mut self) -> (r: Option<i32>)
        requires
            old(self).wf(),
        ensures
            final(self).wf(),
            final(self).start() == old(self).start(),
            final(self).end() == old(self).end(),
            final(self).seeded() == old(self).seeded(),
            r is None ==> final(self).issued() == old(self).issued() && final(self).pool().len() == 0,
            old(self).pool().len() > 0 ==> r == Some(old(self).pool().last()) && final(self).pool()
                == old(self).pool().drop_last(),
            r matches Some(id) ==> {
                &&& old(self).in_range(id)
                &&& !old(self).issued().contains(id)
                &&& !old(self).seeded().contains(id)
                &&& final(self).issued() == old(self).issued().insert(id)
            },
    {
        if self.ids.len() == 0 {
            self.refill();
        }
        let ghost k = self.known();
        let ghost sd = self.seeded();
        let ghost iss = self.issued();
        let ghost p = self.pool();
        assert(forall|x: i32| k.contains(x) <==> (sd.contains(x) || iss.contains(x) || p.contains(x)));
        match self.ids.pop() {
            None => None,
            Some(id) => {
                proof {
                    assert(p[p.len() - 1] == id);
                    assert(self.pool() =~= p.drop_last());
                    assert(p.contains(id));
                    assert(self.in_range(id));
                }
                self.issued = Ghost(self.issued@.insert(id));
                proof {
                    assert(self.known() == k);
                    assert forall|i: int| 0 <= i < self.pool().len() implies !self.issued().contains(
                        #[trigger] self.pool()[i],
                    ) && !self.seeded().contains(self.pool()[i]) && self.in_range(self.pool()[i]) by {
                        assert(p[i] == self.pool()[i]);
                        assert(p[i] != p[p.len() - 1]);
                    }
                    assert forall|x: i32| #![trigger self.known().contains(x)]
                        self.known().contains(x) <==> (self.seeded().contains(x)
                            || self.issued().contains(x) || self.pool().contains(x)) by {
                        if p.contains(x) && x != id {
                            let j = choose|j: int| 0 <= j < p.len() && #[trigger] p[j] == x;
                            assert(j != p.len() - 1);
                            assert(self.pool()[j] == x);
                        }
                        if self.pool().contains(x) {
                            let j = choose|j: int| 0 <= j < self.pool().len() && #[trigger] self.pool()[j] == x;
                            assert(p[j] == x);
                        }
                    }
                    assert forall|x: i32| #![trigger self.issued().contains(x)]
                        self.issued().contains(x) implies self.in_range(x) && !self.seeded().contains(x) by {
                        if x == id {
                            assert(!sd.contains(p[p.len() - 1]));
                        }
                    }
                }
                Some(id)
            },
        }
    }
}

proof fn lemma_refill_grows(
    known: Set<i32>,
    pool: Seq<i32>,
    b: Seq<u8>,
    n: int,
    start: i32,
    end: i32,
)
    ensures
        known.subset_of(refill_spec(known, pool, b, n, start, end).0),
        pool.len() <= refill_spec(known, pool, b, n, start, end).1.len(),
        refill_spec(known, pool, b, n, start, end).1.subrange(0, pool.len() as int) == pool,
    decreases n,
{
    if n <= 0 {
        assert(pool.subrange(0, pool.len() as int) =~= pool);
    } else {
        lemma_refill_grows(known, pool, b, n - 1, start, end);
        let (k, p) = refill_spec(known, pool, b, n - 1, start, end);
        let c = candidate(b, n - 1, start, end);
        if !k.contains(c) {
            assert(p.push(c).subrange(0, pool.len() as int) =~= p.subrange(0, pool.len() as int));
        }
    }
}

/// Id uniqueness over a run of calls: when each id `rs[k]` was outside the
/// issued set `issued[k]` it was handed out from, and each call added its id,
/// the ids are pairwise distinct. `next` guarantees both steps.
pub proof fn lemma_ids_pairwise_distinct(rs: Seq<i32>, issued: Seq<Set<i32>>)
    requires
        issued.len() == rs.len() + 1,
        forall|k: int| 0 <= k < rs.len() ==> !(#[trigger] issued[k]).contains(rs[k]),
        forall|k: int| 0 <= k < rs.len() ==> #[trigger] issued[k + 1] == issued[k].insert(rs[k]),
    ensures
        forall|i: int, j: int| 0 <= i < j < rs.len() ==> rs[i] != rs[j],
{
    assert forall|i: int, j: int| 0 <= i < j < rs.len() implies rs[i] != rs[j] by {
        lemma_issued_keeps(rs, issued, i, j);
    }
}

proof fn lemma_issued_keeps(rs: Seq<i32>, issued: Seq<Set<i32>>, i: int, j: int)
    requires
        issued.len() == rs.len() + 1,
        forall|k: int| 0 <= k < rs.len() ==> #[trigger] issued[k + 1] == issued[k].insert(rs[k]),
        0 <= i < j <= rs.len(),
    ensures
        issued[j].contains(rs[i]),
    decreases j - i,
{
    if j > i + 1 {
        lemma_issued_keeps(rs, issued, i, j - 1);
        let k = j - 1;
        assert(issued[k + 1] == issued[k].insert(rs[k]));
    } else {
        assert(issued[i + 1] == issued[i].insert(rs[i]));
    }
}

/// Id uniqueness: every id a generator hands out lies in its range, and none of
/// them is a seeded id.
pub proof fn lemma_ids_unique(g: &IdsGenerator, x: i32)
    requires
        g.wf(),
    ensures
        g.issued().contains(x) ==> g.in_range(x) && !g.seeded().contains(x),
        g.seeded().contains(x) ==> !g.issued().contains(x),
{
}

} // verus!
