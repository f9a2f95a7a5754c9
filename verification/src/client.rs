//! The client table: a fixed-capacity registry of open connections.
//! Keys are small dense integers recycled through a free list; each
//! live entry tracks an opaque connection token and its remaining
//! time to live.

use vstd::prelude::*;

verus! {

/// Why a client-table operation failed.
#[derive(Debug, Clone, Copy, PartialEq, Eq, Structural)]
pub enum ClientError {
    /// Every key is taken: the connection must be turned away.
    CapacityExceeded,
    /// The key names no live entry.
    NotFound,
}

/// How many slots of `s` are occupied.
pub open spec fn count_live(s: Seq<Option<(u64, u64)>>) -> int
    decreases s.len(),
{
    if s.len() == 0 {
        0
    } else {
        count_live(s.drop_last()) + if s.last() is Some {
            1int
        } else {
            0
        }
    }
}

/// Occupancy count after updating one slot.
pub proof fn lemma_count_update(s: Seq<Option<(u64, u64)>>, i: int, v: Option<(u64, u64)>)
    requires
        0 <= i < s.len(),
    ensures
        count_live(s.update(i, v)) == count_live(s) + (if v is Some {
            1int
        } else {
            0
        }) - (if s[i] is Some {
            1int
        } else {
            0
        }),
    decreases s.len(),
{
    if i == s.len() - 1 {
        assert(s.update(i, v).drop_last() =~= s.drop_last());
    } else {
        lemma_count_update(s.drop_last(), i, v);
        assert(s.update(i, v).drop_last() =~= s.drop_last().update(i, v));
        assert(s.update(i, v).last() == s.last());
    }
}

/// Two slot sequences occupied at the same positions count the same.
pub proof fn lemma_count_pointwise(s1: Seq<Option<(u64, u64)>>, s2: Seq<Option<(u64, u64)>>)
    requires
        s1.len() == s2.len(),
        forall|i: int| 0 <= i < s1.len() ==> (s1[i] is Some <==> s2[i] is Some),
    ensures
        count_live(s1) == count_live(s2),
    decreases s1.len(),
{
    if s1.len() > 0 {
        assert(forall|i: int|
            0 <= i < s1.len() - 1 ==> (s1.drop_last()[i] is Some <==> s2.drop_last()[i] is Some));
        lemma_count_pointwise(s1.drop_last(), s2.drop_last());
    }
}

/// Every slot after subtracting `d` from each live entry's remaining
/// time, saturating at zero.
pub open spec fn spec_decay(s: Seq<Option<(u64, u64)>>, d: u64) -> Seq<Option<(u64, u64)>> {
    Seq::new(
        s.len(),
        |i: int|
            match s[i] {
                None => None,
                Some(e) => Some(
                    (
                        e.0,
                        if e.1 >= d {
                            (e.1 - d) as u64
                        } else {
                            0u64
                        },
                    ),
                ),
            },
    )
}

/// Every slot after evicting the entries whose time has run out.
pub open spec fn spec_sweep(s: Seq<Option<(u64, u64)>>) -> Seq<Option<(u64, u64)>> {
    Seq::new(
        s.len(),
        |i: int|
            match s[i] {
                None => None,
                Some(e) => if e.1 == 0 {
                    None
                } else {
                    Some(e)
                },
            },
    )
}

/// The keys whose entries have run out of time, in increasing order.
pub open spec fn spec_expired(s: Seq<Option<(u64, u64)>>) -> Seq<usize>
    decreases s.len(),
{
    if s.len() == 0 {
        Seq::<usize>::empty()
    } else {
        spec_expired(s.drop_last()) + (match s.last() {
            Some(e) => if e.1 == 0 {
                seq![s.len() as usize]
            } else {
                Seq::<usize>::empty()
            },
            None => Seq::<usize>::empty(),
        })
    }
}

/// Each expired key is in range, names a slot that ran out, and the
/// keys come out strictly increasing.
pub proof fn lemma_expired_facts(s: Seq<Option<(u64, u64)>>)
    requires
        s.len() <= usize::MAX,
    ensures
        forall|j: int|
            0 <= j < spec_expired(s).len() ==> 1 <= #[trigger] spec_expired(s)[j] <= s.len()
                && s[spec_expired(s)[j] - 1] is Some && (s[spec_expired(s)[j] - 1]->0).1 == 0,
        forall|p: int, q: int|
            0 <= p < q < spec_expired(s).len() ==> spec_expired(s)[p] < spec_expired(s)[q],
    decreases s.len(),
{
    if s.len() > 0 {
        lemma_expired_facts(s.drop_last());
        let pre = spec_expired(s.drop_last());
        let all = spec_expired(s);
        assert(all.len() <= pre.len() + 1);
        assert forall|j: int|
            0 <= j < all.len() implies 1 <= #[trigger] all[j] <= s.len() && s[all[j] - 1] is Some
            && (s[all[j] - 1]->0).1 == 0 by {
            if j < pre.len() {
                assert(all[j] == pre[j]);
                assert(s.drop_last()[pre[j] - 1] == s[pre[j] - 1]);
            } else {
                assert(s.last() is Some && (s.last()->0).1 == 0);
                assert(all[j] == s.len() as usize);
                assert(s[s.len() - 1] == s.last());
            }
        }
        assert forall|p: int, q: int|
            0 <= p < q < all.len() implies all[p] < all[q] by {
            if q < pre.len() {
                assert(all[p] == pre[p] && all[q] == pre[q]);
            } else {
                assert(p < pre.len());
                assert(all[q] == s.len() as usize);
                assert(all[p] == pre[p]);
                assert(pre[p] <= s.drop_last().len());
            }
        }
    }
}

/// A slot that ran out of time has its key among the expired keys.
pub proof fn lemma_expired_contains(s: Seq<Option<(u64, u64)>>, i: int)
    requires
        s.len() <= usize::MAX,
        0 <= i < s.len(),
        s[i] is Some,
        (s[i]->0).1 == 0,
    ensures
        exists|j: int| 0 <= j < spec_expired(s).len() && spec_expired(s)[j] == i + 1,
    decreases s.len(),
{
    if i == s.len() - 1 {
        assert(s.last() == s[i]);
        assert(spec_expired(s)[spec_expired(s).len() - 1] == s.len() as usize);
    } else {
        assert(s.drop_last()[i] == s[i]);
        lemma_expired_contains(s.drop_last(), i);
        let pre = spec_expired(s.drop_last());
        let j = choose|j: int| 0 <= j < pre.len() && pre[j] == i + 1;
        assert(spec_expired(s)[j] == pre[j]);
    }
}

/// Sweeping removes exactly the expired entries from the count.
proof fn lemma_sweep_count(s: Seq<Option<(u64, u64)>>)
    ensures
        count_live(spec_sweep(s)) + spec_expired(s).len() == count_live(s),
    decreases s.len(),
{
    if s.len() > 0 {
        lemma_sweep_count(s.drop_last());
        assert(spec_sweep(s).drop_last() =~= spec_sweep(s.drop_last()));
    }
}

/// The table invariant survives a sweep that appends the expired keys
/// to the free list.
proof fn lemma_sweep_wf(c0: Clients, c1: Clients, r: Seq<usize>)
    requires
        c0.slots@.len() <= usize::MAX,
        c0.wf(),
        c1.slots@ == spec_sweep(c0.slots@),
        r == spec_expired(c0.slots@),
        c1.avail@ == c0.avail@ + r,
    ensures
        c1.wf(),
{
    let s = c0.slots@;
    let a = c0.avail@;
    lemma_expired_facts(s);
    lemma_sweep_count(s);
    assert forall|p: int, q: int|
        0 <= p < q < c1.avail@.len() implies c1.avail@[p] != c1.avail@[q] by {
        if p < a.len() && q >= a.len() {
            assert(c1.avail@[p] == a[p]);
            assert(c1.avail@[q] == r[q - a.len()]);
            assert(s[a[p] - 1] is None);
            assert(s[r[q - a.len()] - 1] is Some);
        }
    }
    assert forall|j: int|
        0 <= j < c1.avail@.len() implies c1.slots@[#[trigger] c1.avail@[j] - 1] is None by {
        if j < a.len() {
            assert(c1.avail@[j] == a[j]);
            assert(s[a[j] - 1] is None);
        } else {
            assert(c1.avail@[j] == r[j - a.len()]);
        }
    }
    assert forall|i: int|
        0 <= i < c1.slots@.len() && c1.slots@[i] is None implies exists|j: int|
        0 <= j < c1.avail@.len() && c1.avail@[j] == i + 1 by {
        if s[i] is None {
            let j = choose|j: int| 0 <= j < a.len() && a[j] == i + 1;
            assert(c1.avail@[j] == i + 1);
        } else {
            assert((s[i]->0).1 == 0);
            lemma_expired_contains(s, i);
            let j = choose|j: int| 0 <= j < r.len() && r[j] == i + 1;
            assert(c1.avail@[a.len() + j] == r[j]);
        }
    }
}

/// The registry of open connections.
#[derive(Debug)]
pub struct Clients {
    /// One slot per key; slot `i` belongs to key `i + 1` and holds the
    /// connection token and the remaining time to live in milliseconds.
    pub slots: Vec<Option<(u64, u64)>>,
    /// Free keys; the top of the stack is assigned next.
    pub avail: Vec<usize>,
    /// Time to live given to a new or refreshed connection.
    pub default_ttl_ms: u64,
}

impl Clients {
    /// The fixed capacity: the number of keys that can ever be live.
    pub open spec fn capacity(&self) -> int {
        self.slots@.len() as int
    }

    /// Key `k` is live: it names an occupied slot.
    pub open spec fn is_live(&self, k: usize) -> bool {
        1 <= k <= self.slots@.len() && self.slots@[k - 1] is Some
    }

    /// The free list holds `k`.
    pub open spec fn is_free(&self, k: usize) -> bool {
        exists|j: int| 0 <= j < self.avail@.len() && self.avail@[j] == k
    }

    /// Table invariant: keys are in range, the free list has no
    /// duplicates, a key is free exactly when its slot is empty, and
    /// occupied slots and free keys together account for the whole
    /// capacity.
    pub open spec fn wf(&self) -> bool {
        &&& forall|j: int|
            0 <= j < self.avail@.len() ==> 1 <= #[trigger] self.avail@[j] <= self.slots@.len()
        &&& forall|p: int, q: int|
            0 <= p < q < self.avail@.len() ==> self.avail@[p] != self.avail@[q]
        &&& forall|j: int|
            0 <= j < self.avail@.len() ==> self.slots@[#[trigger] self.avail@[j] - 1] is None
        &&& forall|i: int|
            0 <= i < self.slots@.len() && self.slots@[i] is None ==> exists|j: int|
                0 <= j < self.avail@.len() && self.avail@[j] == i + 1
        &&& count_live(self.slots@) + self.avail@.len() == self.slots@.len()
    }

    /// A table with `capacity` free keys and no live entries; new
    /// entries start with `default_ttl_ms` of idle time.
    pub fn new(capacity: usize, default_ttl_ms: u64) -> (r: Clients)
        ensures
            r.wf(),
            r.slots@.len() == capacity,
            r.avail@.len() == capacity,
            forall|i: int| 0 <= i < capacity ==> r.slots@[i] is None,
            r.default_ttl_ms == default_ttl_ms,
            capacity > 0 ==> r.avail@.last() == 1,
    {
        let mut slots: Vec<Option<(u64, u64)>> = Vec::new();
        let mut i: usize = 0;
        while i < capacity
            invariant
                i <= capacity,
                slots@.len() == i,
                forall|j: int| 0 <= j < i ==> slots@[j] is None,
                count_live(slots@) == 0,
            decreases capacity - i,
        {
            let ghost s0 = slots@;
            slots.push(None);
            assert(slots@.drop_last() =~= s0);
            i = i + 1;
        }
        let mut avail: Vec<usize> = Vec::new();
        let mut k: usize = capacity;
        while k > 0
            invariant
                k <= capacity,
                avail@.len() == capacity - k,
                forall|j: int| 0 <= j < avail@.len() ==> #[trigger] avail@[j] == capacity - j,
            decreases k,
        {
            avail.push(k);
            k = k - 1;
        }
        let r = Clients { slots, avail, default_ttl_ms };
        assert forall|i2: int|
            0 <= i2 < r.slots@.len() && r.slots@[i2] is None implies exists|j: int|
            0 <= j < r.avail@.len() && r.avail@[j] == i2 + 1 by {
            assert(r.avail@[capacity - (i2 + 1)] == i2 + 1);
        }
        r
    }

    /// Register a connection: take the top free key and give the slot
    /// the default time to live. With no free key the table is full
    /// and the connection is refused unchanged.
    pub fn add(&mut self, token: u64) -> (r: Result<usize, ClientError>)
        requires
            old(self).wf(),
        ensures
            final(self).wf(),
            final(self).default_ttl_ms == old(self).default_ttl_ms,
            old(self).avail@.len() == 0 ==> r == Result::<usize, ClientError>::Err(
                ClientError::CapacityExceeded,
            ) && final(self).slots@ == old(self).slots@ && final(self).avail@ == old(self).avail@,
            old(self).avail@.len() > 0 ==> ({
                let k = old(self).avail@.last();
                &&& r == Result::<usize, ClientError>::Ok(k)
                &&& final(self).avail@ == old(self).avail@.drop_last()
                &&& final(self).slots@ == old(self).slots@.update(
                    k - 1,
                    Some((token, old(self).default_ttl_ms)),
                )
            }),
    {
        let key = match self.avail.pop() {
            None => {
                return Err(ClientError::CapacityExceeded);
            },
            Some(k) => k,
        };
        let ghost s0 = self.slots@;
        let ghost a0 = old(self).avail@;
        self.slots[key - 1] = Some((token, self.default_ttl_ms));
        proof {
            lemma_count_update(s0, key - 1, Some((token, self.default_ttl_ms)));
            assert(a0.drop_last() =~= self.avail@);
            assert forall|i: int|
                0 <= i < self.slots@.len() && self.slots@[i] is None implies exists|j: int|
                0 <= j < self.avail@.len() && self.avail@[j] == i + 1 by {
                assert(s0[i] is None);
                let j = choose|j: int| 0 <= j < a0.len() && a0[j] == i + 1;
                assert(j < a0.len() - 1);
                assert(self.avail@[j] == i + 1);
            }
        }
        Ok(key)
    }

    /// Remove a live entry, returning its token and recycling its key
    /// onto the free list; an unknown key leaves the table unchanged.
    pub fn remove(&mut self, key: usize) -> (r: Result<u64, ClientError>)
        requires
            old(self).wf(),
        ensures
            final(self).wf(),
            final(self).default_ttl_ms == old(self).default_ttl_ms,
            !old(self).is_live(key) ==> r == Result::<u64, ClientError>::Err(ClientError::NotFound)
                && *final(self) == *old(self),
            old(self).is_live(key) ==> ({
                &&& r == Result::<u64, ClientError>::Ok((old(self).slots@[key - 1]->0).0)
                &&& final(self).slots@ == old(self).slots@.update(key - 1, None)
                &&& final(self).avail@ == old(self).avail@.push(key)
            }),
    {
        if key == 0 || key > self.slots.len() {
            return Err(ClientError::NotFound);
        }
        let entry = self.slots[key - 1];
        match entry {
            None => Err(ClientError::NotFound),
            Some((token, _ttl)) => {
                let ghost s0 = self.slots@;
                let ghost a0 = self.avail@;
                self.slots[key - 1] = None;
                self.avail.push(key);
                proof {
                    lemma_count_update(s0, key - 1, None);
                    assert forall|p: int, q: int|
                        0 <= p < q < self.avail@.len() implies self.avail@[p]
                        != self.avail@[q] by {
                        if q == self.avail@.len() - 1 {
                            assert(s0[a0[p] - 1] is None);
                        }
                    }
                    assert forall|i: int|
                        0 <= i < self.slots@.len() && self.slots@[i] is None implies exists|j: int|
                        0 <= j < self.avail@.len() && self.avail@[j] == i + 1 by {
                        if i == key - 1 {
                            assert(self.avail@[self.avail@.len() - 1] == i + 1);
                        } else {
                            let j = choose|j: int| 0 <= j < a0.len() && a0[j] == i + 1;
                            assert(self.avail@[j] == i + 1);
                        }
                    }
                }
                Ok(token)
            },
        }
    }

    /// Subtract `elapsed_ms` from every live entry's remaining time to
    /// live, saturating at zero.
    pub fn sub_time(&mut self, elapsed_ms: u64)
        requires
            old(self).wf(),
        ensures
            final(self).wf(),
            final(self).slots@ == spec_decay(old(self).slots@, elapsed_ms),
            final(self).avail@ == old(self).avail@,
            final(self).default_ttl_ms == old(self).default_ttl_ms,
    {
        let ghost s0 = self.slots@;
        let n = self.slots.len();
        let mut i: usize = 0;
        while i < n
            invariant
                i <= n,
                n == self.slots@.len(),
                s0.len() == n,
                self.avail@ == old(self).avail@,
                self.default_ttl_ms == old(self).default_ttl_ms,
                s0 == old(self).slots@,
                forall|j: int| 0 <= j < i ==> self.slots@[j] == spec_decay(s0, elapsed_ms)[j],
                forall|j: int| i <= j < n ==> self.slots@[j] == s0[j],
            decreases n - i,
        {
            match self.slots[i] {
                None => {},
                Some((token, ttl)) => {
                    let left = if ttl >= elapsed_ms {
                        ttl - elapsed_ms
                    } else {
                        0
                    };
                    self.slots[i] = Some((token, left));
                },
            }
            i = i + 1;
        }
        proof {
            assert(self.slots@ =~= spec_decay(s0, elapsed_ms));
            lemma_count_pointwise(self.slots@, s0);
        }
    }

    /// The smallest remaining time to live among live entries, the
    /// longest the event loop may sleep; with no live entry there is no
    /// deadline.
    pub fn next_timeout(&self) -> (r: Option<u64>)
        ensures
            match r {
                None => forall|i: int| 0 <= i < self.slots@.len() ==> self.slots@[i] is None,
                Some(m) => (exists|i: int|
                    0 <= i < self.slots@.len() && self.slots@[i] is Some && (
                    self.slots@[i]->0).1 == m) && (forall|i: int|
                    0 <= i < self.slots@.len() && self.slots@[i] is Some ==> (
                    self.slots@[i]->0).1 >= m),
            },
    {
        let mut best: Option<u64> = None;
        let n = self.slots.len();
        let mut i: usize = 0;
        while i < n
            invariant
                i <= n,
                n == self.slots@.len(),
                match best {
                    None => forall|j: int| 0 <= j < i ==> self.slots@[j] is None,
                    Some(m) => (exists|j: int|
                        0 <= j < i && self.slots@[j] is Some && (self.slots@[j]->0).1 == m) && (
                    forall|j: int|
                        0 <= j < i && self.slots@[j] is Some ==> (self.slots@[j]->0).1 >= m),
                },
            decreases n - i,
        {
            match self.slots[i] {
                None => {},
                Some((_token, ttl)) => {
                    best = match best {
                        None => Some(ttl),
                        Some(m) => if ttl < m {
                            Some(ttl)
                        } else {
                            Some(m)
                        },
                    };
                },
            }
            i = i + 1;
        }
        best
    }

    /// Evict every entry whose time to live has run out, returning the
    /// evicted keys in increasing order; their keys go back on the free
    /// list, ready for the next registration.
    pub fn remove_timed_out(&mut self) -> (r: Vec<usize>)
        requires
            old(self).wf(),
        ensures
            final(self).wf(),
            final(self).slots@ == spec_sweep(old(self).slots@),
            r@ == spec_expired(old(self).slots@),
            final(self).avail@ == old(self).avail@ + r@,
            final(self).default_ttl_ms == old(self).default_ttl_ms,
    {
        let ghost s0 = self.slots@;
        let ghost a0 = self.avail@;
        let mut out: Vec<usize> = Vec::new();
        let n = self.slots.len();
        let mut i: usize = 0;
        proof {
            assert(spec_expired(s0.take(0)) =~= Seq::<usize>::empty());
            assert(self.avail@ =~= a0 + out@);
        }
        while i < n
            invariant
                i <= n,
                n == self.slots@.len(),
                s0.len() == n,
                a0 == old(self).avail@,
                s0 == old(self).slots@,
                self.default_ttl_ms == old(self).default_ttl_ms,
                forall|j: int| 0 <= j < i ==> self.slots@[j] == spec_sweep(s0)[j],
                forall|j: int| i <= j < n ==> self.slots@[j] == s0[j],
                out@ == spec_expired(s0.take(i as int)),
                self.avail@ == a0 + out@,
            decreases n - i,
        {
            let evict = match self.slots[i] {
                None => false,
                Some((_token, ttl)) => ttl == 0,
            };
            if evict {
                self.slots[i] = None;
                self.avail.push(i + 1);
                out.push(i + 1);
            }
            i = i + 1;
            proof {
                assert(s0.take(i as int).drop_last() =~= s0.take(i as int - 1));
                assert(s0.take(i as int).last() == s0[i as int - 1]);
                assert(out@ =~= spec_expired(s0.take(i as int)));
                assert(self.avail@ =~= a0 + out@);
            }
        }
        proof {
            assert(s0.take(n as int) =~= s0);
            assert(self.slots@ =~= spec_sweep(s0));
            lemma_sweep_wf(*old(self), *self, out@);
        }
        out
    }

    /// Give a live entry a fresh default time to live, as when a
    /// keep-alive request arrives on its connection.
    pub fn refresh(&mut self, key: usize) -> (r: bool)
        requires
            old(self).wf(),
        ensures
            final(self).wf(),
            final(self).avail@ == old(self).avail@,
            final(self).default_ttl_ms == old(self).default_ttl_ms,
            r == old(self).is_live(key),
            !r ==> final(self).slots@ == old(self).slots@,
            r ==> final(self).slots@ == old(self).slots@.update(
                key - 1,
                Some(((old(self).slots@[key - 1]->0).0, old(self).default_ttl_ms)),
            ),
    {
        if key == 0 || key > self.slots.len() {
            return false;
        }
        let ghost s0 = self.slots@;
        match self.slots[key - 1] {
            None => false,
            Some((token, _ttl)) => {
                self.slots[key - 1] = Some((token, self.default_ttl_ms));
                proof {
                    lemma_count_update(s0, key - 1, self.slots@[key - 1]);
                }
                true
            },
        }
    }

    /// Look a live key up, returning its connection token.
    pub fn get(&self, key: usize) -> (r: Option<u64>)
        ensures
            r is Some <==> self.is_live(key),
            r is Some ==> r->0 == (self.slots@[key - 1]->0).0,
    {
        if key == 0 || key > self.slots.len() {
            return None;
        }
        match self.slots[key - 1] {
            None => None,
            Some((token, _ttl)) => Some(token),
        }
    }
}

/// At all times the number of live entries plus the number of free
/// keys equals the configured capacity, and no key is both live and
/// free; since each key names exactly one slot, no key can be held by
/// two live entries.
pub proof fn lemma_capacity_invariant(c: &Clients)
    requires
        c.wf(),
    ensures
        count_live(c.slots@) + c.avail@.len() == c.capacity(),
        forall|k: usize| c.is_live(k) ==> !c.is_free(k),
{
    assert forall|k: usize| c.is_live(k) implies !c.is_free(k) by {
        if c.is_free(k) {
            let j = choose|j: int| 0 <= j < c.avail@.len() && c.avail@[j] == k;
            assert(c.slots@[c.avail@[j] - 1] is None);
        }
    }
}

/// When `key` names the highest slot that has run out of time, the
/// sweep reports it last, so it ends up on top of the free list.
pub proof fn lemma_expired_last(s: Seq<Option<(u64, u64)>>, i: int)
    requires
        s.len() <= usize::MAX,
        0 <= i < s.len(),
        s[i] is Some,
        (s[i]->0).1 == 0,
        forall|j: int| i < j < s.len() ==> !(s[j] is Some && (s[j]->0).1 == 0),
    ensures
        spec_expired(s).len() > 0,
        spec_expired(s).last() == i + 1,
    decreases s.len(),
{
    if i == s.len() - 1 {
        assert(s.last() == s[i]);
    } else {
        assert(s.drop_last()[i] == s[i]);
        assert(forall|j: int|
            i < j < s.len() - 1 ==> s.drop_last()[j] == s[j] && !(s[j] is Some && (s[j]->0).1
                == 0));
        lemma_expired_last(s.drop_last(), i);
        assert(spec_expired(s) =~= spec_expired(s.drop_last()));
    }
}

/// A connection with no further bytes sent is evicted once its tracked
/// remaining time reaches zero: decaying by at least that remainder
/// zeroes the entry, the sweep then empties its slot and returns its
/// key among the expired keys, whence it lands on the free list; and
/// when it is the highest such key it tops the list, so the very next
/// registration hands exactly this key out again.
pub proof fn lemma_idle_timeout(slots: Seq<Option<(u64, u64)>>, elapsed_ms: u64, key: usize)
    requires
        slots.len() <= usize::MAX,
        1 <= key <= slots.len(),
        slots[key - 1] is Some,
        (slots[key - 1]->0).1 <= elapsed_ms,
    ensures
        spec_decay(slots, elapsed_ms)[key - 1] is Some,
        (spec_decay(slots, elapsed_ms)[key - 1]->0).1 == 0,
        spec_sweep(spec_decay(slots, elapsed_ms))[key - 1] is None,
        exists|j: int|
            0 <= j < spec_expired(spec_decay(slots, elapsed_ms)).len() && spec_expired(
                spec_decay(slots, elapsed_ms),
            )[j] == key,
        (forall|j: int|
            key <= j < slots.len() ==> !(spec_decay(slots, elapsed_ms)[j] is Some && (spec_decay(
                slots,
                elapsed_ms,
            )[j]->0).1 == 0)) ==> spec_expired(spec_decay(slots, elapsed_ms)).last() == key,
{
    let d = spec_decay(slots, elapsed_ms);
    lemma_expired_contains(d, key - 1);
    if forall|j: int| key <= j < slots.len() ==> !(d[j] is Some && (d[j]->0).1 == 0) {
        lemma_expired_last(d, key - 1);
    }
}

} // verus!
