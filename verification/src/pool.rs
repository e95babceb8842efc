//! The sharded pool and its handles.

use vstd::prelude::*;
use crate::laws::{count_after, lemma_valid_history_push, ops_valid, returns_in, ShareOp};
use crate::probing::{all_empty, all_full, first_nonempty, place_from};

verus! {

/// A fixed set of bounded shards ("buckets"). Each shard is an ordered
/// collection of pre-built items; no shard ever grows beyond the
/// capacity fixed at construction.
pub struct InnerPool<T> {
    buckets: Vec<Vec<T>>,
    capacity: usize,
}

impl<T> InnerPool<T> {
    /// The contents of the shards, shard by shard.
    pub closed spec fn shards(&self) -> Seq<Seq<T>> {
        self.buckets@.map_values(|b: Vec<T>| b@)
    }

    /// The per-shard capacity fixed at construction.
    pub closed spec fn cap(&self) -> nat {
        self.capacity as nat
    }

    /// The number of shards, fixed at construction.
    pub open spec fn shard_count(&self) -> nat {
        self.shards().len()
    }

    /// Well-formedness: at least one shard, and no shard above capacity.
    pub open spec fn wf(&self) -> bool {
        &&& self.shard_count() >= 1
        &&& forall|i: int|
            0 <= i < self.shards().len() ==> (#[trigger] self.shards()[i]).len() <= self.cap()
    }

    /// Eagerly builds `bucket_count` shards, each pre-filled with
    /// `capacity_per_bucket` items manufactured by `init_fn`.
    pub fn new<F: Fn() -> T>(bucket_count: usize, capacity_per_bucket: usize, init_fn: F) -> (r:
        Self)
        requires
            bucket_count >= 1,
            init_fn.requires(()),
        ensures
            r.wf(),
            r.shard_count() == bucket_count,
            r.cap() == capacity_per_bucket,
            forall|i: int|
                0 <= i < bucket_count ==> (#[trigger] r.shards()[i]).len() == capacity_per_bucket,
            forall|i: int, j: int|
                0 <= i < bucket_count && 0 <= j < capacity_per_bucket ==> init_fn.ensures(
                    (),
                    #[trigger] r.shards()[i][j],
                ),
    {
        let mut buckets: Vec<Vec<T>> = Vec::new();
        let mut b: usize = 0;
        while b < bucket_count
            invariant
                b <= bucket_count,
                init_fn.requires(()),
                buckets@.len() == b,
                forall|i: int| 0 <= i < b ==> (#[trigger] buckets@[i]@).len() == capacity_per_bucket,
                forall|i: int, j: int|
                    0 <= i < b && 0 <= j < capacity_per_bucket ==> init_fn.ensures(
                        (),
                        #[trigger] buckets@[i]@[j],
                    ),
            decreases bucket_count - b,
        {
            let mut shard: Vec<T> = Vec::new();
            let mut k: usize = 0;
            while k < capacity_per_bucket
                invariant
                    k <= capacity_per_bucket,
                    init_fn.requires(()),
                    shard@.len() == k,
                    forall|j: int| 0 <= j < k ==> init_fn.ensures((), #[trigger] shard@[j]),
                decreases capacity_per_bucket - k,
            {
                shard.push(init_fn());
                k = k + 1;
            }
            buckets.push(shard);
            b = b + 1;
        }
        InnerPool { buckets, capacity: capacity_per_bucket }
    }

    /// The number of shards.
    pub fn num_shards(&self) -> (r: usize)
        ensures
            r as nat == self.shard_count(),
    {
        self.buckets.len()
    }

    /// The per-shard capacity.
    pub fn capacity(&self) -> (r: usize)
        ensures
            r as nat == self.cap(),
    {
        self.capacity
    }

    /// The number of items currently held by shard `i`.
    pub fn shard_len(&self, i: usize) -> (r: usize)
        requires
            i < self.shard_count(),
        ensures
            r as nat == self.shards()[i as int].len(),
    {
        self.buckets[i].len()
    }

    /// Pops an item from the single shard selected by `counter` (taken
    /// modulo the shard count) and wraps it in an exclusive handle; an
    /// empty shard yields `None` and no other shard is probed.
    pub fn try_pull_from_bucket(&mut self, counter: usize) -> (r: Option<MutMemShare<T>>)
        requires
            old(self).wf(),
        ensures
            final(self).wf(),
            final(self).cap() == old(self).cap(),
            final(self).shard_count() == old(self).shard_count(),
            ({
                let b = (counter as int) % (old(self).shard_count() as int);
                if old(self).shards()[b].len() == 0 {
                    r is None && final(self).shards() == old(self).shards()
                } else {
                    r matches Some(h) && h.bucket_id() == b && h.item() == old(self).shards()[b].last()
                        && final(self).shards() == old(self).shards().update(
                        b,
                        old(self).shards()[b].drop_last(),
                    )
                }
            }),
    {
        let bucket = counter % self.buckets.len();
        let mem = self.buckets[bucket].pop();
        proof {
            assert(self.shards() =~= if old(self).shards()[bucket as int].len() == 0 {
                old(self).shards()
            } else {
                old(self).shards().update(
                    bucket as int,
                    old(self).shards()[bucket as int].drop_last(),
                )
            });
        }
        match mem {
            None => None,
            Some(mem) => Some(MutMemShare { mem, bucket }),
        }
    }

    /// Like `try_pull_from_bucket`, but on a miss keeps probing the
    /// remaining shards in wrapping order before giving up: the result
    /// is `None` exactly when every shard is empty.
    pub fn try_pull_any_shard(&mut self, counter: usize) -> (r: Option<MutMemShare<T>>)
        requires
            old(self).wf(),
        ensures
            final(self).wf(),
            final(self).cap() == old(self).cap(),
            final(self).shard_count() == old(self).shard_count(),
            ({
                let start = (counter as int) % (old(self).shard_count() as int);
                match first_nonempty(old(self).shards(), start, old(self).shard_count()) {
                    None => r is None && final(self).shards() == old(self).shards(),
                    Some(i) => r matches Some(h) && h.bucket_id() == i && h.item() == old(
                        self,
                    ).shards()[i].last() && final(self).shards() == old(self).shards().update(
                        i,
                        old(self).shards()[i].drop_last(),
                    ),
                }
            }),
            r is None <==> all_empty(old(self).shards()),
    {
        let n = self.buckets.len();
        let start = counter % n;
        let ghost orig = self.shards();
        let mut j: usize = 0;
        let mut idx: usize = start;
        #[verifier::loop_isolation(false)]
        while j < n
            invariant
                self.wf(),
                self.shards() == orig,
                self.cap() == old(self).cap(),
                n == self.shard_count(),
                start < n,
                j <= n,
                idx < n,
                start + j < n ==> idx == start + j,
                start + j >= n ==> idx as int == start as int + j as int - n as int,
                forall|k: int|
                    0 <= k < n && (start <= k < start + j || k < start + j - n) ==> (
                    #[trigger] orig[k]).len() == 0,
                first_nonempty(orig, start as int, n as nat) == first_nonempty(
                    orig,
                    idx as int,
                    (n - j) as nat,
                ),
            decreases n - j,
        {
            if self.buckets[idx].len() > 0 {
                let mem = self.buckets[idx].pop().unwrap();
                proof {
                    assert(!all_empty(orig)) by {
                        assert(orig[idx as int].len() > 0);
                    }
                    assert(self.shards() =~= orig.update(
                        idx as int,
                        orig[idx as int].drop_last(),
                    ));
                }
                return Some(MutMemShare { mem, bucket: idx });
            }
            j = j + 1;
            idx = if idx + 1 == n {
                0
            } else {
                idx + 1
            };
        }
        None
    }

    /// Pops from the single shard selected by `counter`, and on a miss
    /// manufactures a brand-new item with `fallback` instead; either
    /// way the resulting exclusive handle points at that shard, so a
    /// later release targets a real shard. Never reports empty.
    pub fn try_pull_from_bucket_with_fallback<F: Fn() -> T>(
        &mut self,
        counter: usize,
        fallback: F,
    ) -> (r: MutMemShare<T>)
        requires
            old(self).wf(),
            fallback.requires(()),
        ensures
            final(self).wf(),
            final(self).cap() == old(self).cap(),
            final(self).shard_count() == old(self).shard_count(),
            ({
                let b = (counter as int) % (old(self).shard_count() as int);
                if old(self).shards()[b].len() == 0 {
                    r.bucket_id() == b && fallback.ensures((), r.item()) && final(self).shards()
                        == old(self).shards()
                } else {
                    r.bucket_id() == b && r.item() == old(self).shards()[b].last()
                        && final(self).shards() == old(self).shards().update(
                        b,
                        old(self).shards()[b].drop_last(),
                    )
                }
            }),
    {
        match self.try_pull_from_bucket(counter) {
            Some(h) => h,
            None => MutMemShare { mem: fallback(), bucket: counter % self.buckets.len() },
        }
    }

    /// Returns `mem` to the pool: probes every shard once in wrapping
    /// order starting at `bucket % shard_count`, pushes the item onto
    /// the first shard found below capacity, and stops. When every
    /// shard is at capacity the item is silently shed (dropped), so a
    /// return never blocks and never grows a shard beyond capacity.
    pub fn re_attach(&mut self, bucket: usize, mem: T)
        requires
            old(self).wf(),
        ensures
            final(self).wf(),
            final(self).cap() == old(self).cap(),
            final(self).shard_count() == old(self).shard_count(),
            final(self).shards() == place_from(
                old(self).shards(),
                old(self).cap(),
                (bucket as int) % (old(self).shard_count() as int),
                old(self).shard_count(),
                mem,
            ),
            all_full(old(self).shards(), old(self).cap()) ==> final(self).shards() == old(
                self,
            ).shards(),
            !all_full(old(self).shards(), old(self).cap()) ==> exists|i: int|
                0 <= i < old(self).shard_count() && (#[trigger] old(self).shards()[i]).len() < old(
                    self,
                ).cap() && final(self).shards() == old(self).shards().update(
                    i,
                    old(self).shards()[i].push(mem),
                ),
    {
        let n = self.buckets.len();
        let start = bucket % n;
        let ghost orig = self.shards();
        let ghost cap = self.cap();
        let mut j: usize = 0;
        let mut idx: usize = start;
        #[verifier::loop_isolation(false)]
        while j < n
            invariant
                self.wf(),
                self.shards() == orig,
                self.cap() == cap,
                n == self.shard_count(),
                start < n,
                j <= n,
                idx < n,
                start + j < n ==> idx == start + j,
                start + j >= n ==> idx as int == start as int + j as int - n as int,
                forall|k: int|
                    0 <= k < n && (start <= k < start + j || k < start + j - n) ==> (
                    #[trigger] orig[k]).len() >= cap,
                place_from(orig, cap, start as int, n as nat, mem) == place_from(
                    orig,
                    cap,
                    idx as int,
                    (n - j) as nat,
                    mem,
                ),
            decreases n - j,
        {
            if self.buckets[idx].len() < self.capacity {
                self.buckets[idx].push(mem);
                proof {
                    assert(self.shards() =~= orig.update(
                        idx as int,
                        orig[idx as int].push(mem),
                    ));
                }
                return ;
            }
            j = j + 1;
            idx = if idx + 1 == n {
                0
            } else {
                idx + 1
            };
        }
    }
}

/// The next value of a round-robin counter: the counters only ever
/// step by one, wrapping at the machine limit; they select starting
/// shards and are load-distribution hints, not correctness-critical.
pub open spec fn wrap_inc(c: nat) -> nat {
    if c == usize::MAX as nat {
        0
    } else {
        c + 1
    }
}

/// The pool: a fixed set of shards together with two monotonically
/// stepping round-robin counters, one selecting where pulls start and
/// one selecting where returns of shared leases start.
pub struct MemPool<T> {
    inner: InnerPool<T>,
    counter: usize,
    return_counter: usize,
}

impl<T> MemPool<T> {
    /// The contents of the shards, shard by shard.
    pub closed spec fn shards(&self) -> Seq<Seq<T>> {
        self.inner.shards()
    }

    /// The per-shard capacity fixed at construction.
    pub closed spec fn cap(&self) -> nat {
        self.inner.cap()
    }

    /// The number of shards, fixed at construction.
    pub open spec fn shard_count(&self) -> nat {
        self.shards().len()
    }

    /// The round-robin counter that selects where the next pull starts.
    pub closed spec fn pull_count(&self) -> nat {
        self.counter as nat
    }

    /// The round-robin counter that selects where the next return of a
    /// shared lease starts.
    pub closed spec fn return_count(&self) -> nat {
        self.return_counter as nat
    }

    /// Well-formedness: at least one shard, and no shard above capacity.
    pub open spec fn wf(&self) -> bool {
        &&& self.shard_count() >= 1
        &&& forall|i: int|
            0 <= i < self.shards().len() ==> (#[trigger] self.shards()[i]).len() <= self.cap()
    }

    /// Builds a pool of `bucket_count` shards, each eagerly pre-filled
    /// with `capacity_per_bucket` items manufactured by `init_fn`, and
    /// both round-robin counters at zero.
    pub fn new<F: Fn() -> T>(bucket_count: usize, capacity_per_bucket: usize, init_fn: F) -> (r:
        Self)
        requires
            bucket_count >= 1,
            init_fn.requires(()),
        ensures
            r.wf(),
            r.shard_count() == bucket_count,
            r.cap() == capacity_per_bucket,
            r.pull_count() == 0,
            r.return_count() == 0,
            forall|i: int|
                0 <= i < bucket_count ==> (#[trigger] r.shards()[i]).len() == capacity_per_bucket,
            forall|i: int, j: int|
                0 <= i < bucket_count && 0 <= j < capacity_per_bucket ==> init_fn.ensures(
                    (),
                    #[trigger] r.shards()[i][j],
                ),
    {
        let inner = InnerPool::new(bucket_count, capacity_per_bucket, init_fn);
        MemPool { inner, counter: 0, return_counter: 0 }
    }

    /// Steps the pull counter by one, wrapping at the machine limit.
    fn bump_pull_counter(&mut self)
        ensures
            final(self).pull_count() == wrap_inc(old(self).pull_count()),
            final(self).return_count() == old(self).return_count(),
            final(self).shards() == old(self).shards(),
            final(self).cap() == old(self).cap(),
    {
        self.counter = if self.counter == usize::MAX {
            0
        } else {
            self.counter + 1
        };
    }

    /// The cheap single-shard pull: pops from the one shard selected by
    /// the pull counter, steps the counter, and reports empty without
    /// probing any other shard.
    pub fn try_pull(&mut self) -> (r: Option<MutMemShare<T>>)
        requires
            old(self).wf(),
        ensures
            final(self).wf(),
            final(self).cap() == old(self).cap(),
            final(self).shard_count() == old(self).shard_count(),
            final(self).pull_count() == wrap_inc(old(self).pull_count()),
            final(self).return_count() == old(self).return_count(),
            ({
                let b = (old(self).pull_count() as int) % (old(self).shard_count() as int);
                if old(self).shards()[b].len() == 0 {
                    r is None && final(self).shards() == old(self).shards()
                } else {
                    r matches Some(h) && h.bucket_id() == b && h.item() == old(self).shards()[b].last()
                        && final(self).shards() == old(self).shards().update(
                        b,
                        old(self).shards()[b].drop_last(),
                    )
                }
            }),
    {
        let r = self.inner.try_pull_from_bucket(self.counter);
        self.bump_pull_counter();
        r
    }

    /// Like `try_pull`, but on a miss probes the remaining shards in
    /// wrapping order before giving up: the result is `None` exactly
    /// when every shard is empty.
    pub fn try_pull_any_shard(&mut self) -> (r: Option<MutMemShare<T>>)
        requires
            old(self).wf(),
        ensures
            final(self).wf(),
            final(self).cap() == old(self).cap(),
            final(self).shard_count() == old(self).shard_count(),
            final(self).pull_count() == wrap_inc(old(self).pull_count()),
            final(self).return_count() == old(self).return_count(),
            ({
                let start = (old(self).pull_count() as int) % (old(self).shard_count() as int);
                match first_nonempty(old(self).shards(), start, old(self).shard_count()) {
                    None => r is None && final(self).shards() == old(self).shards(),
                    Some(i) => r matches Some(h) && h.bucket_id() == i && h.item() == old(
                        self,
                    ).shards()[i].last() && final(self).shards() == old(self).shards().update(
                        i,
                        old(self).shards()[i].drop_last(),
                    ),
                }
            }),
            r is None <==> all_empty(old(self).shards()),
    {
        let r = self.inner.try_pull_any_shard(self.counter);
        self.bump_pull_counter();
        r
    }

    /// Pulls from any shard, and when the whole pool is exhausted
    /// synchronously manufactures a brand-new item with `fallback`
    /// instead; the fallback handle points at the shard the probe
    /// started from, so a later release targets a real shard. Never
    /// reports empty and never blocks.
    pub fn try_pull_with_fallback<F: Fn() -> T>(&mut self, fallback: F) -> (r: MutMemShare<T>)
        requires
            old(self).wf(),
            fallback.requires(()),
        ensures
            final(self).wf(),
            final(self).cap() == old(self).cap(),
            final(self).shard_count() == old(self).shard_count(),
            final(self).pull_count() == wrap_inc(old(self).pull_count()),
            final(self).return_count() == old(self).return_count(),
            ({
                let start = (old(self).pull_count() as int) % (old(self).shard_count() as int);
                match first_nonempty(old(self).shards(), start, old(self).shard_count()) {
                    None => r.bucket_id() == start && fallback.ensures((), r.item())
                        && final(self).shards() == old(self).shards(),
                    Some(i) => r.bucket_id() == i && r.item() == old(self).shards()[i].last()
                        && final(self).shards() == old(self).shards().update(
                        i,
                        old(self).shards()[i].drop_last(),
                    ),
                }
            }),
            all_empty(old(self).shards()) ==> fallback.ensures((), r.item()),
    {
        let counter = self.counter;
        let pulled = self.inner.try_pull_any_shard(counter);
        self.bump_pull_counter();
        match pulled {
            Some(h) => h,
            None => MutMemShare { mem: fallback(), bucket: counter % self.inner.num_shards() },
        }
    }

    /// Returns `mem` to the pool, probing every shard once in wrapping
    /// order starting at `bucket % shard_count`; the first shard found
    /// below capacity receives the item, and when every shard is at
    /// capacity the item is silently shed.
    pub fn re_attach(&mut self, bucket: usize, mem: T)
        requires
            old(self).wf(),
        ensures
            final(self).wf(),
            final(self).cap() == old(self).cap(),
            final(self).shard_count() == old(self).shard_count(),
            final(self).pull_count() == old(self).pull_count(),
            final(self).return_count() == old(self).return_count(),
            final(self).shards() == place_from(
                old(self).shards(),
                old(self).cap(),
                (bucket as int) % (old(self).shard_count() as int),
                old(self).shard_count(),
                mem,
            ),
            all_full(old(self).shards(), old(self).cap()) ==> final(self).shards() == old(
                self,
            ).shards(),
            !all_full(old(self).shards(), old(self).cap()) ==> exists|i: int|
                0 <= i < old(self).shard_count() && (#[trigger] old(self).shards()[i]).len() < old(
                    self,
                ).cap() && final(self).shards() == old(self).shards().update(
                    i,
                    old(self).shards()[i].push(mem),
                ),
    {
        self.inner.re_attach(bucket, mem);
    }

    /// Returns an item whose lease carries no shard of its own (a
    /// shared lease): the return counter selects the starting shard
    /// and is stepped by one, then the item is returned as `re_attach`
    /// does.
    pub fn return_item(&mut self, mem: T)
        requires
            old(self).wf(),
        ensures
            final(self).wf(),
            final(self).cap() == old(self).cap(),
            final(self).shard_count() == old(self).shard_count(),
            final(self).pull_count() == old(self).pull_count(),
            final(self).return_count() == wrap_inc(old(self).return_count()),
            final(self).shards() == place_from(
                old(self).shards(),
                old(self).cap(),
                (old(self).return_count() as int) % (old(self).shard_count() as int),
                old(self).shard_count(),
                mem,
            ),
            all_full(old(self).shards(), old(self).cap()) ==> final(self).shards() == old(
                self,
            ).shards(),
            !all_full(old(self).shards(), old(self).cap()) ==> exists|i: int|
                0 <= i < old(self).shard_count() && (#[trigger] old(self).shards()[i]).len() < old(
                    self,
                ).cap() && final(self).shards() == old(self).shards().update(
                    i,
                    old(self).shards()[i].push(mem),
                ),
    {
        let start = self.return_counter;
        self.return_counter = if self.return_counter == usize::MAX {
            0
        } else {
            self.return_counter + 1
        };
        self.inner.re_attach(start, mem);
    }

    /// The number of shards.
    pub fn num_shards(&self) -> (r: usize)
        ensures
            r as nat == self.shard_count(),
    {
        self.inner.num_shards()
    }

    /// The per-shard capacity.
    pub fn capacity(&self) -> (r: usize)
        ensures
            r as nat == self.cap(),
    {
        self.inner.capacity()
    }

    /// The number of items currently held by shard `i`.
    pub fn shard_len(&self, i: usize) -> (r: usize)
        requires
            i < self.shard_count(),
        ensures
            r as nat == self.shards()[i as int].len(),
    {
        self.inner.shard_len(i)
    }
}

/// A single-owner lease over one item pulled from (or destined for) a
/// shard. The holder has exclusive read and write access to the item
/// until the handle is consumed by `release`, `detach` or `freeze`.
pub struct MutMemShare<T> {
    mem: T,
    bucket: usize,
}

impl<T> MutMemShare<T> {
    /// The leased item.
    pub open spec fn item(&self) -> T {
        self.payload()
    }

    /// The shard index a release of this handle starts probing at.
    pub closed spec fn bucket_id(&self) -> int {
        self.bucket as int
    }

    /// The shard index a release of this handle starts probing at.
    pub fn bucket(&self) -> (r: usize)
        ensures
            r as int == self.bucket_id(),
    {
        self.bucket
    }

    /// Read access to the leased item.
    pub fn mem(&self) -> (r: &T)
        ensures
            *r == self.item(),
    {
        &self.mem
    }

    /// Write access to the leased item.
    pub fn mem_mut(&mut self) -> (r: &mut T)
        ensures
            *r == old(self).item(),
            final(self).item() == *final(r),
            final(self).bucket_id() == old(self).bucket_id(),
    {
        &mut self.mem
    }

    /// Releases the lease: the item is unconditionally handed back to
    /// the pool, which probes for a shard with room starting at this
    /// handle's shard (and sheds the item when every shard is full).
    pub fn release(self, pool: &mut MemPool<T>)
        requires
            old(pool).wf(),
        ensures
            final(pool).wf(),
            final(pool).cap() == old(pool).cap(),
            final(pool).shard_count() == old(pool).shard_count(),
            final(pool).pull_count() == old(pool).pull_count(),
            final(pool).return_count() == old(pool).return_count(),
            final(pool).shards() == place_from(
                old(pool).shards(),
                old(pool).cap(),
                self.bucket_id() % (old(pool).shard_count() as int),
                old(pool).shard_count(),
                self.item(),
            ),
            all_full(old(pool).shards(), old(pool).cap()) ==> final(pool).shards() == old(
                pool,
            ).shards(),
            !all_full(old(pool).shards(), old(pool).cap()) ==> exists|i: int|
                0 <= i < old(pool).shard_count() && (#[trigger] old(pool).shards()[i]).len() < old(
                    pool,
                ).cap() && final(pool).shards() == old(pool).shards().update(
                    i,
                    old(pool).shards()[i].push(self.item()),
                ),
    {
        pool.re_attach(self.bucket, self.mem);
    }

    /// Consumes the exclusive lease and produces a shared lease over
    /// the same item, with exactly one owner; the exclusive handle is
    /// gone, so no further mutation of the item is possible.
    pub fn freeze(self) -> (r: ShareableMem<T>)
        ensures
            r.wf(),
            r.item() == self.item(),
            r.owners() == 1,
            r.bucket_id() == self.bucket_id(),
            r.history() == Seq::<ShareOp>::empty(),
    {
        ShareableMem { mem: self.mem, count: 1, bucket: self.bucket, history: Ghost(Seq::empty()) }
    }
}

/// A shared, reference-counted lease: several logical owners may hold
/// the same item at once with read-only access. The item goes back to
/// a shard exactly once, when the last owner releases. The ghost
/// history records every clone and release taken since the freeze that
/// created the lease, so that the exactly-once law can be stated of
/// the handle itself.
pub struct ShareableMem<T> {
    mem: T,
    count: usize,
    bucket: usize,
    history: Ghost<Seq<ShareOp>>,
}

impl<T> ShareableMem<T> {
    /// The shared item.
    pub closed spec fn item(&self) -> T {
        self.mem
    }

    /// The number of logical owners currently holding the item.
    pub closed spec fn owners(&self) -> nat {
        self.count as nat
    }

    /// The shard index an `unfreeze`d exclusive handle returns to.
    pub closed spec fn bucket_id(&self) -> int {
        self.bucket as int
    }

    /// The clones and releases this lease family has gone through
    /// since it was frozen.
    pub closed spec fn history(&self) -> Seq<ShareOp> {
        self.history@
    }

    /// Well-formedness: a live shared lease has at least one owner,
    /// its history is a valid interleaving, the owner count is what
    /// the history says, and the item has never yet been handed back.
    pub open spec fn wf(&self) -> bool {
        &&& self.owners() >= 1
        &&& self.owners() == count_after(self.history())
        &&& ops_valid(self.history())
        &&& returns_in(self.history()) == 0
    }

    /// The number of logical owners currently holding the item.
    pub fn owner_count(&self) -> (r: usize)
        ensures
            r as nat == self.owners(),
    {
        self.count
    }

    /// Read access to the shared item.
    pub fn mem(&self) -> (r: &T)
        ensures
            *r == self.item(),
    {
        &self.mem
    }

    /// Registers one more logical owner of the item: the only way to
    /// create an additional owner of a shared lease.
    pub fn clone_ref(&mut self)
        requires
            old(self).wf(),
            old(self).owners() < usize::MAX,
        ensures
            final(self).wf(),
            final(self).owners() == old(self).owners() + 1,
            final(self).item() == old(self).item(),
            final(self).bucket_id() == old(self).bucket_id(),
            final(self).history() == old(self).history().push(ShareOp::CloneRef),
    {
        self.count = self.count + 1;
        proof {
            lemma_valid_history_push(self.history@, ShareOp::CloneRef);
            self.history@ = self.history@.push(ShareOp::CloneRef);
        }
    }

    /// Releases one logical owner. The owner whose release brings the
    /// count from one to zero — and only that owner — hands the item
    /// back to the pool (`return_item`); any other release merely
    /// decrements the count and keeps the lease alive. The history
    /// ensures make the exactly-once law concrete: the full history of
    /// a family that dies here contains exactly one hand-back, and a
    /// family that lives on has had none.
    pub fn release_owner(self, pool: &mut MemPool<T>) -> (r: Option<ShareableMem<T>>)
        requires
            old(pool).wf(),
            self.wf(),
        ensures
            final(pool).wf(),
            final(pool).cap() == old(pool).cap(),
            final(pool).shard_count() == old(pool).shard_count(),
            final(pool).pull_count() == old(pool).pull_count(),
            self.owners() == 1 ==> r is None && final(pool).return_count() == wrap_inc(
                old(pool).return_count(),
            ) && final(pool).shards() == place_from(
                old(pool).shards(),
                old(pool).cap(),
                (old(pool).return_count() as int) % (old(pool).shard_count() as int),
                old(pool).shard_count(),
                self.item(),
            ),
            self.owners() == 1 ==> count_after(self.history().push(ShareOp::Release)) == 0
                && returns_in(self.history().push(ShareOp::Release)) == 1,
            self.owners() == 1 && !all_full(old(pool).shards(), old(pool).cap()) ==> exists|i: int|
                0 <= i < old(pool).shard_count() && (#[trigger] old(pool).shards()[i]).len() < old(
                    pool,
                ).cap() && final(pool).shards() == old(pool).shards().update(
                    i,
                    old(pool).shards()[i].push(self.item()),
                ),
            self.owners() > 1 ==> ({
                &&& r matches Some(s)
                &&& s.wf()
                &&& s.owners() == self.owners() - 1
                &&& s.item() == self.item()
                &&& s.bucket_id() == self.bucket_id()
                &&& s.history() == self.history().push(ShareOp::Release)
                &&& *final(pool) == *old(pool)
            }),
    {
        proof {
            lemma_valid_history_push(self.history@, ShareOp::Release);
        }
        if self.count == 1 {
            pool.return_item(self.mem);
            None
        } else {
            Some(
                ShareableMem {
                    mem: self.mem,
                    count: self.count - 1,
                    bucket: self.bucket,
                    history: Ghost(self.history@.push(ShareOp::Release)),
                },
            )
        }
    }

    /// Reclaims exclusivity: legal exactly when this lease has a single
    /// owner. With one owner the lease becomes an exclusive handle over
    /// the same item; with outstanding clones the call reports the
    /// ownership violation by handing the shared lease back unchanged.
    pub fn unfreeze(self) -> (r: Result<MutMemShare<T>, ShareableMem<T>>)
        requires
            self.wf(),
        ensures
            r is Ok <==> self.owners() == 1,
            r matches Ok(h) ==> h.item() == self.item() && h.bucket_id() == self.bucket_id(),
            r matches Err(s) ==> s == self,
    {
        if self.count == 1 {
            Ok(MutMemShare { mem: self.mem, bucket: self.bucket })
        } else {
            Err(self)
        }
    }
}

/// A leased item can be detached from pool management: the caller takes
/// the raw item permanently and the pool never sees it again.
pub trait PooledMem<T>: Sized {
    /// The item the lease would hand out.
    spec fn payload(&self) -> T;

    /// Consumes the lease and returns the raw item; the pool no longer
    /// manages it and no return to any shard ever happens for it.
    fn detach(self) -> (r: T)
        ensures
            r == self.payload(),
    ;
}

impl<T> PooledMem<T> for MutMemShare<T> {
    closed spec fn payload(&self) -> T {
        self.mem
    }

    fn detach(self) -> (r: T) {
        self.mem
    }
}

} // verus!
