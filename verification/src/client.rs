//! The shared client: the global admission limiter and the lazily created
//! per-destination pools, behind one handle that every call site uses.
//! Each destination's pool is created on first use with the fixed
//! capacity and idle timeout, reused ever after, and never overwritten.

use vstd::prelude::*;
use crate::limiter::ADMISSION_CAP;
use crate::limiter::AdmissionLimiter;
use crate::pool::Destination;
use crate::pool::LeaseDecision;
use crate::pool::PoolEntry;
use crate::pool::PoolModel;
use crate::pool::POOL_CAPACITY;
use crate::pool::POOL_IDLE_TIMEOUT_MS;
use crate::pool::discard_transition;
use crate::pool::lease_transition;
use crate::pool::live_idle;
use crate::pool::replenish_transition;

verus! {

/// The process-wide client state: admission permits and one pool per
/// destination seen so far.
pub struct Client {
    admission: AdmissionLimiter,
    pools: Vec<PoolEntry>,
}

/// The state of a pool nobody has used yet: nothing idle, nothing leased.
pub open spec fn empty_pool_model() -> PoolModel {
    PoolModel { idle: Seq::empty(), leased: Seq::empty(), next_id: 0 }
}

impl Client {
    /// The admission limiter's state.
    pub closed spec fn admission(self) -> AdmissionLimiter {
        self.admission
    }

    /// The pools, in order of first use of their destinations.
    pub closed spec fn pools_seq(self) -> Seq<PoolEntry> {
        self.pools@
    }

    /// Whether a pool exists for `dest`.
    pub open spec fn has_pool(self, dest: Destination) -> bool {
        exists|i: int| 0 <= i < self.pools_seq().len() && self.pools_seq()[i].dest() == dest
    }

    /// The index of `dest`'s pool; meaningful only when it exists, and
    /// unique because destinations never repeat.
    pub open spec fn pool_index_of(self, dest: Destination) -> int {
        choose|i: int| 0 <= i < self.pools_seq().len() && self.pools_seq()[i].dest() == dest
    }

    /// The state of `dest`'s pool; a destination never used yet has the
    /// empty state, which is also what first use creates.
    pub open spec fn pool_model(self, dest: Destination) -> PoolModel {
        if self.has_pool(dest) {
            self.pools_seq()[self.pool_index_of(dest)].model()
        } else {
            empty_pool_model()
        }
    }

    /// Well-formedness: the limiter is sound and carries the global cap,
    /// destinations never repeat, and every pool is well formed with the
    /// fixed capacity and idle timeout.
    pub open spec fn wf(self) -> bool {
        &&& self.admission().wf()
        &&& self.admission().cap() == ADMISSION_CAP as int
        &&& (forall|i: int, j: int|
            0 <= i < j < self.pools_seq().len() ==> self.pools_seq()[i].dest()
                != self.pools_seq()[j].dest())
        &&& (forall|i: int|
            0 <= i < self.pools_seq().len() ==> (#[trigger] self.pools_seq()[i]).wf()
                && self.pools_seq()[i].capacity() == POOL_CAPACITY as int
                && self.pools_seq()[i].idle_timeout_ms() == POOL_IDLE_TIMEOUT_MS)
    }

    /// A fresh client: full admission budget, no pools yet.
    pub fn new() -> (r: Client)
        ensures
            r.wf(),
            r.pools_seq().len() == 0,
            r.admission().active() == 0,
    {
        Client { admission: AdmissionLimiter::new(ADMISSION_CAP), pools: Vec::new() }
    }

    /// Takes an admission permit for one network attempt; `false` means
    /// the cap is reached and the attempt must wait.
    pub fn try_admit(&mut self) -> (r: bool)
        requires
            old(self).wf(),
        ensures
            final(self).wf(),
            final(self).pools_seq() == old(self).pools_seq(),
            r == (old(self).admission().active() < old(self).admission().cap()),
            r ==> final(self).admission().active() == old(self).admission().active() + 1,
            !r ==> final(self).admission().active() == old(self).admission().active(),
    {
        let r = self.admission.try_acquire();
        proof {
            assert(self.pools@ == old(self).pools@);
            assert(self.pools_seq() == old(self).pools_seq());
            assert(forall|i: int, j: int|
                0 <= i < j < self.pools_seq().len() ==> self.pools_seq()[i].dest()
                    != self.pools_seq()[j].dest());
            assert(forall|i: int|
                0 <= i < self.pools_seq().len() ==> (#[trigger] self.pools_seq()[i]).wf()
                    && self.pools_seq()[i].capacity() == POOL_CAPACITY as int
                    && self.pools_seq()[i].idle_timeout_ms() == POOL_IDLE_TIMEOUT_MS);
            assert(self.wf());
        }
        r
    }

    /// Releases the permit when an attempt's network phase ends, succeed
    /// or fail.
    pub fn release_admission(&mut self) -> (r: bool)
        requires
            old(self).wf(),
        ensures
            final(self).wf(),
            final(self).pools_seq() == old(self).pools_seq(),
            r == (old(self).admission().active() > 0),
            r ==> final(self).admission().active() == old(self).admission().active() - 1,
            !r ==> final(self).admission().active() == old(self).admission().active(),
    {
        let r = self.admission.release();
        proof {
            assert(self.pools@ == old(self).pools@);
            assert(self.pools_seq() == old(self).pools_seq());
            assert(forall|i: int, j: int|
                0 <= i < j < self.pools_seq().len() ==> self.pools_seq()[i].dest()
                    != self.pools_seq()[j].dest());
            assert(forall|i: int|
                0 <= i < self.pools_seq().len() ==> (#[trigger] self.pools_seq()[i]).wf()
                    && self.pools_seq()[i].capacity() == POOL_CAPACITY as int
                    && self.pools_seq()[i].idle_timeout_ms() == POOL_IDLE_TIMEOUT_MS);
            assert(self.wf());
        }
        r
    }

    /// Finds `dest`'s pool, creating it empty on first use; existing
    /// pools, their order, and every destination's state are untouched.
    fn pool_entry_index(&mut self, dest: Destination) -> (i: usize)
        requires
            old(self).wf(),
        ensures
            final(self).wf(),
            final(self).admission() == old(self).admission(),
            i < final(self).pools_seq().len(),
            final(self).pools_seq()[i as int].dest() == dest,
            final(self).has_pool(dest),
            final(self).pool_index_of(dest) == i as int,
            old(self).has_pool(dest) ==> *final(self) == *old(self),
            !old(self).has_pool(dest) ==> final(self).pools_seq() == old(self).pools_seq().push(
                final(self).pools_seq()[i as int],
            ) && final(self).pools_seq()[i as int].model() =~= empty_pool_model(),
            forall|d2: Destination| final(self).pool_model(d2) =~= old(self).pool_model(d2),
            forall|d2: Destination|
                final(self).has_pool(d2) == (old(self).has_pool(d2) || d2 == dest),
    {
        let n = self.pools.len();
        let mut i: usize = 0;
        while i < n
            invariant
                *self == *old(self),
                old(self).wf(),
                n == self.pools_seq().len(),
                i <= n,
                forall|m: int| 0 <= m < i ==> self.pools_seq()[m].dest() != dest,
            decreases n - i,
        {
            if self.pools[i].get_dest() == dest {
                proof {
                    lemma_index_unique(*self, dest, i as int);
                }
                return i;
            }
            i = i + 1;
        }
        proof {
            assert(!old(self).has_pool(dest));
        }
        let e = PoolEntry::new(POOL_CAPACITY, POOL_IDLE_TIMEOUT_MS, dest);
        self.pools.push(e);
        proof {
            let post = *self;
            let pre = *old(self);
            assert(post.pools_seq()[n as int].dest() == dest);
            lemma_index_unique(post, dest, n as int);
            assert forall|d2: Destination| post.pool_model(d2) =~= pre.pool_model(d2) by {
                if d2 == dest {
                    assert(post.pool_model(d2) =~= empty_pool_model());
                } else {
                    if pre.has_pool(d2) {
                        let k = pre.pool_index_of(d2);
                        assert(post.pools_seq()[k].dest() == d2);
                        lemma_index_unique(post, d2, k);
                    } else {
                        if post.has_pool(d2) {
                            let k = post.pool_index_of(d2);
                            assert(0 <= k < post.pools_seq().len());
                            assert(k != n as int);
                            assert(pre.pools_seq()[k].dest() == d2);
                        }
                    }
                }
            }
            assert forall|d2: Destination| post.has_pool(d2) == (pre.has_pool(d2) || d2 == dest)
                by {
                if d2 == dest {
                    assert(post.has_pool(d2));
                } else {
                    if pre.has_pool(d2) {
                        let k = pre.pool_index_of(d2);
                        assert(post.pools_seq()[k].dest() == d2);
                        assert(post.has_pool(d2));
                    }
                    if post.has_pool(d2) {
                        let k = post.pool_index_of(d2);
                        assert(k != n as int);
                        assert(pre.pools_seq()[k].dest() == d2);
                        assert(pre.has_pool(d2));
                    }
                }
            }
        }
        n
    }

    /// Leases a connection for `dest`, creating the pool on first use.
    /// Other destinations' pools and the admission state are untouched.
    pub fn lease(&mut self, dest: Destination) -> (d: LeaseDecision)
        requires
            old(self).wf(),
        ensures
            final(self).wf(),
            final(self).admission() == old(self).admission(),
            final(self).has_pool(dest),
            lease_transition(
                old(self).pool_model(dest),
                final(self).pool_model(dest),
                d,
                POOL_CAPACITY as int,
            ),
            d matches LeaseDecision::ReuseIdle(id) ==> final(self).pool_model(
                dest,
            ).leased.contains(id),
            d matches LeaseDecision::ConnectNew(id) ==> final(self).pool_model(
                dest,
            ).leased.contains(id),
            forall|d2: Destination| d2 != dest ==> final(self).pool_model(d2) =~= old(
                self,
            ).pool_model(d2),
    {
        let i = self.pool_entry_index(dest);
        let ghost mid = *self;
        let p = pool_at(&mut self.pools, i);
        let d = p.lease();
        proof {
            lemma_pool_update_frame(mid, *self, i as int, dest);
        }
        d
    }

    /// Returns a connection for `dest` after a fully successful round
    /// trip; reports `false` for a connection the pool has not leased
    /// out. Other destinations' pools are untouched.
    pub fn replenish(&mut self, dest: Destination, id: u64, now_ms: u64) -> (r: bool)
        requires
            old(self).wf(),
        ensures
            final(self).wf(),
            final(self).admission() == old(self).admission(),
            replenish_transition(
                old(self).pool_model(dest),
                final(self).pool_model(dest),
                id,
                now_ms,
                r,
            ),
            r ==> !final(self).pool_model(dest).leased.contains(id),
            forall|d2: Destination| d2 != dest ==> final(self).pool_model(d2) =~= old(
                self,
            ).pool_model(d2),
    {
        let i = self.pool_entry_index(dest);
        let ghost mid = *self;
        let p = pool_at(&mut self.pools, i);
        let r = p.replenish(id, now_ms);
        proof {
            lemma_pool_update_frame(mid, *self, i as int, dest);
        }
        r
    }

    /// Drops a leased connection for `dest` whose attempt failed; the
    /// pool replaces it lazily. Other destinations' pools are untouched.
    pub fn discard(&mut self, dest: Destination, id: u64) -> (r: bool)
        requires
            old(self).wf(),
        ensures
            final(self).wf(),
            final(self).admission() == old(self).admission(),
            discard_transition(old(self).pool_model(dest), final(self).pool_model(dest), id, r),
            r ==> !final(self).pool_model(dest).leased.contains(id),
            forall|d2: Destination| d2 != dest ==> final(self).pool_model(d2) =~= old(
                self,
            ).pool_model(d2),
    {
        let i = self.pool_entry_index(dest);
        let ghost mid = *self;
        let p = pool_at(&mut self.pools, i);
        let r = p.discard(id);
        proof {
            lemma_pool_update_frame(mid, *self, i as int, dest);
        }
        r
    }

    /// Drops `dest`'s idle connections whose idle time has passed the
    /// timeout. Other destinations' pools are untouched.
    pub fn evict_expired(&mut self, dest: Destination, now_ms: u64)
        requires
            old(self).wf(),
        ensures
            final(self).wf(),
            final(self).admission() == old(self).admission(),
            final(self).pool_model(dest).idle =~= live_idle(
                old(self).pool_model(dest).idle,
                POOL_IDLE_TIMEOUT_MS,
                now_ms,
            ),
            final(self).pool_model(dest).leased =~= old(self).pool_model(dest).leased,
            final(self).pool_model(dest).next_id == old(self).pool_model(dest).next_id,
            forall|d2: Destination| d2 != dest ==> final(self).pool_model(d2) =~= old(
                self,
            ).pool_model(d2),
    {
        let i = self.pool_entry_index(dest);
        let ghost mid = *self;
        let p = pool_at(&mut self.pools, i);
        p.evict_expired(now_ms);
        proof {
            lemma_pool_update_frame(mid, *self, i as int, dest);
            assert(live_idle(mid.pool_model(dest).idle, POOL_IDLE_TIMEOUT_MS, now_ms) =~= live_idle(
                old(self).pool_model(dest).idle,
                POOL_IDLE_TIMEOUT_MS,
                now_ms,
            ));
        }
    }
}

/// A mutable borrow of one pool in the vector, in the usual
/// index-then-update shape.
fn pool_at(v: &mut Vec<PoolEntry>, i: usize) -> (p: &mut PoolEntry)
    requires
        i < old(v)@.len(),
    ensures
        *p == old(v)@[i as int],
        final(v)@ == old(v)@.update(i as int, *final(p)),
{
    &mut v[i]
}

/// Destinations never repeat, so any index holding `dest` is the one
/// `pool_index_of` picks.
proof fn lemma_index_unique(c: Client, dest: Destination, i: int)
    requires
        0 <= i < c.pools_seq().len(),
        c.pools_seq()[i].dest() == dest,
        forall|a: int, b: int|
            0 <= a < b < c.pools_seq().len() ==> c.pools_seq()[a].dest() != c.pools_seq()[b].dest(),
    ensures
        c.has_pool(dest),
        c.pool_index_of(dest) == i,
{
    assert(c.has_pool(dest));
    let w = c.pool_index_of(dest);
    assert(0 <= w < c.pools_seq().len() && c.pools_seq()[w].dest() == dest);
    if w < i {
        assert(c.pools_seq()[w].dest() != c.pools_seq()[i].dest());
    } else if i < w {
        assert(c.pools_seq()[i].dest() != c.pools_seq()[w].dest());
    }
}

/// Replacing the pool at `dest`'s index with another well-formed pool for
/// the same destination keeps the client well formed, keeps `dest`'s
/// index, and leaves every other destination's state as it was.
proof fn lemma_pool_update_frame(pre: Client, post: Client, i: int, dest: Destination)
    requires
        pre.wf(),
        0 <= i < pre.pools_seq().len(),
        pre.pools_seq()[i].dest() == dest,
        pre.pool_index_of(dest) == i,
        post.admission() == pre.admission(),
        post.pools_seq() == pre.pools_seq().update(i, post.pools_seq()[i]),
        post.pools_seq()[i].wf(),
        post.pools_seq()[i].dest() == dest,
        post.pools_seq()[i].capacity() == POOL_CAPACITY as int,
        post.pools_seq()[i].idle_timeout_ms() == POOL_IDLE_TIMEOUT_MS,
    ensures
        post.wf(),
        post.has_pool(dest),
        post.pool_index_of(dest) == i,
        post.pool_model(dest) == post.pools_seq()[i].model(),
        pre.pool_model(dest) == pre.pools_seq()[i].model(),
        forall|d2: Destination| d2 != dest ==> post.pool_model(d2) =~= pre.pool_model(d2),
{
    assert(post.pools_seq().len() == pre.pools_seq().len());
    assert(forall|m: int|
        0 <= m < post.pools_seq().len() && m != i ==> post.pools_seq()[m] == pre.pools_seq()[m]);
    assert(forall|m: int|
        0 <= m < post.pools_seq().len() ==> post.pools_seq()[m].dest()
            == pre.pools_seq()[m].dest());
    lemma_index_unique(post, dest, i);
    assert forall|d2: Destination| d2 != dest implies post.pool_model(d2) =~= pre.pool_model(
        d2,
    ) by {
        if pre.has_pool(d2) {
            let k = pre.pool_index_of(d2);
            assert(0 <= k < pre.pools_seq().len() && pre.pools_seq()[k].dest() == d2);
            assert(k != i);
            assert(post.pools_seq()[k].dest() == d2);
            lemma_index_unique(post, d2, k);
        } else {
            if post.has_pool(d2) {
                let k = post.pool_index_of(d2);
                assert(pre.pools_seq()[k].dest() == d2);
            }
        }
    }
}


/// Under the shared client, however many calls run, no more network
/// attempts are admitted at any instant than the global cap.
pub proof fn lemma_client_admission_bounded(c: Client)
    requires
        c.wf(),
    ensures
        c.admission().active() <= ADMISSION_CAP as int,
{
}

/// Under the shared client, no destination ever has more connections
/// leased out than the per-destination pool capacity.
pub proof fn lemma_client_leases_bounded(c: Client, dest: Destination)
    requires
        c.wf(),
    ensures
        c.pool_model(dest).leased.len() <= POOL_CAPACITY as int,
{
    if c.has_pool(dest) {
        let i = c.pool_index_of(dest);
        assert(0 <= i < c.pools_seq().len() && c.pools_seq()[i].dest() == dest);
        assert(c.pools_seq()[i].wf());
    }
}

} // verus!
