//! Per-destination connection-pool bookkeeping: which connections are
//! idle in the pool and which are leased out. The transport sockets
//! themselves live outside the library, keyed by the connection ids this
//! module hands out; the bookkeeping here is what bounds them.

use vstd::prelude::*;

verus! {

/// Connections a destination's pool may hold, idle and leased together.
pub const POOL_CAPACITY: usize = 32;

/// How long an idle connection stays usable, in milliseconds.
pub const POOL_IDLE_TIMEOUT_MS: u64 = 5000;

/// A network address: a pool key and a server instance. The host is an
/// IP address widened to 128 bits.
#[derive(Clone, Copy, PartialEq, Eq, Hash, Debug, Structural)]
pub struct Destination {
    pub host: u128,
    pub port: u16,
}

/// An idle pooled connection: its id and when it was last returned.
#[derive(Clone, Copy, PartialEq, Eq, Debug, Structural)]
pub struct IdleConn {
    pub id: u64,
    pub since_ms: u64,
}

/// What leasing decided: reuse an idle connection, dial a new one under
/// the given fresh id, or refuse because the pool is exhausted.
#[derive(Clone, Copy, PartialEq, Eq, Debug, Structural)]
pub enum LeaseDecision {
    ReuseIdle(u64),
    ConnectNew(u64),
    AtCapacity,
}

/// The mathematical state of one pool: idle connections in order of
/// return, leased connection ids, and the next fresh id.
#[verifier::ext_equal]
pub ghost struct PoolModel {
    pub idle: Seq<IdleConn>,
    pub leased: Seq<u64>,
    pub next_id: u64,
}

/// An idle connection is still live at `now` when its idle time has not
/// passed the timeout.
pub open spec fn idle_live(c: IdleConn, timeout_ms: u64, now_ms: u64) -> bool {
    now_ms <= c.since_ms + timeout_ms
}

/// The idle connections of `s` that are still live at `now`, in order.
pub open spec fn live_idle(s: Seq<IdleConn>, timeout_ms: u64, now_ms: u64) -> Seq<IdleConn>
    decreases s.len(),
{
    if s.len() == 0 {
        Seq::empty()
    } else {
        let rest = live_idle(s.drop_last(), timeout_ms, now_ms);
        if idle_live(s.last(), timeout_ms, now_ms) {
            rest.push(s.last())
        } else {
            rest
        }
    }
}

/// How a lease changes a pool: an idle connection moves to the leased
/// side, or a fresh id joins it, or nothing changes because the pool is
/// exhausted.
pub open spec fn lease_transition(pre: PoolModel, post: PoolModel, d: LeaseDecision, cap: int) -> bool {
    match d {
        LeaseDecision::ReuseIdle(id) => {
            &&& pre.idle.len() > 0
            &&& id == pre.idle.last().id
            &&& post.idle =~= pre.idle.drop_last()
            &&& post.leased =~= pre.leased.push(id)
            &&& post.next_id == pre.next_id
        },
        LeaseDecision::ConnectNew(id) => {
            &&& pre.idle.len() == 0
            &&& pre.leased.len() < cap
            &&& id == pre.next_id
            &&& !pre.leased.contains(id)
            &&& post.idle =~= pre.idle
            &&& post.leased =~= pre.leased.push(id)
            &&& post.next_id == pre.next_id + 1
        },
        LeaseDecision::AtCapacity => {
            &&& pre.idle.len() == 0
            &&& (pre.leased.len() >= cap || pre.next_id == u64::MAX)
            &&& post =~= pre
        },
    }
}

/// How a successful return changes a pool: the id leaves the leased side
/// exactly once and joins the idle side; a return of an id the pool did
/// not lease out changes nothing and reports `false`.
pub open spec fn replenish_transition(
    pre: PoolModel,
    post: PoolModel,
    id: u64,
    now_ms: u64,
    r: bool,
) -> bool {
    &&& r == pre.leased.contains(id)
    &&& if r {
        &&& (exists|k: int|
            0 <= k < pre.leased.len() && pre.leased[k] == id && post.leased =~= pre.leased.remove(
                k,
            ))
        &&& post.idle =~= pre.idle.push(IdleConn { id, since_ms: now_ms })
        &&& post.next_id == pre.next_id
    } else {
        post =~= pre
    }
}

/// How a discard changes a pool: the id leaves the leased side and is
/// forgotten; the pool replaces it lazily through fresh connects.
pub open spec fn discard_transition(pre: PoolModel, post: PoolModel, id: u64, r: bool) -> bool {
    &&& r == pre.leased.contains(id)
    &&& if r {
        &&& (exists|k: int|
            0 <= k < pre.leased.len() && pre.leased[k] == id && post.leased =~= pre.leased.remove(
                k,
            ))
        &&& post.idle =~= pre.idle
        &&& post.next_id == pre.next_id
    } else {
        post =~= pre
    }
}

/// One destination's pool: its address, fixed capacity and idle timeout,
/// and the bookkeeping of idle and leased connections.
pub struct PoolEntry {
    dest: Destination,
    capacity: usize,
    idle_timeout_ms: u64,
    idle: Vec<IdleConn>,
    leased: Vec<u64>,
    next_id: u64,
}

impl PoolEntry {
    /// The destination this pool serves.
    pub closed spec fn dest(self) -> Destination {
        self.dest
    }

    /// The pool's connection capacity.
    pub closed spec fn capacity(self) -> int {
        self.capacity as int
    }

    /// The pool's idle-connection expiry.
    pub closed spec fn idle_timeout_ms(self) -> u64 {
        self.idle_timeout_ms
    }

    /// The idle connections, oldest first.
    pub closed spec fn idle_seq(self) -> Seq<IdleConn> {
        self.idle@
    }

    /// The leased connection ids.
    pub closed spec fn leased_seq(self) -> Seq<u64> {
        self.leased@
    }

    /// The next fresh connection id.
    pub closed spec fn next_id(self) -> u64 {
        self.next_id
    }

    /// The destination, for runtime lookup.
    pub fn get_dest(&self) -> (d: Destination)
        ensures
            d == self.dest(),
    {
        self.dest
    }

    /// The pool as a mathematical value.
    pub open spec fn model(self) -> PoolModel {
        PoolModel { idle: self.idle_seq(), leased: self.leased_seq(), next_id: self.next_id() }
    }

    /// Well-formedness: the pool never tracks more connections than its
    /// capacity, every id is tracked at most once (a connection is idle
    /// or leased, never both, and never leased twice), and ids stay
    /// below the fresh-id counter.
    pub open spec fn wf(self) -> bool {
        &&& self.idle_seq().len() + self.leased_seq().len() <= self.capacity()
        &&& (forall|i: int, j: int|
            0 <= i < j < self.idle_seq().len() ==> self.idle_seq()[i].id != self.idle_seq()[j].id)
        &&& (forall|i: int, j: int|
            0 <= i < j < self.leased_seq().len() ==> self.leased_seq()[i]
                != self.leased_seq()[j])
        &&& (forall|i: int, j: int|
            0 <= i < self.idle_seq().len() && 0 <= j < self.leased_seq().len()
                ==> self.idle_seq()[i].id != self.leased_seq()[j])
        &&& (forall|i: int| 0 <= i < self.idle_seq().len() ==> self.idle_seq()[i].id < self.next_id())
        &&& (forall|i: int|
            0 <= i < self.leased_seq().len() ==> self.leased_seq()[i] < self.next_id())
    }

    /// A fresh, empty pool for `dest` with the given capacity and idle
    /// timeout.
    pub fn new(capacity: usize, idle_timeout_ms: u64, dest: Destination) -> (r: Self)
        ensures
            r.wf(),
            r.dest() == dest,
            r.capacity() == capacity,
            r.idle_timeout_ms() == idle_timeout_ms,
            r.idle_seq().len() == 0,
            r.leased_seq().len() == 0,
            r.next_id() == 0,
    {
        PoolEntry {
            dest,
            capacity,
            idle_timeout_ms,
            idle: Vec::new(),
            leased: Vec::new(),
            next_id: 0,
        }
    }

    /// Leases a connection: hands back the most recently returned idle
    /// one, or a fresh id to dial when the capacity allows, or refuses.
    pub fn lease(&mut self) -> (d: LeaseDecision)
        requires
            old(self).wf(),
        ensures
            final(self).wf(),
            final(self).dest() == old(self).dest(),
            final(self).capacity() == old(self).capacity(),
            final(self).idle_timeout_ms() == old(self).idle_timeout_ms(),
            lease_transition(old(self).model(), final(self).model(), d, old(self).capacity()),
            d matches LeaseDecision::ReuseIdle(id) ==> final(self).leased_seq().contains(id),
            d matches LeaseDecision::ConnectNew(id) ==> final(self).leased_seq().contains(id),
    {
        if self.idle.len() > 0 {
            let c = self.idle.pop().unwrap();
            self.leased.push(c.id);
            proof {
                assert(final(self).leased_seq().last() == c.id);
            }
            LeaseDecision::ReuseIdle(c.id)
        } else if self.leased.len() < self.capacity && self.next_id < u64::MAX {
            let id = self.next_id;
            self.next_id = self.next_id + 1;
            self.leased.push(id);
            proof {
                assert(final(self).leased_seq().last() == id);
            }
            LeaseDecision::ConnectNew(id)
        } else {
            LeaseDecision::AtCapacity
        }
    }

    /// Returns a connection after a fully successful round trip: the id
    /// moves from leased to idle, stamped with the return time. Reports
    /// `false`, and changes nothing, for an id the pool has not leased
    /// out — so one lease admits at most one return.
    pub fn replenish(&mut self, id: u64, now_ms: u64) -> (r: bool)
        requires
            old(self).wf(),
        ensures
            final(self).wf(),
            final(self).dest() == old(self).dest(),
            final(self).capacity() == old(self).capacity(),
            final(self).idle_timeout_ms() == old(self).idle_timeout_ms(),
            replenish_transition(old(self).model(), final(self).model(), id, now_ms, r),
            r ==> !final(self).leased_seq().contains(id),
    {
        let ghost ol = old(self).leased_seq();
        let mut k: usize = 0;
        while k < self.leased.len()
            invariant
                k <= ol.len(),
                *self == *old(self),
                old(self).wf(),
                ol == old(self).leased_seq(),
                forall|m: int| 0 <= m < k ==> ol[m] != id,
            decreases ol.len() - k,
        {
            if self.leased[k] == id {
                self.leased.remove(k);
                self.idle.push(IdleConn { id, since_ms: now_ms });
                proof {
                    lemma_remove_unique(ol, k as int, id);
                    assert(ol.contains(id));
                }
                return true;
            }
            k = k + 1;
        }
        proof {
            assert(!ol.contains(id));
        }
        false
    }

    /// Forgets a leased connection whose attempt failed: the id leaves
    /// the leased side and the socket is simply dropped. Reports `false`
    /// for an id the pool has not leased out.
    pub fn discard(&mut self, id: u64) -> (r: bool)
        requires
            old(self).wf(),
        ensures
            final(self).wf(),
            final(self).dest() == old(self).dest(),
            final(self).capacity() == old(self).capacity(),
            final(self).idle_timeout_ms() == old(self).idle_timeout_ms(),
            discard_transition(old(self).model(), final(self).model(), id, r),
            r ==> !final(self).leased_seq().contains(id),
    {
        let ghost ol = old(self).leased_seq();
        let mut k: usize = 0;
        while k < self.leased.len()
            invariant
                k <= ol.len(),
                *self == *old(self),
                old(self).wf(),
                ol == old(self).leased_seq(),
                forall|m: int| 0 <= m < k ==> ol[m] != id,
            decreases ol.len() - k,
        {
            if self.leased[k] == id {
                self.leased.remove(k);
                proof {
                    lemma_remove_unique(ol, k as int, id);
                    assert(ol.contains(id));
                }
                return true;
            }
            k = k + 1;
        }
        proof {
            assert(!ol.contains(id));
        }
        false
    }

    /// Drops idle connections whose idle time has passed the pool's
    /// timeout; leased connections are untouched.
    pub fn evict_expired(&mut self, now_ms: u64)
        requires
            old(self).wf(),
        ensures
            final(self).wf(),
            final(self).dest() == old(self).dest(),
            final(self).capacity() == old(self).capacity(),
            final(self).idle_timeout_ms() == old(self).idle_timeout_ms(),
            final(self).idle_seq() =~= live_idle(
                old(self).idle_seq(),
                old(self).idle_timeout_ms(),
                now_ms,
            ),
            final(self).leased_seq() =~= old(self).leased_seq(),
            final(self).next_id() == old(self).next_id(),
    {
        let ghost oi = self.idle@;
        let mut kept: Vec<IdleConn> = Vec::new();
        let mut k: usize = 0;
        while k < self.idle.len()
            invariant
                k <= oi.len(),
                self.idle@ == oi,
                self.idle_timeout_ms == old(self).idle_timeout_ms(),
                kept@ =~= live_idle(oi.subrange(0, k as int), self.idle_timeout_ms, now_ms),
            decreases oi.len() - k,
        {
            let c = self.idle[k];
            proof {
                assert(oi.subrange(0, k + 1).drop_last() =~= oi.subrange(0, k as int));
                assert(oi.subrange(0, k + 1).last() == oi[k as int]);
            }
            if now_ms <= c.since_ms || now_ms - c.since_ms <= self.idle_timeout_ms {
                assert(idle_live(c, self.idle_timeout_ms, now_ms));
                kept.push(c);
            } else {
                assert(!idle_live(c, self.idle_timeout_ms, now_ms));
            }
            k = k + 1;
        }
        proof {
            assert(oi.subrange(0, oi.len() as int) =~= oi);
            lemma_live_idle_props(oi, self.idle_timeout_ms, now_ms);
        }
        self.idle = kept;
    }
}

/// Removing the only occurrence of `x` from a duplicate-free sequence
/// leaves a sequence without `x`, with the other elements in order.
proof fn lemma_remove_unique(s: Seq<u64>, k: int, x: u64)
    requires
        0 <= k < s.len(),
        s[k] == x,
        forall|i: int, j: int| 0 <= i < j < s.len() ==> s[i] != s[j],
    ensures
        s.remove(k).len() == s.len() - 1,
        forall|m: int| 0 <= m < k ==> s.remove(k)[m] == s[m],
        forall|m: int| k <= m < s.len() - 1 ==> s.remove(k)[m] == s[m + 1],
        !s.remove(k).contains(x),
        forall|i: int, j: int| 0 <= i < j < s.remove(k).len() ==> s.remove(k)[i] != s.remove(k)[j],
{
    let t = s.remove(k);
    assert forall|m: int| 0 <= m < t.len() implies t[m] != x by {
        if m < k {
            assert(t[m] == s[m]);
        } else {
            assert(t[m] == s[m + 1]);
        }
    }
    assert forall|i: int, j: int| 0 <= i < j < t.len() implies t[i] != t[j] by {
        if j < k {
        } else if i < k {
            assert(t[i] == s[i] && t[j] == s[j + 1]);
        } else {
            assert(t[i] == s[i + 1] && t[j] == s[j + 1]);
        }
    }
}

/// The live subset of an idle list is no longer than the list, keeps only
/// its elements, and keeps distinct ids distinct.
proof fn lemma_live_idle_props(s: Seq<IdleConn>, timeout_ms: u64, now_ms: u64)
    ensures
        live_idle(s, timeout_ms, now_ms).len() <= s.len(),
        forall|m: int|
            0 <= m < live_idle(s, timeout_ms, now_ms).len() ==> s.contains(
                #[trigger] live_idle(s, timeout_ms, now_ms)[m],
            ),
        (forall|i: int, j: int| 0 <= i < j < s.len() ==> s[i].id != s[j].id) ==> (forall|
            i: int,
            j: int,
        |
            0 <= i < j < live_idle(s, timeout_ms, now_ms).len() ==> live_idle(
                s,
                timeout_ms,
                now_ms,
            )[i].id != live_idle(s, timeout_ms, now_ms)[j].id),
    decreases s.len(),
{
    if s.len() == 0 {
    } else {
        let d = s.drop_last();
        lemma_live_idle_props(d, timeout_ms, now_ms);
        let rest = live_idle(d, timeout_ms, now_ms);
        let live = live_idle(s, timeout_ms, now_ms);
        assert forall|m: int| 0 <= m < rest.len() implies s.contains(#[trigger] rest[m]) by {
            assert(d.contains(rest[m]));
            let w = choose|w: int| 0 <= w < d.len() && d[w] == rest[m];
            assert(s[w] == rest[m]);
        }
        if idle_live(s.last(), timeout_ms, now_ms) {
            assert(s.contains(s.last()));
        }
        if forall|i: int, j: int| 0 <= i < j < s.len() ==> s[i].id != s[j].id {
            assert(forall|i: int, j: int| 0 <= i < j < d.len() ==> d[i].id != d[j].id);
            if idle_live(s.last(), timeout_ms, now_ms) {
                assert forall|i: int, j: int| 0 <= i < j < live.len() implies live[i].id
                    != live[j].id by {
                    if j < rest.len() {
                    } else {
                        assert(live[j] == s.last());
                        assert(d.contains(rest[i]));
                        let w = choose|w: int| 0 <= w < d.len() && d[w] == rest[i];
                        assert(s[w].id != s[s.len() - 1].id);
                    }
                }
            }
        }
    }
}


/// No more than the pool's capacity of connections are tracked — leased
/// ones included — for one destination at any instant.
pub proof fn lemma_leased_bounded(p: PoolEntry)
    requires
        p.wf(),
    ensures
        p.leased_seq().len() <= p.capacity(),
        p.idle_seq().len() + p.leased_seq().len() <= p.capacity(),
{
}

/// A connection is returned at most once: after a successful return of
/// `id`, a second return of `id` must report failure and change nothing.
pub proof fn lemma_return_exactly_once(
    pre: PoolModel,
    mid: PoolModel,
    post: PoolModel,
    id: u64,
    now1: u64,
    now2: u64,
    r2: bool,
)
    requires
        forall|i: int, j: int| 0 <= i < j < pre.leased.len() ==> pre.leased[i] != pre.leased[j],
        replenish_transition(pre, mid, id, now1, true),
        replenish_transition(mid, post, id, now2, r2),
    ensures
        !r2,
        post =~= mid,
{
    let k = choose|k: int|
        0 <= k < pre.leased.len() && pre.leased[k] == id && mid.leased =~= pre.leased.remove(k);
    lemma_remove_unique(pre.leased, k, id);
    assert(!mid.leased.contains(id));
}

} // verus!
