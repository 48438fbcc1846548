//! The bounded-resource bookkeeping: the admission limiter's cap and the
//! per-destination pool's capacity, reuse, exactly-once return, and idle
//! eviction.

use melnet_client::AdmissionLimiter;
use melnet_client::Destination;
use melnet_client::LeaseDecision;
use melnet_client::PoolEntry;

fn dest(n: u16) -> Destination {
    Destination { host: 0x7f000001, port: n }
}

#[test]
fn limiter_caps_active_attempts() {
    let mut l = AdmissionLimiter::new(128);
    for _ in 0..128 {
        assert!(l.try_acquire());
    }
    assert!(!l.try_acquire()); // the cap is reached
    assert!(l.release());
    assert!(l.try_acquire()); // a freed permit is usable again
    assert!(!l.try_acquire());
}

#[test]
fn limiter_release_without_permit() {
    let mut l = AdmissionLimiter::new(2);
    assert!(!l.release());
    assert!(l.try_acquire());
    assert!(l.release());
    assert!(!l.release());
}

#[test]
fn pool_leases_at_most_capacity() {
    let mut p = PoolEntry::new(32, 5000, dest(1));
    for i in 0..32u64 {
        assert_eq!(p.lease(), LeaseDecision::ConnectNew(i));
    }
    assert_eq!(p.lease(), LeaseDecision::AtCapacity);
}

#[test]
fn pool_reuses_returned_connection() {
    let mut p = PoolEntry::new(32, 5000, dest(1));
    assert_eq!(p.lease(), LeaseDecision::ConnectNew(0));
    assert!(p.replenish(0, 1000));
    assert_eq!(p.lease(), LeaseDecision::ReuseIdle(0));
}

#[test]
fn pool_returns_exactly_once() {
    let mut p = PoolEntry::new(32, 5000, dest(1));
    assert_eq!(p.lease(), LeaseDecision::ConnectNew(0));
    assert!(p.replenish(0, 1000));
    assert!(!p.replenish(0, 1000)); // already returned: not owned any more
}

#[test]
fn pool_rejects_return_of_unknown_connection() {
    let mut p = PoolEntry::new(32, 5000, dest(1));
    assert_eq!(p.lease(), LeaseDecision::ConnectNew(0));
    assert!(!p.replenish(99, 1000)); // never leased out
}

#[test]
fn pool_discard_frees_capacity() {
    let mut p = PoolEntry::new(2, 5000, dest(1));
    assert_eq!(p.lease(), LeaseDecision::ConnectNew(0));
    assert_eq!(p.lease(), LeaseDecision::ConnectNew(1));
    assert_eq!(p.lease(), LeaseDecision::AtCapacity);
    assert!(p.discard(0)); // the failed attempt's connection is dropped
    assert!(!p.discard(0)); // and only once
    assert_eq!(p.lease(), LeaseDecision::ConnectNew(2)); // replaced lazily
}

#[test]
fn pool_evicts_expired_idle_connections() {
    let mut p = PoolEntry::new(32, 5000, dest(1));
    assert_eq!(p.lease(), LeaseDecision::ConnectNew(0));
    assert!(p.replenish(0, 1000));
    p.evict_expired(7000); // idle since 1000, timeout 5000: expired
    assert_eq!(p.lease(), LeaseDecision::ConnectNew(1));
}

#[test]
fn pool_keeps_live_idle_connections() {
    let mut p = PoolEntry::new(32, 5000, dest(1));
    assert_eq!(p.lease(), LeaseDecision::ConnectNew(0));
    assert!(p.replenish(0, 1000));
    p.evict_expired(6000); // exactly at the timeout boundary: still live
    assert_eq!(p.lease(), LeaseDecision::ReuseIdle(0));
}
