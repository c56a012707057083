//! The TTL lease cache, lease cancellation and the edit-session lock.

use ticketflow::lease::{
    acquire_edit_session, cancel_priority_lease, release_edit_session, set_priority_lease,
    AcquireOutcome, LeaseCache, LeaseKey, LeaseValue,
};
use ticketflow::records::Priority;

#[test]
fn set_get_delete_roundtrip() {
    let mut c = LeaseCache::new();
    assert_eq!(c.get(LeaseKey::PriorityPing(1), 0), None);
    c.set(LeaseKey::PriorityPing(1), LeaseValue::Priority(Priority::Low), 100, 50);
    assert_eq!(
        c.get(LeaseKey::PriorityPing(1), 149),
        Some(LeaseValue::Priority(Priority::Low))
    );
    // an entry is live strictly before its expiry instant
    assert_eq!(c.get(LeaseKey::PriorityPing(1), 150), None);
    assert!(c.delete(LeaseKey::PriorityPing(1)));
    assert_eq!(c.get(LeaseKey::PriorityPing(1), 60), None);
}

#[test]
fn overwriting_extends_the_lease() {
    let mut c = LeaseCache::new();
    c.set(LeaseKey::PriorityPing(1), LeaseValue::Priority(Priority::Low), 100, 0);
    c.set(LeaseKey::PriorityPing(1), LeaseValue::Priority(Priority::High), 100, 80);
    assert_eq!(
        c.get(LeaseKey::PriorityPing(1), 150),
        Some(LeaseValue::Priority(Priority::High))
    );
}

#[test]
fn keys_are_independent() {
    let mut c = LeaseCache::new();
    c.set(LeaseKey::PriorityPing(1), LeaseValue::Priority(Priority::Urgent), 100, 0);
    c.set(LeaseKey::EditSession(1), LeaseValue::Operator(1), 100, 0);
    assert!(c.delete(LeaseKey::PriorityPing(1)));
    assert_eq!(
        c.get(LeaseKey::EditSession(1), 50),
        Some(LeaseValue::Operator(1))
    );
}

#[test]
fn cancel_priority_lease_is_idempotent() {
    // Cancelling twice is a no-op the second time: the first delete
    // removes the key, the second finds nothing and reports so.
    let mut c = LeaseCache::new();
    set_priority_lease(&mut c, 7, Priority::Urgent, 1000);
    assert!(cancel_priority_lease(&mut c, 7));
    assert!(!cancel_priority_lease(&mut c, 7));
    assert!(!cancel_priority_lease(&mut c, 7));
    assert_eq!(c.get(LeaseKey::PriorityPing(7), 1001), None);
}

#[test]
fn cancelling_an_absent_lease_is_a_no_op() {
    let mut c = LeaseCache::new();
    assert!(!cancel_priority_lease(&mut c, 99));
    assert_eq!(c.entries.len(), 0);
}

#[test]
fn priority_lease_lasts_a_day() {
    let mut c = LeaseCache::new();
    set_priority_lease(&mut c, 7, Priority::Low, 1000);
    assert_eq!(
        c.get(LeaseKey::PriorityPing(7), 1000 + 86399),
        Some(LeaseValue::Priority(Priority::Low))
    );
    assert_eq!(c.get(LeaseKey::PriorityPing(7), 1000 + 86400), None);
}

#[test]
fn edit_session_excludes_a_second_acquire() {
    let mut c = LeaseCache::new();
    assert_eq!(acquire_edit_session(&mut c, 9, 500), AcquireOutcome::Acquired);
    assert_eq!(
        acquire_edit_session(&mut c, 9, 510),
        AcquireOutcome::SessionActive
    );
    // a different operator is not blocked: the lock is per operator
    assert_eq!(acquire_edit_session(&mut c, 8, 510), AcquireOutcome::Acquired);
}

#[test]
fn edit_session_reopens_after_release() {
    let mut c = LeaseCache::new();
    acquire_edit_session(&mut c, 9, 500);
    assert!(release_edit_session(&mut c, 9));
    assert_eq!(acquire_edit_session(&mut c, 9, 520), AcquireOutcome::Acquired);
}

#[test]
fn edit_session_reopens_after_expiry() {
    let mut c = LeaseCache::new();
    acquire_edit_session(&mut c, 9, 500);
    assert_eq!(
        acquire_edit_session(&mut c, 9, 500 + 599),
        AcquireOutcome::SessionActive
    );
    assert_eq!(
        acquire_edit_session(&mut c, 9, 500 + 600),
        AcquireOutcome::Acquired
    );
}

#[test]
fn releasing_an_absent_session_reports_so() {
    let mut c = LeaseCache::new();
    assert!(!release_edit_session(&mut c, 9));
}
