//! Ticket creation, claiming, closing and escalation.

use ticketflow::engine::{ClaimError, CloseError, Engine, EscalateError};
use ticketflow::lease::{LeaseKey, LeaseValue};
use ticketflow::records::{BlacklistKind, Priority, PriorityChoice};
use ticketflow::store::CreateTicketError;

fn engine_with_guild(guild_id: u64) -> Engine {
    let mut e = Engine::new();
    e.store.ensure_guild(guild_id);
    e
}

#[test]
fn create_assigns_sequential_numbers() {
    let mut e = engine_with_guild(10);
    let t1 = e.store.create_ticket(10, 100, 42, None, 1000).unwrap();
    let t2 = e.store.create_ticket(10, 101, 43, None, 1001).unwrap();
    assert_eq!(t1.ticket_number, 1);
    assert_eq!(t2.ticket_number, 2);
    assert_ne!(t1.id, t2.id);
    // numbering is per guild
    e.store.ensure_guild(20);
    let t3 = e.store.create_ticket(20, 102, 44, None, 1002).unwrap();
    assert_eq!(t3.ticket_number, 1);
}

#[test]
fn concurrent_creations_may_duplicate_numbers() {
    // Two creations that read the same state are handed the same
    // number; nothing deduplicates.  This asserts the current
    // behavior of the unprotected max-plus-one read.
    let mut e = engine_with_guild(10);
    let n1 = e.store.next_ticket_number(10);
    let n2 = e.store.next_ticket_number(10);
    assert_eq!(n1, n2);
    let t1 = e.store.insert_ticket(10, 100, 42, None, n1, 0);
    let t2 = e.store.insert_ticket(10, 101, 43, None, n2, 0);
    assert_eq!(t1.ticket_number, t2.ticket_number);
    assert_ne!(t1.id, t2.id);
}

#[test]
fn blacklisted_user_cannot_create() {
    let mut e = engine_with_guild(10);
    e.store.add_blacklist(42, BlacklistKind::User);
    assert_eq!(
        e.store.create_ticket(10, 100, 42, None, 0),
        Err(CreateTicketError::Blacklisted)
    );
    // a different user still can
    assert!(e.store.create_ticket(10, 100, 43, None, 0).is_ok());
    // and after removal the first one can too
    e.store.remove_blacklist(42);
    assert!(e.store.create_ticket(10, 101, 42, None, 0).is_ok());
}

#[test]
fn open_ticket_limit_blocks_creation() {
    let mut e = engine_with_guild(10);
    // default limit is one open ticket per user
    e.store.create_ticket(10, 100, 42, None, 0).unwrap();
    assert_eq!(
        e.store.create_ticket(10, 101, 42, None, 1),
        Err(CreateTicketError::LimitReached)
    );
    // raising the limit lets a second one through
    e.store.set_guild_ticket_limit(10, Some(2));
    assert!(e.store.create_ticket(10, 101, 42, None, 2).is_ok());
    assert_eq!(
        e.store.create_ticket(10, 102, 42, None, 3),
        Err(CreateTicketError::LimitReached)
    );
}

#[test]
fn closing_frees_the_limit() {
    let mut e = engine_with_guild(10);
    e.store.create_ticket(10, 100, 42, None, 0).unwrap();
    e.close(100, true).unwrap();
    assert!(e.store.create_ticket(10, 101, 42, None, 1).is_ok());
}

#[test]
fn claim_rejections() {
    let mut e = engine_with_guild(10);
    assert_eq!(e.claim(999, 55, true), Err(ClaimError::NotTicketChannel));
    e.store.create_ticket(10, 100, 42, None, 0).unwrap();
    assert_eq!(e.claim(100, 55, true), Err(ClaimError::NoSupportRoles));
    e.store.add_support_role(10, 7);
    assert_eq!(e.claim(100, 55, false), Err(ClaimError::PermissionDenied));
    assert_eq!(e.claim(100, 55, true), Ok(1));
    assert_eq!(e.claim(100, 56, true), Err(ClaimError::AlreadyClaimed(55)));
}

#[test]
fn claim_deactivates_escalation_but_keeps_lease() {
    let mut e = engine_with_guild(10);
    e.store.add_support_role(10, 7);
    e.store.create_ticket(10, 100, 42, None, 0).unwrap();
    e.escalate(100, 42, 50).unwrap();
    e.set_priority(100, PriorityChoice::Urgent, 60).unwrap();
    assert!(e.cache.get(LeaseKey::PriorityPing(1), 61).is_some());

    e.claim(100, 55, true).unwrap();

    // the escalation is deactivated ...
    let esc = e.store.escalations.iter().find(|x| x.ticket_id == 1).unwrap();
    assert!(!esc.active);
    // ... but the priority lease survives: claiming does not cancel
    // it, only an explicit reset to normal does
    assert_eq!(
        e.cache.get(LeaseKey::PriorityPing(1), 70),
        Some(LeaseValue::Priority(Priority::Urgent))
    );
    e.set_priority(100, PriorityChoice::Reset, 80).unwrap();
    assert_eq!(e.cache.get(LeaseKey::PriorityPing(1), 81), None);
}

#[test]
fn unclaim_clears_the_claimant() {
    let mut e = engine_with_guild(10);
    e.store.add_support_role(10, 7);
    e.store.create_ticket(10, 100, 42, None, 0).unwrap();
    e.claim(100, 55, true).unwrap();
    assert_eq!(e.unclaim(100), Some(1));
    let t = e.store.get_ticket_by_id(1).unwrap();
    assert_eq!(t.claimed_by, None);
    // and the ticket can be claimed again
    assert_eq!(e.claim(100, 56, true), Ok(1));
}

#[test]
fn assign_sets_and_clears_the_assignee() {
    let mut e = engine_with_guild(10);
    e.store.create_ticket(10, 100, 42, None, 0).unwrap();
    e.store.assign_ticket(1, Some(88));
    assert_eq!(e.store.get_ticket_by_id(1).unwrap().assigned_to, Some(88));
    e.store.assign_ticket(1, None);
    assert_eq!(e.store.get_ticket_by_id(1).unwrap().assigned_to, None);
}

#[test]
fn close_removes_row_history_lease_and_escalation() {
    let mut e = engine_with_guild(10);
    let t = e.store.create_ticket(10, 100, 42, None, 0).unwrap();
    e.store.record_message(t.id, 9001, 42, 10);
    e.store.record_message(t.id, 9002, 55, 20);
    e.escalate(100, 42, 25).ok();
    e.set_priority(100, PriorityChoice::High, 30).unwrap();

    let closed = e.close(100, true).unwrap();
    assert_eq!(closed.id, t.id);

    // the row is gone: a later lookup reports not-found
    assert_eq!(e.store.get_ticket_by_id(t.id), None);
    assert_eq!(e.store.get_ticket_by_channel(100), None);
    // the history is gone
    assert_eq!(e.store.ticket_message_count(t.id), 0);
    // the lease is gone
    assert_eq!(e.cache.get(LeaseKey::PriorityPing(t.id), 31), None);
    // the escalation is inactive
    let esc = e.store.escalations.iter().find(|x| x.ticket_id == t.id);
    assert!(esc.map_or(true, |x| !x.active));
}

#[test]
fn close_rejections() {
    let mut e = engine_with_guild(10);
    assert_eq!(e.close(100, true), Err(CloseError::NotTicketChannel));
    e.store.create_ticket(10, 100, 42, None, 0).unwrap();
    assert_eq!(e.close(100, false), Err(CloseError::PermissionDenied));
    // the rejection changed nothing
    assert!(e.store.get_ticket_by_id(1).is_some());
}

#[test]
fn escalate_only_unanswered_tickets() {
    let mut e = engine_with_guild(10);
    assert_eq!(e.escalate(100, 42, 0), Err(EscalateError::NotTicketChannel));
    let t = e.store.create_ticket(10, 100, 42, None, 0).unwrap();
    // a message from the owner does not count as an answer
    e.store.record_message(t.id, 9001, 42, 5);
    let esc_t = e.escalate(100, 42, 10).unwrap();
    assert_eq!(esc_t.id, t.id);
    let esc = e.store.escalations.iter().find(|x| x.ticket_id == t.id).unwrap();
    assert!(esc.active);
    assert_eq!(esc.requester_id, 42);
    assert_eq!(esc.last_ping, 10);
    // a staff message raises the flag and blocks further escalation
    e.store.record_message(t.id, 9002, 55, 15);
    assert_eq!(e.escalate(100, 42, 20), Err(EscalateError::AlreadyAnswered));
}

#[test]
fn messages_touch_activity_and_flag_staff_replies() {
    let mut e = engine_with_guild(10);
    let t = e.store.create_ticket(10, 100, 42, None, 0).unwrap();
    assert!(!t.has_messages);
    e.store.record_message(t.id, 9001, 42, 50);
    let t1 = e.store.get_ticket_by_id(t.id).unwrap();
    assert!(!t1.has_messages);
    assert_eq!(t1.last_activity, 50);
    e.store.record_message(t.id, 9002, 55, 60);
    let t2 = e.store.get_ticket_by_id(t.id).unwrap();
    assert!(t2.has_messages);
    assert_eq!(t2.last_activity, 60);
    assert_eq!(e.store.ticket_message_count(t.id), 2);
}

#[test]
fn deleting_an_absent_row_is_a_quiet_no_op() {
    let mut e = engine_with_guild(10);
    e.store.create_ticket(10, 100, 42, None, 0).unwrap();
    // an id that never existed
    e.store.remove_ticket(99);
    assert!(e.store.get_ticket_by_id(1).is_some());
    // deleting twice: the second delete finds nothing and exits
    e.store.remove_ticket(1);
    e.store.remove_ticket(1);
    assert_eq!(e.store.get_ticket_by_id(1), None);
    // the whole closing transition tolerates a vanished row too
    e.apply_close(1);
    e.apply_close(77);
}

#[test]
fn history_is_listed_oldest_first_per_ticket() {
    let mut e = engine_with_guild(10);
    e.store.create_ticket(10, 100, 42, None, 0).unwrap();
    e.store.create_ticket(10, 101, 43, None, 0).unwrap();
    e.store.record_message(1, 9001, 42, 5);
    e.store.record_message(2, 9002, 43, 6);
    e.store.record_message(1, 9003, 55, 7);
    let history: Vec<u64> = e
        .store
        .get_ticket_messages(1)
        .iter()
        .map(|m| m.message_id)
        .collect();
    assert_eq!(history, vec![9001, 9003]);
    assert_eq!(e.store.get_ticket_messages(3), Vec::new());
}

#[test]
fn opening_message_is_recorded_once_posted() {
    let mut e = engine_with_guild(10);
    let t = e.store.create_ticket(10, 100, 42, None, 0).unwrap();
    assert_eq!(t.opening_message_id, None);
    e.store.set_ticket_opening_message(t.id, 9001);
    assert_eq!(
        e.store.get_ticket_by_id(t.id).unwrap().opening_message_id,
        Some(9001)
    );
}

#[test]
fn guild_blacklist_is_tracked_separately() {
    let mut e = engine_with_guild(10);
    e.store.add_blacklist(10, BlacklistKind::Guild);
    assert!(e.store.is_blacklisted(10, BlacklistKind::Guild));
    assert!(!e.store.is_blacklisted(10, BlacklistKind::User));
    // a guild blacklist does not block that id as a user
    assert!(e.store.create_ticket(10, 100, 10, None, 0).is_ok());
}

#[test]
fn support_roles_add_remove() {
    let mut e = engine_with_guild(10);
    e.store.add_support_role(10, 7);
    e.store.add_support_role(10, 7);
    e.store.add_support_role(10, 8);
    assert_eq!(e.store.get_support_roles(10), vec![7, 8]);
    e.store.remove_support_role(10, 7);
    assert_eq!(e.store.get_support_roles(10), vec![8]);
    assert_eq!(e.store.get_support_roles(20), Vec::<u64>::new());
}
