//! The priority cadence table and the recurring task's wake decision.

use ticketflow::engine::{Engine, PriorityError, WakeStep};
use ticketflow::lease::{LeaseKey, LeaseValue};
use ticketflow::records::{Priority, PriorityChoice};

fn engine_with_ticket() -> Engine {
    let mut e = Engine::new();
    e.store.ensure_guild(10);
    e.store.set_guild_ping_role(10, Some(777));
    e.store.create_ticket(10, 100, 42, None, 1000).unwrap();
    e
}

#[test]
fn urgent_pings_immediately_and_hourly() {
    let mut e = engine_with_ticket();
    let out = e.set_priority(100, PriorityChoice::Urgent, 1000).unwrap();
    assert_eq!(out.applied, Priority::Urgent);
    let sched = out.schedule.unwrap();
    assert_eq!(sched.interval_secs, 3600);
    let ping = sched.immediate_ping.unwrap();
    assert_eq!(ping.role_id, 777);
    assert_eq!(ping.channel_id, 100);
    assert_eq!(ping.level, Priority::Urgent);
    // the row now carries the level, and the lease records it
    assert_eq!(
        e.store.get_ticket_by_id(1).unwrap().priority,
        Some(Priority::Urgent)
    );
    assert_eq!(
        e.cache.get(LeaseKey::PriorityPing(1), 1001),
        Some(LeaseValue::Priority(Priority::Urgent))
    );
}

#[test]
fn high_pings_immediately_and_hourly() {
    let mut e = engine_with_ticket();
    let sched = e
        .set_priority(100, PriorityChoice::High, 1000)
        .unwrap()
        .schedule
        .unwrap();
    assert_eq!(sched.interval_secs, 3600);
    assert!(sched.immediate_ping.is_some());
}

#[test]
fn low_pings_every_two_hours_without_immediate_ping() {
    let mut e = engine_with_ticket();
    let out = e.set_priority(100, PriorityChoice::Low, 1000).unwrap();
    let sched = out.schedule.unwrap();
    assert_eq!(sched.interval_secs, 7200);
    assert_eq!(sched.immediate_ping, None);
}

#[test]
fn no_immediate_ping_without_configured_role() {
    let mut e = Engine::new();
    e.store.ensure_guild(10);
    e.store.create_ticket(10, 100, 42, None, 1000).unwrap();
    let sched = e
        .set_priority(100, PriorityChoice::Urgent, 1000)
        .unwrap()
        .schedule
        .unwrap();
    assert_eq!(sched.immediate_ping, None);
    // the task still runs: cancellation is the lease's job
    assert_eq!(sched.interval_secs, 3600);
}

#[test]
fn normal_and_reset_cancel_the_lease_and_start_nothing() {
    let mut e = engine_with_ticket();
    e.set_priority(100, PriorityChoice::Urgent, 1000).unwrap();
    let out = e.set_priority(100, PriorityChoice::Reset, 1010).unwrap();
    assert_eq!(out.applied, Priority::Normal);
    assert_eq!(out.schedule, None);
    assert_eq!(e.cache.get(LeaseKey::PriorityPing(1), 1011), None);

    e.set_priority(100, PriorityChoice::Urgent, 1020).unwrap();
    let out2 = e.set_priority(100, PriorityChoice::Normal, 1030).unwrap();
    assert_eq!(out2.schedule, None);
    assert_eq!(e.cache.get(LeaseKey::PriorityPing(1), 1031), None);
}

#[test]
fn set_priority_outside_a_ticket_channel_is_rejected() {
    let mut e = engine_with_ticket();
    assert_eq!(
        e.set_priority(999, PriorityChoice::Urgent, 1000),
        Err(PriorityError::NotTicketChannel)
    );
}

#[test]
fn wake_pings_while_lease_and_ticket_live() {
    let mut e = engine_with_ticket();
    e.set_priority(100, PriorityChoice::High, 1000).unwrap();
    let w = e.scheduler_wake(1, Priority::High, 1000 + 3600);
    match w {
        WakeStep::Ping(Some(p)) => {
            assert_eq!(p.role_id, 777);
            assert_eq!(p.channel_id, 100);
            assert_eq!(p.level, Priority::High);
        }
        other => panic!("expected a ping, got {:?}", other),
    }
}

#[test]
fn wake_keeps_pinging_a_claimed_ticket() {
    // Claiming does not delete the lease, and the wake decision reads
    // only the lease and the ticket's presence, so a claimed ticket
    // keeps receiving pings while the lease stands.
    let mut e = engine_with_ticket();
    e.store.add_support_role(10, 7);
    e.set_priority(100, PriorityChoice::High, 1000).unwrap();
    e.claim(100, 55, true).unwrap();
    let w = e.scheduler_wake(1, Priority::High, 1000 + 3600);
    assert!(matches!(w, WakeStep::Ping(Some(_))));
}

#[test]
fn wake_exits_once_the_lease_is_gone() {
    let mut e = engine_with_ticket();
    e.set_priority(100, PriorityChoice::Urgent, 1000).unwrap();
    e.set_priority(100, PriorityChoice::Reset, 1005).unwrap();
    assert_eq!(
        e.scheduler_wake(1, Priority::Urgent, 1000 + 3600),
        WakeStep::Exit
    );
}

#[test]
fn wake_exits_once_the_lease_expires() {
    let mut e = engine_with_ticket();
    e.set_priority(100, PriorityChoice::Urgent, 1000).unwrap();
    // one second before expiry the lease is still live
    assert!(matches!(
        e.scheduler_wake(1, Priority::Urgent, 1000 + 86399),
        WakeStep::Ping(_)
    ));
    assert_eq!(
        e.scheduler_wake(1, Priority::Urgent, 1000 + 86400),
        WakeStep::Exit
    );
}

#[test]
fn wake_cleans_the_lease_of_a_vanished_ticket() {
    let mut e = engine_with_ticket();
    e.set_priority(100, PriorityChoice::Urgent, 1000).unwrap();
    // the row disappears underneath the task (a concurrent close path
    // that did not reach the cache)
    e.store.remove_ticket(1);
    assert_eq!(
        e.scheduler_wake(1, Priority::Urgent, 1000 + 3600),
        WakeStep::ExitTicketGone
    );
    // the wake deleted the lease itself, so the next one exits plainly
    assert_eq!(
        e.scheduler_wake(1, Priority::Urgent, 1000 + 7200),
        WakeStep::Exit
    );
}

#[test]
fn full_priority_story() {
    // Created, set to high, pinged at once, claimed ten minutes
    // later; at the hour mark the task still pings because only the
    // lease governs continuation; after close, it exits.
    let mut e = engine_with_ticket();
    e.store.add_support_role(10, 7);
    let out = e.set_priority(100, PriorityChoice::High, 1000).unwrap();
    assert!(out.schedule.unwrap().immediate_ping.is_some());
    e.claim(100, 55, true).unwrap();
    assert!(matches!(
        e.scheduler_wake(1, Priority::High, 1000 + 3600),
        WakeStep::Ping(Some(_))
    ));
    e.close(100, true).unwrap();
    assert_eq!(
        e.scheduler_wake(1, Priority::High, 1000 + 7200),
        WakeStep::Exit
    );
}
