//! The escalation and auto-close sweeps.

use ticketflow::engine::{Engine, WakeStep};
use ticketflow::records::{Priority, PriorityChoice};
use ticketflow::sweeps::{autoclose_sweep, escalation_sweep};

fn engine_with_escalated_ticket() -> Engine {
    let mut e = Engine::new();
    e.store.ensure_guild(10);
    e.store.add_support_role(10, 7);
    e.store.create_ticket(10, 100, 42, None, 0).unwrap();
    e.escalate(100, 42, 1000).unwrap();
    e
}

#[test]
fn sweep_waits_a_full_hour_between_pings() {
    let mut e = engine_with_escalated_ticket();
    let notices = escalation_sweep(&mut e.store, 1000 + 3599);
    assert!(notices.is_empty());
    // the ping clock was not touched
    assert_eq!(e.store.escalations[0].last_ping, 1000);
}

#[test]
fn sweep_renotifies_an_unclaimed_ticket() {
    let mut e = engine_with_escalated_ticket();
    let notices = escalation_sweep(&mut e.store, 1000 + 3600);
    assert_eq!(notices.len(), 1);
    assert_eq!(notices[0].ticket_id, 1);
    assert_eq!(notices[0].guild_id, 10);
    assert_eq!(notices[0].channel_id, 100);
    assert_eq!(notices[0].ticket_number, 1);
    assert_eq!(notices[0].owner_id, 42);
    // the clock restarts: the next sweep within the hour is silent
    assert_eq!(e.store.escalations[0].last_ping, 1000 + 3600);
    assert!(escalation_sweep(&mut e.store, 1000 + 3600 + 1800).is_empty());
    // and an hour later it pings again
    assert_eq!(escalation_sweep(&mut e.store, 1000 + 7200).len(), 1);
}

#[test]
fn sweep_deactivates_a_claimed_ticket() {
    // Self-healing: even if the claim path's own deactivation were
    // missed, the sweep deactivates on sight of a claimant.
    let mut e = engine_with_escalated_ticket();
    e.claim(100, 55, true).unwrap();
    // force the record active again to exercise the sweep's own check
    e.store.create_escalation(1, 42, 1000);
    let notices = escalation_sweep(&mut e.store, 1000 + 3600);
    assert!(notices.is_empty());
    assert!(!e.store.escalations[0].active);
}

#[test]
fn sweep_deactivates_a_vanished_ticket() {
    let mut e = engine_with_escalated_ticket();
    e.store.remove_ticket(1);
    let notices = escalation_sweep(&mut e.store, 1000 + 3600);
    assert!(notices.is_empty());
    assert!(!e.store.escalations[0].active);
}

#[test]
fn inactive_escalations_stay_silent() {
    let mut e = engine_with_escalated_ticket();
    e.store.deactivate_escalation(1);
    assert!(escalation_sweep(&mut e.store, 1000 + 7200).is_empty());
}

#[test]
fn autoclose_closes_only_overdue_tickets() {
    let mut e = Engine::new();
    e.store.ensure_guild(10);
    e.store.set_guild_autoclose(10, true, Some(30));
    e.store.set_guild_log_channel(10, Some(555));
    e.store.create_ticket(10, 100, 42, None, 0).unwrap();
    e.store.create_ticket(10, 101, 43, None, 0).unwrap();
    // the second ticket stays active
    e.store.record_message(2, 9001, 43, 30 * 60);

    let notices = autoclose_sweep(&mut e, 30 * 60 + 1);
    assert_eq!(notices.len(), 1);
    assert_eq!(notices[0].ticket_id, 1);
    assert_eq!(notices[0].channel_id, 100);
    assert_eq!(notices[0].ticket_number, 1);
    assert_eq!(notices[0].log_channel_id, Some(555));
    assert_eq!(e.store.get_ticket_by_id(1), None);
    assert!(e.store.get_ticket_by_id(2).is_some());
}

#[test]
fn autoclose_runs_the_full_close_transition() {
    let mut e = Engine::new();
    e.store.ensure_guild(10);
    e.store.set_guild_autoclose(10, true, Some(30));
    e.store.create_ticket(10, 100, 42, None, 0).unwrap();
    e.store.record_message(1, 9001, 42, 10);
    e.escalate(100, 42, 20).unwrap();
    e.set_priority(100, PriorityChoice::Urgent, 40).unwrap();

    autoclose_sweep(&mut e, 40 + 30 * 60);

    assert_eq!(e.store.get_ticket_by_id(1), None);
    assert_eq!(e.store.ticket_message_count(1), 0);
    assert!(!e.store.escalations[0].active);
    // the lease went with it, so the running task exits on its wake
    assert_eq!(
        e.scheduler_wake(1, Priority::Urgent, 40 + 3600),
        WakeStep::Exit
    );
}

#[test]
fn autoclose_ignores_guilds_without_the_feature() {
    let mut e = Engine::new();
    e.store.ensure_guild(10);
    e.store.create_ticket(10, 100, 42, None, 0).unwrap();
    // no configuration: nothing closes, ever
    assert!(autoclose_sweep(&mut e, 1_000_000).is_empty());
    // configured but disabled: still nothing
    e.store.set_guild_autoclose(10, false, Some(30));
    assert!(autoclose_sweep(&mut e, 2_000_000).is_empty());
    assert!(e.store.get_ticket_by_id(1).is_some());
}

#[test]
fn autoclose_counts_activity_from_the_last_touch() {
    let mut e = Engine::new();
    e.store.ensure_guild(10);
    e.store.set_guild_autoclose(10, true, Some(30));
    e.store.create_ticket(10, 100, 42, None, 0).unwrap();
    e.store.touch_ticket_activity(1, 1000);
    assert!(autoclose_sweep(&mut e, 1000 + 30 * 60 - 1).is_empty());
    assert_eq!(autoclose_sweep(&mut e, 1000 + 30 * 60).len(), 1);
}
