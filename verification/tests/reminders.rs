//! Reminder scheduling, the at-least-once sweep, and duration
//! parsing.

use ticketflow::engine::Engine;
use ticketflow::time::{current_unix_time, parse_duration, DurationError};

#[test]
fn the_clock_reads_a_present_day_instant() {
    // seconds since the Unix epoch: past 2020, and not absurd
    let t = current_unix_time();
    assert!(t > 1_577_836_800, "clock reads {}", t);
    assert!(t < 4_102_444_800, "clock reads {}", t);
}

#[test]
fn reminder_becomes_due_at_its_instant() {
    let mut e = Engine::new();
    let id = e
        .store
        .create_reminder(42, 100, Some(10), Some(9001), "check back".to_string(), 500, 400);
    assert_eq!(e.store.due_reminder_ids(499), Vec::<u64>::new());
    assert_eq!(e.store.due_reminder_ids(500), vec![id]);
    assert_eq!(e.store.due_reminder_ids(800), vec![id]);
}

#[test]
fn reminder_fields_are_stored() {
    let mut e = Engine::new();
    let id = e
        .store
        .create_reminder(42, 100, Some(10), Some(9001), "check back".to_string(), 500, 400);
    let r = e.store.get_reminder(id).unwrap();
    assert_eq!(r.user_id, 42);
    assert_eq!(r.channel_id, 100);
    assert_eq!(r.guild_id, Some(10));
    assert_eq!(r.message_id, Some(9001));
    assert_eq!(r.reason, "check back");
    assert_eq!(r.remind_at, 500);
    assert_eq!(r.created_at, 400);
    assert!(!r.completed);
}

#[test]
fn delivery_without_completion_is_redelivered() {
    // At-least-once, not exactly-once: a sweep that crashed after
    // sending but before marking finds the reminder again, and
    // nothing deduplicates it.
    let mut e = Engine::new();
    let id = e
        .store
        .create_reminder(42, 100, None, None, "ping".to_string(), 500, 400);
    let first_cycle = e.store.due_reminder_ids(510);
    assert_eq!(first_cycle, vec![id]);
    // crash: mark_reminder_complete never ran
    let second_cycle = e.store.due_reminder_ids(540);
    assert_eq!(second_cycle, vec![id]);
    // a successful cycle marks it and it never comes back
    for rid in second_cycle {
        assert!(e.store.mark_reminder_complete(rid));
    }
    assert_eq!(e.store.due_reminder_ids(570), Vec::<u64>::new());
}

#[test]
fn marking_an_absent_reminder_reports_so() {
    let mut e = Engine::new();
    assert!(!e.store.mark_reminder_complete(99));
}

#[test]
fn several_reminders_come_due_in_store_order() {
    let mut e = Engine::new();
    let a = e.store.create_reminder(1, 100, None, None, "a".to_string(), 300, 0);
    let b = e.store.create_reminder(2, 100, None, None, "b".to_string(), 200, 0);
    let c = e.store.create_reminder(3, 100, None, None, "c".to_string(), 400, 0);
    assert_eq!(e.store.due_reminder_ids(300), vec![a, b]);
    assert_eq!(e.store.due_reminder_ids(400), vec![a, b, c]);
}

#[test]
fn parse_duration_units() {
    assert_eq!(parse_duration("45s"), Ok(45));
    assert_eq!(parse_duration("30m"), Ok(1800));
    assert_eq!(parse_duration("2h"), Ok(7200));
    assert_eq!(parse_duration("1d"), Ok(86400));
    assert_eq!(parse_duration("1w"), Ok(604800));
    assert_eq!(parse_duration("90m"), Ok(5400));
    assert_eq!(parse_duration("007m"), Ok(420));
}

#[test]
fn parse_duration_trims_whitespace_and_takes_a_plus_sign() {
    assert_eq!(parse_duration(" 30m"), Ok(1800));
    assert_eq!(parse_duration("30m "), Ok(1800));
    assert_eq!(parse_duration("\t2h  "), Ok(7200));
    assert_eq!(parse_duration("+5m"), Ok(300));
    assert_eq!(parse_duration(" +45s "), Ok(45));
    assert_eq!(parse_duration("   "), Err(DurationError::Empty));
    assert_eq!(parse_duration("+m"), Err(DurationError::InvalidNumber));
    assert_eq!(parse_duration("+0s"), Err(DurationError::NotPositive));
    // the most negative readable count is still a readable count
    assert_eq!(
        parse_duration("-9223372036854775808m"),
        Err(DurationError::NotPositive)
    );
    assert_eq!(
        parse_duration("-9223372036854775809m"),
        Err(DurationError::InvalidNumber)
    );
}

#[test]
fn parse_duration_rejections() {
    assert_eq!(parse_duration(""), Err(DurationError::Empty));
    assert_eq!(parse_duration("5"), Err(DurationError::InvalidNumber));
    assert_eq!(parse_duration("m"), Err(DurationError::InvalidNumber));
    assert_eq!(parse_duration("abcm"), Err(DurationError::InvalidNumber));
    assert_eq!(parse_duration("1.5h"), Err(DurationError::InvalidNumber));
    assert_eq!(
        parse_duration("99999999999999999999s"),
        Err(DurationError::InvalidNumber)
    );
    assert_eq!(parse_duration("-5m"), Err(DurationError::NotPositive));
    assert_eq!(parse_duration("0h"), Err(DurationError::NotPositive));
    assert_eq!(parse_duration("5x"), Err(DurationError::InvalidUnit));
    assert_eq!(parse_duration("5M"), Err(DurationError::InvalidUnit));
    assert_eq!(
        parse_duration("9223372036854775807w"),
        Err(DurationError::TooLarge)
    );
}
