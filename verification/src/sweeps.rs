//! The periodic sweeps: the escalation re-notifier and the
//! auto-closer.  Each is a pure pass over the durable state that
//! returns the notifications to send; the caller runs it on its fixed
//! interval and performs the sends.
//!
//! (The reminder sweep needs no function of its own: it is
//! `TicketStore::due_reminder_ids` followed by one
//! `mark_reminder_complete` per delivered reminder.)

use vstd::prelude::*;

use crate::engine::Engine;
use crate::lease::LeaseKey;
use crate::records::{Escalation, StoredMessage, Ticket};
use crate::store::{messages_without, sat_sub, TicketStore};
use crate::table::{tbl_has, tbl_key_index, Keyed};

verus! {

/// An active escalation is re-notified once its last ping is at least
/// this many seconds old.
pub const ESCALATION_REPING_SECS: u64 = 3600;

/// One escalation re-notification: every member holding a support
/// role of `guild_id` is to be reminded of the ticket.
#[derive(Clone, Copy, Debug, PartialEq, Eq, Structural)]
pub struct EscalationNotice {
    pub ticket_id: u64,
    pub guild_id: u64,
    pub channel_id: u64,
    pub ticket_number: u64,
    pub owner_id: u64,
}

/// What one sweep does to a single escalation record, judged against
/// the tickets as they stood when the sweep began: a record that is
/// inactive or was pinged recently is untouched; one whose ticket is
/// claimed or gone is deactivated (self-healing); one whose ticket
/// still waits unclaimed keeps its flag and has its ping clock reset.
pub open spec fn escalation_after_sweep(s0: TicketStore, e: Escalation, now: u64) -> Escalation {
    if e.active && sat_sub(now, e.last_ping) >= ESCALATION_REPING_SECS {
        if s0.has_ticket(e.ticket_id) && !s0.ticket(e.ticket_id).spec_is_claimed() {
            Escalation { last_ping: now, ..e }
        } else {
            Escalation { active: false, ..e }
        }
    } else {
        e
    }
}

/// The notice for one escalation, if the sweep sends one: only for a
/// due, active record whose ticket still waits unclaimed.
pub open spec fn notice_for_escalation(s0: TicketStore, e: Escalation, now: u64) -> Option<
    EscalationNotice,
> {
    if e.active && sat_sub(now, e.last_ping) >= ESCALATION_REPING_SECS && s0.has_ticket(
        e.ticket_id,
    ) && !s0.ticket(e.ticket_id).spec_is_claimed() {
        let t = s0.ticket(e.ticket_id);
        Some(
            EscalationNotice {
                ticket_id: t.id,
                guild_id: t.guild_id,
                channel_id: t.channel_id,
                ticket_number: t.ticket_number,
                owner_id: t.owner_id,
            },
        )
    } else {
        None
    }
}

/// The notices one sweep sends, in store order.
pub open spec fn escalation_sweep_notices(
    escs: Seq<Escalation>,
    s0: TicketStore,
    now: u64,
) -> Seq<EscalationNotice>
    decreases escs.len(),
{
    if escs.len() == 0 {
        Seq::empty()
    } else {
        let rest = escalation_sweep_notices(escs.drop_last(), s0, now);
        match notice_for_escalation(s0, escs.last(), now) {
            Some(n) => rest.push(n),
            None => rest,
        }
    }
}

/// One run of the escalation sweep: every active escalation whose
/// last ping is at least an hour old is re-examined against its
/// ticket; stale ones are deactivated, waiting ones are re-notified
/// and have their ping clock reset.  Nothing but the escalation table
/// changes.
pub fn escalation_sweep(store: &mut TicketStore, now: u64) -> (notices: Vec<EscalationNotice>)
    requires
        old(store).wf(),
    ensures
        final(store).wf(),
        final(store).eq_outside_escalations(*old(store)),
        notices@ == escalation_sweep_notices(old(store).escalations@, *old(store), now),
        final(store).escalations@.len() == old(store).escalations@.len(),
        forall|i: int|
            0 <= i < old(store).escalations@.len() ==> final(store).escalations@[i]
                == escalation_after_sweep(
                *old(store),
                #[trigger] old(store).escalations@[i],
                now,
            ),
        forall|tid: u64| #[trigger]
            final(store).has_escalation(tid) == old(store).has_escalation(tid),
        forall|tid: u64| #[trigger]
            old(store).has_escalation(tid) ==> final(store).escalation(tid)
                == escalation_after_sweep(*old(store), old(store).escalation(tid), now),
{
    let ghost s0 = *old(store);
    let n = store.escalations.len();
    let mut out: Vec<Escalation> = Vec::new();
    let mut notices: Vec<EscalationNotice> = Vec::new();
    let mut k: usize = 0;
    while k < n
        invariant
            store.wf(),
            *store == s0,
            s0.wf(),
            n == s0.escalations@.len(),
            k <= n,
            out@.len() == k,
            forall|i: int|
                0 <= i < k ==> out@[i] == escalation_after_sweep(
                    s0,
                    #[trigger] s0.escalations@[i],
                    now,
                ),
            notices@ == escalation_sweep_notices(s0.escalations@.take(k as int), s0, now),
        decreases n - k,
    {
        let e = store.escalations[k];
        proof {
            assert(s0.escalations@.take(k as int + 1).drop_last() == s0.escalations@.take(
                k as int,
            ));
            assert(s0.escalations@.take(k as int + 1).last() == s0.escalations@[k as int]);
        }
        let since = if now >= e.last_ping {
            now - e.last_ping
        } else {
            0
        };
        if e.active && since >= ESCALATION_REPING_SECS {
            match store.get_ticket_by_id(e.ticket_id) {
                Some(t) => {
                    if t.is_claimed() {
                        out.push(Escalation { active: false, ..e });
                    } else {
                        notices.push(
                            EscalationNotice {
                                ticket_id: t.id,
                                guild_id: t.guild_id,
                                channel_id: t.channel_id,
                                ticket_number: t.ticket_number,
                                owner_id: t.owner_id,
                            },
                        );
                        out.push(Escalation { last_ping: now, ..e });
                    }
                },
                None => {
                    out.push(Escalation { active: false, ..e });
                },
            }
        } else {
            out.push(e);
        }
        k = k + 1;
    }
    proof {
        assert(s0.escalations@.take(n as int) == s0.escalations@);
    }
    store.escalations = out;
    proof {
        let sa = store.escalations@;
        let sb = s0.escalations@;
        assert forall|i: int| 0 <= i < sa.len() implies (#[trigger] sa[i]).key() == sb[i].key() by {
            assert(sa[i] == escalation_after_sweep(s0, sb[i], now));
        }
        assert forall|p: int, q: int| 0 <= p < q < sa.len() implies (#[trigger] sa[p]).key() != (
        #[trigger] sa[q]).key() by {
            assert(sb[p].key() != sb[q].key());
        }
        assert forall|tid: u64| #[trigger] tbl_has(sa, tid) == tbl_has(sb, tid) by {
            if tbl_has(sa, tid) {
                let j = crate::table::tbl_idx(sa, tid);
                assert(0 <= j < sa.len() && sa[j].key() == tid);
                tbl_key_index(sb, j, tid);
            }
            if tbl_has(sb, tid) {
                let j = crate::table::tbl_idx(sb, tid);
                assert(0 <= j < sb.len() && sb[j].key() == tid);
                tbl_key_index(sa, j, tid);
            }
        }
        assert forall|tid: u64| #[trigger] tbl_has(sb, tid) implies crate::table::tbl_at(sa, tid)
            == escalation_after_sweep(s0, crate::table::tbl_at(sb, tid), now) by {
            let j = crate::table::tbl_idx(sb, tid);
            assert(0 <= j < sb.len() && sb[j].key() == tid);
            tbl_key_index(sa, j, tid);
        }
    }
    notices
}

/// One in-channel notice of an automatic close, with the guild's log
/// channel (if configured) for the mirror message.
#[derive(Clone, Copy, Debug, PartialEq, Eq, Structural)]
pub struct AutoCloseNotice {
    pub ticket_id: u64,
    pub guild_id: u64,
    pub channel_id: u64,
    pub ticket_number: u64,
    pub log_channel_id: Option<u64>,
}

/// The notice announcing the automatic close of ticket `id`.
pub open spec fn notice_for_autoclose(s0: TicketStore, id: u64) -> AutoCloseNotice {
    let t = s0.ticket(id);
    AutoCloseNotice {
        ticket_id: id,
        guild_id: t.guild_id,
        channel_id: t.channel_id,
        ticket_number: t.ticket_number,
        log_channel_id: if s0.has_guild(t.guild_id) {
            s0.guild(t.guild_id).log_channel_id
        } else {
            None
        },
    }
}

/// The message table after the histories of `ids` are deleted, first
/// id first.
pub open spec fn messages_after_closes(msgs: Seq<StoredMessage>, ids: Seq<u64>) -> Seq<
    StoredMessage,
>
    decreases ids.len(),
{
    if ids.len() == 0 {
        msgs
    } else {
        messages_after_closes(messages_without(msgs, ids[0]), ids.drop_first())
    }
}

/// The lease keys of the tickets in `ids`.
pub open spec fn priority_keys_of(ids: Seq<u64>) -> Set<LeaseKey> {
    Set::new(
        |k: LeaseKey|
            exists|i: int| 0 <= i < ids.len() && k == LeaseKey::PriorityPing(#[trigger] ids[i]),
    )
}

/// Every id the auto-close listing returns names a stored ticket, and
/// no id is listed twice.
pub proof fn lemma_inactive_ids_sound(s: TicketStore, upto: int, now: u64)
    requires
        s.wf(),
        0 <= upto <= s.tickets@.len(),
    ensures
        forall|i: int|
            0 <= i < s.inactive_ids_upto(upto, now).len() ==> s.has_ticket(
                #[trigger] s.inactive_ids_upto(upto, now)[i],
            ),
        forall|i: int, j: int|
            0 <= i < j < s.inactive_ids_upto(upto, now).len() ==> s.inactive_ids_upto(upto, now)[i]
                != s.inactive_ids_upto(upto, now)[j],
    decreases upto,
{
    if upto > 0 {
        lemma_inactive_ids_sound(s, upto - 1, now);
        let rest = s.inactive_ids_upto(upto - 1, now);
        let t = s.tickets@[upto - 1];
        if s.spec_autoclose_due(t, now) {
            tbl_key_index(s.tickets@, upto - 1, t.id);
            assert(s.has_ticket(t.id));
            assert forall|i: int| 0 <= i < rest.len() implies rest[i] != t.id by {
                lemma_inactive_id_source(s, upto - 1, now, i);
            }
        }
    }
}

/// Each listed id comes from a ticket at an index below `upto`.
proof fn lemma_inactive_id_source(s: TicketStore, upto: int, now: u64, i: int)
    requires
        s.wf(),
        0 <= upto <= s.tickets@.len(),
        0 <= i < s.inactive_ids_upto(upto, now).len(),
    ensures
        exists|j: int|
            0 <= j < upto && (#[trigger] s.tickets@[j]).id == s.inactive_ids_upto(upto, now)[i],
    decreases upto,
{
    if upto > 0 {
        let rest = s.inactive_ids_upto(upto - 1, now);
        let t = s.tickets@[upto - 1];
        if s.spec_autoclose_due(t, now) && i == rest.len() {
            assert(s.tickets@[upto - 1].id == s.inactive_ids_upto(upto, now)[i]);
        } else {
            lemma_inactive_id_source(s, upto - 1, now, i);
        }
    }
}

/// One run of the auto-close sweep: every ticket whose guild has
/// auto-close configured and whose inactivity exceeds the threshold
/// goes through the full closing transition (history deleted, lease
/// deleted, escalation deactivated, row deleted), and a notice is
/// returned for each.
pub fn autoclose_sweep(engine: &mut Engine, now: u64) -> (notices: Vec<AutoCloseNotice>)
    requires
        old(engine).wf(),
    ensures
        final(engine).wf(),
        ({
            let s0 = old(engine).store;
            let ids = s0.inactive_ids_upto(s0.tickets@.len() as int, now);
            &&& notices@.len() == ids.len()
            &&& forall|i: int|
                0 <= i < ids.len() ==> notices@[i] == notice_for_autoclose(s0, #[trigger] ids[i])
            &&& final(engine).store.tickets_map() == s0.tickets_map().remove_keys(ids.to_set())
            &&& forall|i: int| 0 <= i < ids.len() ==> !final(engine).store.has_ticket(
                #[trigger] ids[i],
            )
            &&& final(engine).store.messages@ == messages_after_closes(s0.messages@, ids)
            &&& forall|tid: u64| #[trigger]
                final(engine).store.has_escalation(tid) == s0.has_escalation(tid)
            &&& forall|i: int|
                0 <= i < ids.len() && final(engine).store.has_escalation(#[trigger] ids[i])
                    ==> !final(engine).store.escalation(ids[i]).active
            &&& final(engine).cache.contents() == old(engine).cache.contents().remove_keys(
                priority_keys_of(ids),
            )
            &&& final(engine).store.reminders@ == s0.reminders@
            &&& final(engine).store.guilds@ == s0.guilds@
            &&& final(engine).store.support_roles@ == s0.support_roles@
            &&& final(engine).store.blacklist@ == s0.blacklist@
        }),
{
    let ghost s0 = old(engine).store;
    let ghost c0 = old(engine).cache.contents();
    let ids = engine.store.list_inactive_tickets(now);
    let ghost gids = ids@;
    proof {
        lemma_inactive_ids_sound(s0, s0.tickets@.len() as int, now);
    }
    let mut notices: Vec<AutoCloseNotice> = Vec::new();
    let mut k: usize = 0;
    while k < ids.len()
        invariant
            old(engine).wf(),
            s0 == old(engine).store,
            c0 == old(engine).cache.contents(),
            gids == ids@,
            gids == s0.inactive_ids_upto(s0.tickets@.len() as int, now),
            forall|i: int| 0 <= i < gids.len() ==> s0.has_ticket(#[trigger] gids[i]),
            forall|i: int, j: int| 0 <= i < j < gids.len() ==> gids[i] != gids[j],
            k <= gids.len(),
            engine.wf(),
            engine.store.tickets_map() == s0.tickets_map().remove_keys(
                gids.take(k as int).to_set(),
            ),
            engine.store.messages@ == messages_after_closes(s0.messages@, gids.take(k as int)),
            forall|tid: u64| #[trigger]
                engine.store.has_escalation(tid) == s0.has_escalation(tid),
            forall|i: int|
                0 <= i < k && engine.store.has_escalation(#[trigger] gids[i]) ==> !engine
                    .store.escalation(gids[i]).active,
            engine.cache.contents() == c0.remove_keys(priority_keys_of(gids.take(k as int))),
            engine.store.reminders@ == s0.reminders@,
            engine.store.guilds@ == s0.guilds@,
            engine.store.support_roles@ == s0.support_roles@,
            engine.store.blacklist@ == s0.blacklist@,
            notices@.len() == k,
            forall|i: int|
                0 <= i < k ==> notices@[i] == notice_for_autoclose(s0, #[trigger] gids[i]),
        decreases gids.len() - k,
    {
        let id = ids[k];
        proof {
            assert(!gids.take(k as int).to_set().contains(id));
            assert(engine.store.tickets_map().dom().contains(id));
            assert(engine.store.has_ticket(id));
            assert(engine.store.tickets_map()[id] == s0.tickets_map()[id]);
            assert(s0.ticket(id) == s0.tickets_map()[id]);
            assert(engine.store.ticket(id) == engine.store.tickets_map()[id]);
        }
        let t = engine.store.get_ticket_by_id(id).unwrap();
        let log_channel_id = match engine.store.get_guild(t.guild_id) {
            Some(g) => g.log_channel_id,
            None => None,
        };
        notices.push(
            AutoCloseNotice {
                ticket_id: id,
                guild_id: t.guild_id,
                channel_id: t.channel_id,
                ticket_number: t.ticket_number,
                log_channel_id,
            },
        );
        let ghost pre = *engine;
        engine.apply_close(id);
        k = k + 1;
        proof {
            assert(engine.store.escalations_map().dom() =~= pre.store.escalations_map().dom());
            assert forall|tid: u64| #[trigger] engine.store.has_escalation(tid)
                == s0.has_escalation(tid) by {
                assert(engine.store.has_escalation(tid)
                    == engine.store.escalations_map().dom().contains(tid));
                assert(pre.store.has_escalation(tid)
                    == pre.store.escalations_map().dom().contains(tid));
                assert(engine.store.escalations_map().dom().contains(tid)
                    == pre.store.escalations_map().dom().contains(tid));
                assert(pre.store.has_escalation(tid) == s0.has_escalation(tid));
            }
            assert forall|i: int|
                0 <= i < k && engine.store.has_escalation(#[trigger] gids[i]) implies !engine
                .store.escalation(gids[i]).active by {
                let tid = gids[i];
                assert(engine.store.escalation(tid) == engine.store.escalations_map()[tid]);
                if i < k - 1 {
                    assert(tid != id);
                    assert(engine.store.escalations_map()[tid]
                        == pre.store.escalations_map()[tid]);
                    assert(pre.store.has_escalation(tid));
                    assert(pre.store.escalation(tid) == pre.store.escalations_map()[tid]);
                }
            }
            assert(gids.take(k as int).drop_last() == gids.take(k as int - 1));
            assert(gids.take(k as int).last() == gids[k as int - 1]);
            assert(gids.take(k as int).to_set() =~= gids.take(k as int - 1).to_set().insert(id));
            assert(engine.store.tickets_map() =~= s0.tickets_map().remove_keys(
                gids.take(k as int).to_set(),
            ));
            assert(priority_keys_of(gids.take(k as int)) =~= priority_keys_of(
                gids.take(k as int - 1),
            ).insert(LeaseKey::PriorityPing(id)));
            assert(engine.cache.contents() =~= c0.remove_keys(
                priority_keys_of(gids.take(k as int)),
            ));
            lemma_messages_after_closes_snoc(s0.messages@, gids.take(k as int - 1), id);
            assert(gids.take(k as int - 1).push(id) == gids.take(k as int));
        }
    }
    proof {
        assert(gids.take(gids.len() as int) == gids);
        assert forall|i: int| 0 <= i < gids.len() implies !engine.store.has_ticket(
            #[trigger] gids[i],
        ) by {
            assert(gids.contains(gids[i]));
            assert(gids.to_set().contains(gids[i]));
            assert(!engine.store.tickets_map().dom().contains(gids[i]));
            assert(engine.store.has_ticket(gids[i]) == engine.store.tickets_map().dom().contains(
                gids[i],
            ));
        }
    }
    notices
}

/// Deleting one more history after a chain of deletions equals the
/// chain extended by that id.
proof fn lemma_messages_after_closes_snoc(msgs: Seq<StoredMessage>, ids: Seq<u64>, id: u64)
    ensures
        messages_without(messages_after_closes(msgs, ids), id) == messages_after_closes(
            msgs,
            ids.push(id),
        ),
    decreases ids.len(),
{
    if ids.len() == 0 {
        assert(ids.push(id)[0] == id);
        assert(ids.push(id).drop_first() =~= Seq::<u64>::empty());
        assert(messages_after_closes(msgs, ids.push(id)) == messages_after_closes(
            messages_without(msgs, id),
            Seq::<u64>::empty(),
        ));
        assert(messages_after_closes(messages_without(msgs, id), Seq::<u64>::empty())
            == messages_without(msgs, id));
        assert(messages_after_closes(msgs, ids) == msgs);
    } else {
        assert(ids.push(id)[0] == ids[0]);
        assert(ids.push(id).drop_first() =~= ids.drop_first().push(id));
        lemma_messages_after_closes_snoc(messages_without(msgs, ids[0]), ids.drop_first(), id);
        assert(messages_after_closes(msgs, ids.push(id)) == messages_after_closes(
            messages_without(msgs, ids[0]),
            ids.drop_first().push(id),
        ));
        assert(messages_after_closes(msgs, ids) == messages_after_closes(
            messages_without(msgs, ids[0]),
            ids.drop_first(),
        ));
    }
}

} // verus!
