//! The lifecycle engine: the transitions that span the durable store
//! and the lease cache, and the per-wake decision of a ticket's
//! recurring notification task.
//!
//! Claiming and closing are each a single store statement plus
//! best-effort cleanup; setting a priority writes the row, manages the
//! ticket's lease, and hands the caller a schedule request to run.  A
//! running task never receives a cancellation signal: on each wake it
//! re-reads the lease and the ticket and decides from those two
//! presences alone.

use vstd::prelude::*;

use crate::lease::{
    cancel_priority_lease, set_priority_lease, spec_live, LeaseCache, LeaseEntry, LeaseKey,
    LeaseValue, PRIORITY_LEASE_TTL_SECS,
};
use crate::records::{Escalation, Priority, PriorityChoice, Ticket};
use crate::store::{messages_without, support_role_ids, TicketStore};
use crate::table::Keyed;

verus! {

broadcast use crate::table::lemma_tbl_has_dom, crate::table::lemma_tbl_at_map;

/// Why a claim was rejected.
#[derive(Clone, Copy, Debug, PartialEq, Eq, Structural)]
pub enum ClaimError {
    /// The channel is not a ticket channel.
    NotTicketChannel,
    /// The guild has no support roles configured.
    NoSupportRoles,
    /// The caller holds no support role.
    PermissionDenied,
    /// Someone already claimed the ticket (their id is carried).
    AlreadyClaimed(u64),
}

/// Why a close was rejected.
#[derive(Clone, Copy, Debug, PartialEq, Eq, Structural)]
pub enum CloseError {
    /// The channel is not a ticket channel.
    NotTicketChannel,
    /// The caller may not close this ticket.
    PermissionDenied,
}

/// Why a priority change was rejected.
#[derive(Clone, Copy, Debug, PartialEq, Eq, Structural)]
pub enum PriorityError {
    /// The channel is not a ticket channel.
    NotTicketChannel,
}

/// Why an escalation was rejected.
#[derive(Clone, Copy, Debug, PartialEq, Eq, Structural)]
pub enum EscalateError {
    /// The channel is not a ticket channel.
    NotTicketChannel,
    /// The ticket has already received a staff message; escalation is
    /// only for unanswered tickets.
    AlreadyAnswered,
}

/// One notification to send: ping `role_id` in `channel_id` about a
/// ticket at urgency `level`.
#[derive(Clone, Copy, Debug, PartialEq, Eq, Structural)]
pub struct PingRequest {
    pub channel_id: u64,
    pub role_id: u64,
    pub level: Priority,
}

/// A request to run one recurring notification task for a ticket.
#[derive(Clone, Copy, Debug, PartialEq, Eq, Structural)]
pub struct ScheduleRequest {
    pub ticket_id: u64,
    /// Seconds between wakes.
    pub interval_secs: u64,
    /// A ping to send right away, before the first sleep.
    pub immediate_ping: Option<PingRequest>,
}

/// What a priority change did and what the caller should now run.
#[derive(Clone, Copy, Debug, PartialEq, Eq, Structural)]
pub struct PriorityOutcome {
    pub ticket_id: u64,
    /// The level written on the row (`Reset` collapses to `Normal`).
    pub applied: Priority,
    /// `Some` exactly when a recurring task should start.
    pub schedule: Option<ScheduleRequest>,
}

/// What a recurring task does on one wake.
#[derive(Clone, Copy, Debug, PartialEq, Eq, Structural)]
pub enum WakeStep {
    /// The lease is gone (expired or deleted): stop silently.
    Exit,
    /// The ticket is gone: the lease was deleted too; stop.
    ExitTicketGone,
    /// Keep running; send the carried ping if there is one.
    Ping(Option<PingRequest>),
}

/// Seconds between recurring pings at each level.
pub open spec fn spec_ping_interval(level: Priority) -> u64 {
    match level {
        Priority::Low => 7200,
        Priority::Normal => 3600,
        Priority::High => 3600,
        Priority::Urgent => 3600,
    }
}

#[verifier::when_used_as_spec(spec_ping_interval)]
pub fn ping_interval(level: Priority) -> (r: u64)
    ensures
        r == spec_ping_interval(level),
{
    match level {
        Priority::Low => 7200,
        Priority::Normal => 3600,
        Priority::High => 3600,
        Priority::Urgent => 3600,
    }
}

/// Whether a level pings immediately when set (`High` and `Urgent`
/// do; `Low` waits for its first interval).
pub open spec fn spec_pings_immediately(level: Priority) -> bool {
    match level {
        Priority::High | Priority::Urgent => true,
        Priority::Low | Priority::Normal => false,
    }
}

#[verifier::when_used_as_spec(spec_pings_immediately)]
pub fn pings_immediately(level: Priority) -> (r: bool)
    ensures
        r == spec_pings_immediately(level),
{
    match level {
        Priority::High | Priority::Urgent => true,
        Priority::Low | Priority::Normal => false,
    }
}

/// The ping a task sends for ticket `t`: addressed to the guild's
/// configured ping role, or nothing if none is configured.
pub open spec fn spec_ping_for(s: TicketStore, t: Ticket, level: Priority) -> Option<
    PingRequest,
> {
    if s.has_guild(t.guild_id) && s.guild(t.guild_id).ping_role_id is Some {
        Some(
            PingRequest {
                channel_id: t.channel_id,
                role_id: s.guild(t.guild_id).ping_role_id->0,
                level,
            },
        )
    } else {
        None
    }
}

/// The durable store and the lease cache, side by side.  They have no
/// transactional link: every transition below touches each at most
/// once, in separate steps.
pub struct Engine {
    pub store: TicketStore,
    pub cache: LeaseCache,
}

impl Engine {
    pub open spec fn wf(self) -> bool {
        self.store.wf() && self.cache.wf()
    }

    pub fn new() -> (e: Engine)
        ensures
            e.wf(),
            e.store.tickets@.len() == 0,
            e.store.messages@.len() == 0,
            e.store.escalations@.len() == 0,
            e.store.reminders@.len() == 0,
            e.store.guilds@.len() == 0,
            e.store.support_roles@.len() == 0,
            e.store.blacklist@.len() == 0,
            e.store.next_ticket_id == 1,
            e.store.next_reminder_id == 1,
            e.cache.contents() == Map::<LeaseKey, LeaseEntry>::empty(),
    {
        Engine { store: TicketStore::new(), cache: LeaseCache::new() }
    }

    /// What `claim` decides, given the pre-state: the checks run in
    /// the order the command performs them.
    pub open spec fn claim_decision(
        s: TicketStore,
        channel_id: u64,
        claimer_id: u64,
        caller_is_support: bool,
    ) -> Result<u64, ClaimError> {
        if !s.has_channel(channel_id) {
            Err(ClaimError::NotTicketChannel)
        } else {
            let t = s.ticket_by_channel(channel_id);
            if support_role_ids(s.support_roles@, t.guild_id).len() == 0 {
                Err(ClaimError::NoSupportRoles)
            } else if !caller_is_support {
                Err(ClaimError::PermissionDenied)
            } else {
                match t.claimed_by {
                    Some(by) => Err(ClaimError::AlreadyClaimed(by)),
                    None => Ok(t.id),
                }
            }
        }
    }

    /// Claims the ticket living in `channel_id` for `claimer_id`.
    /// The claim check reads the row first and the update is a second
    /// statement; nothing conditions the update on the row still
    /// being unclaimed.  On success any active escalation is
    /// deactivated.  The lease cache is never touched: claiming does
    /// not delete a priority lease — only an explicit reset to
    /// `Normal` does.
    pub fn claim(&mut self, channel_id: u64, claimer_id: u64, caller_is_support: bool) -> (r:
        Result<u64, ClaimError>)
        requires
            old(self).wf(),
        ensures
            final(self).wf(),
            final(self).cache == old(self).cache,
            r == Engine::claim_decision(old(self).store, channel_id, claimer_id, caller_is_support),
            r is Err ==> *final(self) == *old(self),
            r matches Ok(id) ==> {
                &&& old(self).store.has_ticket(id)
                &&& final(self).store.tickets_map() == old(self).store.tickets_map().insert(
                    id,
                    (Ticket { claimed_by: Some(claimer_id), ..old(self).store.ticket(id) }),
                )
                &&& final(self).store.escalations_map() == (if old(self).store.has_escalation(id) {
                    old(self).store.escalations_map().insert(
                        id,
                        (Escalation { active: false, ..old(self).store.escalation(id) }),
                    )
                } else {
                    old(self).store.escalations_map()
                })
                &&& final(self).store.has_escalation(id) ==> !final(self).store.escalation(
                    id,
                ).active
                &&& final(self).store.messages@ == old(self).store.messages@
                &&& final(self).store.reminders@ == old(self).store.reminders@
                &&& final(self).store.guilds@ == old(self).store.guilds@
                &&& final(self).store.support_roles@ == old(self).store.support_roles@
                &&& final(self).store.blacklist@ == old(self).store.blacklist@
            },
    {
        let t = match self.store.get_ticket_by_channel(channel_id) {
            Some(t) => t,
            None => {
                return Err(ClaimError::NotTicketChannel);
            },
        };
        let roles = self.store.get_support_roles(t.guild_id);
        if roles.len() == 0 {
            return Err(ClaimError::NoSupportRoles);
        }
        if !caller_is_support {
            return Err(ClaimError::PermissionDenied);
        }
        match t.claimed_by {
            Some(by) => Err(ClaimError::AlreadyClaimed(by)),
            None => {
                self.store.claim_ticket(t.id, claimer_id);
                self.store.deactivate_escalation(t.id);
                Ok(t.id)
            },
        }
    }

    /// Releases a claim (one row update).
    pub fn unclaim(&mut self, channel_id: u64) -> (r: Option<u64>)
        requires
            old(self).wf(),
        ensures
            final(self).wf(),
            final(self).cache == old(self).cache,
            r == (if old(self).store.has_channel(channel_id) {
                Some(old(self).store.ticket_by_channel(channel_id).id)
            } else {
                None::<u64>
            }),
            r is None ==> *final(self) == *old(self),
            r matches Some(id) ==> final(self).store.tickets_map() == old(self).store.tickets_map().insert(
                id,
                (Ticket { claimed_by: None, ..old(self).store.ticket(id) }),
            ) && final(self).store.eq_outside_tickets(old(self).store),
    {
        match self.store.get_ticket_by_channel(channel_id) {
            Some(t) => {
                self.store.unclaim_ticket(t.id);
                Some(t.id)
            },
            None => None,
        }
    }

    /// The closing transition shared by the close command and the
    /// auto-close sweep: the ticket's lease is deleted, its
    /// escalation deactivated, its message history deleted, and the
    /// row itself deleted.  Afterwards a lookup by this id reports
    /// not-found.  An id whose row is already gone is treated as
    /// already resolved: the cleanup steps run and find nothing.
    pub fn apply_close(&mut self, ticket_id: u64)
        requires
            old(self).wf(),
        ensures
            final(self).wf(),
            final(self).store.tickets_map() == old(self).store.tickets_map().remove(ticket_id),
            !final(self).store.has_ticket(ticket_id),
            final(self).store.messages@ == messages_without(old(self).store.messages@, ticket_id),
            forall|j: int|
                0 <= j < final(self).store.messages@.len() ==> (
                #[trigger] final(self).store.messages@[j]).ticket_id != ticket_id,
            final(self).store.escalations_map() == (if old(self).store.has_escalation(ticket_id) {
                old(self).store.escalations_map().insert(
                    ticket_id,
                    (Escalation { active: false, ..old(self).store.escalation(ticket_id) }),
                )
            } else {
                old(self).store.escalations_map()
            }),
            final(self).store.has_escalation(ticket_id) ==> !final(self).store.escalation(
                ticket_id,
            ).active,
            final(self).cache.contents() == old(self).cache.contents().remove(
                LeaseKey::PriorityPing(ticket_id),
            ),
            final(self).store.reminders@ == old(self).store.reminders@,
            final(self).store.guilds@ == old(self).store.guilds@,
            final(self).store.support_roles@ == old(self).store.support_roles@,
            final(self).store.blacklist@ == old(self).store.blacklist@,
            final(self).store.next_ticket_id == old(self).store.next_ticket_id,
            final(self).store.next_reminder_id == old(self).store.next_reminder_id,
    {
        self.store.delete_ticket_messages(ticket_id);
        cancel_priority_lease(&mut self.cache, ticket_id);
        self.store.deactivate_escalation(ticket_id);
        self.store.remove_ticket(ticket_id);
    }

    /// What `close` decides, given the pre-state.
    pub open spec fn close_decision(s: TicketStore, channel_id: u64, authorized: bool) -> Result<
        Ticket,
        CloseError,
    > {
        if !s.has_channel(channel_id) {
            Err(CloseError::NotTicketChannel)
        } else if !authorized {
            Err(CloseError::PermissionDenied)
        } else {
            Ok(s.ticket_by_channel(channel_id))
        }
    }

    /// Closes the ticket living in `channel_id`.  `authorized` is the
    /// caller's own permission check (owner, administrator or support
    /// role, depending on the entry path).  On success the returned
    /// row holds the data to render a transcript from; the store and
    /// cache are left as `apply_close` describes.
    pub fn close(&mut self, channel_id: u64, authorized: bool) -> (r: Result<Ticket, CloseError>)
        requires
            old(self).wf(),
        ensures
            final(self).wf(),
            r == Engine::close_decision(old(self).store, channel_id, authorized),
            r is Err ==> *final(self) == *old(self),
            r matches Ok(t) ==> {
                &&& old(self).store.has_ticket(t.id)
                &&& final(self).store.tickets_map() == old(self).store.tickets_map().remove(t.id)
                &&& !final(self).store.has_ticket(t.id)
                &&& !final(self).store.has_channel(channel_id)
                &&& final(self).store.messages@ == messages_without(
                    old(self).store.messages@,
                    t.id,
                )
                &&& forall|j: int|
                    0 <= j < final(self).store.messages@.len() ==> (
                    #[trigger] final(self).store.messages@[j]).ticket_id != t.id
                &&& final(self).store.has_escalation(t.id) ==> !final(self).store.escalation(
                    t.id,
                ).active
                &&& final(self).cache.contents() == old(self).cache.contents().remove(
                    LeaseKey::PriorityPing(t.id),
                )
                &&& final(self).store.reminders@ == old(self).store.reminders@
                &&& final(self).store.guilds@ == old(self).store.guilds@
                &&& final(self).store.support_roles@ == old(self).store.support_roles@
                &&& final(self).store.blacklist@ == old(self).store.blacklist@
            },
    {
        let t = match self.store.get_ticket_by_channel(channel_id) {
            Some(t) => t,
            None => {
                return Err(CloseError::NotTicketChannel);
            },
        };
        if !authorized {
            return Err(CloseError::PermissionDenied);
        }
        self.apply_close(t.id);
        proof {
            let cur = *self;
            if cur.store.has_channel(channel_id) {
                let s = cur.store.tickets@;
                let j = crate::store::chan_idx(s, channel_id);
                assert(0 <= j < s.len() && s[j].channel_id == channel_id);
                let x = s[j];
                crate::table::tbl_key_index(s, j, x.id);
                assert(cur.store.tickets_map().dom().contains(x.id));
                assert(x.id != t.id);
                assert(cur.store.tickets_map()[x.id] == x);
                assert(old(self).store.tickets_map().dom().contains(x.id));
                assert(old(self).store.tickets_map()[x.id] == x);
                assert(old(self).store.has_ticket(x.id));
                let sb = old(self).store.tickets@;
                let i0 = crate::table::tbl_idx(sb, x.id);
                assert(0 <= i0 < sb.len() && sb[i0].key() == x.id);
                assert(old(self).store.tickets_map()[x.id] == sb[i0]);
                assert(sb[i0].channel_id == channel_id);
                crate::store::chan_key_index(sb, i0, channel_id);
                assert(t == sb[i0]);
                assert(false);
            }
        }
        Ok(t)
    }

    /// The schedule a priority change requests: `Some` exactly for
    /// the scheduling levels, carrying the cadence of the applied
    /// level and, for `High` and `Urgent`, an immediate ping to the
    /// guild's configured role.
    pub open spec fn priority_schedule(
        s: TicketStore,
        t: Ticket,
        choice: PriorityChoice,
    ) -> Option<ScheduleRequest> {
        if choice.spec_schedules() {
            Some(
                ScheduleRequest {
                    ticket_id: t.id,
                    interval_secs: spec_ping_interval(choice.spec_applied()),
                    immediate_ping: if spec_pings_immediately(choice.spec_applied()) {
                        spec_ping_for(s, t, choice.spec_applied())
                    } else {
                        None
                    },
                },
            )
        } else {
            None
        }
    }

    /// Sets the priority of the ticket living in `channel_id`.
    ///
    /// The level (with `Reset` collapsed to `Normal`) is written on
    /// the row.  For `Low`, `High` and `Urgent` the ticket's lease is
    /// (re)written with a 24-hour time-to-live and the caller is
    /// handed a schedule request: the returned interval and immediate
    /// ping follow the cadence table.  For `Normal` and `Reset` the
    /// lease is deleted and no task starts; an already-running task
    /// sees the missing lease on its next wake and exits.
    pub fn set_priority(&mut self, channel_id: u64, choice: PriorityChoice, now: u64) -> (r:
        Result<PriorityOutcome, PriorityError>)
        requires
            old(self).wf(),
            now + PRIORITY_LEASE_TTL_SECS <= u64::MAX,
        ensures
            final(self).wf(),
            r is Err <==> !old(self).store.has_channel(channel_id),
            r is Err ==> *final(self) == *old(self) && r == Err::<PriorityOutcome, PriorityError>(
                PriorityError::NotTicketChannel,
            ),
            r matches Ok(out) ==> {
                let t = old(self).store.ticket_by_channel(channel_id);
                &&& out.ticket_id == t.id
                &&& out.applied == choice.spec_applied()
                &&& out.schedule == Engine::priority_schedule(old(self).store, t, choice)
                &&& final(self).store.tickets_map() == old(self).store.tickets_map().insert(
                    t.id,
                    (Ticket { priority: Some(choice.spec_applied()), ..t }),
                )
                &&& final(self).store.eq_outside_tickets(old(self).store)
                &&& final(self).store.next_ticket_id == old(self).store.next_ticket_id
                &&& forall|ch: u64| #[trigger] final(self).store.has_channel(ch) == old(self).store.has_channel(ch)
                &&& forall|id2: u64| #[trigger] final(self).store.has_ticket(id2) == old(self).store.has_ticket(id2)
                &&& final(self).store.ticket_by_channel(channel_id) == (Ticket {
                    priority: Some(choice.spec_applied()),
                    ..t
                })
                &&& final(self).cache.contents() == (if choice.spec_schedules() {
                    old(self).cache.contents().insert(
                        LeaseKey::PriorityPing(t.id),
                        (LeaseEntry {
                            key: LeaseKey::PriorityPing(t.id),
                            value: LeaseValue::Priority(choice.spec_applied()),
                            expires_at: (now + PRIORITY_LEASE_TTL_SECS) as u64,
                        }),
                    )
                } else {
                    old(self).cache.contents().remove(LeaseKey::PriorityPing(t.id))
                })
            },
    {
        let t = match self.store.get_ticket_by_channel(channel_id) {
            Some(t) => t,
            None => {
                return Err(PriorityError::NotTicketChannel);
            },
        };
        let applied = choice.applied();
        self.store.set_ticket_priority(t.id, applied);
        if choice.schedules() {
            set_priority_lease(&mut self.cache, t.id, applied, now);
            let immediate = if pings_immediately(applied) {
                match self.store.get_guild(t.guild_id) {
                    Some(g) => match g.ping_role_id {
                        Some(role_id) => Some(
                            PingRequest { channel_id: t.channel_id, role_id, level: applied },
                        ),
                        None => None,
                    },
                    None => None,
                }
            } else {
                None
            };
            Ok(
                PriorityOutcome {
                    ticket_id: t.id,
                    applied,
                    schedule: Some(
                        ScheduleRequest {
                            ticket_id: t.id,
                            interval_secs: ping_interval(applied),
                            immediate_ping: immediate,
                        },
                    ),
                },
            )
        } else {
            cancel_priority_lease(&mut self.cache, t.id);
            Ok(PriorityOutcome { ticket_id: t.id, applied, schedule: None })
        }
    }

    /// One wake of a ticket's recurring notification task.
    ///
    /// The task re-reads only two presences: the lease, then the
    /// ticket.  A missing lease means stop (this is how claim-less
    /// cancellation works); a live lease over a missing ticket means
    /// the ticket was closed, so the task deletes the lease and
    /// stops; otherwise the ping addressed to the guild's configured
    /// role is sent and the task keeps running.  The ticket's claim
    /// status plays no part in the decision.
    pub fn scheduler_wake(&mut self, ticket_id: u64, level: Priority, now: u64) -> (w: WakeStep)
        requires
            old(self).wf(),
        ensures
            final(self).wf(),
            final(self).store == old(self).store,
            !spec_live(old(self).cache.contents(), LeaseKey::PriorityPing(ticket_id), now)
                ==> w == WakeStep::Exit && *final(self) == *old(self),
            spec_live(old(self).cache.contents(), LeaseKey::PriorityPing(ticket_id), now) && !old(self).store.has_ticket(ticket_id) ==> w == WakeStep::ExitTicketGone && final(self).cache.contents() == old(self).cache.contents().remove(
                LeaseKey::PriorityPing(ticket_id),
            ),
            spec_live(old(self).cache.contents(), LeaseKey::PriorityPing(ticket_id), now) && old(self).store.has_ticket(ticket_id) ==> w == WakeStep::Ping(
                spec_ping_for(old(self).store, old(self).store.ticket(ticket_id), level),
            ) && *final(self) == *old(self),
    {
        let lease = self.cache.get(LeaseKey::PriorityPing(ticket_id), now);
        if lease.is_none() {
            return WakeStep::Exit;
        }
        let t = match self.store.get_ticket_by_id(ticket_id) {
            Some(t) => t,
            None => {
                cancel_priority_lease(&mut self.cache, ticket_id);
                return WakeStep::ExitTicketGone;
            },
        };
        let ping = match self.store.get_guild(t.guild_id) {
            Some(g) => match g.ping_role_id {
                Some(role_id) => Some(
                    PingRequest { channel_id: t.channel_id, role_id, level },
                ),
                None => None,
            },
            None => None,
        };
        WakeStep::Ping(ping)
    }

    /// Escalates the ticket living in `channel_id`: only possible
    /// while the ticket has received no staff message.  On success
    /// the ticket's escalation record is (re)opened with its ping
    /// clock at `now`, and the returned row carries what the caller
    /// needs to notify the support team.
    pub fn escalate(&mut self, channel_id: u64, requester_id: u64, now: u64) -> (r: Result<
        Ticket,
        EscalateError,
    >)
        requires
            old(self).wf(),
        ensures
            final(self).wf(),
            final(self).cache == old(self).cache,
            r == (if !old(self).store.has_channel(channel_id) {
                Err::<Ticket, EscalateError>(EscalateError::NotTicketChannel)
            } else if old(self).store.ticket_by_channel(channel_id).has_messages {
                Err::<Ticket, EscalateError>(EscalateError::AlreadyAnswered)
            } else {
                Ok::<Ticket, EscalateError>(old(self).store.ticket_by_channel(channel_id))
            }),
            r is Err ==> *final(self) == *old(self),
            r matches Ok(t) ==> {
                &&& final(self).store.escalations_map() == old(self).store.escalations_map().insert(
                    t.id,
                    (Escalation {
                        ticket_id: t.id,
                        requester_id,
                        active: true,
                        last_ping: now,
                    }),
                )
                &&& final(self).store.eq_outside_escalations(old(self).store)
            },
    {
        let t = match self.store.get_ticket_by_channel(channel_id) {
            Some(t) => t,
            None => {
                return Err(EscalateError::NotTicketChannel);
            },
        };
        if t.has_messages {
            return Err(EscalateError::AlreadyAnswered);
        }
        self.store.create_escalation(t.id, requester_id, now);
        Ok(t)
    }
}

/// Law: the cadence table.  Setting `Urgent` or `High` on a ticket
/// whose guild has a ping role configured requests an immediate ping
/// and one every hour after; setting `Low` requests no immediate ping
/// and one every two hours; `Normal` and `Reset` request no task at
/// all.
pub proof fn lemma_priority_cadence(s: TicketStore, t: Ticket)
    requires
        s.has_guild(t.guild_id),
        s.guild(t.guild_id).ping_role_id is Some,
    ensures
        ({
            let sched = Engine::priority_schedule(s, t, PriorityChoice::Urgent);
            &&& sched matches Some(q)
            &&& q.interval_secs == 3600
            &&& q.immediate_ping matches Some(p)
            &&& p.role_id == s.guild(t.guild_id).ping_role_id->0
            &&& p.channel_id == t.channel_id
        }),
        ({
            let sched = Engine::priority_schedule(s, t, PriorityChoice::High);
            &&& sched matches Some(q)
            &&& q.interval_secs == 3600
            &&& q.immediate_ping is Some
        }),
        ({
            let sched = Engine::priority_schedule(s, t, PriorityChoice::Low);
            &&& sched matches Some(q)
            &&& q.interval_secs == 7200
            &&& q.immediate_ping is None
        }),
        Engine::priority_schedule(s, t, PriorityChoice::Normal) is None,
        Engine::priority_schedule(s, t, PriorityChoice::Reset) is None,
{
}

/// Law: claiming is invisible to a running notification task.  A
/// claim changes only the claimed ticket's `claimed_by` field (and
/// deactivates its escalation); it leaves the lease cache untouched
/// (see `Engine::claim`), every ticket still present, and every field
/// a wake reads — guild, channel, ping role — unchanged.  So the
/// task's next wake takes the same step over the claimed store as it
/// would have over the unclaimed one.
pub proof fn lemma_claim_invisible_to_scheduler(
    s1: TicketStore,
    s2: TicketStore,
    claimed_id: u64,
    claimer_id: u64,
    ticket_id: u64,
    level: Priority,
)
    requires
        s1.wf(),
        s1.has_ticket(claimed_id),
        s2.tickets_map() == s1.tickets_map().insert(
            claimed_id,
            (Ticket { claimed_by: Some(claimer_id), ..s1.ticket(claimed_id) }),
        ),
        s2.guilds@ == s1.guilds@,
    ensures
        s2.tickets_map().dom() =~= s1.tickets_map().dom(),
        s1.has_ticket(ticket_id) ==> spec_ping_for(s2, s2.tickets_map()[ticket_id], level)
            == spec_ping_for(s1, s1.tickets_map()[ticket_id], level),
{
    assert(s2.tickets_map().dom() =~= s1.tickets_map().dom().insert(claimed_id));
    assert(s1.tickets_map().dom().contains(claimed_id));
    if s1.has_ticket(ticket_id) {
        assert(s1.tickets_map().dom().contains(ticket_id));
        let t1 = s1.tickets_map()[ticket_id];
        let t2 = s2.tickets_map()[ticket_id];
        assert(t2.guild_id == t1.guild_id && t2.channel_id == t1.channel_id);
    }
}

} // verus!
