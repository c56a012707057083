//! The durable ticket store: the single source of truth for tickets,
//! their message history, escalations, reminders, guild settings,
//! support-role grants and the blacklist.
//!
//! Each operation mirrors one statement of the backing relational
//! store; no operation spans two statements, so each is individually
//! atomic.  Contracts speak of the tables through their map views
//! (key to record) and of derived listings through sequence
//! recursions.

use vstd::prelude::*;

use crate::records::{
    BlacklistEntry, BlacklistKind, Escalation, GuildConfig, Priority, Reminder, StoredMessage,
    SupportRole, Ticket, TicketStatus,
};
use crate::table::{
    tbl_after_push, tbl_after_remove, tbl_after_update, tbl_at, tbl_find, tbl_has, tbl_idx,
    tbl_key_index, tbl_map, tbl_wf, Keyed,
};

verus! {

/// Why a ticket cannot be created.
#[derive(Clone, Copy, Debug, PartialEq, Eq, Structural)]
pub enum CreateTicketError {
    /// The requester is blacklisted.
    Blacklisted,
    /// The requester already holds the guild's limit of open tickets.
    LimitReached,
}

/// Channel ids must be pairwise distinct among stored tickets: a
/// ticket's channel is created for it and deleted when it closes.
pub open spec fn chan_wf(s: Seq<Ticket>) -> bool {
    forall|i: int, j: int|
        0 <= i < j < s.len() ==> (#[trigger] s[i]).channel_id != (#[trigger] s[j]).channel_id
}

pub open spec fn chan_has(s: Seq<Ticket>, ch: u64) -> bool {
    exists|i: int| 0 <= i < s.len() && (#[trigger] s[i]).channel_id == ch
}

pub open spec fn chan_idx(s: Seq<Ticket>, ch: u64) -> int {
    choose|i: int| 0 <= i < s.len() && (#[trigger] s[i]).channel_id == ch
}

pub open spec fn chan_at(s: Seq<Ticket>, ch: u64) -> Ticket {
    s[chan_idx(s, ch)]
}

/// With distinct channels, any index holding `ch` is the one
/// `chan_idx` picks.
pub proof fn chan_key_index(s: Seq<Ticket>, i: int, ch: u64)
    requires
        chan_wf(s),
        0 <= i < s.len(),
        s[i].channel_id == ch,
    ensures
        chan_has(s, ch),
        chan_idx(s, ch) == i,
        chan_at(s, ch) == s[i],
{
    assert(chan_has(s, ch));
    let j = chan_idx(s, ch);
    assert(0 <= j < s.len() && s[j].channel_id == ch);
    if j < i {
        assert(s[j].channel_id != s[i].channel_id);
    }
    if i < j {
        assert(s[i].channel_id != s[j].channel_id);
    }
}

/// The greatest ticket number among a guild's tickets, `0` if none.
pub open spec fn max_ticket_number(s: Seq<Ticket>, guild_id: u64) -> u64
    decreases s.len(),
{
    if s.len() == 0 {
        0
    } else {
        let m = max_ticket_number(s.drop_last(), guild_id);
        if s.last().guild_id == guild_id && s.last().ticket_number > m {
            s.last().ticket_number
        } else {
            m
        }
    }
}

/// The bound on every ticket number bounds the running maximum too.
pub proof fn lemma_max_ticket_number_bound(s: Seq<Ticket>, guild_id: u64, b: int)
    requires
        b >= 0,
        forall|i: int| 0 <= i < s.len() ==> (#[trigger] s[i]).ticket_number <= b,
    ensures
        max_ticket_number(s, guild_id) <= b,
    decreases s.len(),
{
    if s.len() > 0 {
        assert forall|i: int| 0 <= i < s.drop_last().len() implies (#[trigger] s.drop_last()[i]).ticket_number
            <= b by {
            assert(s.drop_last()[i] == s[i]);
        }
        lemma_max_ticket_number_bound(s.drop_last(), guild_id, b);
        assert(s.last() == s[s.len() - 1]);
    }
}

/// The ids of a user's open tickets in a guild, in store order.
pub open spec fn user_open_ids(s: Seq<Ticket>, guild_id: u64, owner_id: u64) -> Seq<u64>
    decreases s.len(),
{
    if s.len() == 0 {
        Seq::empty()
    } else {
        let rest = user_open_ids(s.drop_last(), guild_id, owner_id);
        let t = s.last();
        if t.guild_id == guild_id && t.owner_id == owner_id && t.spec_is_open() {
            rest.push(t.id)
        } else {
            rest
        }
    }
}

/// The in-memory durable store.
pub struct TicketStore {
    pub tickets: Vec<Ticket>,
    pub messages: Vec<StoredMessage>,
    pub escalations: Vec<Escalation>,
    pub reminders: Vec<Reminder>,
    pub guilds: Vec<GuildConfig>,
    pub support_roles: Vec<SupportRole>,
    pub blacklist: Vec<BlacklistEntry>,
    pub next_ticket_id: u64,
    pub next_reminder_id: u64,
}

impl TicketStore {
    pub open spec fn tickets_map(self) -> Map<u64, Ticket> {
        tbl_map(self.tickets@)
    }

    pub open spec fn has_ticket(self, id: u64) -> bool {
        tbl_has(self.tickets@, id)
    }

    pub open spec fn ticket(self, id: u64) -> Ticket {
        tbl_at(self.tickets@, id)
    }

    pub open spec fn has_channel(self, channel_id: u64) -> bool {
        chan_has(self.tickets@, channel_id)
    }

    pub open spec fn ticket_by_channel(self, channel_id: u64) -> Ticket {
        chan_at(self.tickets@, channel_id)
    }

    pub open spec fn escalations_map(self) -> Map<u64, Escalation> {
        tbl_map(self.escalations@)
    }

    pub open spec fn has_escalation(self, ticket_id: u64) -> bool {
        tbl_has(self.escalations@, ticket_id)
    }

    pub open spec fn escalation(self, ticket_id: u64) -> Escalation {
        tbl_at(self.escalations@, ticket_id)
    }

    pub open spec fn reminders_map(self) -> Map<u64, Reminder> {
        tbl_map(self.reminders@)
    }

    pub open spec fn has_reminder(self, id: u64) -> bool {
        tbl_has(self.reminders@, id)
    }

    pub open spec fn reminder(self, id: u64) -> Reminder {
        tbl_at(self.reminders@, id)
    }

    pub open spec fn guilds_map(self) -> Map<u64, GuildConfig> {
        tbl_map(self.guilds@)
    }

    pub open spec fn has_guild(self, guild_id: u64) -> bool {
        tbl_has(self.guilds@, guild_id)
    }

    pub open spec fn guild(self, guild_id: u64) -> GuildConfig {
        tbl_at(self.guilds@, guild_id)
    }

    /// Whether `target_id` is blacklisted as `kind`.
    pub open spec fn spec_is_blacklisted(self, target_id: u64, kind: BlacklistKind) -> bool {
        exists|i: int|
            0 <= i < self.blacklist@.len() && (#[trigger] self.blacklist@[i]).target_id
                == target_id && self.blacklist@[i].kind == kind
    }

    /// Well-formedness: unique keys per table, distinct channels, and
    /// id counters ahead of every stored id.
    pub open spec fn wf(self) -> bool {
        &&& self.next_ticket_id >= 1
        &&& self.next_reminder_id >= 1
        &&& tbl_wf(self.tickets@)
        &&& chan_wf(self.tickets@)
        &&& tbl_wf(self.escalations@)
        &&& tbl_wf(self.reminders@)
        &&& tbl_wf(self.guilds@)
        &&& forall|i: int|
            0 <= i < self.tickets@.len() ==> (#[trigger] self.tickets@[i]).id
                < self.next_ticket_id
        &&& forall|i: int|
            0 <= i < self.tickets@.len() ==> (#[trigger] self.tickets@[i]).ticket_number
                < self.next_ticket_id
        &&& forall|i: int|
            0 <= i < self.reminders@.len() ==> (#[trigger] self.reminders@[i]).id
                < self.next_reminder_id
    }

    /// Everything but the ticket table is the same in both states.
    pub open spec fn eq_outside_tickets(self, o: TicketStore) -> bool {
        &&& self.messages@ == o.messages@
        &&& self.escalations@ == o.escalations@
        &&& self.reminders@ == o.reminders@
        &&& self.guilds@ == o.guilds@
        &&& self.support_roles@ == o.support_roles@
        &&& self.blacklist@ == o.blacklist@
        &&& self.next_reminder_id == o.next_reminder_id
    }

    /// Everything but the escalation table is the same in both states.
    pub open spec fn eq_outside_escalations(self, o: TicketStore) -> bool {
        &&& self.tickets@ == o.tickets@
        &&& self.messages@ == o.messages@
        &&& self.reminders@ == o.reminders@
        &&& self.guilds@ == o.guilds@
        &&& self.support_roles@ == o.support_roles@
        &&& self.blacklist@ == o.blacklist@
        &&& self.next_ticket_id == o.next_ticket_id
        &&& self.next_reminder_id == o.next_reminder_id
    }

    /// Everything but the reminder table is the same in both states.
    pub open spec fn eq_outside_reminders(self, o: TicketStore) -> bool {
        &&& self.tickets@ == o.tickets@
        &&& self.messages@ == o.messages@
        &&& self.escalations@ == o.escalations@
        &&& self.guilds@ == o.guilds@
        &&& self.support_roles@ == o.support_roles@
        &&& self.blacklist@ == o.blacklist@
        &&& self.next_ticket_id == o.next_ticket_id
    }

    /// Everything but the support-role table is the same in both
    /// states.
    pub open spec fn eq_outside_support_roles(self, o: TicketStore) -> bool {
        &&& self.tickets@ == o.tickets@
        &&& self.messages@ == o.messages@
        &&& self.escalations@ == o.escalations@
        &&& self.reminders@ == o.reminders@
        &&& self.guilds@ == o.guilds@
        &&& self.blacklist@ == o.blacklist@
        &&& self.next_ticket_id == o.next_ticket_id
        &&& self.next_reminder_id == o.next_reminder_id
    }

    /// Everything but the blacklist is the same in both states.
    pub open spec fn eq_outside_blacklist(self, o: TicketStore) -> bool {
        &&& self.tickets@ == o.tickets@
        &&& self.messages@ == o.messages@
        &&& self.escalations@ == o.escalations@
        &&& self.reminders@ == o.reminders@
        &&& self.guilds@ == o.guilds@
        &&& self.support_roles@ == o.support_roles@
        &&& self.next_ticket_id == o.next_ticket_id
        &&& self.next_reminder_id == o.next_reminder_id
    }

    /// Everything but the guild table is the same in both states.
    pub open spec fn eq_outside_guilds(self, o: TicketStore) -> bool {
        &&& self.tickets@ == o.tickets@
        &&& self.messages@ == o.messages@
        &&& self.escalations@ == o.escalations@
        &&& self.reminders@ == o.reminders@
        &&& self.support_roles@ == o.support_roles@
        &&& self.blacklist@ == o.blacklist@
        &&& self.next_ticket_id == o.next_ticket_id
        &&& self.next_reminder_id == o.next_reminder_id
    }

    /// An empty store.
    pub fn new() -> (s: TicketStore)
        ensures
            s.wf(),
            s.tickets@.len() == 0,
            s.messages@.len() == 0,
            s.escalations@.len() == 0,
            s.reminders@.len() == 0,
            s.guilds@.len() == 0,
            s.support_roles@.len() == 0,
            s.blacklist@.len() == 0,
            s.next_ticket_id == 1,
            s.next_reminder_id == 1,
    {
        TicketStore {
            tickets: Vec::new(),
            messages: Vec::new(),
            escalations: Vec::new(),
            reminders: Vec::new(),
            guilds: Vec::new(),
            support_roles: Vec::new(),
            blacklist: Vec::new(),
            next_ticket_id: 1,
            next_reminder_id: 1,
        }
    }

    /// The ticket carrying `id`, if any.
    pub fn get_ticket_by_id(&self, id: u64) -> (r: Option<Ticket>)
        requires
            self.wf(),
        ensures
            r == (if self.has_ticket(id) {
                Some(self.ticket(id))
            } else {
                None::<Ticket>
            }),
    {
        match tbl_find(&self.tickets, id) {
            Some(i) => Some(self.tickets[i]),
            None => None,
        }
    }

    /// The ticket whose conversation channel is `channel_id`, if any.
    pub fn get_ticket_by_channel(&self, channel_id: u64) -> (r: Option<Ticket>)
        requires
            self.wf(),
        ensures
            r == (if self.has_channel(channel_id) {
                Some(self.ticket_by_channel(channel_id))
            } else {
                None::<Ticket>
            }),
            r matches Some(t) ==> self.has_ticket(t.id) && self.ticket(t.id) == t,
    {
        let mut i: usize = 0;
        while i < self.tickets.len()
            invariant
                self.wf(),
                i <= self.tickets@.len(),
                forall|j: int| 0 <= j < i ==> (#[trigger] self.tickets@[j]).channel_id
                    != channel_id,
            decreases self.tickets@.len() - i,
        {
            if self.tickets[i].channel_id == channel_id {
                proof {
                    chan_key_index(self.tickets@, i as int, channel_id);
                    tbl_key_index(self.tickets@, i as int, self.tickets@[i as int].id);
                }
                return Some(self.tickets[i]);
            }
            i = i + 1;
        }
        None
    }

    /// The next ticket number for a guild: one more than the greatest
    /// number any of the guild's stored tickets carries.  This is a
    /// plain read; nothing reserves the number, so two callers that
    /// read the same state are handed the same number.
    pub fn next_ticket_number(&self, guild_id: u64) -> (n: u64)
        requires
            self.wf(),
            self.next_ticket_id < u64::MAX,
        ensures
            n == max_ticket_number(self.tickets@, guild_id) + 1,
    {
        proof {
            lemma_max_ticket_number_bound(self.tickets@, guild_id, self.next_ticket_id as int);
        }
        let mut m: u64 = 0;
        let mut i: usize = 0;
        while i < self.tickets.len()
            invariant
                self.wf(),
                i <= self.tickets@.len(),
                m == max_ticket_number(self.tickets@.take(i as int), guild_id),
                m <= self.next_ticket_id,
            decreases self.tickets@.len() - i,
        {
            let t = self.tickets[i];
            proof {
                assert(self.tickets@.take(i as int + 1).drop_last() == self.tickets@.take(
                    i as int,
                ));
                assert(self.tickets@.take(i as int + 1).last() == self.tickets@[i as int]);
            }
            if t.guild_id == guild_id && t.ticket_number > m {
                m = t.ticket_number;
            }
            i = i + 1;
        }
        proof {
            assert(self.tickets@.take(self.tickets@.len() as int) == self.tickets@);
        }
        m + 1
    }

    /// The ids of `owner_id`'s open tickets in `guild_id`.
    pub fn user_open_ticket_ids(&self, guild_id: u64, owner_id: u64) -> (r: Vec<u64>)
        requires
            self.wf(),
        ensures
            r@ == user_open_ids(self.tickets@, guild_id, owner_id),
    {
        let mut r: Vec<u64> = Vec::new();
        let mut i: usize = 0;
        while i < self.tickets.len()
            invariant
                self.wf(),
                i <= self.tickets@.len(),
                r@ == user_open_ids(self.tickets@.take(i as int), guild_id, owner_id),
            decreases self.tickets@.len() - i,
        {
            let t = self.tickets[i];
            proof {
                assert(self.tickets@.take(i as int + 1).drop_last() == self.tickets@.take(
                    i as int,
                ));
                assert(self.tickets@.take(i as int + 1).last() == self.tickets@[i as int]);
            }
            if t.guild_id == guild_id && t.owner_id == owner_id && t.is_open() {
                r.push(t.id);
            }
            i = i + 1;
        }
        proof {
            assert(self.tickets@.take(self.tickets@.len() as int) == self.tickets@);
        }
        r
    }

    /// Whether `target_id` is blacklisted as `kind`.
    pub fn is_blacklisted(&self, target_id: u64, kind: BlacklistKind) -> (r: bool)
        ensures
            r == self.spec_is_blacklisted(target_id, kind),
    {
        let mut i: usize = 0;
        while i < self.blacklist.len()
            invariant
                i <= self.blacklist@.len(),
                forall|j: int|
                    0 <= j < i ==> !((#[trigger] self.blacklist@[j]).target_id == target_id
                        && self.blacklist@[j].kind == kind),
            decreases self.blacklist@.len() - i,
        {
            let e = self.blacklist[i];
            if e.target_id == target_id && e.kind == kind {
                return true;
            }
            i = i + 1;
        }
        false
    }

    /// The guild's open-ticket allowance per user (`1` unless
    /// configured otherwise).
    pub open spec fn spec_ticket_limit(g: GuildConfig) -> u32 {
        match g.ticket_limit_per_user {
            Some(l) => l,
            None => 1,
        }
    }

    /// Whether `createTicket` would be allowed for `owner_id` right
    /// now: the requester must not be blacklisted and must hold fewer
    /// open tickets than the guild's limit.
    pub fn can_create_ticket(&self, guild_id: u64, owner_id: u64) -> (r: Result<
        (),
        CreateTicketError,
    >)
        requires
            self.wf(),
            self.has_guild(guild_id),
        ensures
            r == (if self.spec_is_blacklisted(owner_id, BlacklistKind::User) {
                Err::<(), CreateTicketError>(CreateTicketError::Blacklisted)
            } else if user_open_ids(self.tickets@, guild_id, owner_id).len()
                >= TicketStore::spec_ticket_limit(self.guild(guild_id)) {
                Err::<(), CreateTicketError>(CreateTicketError::LimitReached)
            } else {
                Ok::<(), CreateTicketError>(())
            }),
    {
        if self.is_blacklisted(owner_id, BlacklistKind::User) {
            return Err(CreateTicketError::Blacklisted);
        }
        let open = self.user_open_ticket_ids(guild_id, owner_id);
        let g = match tbl_find(&self.guilds, guild_id) {
            Some(i) => self.guilds[i],
            None => {
                proof {
                    assert(false);
                }
                GuildConfig::fresh(guild_id)
            },
        };
        let limit: u32 = match g.ticket_limit_per_user {
            Some(l) => l,
            None => 1,
        };
        if open.len() >= limit as usize {
            return Err(CreateTicketError::LimitReached);
        }
        Ok(())
    }

    /// Inserts a fresh ticket row with the given number, minting its
    /// id.  The number is taken as an argument because it was read in
    /// a separate, earlier statement (see `next_ticket_number`).
    pub fn insert_ticket(
        &mut self,
        guild_id: u64,
        channel_id: u64,
        owner_id: u64,
        category_id: Option<u64>,
        ticket_number: u64,
        now: u64,
    ) -> (t: Ticket)
        requires
            old(self).wf(),
            old(self).next_ticket_id < u64::MAX,
            ticket_number <= old(self).next_ticket_id,
            !old(self).has_channel(channel_id),
        ensures
            final(self).wf(),
            t == (Ticket {
                id: old(self).next_ticket_id,
                guild_id,
                channel_id,
                ticket_number,
                owner_id,
                category_id,
                claimed_by: None,
                assigned_to: None,
                status: TicketStatus::Open,
                priority: None,
                created_at: now,
                closed_at: None,
                last_activity: now,
                opening_message_id: None,
                has_messages: false,
            }),
            final(self).tickets_map() == old(self).tickets_map().insert(t.id, t),
            final(self).next_ticket_id == old(self).next_ticket_id + 1,
            final(self).eq_outside_tickets(*old(self)),
            !old(self).has_ticket(t.id),
            final(self).tickets@ == old(self).tickets@.push(t),
    {
        let t = Ticket {
            id: self.next_ticket_id,
            guild_id,
            channel_id,
            ticket_number,
            owner_id,
            category_id,
            claimed_by: None,
            assigned_to: None,
            status: TicketStatus::Open,
            priority: None,
            created_at: now,
            closed_at: None,
            last_activity: now,
            opening_message_id: None,
            has_messages: false,
        };
        let ghost sb = self.tickets@;
        proof {
            if tbl_has(sb, t.id) {
                let j = tbl_idx(sb, t.id);
                assert(0 <= j < sb.len() && sb[j].key() == t.id);
            }
        }
        self.tickets.push(t);
        self.next_ticket_id = self.next_ticket_id + 1;
        proof {
            tbl_after_push(sb, t, self.tickets@);
            let sa = self.tickets@;
            assert forall|p: int, q: int| 0 <= p < q < sa.len() implies (#[trigger] sa[p]).channel_id
                != (#[trigger] sa[q]).channel_id by {
                if q < sb.len() {
                    assert(sa[p] == sb[p]);
                    assert(sa[q] == sb[q]);
                } else {
                    assert(sa[p] == sb[p]);
                    assert(sa[q] == t);
                    if sb[p].channel_id == channel_id {
                        assert(chan_has(sb, channel_id));
                        assert(false);
                    }
                }
            }
        }
        t
    }

    /// The full `createTicket` operation: reject a blacklisted or
    /// over-limit requester, then insert a row numbered one past the
    /// guild's current maximum.  On rejection nothing changes.
    pub fn create_ticket(
        &mut self,
        guild_id: u64,
        channel_id: u64,
        owner_id: u64,
        category_id: Option<u64>,
        now: u64,
    ) -> (r: Result<Ticket, CreateTicketError>)
        requires
            old(self).wf(),
            old(self).has_guild(guild_id),
            old(self).next_ticket_id < u64::MAX,
            !old(self).has_channel(channel_id),
        ensures
            final(self).wf(),
            r matches Err(e) ==> *final(self) == *old(self) && (e == CreateTicketError::Blacklisted
                <==> old(self).spec_is_blacklisted(owner_id, BlacklistKind::User)) && (e
                == CreateTicketError::LimitReached ==> user_open_ids(
                old(self).tickets@,
                guild_id,
                owner_id,
            ).len() >= TicketStore::spec_ticket_limit(old(self).guild(guild_id))),
            r is Err <==> (old(self).spec_is_blacklisted(owner_id, BlacklistKind::User)
                || user_open_ids(old(self).tickets@, guild_id, owner_id).len()
                >= TicketStore::spec_ticket_limit(old(self).guild(guild_id))),
            r matches Ok(t) ==> {
                &&& t == (Ticket {
                    id: old(self).next_ticket_id,
                    guild_id,
                    channel_id,
                    ticket_number: (max_ticket_number(old(self).tickets@, guild_id) + 1) as u64,
                    owner_id,
                    category_id,
                    claimed_by: None,
                    assigned_to: None,
                    status: TicketStatus::Open,
                    priority: None,
                    created_at: now,
                    closed_at: None,
                    last_activity: now,
                    opening_message_id: None,
                    has_messages: false,
                })
                &&& final(self).tickets_map() == old(self).tickets_map().insert(t.id, t)
                &&& final(self).next_ticket_id == old(self).next_ticket_id + 1
                &&& final(self).eq_outside_tickets(*old(self))
                &&& final(self).tickets@ == old(self).tickets@.push(t)
            },
    {
        match self.can_create_ticket(guild_id, owner_id) {
            Err(e) => Err(e),
            Ok(()) => {
                let n = self.next_ticket_number(guild_id);
                proof {
                    lemma_max_ticket_number_bound(
                        self.tickets@,
                        guild_id,
                        self.next_ticket_id - 1,
                    );
                }
                Ok(self.insert_ticket(guild_id, channel_id, owner_id, category_id, n, now))
            },
        }
    }

    /// Replaces the row of `ticket_id` by `e`, which must keep the
    /// row's identity (id, channel, number).
    fn put_ticket(&mut self, ticket_id: u64, e: Ticket)
        requires
            old(self).wf(),
            old(self).has_ticket(ticket_id),
            e.id == ticket_id,
            e.channel_id == old(self).ticket(ticket_id).channel_id,
            e.ticket_number == old(self).ticket(ticket_id).ticket_number,
        ensures
            final(self).wf(),
            final(self).tickets_map() == old(self).tickets_map().insert(ticket_id, e),
            final(self).eq_outside_tickets(*old(self)),
            final(self).next_ticket_id == old(self).next_ticket_id,
            forall|ch: u64| #[trigger] final(self).has_channel(ch) == old(self).has_channel(ch),
            forall|id2: u64| #[trigger] final(self).has_ticket(id2) == old(self).has_ticket(id2),
            forall|ch: u64|
                old(self).has_channel(ch) ==> #[trigger] final(self).ticket_by_channel(ch) == (
                if old(self).ticket_by_channel(ch).id == ticket_id {
                    e
                } else {
                    old(self).ticket_by_channel(ch)
                }),
    {
        match tbl_find(&self.tickets, ticket_id) {
            Some(i) => {
                let ghost sb = self.tickets@;
                self.tickets[i] = e;
                proof {
                    tbl_key_index(sb, i as int, ticket_id);
                    tbl_after_update(sb, i as int, e, self.tickets@);
                    let sa = self.tickets@;
                    assert forall|p: int, q: int| 0 <= p < q < sa.len() implies (
                    #[trigger] sa[p]).channel_id != (#[trigger] sa[q]).channel_id by {
                        assert(sa[p].channel_id == sb[p].channel_id);
                        assert(sa[q].channel_id == sb[q].channel_id);
                        assert(sb[p].channel_id != sb[q].channel_id);
                    }
                    assert forall|p: int| 0 <= p < sa.len() implies (#[trigger] sa[p]).id
                        < self.next_ticket_id && sa[p].ticket_number < self.next_ticket_id by {
                        if p != i {
                            assert(sa[p] == sb[p]);
                        }
                    }
                    assert forall|ch: u64| #[trigger] chan_has(sa, ch) == chan_has(sb, ch) by {
                        if chan_has(sa, ch) {
                            let j = chan_idx(sa, ch);
                            assert(0 <= j < sa.len() && sa[j].channel_id == ch);
                            assert(sb[j].channel_id == ch);
                            assert(chan_has(sb, ch));
                        }
                        if chan_has(sb, ch) {
                            let j = chan_idx(sb, ch);
                            assert(0 <= j < sb.len() && sb[j].channel_id == ch);
                            assert(sa[j].channel_id == ch);
                            assert(chan_has(sa, ch));
                        }
                    }
                    assert forall|id2: u64| #[trigger] tbl_has(sa, id2) == tbl_has(sb, id2) by {
                        if tbl_has(sa, id2) {
                            let j = tbl_idx(sa, id2);
                            assert(0 <= j < sa.len() && sa[j].key() == id2);
                            assert(sb[j].key() == id2);
                            assert(tbl_has(sb, id2));
                        }
                        if tbl_has(sb, id2) {
                            let j = tbl_idx(sb, id2);
                            assert(0 <= j < sb.len() && sb[j].key() == id2);
                            assert(sa[j].key() == id2);
                            assert(tbl_has(sa, id2));
                        }
                    }
                    assert forall|ch: u64| chan_has(sb, ch) implies #[trigger] chan_at(sa, ch) == (
                    if chan_at(sb, ch).id == ticket_id {
                        e
                    } else {
                        chan_at(sb, ch)
                    }) by {
                        let j = chan_idx(sb, ch);
                        assert(0 <= j < sb.len() && sb[j].channel_id == ch);
                        assert(sa[j].channel_id == ch);
                        chan_key_index(sa, j, ch);
                        if j == i {
                            assert(sb[j].key() == ticket_id);
                            assert(chan_at(sb, ch).id == ticket_id);
                            assert(sa[j] == e);
                        } else {
                            assert(sb[j].key() != sb[i as int].key());
                            assert(chan_at(sb, ch).id != ticket_id);
                            assert(sa[j] == sb[j]);
                        }
                    }
                }
            },
            None => {
                proof {
                    assert(false);
                }
            },
        }
    }

    /// Marks the ticket claimed by `claimer_id` (one row update; any
    /// earlier claim check was a separate read).
    pub fn claim_ticket(&mut self, ticket_id: u64, claimer_id: u64)
        requires
            old(self).wf(),
            old(self).has_ticket(ticket_id),
        ensures
            final(self).wf(),
            final(self).tickets_map() == old(self).tickets_map().insert(
                ticket_id,
                (Ticket { claimed_by: Some(claimer_id), ..old(self).ticket(ticket_id) }),
            ),
            final(self).eq_outside_tickets(*old(self)),
            final(self).next_ticket_id == old(self).next_ticket_id,
            forall|ch: u64| #[trigger] final(self).has_channel(ch) == old(self).has_channel(ch),
            forall|id2: u64| #[trigger] final(self).has_ticket(id2) == old(self).has_ticket(id2),
            forall|ch: u64|
                old(self).has_channel(ch) ==> #[trigger] final(self).ticket_by_channel(ch) == (
                if old(self).ticket_by_channel(ch).id == ticket_id {
                    final(self).tickets_map()[ticket_id]
                } else {
                    old(self).ticket_by_channel(ch)
                }),
    {
        let t = self.get_ticket_by_id(ticket_id).unwrap();
        self.put_ticket(ticket_id, Ticket { claimed_by: Some(claimer_id), ..t });
    }

    /// Clears the ticket's claimant.
    pub fn unclaim_ticket(&mut self, ticket_id: u64)
        requires
            old(self).wf(),
            old(self).has_ticket(ticket_id),
        ensures
            final(self).wf(),
            final(self).tickets_map() == old(self).tickets_map().insert(
                ticket_id,
                (Ticket { claimed_by: None, ..old(self).ticket(ticket_id) }),
            ),
            final(self).eq_outside_tickets(*old(self)),
            final(self).next_ticket_id == old(self).next_ticket_id,
            forall|ch: u64| #[trigger] final(self).has_channel(ch) == old(self).has_channel(ch),
            forall|id2: u64| #[trigger] final(self).has_ticket(id2) == old(self).has_ticket(id2),
            forall|ch: u64|
                old(self).has_channel(ch) ==> #[trigger] final(self).ticket_by_channel(ch) == (
                if old(self).ticket_by_channel(ch).id == ticket_id {
                    final(self).tickets_map()[ticket_id]
                } else {
                    old(self).ticket_by_channel(ch)
                }),
    {
        let t = self.get_ticket_by_id(ticket_id).unwrap();
        self.put_ticket(ticket_id, Ticket { claimed_by: None, ..t });
    }

    /// Sets or clears the ticket's assignee.
    pub fn assign_ticket(&mut self, ticket_id: u64, assignee: Option<u64>)
        requires
            old(self).wf(),
            old(self).has_ticket(ticket_id),
        ensures
            final(self).wf(),
            final(self).tickets_map() == old(self).tickets_map().insert(
                ticket_id,
                (Ticket { assigned_to: assignee, ..old(self).ticket(ticket_id) }),
            ),
            final(self).eq_outside_tickets(*old(self)),
            final(self).next_ticket_id == old(self).next_ticket_id,
            forall|ch: u64| #[trigger] final(self).has_channel(ch) == old(self).has_channel(ch),
            forall|id2: u64| #[trigger] final(self).has_ticket(id2) == old(self).has_ticket(id2),
            forall|ch: u64|
                old(self).has_channel(ch) ==> #[trigger] final(self).ticket_by_channel(ch) == (
                if old(self).ticket_by_channel(ch).id == ticket_id {
                    final(self).tickets_map()[ticket_id]
                } else {
                    old(self).ticket_by_channel(ch)
                }),
    {
        let t = self.get_ticket_by_id(ticket_id).unwrap();
        self.put_ticket(ticket_id, Ticket { assigned_to: assignee, ..t });
    }

    /// Writes the ticket's priority level (the row update of a
    /// priority command; lease and task handling sit above).
    pub fn set_ticket_priority(&mut self, ticket_id: u64, level: Priority)
        requires
            old(self).wf(),
            old(self).has_ticket(ticket_id),
        ensures
            final(self).wf(),
            final(self).tickets_map() == old(self).tickets_map().insert(
                ticket_id,
                (Ticket { priority: Some(level), ..old(self).ticket(ticket_id) }),
            ),
            final(self).eq_outside_tickets(*old(self)),
            final(self).next_ticket_id == old(self).next_ticket_id,
            forall|ch: u64| #[trigger] final(self).has_channel(ch) == old(self).has_channel(ch),
            forall|id2: u64| #[trigger] final(self).has_ticket(id2) == old(self).has_ticket(id2),
            forall|ch: u64|
                old(self).has_channel(ch) ==> #[trigger] final(self).ticket_by_channel(ch) == (
                if old(self).ticket_by_channel(ch).id == ticket_id {
                    final(self).tickets_map()[ticket_id]
                } else {
                    old(self).ticket_by_channel(ch)
                }),
    {
        let t = self.get_ticket_by_id(ticket_id).unwrap();
        self.put_ticket(ticket_id, Ticket { priority: Some(level), ..t });
    }

    /// Raises the has-received-staff-message flag.
    pub fn mark_ticket_has_messages(&mut self, ticket_id: u64)
        requires
            old(self).wf(),
            old(self).has_ticket(ticket_id),
        ensures
            final(self).wf(),
            final(self).tickets_map() == old(self).tickets_map().insert(
                ticket_id,
                (Ticket { has_messages: true, ..old(self).ticket(ticket_id) }),
            ),
            final(self).eq_outside_tickets(*old(self)),
            final(self).next_ticket_id == old(self).next_ticket_id,
            forall|ch: u64| #[trigger] final(self).has_channel(ch) == old(self).has_channel(ch),
            forall|id2: u64| #[trigger] final(self).has_ticket(id2) == old(self).has_ticket(id2),
            forall|ch: u64|
                old(self).has_channel(ch) ==> #[trigger] final(self).ticket_by_channel(ch) == (
                if old(self).ticket_by_channel(ch).id == ticket_id {
                    final(self).tickets_map()[ticket_id]
                } else {
                    old(self).ticket_by_channel(ch)
                }),
    {
        let t = self.get_ticket_by_id(ticket_id).unwrap();
        self.put_ticket(ticket_id, Ticket { has_messages: true, ..t });
    }

    /// Records activity on the ticket at instant `now`.
    pub fn touch_ticket_activity(&mut self, ticket_id: u64, now: u64)
        requires
            old(self).wf(),
            old(self).has_ticket(ticket_id),
        ensures
            final(self).wf(),
            final(self).tickets_map() == old(self).tickets_map().insert(
                ticket_id,
                (Ticket { last_activity: now, ..old(self).ticket(ticket_id) }),
            ),
            final(self).eq_outside_tickets(*old(self)),
            final(self).next_ticket_id == old(self).next_ticket_id,
            forall|ch: u64| #[trigger] final(self).has_channel(ch) == old(self).has_channel(ch),
            forall|id2: u64| #[trigger] final(self).has_ticket(id2) == old(self).has_ticket(id2),
            forall|ch: u64|
                old(self).has_channel(ch) ==> #[trigger] final(self).ticket_by_channel(ch) == (
                if old(self).ticket_by_channel(ch).id == ticket_id {
                    final(self).tickets_map()[ticket_id]
                } else {
                    old(self).ticket_by_channel(ch)
                }),
    {
        let t = self.get_ticket_by_id(ticket_id).unwrap();
        self.put_ticket(ticket_id, Ticket { last_activity: now, ..t });
    }

    /// Records which platform message opened the ticket (written once
    /// the welcome message has been posted).
    pub fn set_ticket_opening_message(&mut self, ticket_id: u64, message_id: u64)
        requires
            old(self).wf(),
            old(self).has_ticket(ticket_id),
        ensures
            final(self).wf(),
            final(self).tickets_map() == old(self).tickets_map().insert(
                ticket_id,
                (Ticket { opening_message_id: Some(message_id), ..old(self).ticket(ticket_id) }),
            ),
            final(self).eq_outside_tickets(*old(self)),
            final(self).next_ticket_id == old(self).next_ticket_id,
            forall|ch: u64| #[trigger] final(self).has_channel(ch) == old(self).has_channel(ch),
            forall|id2: u64| #[trigger] final(self).has_ticket(id2) == old(self).has_ticket(id2),
            forall|ch: u64|
                old(self).has_channel(ch) ==> #[trigger] final(self).ticket_by_channel(ch) == (
                if old(self).ticket_by_channel(ch).id == ticket_id {
                    final(self).tickets_map()[ticket_id]
                } else {
                    old(self).ticket_by_channel(ch)
                }),
    {
        let t = self.get_ticket_by_id(ticket_id).unwrap();
        self.put_ticket(ticket_id, Ticket { opening_message_id: Some(message_id), ..t });
    }

    /// Deletes the ticket row outright.  Closing is not a soft
    /// delete: afterwards a lookup by this id reports not-found.
    /// Deleting an id that no longer exists is a quiet no-op — a
    /// missing row means the ticket is already resolved.
    pub fn remove_ticket(&mut self, ticket_id: u64)
        requires
            old(self).wf(),
        ensures
            final(self).wf(),
            final(self).tickets_map() == old(self).tickets_map().remove(ticket_id),
            !final(self).has_ticket(ticket_id),
            final(self).eq_outside_tickets(*old(self)),
            final(self).next_ticket_id == old(self).next_ticket_id,
            !old(self).has_ticket(ticket_id) ==> *final(self) == *old(self),
            old(self).has_ticket(ticket_id) ==> !final(self).has_channel(
                old(self).ticket(ticket_id).channel_id,
            ),
            forall|ch: u64|
                !(old(self).has_ticket(ticket_id) && ch == old(self).ticket(
                    ticket_id,
                ).channel_id) ==> #[trigger] final(self).has_channel(ch) == old(self).has_channel(
                    ch,
                ),
            forall|id2: u64|
                id2 != ticket_id ==> #[trigger] final(self).has_ticket(id2) == old(self).has_ticket(id2),
    {
        match tbl_find(&self.tickets, ticket_id) {
            Some(i) => {
                let ghost sb = self.tickets@;
                self.tickets.remove(i);
                proof {
                    tbl_after_remove(sb, i as int, ticket_id, self.tickets@);
                    let sa = self.tickets@;
                    assert forall|p: int, q: int| 0 <= p < q < sa.len() implies (
                    #[trigger] sa[p]).channel_id != (#[trigger] sa[q]).channel_id by {
                        let p0 = if p < i {
                            p
                        } else {
                            p + 1
                        };
                        let q0 = if q < i {
                            q
                        } else {
                            q + 1
                        };
                        assert(sa[p] == sb[p0]);
                        assert(sa[q] == sb[q0]);
                        assert(sb[p0].channel_id != sb[q0].channel_id);
                    }
                    assert forall|p: int| 0 <= p < sa.len() implies (#[trigger] sa[p]).id
                        < self.next_ticket_id && sa[p].ticket_number < self.next_ticket_id by {
                        let p0 = if p < i {
                            p
                        } else {
                            p + 1
                        };
                        assert(sa[p] == sb[p0]);
                    }
                    assert(!tbl_has(sa, ticket_id));
                    tbl_key_index(sb, i as int, ticket_id);
                    let ch0 = sb[i as int].channel_id;
                    if chan_has(sa, ch0) {
                        let j = chan_idx(sa, ch0);
                        assert(0 <= j < sa.len() && sa[j].channel_id == ch0);
                        let j0 = if j < i {
                            j
                        } else {
                            j + 1
                        };
                        assert(sa[j] == sb[j0]);
                        assert(sb[j0].channel_id != sb[i as int].channel_id || j0 == i);
                        assert(false);
                    }
                    assert forall|ch: u64| ch != ch0 implies #[trigger] chan_has(sa, ch)
                        == chan_has(sb, ch) by {
                        if chan_has(sa, ch) {
                            let j = chan_idx(sa, ch);
                            assert(0 <= j < sa.len() && sa[j].channel_id == ch);
                            let j0 = if j < i {
                                j
                            } else {
                                j + 1
                            };
                            assert(sa[j] == sb[j0]);
                            assert(chan_has(sb, ch));
                        }
                        if chan_has(sb, ch) {
                            let j0 = chan_idx(sb, ch);
                            assert(0 <= j0 < sb.len() && sb[j0].channel_id == ch);
                            assert(j0 != i);
                            if j0 < i {
                                assert(sa[j0] == sb[j0]);
                                assert(chan_has(sa, ch));
                            } else {
                                assert(sa[j0 - 1] == sb[j0]);
                                assert(chan_has(sa, ch));
                            }
                        }
                    }
                    assert forall|id2: u64| id2 != ticket_id implies #[trigger] tbl_has(sa, id2)
                        == tbl_has(sb, id2) by {
                        if tbl_has(sa, id2) {
                            let j = tbl_idx(sa, id2);
                            assert(0 <= j < sa.len() && sa[j].key() == id2);
                            let j0 = if j < i {
                                j
                            } else {
                                j + 1
                            };
                            assert(sa[j] == sb[j0]);
                            assert(tbl_has(sb, id2));
                        }
                        if tbl_has(sb, id2) {
                            let j0 = tbl_idx(sb, id2);
                            assert(0 <= j0 < sb.len() && sb[j0].key() == id2);
                            assert(j0 != i);
                            if j0 < i {
                                assert(sa[j0] == sb[j0]);
                                assert(tbl_has(sa, id2));
                            } else {
                                assert(sa[j0 - 1] == sb[j0]);
                                assert(tbl_has(sa, id2));
                            }
                        }
                    }
                }
            },
            None => {
                proof {
                    assert(!self.tickets_map().dom().contains(ticket_id));
                    assert(self.tickets_map() =~= old(self).tickets_map().remove(ticket_id));
                }
            },
        }
    }
}

/// The messages of `s` that belong to ticket `ticket_id`, in store
/// order.
pub open spec fn messages_of(s: Seq<StoredMessage>, ticket_id: u64) -> Seq<StoredMessage>
    decreases s.len(),
{
    if s.len() == 0 {
        Seq::empty()
    } else {
        let rest = messages_of(s.drop_last(), ticket_id);
        if s.last().ticket_id == ticket_id {
            rest.push(s.last())
        } else {
            rest
        }
    }
}

/// The messages of `s` that do not belong to ticket `ticket_id`.
pub open spec fn messages_without(s: Seq<StoredMessage>, ticket_id: u64) -> Seq<StoredMessage>
    decreases s.len(),
{
    if s.len() == 0 {
        Seq::empty()
    } else {
        let rest = messages_without(s.drop_last(), ticket_id);
        if s.last().ticket_id == ticket_id {
            rest
        } else {
            rest.push(s.last())
        }
    }
}

impl TicketStore {
    /// Appends one message to a ticket's history and refreshes the
    /// row: activity is touched, and a message from anyone but the
    /// owner raises the has-received-staff-message flag.
    pub fn record_message(&mut self, ticket_id: u64, message_id: u64, author_id: u64, now: u64)
        requires
            old(self).wf(),
            old(self).has_ticket(ticket_id),
        ensures
            final(self).wf(),
            final(self).messages@ == old(self).messages@.push(
                (StoredMessage { ticket_id, message_id, author_id }),
            ),
            final(self).tickets_map() == old(self).tickets_map().insert(
                ticket_id,
                (Ticket {
                    has_messages: old(self).ticket(ticket_id).has_messages || author_id != old(self).ticket(ticket_id).owner_id,
                    last_activity: now,
                    ..old(self).ticket(ticket_id)
                }),
            ),
            final(self).escalations@ == old(self).escalations@,
            final(self).reminders@ == old(self).reminders@,
            final(self).guilds@ == old(self).guilds@,
            final(self).support_roles@ == old(self).support_roles@,
            final(self).blacklist@ == old(self).blacklist@,
            final(self).next_ticket_id == old(self).next_ticket_id,
            final(self).next_reminder_id == old(self).next_reminder_id,
            forall|ch: u64| #[trigger] final(self).has_channel(ch) == old(self).has_channel(ch),
            forall|id2: u64| #[trigger] final(self).has_ticket(id2) == old(self).has_ticket(id2),
            forall|ch: u64|
                old(self).has_channel(ch) ==> #[trigger] final(self).ticket_by_channel(ch) == (
                if old(self).ticket_by_channel(ch).id == ticket_id {
                    final(self).tickets_map()[ticket_id]
                } else {
                    old(self).ticket_by_channel(ch)
                }),
    {
        self.messages.push(StoredMessage { ticket_id, message_id, author_id });
        let t = self.get_ticket_by_id(ticket_id).unwrap();
        let flagged = t.has_messages || author_id != t.owner_id;
        self.put_ticket(
            ticket_id,
            Ticket { has_messages: flagged, last_activity: now, ..t },
        );
    }

    /// Deletes a ticket's whole message history.
    pub fn delete_ticket_messages(&mut self, ticket_id: u64)
        requires
            old(self).wf(),
        ensures
            final(self).wf(),
            final(self).messages@ == messages_without(old(self).messages@, ticket_id),
            forall|j: int|
                0 <= j < final(self).messages@.len() ==> (
                #[trigger] final(self).messages@[j]).ticket_id != ticket_id,
            final(self).tickets@ == old(self).tickets@,
            final(self).escalations@ == old(self).escalations@,
            final(self).reminders@ == old(self).reminders@,
            final(self).guilds@ == old(self).guilds@,
            final(self).support_roles@ == old(self).support_roles@,
            final(self).blacklist@ == old(self).blacklist@,
            final(self).next_ticket_id == old(self).next_ticket_id,
            final(self).next_reminder_id == old(self).next_reminder_id,
    {
        let n = self.messages.len();
        let mut keep: Vec<StoredMessage> = Vec::new();
        let mut i: usize = 0;
        while i < n
            invariant
                n == self.messages@.len(),
                i <= n,
                keep@ == messages_without(self.messages@.take(i as int), ticket_id),
                forall|j: int| 0 <= j < keep@.len() ==> (#[trigger] keep@[j]).ticket_id
                    != ticket_id,
            decreases n - i,
        {
            let m = self.messages[i];
            proof {
                assert(self.messages@.take(i as int + 1).drop_last() == self.messages@.take(
                    i as int,
                ));
                assert(self.messages@.take(i as int + 1).last() == self.messages@[i as int]);
            }
            if m.ticket_id != ticket_id {
                keep.push(m);
            }
            i = i + 1;
        }
        proof {
            assert(self.messages@.take(n as int) == self.messages@);
        }
        self.messages = keep;
    }

    /// A ticket's whole recorded history, oldest first (what a
    /// transcript is rendered from).
    pub fn get_ticket_messages(&self, ticket_id: u64) -> (r: Vec<StoredMessage>)
        ensures
            r@ == messages_of(self.messages@, ticket_id),
    {
        let mut r: Vec<StoredMessage> = Vec::new();
        let mut i: usize = 0;
        while i < self.messages.len()
            invariant
                i <= self.messages@.len(),
                r@ == messages_of(self.messages@.take(i as int), ticket_id),
            decreases self.messages@.len() - i,
        {
            let m = self.messages[i];
            proof {
                assert(self.messages@.take(i as int + 1).drop_last() == self.messages@.take(
                    i as int,
                ));
                assert(self.messages@.take(i as int + 1).last() == self.messages@[i as int]);
            }
            if m.ticket_id == ticket_id {
                r.push(m);
            }
            i = i + 1;
        }
        proof {
            assert(self.messages@.take(self.messages@.len() as int) == self.messages@);
        }
        r
    }

    /// How many history messages a ticket has.
    pub fn ticket_message_count(&self, ticket_id: u64) -> (c: u64)
        requires
            self.messages@.len() <= u64::MAX,
        ensures
            c == self.messages@.filter(|m: StoredMessage| m.ticket_id == ticket_id).len(),
    {
        let mut c: u64 = 0;
        let mut i: usize = 0;
        while i < self.messages.len()
            invariant
                i <= self.messages@.len(),
                c == self.messages@.take(i as int).filter(
                    |m: StoredMessage| m.ticket_id == ticket_id,
                ).len(),
                c <= i,
            decreases self.messages@.len() - i,
        {
            let m = self.messages[i];
            proof {
                broadcast use vstd::prelude::Seq::lemma_filter_push;

                assert(self.messages@.take(i as int + 1) == self.messages@.take(i as int).push(
                    self.messages@[i as int],
                ));
            }
            if m.ticket_id == ticket_id {
                c = c + 1;
            }
            i = i + 1;
        }
        proof {
            assert(self.messages@.take(self.messages@.len() as int) == self.messages@);
        }
        c
    }
}

/// `a - b`, floored at zero.
pub open spec fn sat_sub(a: u64, b: u64) -> u64 {
    if a >= b {
        (a - b) as u64
    } else {
        0
    }
}

/// The `(ticket id, seconds since last ping)` pairs of the active
/// escalations, in store order.
pub open spec fn active_escalation_entries(s: Seq<Escalation>, now: u64) -> Seq<(u64, u64)>
    decreases s.len(),
{
    if s.len() == 0 {
        Seq::empty()
    } else {
        let rest = active_escalation_entries(s.drop_last(), now);
        let e = s.last();
        if e.active {
            rest.push((e.ticket_id, sat_sub(now, e.last_ping)))
        } else {
            rest
        }
    }
}

/// The ids of the reminders due at `now`: not yet completed and at or
/// past their due time, in store order.
pub open spec fn due_reminder_id_seq(s: Seq<Reminder>, now: u64) -> Seq<u64>
    decreases s.len(),
{
    if s.len() == 0 {
        Seq::empty()
    } else {
        let rest = due_reminder_id_seq(s.drop_last(), now);
        let r = s.last();
        if !r.completed && r.remind_at <= now {
            rest.push(r.id)
        } else {
            rest
        }
    }
}

/// Law: delivery does not consume a reminder; only completion does.
/// A reminder due at one instant is still due at any later instant as
/// long as it has not been marked complete, so a sweep that crashed
/// between sending and marking finds it again on its next cycle.
pub proof fn lemma_due_reminder_redelivered(s: Seq<Reminder>, now1: u64, now2: u64, id: u64)
    requires
        now1 <= now2,
        due_reminder_id_seq(s, now1).contains(id),
    ensures
        due_reminder_id_seq(s, now2).contains(id),
    decreases s.len(),
{
    if s.len() > 0 {
        let r = s.last();
        let rest1 = due_reminder_id_seq(s.drop_last(), now1);
        let rest2 = due_reminder_id_seq(s.drop_last(), now2);
        if !r.completed && r.remind_at <= now1 {
            if due_reminder_id_seq(s, now1).last() == id && rest1.contains(id) == false {
                assert(due_reminder_id_seq(s, now2).last() == id);
                assert(due_reminder_id_seq(s, now2).contains(id));
            } else {
                let j = choose|j: int| 0 <= j < rest1.push(r.id).len() && rest1.push(r.id)[j] == id;
                if j < rest1.len() {
                    assert(rest1[j] == id);
                    assert(rest1.contains(id));
                    lemma_due_reminder_redelivered(s.drop_last(), now1, now2, id);
                    let j2 = choose|j2: int| 0 <= j2 < rest2.len() && rest2[j2] == id;
                    assert(rest2.push(r.id)[j2] == id);
                } else {
                    assert(rest1.push(r.id)[j] == r.id);
                    assert(due_reminder_id_seq(s, now2).last() == r.id);
                }
            }
        } else {
            lemma_due_reminder_redelivered(s.drop_last(), now1, now2, id);
            let j2 = choose|j2: int| 0 <= j2 < rest2.len() && rest2[j2] == id;
            if !r.completed && r.remind_at <= now2 {
                assert(rest2.push(r.id)[j2] == id);
            }
        }
    }
}

/// The role ids granted support in `guild_id`, in store order.
pub open spec fn support_role_ids(s: Seq<SupportRole>, guild_id: u64) -> Seq<u64>
    decreases s.len(),
{
    if s.len() == 0 {
        Seq::empty()
    } else {
        let rest = support_role_ids(s.drop_last(), guild_id);
        let r = s.last();
        if r.guild_id == guild_id {
            rest.push(r.role_id)
        } else {
            rest
        }
    }
}

pub open spec fn has_support_pair(s: Seq<SupportRole>, guild_id: u64, role_id: u64) -> bool {
    exists|i: int|
        0 <= i < s.len() && (#[trigger] s[i]).guild_id == guild_id && s[i].role_id == role_id
}

/// The support-role rows that are not `(guild_id, role_id)`.
pub open spec fn support_roles_without(s: Seq<SupportRole>, guild_id: u64, role_id: u64) -> Seq<
    SupportRole,
>
    decreases s.len(),
{
    if s.len() == 0 {
        Seq::empty()
    } else {
        let rest = support_roles_without(s.drop_last(), guild_id, role_id);
        let r = s.last();
        if r.guild_id == guild_id && r.role_id == role_id {
            rest
        } else {
            rest.push(r)
        }
    }
}

/// The blacklist rows whose target is not `target_id` (either kind).
pub open spec fn blacklist_without(s: Seq<BlacklistEntry>, target_id: u64) -> Seq<BlacklistEntry>
    decreases s.len(),
{
    if s.len() == 0 {
        Seq::empty()
    } else {
        let rest = blacklist_without(s.drop_last(), target_id);
        let e = s.last();
        if e.target_id == target_id {
            rest
        } else {
            rest.push(e)
        }
    }
}

impl TicketStore {
    /// Opens (or re-opens) the escalation for a ticket: one active
    /// record per ticket, its ping clock starting at `now`.
    pub fn create_escalation(&mut self, ticket_id: u64, requester_id: u64, now: u64)
        requires
            old(self).wf(),
        ensures
            final(self).wf(),
            final(self).escalations_map() == old(self).escalations_map().insert(
                ticket_id,
                (Escalation { ticket_id, requester_id, active: true, last_ping: now }),
            ),
            final(self).eq_outside_escalations(*old(self)),
    {
        let e = Escalation { ticket_id, requester_id, active: true, last_ping: now };
        let ghost sb = self.escalations@;
        match tbl_find(&self.escalations, ticket_id) {
            Some(i) => {
                self.escalations[i] = e;
                proof {
                    tbl_after_update(sb, i as int, e, self.escalations@);
                }
            },
            None => {
                self.escalations.push(e);
                proof {
                    tbl_after_push(sb, e, self.escalations@);
                }
            },
        }
    }

    /// Deactivates a ticket's escalation if one exists; quietly does
    /// nothing otherwise.  Afterwards the ticket has no active
    /// escalation.
    pub fn deactivate_escalation(&mut self, ticket_id: u64)
        requires
            old(self).wf(),
        ensures
            final(self).wf(),
            final(self).escalations_map() == (if old(self).has_escalation(ticket_id) {
                old(self).escalations_map().insert(
                    ticket_id,
                    (Escalation { active: false, ..old(self).escalation(ticket_id) }),
                )
            } else {
                old(self).escalations_map()
            }),
            final(self).has_escalation(ticket_id) ==> !final(self).escalation(ticket_id).active,
            final(self).eq_outside_escalations(*old(self)),
            !old(self).has_escalation(ticket_id) ==> *final(self) == *old(self),
    {
        let ghost sb = self.escalations@;
        match tbl_find(&self.escalations, ticket_id) {
            Some(i) => {
                self.escalations[i].active = false;
                proof {
                    tbl_key_index(sb, i as int, ticket_id);
                    tbl_after_update(sb, i as int, self.escalations@[i as int], self.escalations@);
                }
            },
            None => {
                proof {
                    assert(self.escalations_map() =~= old(self).escalations_map());
                }
            },
        }
    }

    /// Restarts a ticket's escalation ping clock at `now`.
    pub fn update_escalation_ping(&mut self, ticket_id: u64, now: u64)
        requires
            old(self).wf(),
        ensures
            final(self).wf(),
            final(self).escalations_map() == (if old(self).has_escalation(ticket_id) {
                old(self).escalations_map().insert(
                    ticket_id,
                    (Escalation { last_ping: now, ..old(self).escalation(ticket_id) }),
                )
            } else {
                old(self).escalations_map()
            }),
            final(self).eq_outside_escalations(*old(self)),
    {
        let ghost sb = self.escalations@;
        match tbl_find(&self.escalations, ticket_id) {
            Some(i) => {
                self.escalations[i].last_ping = now;
                proof {
                    tbl_key_index(sb, i as int, ticket_id);
                    tbl_after_update(sb, i as int, self.escalations@[i as int], self.escalations@);
                }
            },
            None => {
                proof {
                    assert(self.escalations_map() =~= old(self).escalations_map());
                }
            },
        }
    }

    /// The `(ticket id, seconds since last ping)` pairs of all active
    /// escalations.
    pub fn list_active_escalations(&self, now: u64) -> (r: Vec<(u64, u64)>)
        requires
            self.wf(),
        ensures
            r@ == active_escalation_entries(self.escalations@, now),
    {
        let mut r: Vec<(u64, u64)> = Vec::new();
        let mut i: usize = 0;
        while i < self.escalations.len()
            invariant
                self.wf(),
                i <= self.escalations@.len(),
                r@ == active_escalation_entries(self.escalations@.take(i as int), now),
            decreases self.escalations@.len() - i,
        {
            let e = self.escalations[i];
            proof {
                assert(self.escalations@.take(i as int + 1).drop_last() == self.escalations@.take(
                    i as int,
                ));
                assert(self.escalations@.take(i as int + 1).last() == self.escalations@[i as int]);
            }
            if e.active {
                let since = if now >= e.last_ping {
                    now - e.last_ping
                } else {
                    0
                };
                r.push((e.ticket_id, since));
            }
            i = i + 1;
        }
        proof {
            assert(self.escalations@.take(self.escalations@.len() as int) == self.escalations@);
        }
        r
    }

    /// Stores a new reminder, minting its id.
    pub fn create_reminder(
        &mut self,
        user_id: u64,
        channel_id: u64,
        guild_id: Option<u64>,
        message_id: Option<u64>,
        reason: String,
        remind_at: u64,
        now: u64,
    ) -> (id: u64)
        requires
            old(self).wf(),
            old(self).next_reminder_id < u64::MAX,
        ensures
            final(self).wf(),
            id == old(self).next_reminder_id,
            !old(self).has_reminder(id),
            final(self).reminders_map() == old(self).reminders_map().insert(
                id,
                (Reminder {
                    id,
                    user_id,
                    channel_id,
                    guild_id,
                    message_id,
                    reason,
                    remind_at,
                    created_at: now,
                    completed: false,
                }),
            ),
            final(self).next_reminder_id == old(self).next_reminder_id + 1,
            final(self).eq_outside_reminders(*old(self)),
            final(self).reminders@ == old(self).reminders@.push(
                (Reminder {
                    id: old(self).next_reminder_id,
                    user_id,
                    channel_id,
                    guild_id,
                    message_id,
                    reason,
                    remind_at,
                    created_at: now,
                    completed: false,
                }),
            ),
    {
        let id = self.next_reminder_id;
        let r = Reminder {
            id,
            user_id,
            channel_id,
            guild_id,
            message_id,
            reason,
            remind_at,
            created_at: now,
            completed: false,
        };
        let ghost sb = self.reminders@;
        proof {
            if tbl_has(sb, id) {
                let j = tbl_idx(sb, id);
                assert(0 <= j < sb.len() && sb[j].key() == id);
            }
        }
        self.reminders.push(r);
        self.next_reminder_id = self.next_reminder_id + 1;
        proof {
            tbl_after_push(sb, self.reminders@[sb.len() as int], self.reminders@);
        }
        id
    }

    /// The ids of every reminder due at `now`.
    pub fn due_reminder_ids(&self, now: u64) -> (r: Vec<u64>)
        requires
            self.wf(),
        ensures
            r@ == due_reminder_id_seq(self.reminders@, now),
    {
        let mut r: Vec<u64> = Vec::new();
        let mut i: usize = 0;
        while i < self.reminders.len()
            invariant
                self.wf(),
                i <= self.reminders@.len(),
                r@ == due_reminder_id_seq(self.reminders@.take(i as int), now),
            decreases self.reminders@.len() - i,
        {
            proof {
                assert(self.reminders@.take(i as int + 1).drop_last() == self.reminders@.take(
                    i as int,
                ));
                assert(self.reminders@.take(i as int + 1).last() == self.reminders@[i as int]);
            }
            let rem = &self.reminders[i];
            if !rem.completed && rem.remind_at <= now {
                r.push(rem.id);
            }
            i = i + 1;
        }
        proof {
            assert(self.reminders@.take(self.reminders@.len() as int) == self.reminders@);
        }
        r
    }

    /// The reminder carrying `id`, if any.
    pub fn get_reminder(&self, id: u64) -> (r: Option<&Reminder>)
        requires
            self.wf(),
        ensures
            match r {
                Some(rem) => self.has_reminder(id) && *rem == self.reminder(id),
                None => !self.has_reminder(id),
            },
    {
        match tbl_find(&self.reminders, id) {
            Some(i) => Some(&self.reminders[i]),
            None => None,
        }
    }

    /// Marks a reminder completed, withdrawing it from every later
    /// sweep.  Returns whether the reminder existed.
    pub fn mark_reminder_complete(&mut self, id: u64) -> (was: bool)
        requires
            old(self).wf(),
        ensures
            final(self).wf(),
            was == old(self).has_reminder(id),
            final(self).reminders_map() == (if old(self).has_reminder(id) {
                old(self).reminders_map().insert(
                    id,
                    (Reminder { completed: true, ..old(self).reminder(id) }),
                )
            } else {
                old(self).reminders_map()
            }),
            final(self).eq_outside_reminders(*old(self)),
            final(self).next_reminder_id == old(self).next_reminder_id,
            !was ==> *final(self) == *old(self),
            final(self).reminders@.len() == old(self).reminders@.len(),
            forall|i: int|
                0 <= i < old(self).reminders@.len() ==> final(self).reminders@[i] == (if old(self).reminders@[i].id == id {
                    (Reminder { completed: true, ..old(self).reminders@[i] })
                } else {
                    old(self).reminders@[i]
                }),
    {
        let ghost sb = self.reminders@;
        match tbl_find(&self.reminders, id) {
            Some(i) => {
                self.reminders[i].completed = true;
                proof {
                    tbl_key_index(sb, i as int, id);
                    tbl_after_update(sb, i as int, self.reminders@[i as int], self.reminders@);
                }
                true
            },
            None => {
                proof {
                    assert(self.reminders_map() =~= old(self).reminders_map());
                }
                false
            },
        }
    }

    /// The guild's settings row, creating a fresh one on first
    /// contact.
    pub fn ensure_guild(&mut self, guild_id: u64) -> (g: GuildConfig)
        requires
            old(self).wf(),
        ensures
            final(self).wf(),
            g == (if old(self).has_guild(guild_id) {
                old(self).guild(guild_id)
            } else {
                GuildConfig::spec_fresh(guild_id)
            }),
            final(self).guilds_map() == old(self).guilds_map().insert(guild_id, g),
            final(self).has_guild(guild_id),
            final(self).guild(guild_id) == g,
            final(self).eq_outside_guilds(*old(self)),
            old(self).has_guild(guild_id) ==> *final(self) == *old(self),
    {
        let ghost sb = self.guilds@;
        match tbl_find(&self.guilds, guild_id) {
            Some(i) => {
                let g = self.guilds[i];
                proof {
                    assert(self.guilds_map() =~= old(self).guilds_map().insert(guild_id, g));
                }
                g
            },
            None => {
                let g = GuildConfig::fresh(guild_id);
                self.guilds.push(g);
                proof {
                    tbl_after_push(sb, g, self.guilds@);
                    tbl_key_index(self.guilds@, sb.len() as int, guild_id);
                }
                g
            },
        }
    }

    /// The guild's settings row, if the guild is known.
    pub fn get_guild(&self, guild_id: u64) -> (r: Option<GuildConfig>)
        requires
            self.wf(),
        ensures
            r == (if self.has_guild(guild_id) {
                Some(self.guild(guild_id))
            } else {
                None::<GuildConfig>
            }),
    {
        match tbl_find(&self.guilds, guild_id) {
            Some(i) => Some(self.guilds[i]),
            None => None,
        }
    }

    /// Replaces the settings row of `guild_id` by `g`.
    fn put_guild(&mut self, guild_id: u64, g: GuildConfig)
        requires
            old(self).wf(),
            old(self).has_guild(guild_id),
            g.guild_id == guild_id,
        ensures
            final(self).wf(),
            final(self).guilds_map() == old(self).guilds_map().insert(guild_id, g),
            final(self).eq_outside_guilds(*old(self)),
            forall|g2: u64| #[trigger] final(self).has_guild(g2) == old(self).has_guild(g2),
            final(self).has_guild(guild_id),
            final(self).guild(guild_id) == g,
    {
        let ghost sb = self.guilds@;
        match tbl_find(&self.guilds, guild_id) {
            Some(i) => {
                self.guilds[i] = g;
                proof {
                    tbl_after_update(sb, i as int, g, self.guilds@);
                    let sa = self.guilds@;
                    assert forall|g2: u64| #[trigger] tbl_has(sa, g2) == tbl_has(sb, g2) by {
                        if tbl_has(sa, g2) {
                            let j = tbl_idx(sa, g2);
                            assert(0 <= j < sa.len() && sa[j].key() == g2);
                            assert(sb[j].key() == g2);
                            assert(tbl_has(sb, g2));
                        }
                        if tbl_has(sb, g2) {
                            let j = tbl_idx(sb, g2);
                            assert(0 <= j < sb.len() && sb[j].key() == g2);
                            assert(sa[j].key() == g2);
                            assert(tbl_has(sa, g2));
                        }
                    }
                    tbl_key_index(sa, i as int, guild_id);
                }
            },
            None => {
                proof {
                    assert(false);
                }
            },
        }
    }

    /// Sets or clears the role the priority scheduler pings.
    pub fn set_guild_ping_role(&mut self, guild_id: u64, ping_role_id: Option<u64>)
        requires
            old(self).wf(),
            old(self).has_guild(guild_id),
        ensures
            final(self).wf(),
            final(self).guilds_map() == old(self).guilds_map().insert(
                guild_id,
                (GuildConfig { ping_role_id, ..old(self).guild(guild_id) }),
            ),
            final(self).eq_outside_guilds(*old(self)),
            forall|g2: u64| #[trigger] final(self).has_guild(g2) == old(self).has_guild(g2),
            final(self).guild(guild_id) == final(self).guilds_map()[guild_id],
    {
        let g = self.get_guild(guild_id).unwrap();
        self.put_guild(guild_id, GuildConfig { ping_role_id, ..g });
    }

    /// Sets or clears the guild's log channel.
    pub fn set_guild_log_channel(&mut self, guild_id: u64, log_channel_id: Option<u64>)
        requires
            old(self).wf(),
            old(self).has_guild(guild_id),
        ensures
            final(self).wf(),
            final(self).guilds_map() == old(self).guilds_map().insert(
                guild_id,
                (GuildConfig { log_channel_id, ..old(self).guild(guild_id) }),
            ),
            final(self).eq_outside_guilds(*old(self)),
            forall|g2: u64| #[trigger] final(self).has_guild(g2) == old(self).has_guild(g2),
            final(self).guild(guild_id) == final(self).guilds_map()[guild_id],
    {
        let g = self.get_guild(guild_id).unwrap();
        self.put_guild(guild_id, GuildConfig { log_channel_id, ..g });
    }

    /// Sets or clears the guild's transcript channel.
    pub fn set_guild_transcript_channel(&mut self, guild_id: u64, transcript_channel_id: Option<
        u64,
    >)
        requires
            old(self).wf(),
            old(self).has_guild(guild_id),
        ensures
            final(self).wf(),
            final(self).guilds_map() == old(self).guilds_map().insert(
                guild_id,
                (GuildConfig { transcript_channel_id, ..old(self).guild(guild_id) }),
            ),
            final(self).eq_outside_guilds(*old(self)),
            forall|g2: u64| #[trigger] final(self).has_guild(g2) == old(self).has_guild(g2),
            final(self).guild(guild_id) == final(self).guilds_map()[guild_id],
    {
        let g = self.get_guild(guild_id).unwrap();
        self.put_guild(guild_id, GuildConfig { transcript_channel_id, ..g });
    }

    /// Sets or clears the category new ticket channels are filed
    /// under.
    pub fn set_guild_category(&mut self, guild_id: u64, ticket_category_id: Option<u64>)
        requires
            old(self).wf(),
            old(self).has_guild(guild_id),
        ensures
            final(self).wf(),
            final(self).guilds_map() == old(self).guilds_map().insert(
                guild_id,
                (GuildConfig { ticket_category_id, ..old(self).guild(guild_id) }),
            ),
            final(self).eq_outside_guilds(*old(self)),
            forall|g2: u64| #[trigger] final(self).has_guild(g2) == old(self).has_guild(g2),
            final(self).guild(guild_id) == final(self).guilds_map()[guild_id],
    {
        let g = self.get_guild(guild_id).unwrap();
        self.put_guild(guild_id, GuildConfig { ticket_category_id, ..g });
    }

    /// Sets or clears the per-user open-ticket limit.
    pub fn set_guild_ticket_limit(&mut self, guild_id: u64, ticket_limit_per_user: Option<u32>)
        requires
            old(self).wf(),
            old(self).has_guild(guild_id),
        ensures
            final(self).wf(),
            final(self).guilds_map() == old(self).guilds_map().insert(
                guild_id,
                (GuildConfig { ticket_limit_per_user, ..old(self).guild(guild_id) }),
            ),
            final(self).eq_outside_guilds(*old(self)),
            forall|g2: u64| #[trigger] final(self).has_guild(g2) == old(self).has_guild(g2),
            final(self).guild(guild_id) == final(self).guilds_map()[guild_id],
    {
        let g = self.get_guild(guild_id).unwrap();
        self.put_guild(guild_id, GuildConfig { ticket_limit_per_user, ..g });
    }

    /// Configures the auto-close sweep for the guild.
    pub fn set_guild_autoclose(&mut self, guild_id: u64, enabled: bool, minutes: Option<u32>)
        requires
            old(self).wf(),
            old(self).has_guild(guild_id),
        ensures
            final(self).wf(),
            final(self).guilds_map() == old(self).guilds_map().insert(
                guild_id,
                (GuildConfig {
                    autoclose_enabled: enabled,
                    autoclose_minutes: minutes,
                    ..old(self).guild(guild_id)
                }),
            ),
            final(self).eq_outside_guilds(*old(self)),
            forall|g2: u64| #[trigger] final(self).has_guild(g2) == old(self).has_guild(g2),
            final(self).guild(guild_id) == final(self).guilds_map()[guild_id],
    {
        let g = self.get_guild(guild_id).unwrap();
        self.put_guild(
            guild_id,
            GuildConfig { autoclose_enabled: enabled, autoclose_minutes: minutes, ..g },
        );
    }

    /// Grants a guild role support status; granting it twice keeps
    /// one row.
    pub fn add_support_role(&mut self, guild_id: u64, role_id: u64)
        requires
            old(self).wf(),
        ensures
            final(self).wf(),
            final(self).support_roles@ == (if has_support_pair(
                old(self).support_roles@,
                guild_id,
                role_id,
            ) {
                old(self).support_roles@
            } else {
                old(self).support_roles@.push((SupportRole { guild_id, role_id }))
            }),
            has_support_pair(final(self).support_roles@, guild_id, role_id),
            final(self).eq_outside_support_roles(*old(self)),
    {
        let mut i: usize = 0;
        while i < self.support_roles.len()
            invariant
                *self == *old(self),
                self.wf(),
                i <= self.support_roles@.len(),
                forall|j: int|
                    0 <= j < i ==> !((#[trigger] self.support_roles@[j]).guild_id == guild_id
                        && self.support_roles@[j].role_id == role_id),
            decreases self.support_roles@.len() - i,
        {
            let r = self.support_roles[i];
            if r.guild_id == guild_id && r.role_id == role_id {
                proof {
                    assert(has_support_pair(self.support_roles@, guild_id, role_id));
                }
                return ;
            }
            i = i + 1;
        }
        self.support_roles.push(SupportRole { guild_id, role_id });
        proof {
            assert(self.support_roles@.last() == (SupportRole { guild_id, role_id }));
        }
    }

    /// Withdraws a role's support status.
    pub fn remove_support_role(&mut self, guild_id: u64, role_id: u64)
        requires
            old(self).wf(),
        ensures
            final(self).wf(),
            final(self).support_roles@ == support_roles_without(
                old(self).support_roles@,
                guild_id,
                role_id,
            ),
            !has_support_pair(final(self).support_roles@, guild_id, role_id),
            final(self).eq_outside_support_roles(*old(self)),
    {
        let n = self.support_roles.len();
        let mut keep: Vec<SupportRole> = Vec::new();
        let mut i: usize = 0;
        while i < n
            invariant
                n == self.support_roles@.len(),
                i <= n,
                keep@ == support_roles_without(
                    self.support_roles@.take(i as int),
                    guild_id,
                    role_id,
                ),
                forall|j: int|
                    0 <= j < keep@.len() ==> !((#[trigger] keep@[j]).guild_id == guild_id
                        && keep@[j].role_id == role_id),
            decreases n - i,
        {
            let r = self.support_roles[i];
            proof {
                assert(self.support_roles@.take(i as int + 1).drop_last()
                    == self.support_roles@.take(i as int));
                assert(self.support_roles@.take(i as int + 1).last()
                    == self.support_roles@[i as int]);
            }
            if !(r.guild_id == guild_id && r.role_id == role_id) {
                keep.push(r);
            }
            i = i + 1;
        }
        proof {
            assert(self.support_roles@.take(n as int) == self.support_roles@);
        }
        self.support_roles = keep;
    }

    /// The role ids granted support in `guild_id`.
    pub fn get_support_roles(&self, guild_id: u64) -> (r: Vec<u64>)
        ensures
            r@ == support_role_ids(self.support_roles@, guild_id),
    {
        let mut r: Vec<u64> = Vec::new();
        let mut i: usize = 0;
        while i < self.support_roles.len()
            invariant
                i <= self.support_roles@.len(),
                r@ == support_role_ids(self.support_roles@.take(i as int), guild_id),
            decreases self.support_roles@.len() - i,
        {
            let sr = self.support_roles[i];
            proof {
                assert(self.support_roles@.take(i as int + 1).drop_last()
                    == self.support_roles@.take(i as int));
                assert(self.support_roles@.take(i as int + 1).last()
                    == self.support_roles@[i as int]);
            }
            if sr.guild_id == guild_id {
                r.push(sr.role_id);
            }
            i = i + 1;
        }
        proof {
            assert(self.support_roles@.take(self.support_roles@.len() as int)
                == self.support_roles@);
        }
        r
    }

    /// Adds a blacklist row (one per call, mirroring a plain insert).
    pub fn add_blacklist(&mut self, target_id: u64, kind: BlacklistKind)
        requires
            old(self).wf(),
        ensures
            final(self).wf(),
            final(self).blacklist@ == old(self).blacklist@.push(
                (BlacklistEntry { target_id, kind }),
            ),
            final(self).spec_is_blacklisted(target_id, kind),
            final(self).eq_outside_blacklist(*old(self)),
    {
        self.blacklist.push(BlacklistEntry { target_id, kind });
        proof {
            assert(self.blacklist@.last() == (BlacklistEntry { target_id, kind }));
        }
    }

    /// Whether the auto-close sweep is due to close ticket `t` at
    /// instant `now`: its guild has auto-close configured and the
    /// ticket has been inactive for at least that many minutes.
    pub open spec fn spec_autoclose_due(self, t: Ticket, now: u64) -> bool {
        &&& self.has_guild(t.guild_id)
        &&& self.guild(t.guild_id).autoclose_enabled
        &&& self.guild(t.guild_id).autoclose_minutes matches Some(m) && now >= t.last_activity
            + m * 60
    }

    /// The ids of the tickets the auto-close sweep should close, in
    /// store order (over the ticket prefix of length `upto`).
    pub open spec fn inactive_ids_upto(self, upto: int, now: u64) -> Seq<u64>
        decreases upto,
    {
        if upto <= 0 {
            Seq::empty()
        } else {
            let rest = self.inactive_ids_upto(upto - 1, now);
            let t = self.tickets@[upto - 1];
            if self.spec_autoclose_due(t, now) {
                rest.push(t.id)
            } else {
                rest
            }
        }
    }

    /// The ids of every ticket due for auto-close at `now`.
    pub fn list_inactive_tickets(&self, now: u64) -> (r: Vec<u64>)
        requires
            self.wf(),
        ensures
            r@ == self.inactive_ids_upto(self.tickets@.len() as int, now),
    {
        let mut r: Vec<u64> = Vec::new();
        let mut i: usize = 0;
        while i < self.tickets.len()
            invariant
                self.wf(),
                i <= self.tickets@.len(),
                r@ == self.inactive_ids_upto(i as int, now),
            decreases self.tickets@.len() - i,
        {
            let t = self.tickets[i];
            let due = match self.get_guild(t.guild_id) {
                Some(g) => match g.autoclose_minutes {
                    Some(m) => {
                        let thr: u64 = (m as u64) * 60;
                        g.autoclose_enabled && now >= thr && now - thr >= t.last_activity
                    },
                    None => false,
                },
                None => false,
            };
            if due {
                r.push(t.id);
            }
            i = i + 1;
        }
        r
    }

    /// Deletes every blacklist row for `target_id`, either kind.
    pub fn remove_blacklist(&mut self, target_id: u64)
        requires
            old(self).wf(),
        ensures
            final(self).wf(),
            final(self).blacklist@ == blacklist_without(old(self).blacklist@, target_id),
            forall|k: BlacklistKind| !final(self).spec_is_blacklisted(target_id, k),
            final(self).eq_outside_blacklist(*old(self)),
    {
        let n = self.blacklist.len();
        let mut keep: Vec<BlacklistEntry> = Vec::new();
        let mut i: usize = 0;
        while i < n
            invariant
                n == self.blacklist@.len(),
                i <= n,
                keep@ == blacklist_without(self.blacklist@.take(i as int), target_id),
                forall|j: int| 0 <= j < keep@.len() ==> (#[trigger] keep@[j]).target_id
                    != target_id,
            decreases n - i,
        {
            let e = self.blacklist[i];
            proof {
                assert(self.blacklist@.take(i as int + 1).drop_last() == self.blacklist@.take(
                    i as int,
                ));
                assert(self.blacklist@.take(i as int + 1).last() == self.blacklist@[i as int]);
            }
            if e.target_id != target_id {
                keep.push(e);
            }
            i = i + 1;
        }
        proof {
            assert(self.blacklist@.take(n as int) == self.blacklist@);
        }
        self.blacklist = keep;
    }
}

} // verus!
