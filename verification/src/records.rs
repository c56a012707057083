//! The record types held by the durable ticket store.

use vstd::prelude::*;

verus! {

/// Urgency level a ticket carries once a priority has been assigned.
#[derive(Clone, Copy, Debug, PartialEq, Eq, Structural)]
pub enum Priority {
    Low,
    Normal,
    High,
    Urgent,
}

/// What a priority command may ask for: one of the four levels, or a
/// reset back to `Normal`.
#[derive(Clone, Copy, Debug, PartialEq, Eq, Structural)]
pub enum PriorityChoice {
    Low,
    Normal,
    High,
    Urgent,
    Reset,
}

impl PriorityChoice {
    /// The level actually written on the ticket row: `Reset` collapses
    /// to `Normal`.
    pub open spec fn spec_applied(self) -> Priority {
        match self {
            PriorityChoice::Low => Priority::Low,
            PriorityChoice::Normal => Priority::Normal,
            PriorityChoice::High => Priority::High,
            PriorityChoice::Urgent => Priority::Urgent,
            PriorityChoice::Reset => Priority::Normal,
        }
    }

    /// Whether this choice starts a recurring notification task
    /// (`Low`, `High` and `Urgent` do; `Normal` and `Reset` instead
    /// cancel the ticket's lease).
    pub open spec fn spec_schedules(self) -> bool {
        match self {
            PriorityChoice::Low | PriorityChoice::High | PriorityChoice::Urgent => true,
            PriorityChoice::Normal | PriorityChoice::Reset => false,
        }
    }

    #[verifier::when_used_as_spec(spec_applied)]
    pub fn applied(self) -> (p: Priority)
        ensures
            p == self.spec_applied(),
    {
        match self {
            PriorityChoice::Low => Priority::Low,
            PriorityChoice::Normal => Priority::Normal,
            PriorityChoice::High => Priority::High,
            PriorityChoice::Urgent => Priority::Urgent,
            PriorityChoice::Reset => Priority::Normal,
        }
    }

    #[verifier::when_used_as_spec(spec_schedules)]
    pub fn schedules(self) -> (b: bool)
        ensures
            b == self.spec_schedules(),
    {
        match self {
            PriorityChoice::Low | PriorityChoice::High | PriorityChoice::Urgent => true,
            PriorityChoice::Normal | PriorityChoice::Reset => false,
        }
    }
}

/// Lifecycle state recorded on a ticket row.  Closing deletes the row
/// outright, so a stored ticket is normally `Open`.
#[derive(Clone, Copy, Debug, PartialEq, Eq, Structural)]
pub enum TicketStatus {
    Open,
    Closed,
}

/// One support conversation.
#[derive(Clone, Copy, Debug, PartialEq, Eq)]
pub struct Ticket {
    pub id: u64,
    pub guild_id: u64,
    pub channel_id: u64,
    pub ticket_number: u64,
    pub owner_id: u64,
    pub category_id: Option<u64>,
    pub claimed_by: Option<u64>,
    pub assigned_to: Option<u64>,
    pub status: TicketStatus,
    pub priority: Option<Priority>,
    pub created_at: u64,
    pub closed_at: Option<u64>,
    pub last_activity: u64,
    pub opening_message_id: Option<u64>,
    pub has_messages: bool,
}

impl Ticket {
    pub open spec fn spec_is_open(&self) -> bool {
        self.status == TicketStatus::Open
    }

    pub open spec fn spec_is_claimed(&self) -> bool {
        self.claimed_by is Some
    }

    #[verifier::when_used_as_spec(spec_is_open)]
    pub fn is_open(&self) -> (b: bool)
        ensures
            b == self.spec_is_open(),
    {
        matches!(self.status, TicketStatus::Open)
    }

    #[verifier::when_used_as_spec(spec_is_claimed)]
    pub fn is_claimed(&self) -> (b: bool)
        ensures
            b == self.spec_is_claimed(),
    {
        matches!(self.claimed_by, Some(_))
    }
}

/// A request for recurring staff attention on a ticket that has not
/// received a staff message yet.  At most one per ticket.
#[derive(Clone, Copy, Debug, PartialEq, Eq)]
pub struct Escalation {
    pub ticket_id: u64,
    pub requester_id: u64,
    pub active: bool,
    pub last_ping: u64,
}

/// A user-scheduled reminder, consumed by the reminder sweep.
#[derive(Clone, Debug, PartialEq, Eq)]
pub struct Reminder {
    pub id: u64,
    pub user_id: u64,
    pub channel_id: u64,
    pub guild_id: Option<u64>,
    pub message_id: Option<u64>,
    pub reason: String,
    pub remind_at: u64,
    pub created_at: u64,
    pub completed: bool,
}

/// One message recorded in a ticket's durable history.
#[derive(Clone, Copy, Debug, PartialEq, Eq)]
pub struct StoredMessage {
    pub ticket_id: u64,
    pub message_id: u64,
    pub author_id: u64,
}

/// Per-guild settings the core reads.
#[derive(Clone, Copy, Debug, PartialEq, Eq)]
pub struct GuildConfig {
    pub guild_id: u64,
    pub ticket_category_id: Option<u64>,
    pub log_channel_id: Option<u64>,
    pub transcript_channel_id: Option<u64>,
    pub ping_role_id: Option<u64>,
    pub ticket_limit_per_user: Option<u32>,
    pub autoclose_enabled: bool,
    pub autoclose_minutes: Option<u32>,
}

impl GuildConfig {
    /// A freshly registered guild: nothing configured yet.
    pub open spec fn spec_fresh(guild_id: u64) -> GuildConfig {
        GuildConfig {
            guild_id,
            ticket_category_id: None,
            log_channel_id: None,
            transcript_channel_id: None,
            ping_role_id: None,
            ticket_limit_per_user: None,
            autoclose_enabled: false,
            autoclose_minutes: None,
        }
    }

    pub fn fresh(guild_id: u64) -> (g: GuildConfig)
        ensures
            g == GuildConfig::spec_fresh(guild_id),
    {
        GuildConfig {
            guild_id,
            ticket_category_id: None,
            log_channel_id: None,
            transcript_channel_id: None,
            ping_role_id: None,
            ticket_limit_per_user: None,
            autoclose_enabled: false,
            autoclose_minutes: None,
        }
    }
}

/// Grant of a support role to a guild role id.
#[derive(Clone, Copy, Debug, PartialEq, Eq)]
pub struct SupportRole {
    pub guild_id: u64,
    pub role_id: u64,
}

/// Whether a blacklist entry targets a user or a whole guild.
#[derive(Clone, Copy, Debug, PartialEq, Eq, Structural)]
pub enum BlacklistKind {
    User,
    Guild,
}

/// One blacklist row.
#[derive(Clone, Copy, Debug, PartialEq, Eq)]
pub struct BlacklistEntry {
    pub target_id: u64,
    pub kind: BlacklistKind,
}

} // verus!
