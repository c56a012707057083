//! Process configuration and the audit-webhook registry.
//!
//! The configuration is read from the environment by the surrounding
//! process and handed in as plain values; the webhook registry simply
//! fixes, once, which of the configured audit endpoints exist.

use vstd::prelude::*;

verus! {

/// Everything the process is configured with.
#[derive(Clone, Debug)]
pub struct Config {
    pub discord_token: String,
    pub application_id: u64,
    pub database_url: String,
    pub backup_database_url: Option<String>,
    pub redis_url: String,
    pub owner_id: u64,
    pub guild_webhook: Option<String>,
    pub command_webhook: Option<String>,
    pub interaction_webhook: Option<String>,
    pub postgres_webhook: Option<String>,
    pub redis_webhook: Option<String>,
}

/// The audit-webhook endpoints, fixed at startup.
#[derive(Clone, Debug)]
pub struct Webhooks {
    pub guild: Option<String>,
    pub command: Option<String>,
    pub interaction: Option<String>,
    pub postgres: Option<String>,
    pub redis: Option<String>,
}

/// Fixes the webhook registry from the configuration: each endpoint
/// is exactly the configured one.
pub fn init_webhooks(config: Config) -> (w: Webhooks)
    ensures
        w.guild == config.guild_webhook,
        w.command == config.command_webhook,
        w.interaction == config.interaction_webhook,
        w.postgres == config.postgres_webhook,
        w.redis == config.redis_webhook,
{
    Webhooks {
        guild: config.guild_webhook,
        command: config.command_webhook,
        interaction: config.interaction_webhook,
        postgres: config.postgres_webhook,
        redis: config.redis_webhook,
    }
}

/// The endpoint for guild join/leave audit messages, if configured.
pub fn get_guild_webhook(w: &Webhooks) -> (r: &Option<String>)
    ensures
        *r == w.guild,
{
    &w.guild
}

/// The endpoint for command audit messages, if configured.
pub fn get_command_webhook(w: &Webhooks) -> (r: &Option<String>)
    ensures
        *r == w.command,
{
    &w.command
}

/// The endpoint for interaction audit messages, if configured.
pub fn get_interaction_webhook(w: &Webhooks) -> (r: &Option<String>)
    ensures
        *r == w.interaction,
{
    &w.interaction
}

/// The endpoint for relational-store audit messages, if configured.
pub fn get_postgres_webhook(w: &Webhooks) -> (r: &Option<String>)
    ensures
        *r == w.postgres,
{
    &w.postgres
}

/// The endpoint for cache audit messages, if configured.
pub fn get_redis_webhook(w: &Webhooks) -> (r: &Option<String>)
    ensures
        *r == w.redis,
{
    &w.redis
}

/// A file attached to a recorded message.
#[derive(Clone, Debug)]
pub struct Attachment {
    pub filename: String,
    pub url: String,
    pub size: u64,
}

} // verus!
