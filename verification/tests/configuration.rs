//! The configuration record and the webhook registry.

use ticketflow::config::{
    get_command_webhook, get_guild_webhook, get_interaction_webhook, get_postgres_webhook,
    get_redis_webhook, init_webhooks, Attachment, Config,
};

fn sample_config() -> Config {
    Config {
        discord_token: "token".to_string(),
        application_id: 1,
        database_url: "postgres://localhost/tickets".to_string(),
        backup_database_url: None,
        redis_url: "redis://localhost".to_string(),
        owner_id: 42,
        guild_webhook: Some("https://example.test/guild".to_string()),
        command_webhook: None,
        interaction_webhook: Some("https://example.test/interaction".to_string()),
        postgres_webhook: None,
        redis_webhook: Some("https://example.test/redis".to_string()),
    }
}

#[test]
fn webhooks_mirror_the_configuration() {
    let w = init_webhooks(sample_config());
    assert_eq!(
        get_guild_webhook(&w).as_deref(),
        Some("https://example.test/guild")
    );
    assert_eq!(get_command_webhook(&w).as_deref(), None);
    assert_eq!(
        get_interaction_webhook(&w).as_deref(),
        Some("https://example.test/interaction")
    );
    assert_eq!(get_postgres_webhook(&w).as_deref(), None);
    assert_eq!(
        get_redis_webhook(&w).as_deref(),
        Some("https://example.test/redis")
    );
}

#[test]
fn attachments_carry_their_metadata() {
    let a = Attachment {
        filename: "log.txt".to_string(),
        url: "https://example.test/log.txt".to_string(),
        size: 512,
    };
    let b = a.clone();
    assert_eq!(b.filename, "log.txt");
    assert_eq!(b.url, "https://example.test/log.txt");
    assert_eq!(b.size, 512);
}
