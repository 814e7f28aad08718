use oshiro::cmd::{greeting_text, message_action, MessageAction};
use oshiro::slash::{ephemeral_message, error, message};
use oshiro::system::{
    cache_stats_line, channels_field_text, emoji_sticker_field_text, features_block,
    members_field_text, owner_discriminator_suffix, owner_field_text, ping_update_text,
    prefix_info_text, running_on_text, shard_latency_line,
};

#[test]
fn ping_update_lists_the_shards() {
    let lines: Vec<String> = vec![
        "shard id 0 - ws avg: 1.5ms - beats: 3".to_string(),
        "shard id 1 - ws avg: 2.0ms - beats: 4".to_string(),
    ];
    assert_eq!(
        ping_update_text(17, &lines),
        "pong!\nhttp: 17ms\nshard id 0 - ws avg: 1.5ms - beats: 3\nshard id 1 - ws avg: 2.0ms - beats: 4"
    );
    assert_eq!(ping_update_text(-1, &Vec::new()), "pong!\nhttp: -1ms\n");
}

#[test]
fn shard_line_carries_index_average_and_beats() {
    assert_eq!(
        shard_latency_line(2, "3.250", 9),
        "shard id 2 - ws avg: 3.250ms - beats: 9"
    );
}

#[test]
fn stats_lines_are_exact() {
    assert_eq!(
        running_on_text("Linux", "6.1", "tinyhorse"),
        "running on Linux 6.1 (tinyhorse)"
    );
    assert_eq!(
        cache_stats_line(3, 250, 12),
        "3 guilds, 250 users, 12 channels"
    );
}

#[test]
fn guild_embed_fields_are_exact() {
    assert_eq!(owner_discriminator_suffix(0), "");
    assert_eq!(owner_discriminator_suffix(1234), "#1234");
    assert_eq!(owner_field_text("alice", "#1234", 77), "alice#1234 (<@77>)");
    assert_eq!(owner_field_text("bob", "", 5), "bob (<@5>)");
    assert_eq!(channels_field_text(14), "14 (incl categories)");
    assert_eq!(members_field_text(Some(200)), "200");
    assert_eq!(members_field_text(None), "could not fetch");
    assert_eq!(emoji_sticker_field_text(10, 2), "10 emojis\n2 stickers");
    let features: Vec<String> = vec!["COMMUNITY".to_string(), "NEWS".to_string()];
    assert_eq!(features_block(&features), "```COMMUNITY\nNEWS```");
}

#[test]
fn greeting_embeds_the_record() {
    assert_eq!(
        greeting_text("alice", "{\"id\": 1}"),
        "hello, alice. Here's some information about you:\n```{\"id\": 1}```"
    );
}

#[test]
fn prefix_hint_names_the_prefix() {
    assert_eq!(
        prefix_info_text("!"),
        "My prefix is !, but you can ping me as well."
    );
}

#[test]
fn response_builders_set_the_flags() {
    let e = error("bad");
    assert!(e.ephemeral);
    assert_eq!(e.content.as_deref(), Some("bad"));
    let m = message("hi");
    assert!(!m.ephemeral);
    assert_eq!(m.content.as_deref(), Some("hi"));
    let em = ephemeral_message("shh");
    assert!(em.ephemeral);
    assert_eq!(em.content.as_deref(), Some("shh"));
}

#[test]
fn bot_messages_are_ignored_unless_allowed() {
    let good: Vec<String> = vec!["200".to_string()];
    assert_eq!(
        message_action("!ping", true, "100", &good, "!", "42"),
        MessageAction::Ignore
    );
    assert_eq!(
        message_action("!ping", true, "200", &good, "!", "42"),
        MessageAction::Dispatch
    );
}

#[test]
fn prefixed_messages_dispatch_and_mentions_get_the_hint() {
    let none: Vec<String> = Vec::new();
    assert_eq!(
        message_action("!ping", false, "1", &none, "!", "42"),
        MessageAction::Dispatch
    );
    assert_eq!(
        message_action("<@42>", false, "1", &none, "!", "42"),
        MessageAction::PrefixInfo
    );
    assert_eq!(
        message_action("hello there", false, "1", &none, "!", "42"),
        MessageAction::Ignore
    );
}
