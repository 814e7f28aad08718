//! The text the system commands put into their replies and embeds:
//! everything here is built from plain values the callers measured or
//! fetched, so the wording and layout are pinned down exactly.

use vstd::prelude::*;
use vstd::string::StringExecFns;

use crate::strutil::{i64_dec, i64_to_string, join_str, spec_join, u64_dec, u64_to_string};

verus! {

/// The body of the updated ping reply: the measured message round
/// trip, then one line per shard.
pub fn ping_update_text(msg_ms: i64, shard_lines: &Vec<String>) -> (r: String)
    ensures
        r@ == "pong!\nhttp: "@ + i64_dec(msg_ms as int) + "ms\n"@ + spec_join(
            shard_lines.deep_view(),
            "\n"@,
        ),
{
    let mut r = String::from_str("pong!\nhttp: ");
    let ms = i64_to_string(msg_ms);
    r.append(ms.as_str());
    r.append("ms\n");
    let lines = join_str(shard_lines, "\n");
    r.append(lines.as_str());
    proof {
        assert(r@ =~= "pong!\nhttp: "@ + i64_dec(msg_ms as int) + "ms\n"@ + spec_join(
            shard_lines.deep_view(),
            "\n"@,
        ));
    }
    r
}

/// One line of the ping reply describing a shard: its index, its
/// average websocket latency (already rendered by the caller) and its
/// heartbeat count.
pub fn shard_latency_line(index: u64, avg: &str, beats: u64) -> (r: String)
    ensures
        r@ == "shard id "@ + u64_dec(index as nat) + " - ws avg: "@ + avg@ + "ms - beats: "@
            + u64_dec(beats as nat),
{
    let mut r = String::from_str("shard id ");
    let i = u64_to_string(index);
    r.append(i.as_str());
    r.append(" - ws avg: ");
    r.append(avg);
    r.append("ms - beats: ");
    let b = u64_to_string(beats);
    r.append(b.as_str());
    proof {
        assert(r@ =~= "shard id "@ + u64_dec(index as nat) + " - ws avg: "@ + avg@
            + "ms - beats: "@ + u64_dec(beats as nat));
    }
    r
}

/// The system line of the stats embed.
pub fn running_on_text(system: &str, release: &str, hostname: &str) -> (r: String)
    ensures
        r@ == "running on "@ + system@ + " "@ + release@ + " ("@ + hostname@ + ")"@,
{
    let mut r = String::from_str("running on ");
    r.append(system);
    r.append(" ");
    r.append(release);
    r.append(" (");
    r.append(hostname);
    r.append(")");
    proof {
        assert(r@ =~= "running on "@ + system@ + " "@ + release@ + " ("@ + hostname@ + ")"@);
    }
    r
}

/// The cache line of the stats embed.
pub fn cache_stats_line(guilds: u64, users: u64, channels: u64) -> (r: String)
    ensures
        r@ == u64_dec(guilds as nat) + " guilds, "@ + u64_dec(users as nat) + " users, "@
            + u64_dec(channels as nat) + " channels"@,
{
    let mut r = u64_to_string(guilds);
    r.append(" guilds, ");
    let u = u64_to_string(users);
    r.append(u.as_str());
    r.append(" users, ");
    let c = u64_to_string(channels);
    r.append(c.as_str());
    r.append(" channels");
    proof {
        assert(r@ =~= u64_dec(guilds as nat) + " guilds, "@ + u64_dec(users as nat) + " users, "@
            + u64_dec(channels as nat) + " channels"@);
    }
    r
}

/// The discriminator shown after a user's name: nothing for the zero
/// discriminator, otherwise a hash sign and the number.
pub fn owner_discriminator_suffix(discriminator: u16) -> (r: String)
    ensures
        discriminator == 0 ==> r@ == Seq::<char>::empty(),
        discriminator != 0 ==> r@ == "#"@ + u64_dec(discriminator as nat),
{
    if discriminator == 0 {
        String::new()
    } else {
        let mut r = String::from_str("#");
        let d = u64_to_string(discriminator as u64);
        r.append(d.as_str());
        r
    }
}

/// The owner field of the guild embed: display name, discriminator
/// suffix, and the mention of the owner's id.
pub fn owner_field_text(name: &str, suffix: &str, id: u64) -> (r: String)
    ensures
        r@ == name@ + suffix@ + " (<@"@ + u64_dec(id as nat) + ">)"@,
{
    let mut r = String::from_str(name);
    r.append(suffix);
    r.append(" (<@");
    let i = u64_to_string(id);
    r.append(i.as_str());
    r.append(">)");
    proof {
        assert(r@ =~= name@ + suffix@ + " (<@"@ + u64_dec(id as nat) + ">)"@);
    }
    r
}

/// The channel-count field of the guild embed.
pub fn channels_field_text(count: u64) -> (r: String)
    ensures
        r@ == u64_dec(count as nat) + " (incl categories)"@,
{
    let mut r = u64_to_string(count);
    r.append(" (incl categories)");
    r
}

/// The member-count field of the guild embed; the platform does not
/// always report a count.
pub fn members_field_text(count: Option<u64>) -> (r: String)
    ensures
        count matches Some(c) ==> r@ == u64_dec(c as nat),
        count is None ==> r@ == "could not fetch"@,
{
    match count {
        Some(c) => u64_to_string(c),
        None => String::from_str("could not fetch"),
    }
}

/// The emoji and sticker field of the guild embed.
pub fn emoji_sticker_field_text(emojis: u64, stickers: u64) -> (r: String)
    ensures
        r@ == u64_dec(emojis as nat) + " emojis\n"@ + u64_dec(stickers as nat) + " stickers"@,
{
    let mut r = u64_to_string(emojis);
    r.append(" emojis\n");
    let s = u64_to_string(stickers);
    r.append(s.as_str());
    r.append(" stickers");
    proof {
        assert(r@ =~= u64_dec(emojis as nat) + " emojis\n"@ + u64_dec(stickers as nat)
            + " stickers"@);
    }
    r
}

/// The feature list of the guild embed, one feature per line inside a
/// code block.
pub fn features_block(features: &Vec<String>) -> (r: String)
    ensures
        r@ == "```"@ + spec_join(features.deep_view(), "\n"@) + "```"@,
{
    let mut r = String::from_str("```");
    let body = join_str(features, "\n");
    r.append(body.as_str());
    r.append("```");
    proof {
        assert(r@ =~= "```"@ + spec_join(features.deep_view(), "\n"@) + "```"@);
    }
    r
}

/// What the bot answers when it is pinged by name instead of through a
/// command.
pub fn prefix_info_text(prefix: &str) -> (r: String)
    ensures
        r@ == "My prefix is "@ + prefix@ + ", but you can ping me as well."@,
{
    let mut r = String::from_str("My prefix is ");
    r.append(prefix);
    r.append(", but you can ping me as well.");
    proof {
        assert(r@ =~= "My prefix is "@ + prefix@ + ", but you can ping me as well."@);
    }
    r
}

} // verus!
