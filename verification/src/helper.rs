//! Helpers around the bot: a wall-clock timer and the CDN endpoints
//! where the chat platform serves user and guild assets.

use vstd::prelude::*;
use vstd::string::StringExecFns;

use crate::strutil::{u64_dec, u64_to_string};

verus! {

/// Relies on `chrono::Utc::now` and `chrono::DateTime::timestamp_millis`:
/// the current wall-clock time in milliseconds since the Unix epoch.
/// Nothing can be promised of the clock's value.
#[verifier::external_body]
fn now_utc_ms() -> i64 {
    chrono::Utc::now().timestamp_millis()
}

/// Milliseconds elapsed from `start` to `now`, clamped at the bounds of
/// `i64` instead of overflowing.
pub open spec fn spec_elapsed(start: int, now: int) -> int {
    if now - start > i64::MAX {
        i64::MAX as int
    } else if now - start < i64::MIN {
        i64::MIN as int
    } else {
        now - start
    }
}

/// Difference of two millisecond timestamps, clamped at the bounds of
/// `i64`.
pub fn elapsed_between(start: i64, now: i64) -> (r: i64)
    ensures
        r as int == spec_elapsed(start as int, now as int),
{
    let d: i128 = now as i128 - start as i128;
    if d > i64::MAX as i128 {
        i64::MAX
    } else if d < i64::MIN as i128 {
        i64::MIN
    } else {
        d as i64
    }
}

/// Measures wall-clock spans in milliseconds from the moment it was
/// created.
pub struct Timer {
    start: i64,
}

impl Timer {
    pub fn new() -> Timer {
        Timer { start: now_utc_ms() }
    }

    /// Milliseconds since the timer was created, as far as the clock
    /// tells them apart; the value depends on the clock and carries no
    /// further promise.
    pub fn elapsed_ms(&self) -> i64 {
        let now = now_utc_ms();
        elapsed_between(self.start, now)
    }
}

impl Default for Timer {
    fn default() -> Timer {
        Timer::new()
    }
}

/// The kinds of user asset the CDN serves.
pub enum UserAssetType {
    Avatar,
    DefaultAvatar,
    Banner,
}

/// The kinds of guild asset the CDN serves.
pub enum GuildAssetType {
    Icon,
    Splash,
    DiscoverySplash,
    Banner,
}

/// Path segment under which the CDN serves each user asset kind.
pub open spec fn user_asset_segment(t: UserAssetType) -> Seq<char> {
    match t {
        UserAssetType::Avatar => "avatars"@,
        UserAssetType::DefaultAvatar => "embed/avatars"@,
        UserAssetType::Banner => "banners"@,
    }
}

/// Path segment under which the CDN serves each guild asset kind.
pub open spec fn guild_asset_segment(t: GuildAssetType) -> Seq<char> {
    match t {
        GuildAssetType::Icon => "icons"@,
        GuildAssetType::Splash => "splashes"@,
        GuildAssetType::DiscoverySplash => "discovery-splashes"@,
        GuildAssetType::Banner => "banners"@,
    }
}

/// CDN endpoint for a user asset, built from the asset kind, the user
/// id and the asset hash.
pub fn hash_to_cdn_user_asset(asset_type: UserAssetType, userid: &str, useravatar: &str) -> (r:
    String)
    ensures
        r@ == "https://cdn.discordapp.com/"@ + user_asset_segment(asset_type) + "/"@ + userid@
            + "/"@ + useravatar@ + ".png"@,
{
    let seg: &str = match asset_type {
        UserAssetType::Avatar => "avatars",
        UserAssetType::DefaultAvatar => "embed/avatars",
        UserAssetType::Banner => "banners",
    };
    let mut r = String::from_str("https://cdn.discordapp.com/");
    r.append(seg);
    r.append("/");
    r.append(userid);
    r.append("/");
    r.append(useravatar);
    r.append(".png");
    proof {
        assert(r@ =~= "https://cdn.discordapp.com/"@ + user_asset_segment(asset_type) + "/"@
            + userid@ + "/"@ + useravatar@ + ".png"@);
    }
    r
}

/// CDN endpoint for a guild asset, built from the asset kind, the guild
/// id and the asset hash.
pub fn get_cdn_guild_asset(asset_type: GuildAssetType, guildid: &u64, guildicon: &str) -> (r:
    String)
    ensures
        r@ == "https://cdn.discordapp.com/"@ + guild_asset_segment(asset_type) + "/"@ + u64_dec(
            *guildid as nat) + "/"@ + guildicon@ + ".png"@,
{
    let seg: &str = match asset_type {
        GuildAssetType::Icon => "icons",
        GuildAssetType::Splash => "splashes",
        GuildAssetType::DiscoverySplash => "discovery-splashes",
        GuildAssetType::Banner => "banners",
    };
    let id = u64_to_string(*guildid);
    let mut r = String::from_str("https://cdn.discordapp.com/");
    r.append(seg);
    r.append("/");
    r.append(id.as_str());
    r.append("/");
    r.append(guildicon);
    r.append(".png");
    proof {
        assert(r@ =~= "https://cdn.discordapp.com/"@ + guild_asset_segment(asset_type) + "/"@
            + u64_dec(*guildid as nat) + "/"@ + guildicon@ + ".png"@);
    }
    r
}

} // verus!
