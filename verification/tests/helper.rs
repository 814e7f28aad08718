use oshiro::helper::{
    elapsed_between, get_cdn_guild_asset, hash_to_cdn_user_asset, GuildAssetType, Timer,
    UserAssetType,
};
use oshiro::strutil::{i64_to_string, join_str, starts_with, str_eq, u64_to_string};

#[test]
fn user_asset_urls_point_at_the_cdn() {
    assert_eq!(
        hash_to_cdn_user_asset(UserAssetType::Avatar, "123", "abcdef"),
        "https://cdn.discordapp.com/avatars/123/abcdef.png"
    );
    assert_eq!(
        hash_to_cdn_user_asset(UserAssetType::DefaultAvatar, "9", "h"),
        "https://cdn.discordapp.com/embed/avatars/9/h.png"
    );
    assert_eq!(
        hash_to_cdn_user_asset(UserAssetType::Banner, "5", "x"),
        "https://cdn.discordapp.com/banners/5/x.png"
    );
}

#[test]
fn guild_asset_urls_point_at_the_cdn() {
    assert_eq!(
        get_cdn_guild_asset(GuildAssetType::Icon, &42, "icon"),
        "https://cdn.discordapp.com/icons/42/icon.png"
    );
    assert_eq!(
        get_cdn_guild_asset(GuildAssetType::Splash, &1, "s"),
        "https://cdn.discordapp.com/splashes/1/s.png"
    );
    assert_eq!(
        get_cdn_guild_asset(GuildAssetType::DiscoverySplash, &1, "d"),
        "https://cdn.discordapp.com/discovery-splashes/1/d.png"
    );
    assert_eq!(
        get_cdn_guild_asset(GuildAssetType::Banner, &1, "b"),
        "https://cdn.discordapp.com/banners/1/b.png"
    );
}

#[test]
fn decimal_rendering_is_exact() {
    assert_eq!(u64_to_string(0), "0");
    assert_eq!(u64_to_string(7), "7");
    assert_eq!(u64_to_string(12345), "12345");
    assert_eq!(u64_to_string(u64::MAX), "18446744073709551615");
    assert_eq!(i64_to_string(0), "0");
    assert_eq!(i64_to_string(-42), "-42");
    assert_eq!(i64_to_string(i64::MIN), "-9223372036854775808");
}

#[test]
fn elapsed_between_subtracts_and_clamps() {
    assert_eq!(elapsed_between(10, 25), 15);
    assert_eq!(elapsed_between(25, 10), -15);
    assert_eq!(elapsed_between(i64::MIN, i64::MAX), i64::MAX);
    assert_eq!(elapsed_between(i64::MAX, i64::MIN), i64::MIN);
}

#[test]
fn timer_measures_a_nonnegative_span() {
    let t = Timer::new();
    assert!(t.elapsed_ms() >= 0);
}

#[test]
fn string_helpers_behave_like_std() {
    assert!(str_eq("abc", "abc"));
    assert!(!str_eq("abc", "abd"));
    assert!(starts_with("!ping", "!"));
    assert!(!starts_with("ping", "!"));
    assert!(starts_with("x", ""));
    let words: Vec<String> = vec!["a".to_string(), "b".to_string(), "c".to_string()];
    assert_eq!(join_str(&words, "\n"), "a\nb\nc");
    assert_eq!(join_str(&Vec::new(), "\n"), "");
}
