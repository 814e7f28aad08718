use oshiro::cmd::{
    CommandFramework, CommandInstance, DispatchDecision, RegisterError, ResolveOutcome,
    HANDLER_GUILD_INFO, HANDLER_HI_ECHO, HANDLER_PING, HANDLER_UWU,
};

fn leaf(name: &str, handler: u64) -> CommandInstance {
    CommandInstance {
        name: name.to_string(),
        description: format!("{} command", name),
        handler,
    }
}

fn path(parts: &[&str]) -> Vec<String> {
    parts.iter().map(|p| p.to_string()).collect()
}

#[test]
fn registered_leaf_resolves_to_its_descriptor() {
    let mut f = CommandFramework::empty();
    f.register(&path(&["ping"]), leaf("ping", HANDLER_PING)).unwrap();
    match f.resolve(&path(&["ping"])) {
        ResolveOutcome::Found(d) => {
            assert_eq!(d.name, "ping");
            assert_eq!(d.handler, HANDLER_PING);
        }
        _ => panic!("expected Found"),
    }
}

#[test]
fn nested_leaf_resolves_and_extra_elements_are_ignored() {
    let mut f = CommandFramework::empty();
    f.register(&path(&["server", "info"]), leaf("info", HANDLER_GUILD_INFO))
        .unwrap();
    match f.resolve(&path(&["server", "info"])) {
        ResolveOutcome::Found(d) => assert_eq!(d.handler, HANDLER_GUILD_INFO),
        _ => panic!("expected Found"),
    }
    // elements beyond a leaf are arguments, not routing keys
    match f.resolve(&path(&["server", "info", "extra", "words"])) {
        ResolveOutcome::Found(d) => assert_eq!(d.handler, HANDLER_GUILD_INFO),
        _ => panic!("expected Found"),
    }
}

#[test]
fn unknown_root_is_not_found() {
    let mut f = CommandFramework::empty();
    f.register(&path(&["ping"]), leaf("ping", HANDLER_PING)).unwrap();
    assert!(matches!(
        f.resolve(&path(&["pong"])),
        ResolveOutcome::NotFound
    ));
}

#[test]
fn missing_child_of_registered_prefix_is_incomplete_never_found() {
    let mut f = CommandFramework::empty();
    f.register(&path(&["server", "info"]), leaf("info", HANDLER_GUILD_INFO))
        .unwrap();
    assert!(matches!(
        f.resolve(&path(&["server", "bogus"])),
        ResolveOutcome::Incomplete(_)
    ));
    // a path that stops at the group is incomplete as well
    assert!(matches!(
        f.resolve(&path(&["server"])),
        ResolveOutcome::Incomplete(_)
    ));
}

#[test]
fn duplicate_registration_fails_and_leaves_tree_unchanged() {
    let mut f = CommandFramework::empty();
    f.register(&path(&["ping"]), leaf("ping", HANDLER_PING)).unwrap();
    let r = f.register(&path(&["ping"]), leaf("ping", HANDLER_UWU));
    assert_eq!(r, Err(RegisterError::DuplicateRegistration));
    // the first registration still stands
    match f.resolve(&path(&["ping"])) {
        ResolveOutcome::Found(d) => assert_eq!(d.handler, HANDLER_PING),
        _ => panic!("expected Found"),
    }
}

#[test]
fn duplicate_registration_of_nested_leaf_fails() {
    let mut f = CommandFramework::empty();
    f.register(&path(&["server", "info"]), leaf("info", HANDLER_GUILD_INFO))
        .unwrap();
    let r = f.register(&path(&["server", "info"]), leaf("info", HANDLER_PING));
    assert_eq!(r, Err(RegisterError::DuplicateRegistration));
}

#[test]
fn leaf_along_the_path_blocks_registration() {
    let mut f = CommandFramework::empty();
    f.register(&path(&["ping"]), leaf("ping", HANDLER_PING)).unwrap();
    let r = f.register(&path(&["ping", "deep"]), leaf("deep", HANDLER_UWU));
    assert_eq!(r, Err(RegisterError::DuplicateRegistration));
}

#[test]
fn empty_and_too_deep_paths_are_invalid() {
    let mut f = CommandFramework::empty();
    assert_eq!(
        f.register(&path(&[]), leaf("x", HANDLER_PING)),
        Err(RegisterError::InvalidPath)
    );
    assert_eq!(
        f.register(&path(&["a", "b", "c", "d"]), leaf("d", HANDLER_PING)),
        Err(RegisterError::InvalidPath)
    );
    // three levels are the bound, and still allowed
    assert!(f
        .register(&path(&["a", "b", "c"]), leaf("c", HANDLER_PING))
        .is_ok());
}

#[test]
fn create_registers_the_text_commands() {
    let f = CommandFramework::create().unwrap();
    for (name, handler) in [
        ("hi", HANDLER_HI_ECHO),
        ("ping", HANDLER_PING),
        ("uwu", HANDLER_UWU),
        ("guild_info", HANDLER_GUILD_INFO),
    ] {
        match f.resolve(&path(&[name])) {
            ResolveOutcome::Found(d) => {
                assert_eq!(d.name, name);
                assert_eq!(d.handler, handler);
            }
            _ => panic!("{} should be registered", name),
        }
    }
    assert!(matches!(
        f.resolve(&path(&["stats"])),
        ResolveOutcome::NotFound
    ));
}

#[test]
fn ping_text_message_dispatches_with_empty_remainder() {
    // register leaf "ping"; dispatch "!ping" on channel 7 with prefix "!"
    let mut f = CommandFramework::empty();
    f.register(&path(&["ping"]), leaf("ping", HANDLER_PING)).unwrap();
    match f.parse_command("!", "!ping", 7) {
        DispatchDecision::Invoke { handler, ctx } => {
            assert_eq!(handler, HANDLER_PING);
            let m = ctx.msg.expect("text context carries the message");
            assert_eq!(m.content, "!ping");
            assert_eq!(m.channel_id, 7);
            assert_eq!(ctx.stripped.as_deref(), Some(""));
            assert!(ctx.slash.is_none());
        }
        _ => panic!("expected Invoke"),
    }
}

#[test]
fn text_arguments_stay_verbatim_in_the_remainder() {
    let mut f = CommandFramework::empty();
    f.register(&path(&["uwu"]), leaf("uwu", HANDLER_UWU)).unwrap();
    match f.parse_command("!", "!uwu  hello world", 1) {
        DispatchDecision::Invoke { handler, ctx } => {
            assert_eq!(handler, HANDLER_UWU);
            assert_eq!(ctx.stripped.as_deref(), Some("  hello world"));
        }
        _ => panic!("expected Invoke"),
    }
}

#[test]
fn unknown_text_command_is_silently_dropped() {
    let mut f = CommandFramework::empty();
    f.register(&path(&["ping"]), leaf("ping", HANDLER_PING)).unwrap();
    assert!(matches!(
        f.parse_command("!", "!frobnicate now", 1),
        DispatchDecision::NoMatch
    ));
}
