use oshiro::cmd::{DispatchDecision, HANDLER_GUILD_INFO, HANDLER_PING, HANDLER_UWU};
use oshiro::ctx::{
    failure_reply, route_reply, CommandContext, InteractionOption, MessagePayload, OptionValue,
    ReplyAction, SlashPayload,
};
use oshiro::slash::{commands, handle, slash_framework, InteractionEvent};

fn interaction(name: &str, options: Vec<InteractionOption>) -> InteractionEvent {
    InteractionEvent {
        id: 99,
        token: "tok".to_string(),
        command_name: name.to_string(),
        options,
        channel_id: None,
    }
}

fn opt(name: &str, value: OptionValue) -> InteractionOption {
    InteractionOption {
        name: name.to_string(),
        value,
    }
}

#[test]
fn server_info_interaction_resolves_to_the_subcommand() {
    let f = slash_framework().unwrap();
    let event = interaction("server", vec![opt("info", OptionValue::SubCommand(vec![]))]);
    match handle(&f, event) {
        DispatchDecision::Invoke { handler, ctx } => {
            assert_eq!(handler, HANDLER_GUILD_INFO);
            let s = ctx.slash.expect("interaction context carries the payload");
            assert_eq!(s.id, 99);
            assert_eq!(s.token, "tok");
            assert!(s.resolved_options.is_empty());
            assert!(ctx.msg.is_none());
        }
        _ => panic!("expected Invoke"),
    }
}

#[test]
fn bogus_subcommand_is_incomplete_and_silent() {
    let f = slash_framework().unwrap();
    let event = interaction("server", vec![opt("bogus", OptionValue::SubCommand(vec![]))]);
    // the decision carries no reply: silence is the contract
    assert!(matches!(handle(&f, event), DispatchDecision::IncompletePath));
}

#[test]
fn root_interaction_with_string_option_resolves_to_the_leaf() {
    let f = slash_framework().unwrap();
    let event = interaction(
        "uwu",
        vec![opt("text", OptionValue::Str("hello".to_string()))],
    );
    match handle(&f, event) {
        DispatchDecision::Invoke { handler, ctx } => {
            assert_eq!(handler, HANDLER_UWU);
            let s = ctx.slash.unwrap();
            assert_eq!(s.resolved_options.len(), 1);
            assert_eq!(s.resolved_options[0].name, "text");
        }
        _ => panic!("expected Invoke"),
    }
}

#[test]
fn unknown_interaction_command_is_not_found() {
    let f = slash_framework().unwrap();
    let event = interaction("frobnicate", vec![]);
    assert!(matches!(handle(&f, event), DispatchDecision::NoMatch));
}

#[test]
fn subcommand_group_descends_two_levels() {
    let mut f = oshiro::cmd::CommandFramework::empty();
    let path: Vec<String> = vec!["a".to_string(), "b".to_string(), "c".to_string()];
    f.register(
        &path,
        oshiro::cmd::CommandInstance {
            name: "c".to_string(),
            description: "deep leaf".to_string(),
            handler: 42,
        },
    )
    .unwrap();
    let event = interaction(
        "a",
        vec![opt(
            "b",
            OptionValue::SubCommandGroup(vec![opt(
                "c",
                OptionValue::SubCommand(vec![opt("flag", OptionValue::Other)]),
            )]),
        )],
    );
    match handle(&f, event) {
        DispatchDecision::Invoke { handler, ctx } => {
            assert_eq!(handler, 42);
            let s = ctx.slash.unwrap();
            assert_eq!(s.resolved_options.len(), 1);
            assert_eq!(s.resolved_options[0].name, "flag");
        }
        _ => panic!("expected Invoke"),
    }
}

#[test]
fn failing_handler_on_interaction_gets_one_ephemeral_reply() {
    // handler for "uwu" fails with "missing text parameter" on an
    // interaction origin: exactly one reply, on the interaction, ephemeral,
    // containing that text
    let ctx = CommandContext::for_slash(SlashPayload {
        id: 7,
        token: "abc".to_string(),
        resolved_options: vec![],
    });
    let err = oshiro::novelty::uwu(&ctx).unwrap_err();
    assert_eq!(err, "missing text parameter");
    match failure_reply(&ctx, &err) {
        ReplyAction::InteractionReply {
            id,
            token,
            response,
        } => {
            assert_eq!(id, 7);
            assert_eq!(token, "abc");
            assert!(response.ephemeral);
            let content = response.content.unwrap();
            assert!(content.contains("missing text parameter"));
            assert_eq!(
                content,
                "error when running a command: missing text parameter"
            );
        }
        _ => panic!("the reply must use the interaction surface"),
    }
}

#[test]
fn failing_handler_on_text_gets_one_channel_reply() {
    let ctx = CommandContext::for_text(
        MessagePayload {
            content: "!x".to_string(),
            channel_id: 31,
        },
        "".to_string(),
    );
    match failure_reply(&ctx, "boom") {
        ReplyAction::NewMessage {
            channel_id,
            content,
        } => {
            assert_eq!(channel_id, 31);
            assert_eq!(content, "error when running a command: boom");
        }
        _ => panic!("the reply must use the text surface"),
    }
}

#[test]
fn route_reply_prefers_the_message_surface() {
    let m = MessagePayload {
        content: "!ping".to_string(),
        channel_id: 5,
    };
    match route_reply("pong".to_string(), None, Some(&m), None) {
        Some(ReplyAction::NewMessage {
            channel_id,
            content,
        }) => {
            assert_eq!(channel_id, 5);
            assert_eq!(content, "pong");
        }
        _ => panic!("expected a channel message"),
    }
}

#[test]
fn route_reply_uses_the_interaction_without_a_message() {
    let s = SlashPayload {
        id: 8,
        token: "t".to_string(),
        resolved_options: vec![],
    };
    match route_reply("hello".to_string(), None, None, Some(&s)) {
        Some(ReplyAction::InteractionReply {
            id,
            token,
            response,
        }) => {
            assert_eq!(id, 8);
            assert_eq!(token, "t");
            assert!(!response.ephemeral);
            assert_eq!(response.content.as_deref(), Some("hello"));
        }
        _ => panic!("expected an interaction reply"),
    }
}

#[test]
fn route_reply_without_any_surface_sends_nothing() {
    assert!(route_reply("x".to_string(), None, None, None).is_none());
}

#[test]
fn published_command_records_match_the_slash_set() {
    let cmds = commands();
    assert_eq!(cmds.len(), 4);
    assert_eq!(cmds[0].command.name, "ping");
    assert_eq!(cmds[0].command.description, "Get the current ping to Discord");
    assert_eq!(cmds[0].function, Some(HANDLER_PING));
    assert_eq!(cmds[1].command.name, "uwu");
    assert_eq!(cmds[1].command.options.len(), 1);
    assert_eq!(cmds[1].command.options[0].name, "text");
    assert_eq!(cmds[1].command.options[0].required, Some(true));
    assert_eq!(cmds[2].command.name, "stats");
    assert_eq!(cmds[3].command.name, "server");
    assert!(cmds[3].function.is_none());
    let sub = cmds[3].subcommands.as_ref().unwrap();
    assert_eq!(sub.len(), 1);
    assert_eq!(sub[0].0, "info");
}
