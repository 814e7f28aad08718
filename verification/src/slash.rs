//! The structured-interaction surface: the inbound event model, the
//! extraction of a routing path from nested option groups, the slash
//! dispatcher, and the response payload builders.

use vstd::prelude::*;
use vstd::string::StringExecFns;

use crate::cmd::{
    found_at, lemma_find_entry_empty, lemma_four_roots, lemma_resolve_found, spec_resolve,
    CommandFramework, DispatchDecision, find_entry,
};
use crate::ctx::{
    CommandContext, InteractionOption, OptionValue, ResponseKind, ResponsePayload, SlashPayload,
};

verus! {

/// A structured slash-style interaction, reduced to the fields routing
/// reads.  The caller (the gateway side) feeds only application
/// commands in here; pings and component interactions never reach the
/// dispatcher.
pub struct InteractionEvent {
    pub id: u64,
    pub token: String,
    pub command_name: String,
    /// The ordered options of the invocation; a subcommand or group,
    /// when present, stands first.
    pub options: Vec<InteractionOption>,
    /// The channel the interaction came from, when the platform names
    /// one.
    pub channel_id: Option<u64>,
}

/// The routing path of an interaction: the command name, extended by a
/// subcommand name and once more by a subcommand inside a group,
/// descending at most two structured levels.  Leaf-level option values
/// contribute nothing to the path.
pub open spec fn spec_path(name: Seq<char>, opts: Seq<InteractionOption>) -> Seq<Seq<char>> {
    if opts.len() == 0 {
        seq![name]
    } else {
        match opts[0].value {
            OptionValue::SubCommand(_) => seq![name, opts[0].name@],
            OptionValue::SubCommandGroup(inner) => {
                if inner@.len() > 0 && (inner@[0].value matches OptionValue::SubCommand(_)) {
                    seq![name, opts[0].name@, inner@[0].name@]
                } else {
                    seq![name, opts[0].name@]
                }
            },
            _ => seq![name],
        }
    }
}

/// The leaf-level options of an interaction: what remains after
/// routing descended past the subcommand levels.  These become the
/// handler's `resolved_options` and are never used for routing.
pub open spec fn spec_resolved_opts(opts: Seq<InteractionOption>) -> Seq<InteractionOption> {
    if opts.len() == 0 {
        opts
    } else {
        match opts[0].value {
            OptionValue::SubCommand(inner) => inner@,
            OptionValue::SubCommandGroup(inner) => {
                if inner@.len() > 0 {
                    match inner@[0].value {
                        OptionValue::SubCommand(inner2) => inner2@,
                        _ => inner@,
                    }
                } else {
                    inner@
                }
            },
            _ => opts,
        }
    }
}

/// Dispatches one structured interaction: extracts the routing path
/// from the command name and the nested option groups, resolves it,
/// and on a match builds the interaction-shaped execution context.  A
/// root miss and a partial subcommand path both stay silent.
pub fn handle(framework: &CommandFramework, event: InteractionEvent) -> (d: DispatchDecision)
    ensures
        ({
            let path = spec_path(event.command_name@, event.options@);
            let ropts = spec_resolved_opts(event.options@);
            match d {
                DispatchDecision::NoMatch => spec_resolve(framework.entries(), path, true)
                    is NotFound,
                DispatchDecision::IncompletePath => spec_resolve(framework.entries(), path, true)
                    is Incomplete,
                DispatchDecision::Invoke { handler, ctx } => ({
                    &&& (found_at(framework.entries(), path) matches Some(cd) && cd.handler
                        == handler)
                    &&& ctx.wf()
                    &&& ctx.command_type is SLASH
                    &&& (ctx.slash matches Some(s) && (s.id == event.id && s.token@ == event.token@
                        && s.resolved_options@ == ropts))
                }),
            }
        }),
{
    let ghost opts0: Seq<InteractionOption> = event.options@;
    let ghost name0: Seq<char> = event.command_name@;
    let InteractionEvent { id, token, command_name, options, channel_id: _ } = event;
    let mut path: Vec<String> = Vec::new();
    path.push(command_name);
    let resolved: Vec<InteractionOption>;
    if options.len() == 0 {
        resolved = options;
        proof {
            assert(path.deep_view() =~= spec_path(name0, opts0));
            assert(resolved@ =~= spec_resolved_opts(opts0));
        }
    } else {
        let mut opts = options;
        let first = opts.remove(0);
        proof {
            assert(first == opts0[0]);
        }
        match first.value {
            OptionValue::SubCommand(inner) => {
                path.push(first.name);
                resolved = inner;
                proof {
                    assert(path.deep_view() =~= spec_path(name0, opts0));
                    assert(resolved@ =~= spec_resolved_opts(opts0));
                }
            },
            OptionValue::SubCommandGroup(inner) => {
                path.push(first.name);
                let ghost inner0: Seq<InteractionOption> = inner@;
                if inner.len() > 0 {
                    let mut ig = inner;
                    let second = ig.remove(0);
                    proof {
                        assert(second == inner0[0]);
                    }
                    match second.value {
                        OptionValue::SubCommand(i2) => {
                            path.push(second.name);
                            resolved = i2;
                            proof {
                                assert(path.deep_view() =~= spec_path(name0, opts0));
                                assert(resolved@ =~= spec_resolved_opts(opts0));
                            }
                        },
                        other => {
                            ig.insert(0, InteractionOption { name: second.name, value: other });
                            resolved = ig;
                            proof {
                                assert(resolved@[0] == inner0[0]);
                                assert(resolved@ =~= inner0);
                                assert(path.deep_view() =~= spec_path(name0, opts0));
                                assert(resolved@ =~= spec_resolved_opts(opts0));
                            }
                        },
                    }
                } else {
                    resolved = inner;
                    proof {
                        assert(path.deep_view() =~= spec_path(name0, opts0));
                        assert(resolved@ =~= spec_resolved_opts(opts0));
                    }
                }
            },
            other => {
                opts.insert(0, InteractionOption { name: first.name, value: other });
                resolved = opts;
                proof {
                    assert(resolved@[0] == opts0[0]);
                    assert(resolved@ =~= opts0);
                    assert(path.deep_view() =~= spec_path(name0, opts0));
                    assert(resolved@ =~= spec_resolved_opts(opts0));
                }
            },
        }
    }
    let ghost pv: Seq<Seq<char>> = path.deep_view();
    match framework.resolve(&path) {
        crate::cmd::ResolveOutcome::NotFound => DispatchDecision::NoMatch,
        crate::cmd::ResolveOutcome::Incomplete(_) => DispatchDecision::IncompletePath,
        crate::cmd::ResolveOutcome::Found(desc) => {
            let handler = desc.handler;
            proof {
                lemma_resolve_found(framework.entries(), pv, true);
            }
            let ctx = CommandContext::for_slash(
                SlashPayload { id, token, resolved_options: resolved },
            );
            DispatchDecision::Invoke { handler, ctx }
        },
    }
}

/// The kinds of option the bot's published command schemas use.
#[derive(PartialEq, Eq, Structural, Clone, Copy, Debug)]
pub enum OptionKind {
    /// A plain string argument.
    StringOption,
    /// A subcommand level.
    SubCommand,
    /// A subcommand group level.
    SubCommandGroup,
}

/// Schema of one option of a published command, nested for subcommand
/// levels.
pub struct OptionSchema {
    pub name: String,
    pub description: String,
    pub kind: OptionKind,
    pub required: Option<bool>,
    pub options: Vec<OptionSchema>,
}

/// The flat record published for one root command: its name, its
/// description, and its option schemas (including nested subcommand
/// schemas).
pub struct CommandSchema {
    pub name: String,
    pub description: String,
    pub options: Vec<OptionSchema>,
}

/// One root command of the slash surface: the schema published to the
/// platform, and either a handler (a leaf) or nested subcommands.
pub struct CommandWrapper {
    pub command: CommandSchema,
    pub function: Option<crate::cmd::HandlerId>,
    pub subcommands: Option<Vec<crate::cmd::CommandEntry>>,
}

/// The bot's slash commands, in registration order: `ping`, `uwu` and
/// `stats` as leaves, and `server` as a group with the `info`
/// subcommand.  The schemas are what the startup code publishes to the
/// platform's command-registration endpoint.
pub fn commands() -> (r: Vec<CommandWrapper>)
    ensures
        r@.len() == 4,
        r@[0].command.name@ == "ping"@ && r@[0].command.description@
            == "Get the current ping to Discord"@ && r@[0].command.options@.len() == 0 && r@[0].function
            == Some(crate::cmd::HANDLER_PING) && r@[0].subcommands is None,
        r@[1].command.name@ == "uwu"@ && r@[1].command.description@ == "Uwuify a piece of text"@
            && r@[1].function == Some(crate::cmd::HANDLER_UWU) && r@[1].subcommands is None,
        r@[1].command.options@.len() == 1 && r@[1].command.options@[0].name@ == "text"@
            && r@[1].command.options@[0].description@ == "The text you want to process"@
            && r@[1].command.options@[0].kind is StringOption && r@[1].command.options@[0].required
            == Some(true) && r@[1].command.options@[0].options@.len() == 0,
        r@[2].command.name@ == "stats"@ && r@[2].command.description@ == "Server statistics"@
            && r@[2].command.options@.len() == 0 && r@[2].function == Some(
            crate::cmd::HANDLER_STATS,
        ) && r@[2].subcommands is None,
        r@[3].command.name@ == "server"@ && r@[3].command.description@ == "Server statistics"@
            && r@[3].function is None,
        r@[3].command.options@.len() == 1 && r@[3].command.options@[0].name@ == "info"@
            && r@[3].command.options@[0].description@ == "Get info about the server"@
            && r@[3].command.options@[0].kind is SubCommand && r@[3].command.options@[0].required
            is None && r@[3].command.options@[0].options@.len() == 0,
        r@[3].subcommands matches Some(sc) && (sc@.len() == 1 && sc@[0].0@ == "info"@ && (sc@[0].1
            matches crate::cmd::CommandGroup::Command(d) && (d.name@ == "info"@ && d.description@
            == "Get info about the server"@ && d.handler == crate::cmd::HANDLER_GUILD_INFO))),
{
    let mut r: Vec<CommandWrapper> = Vec::new();
    r.push(
        CommandWrapper {
            command: CommandSchema {
                name: String::from_str("ping"),
                description: String::from_str("Get the current ping to Discord"),
                options: Vec::new(),
            },
            function: Some(crate::cmd::HANDLER_PING),
            subcommands: None,
        },
    );
    let mut uwu_options: Vec<OptionSchema> = Vec::new();
    uwu_options.push(
        OptionSchema {
            name: String::from_str("text"),
            description: String::from_str("The text you want to process"),
            kind: OptionKind::StringOption,
            required: Some(true),
            options: Vec::new(),
        },
    );
    r.push(
        CommandWrapper {
            command: CommandSchema {
                name: String::from_str("uwu"),
                description: String::from_str("Uwuify a piece of text"),
                options: uwu_options,
            },
            function: Some(crate::cmd::HANDLER_UWU),
            subcommands: None,
        },
    );
    r.push(
        CommandWrapper {
            command: CommandSchema {
                name: String::from_str("stats"),
                description: String::from_str("Server statistics"),
                options: Vec::new(),
            },
            function: Some(crate::cmd::HANDLER_STATS),
            subcommands: None,
        },
    );
    let mut server_options: Vec<OptionSchema> = Vec::new();
    server_options.push(
        OptionSchema {
            name: String::from_str("info"),
            description: String::from_str("Get info about the server"),
            kind: OptionKind::SubCommand,
            required: None,
            options: Vec::new(),
        },
    );
    let mut server_subcommands: Vec<crate::cmd::CommandEntry> = Vec::new();
    server_subcommands.push(
        (
            String::from_str("info"),
            crate::cmd::CommandGroup::Command(
                crate::cmd::CommandInstance {
                    name: String::from_str("info"),
                    description: String::from_str("Get info about the server"),
                    handler: crate::cmd::HANDLER_GUILD_INFO,
                },
            ),
        ),
    );
    r.push(
        CommandWrapper {
            command: CommandSchema {
                name: String::from_str("server"),
                description: String::from_str("Server statistics"),
                options: server_options,
            },
            function: None,
            subcommands: Some(server_subcommands),
        },
    );
    r
}


/// Builds the slash-command registry matching `commands`: the `ping`,
/// `uwu` and `stats` leaves and the `server info` subcommand.
/// Registration of this fixed set always succeeds, each of the four
/// paths resolves to its descriptor, and nothing else is registered.
pub fn slash_framework() -> (r: Result<CommandFramework, crate::cmd::RegisterError>)
    ensures
        r is Ok,
        r matches Ok(f) ==> (found_at(f.entries(), seq!["ping"@]) matches Some(d) && (d.name@
            == "ping"@ && d.description@ == "Get the current ping to Discord"@ && d.handler
            == crate::cmd::HANDLER_PING)),
        r matches Ok(f) ==> (found_at(f.entries(), seq!["uwu"@]) matches Some(d) && (d.name@
            == "uwu"@ && d.description@ == "Uwuify a piece of text"@ && d.handler
            == crate::cmd::HANDLER_UWU)),
        r matches Ok(f) ==> (found_at(f.entries(), seq!["stats"@]) matches Some(d) && (d.name@
            == "stats"@ && d.description@ == "Server statistics"@ && d.handler
            == crate::cmd::HANDLER_STATS)),
        r matches Ok(f) ==> (found_at(f.entries(), seq!["server"@, "info"@]) matches Some(d) && (
        d.name@ == "info"@ && d.description@ == "Get info about the server"@ && d.handler
            == crate::cmd::HANDLER_GUILD_INFO)),
        r matches Ok(f) ==> (forall|q: Seq<Seq<char>>|
            #[trigger] found_at(f.entries(), q) is Some ==> (q.len() >= 1 && (q[0] == "ping"@
                || q[0] == "uwu"@ || q[0] == "stats"@ || q[0] == "server"@))),
        r matches Ok(f) ==> f.wf(),
{
    let mut f = CommandFramework::empty();
    let ghost t0 = f.entries();
    let cmd_ping = crate::cmd::CommandInstance {
        name: String::from_str("ping"),
        description: String::from_str("Get the current ping to Discord"),
        handler: crate::cmd::HANDLER_PING,
    };
    proof {
        lemma_find_entry_empty("ping"@);
    }
    let r1 = f.add_command(cmd_ping);
    let ghost t1 = f.entries();
    proof {
        assert(r1 is Ok);
    }
    r1?;
    let cmd_uwu = crate::cmd::CommandInstance {
        name: String::from_str("uwu"),
        description: String::from_str("Uwuify a piece of text"),
        handler: crate::cmd::HANDLER_UWU,
    };
    proof {
        reveal_strlit("ping");
        reveal_strlit("uwu");
        assert("ping"@.len() == 4);
        assert("uwu"@.len() == 3);
        assert("uwu"@ != "ping"@);
        lemma_find_entry_empty("uwu"@);
        assert(find_entry(t1, "uwu"@) is None);
    }
    let r2 = f.add_command(cmd_uwu);
    let ghost t2 = f.entries();
    proof {
        assert(r2 is Ok);
    }
    r2?;
    let cmd_stats = crate::cmd::CommandInstance {
        name: String::from_str("stats"),
        description: String::from_str("Server statistics"),
        handler: crate::cmd::HANDLER_STATS,
    };
    proof {
        reveal_strlit("ping");
        reveal_strlit("uwu");
        reveal_strlit("stats");
        assert("ping"@.len() == 4);
        assert("uwu"@.len() == 3);
        assert("stats"@.len() == 5);
        assert("stats"@ != "ping"@ && "stats"@ != "uwu"@);
        lemma_find_entry_empty("stats"@);
        assert(find_entry(t2, "stats"@) is None);
    }
    let r3 = f.add_command(cmd_stats);
    let ghost t3 = f.entries();
    proof {
        assert(r3 is Ok);
    }
    r3?;
    let cmd_info = crate::cmd::CommandInstance {
        name: String::from_str("info"),
        description: String::from_str("Get info about the server"),
        handler: crate::cmd::HANDLER_GUILD_INFO,
    };
    let mut server_path: Vec<String> = Vec::new();
    server_path.push(String::from_str("server"));
    server_path.push(String::from_str("info"));
    proof {
        assert(server_path.deep_view() =~= seq!["server"@, "info"@]);
        reveal_strlit("ping");
        reveal_strlit("uwu");
        reveal_strlit("stats");
        reveal_strlit("server");
        assert("ping"@.len() == 4);
        assert("uwu"@.len() == 3);
        assert("stats"@.len() == 5);
        assert("server"@.len() == 6);
        assert("server"@ != "ping"@ && "server"@ != "uwu"@ && "server"@ != "stats"@);
        lemma_find_entry_empty("server"@);
        assert(find_entry(t3, "server"@) is None);
        assert(seq!["server"@, "info"@][0] == "server"@);
        assert(crate::cmd::can_insert(t3, seq!["server"@, "info"@]));
    }
    let r4 = f.register(&server_path, cmd_info);
    let ghost t4 = f.entries();
    proof {
        assert(r4 is Ok);
    }
    r4?;
    proof {
        lemma_four_roots(
            t0,
            t1,
            t2,
            t3,
            t4,
            seq!["ping"@],
            seq!["uwu"@],
            seq!["stats"@],
            seq!["server"@, "info"@],
            cmd_ping,
            cmd_uwu,
            cmd_stats,
            cmd_info,
        );
        assert(seq!["ping"@].is_prefix_of(seq!["ping"@])) by {
            assert(seq!["ping"@].subrange(0, 1) =~= seq!["ping"@]);
        }
        assert(seq!["uwu"@].is_prefix_of(seq!["uwu"@])) by {
            assert(seq!["uwu"@].subrange(0, 1) =~= seq!["uwu"@]);
        }
        assert(seq!["stats"@].is_prefix_of(seq!["stats"@])) by {
            assert(seq!["stats"@].subrange(0, 1) =~= seq!["stats"@]);
        }
        assert(found_at(t4, seq!["ping"@]) is Some);
        assert(found_at(t4, seq!["uwu"@]) is Some);
        assert(found_at(t4, seq!["stats"@]) is Some);
        assert(found_at(t4, seq!["server"@, "info"@]) == Some(cmd_info));
        assert(seq!["server"@, "info"@][0] == "server"@);
    }
    Ok(f)
}

/// An ephemeral channel-message response reporting an error; only the
/// invoking user sees it.
pub fn error(msg: &str) -> (r: ResponsePayload)
    ensures
        r.kind is ChannelMessageWithSource,
        r.content matches Some(c) && c@ == msg@,
        r.ephemeral == true,
{
    ResponsePayload {
        kind: ResponseKind::ChannelMessageWithSource,
        content: Some(String::from_str(msg)),
        ephemeral: true,
    }
}

/// A plain channel-message response, visible to everyone.
pub fn message(msg: &str) -> (r: ResponsePayload)
    ensures
        r.kind is ChannelMessageWithSource,
        r.content matches Some(c) && c@ == msg@,
        r.ephemeral == false,
{
    ResponsePayload {
        kind: ResponseKind::ChannelMessageWithSource,
        content: Some(String::from_str(msg)),
        ephemeral: false,
    }
}

/// A channel-message response only the invoking user sees.
pub fn ephemeral_message(msg: &str) -> (r: ResponsePayload)
    ensures
        r.kind is ChannelMessageWithSource,
        r.content matches Some(c) && c@ == msg@,
        r.ephemeral == true,
{
    ResponsePayload {
        kind: ResponseKind::ChannelMessageWithSource,
        content: Some(String::from_str(msg)),
        ephemeral: true,
    }
}

} // verus!
