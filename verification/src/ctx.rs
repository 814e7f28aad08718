//! The normalized execution context handed to command handlers, and the
//! reply routing decisions: which channel an answer or an error report
//! travels back on, for each of the two inbound surfaces.

use vstd::prelude::*;
use vstd::string::StringExecFns;

use crate::cmd::CommandType;

verus! {

/// One value carried by a structured interaction option.
pub enum OptionValue {
    /// A plain string argument.
    Str(String),
    /// A subcommand with its nested options.
    SubCommand(Vec<InteractionOption>),
    /// A subcommand group with its nested options.
    SubCommandGroup(Vec<InteractionOption>),
    /// Any other scalar kind; its value plays no role in routing.
    Other,
}

/// One named option of a structured interaction.
pub struct InteractionOption {
    pub name: String,
    pub value: OptionValue,
}

/// What a plain text message contributes to the execution context.
pub struct MessagePayload {
    /// The raw message text, prefix included.
    pub content: String,
    /// The channel the message arrived on.
    pub channel_id: u64,
}

/// What a structured interaction contributes to the execution context.
pub struct SlashPayload {
    /// The interaction id used to respond.
    pub id: u64,
    /// The interaction token used to respond.
    pub token: String,
    /// The leaf-level options, after routing descended past any
    /// subcommand or subcommand-group levels.
    pub resolved_options: Vec<InteractionOption>,
}

/// The origin-agnostic bundle passed to every command handler.  Exactly
/// one of the two payloads is present, matching `command_type`.
pub struct CommandContext {
    pub command_type: CommandType,
    /// Present iff the event was a text message.
    pub msg: Option<MessagePayload>,
    /// The argument remainder of a text message: everything after the
    /// prefix and the command token, verbatim.  Present iff the event
    /// was a text message.
    pub stripped: Option<String>,
    /// Present iff the event was a structured interaction.
    pub slash: Option<SlashPayload>,
}

impl CommandContext {
    /// Exactly one payload is present, and it matches the origin.
    pub open spec fn wf(self) -> bool {
        match self.command_type {
            CommandType::TEXT => self.msg is Some && self.stripped is Some && self.slash is None,
            CommandType::SLASH => self.msg is None && self.stripped is None && self.slash is Some,
        }
    }

    /// Context for a text-message event.
    pub fn for_text(msg: MessagePayload, stripped: String) -> (r: CommandContext)
        ensures
            r.wf(),
            r.command_type is TEXT,
            r.msg == Some(msg),
            r.stripped == Some(stripped),
    {
        CommandContext {
            command_type: CommandType::TEXT,
            msg: Some(msg),
            stripped: Some(stripped),
            slash: None,
        }
    }

    /// Context for a structured-interaction event.
    pub fn for_slash(slash: SlashPayload) -> (r: CommandContext)
        ensures
            r.wf(),
            r.command_type is SLASH,
            r.slash == Some(slash),
    {
        CommandContext {
            command_type: CommandType::SLASH,
            msg: None,
            stripped: None,
            slash: Some(slash),
        }
    }

    /// The text payload; asking for it on an interaction context is a
    /// caller error, ruled out here rather than recovered from.
    pub fn text_msg(&self) -> (r: &MessagePayload)
        requires
            self.wf(),
            self.command_type is TEXT,
        ensures
            Some(*r) == self.msg,
    {
        match &self.msg {
            Some(m) => m,
            None => vstd::pervasive::unreached(),
        }
    }

    /// The argument remainder of a text message.
    pub fn stripped_text(&self) -> (r: &String)
        requires
            self.wf(),
            self.command_type is TEXT,
        ensures
            Some(*r) == self.stripped,
    {
        match &self.stripped {
            Some(s) => s,
            None => vstd::pervasive::unreached(),
        }
    }

    /// The interaction payload; asking for it on a text context is a
    /// caller error, ruled out here rather than recovered from.
    pub fn slash_payload(&self) -> (r: &SlashPayload)
        requires
            self.wf(),
            self.command_type is SLASH,
        ensures
            Some(*r) == self.slash,
    {
        match &self.slash {
            Some(s) => s,
            None => vstd::pervasive::unreached(),
        }
    }
}

/// The response kinds the bot sends back on an interaction.
pub enum ResponseKind {
    /// A channel message shown in response to the interaction.
    ChannelMessageWithSource,
}

/// A platform-independent description of one interaction response.
pub struct ResponsePayload {
    pub kind: ResponseKind,
    pub content: Option<String>,
    /// Whether the response is shown only to the invoking user.
    pub ephemeral: bool,
}

/// One outbound reply, addressed to the surface it must travel on.
pub enum ReplyAction {
    /// Send a fresh message to a channel.
    NewMessage { channel_id: u64, content: String },
    /// Respond to an interaction through its id and token.
    InteractionReply { id: u64, token: String, response: ResponsePayload },
}

/// Prefix of every user-visible report of a failed handler.
pub open spec fn error_prefix() -> Seq<char> {
    "error when running a command: "@
}

/// Builds the single error reply owed to the user when a handler fails,
/// addressed to the same surface the event arrived on.  The reply text
/// carries the failure's display text, and on an interaction the
/// response is ephemeral.
pub fn failure_reply(ctx: &CommandContext, error_text: &str) -> (r: ReplyAction)
    requires
        ctx.wf(),
    ensures
        ctx.command_type is TEXT ==> (ctx.msg matches Some(m) && (r
            matches ReplyAction::NewMessage { channel_id, content } && (channel_id == m.channel_id
            && content@ == error_prefix() + error_text@))),
        ctx.command_type is SLASH ==> (ctx.slash matches Some(s) && (r
            matches ReplyAction::InteractionReply { id, token, response } && (id == s.id && token@
            == s.token@ && response.kind is ChannelMessageWithSource && response.ephemeral == true
            && (response.content matches Some(c) && c@ == error_prefix() + error_text@)))),
{
    let mut text = String::from_str("error when running a command: ");
    text.append(error_text);
    match ctx.command_type {
        CommandType::TEXT => {
            let m = ctx.text_msg();
            ReplyAction::NewMessage { channel_id: m.channel_id, content: text }
        },
        CommandType::SLASH => {
            let s = ctx.slash_payload();
            let token = s.token.clone();
            ReplyAction::InteractionReply {
                id: s.id,
                token,
                response: ResponsePayload {
                    kind: ResponseKind::ChannelMessageWithSource,
                    content: Some(text),
                    ephemeral: true,
                },
            }
        },
    }
}

/// Picks the channel a plain reply travels on, the way the bot sends
/// answers: a fresh channel message when the event was a text message;
/// otherwise a response on the interaction, either the caller's
/// prepared response or a plain non-ephemeral message holding
/// `content`; and no reply at all when neither surface is at hand.
pub fn route_reply(
    content: String,
    interaction_response: Option<ResponsePayload>,
    msg: Option<&MessagePayload>,
    slash: Option<&SlashPayload>,
) -> (r: Option<ReplyAction>)
    ensures
        msg matches Some(m) ==> (r matches Some(a) && (a matches ReplyAction::NewMessage {
            channel_id,
            content: c,
        } && (channel_id == m.channel_id && c@ == content@))),
        msg is None ==> ((slash matches Some(s) ==> (r matches Some(a) && (a
            matches ReplyAction::InteractionReply { id, token, response } && (id == s.id && token@
            == s.token@ && (interaction_response matches Some(given) ==> response == given) && (
        interaction_response is None ==> (response.kind is ChannelMessageWithSource && (
        response.content matches Some(c) && c@ == content@) && !response.ephemeral)))))) && (
        slash is None ==> r is None)),
{
    match msg {
        Some(m) => Some(ReplyAction::NewMessage { channel_id: m.channel_id, content }),
        None => match slash {
            Some(s) => {
                let response = match interaction_response {
                    Some(given) => given,
                    None => ResponsePayload {
                        kind: ResponseKind::ChannelMessageWithSource,
                        content: Some(content),
                        ephemeral: false,
                    },
                };
                Some(
                    ReplyAction::InteractionReply { id: s.id, token: s.token.clone(), response },
                )
            },
            None => None,
        },
    }
}

} // verus!
