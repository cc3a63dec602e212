//! The per-connection realtime channel: a state machine that starts
//! unauthenticated, may move to authenticated once, and never moves
//! back for the connection's lifetime.  Command requests reach the
//! command gate only on an authenticated channel; the OS action itself
//! is carried out elsewhere and answered through `command_reply`.

use vstd::prelude::*;

use crate::command::{
    authorize_spec, decide_command, resolve_spec, views_of, CommandDecision, CommandError,
    CommandPolicy,
};
use crate::auth::AuthManager;
use crate::models::CommandResult;
use crate::session::{has_token, token_index, token_valid, Session};

verus! {

/// A parsed inbound frame.  `Malformed` stands for a payload that did
/// not parse as any known message.
pub enum InboundMessage {
    Ping,
    Auth { token: String },
    CommandRequest { id: String, command: String, args: Vec<String> },
    Close,
    Malformed,
}

/// A frame sent back on the channel.
pub enum ChannelReply {
    Pong,
    AuthSuccess,
    AuthError { message: String },
    CommandResponse { id: String, success: bool, output: String },
    Error { message: String },
}

/// An authorized invocation handed to the OS action backend.
pub struct CommandInvocation {
    pub id: String,
    pub command: String,
    pub args: Vec<String>,
}

/// What one inbound frame leads to.
pub struct ChannelOutcome {
    pub reply: Option<ChannelReply>,
    pub invoke: Option<CommandInvocation>,
    pub close: bool,
}

/// The text a refusal travels as.
pub open spec fn rejection_text(e: CommandError) -> Seq<char> {
    match e {
        CommandError::NotWhitelisted => "Command is not in whitelist"@,
        CommandError::CustomDisabled => "Custom commands are disabled"@,
        CommandError::UnknownCommand => "Unknown command"@,
        CommandError::ExecutionFailure(d) => d@,
    }
}

/// The refusal as a reply payload.
pub fn rejection_message(e: &CommandError) -> (r: String)
    ensures
        r@ == rejection_text(*e),
{
    match e {
        CommandError::NotWhitelisted => "Command is not in whitelist".to_owned(),
        CommandError::CustomDisabled => "Custom commands are disabled".to_owned(),
        CommandError::UnknownCommand => "Unknown command".to_owned(),
        CommandError::ExecutionFailure(d) => d.clone(),
    }
}

/// One connection's state.
pub struct RealtimeChannel {
    authenticated: bool,
}

impl RealtimeChannel {
    pub closed spec fn is_authenticated(&self) -> bool {
        self.authenticated
    }

    /// A fresh connection: unauthenticated.
    pub fn new() -> (r: Self)
        ensures
            !r.is_authenticated(),
    {
        RealtimeChannel { authenticated: false }
    }

    /// Consume one inbound frame at `now`.
    ///
    /// `ping` is answered whatever the state; `auth` consults the
    /// session store and moves the channel to authenticated exactly on
    /// a valid token; a `command_request` on an unauthenticated channel
    /// is refused without consulting the command gate or the backend; on
    /// an authenticated channel the command gate decides it, and only an
    /// approval carries an invocation out.  A malformed frame draws an error
    /// reply without ending the connection; `close` ends it.
    pub fn handle_message(
        &mut self,
        msg: InboundMessage,
        auth: &mut AuthManager,
        policy: &CommandPolicy,
        now: u64,
    ) -> (r: ChannelOutcome)
        requires
            old(auth).wf(),
        ensures
            final(auth).wf(),
            final(auth).max_sessions() == old(auth).max_sessions(),
            final(auth).cred() == old(auth).cred(),
            final(auth).ledger() == old(auth).ledger(),
            final(self).is_authenticated() ==> old(self).is_authenticated() || msg matches
                InboundMessage::Auth { token },
            old(self).is_authenticated() ==> final(self).is_authenticated(),
            msg matches InboundMessage::Ping ==> r.reply == Some(ChannelReply::Pong)
                && r.invoke is None && !r.close && *final(self) == *old(self) && final(auth).sess()
                == old(auth).sess(),
            msg matches InboundMessage::Close ==> r.reply is None && r.invoke is None && r.close
                && *final(self) == *old(self) && final(auth).sess() == old(auth).sess(),
            msg matches InboundMessage::Malformed ==> (r.reply matches Some(
                ChannelReply::Error { message })
                && message@ == "Invalid message format"@) && r.invoke is None && !r.close
                && *final(self) == *old(self) && final(auth).sess() == old(auth).sess(),
            msg matches InboundMessage::Auth { token } ==> {
                let was_valid = token_valid(old(auth).sess(), token@, now as int);
                &&& r.invoke is None
                &&& !r.close
                &&& final(self).is_authenticated() == (old(self).is_authenticated() || was_valid)
                &&& (was_valid ==> r.reply == Some(ChannelReply::AuthSuccess))
                &&& (!was_valid ==> (r.reply matches Some(ChannelReply::AuthError { message })
                    && message@ == "Invalid or expired token"@))
                &&& (!has_token(old(auth).sess(), token@) ==> final(auth).sess() == old(auth).sess())
                &&& (has_token(old(auth).sess(), token@) && !was_valid ==> final(auth).sess()
                    == old(auth).sess().remove(token_index(old(auth).sess(), token@)))
                &&& (has_token(old(auth).sess(), token@) && was_valid ==> final(auth).sess()
                    == old(auth).sess().update(
                    token_index(old(auth).sess(), token@),
                    (Session {
                        token: old(auth).sess()[token_index(old(auth).sess(), token@)].token,
                        created_at: old(auth).sess()[token_index(
                            old(auth).sess(),
                            token@,
                        )].created_at,
                        last_access: now,
                        device_id: old(auth).sess()[token_index(
                            old(auth).sess(),
                            token@,
                        )].device_id,
                    }),
                ))
            },
            msg matches InboundMessage::CommandRequest { id, command, args } ==> {
                &&& final(auth).sess() == old(auth).sess()
                &&& *final(self) == *old(self)
                &&& !r.close
                &&& (!old(self).is_authenticated() ==> (r.reply matches Some(
                    ChannelReply::Error { message })
                    && message@ == "Not authenticated"@) && r.invoke is None)
                &&& (old(self).is_authenticated() ==> {
                    let resolved = resolve_spec(command@, views_of(args@));
                    match authorize_spec(policy, resolved.0) {
                        Some(e) => (r.reply matches Some(
                            ChannelReply::CommandResponse { id: rid, success, output })
                            && rid@ == id@ && !success && output@ == rejection_text(e))
                            && r.invoke is None,
                        None => r.reply is None && (r.invoke matches Some(inv) && inv.id@ == id@
                            && inv.command@ == resolved.0 && views_of(inv.args@) == resolved.1),
                    }
                })
            },
    {
        match msg {
            InboundMessage::Ping => ChannelOutcome {
                reply: Some(ChannelReply::Pong),
                invoke: None,
                close: false,
            },
            InboundMessage::Close => ChannelOutcome { reply: None, invoke: None, close: true },
            InboundMessage::Malformed => ChannelOutcome {
                reply: Some(
                    ChannelReply::Error { message: "Invalid message format".to_owned() },
                ),
                invoke: None,
                close: false,
            },
            InboundMessage::Auth { token } => {
                if auth.verify_token(token.as_str(), now) {
                    self.authenticated = true;
                    ChannelOutcome {
                        reply: Some(ChannelReply::AuthSuccess),
                        invoke: None,
                        close: false,
                    }
                } else {
                    ChannelOutcome {
                        reply: Some(
                            ChannelReply::AuthError {
                                message: "Invalid or expired token".to_owned(),
                            },
                        ),
                        invoke: None,
                        close: false,
                    }
                }
            },
            InboundMessage::CommandRequest { id, command, args } => {
                if !self.authenticated {
                    ChannelOutcome {
                        reply: Some(
                            ChannelReply::Error { message: "Not authenticated".to_owned() },
                        ),
                        invoke: None,
                        close: false,
                    }
                } else {
                    match decide_command(policy, command.as_str(), &args) {
                        CommandDecision::Rejected { error } => ChannelOutcome {
                            reply: Some(
                                ChannelReply::CommandResponse {
                                    id,
                                    success: false,
                                    output: rejection_message(&error),
                                },
                            ),
                            invoke: None,
                            close: false,
                        },
                        CommandDecision::Approved { command: cmd, args: rest } => ChannelOutcome {
                            reply: None,
                            invoke: Some(CommandInvocation { id, command: cmd, args: rest }),
                            close: false,
                        },
                    }
                }
            },
        }
    }
}

/// The correlated reply once the backend ran an approved invocation:
/// standard output on success, standard error otherwise.
pub fn command_reply(id: String, result: &CommandResult) -> (r: ChannelReply)
    ensures
        r matches ChannelReply::CommandResponse { id: rid, success, output } && rid@ == id@
            && success == result.success && output@ == if result.success {
            result.stdout@
        } else {
            result.stderr@
        },
{
    if result.success {
        ChannelReply::CommandResponse { id, success: true, output: result.stdout.clone() }
    } else {
        ChannelReply::CommandResponse { id, success: false, output: result.stderr.clone() }
    }
}

} // verus!
