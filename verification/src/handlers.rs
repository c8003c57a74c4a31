//! What is to be done about a message, decided from what is known of it.
//!
//! Nothing is sent or stored from here. Each function takes what the
//! transport found in a message and says which step comes next.

use crate::argument_parser::{parse_arguments, parsed, ArgumentError};
use crate::autoreplies::{Autoreply, AutoreplyResponse, AutoreplyView, ResponseView, RuleError};
use crate::pattern::pattern_compiles;
use vstd::prelude::*;
use vstd::string::StringExecFns;

verus! {

/// The text that stands for a reply which holds neither a sticker nor a text.
pub const MISSING_REPLY_TEXT: &'static str = "[object Object]";

/// What comes of a request to add a rule.
#[derive(Debug)]
pub enum AddMessageStep {
    /// The arguments could not be read.
    BadArguments(ArgumentError),
    /// Name and pattern were given. The answer itself is awaited: the user
    /// sends it as a reply to the command.
    AwaitReply,
    /// The number of arguments is not one that the command takes.
    WrongArgumentCount,
    /// The pattern is no regular expression. Holds the compiler's message.
    BadPattern(String),
    /// The rule that is to be registered.
    Register(Autoreply),
}

/// The rule that the arguments `name`, `pattern` ask for, or the reason why
/// there is none.
pub open spec fn rule_step(
    step: AddMessageStep,
    chat_id: i64,
    name: Seq<char>,
    pattern: Seq<char>,
    response: ResponseView,
) -> bool {
    if pattern_compiles(pattern) {
        step matches AddMessageStep::Register(rule) && rule@ == (AutoreplyView {
            chat_id,
            name,
            pattern,
            response,
        })
    } else {
        step is BadPattern
    }
}

/// What the command that adds a rule comes to on its arguments: with name,
/// pattern and text the rule is made; with name and pattern alone the answer
/// is awaited as a reply; any other number of arguments is refused.
pub open spec fn add_message_step(step: AddMessageStep, chat_id: i64, args: Seq<char>) -> bool {
    match parsed(args) {
        None => step is BadArguments,
        Some(arguments) => if arguments.len() == 2 {
            step is AwaitReply
        } else if arguments.len() != 3 {
            step is WrongArgumentCount
        } else {
            rule_step(
                step,
                chat_id,
                arguments[0],
                arguments[1],
                ResponseView::Literal(arguments[2]),
            )
        },
    }
}

/// What a reply answers with: its sticker if it holds one, else its text,
/// else a text that stands for a reply that holds neither.
pub open spec fn reply_response(
    sticker: Option<Seq<char>>,
    text: Option<Seq<char>>,
) -> ResponseView {
    match sticker {
        Some(file_id) => ResponseView::Sticker(file_id),
        None => match text {
            Some(text) => ResponseView::Literal(text),
            None => ResponseView::Literal(MISSING_REPLY_TEXT@),
        },
    }
}

/// What a reply to the command that adds a rule comes to, on the arguments
/// of that command: they must be name and pattern, and the reply gives the
/// answer of the rule.
pub open spec fn add_message_reply_step(
    step: AddMessageStep,
    chat_id: i64,
    previous_args: Seq<char>,
    response: ResponseView,
) -> bool {
    match parsed(previous_args) {
        None => step is BadArguments,
        Some(arguments) => if arguments.len() != 2 {
            step is WrongArgumentCount
        } else {
            rule_step(step, chat_id, arguments[0], arguments[1], response)
        },
    }
}

/// Makes the rule, or says why the pattern does not allow it.
fn make_rule(chat_id: i64, name: &String, pattern: &String, response: AutoreplyResponse) -> (step:
    AddMessageStep)
    ensures
        rule_step(step, chat_id, name@, pattern@, response@),
{
    match Autoreply::new(chat_id, name.clone(), pattern.as_str(), response) {
        Ok(rule) => AddMessageStep::Register(rule),
        Err(RuleError::InvalidPattern(message)) => AddMessageStep::BadPattern(message),
        Err(RuleError::DuplicateName) => AddMessageStep::BadPattern(String::new()),
    }
}

/// Decides what the command that adds a rule comes to on its arguments.
pub fn handle_add_message(chat_id: i64, args: &str) -> (step: AddMessageStep)
    ensures
        add_message_step(step, chat_id, args@),
{
    match parse_arguments(args) {
        Err(error) => AddMessageStep::BadArguments(error),
        Ok((_, arguments)) => {
            if arguments.len() == 2 {
                AddMessageStep::AwaitReply
            } else if arguments.len() != 3 {
                AddMessageStep::WrongArgumentCount
            } else {
                let response = AutoreplyResponse::Literal(arguments[2].clone());
                make_rule(chat_id, &arguments[0], &arguments[1], response)
            }
        },
    }
}

/// Decides what a reply to the command that adds a rule comes to. The
/// reply's sticker is given by the reference under which it can be sent.
pub fn handle_add_message_reply(
    chat_id: i64,
    previous_args: &str,
    sticker: Option<&str>,
    text: Option<&str>,
) -> (step: AddMessageStep)
    ensures
        add_message_reply_step(
            step,
            chat_id,
            previous_args@,
            reply_response(
                match sticker {
                    Some(s) => Some(s@),
                    None => None,
                },
                match text {
                    Some(t) => Some(t@),
                    None => None,
                },
            ),
        ),
{
    match parse_arguments(previous_args) {
        Err(error) => AddMessageStep::BadArguments(error),
        Ok((_, arguments)) => {
            if arguments.len() != 2 {
                AddMessageStep::WrongArgumentCount
            } else {
                let response = match sticker {
                    Some(file_id) => AutoreplyResponse::Sticker(String::from_str(file_id)),
                    None => match text {
                        Some(text) => AutoreplyResponse::Literal(String::from_str(text)),
                        None => AutoreplyResponse::Literal(String::from_str(MISSING_REPLY_TEXT)),
                    },
                };
                make_rule(chat_id, &arguments[0], &arguments[1], response)
            }
        },
    }
}

/// What the message that a message replies to was.
#[derive(Copy, Clone, Debug, PartialEq, Eq, Structural)]
pub enum OriginalCommand {
    /// No command of the bot.
    NoCommand,
    /// The command that adds a rule.
    AddMessage,
    /// Another command of the bot.
    Other,
}

/// What is known of the message that a message replies to.
#[derive(Copy, Clone, Debug, PartialEq, Eq, Structural)]
pub struct OriginalFacts {
    /// Whether the bot itself sent it.
    pub from_bot: bool,
    /// Whether the one who sent it also sent the reply.
    pub same_sender: bool,
    /// Which command it was, if one.
    pub command: OriginalCommand,
}

/// What is known of the sticker that a message holds.
#[derive(Copy, Clone, Debug, PartialEq, Eq, Structural)]
pub struct StickerFacts {
    /// Whether the sticker belongs to a named set. One that does not is a
    /// picture that was sent as a sticker.
    pub in_set: bool,
    /// Whether the sticker stands for an emoji.
    pub has_emoji: bool,
}

/// What is known of a message that came in.
#[derive(Copy, Clone, Debug, PartialEq, Eq, Structural)]
pub struct MessageFacts {
    /// The message it replies to, if it is a reply.
    pub original: Option<OriginalFacts>,
    /// The sticker it holds, if it holds one.
    pub sticker: Option<StickerFacts>,
}

/// What is to be done about a message that came in.
#[derive(Copy, Clone, Debug, PartialEq, Eq, Structural)]
pub enum MessagePlan {
    /// Someone answered another user's command: it is met with a blush.
    Blush,
    /// The reply gives the answer of a rule that is being added.
    FinishAddMessage,
    /// The sticker is a picture: it is sent back as one.
    ReencodeSticker,
    /// The sticker is noted in the chat's history and may be answered by
    /// another sticker seen for the same emoji.
    EchoSticker,
    /// The sticker stands for no emoji: nothing is done.
    Nothing,
    /// The text is held against the rules of the chat. A reply to the bot's
    /// own message is answered for certain by every rule it sets off.
    Autoreply { force_fire: bool },
}

/// Whether the message replies to a message that the bot itself sent.
pub open spec fn replies_to_bot(facts: MessageFacts) -> bool {
    match facts.original {
        Some(original) => original.from_bot,
        None => false,
    }
}

/// What is to be done about a message. A reply to a command comes first:
/// from another user than the command's it is met with a blush, and a
/// reply to the command that adds a rule finishes that rule. Then a message
/// with a sticker is treated as a sticker, and only a message without one
/// is held against the rules.
pub open spec fn planned(facts: MessageFacts) -> MessagePlan {
    if facts.original matches Some(original) && original.command != OriginalCommand::NoCommand
        && !original.same_sender {
        MessagePlan::Blush
    } else if facts.original matches Some(original) && original.command
        == OriginalCommand::AddMessage {
        MessagePlan::FinishAddMessage
    } else {
        match facts.sticker {
            Some(sticker) => if !sticker.in_set {
                MessagePlan::ReencodeSticker
            } else if sticker.has_emoji {
                MessagePlan::EchoSticker
            } else {
                MessagePlan::Nothing
            },
            None => MessagePlan::Autoreply { force_fire: replies_to_bot(facts) },
        }
    }
}

/// Decides what is to be done about a message that came in.
pub fn plan_message(facts: MessageFacts) -> (plan: MessagePlan)
    ensures
        plan == planned(facts),
{
    let mut force_fire = false;
    match facts.original {
        Some(original) => {
            if original.from_bot {
                force_fire = true;
            }
            match original.command {
                OriginalCommand::NoCommand => {},
                OriginalCommand::AddMessage => {
                    if !original.same_sender {
                        return MessagePlan::Blush;
                    }
                    return MessagePlan::FinishAddMessage;
                },
                OriginalCommand::Other => {
                    if !original.same_sender {
                        return MessagePlan::Blush;
                    }
                },
            }
        },
        None => {},
    }
    match facts.sticker {
        Some(sticker) => {
            if !sticker.in_set {
                MessagePlan::ReencodeSticker
            } else if sticker.has_emoji {
                MessagePlan::EchoSticker
            } else {
                MessagePlan::Nothing
            }
        },
        None => MessagePlan::Autoreply { force_fire },
    }
}

/// Only a message without a sticker is held against the rules, and it is
/// answered for certain exactly when it replies to the bot's own message.
pub proof fn lemma_plan_autoreply(facts: MessageFacts)
    ensures
        planned(facts) is Autoreply ==> facts.sticker is None,
        planned(facts) matches MessagePlan::Autoreply { force_fire } ==> force_fire
            == replies_to_bot(facts),
        facts.original is None && facts.sticker is None ==> planned(facts) == (
        MessagePlan::Autoreply { force_fire: false }),
{
}

} // verus!
