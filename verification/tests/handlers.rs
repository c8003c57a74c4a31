use haloobot::autoreplies::AutoreplyResponse;
use haloobot::handlers::{
    handle_add_message, handle_add_message_reply, plan_message, AddMessageStep, MessageFacts,
    MessagePlan, OriginalCommand, OriginalFacts, StickerFacts, MISSING_REPLY_TEXT,
};

#[test]
fn add_message_with_three_arguments_makes_a_literal_rule() {
    match handle_add_message(7, "greet \"h[ae]llo\" \"hi there\"") {
        AddMessageStep::Register(rule) => {
            assert_eq!(rule.chat_id(), 7);
            assert_eq!(rule.name(), "greet");
            assert_eq!(rule.pattern(), "h[ae]llo");
            assert!(matches!(rule.response(), AutoreplyResponse::Literal(text) if text == "hi there"));
        }
        other => panic!("expected a rule, got {:?}", other),
    }
}

#[test]
fn add_message_with_two_arguments_awaits_the_reply() {
    assert!(matches!(handle_add_message(7, "greet hello"), AddMessageStep::AwaitReply));
    assert!(matches!(handle_add_message(7, "greet (unclosed"), AddMessageStep::AwaitReply));
}

#[test]
fn add_message_with_another_number_of_arguments_is_refused() {
    assert!(matches!(handle_add_message(7, "greet"), AddMessageStep::WrongArgumentCount));
    assert!(matches!(handle_add_message(7, "a b c d"), AddMessageStep::WrongArgumentCount));
}

#[test]
fn add_message_with_unreadable_arguments_is_refused() {
    assert!(matches!(handle_add_message(7, ""), AddMessageStep::BadArguments(_)));
    assert!(matches!(handle_add_message(7, "a \"b"), AddMessageStep::BadArguments(_)));
}

#[test]
fn add_message_with_a_bad_pattern_is_refused_with_the_compilers_message() {
    match handle_add_message(7, "greet (unclosed hi") {
        AddMessageStep::BadPattern(message) => assert!(!message.is_empty()),
        other => panic!("expected a bad pattern, got {:?}", other),
    }
}

#[test]
fn reply_with_a_sticker_makes_a_sticker_rule() {
    match handle_add_message_reply(7, "greet hello", Some("file-9"), Some("ignored")) {
        AddMessageStep::Register(rule) => {
            assert_eq!(rule.name(), "greet");
            assert_eq!(rule.pattern(), "hello");
            assert!(matches!(rule.response(), AutoreplyResponse::Sticker(id) if id == "file-9"));
        }
        other => panic!("expected a rule, got {:?}", other),
    }
}

#[test]
fn reply_with_a_text_makes_a_literal_rule() {
    match handle_add_message_reply(7, "greet hello", None, Some("good day")) {
        AddMessageStep::Register(rule) => {
            assert!(matches!(rule.response(), AutoreplyResponse::Literal(text) if text == "good day"));
        }
        other => panic!("expected a rule, got {:?}", other),
    }
}

#[test]
fn reply_without_sticker_or_text_gets_the_stand_in_text() {
    assert_eq!(MISSING_REPLY_TEXT, "[object Object]");
    match handle_add_message_reply(7, "greet hello", None, None) {
        AddMessageStep::Register(rule) => {
            assert!(
                matches!(rule.response(), AutoreplyResponse::Literal(text) if text == "[object Object]")
            );
        }
        other => panic!("expected a rule, got {:?}", other),
    }
}

#[test]
fn reply_needs_exactly_name_and_pattern() {
    assert!(matches!(
        handle_add_message_reply(7, "greet hello hi", None, Some("x")),
        AddMessageStep::WrongArgumentCount
    ));
    assert!(matches!(
        handle_add_message_reply(7, "greet", None, Some("x")),
        AddMessageStep::WrongArgumentCount
    ));
    assert!(matches!(
        handle_add_message_reply(7, "\"", None, Some("x")),
        AddMessageStep::BadArguments(_)
    ));
    assert!(matches!(
        handle_add_message_reply(7, "greet [a-", None, Some("x")),
        AddMessageStep::BadPattern(_)
    ));
}

fn original(from_bot: bool, same_sender: bool, command: OriginalCommand) -> Option<OriginalFacts> {
    Some(OriginalFacts { from_bot, same_sender, command })
}

#[test]
fn plain_text_is_held_against_the_rules() {
    let plan = plan_message(MessageFacts { original: None, sticker: None });
    assert_eq!(plan, MessagePlan::Autoreply { force_fire: false });
}

#[test]
fn a_reply_to_the_bot_is_answered_for_certain() {
    let plan = plan_message(MessageFacts {
        original: original(true, false, OriginalCommand::NoCommand),
        sticker: None,
    });
    assert_eq!(plan, MessagePlan::Autoreply { force_fire: true });
    let to_someone_else = plan_message(MessageFacts {
        original: original(false, false, OriginalCommand::NoCommand),
        sticker: None,
    });
    assert_eq!(to_someone_else, MessagePlan::Autoreply { force_fire: false });
}

#[test]
fn a_reply_to_another_users_command_is_met_with_a_blush() {
    for command in [OriginalCommand::AddMessage, OriginalCommand::Other] {
        let plan = plan_message(MessageFacts {
            original: original(false, false, command),
            sticker: Some(StickerFacts { in_set: true, has_emoji: true }),
        });
        assert_eq!(plan, MessagePlan::Blush);
    }
}

#[test]
fn a_reply_to_ones_own_add_message_finishes_the_rule() {
    let plan = plan_message(MessageFacts {
        original: original(false, true, OriginalCommand::AddMessage),
        sticker: Some(StickerFacts { in_set: true, has_emoji: true }),
    });
    assert_eq!(plan, MessagePlan::FinishAddMessage);
}

#[test]
fn a_reply_to_ones_own_other_command_is_an_ordinary_message() {
    let plan = plan_message(MessageFacts {
        original: original(false, true, OriginalCommand::Other),
        sticker: None,
    });
    assert_eq!(plan, MessagePlan::Autoreply { force_fire: false });
}

#[test]
fn stickers_are_treated_as_stickers() {
    let picture = plan_message(MessageFacts {
        original: None,
        sticker: Some(StickerFacts { in_set: false, has_emoji: true }),
    });
    assert_eq!(picture, MessagePlan::ReencodeSticker);
    let echo = plan_message(MessageFacts {
        original: original(true, true, OriginalCommand::NoCommand),
        sticker: Some(StickerFacts { in_set: true, has_emoji: true }),
    });
    assert_eq!(echo, MessagePlan::EchoSticker);
    let nothing = plan_message(MessageFacts {
        original: None,
        sticker: Some(StickerFacts { in_set: true, has_emoji: false }),
    });
    assert_eq!(nothing, MessagePlan::Nothing);
}
