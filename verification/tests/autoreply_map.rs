use haloobot::autoreplies::{Autoreply, AutoreplyResponse, RuleError};
use haloobot::autoreply_map::{
    add_message, create_autoreply_set_map, register_rule, AutoreplySetMap,
};
use haloobot::chance::CHANCE_ONE;
use haloobot::reply_gate::dispatch;

fn literal(chat: i64, name: &str, pattern: &str, text: &str) -> Autoreply {
    Autoreply::new(chat, name.to_string(), pattern, AutoreplyResponse::Literal(text.to_string()))
        .unwrap()
}

fn sticker(chat: i64, name: &str, pattern: &str, file_id: &str) -> Autoreply {
    Autoreply::new(chat, name.to_string(), pattern, AutoreplyResponse::Sticker(file_id.to_string()))
        .unwrap()
}

fn names(sets: &AutoreplySetMap, chat: i64, text: &str) -> Vec<String> {
    sets.get(&chat).unwrap().get_matches(text).iter().map(|rule| rule.name().to_string()).collect()
}

#[test]
fn rules_are_sorted_by_chat_and_keep_their_order() {
    let sets = create_autoreply_set_map(vec![
        literal(1, "a", "x", "A"),
        literal(2, "b", "x", "B"),
        literal(1, "c", "x+", "C"),
        literal(3, "d", "y", "D"),
        literal(2, "e", "x", "E"),
        literal(1, "f", "x", "F"),
    ])
    .unwrap();
    assert_eq!(sets.len(), 3);
    assert_eq!(names(&sets, 1, "x"), vec!["a", "f", "c"]);
    assert_eq!(names(&sets, 2, "x"), vec!["b", "e"]);
    assert_eq!(names(&sets, 3, "x"), Vec::<String>::new());
    assert_eq!(names(&sets, 3, "y"), vec!["d"]);
    assert_eq!(sets.get(&1).unwrap().len(), 3);
}

#[test]
fn no_rules_give_no_sets() {
    let sets = create_autoreply_set_map(vec![]).unwrap();
    assert!(sets.is_empty());
}

#[test]
fn rules_of_one_chat_that_share_a_name_are_refused() {
    let outcome = create_autoreply_set_map(vec![
        literal(1, "a", "x", "A"),
        literal(2, "a", "x", "B"),
        literal(1, "a", "y", "C"),
    ]);
    assert!(matches!(outcome, Err(RuleError::DuplicateName)));
}

#[test]
fn the_same_name_in_two_chats_is_taken() {
    let sets = create_autoreply_set_map(vec![literal(1, "a", "x", "A"), literal(2, "a", "x", "B")])
        .unwrap();
    assert_eq!(sets.len(), 2);
}

#[test]
fn adding_a_rule_to_a_chat_without_rules_gives_it_a_set() {
    let mut sets = AutoreplySetMap::new();
    assert!(add_message(&mut sets, literal(5, "a", "hello", "hi")).is_ok());
    assert_eq!(names(&sets, 5, "hello there"), vec!["a"]);
    assert!(add_message(&mut sets, literal(5, "b", "there", "yo")).is_ok());
    assert_eq!(names(&sets, 5, "hello there"), vec!["a", "b"]);
    assert!(add_message(&mut sets, literal(6, "a", "hello", "other chat")).is_ok());
    assert_eq!(names(&sets, 5, "hello there"), vec!["a", "b"]);
    assert_eq!(names(&sets, 6, "hello there"), vec!["a"]);
}

#[test]
fn a_refused_rule_changes_nothing() {
    let mut sets = AutoreplySetMap::new();
    add_message(&mut sets, literal(5, "a", "hello", "hi")).unwrap();
    let outcome = add_message(&mut sets, literal(5, "a", "bye", "later"));
    assert!(matches!(outcome, Err(RuleError::DuplicateName)));
    assert_eq!(sets.len(), 1);
    assert_eq!(sets.get(&5).unwrap().len(), 1);
    assert_eq!(names(&sets, 5, "bye"), Vec::<String>::new());
}

#[test]
fn dispatch_answers_with_the_rules_of_the_chat() {
    let mut sets = AutoreplySetMap::new();
    add_message(&mut sets, literal(1, "a", "hello", "hi")).unwrap();
    add_message(&mut sets, sticker(1, "s", "hello", "file-1")).unwrap();
    add_message(&mut sets, literal(1, "b", "world", "planet")).unwrap();
    add_message(&mut sets, literal(2, "c", "hello", "other")).unwrap();
    let forced = dispatch(&sets, 1, "hello world", 0, true);
    assert_eq!(forced.text, Some("hi".to_string()));
    assert_eq!(forced.sticker, Some("file-1".to_string()));
    let certain = dispatch(&sets, 1, "world", CHANCE_ONE, false);
    assert_eq!(certain.text, Some("planet".to_string()));
    assert_eq!(certain.sticker, None);
    let other = dispatch(&sets, 2, "hello world", CHANCE_ONE, false);
    assert_eq!(other.text, Some("other".to_string()));
}

#[test]
fn dispatch_is_silent_under_chance_zero_and_for_unknown_chats() {
    let mut sets = AutoreplySetMap::new();
    add_message(&mut sets, literal(1, "a", "hello", "hi")).unwrap();
    let silent = dispatch(&sets, 1, "hello", 0, false);
    assert_eq!(silent.text, None);
    assert_eq!(silent.sticker, None);
    let unknown = dispatch(&sets, 9, "hello", CHANCE_ONE, true);
    assert_eq!(unknown.text, None);
    assert_eq!(unknown.sticker, None);
    let no_match = dispatch(&sets, 1, "bye", CHANCE_ONE, true);
    assert_eq!(no_match.text, None);
}

#[test]
fn registering_a_rule_from_what_a_user_gave() {
    let mut sets = AutoreplySetMap::new();
    let hello = AutoreplyResponse::Literal("hi".to_string());
    assert!(register_rule(&mut sets, 3, "greet".to_string(), "h[ae]llo", hello).is_ok());
    assert_eq!(names(&sets, 3, "hallo"), vec!["greet"]);
    let bad = AutoreplyResponse::Literal("x".to_string());
    let outcome = register_rule(&mut sets, 3, "bad".to_string(), "(", bad);
    assert!(matches!(outcome, Err(RuleError::InvalidPattern(_))));
    let again = AutoreplyResponse::Sticker("file".to_string());
    let outcome = register_rule(&mut sets, 3, "greet".to_string(), "bye", again);
    assert!(matches!(outcome, Err(RuleError::DuplicateName)));
    assert_eq!(sets.get(&3).unwrap().len(), 1);
    let unknown = AutoreplyResponse::Literal("x".to_string());
    let outcome = register_rule(&mut sets, 4, "bad".to_string(), "[", unknown);
    assert!(outcome.is_err());
    assert!(!sets.contains_key(&4));
}
